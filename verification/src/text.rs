//! Numbers and dates as text: what decimal numerals look like, how they are written and read, and
//! how texts are ordered.
use vstd::prelude::*;
use vstd::string::*;

verus! {

/// Whether `c` is a decimal digit.
pub open spec fn is_digit(c: char) -> bool {
    '0' <= c <= '9'
}

/// The digit with the value `d`.
pub open spec fn digit(d: int) -> char {
    ('0' as int + d) as char
}

/// The decimal numeral of `n`, without leading zeros.
pub open spec fn decimal(n: nat) -> Seq<char>
    decreases n,
{
    if n < 10 {
        seq![digit(n as int)]
    } else {
        decimal(n / 10).push(digit((n % 10) as int))
    }
}

/// The decimal numeral of `n` with a minus sign in front where `n` is negative.
pub open spec fn integer(n: int) -> Seq<char> {
    if n < 0 {
        seq!['-'] + decimal((-n) as nat)
    } else {
        decimal(n as nat)
    }
}

/// `count` zeros.
pub open spec fn zeros(count: int) -> Seq<char> {
    Seq::new(if count < 0 { 0nat } else { count as nat }, |i: int| '0')
}

/// The numeral of `n`, filled up to `width` characters with zeros behind its sign.
pub open spec fn padded(n: int, width: int) -> Seq<char> {
    if n < 0 {
        seq!['-'] + zeros(width - 1 - decimal((-n) as nat).len()) + decimal((-n) as nat)
    } else {
        zeros(width - decimal(n as nat).len()) + decimal(n as nat)
    }
}

/// The number that a sequence of digits stands for.
pub open spec fn digits_value(s: Seq<char>) -> nat
    decreases s.len(),
{
    if s.len() == 0 {
        0
    } else {
        (digits_value(s.drop_last()) * 10 + (s.last() as int - '0' as int)) as nat
    }
}

/// Whether `s` holds digits only.
pub open spec fn all_digits(s: Seq<char>) -> bool {
    forall|i: int| 0 <= i < s.len() ==> is_digit(#[trigger] s[i])
}

/// The number that a text denotes: one or more digits, with or without a plus sign in front.
pub open spec fn natural_of(s: Seq<char>) -> Option<nat> {
    let digits = if s.len() > 0 && s[0] == '+' { s.skip(1) } else { s };
    if digits.len() > 0 && all_digits(digits) {
        Some(digits_value(digits))
    } else {
        None
    }
}

/// The index of the first `c` in `s`, or the length of `s` where there is none.
pub open spec fn index_of_first(s: Seq<char>, c: char) -> int
    decreases s.len(),
{
    if s.len() == 0 || s[0] == c {
        0
    } else {
        1 + index_of_first(s.skip(1), c)
    }
}

/// Lexicographic order by code point.
pub open spec fn text_less(a: Seq<char>, b: Seq<char>) -> bool
    decreases a.len(),
{
    if b.len() == 0 {
        false
    } else if a.len() == 0 {
        true
    } else if a[0] == b[0] {
        text_less(a.skip(1), b.skip(1))
    } else {
        (a[0] as int) < (b[0] as int)
    }
}

/// The texts that strings hold.
pub open spec fn texts(strings: Seq<String>) -> Seq<Seq<char>> {
    strings.map_values(|s: String| s@)
}

/// The characters of a text.
pub fn chars_of(s: &str) -> (chars: Vec<char>)
    ensures
        chars@ == s@,
{
    broadcast use vstd::string::group_string_axioms;
    let mut chars: Vec<char> = Vec::new();
    for c in it: s.chars()
        invariant
            it.seq() == s@,
            chars@ == s@.take(it.index() as int),
    {
        chars.push(c);
    }
    assert(s@.take(s@.len() as int) =~= s@);
    chars
}

/// Appends the digit with the value `d`.
fn push_digit(out: &mut String, d: u128)
    requires
        d < 10,
    ensures
        final(out)@ == old(out)@.push(digit(d as int)),
{
    proof {
        reveal_strlit("0");
        reveal_strlit("1");
        reveal_strlit("2");
        reveal_strlit("3");
        reveal_strlit("4");
        reveal_strlit("5");
        reveal_strlit("6");
        reveal_strlit("7");
        reveal_strlit("8");
        reveal_strlit("9");
    }
    let numeral: &str = if d == 0 { "0" } else if d == 1 { "1" } else if d == 2 { "2" }
        else if d == 3 { "3" } else if d == 4 { "4" } else if d == 5 { "5" }
        else if d == 6 { "6" } else if d == 7 { "7" } else if d == 8 { "8" } else { "9" };
    assert(numeral@ =~= seq![digit(d as int)]);
    assert(out@ + numeral@ =~= out@.push(digit(d as int)));
    out.append(numeral);
}

/// Appends the decimal numeral of `n`.
pub fn push_decimal(out: &mut String, n: u128)
    ensures
        final(out)@ == old(out)@ + decimal(n as nat),
    decreases n,
{
    if n >= 10 {
        push_decimal(out, n / 10);
    }
    push_digit(out, n % 10);
    assert(out@ =~= old(out)@ + decimal(n as nat));
}

/// Appends `count` zeros.
fn push_zeros(out: &mut String, count: usize)
    ensures
        final(out)@ == old(out)@ + zeros(count as int),
    decreases count,
{
    if count > 0 {
        push_zeros(out, count - 1);
        push_digit(out, 0);
    }
    assert(out@ =~= old(out)@ + zeros(count as int));
}

/// The decimal numeral of `n` as a text of its own.
fn decimal_text(n: u128) -> (out: String)
    ensures
        out@ == decimal(n as nat),
{
    let mut out: String = String::new();
    push_decimal(&mut out, n);
    assert(out@ =~= decimal(n as nat));
    out
}

/// The absolute value of `n`.
fn magnitude(n: i128) -> (m: u128)
    ensures
        m == if n < 0 { -n } else { n as int },
{
    if n < 0 {
        (-(n + 1)) as u128 + 1
    } else {
        n as u128
    }
}

/// Writes an integer in decimal.
pub fn integer_text(n: i128) -> (out: String)
    ensures
        out@ == integer(n as int),
{
    let mut out: String = String::new();
    if n < 0 {
        proof {
            reveal_strlit("-");
        }
        out.append("-");
        assert(out@ =~= seq!['-']);
    }
    push_decimal(&mut out, magnitude(n));
    assert(out@ =~= integer(n as int));
    out
}

/// Appends an integer, filled up to `width` characters with zeros behind its sign.
pub fn push_padded(out: &mut String, n: i128, width: usize)
    ensures
        final(out)@ == old(out)@ + padded(n as int, width as int),
{
    let numeral: String = decimal_text(magnitude(n));
    let used: usize = chars_of(numeral.as_str()).len();
    let mut room: usize = width;
    if n < 0 {
        proof {
            reveal_strlit("-");
        }
        out.append("-");
        assert("-"@ =~= seq!['-']);
        room = if room > 0 { room - 1 } else { 0 };
    }
    push_zeros(out, if used < room { room - used } else { 0 });
    out.append(numeral.as_str());
    proof {
        lemma_decimal_digits(magnitude_of(n as int));
    }
    assert(out@ =~= old(out)@ + padded(n as int, width as int));
}

/// The absolute value of an integer.
pub open spec fn magnitude_of(n: int) -> nat {
    if n < 0 { (-n) as nat } else { n as nat }
}

/// Reads the number that the characters from `from` up to `to` denote, where it is at most `max`.
pub fn parse_natural(chars: &Vec<char>, from: usize, to: usize, max: u32) -> (value: Option<u32>)
    requires
        from <= to <= chars@.len(),
    ensures
        value == (match natural_of(chars@.subrange(from as int, to as int)) {
            Some(n) if n <= max => Some(n as u32),
            _ => None,
        }),
{
    let ghost all = chars@.subrange(from as int, to as int);
    let signed: bool = from < to && chars[from] == '+';
    let start: usize = if signed { from + 1 } else { from };
    let ghost digits = chars@.subrange(start as int, to as int);
    assert(digits =~= if all.len() > 0 && all[0] == '+' { all.skip(1) } else { all });
    if start == to {
        return None;
    }
    let mut value: u64 = 0;
    let mut i: usize = start;
    while i < to
        invariant
            start <= i <= to <= chars@.len(),
            all == chars@.subrange(from as int, to as int),
            digits == chars@.subrange(start as int, to as int),
            all_digits(digits.take(i - start)),
            value == digits_value(digits.take(i - start)),
            value <= max,
            natural_of(all) == (if digits.len() > 0 && all_digits(digits) {
                Some(digits_value(digits))
            } else {
                None
            }),
        decreases to - i,
    {
        let c: char = chars[i];
        assert(c == digits[i - start]);
        if c < '0' || c > '9' {
            return None;
        }
        let ghost before = digits.take(i - start);
        let ghost after = digits.take(i + 1 - start);
        assert(after.drop_last() =~= before);
        value = value * 10 + (c as u64 - '0' as u64);
        i += 1;
        assert(all_digits(after)) by {
            assert forall|k: int| 0 <= k < after.len() implies is_digit(#[trigger] after[k]) by {
                if k < before.len() {
                    assert(before[k] == after[k]);
                }
            }
        }
        if value > max as u64 {
            proof {
                if all_digits(digits) {
                    lemma_digits_value_grows(digits, i - start);
                }
            }
            return None;
        }
    }
    assert(digits.take(to - start) =~= digits);
    Some(value as u32)
}

/// The index of the first `c` at or behind `from`, or the length where there is none.
pub fn find_char(chars: &Vec<char>, from: usize, c: char) -> (at: usize)
    requires
        from <= chars@.len(),
    ensures
        at == from + index_of_first(chars@.skip(from as int), c),
        from <= at <= chars@.len(),
        at < chars@.len() ==> chars@[at as int] == c,
{
    let mut at: usize = from;
    while at < chars.len() && chars[at] != c
        invariant
            from <= at <= chars@.len(),
            at + index_of_first(chars@.skip(at as int), c) == from + index_of_first(
                chars@.skip(from as int),
                c,
            ),
        decreases chars@.len() - at,
    {
        assert(chars@.skip(at as int).skip(1) =~= chars@.skip(at + 1));
        at += 1;
    }
    at
}

/// Whether the text `s` holds the character `c`.
pub fn contains_char(s: &str, c: char) -> (found: bool)
    ensures
        found == s@.contains(c),
{
    let chars: Vec<char> = chars_of(s);
    let mut i: usize = 0;
    while i < chars.len()
        invariant
            i <= chars@.len(),
            chars@ == s@,
            forall|k: int| 0 <= k < i ==> chars@[k] != c,
        decreases chars@.len() - i,
    {
        if chars[i] == c {
            assert(chars@[i as int] == c);
            return true;
        }
        i += 1;
    }
    false
}

/// Whether the text `a` comes before the text `b`.
pub fn comes_before(a: &str, b: &str) -> (less: bool)
    ensures
        less == text_less(a@, b@),
{
    let left: Vec<char> = chars_of(a);
    let right: Vec<char> = chars_of(b);
    let mut i: usize = 0;
    assert(left@.skip(0) =~= left@);
    assert(right@.skip(0) =~= right@);
    while i < left.len() && i < right.len()
        invariant
            i <= left@.len(),
            i <= right@.len(),
            left@ == a@,
            right@ == b@,
            text_less(a@, b@) == text_less(left@.skip(i as int), right@.skip(i as int)),
        decreases left@.len() - i,
    {
        let l: char = left[i];
        let r: char = right[i];
        assert(left@.skip(i as int)[0] == l);
        assert(right@.skip(i as int)[0] == r);
        if l != r {
            return l < r;
        }
        assert(left@.skip(i as int).skip(1) =~= left@.skip(i + 1));
        assert(right@.skip(i as int).skip(1) =~= right@.skip(i + 1));
        i += 1;
    }
    i < right.len()
}

/// Puts three texts together.
pub fn join3(a: &str, b: &str, c: &str) -> (out: String)
    ensures
        out@ == a@ + b@ + c@,
{
    let mut out: String = a.to_owned();
    out.append(b);
    out.append(c);
    out
}

/// Puts four texts together.
pub fn join4(a: &str, b: &str, c: &str, d: &str) -> (out: String)
    ensures
        out@ == a@ + b@ + c@ + d@,
{
    let mut out: String = a.to_owned();
    out.append(b);
    out.append(c);
    out.append(d);
    out
}

/// The order of texts is a line: no text comes before itself, and what lies between two texts lies
/// behind the one or before the other.
pub proof fn texts_form_a_line(a: Seq<char>, b: Seq<char>, c: Seq<char>)
    ensures
        !text_less(a, a),
        text_less(a, b) && text_less(b, c) ==> text_less(a, c),
        text_less(a, b) ==> text_less(a, c) || text_less(c, b),
    decreases a.len(),
{
    if a.len() > 0 {
        if b.len() > 0 && c.len() > 0 {
            texts_form_a_line(a.skip(1), b.skip(1), c.skip(1));
        } else {
            texts_form_a_line(a.skip(1), a.skip(1), a.skip(1));
        }
    }
}

/// A numeral holds at least one digit, digits only, and reads back as the number.
proof fn lemma_decimal_digits(n: nat)
    ensures
        decimal(n).len() > 0,
        all_digits(decimal(n)),
        digits_value(decimal(n)) == n,
    decreases n,
{
    if n >= 10 {
        lemma_decimal_digits(n / 10);
        assert(decimal(n).drop_last() =~= decimal(n / 10));
    } else {
        assert(decimal(n).drop_last() =~= Seq::<char>::empty());
        assert(digits_value(Seq::<char>::empty()) == 0);
    }
}

proof fn lemma_zeros_in_front(count: int, s: Seq<char>)
    requires
        all_digits(s),
    ensures
        all_digits(zeros(count) + s),
        digits_value(zeros(count) + s) == digits_value(s),
    decreases s.len(), count,
{
    let whole = zeros(count) + s;
    if s.len() > 0 {
        assert(is_digit(s[s.len() - 1]));
        assert(all_digits(s.drop_last()));
        lemma_zeros_in_front(count, s.drop_last());
        assert(whole.drop_last() =~= zeros(count) + s.drop_last());
    } else if count > 0 {
        lemma_zeros_in_front(count - 1, s);
        assert(whole.drop_last() =~= zeros(count - 1) + s);
    } else {
        assert(whole =~= s);
    }
    assert forall|i: int| 0 <= i < whole.len() implies is_digit(#[trigger] whole[i]) by {
        if i >= zeros(count).len() {
            assert(whole[i] == s[i - zeros(count).len()]);
        }
    }
}

/// A number that is not negative reads back from its numeral, filled up with zeros or not.
pub proof fn padded_reads_back(n: nat, width: int)
    ensures
        padded(n as int, width).len() > 0,
        padded(n as int, width).len() >= width,
        all_digits(padded(n as int, width)),
        natural_of(padded(n as int, width)) == Some(n),
{
    lemma_decimal_digits(n);
    lemma_zeros_in_front(width - decimal(n).len(), decimal(n));
    let s = padded(n as int, width);
    assert(is_digit(s[0]));
}

/// A number below 100 that is filled up to two characters has two digits.
pub proof fn two_digits(n: nat)
    requires
        n < 100,
    ensures
        padded(n as int, 2) == seq![digit(n as int / 10), digit(n as int % 10)],
{
    reveal_with_fuel(decimal, 2);
    assert(padded(n as int, 2) =~= seq![digit(n as int / 10), digit(n as int % 10)]);
}

/// The first character in which two texts differ decides which comes first.
pub proof fn the_first_difference_decides(a: Seq<char>, b: Seq<char>, at: int)
    requires
        0 <= at < a.len(),
        at < b.len(),
        forall|i: int| 0 <= i < at ==> a[i] == b[i],
        (a[at] as int) < (b[at] as int),
    ensures
        text_less(a, b),
        !text_less(b, a),
    decreases at,
{
    if at > 0 {
        the_first_difference_decides(a.skip(1), b.skip(1), at - 1);
    }
}

/// A number below 10,000 that is filled up to four characters has four digits.
pub proof fn four_digits(n: nat)
    requires
        n < 10_000,
    ensures
        padded(n as int, 4) == seq![
            digit(n as int / 1_000),
            digit(n as int / 100 % 10),
            digit(n as int / 10 % 10),
            digit(n as int % 10),
        ],
{
    reveal_with_fuel(decimal, 4);
    assert(padded(n as int, 4) =~= seq![
        digit(n as int / 1_000),
        digit(n as int / 100 % 10),
        digit(n as int / 10 % 10),
        digit(n as int % 10),
    ]);
}

/// A dash behind digits is the first one.
pub proof fn dash_behind_digits(s: Seq<char>, t: Seq<char>)
    requires
        all_digits(s),
    ensures
        index_of_first(s + seq!['-'] + t, '-') == s.len(),
    decreases s.len(),
{
    let whole = s + seq!['-'] + t;
    if s.len() > 0 {
        assert(is_digit(s[0]));
        assert(all_digits(s.skip(1)));
        dash_behind_digits(s.skip(1), t);
        assert(whole.skip(1) =~= s.skip(1) + seq!['-'] + t);
    }
}

/// More digits never stand for a smaller number.
proof fn lemma_digits_value_grows(s: Seq<char>, n: int)
    requires
        0 <= n <= s.len(),
        all_digits(s),
    ensures
        digits_value(s.take(n)) <= digits_value(s),
    decreases s.len(),
{
    if n == s.len() {
        assert(s.take(n) =~= s);
    } else {
        assert(is_digit(s[s.len() - 1]));
        lemma_digits_value_grows(s.drop_last(), n);
        assert(s.drop_last().take(n) =~= s.take(n));
    }
}

} // verus!
