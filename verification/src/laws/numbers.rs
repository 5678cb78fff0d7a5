//! Numbers, as text and as bits, and the order of texts.
use vstd::prelude::*;

use crate::double::Double;
use crate::text;

verus! {

/// The digits are `0` to `9`.
pub proof fn digits_are_characters(d: int, c: char)
    requires
        0 <= d < 10,
    ensures
        text::digit(d) as int == 48 + d,
        text::is_digit(c) <==> 48 <= c as int <= 57,
{
}

/// A numeral is the numeral of a tenth of the number with one more digit, and a number below ten has
/// one digit.
pub proof fn numerals_grow_by_a_digit(n: nat)
    ensures
        n < 10 ==> text::decimal(n) == seq![(48 + n as int) as char],
        n >= 10 ==> text::decimal(n) == text::decimal(n / 10).push((48 + n as int % 10) as char),
{
}

/// A numeral has no leading zero, but for that of zero.
pub proof fn numerals_have_no_leading_zero(n: nat)
    ensures
        text::decimal(n).len() > 0,
        n > 0 ==> text::decimal(n)[0] != '0',
    decreases n,
{
    if n >= 10 {
        numerals_have_no_leading_zero(n / 10);
        assert(text::decimal(n)[0] == text::decimal(n / 10)[0]);
    }
}

/// An integer that is not negative is written as its numeral, a negative one with a minus sign in
/// front. Both read back.
pub proof fn integers_read_back(n: int)
    ensures
        n >= 0 ==> text::natural_of(text::integer(n)) == Some(n as nat),
        n >= 0 ==> text::integer(n) == text::decimal(n as nat),
        n < 0 ==> text::integer(n) == seq!['-'] + text::integer(-n),
        text::integer(n).len() > 0,
        n > 0 ==> text::integer(n)[0] != '0',
{
    let size: nat = if n < 0 { (-n) as nat } else { n as nat };
    numerals_have_no_leading_zero(size);
    text::padded_reads_back(size, 0);
    assert(text::padded(size as int, 0) =~= text::decimal(size));
}

/// A number that is filled up with zeros reads back and has the width, or more characters and no zero
/// in front. A negative one is the positive one, filled up to one character less, behind a minus
/// sign.
pub proof fn filled_numbers(n: int, width: int)
    requires
        width >= 1,
    ensures
        n >= 0 ==> {
            &&& text::natural_of(text::padded(n, width)) == Some(n as nat)
            &&& forall|i: int|
                0 <= i < text::padded(n, width).len() ==> '0' <= #[trigger] text::padded(n, width)[i]
                    <= '9'
            &&& text::padded(n, width).len() >= width
            &&& text::padded(n, width).len() > width ==> text::padded(n, width)[0] != '0'
        },
        n < 0 ==> text::padded(n, width) == seq!['-'] + text::padded(-n, width - 1),
{
    if n >= 0 {
        text::padded_reads_back(n as nat, width);
        assert forall|i: int| 0 <= i < text::padded(n, width).len() implies '0'
            <= #[trigger] text::padded(n, width)[i] <= '9' by {
            assert(text::is_digit(text::padded(n, width)[i]));
        }
        numerals_have_no_leading_zero(n as nat);
        if text::padded(n, width).len() > width {
            assert(text::padded(n, width) =~= text::decimal(n as nat));
            if n == 0 {
                numerals_grow_by_a_digit(0);
            }
        }
    } else {
        assert(text::padded(n, width) =~= seq!['-'] + text::padded(-n, width - 1));
    }
}

/// What a text denotes: digits count by tens, one plus sign may stand in front, and nothing else
/// denotes a number.
pub proof fn numbers_are_read_by_tens(s: Seq<char>, c: char)
    ensures
        text::natural_of(Seq::empty()) is None,
        '0' <= c <= '9' ==> text::natural_of(seq![c]) == Some((c as int - 48) as nat),
        text::natural_of(s) matches Some(n) ==> text::natural_of(s.push(c)) == (if '0' <= c <= '9' {
            Some((10 * n + (c as int - 48)) as nat)
        } else {
            None
        }),
        s.len() > 0 && s[0] != '+' ==> text::natural_of(seq!['+'] + s) == text::natural_of(s),
        text::natural_of(s) is Some ==> s.len() > 0 && (forall|i: int|
            1 <= i < s.len() ==> '0' <= #[trigger] s[i] <= '9') && (s[0] == '+' || '0' <= s[0]
            <= '9'),
        text::natural_of(seq!['+']) is None,
{
    assert(seq![c].drop_last() =~= Seq::empty());
    assert(text::digits_value(Seq::<char>::empty()) == 0);
    assert(seq!['+'].skip(1) =~= Seq::empty());
    if '0' <= c <= '9' {
        assert(text::all_digits(seq![c]));
        assert(text::digits_value(seq![c]) == c as int - 48);
    }
    if text::natural_of(s) is Some {
        let digits = if s[0] == '+' { s.skip(1) } else { s };
        let more = if s.push(c)[0] == '+' { s.push(c).skip(1) } else { s.push(c) };
        assert(more =~= digits.push(c));
        assert(digits.push(c).drop_last() =~= digits);
        assert(digits.push(c).last() == c);
        if '0' <= c <= '9' {
            assert forall|i: int| 0 <= i < more.len() implies text::is_digit(#[trigger] more[i]) by {
                if i < digits.len() {
                    assert(more[i] == digits[i]);
                }
            }
        } else {
            assert(!text::is_digit(more[more.len() - 1]));
        }
        assert forall|i: int| 1 <= i < s.len() implies '0' <= #[trigger] s[i] <= '9' by {
            if s[0] == '+' {
                assert(text::is_digit(digits[i - 1]));
            } else {
                assert(text::is_digit(digits[i]));
            }
        }
        if s[0] != '+' {
            assert(text::is_digit(digits[0]));
        }
    }
    assert((seq!['+'] + s).skip(1) =~= s);
}

/// Texts are ordered by the first place at which they differ, and a text comes before a longer one
/// that starts with it.
pub proof fn the_first_difference_orders(a: Seq<char>, b: Seq<char>) -> (at: int)
    ensures
        0 <= at <= a.len(),
        at <= b.len(),
        forall|i: int| 0 <= i < at ==> #[trigger] a[i] == b[i],
        at < a.len() && at < b.len() ==> a[at] != b[at],
        text::text_less(a, b) <==> at < b.len() && (at == a.len() || (a[at] as int) < (
        b[at] as int)),
    decreases a.len(),
{
    if a.len() == 0 || b.len() == 0 || a[0] != b[0] {
        0
    } else {
        let at = the_first_difference_orders(a.skip(1), b.skip(1));
        assert forall|i: int| 0 <= i < at + 1 implies #[trigger] a[i] == b[i] by {
            if i > 0 {
                assert(a.skip(1)[i - 1] == b.skip(1)[i - 1]);
            }
        }
        at + 1
    }
}

/// The order of floating-point numbers, on their bits: positive numbers by their bits, negative ones
/// the other way round, both zeros alike. What is no number is neither larger nor smaller.
pub proof fn numbers_are_ordered_by_their_bits(a: Double, b: Double)
    ensures
        ({
            let a_size: int = if a.bits < 0x8000_0000_0000_0000 { a.bits as int } else {
                a.bits - 0x8000_0000_0000_0000
            };
            let b_size: int = if b.bits < 0x8000_0000_0000_0000 { b.bits as int } else {
                b.bits - 0x8000_0000_0000_0000
            };
            let a_place: int = if a.bits < 0x8000_0000_0000_0000 { a_size } else { -a_size };
            let b_place: int = if b.bits < 0x8000_0000_0000_0000 { b_size } else { -b_size };
            &&& a.is_nan() <==> a_size > 0x7ff0_0000_0000_0000
            &&& a.rank() == a_place
            &&& a.exceeds(b) <==> a_size <= 0x7ff0_0000_0000_0000 && b_size <= 0x7ff0_0000_0000_0000
                && a_place > b_place
            &&& a.at_most_zero() <==> a_size <= 0x7ff0_0000_0000_0000 && a_place <= 0
        }),
{
}

} // verus!
