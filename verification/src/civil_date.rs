//! Conversions between Unix day numbers and civil dates of the proleptic Gregorian calendar.
use vstd::prelude::*;
use vstd::string::*;

use crate::text;

verus! {

/// Whether `year` has a 29th of February.
pub open spec fn is_leap(year: int) -> bool {
    year % 4 == 0 && (year % 100 != 0 || year % 400 == 0)
}

/// The day number of the 1st of January of `year`, counted from the 1st of January 1970.
pub open spec fn year_start(year: int) -> int {
    365 * (year - 1970) + (year - 1) / 4 - (year - 1) / 100 + (year - 1) / 400 - 477
}

/// The length of a month.
pub open spec fn month_length(year: int, month: int) -> int {
    if month == 2 {
        if is_leap(year) { 29 } else { 28 }
    } else if month == 4 || month == 6 || month == 9 || month == 11 {
        30
    } else {
        31
    }
}

/// How many days of `year` lie before the 1st of `month`.
///
/// Month 0 is the December before. Past December the months go on from March in groups of five
/// that hold 153 days.
pub open spec fn month_start(year: int, month: int) -> int {
    let leap_day: int = if is_leap(year) { 1 } else { 0 };
    if month <= 0 { -31 }
    else if month == 1 { 0 }
    else if month == 2 { 31 }
    else if month == 3 { 59 + leap_day }
    else if month == 4 { 90 + leap_day }
    else if month == 5 { 120 + leap_day }
    else if month == 6 { 151 + leap_day }
    else if month == 7 { 181 + leap_day }
    else if month == 8 { 212 + leap_day }
    else if month == 9 { 243 + leap_day }
    else if month == 10 { 273 + leap_day }
    else if month == 11 { 304 + leap_day }
    else if month == 12 { 334 + leap_day }
    else { 59 + leap_day + (153 * (month - 3) + 2) / 5 }
}

/// The day number of a date, counted from the 1st of January 1970.
pub open spec fn day_number(year: int, month: int, day: int) -> int {
    year_start(year) + month_start(year, month) + day - 1
}

/// A date of the calendar.
pub struct Civil {
    pub year: int,
    pub month: int,
    pub day: int,
}

impl Civil {
    /// Whether the calendar has this date.
    pub open spec fn valid(self) -> bool {
        &&& 1 <= self.month <= 12
        &&& 1 <= self.day <= month_length(self.year, self.month)
    }

    /// Whether the year, then the month, then the day is smaller than that of `other`.
    pub open spec fn before(self, other: Civil) -> bool {
        ||| self.year < other.year
        ||| self.year == other.year && self.month < other.month
        ||| self.year == other.year && self.month == other.month && self.day < other.day
    }

    /// The date's day number.
    pub open spec fn number(self) -> int {
        day_number(self.year, self.month, self.day)
    }
}

/// The date that has the day number `days`.
pub open spec fn civil_of_day(days: int) -> Civil {
    choose|c: Civil| c.valid() && #[trigger] c.number() == days
}

/// The year that is written for `year`: one that no `i32` holds is written as 1970.
pub open spec fn written_year(year: int) -> int {
    if i32::MIN <= year <= i32::MAX { year } else { 1970 }
}

/// A date as `YYYY-MM-DD`.
pub open spec fn date_text(year: int, month: int, day: int) -> Seq<char> {
    text::padded(year, 4) + seq!['-'] + text::padded(month, 2) + seq!['-'] + text::padded(
        day,
        2,
    )
}

/// The day that a Unix timestamp falls on.
pub open spec fn day_of(unix_ts: int) -> int {
    unix_ts / 86_400
}

/// The date of a Unix timestamp as `YYYY-MM-DD`, in UTC.
pub open spec fn timestamp_text(unix_ts: int) -> Seq<char> {
    let date = civil_of_day(day_of(unix_ts));
    date_text(written_year(date.year), date.month, date.day)
}

/// The day number of a date, counted from the 1st of January 1970.
///
/// A month or a day outside the calendar is counted on from the last one inside it.
pub fn days_from_civil(year: i32, month: u32, day: u32) -> (days: i64)
    ensures
        days == day_number(year as int, month as int, day as int),
        -2_000_000_000_000 < days < 2_000_000_000_000,
{
    let adjusted_year: i64 = year as i64 - if month <= 2 { 1i64 } else { 0i64 };
    let era: i64 = adjusted_year.checked_div_euclid(400).unwrap();
    let yoe: i64 = adjusted_year - era * 400;
    let shifted_month: i64 = month as i64 + if month > 2 { -3i64 } else { 9i64 };
    let doy: i64 = (153 * shifted_month + 2) / 5 + day as i64 - 1;
    let doe: i64 = yoe * 365 + yoe / 4 - yoe / 100 + doy;
    proof {
        lemma_cycle(adjusted_year as int, era as int, yoe as int);
        lemma_march_first(adjusted_year as int);
        lemma_month_from_march(year as int, month as int);
    }
    era * 146_097 + doe - 719_468
}

/// The date (year, month, day) with the day number `days`, counted from the 1st of January 1970.
///
/// Where the year does not fit into the result, 1970 stands in its place.
pub fn civil_from_days(days: i64) -> (date: (i32, u32, u32))
    requires
        days <= i64::MAX - 719_468,
    ensures
        ({
            let c = civil_of_day(days as int);
            &&& c.valid()
            &&& c.number() == days
            &&& date.0 == written_year(c.year)
            &&& date.1 == c.month
            &&& date.2 == c.day
        }),
{
    let z: i64 = days + 719_468;
    let era: i64 = z.checked_div_euclid(146_097).unwrap();
    let doe: i64 = z - era * 146_097;
    let yoe: i64 = (doe - doe / 1_460 + doe / 36_524 - doe / 146_096) / 365;
    let doy: i64 = doe - (365 * yoe + yoe / 4 - yoe / 100);
    proof {
        lemma_year_of_era(doe as int);
    }
    let mp: i64 = (5 * doy + 2) / 153;
    let day: i64 = doy - (153 * mp + 2) / 5 + 1;
    let month: i64 = mp + if mp < 10 { 3i64 } else { -9i64 };
    let year: i64 = yoe + era * 400 + if month <= 2 { 1i64 } else { 0i64 };
    proof {
        let c = civil_at(days as int);
        lemma_civil_at(days as int);
        civil_of_its_number(c);
        assert(year == c.year && month == c.month && day == c.day);
    }
    let written: i32 = if -2_147_483_648 <= year && year <= 2_147_483_647 { year as i32 } else { 1970 };
    (written, month as u32, day as u32)
}

/// Writes the date of a Unix timestamp as `YYYY-MM-DD`, in UTC. The time of day is dropped.
pub fn format_date(unix_ts: i64) -> (out: String)
    ensures
        out@ == timestamp_text(unix_ts as int),
{
    let (year, month, day) = civil_from_days(unix_ts.checked_div_euclid(86_400).unwrap());
    let mut out: String = String::new();
    text::push_padded(&mut out, year as i128, 4);
    out.append("-");
    text::push_padded(&mut out, month as i128, 2);
    out.append("-");
    text::push_padded(&mut out, day as i128, 2);
    proof {
        reveal_strlit("-");
        assert("-"@ =~= seq!['-']);
        assert(out@ =~= date_text(year as int, month as int, day as int));
    }
    out
}

/// The date with the day number `days`, found in cycles of 400 years that start in March.
spec fn civil_at(days: int) -> Civil {
    let z = days + 719_468;
    let era = z / 146_097;
    let doe = z % 146_097;
    let yoe = (doe - doe / 1_460 + doe / 36_524 - doe / 146_096) / 365;
    let doy = doe - (365 * yoe + yoe / 4 - yoe / 100);
    let mp = (5 * doy + 2) / 153;
    let month = if mp < 10 { mp + 3 } else { mp - 9 };
    Civil {
        year: yoe + era * 400 + if month <= 2 { 1int } else { 0int },
        month,
        day: doy - (153 * mp + 2) / 5 + 1,
    }
}

proof fn lemma_year_of_era(doe: int)
    requires
        0 <= doe < 146_097,
    ensures
        ({
            let yoe = (doe - doe / 1_460 + doe / 36_524 - doe / 146_096) / 365;
            let doy = doe - (365 * yoe + yoe / 4 - yoe / 100);
            &&& 0 <= yoe < 400
            &&& 0 <= doy <= 365
            &&& doy == 365 ==> is_leap(yoe + 1)
        }),
{
}

proof fn lemma_month_of_year(doy: int)
    requires
        0 <= doy <= 365,
    ensures
        ({
            let mp = (5 * doy + 2) / 153;
            let first = (153 * mp + 2) / 5;
            let next = (153 * (mp + 1) + 2) / 5;
            &&& 0 <= mp <= 11
            &&& first <= doy < next
            &&& mp == 11 ==> first == 337
        }),
{
}

/// How a year is counted within its cycle of 400 years.
proof fn lemma_cycle(year: int, era: int, yoe: int)
    requires
        year == 400 * era + yoe,
        0 <= yoe < 400,
    ensures
        year / 4 == 100 * era + yoe / 4,
        year / 100 == 4 * era + yoe / 100,
        year / 400 == era,
        is_leap(year + 1) == is_leap(yoe + 1),
{
    assert(year / 4 == 100 * era + yoe / 4);
    assert(year / 100 == 4 * era + yoe / 100);
    assert(year / 400 == era);
    assert((year + 1) % 4 == (yoe + 1) % 4);
    assert((year + 1) % 100 == (yoe + 1) % 100);
    assert((year + 1) % 400 == (yoe + 1) % 400);
}

/// Where a month starts, counted from the 1st of March before it.
proof fn lemma_month_from_march(year: int, month: int)
    requires
        0 <= month,
    ensures
        month <= 2 ==> year_start(year) + month_start(year, month) == year_start(year - 1)
            + month_start(year - 1, 3) + (153 * (month + 9) + 2) / 5,
        month > 2 ==> month_start(year, month) == month_start(year, 3) + (153 * (month - 3) + 2)
            / 5,
{
    years_follow_each_other(year - 1);
}

/// The months from March on, as a March-based year counts them.
proof fn lemma_month_in_march_year(year: int, mp: int)
    requires
        0 <= mp <= 11,
    ensures
        ({
            let month = if mp < 10 { mp + 3 } else { mp - 9 };
            let first = (153 * mp + 2) / 5;
            let next = (153 * (mp + 1) + 2) / 5;
            &&& mp < 10 ==> month_start(year, month) == month_start(year, 3) + first
            &&& mp >= 10 ==> year_start(year + 1) + month_start(year + 1, month) == year_start(
                year,
            ) + month_start(year, 3) + first
            &&& mp < 10 ==> month_length(year, month) == next - first
            &&& mp == 10 ==> month_length(year + 1, month) == next - first
        }),
{
    if mp < 10 {
        lemma_month_from_march(year, mp + 3);
    } else {
        lemma_month_from_march(year + 1, mp - 9);
    }
    if mp <= 10 {
        lemma_march_lengths(mp);
    }
}

/// The lengths of the months from March on, February aside.
proof fn lemma_march_lengths(mp: int)
    requires
        0 <= mp <= 10,
    ensures
        ({
            let length: int = if mp == 1 || mp == 3 || mp == 6 || mp == 8 { 30 } else { 31 };
            (153 * (mp + 1) + 2) / 5 - (153 * mp + 2) / 5 == length
        }),
{
}

/// The day number of the 1st of March.
proof fn lemma_march_first(year: int)
    ensures
        year_start(year) + month_start(year, 3) == 365 * year + year / 4 - year / 100 + year / 400
            - 719_468,
{
    lemma_multiples(year);
}

proof fn lemma_civil_at(days: int)
    ensures
        civil_at(days).valid(),
        civil_at(days).number() == days,
{
    let z = days + 719_468;
    let era = z / 146_097;
    let doe = z % 146_097;
    let yoe = (doe - doe / 1_460 + doe / 36_524 - doe / 146_096) / 365;
    let doy = doe - (365 * yoe + yoe / 4 - yoe / 100);
    lemma_year_of_era(doe);
    let y = yoe + era * 400;
    lemma_cycle(y, era, yoe);
    lemma_march_first(y);
    lemma_month_of_year(doy);
    let mp = (5 * doy + 2) / 153;
    lemma_month_in_march_year(y, mp);
    assert(days == year_start(y) + month_start(y, 3) + doy);
}

/// One multiple of 4, of 100 or of 400 more is passed exactly where there is one.
proof fn lemma_multiples(year: int)
    ensures
        year / 4 == (year - 1) / 4 + if year % 4 == 0 { 1int } else { 0int },
        year / 100 == (year - 1) / 100 + if year % 100 == 0 { 1int } else { 0int },
        year / 400 == (year - 1) / 400 + if year % 400 == 0 { 1int } else { 0int },
        year % 400 == 0 ==> year % 100 == 0,
        year % 100 == 0 ==> year % 4 == 0,
{
    assert(year / 4 == (year - 1) / 4 + if year % 4 == 0 { 1int } else { 0int });
    assert(year / 100 == (year - 1) / 100 + if year % 100 == 0 { 1int } else { 0int });
    assert(year / 400 == (year - 1) / 400 + if year % 400 == 0 { 1int } else { 0int });
}

/// Each year starts where the one before it ends, 1970 at day 0.
pub proof fn years_follow_each_other(year: int)
    ensures
        year_start(1970) == 0,
        year_start(year + 1) == year_start(year) + if is_leap(year) { 366int } else { 365int },
{
    lemma_multiples(year);
}

/// Each month starts where the one before it ends, and December ends with the year.
pub proof fn months_follow_each_other(year: int, month: int)
    requires
        1 <= month <= 12,
    ensures
        month_start(year, 1) == 0,
        month < 12 ==> month_start(year, month + 1) == month_start(year, month) + month_length(
            year,
            month,
        ),
        month == 12 ==> year_start(year + 1) == year_start(year) + month_start(year, month)
            + month_length(year, month),
{
    years_follow_each_other(year);
}

proof fn lemma_year_start_grows(a: int, b: int)
    requires
        a < b,
    ensures
        year_start(a + 1) <= year_start(b),
{
}

/// A date of the calendar is the only one with its day number: counting the days up to a date and
/// asking for the date of that day gives the date back.
pub proof fn civil_of_its_number(c: Civil)
    requires
        c.valid(),
    ensures
        civil_of_day(c.number()) == c,
{
    let d = civil_of_day(c.number());
    assert(c.valid() && c.number() == c.number());
    assert(d.valid() && d.number() == c.number());
    if c.year < d.year {
        lemma_year_start_grows(c.year, d.year);
    }
    if d.year < c.year {
        lemma_year_start_grows(d.year, c.year);
    }
}

/// Every day has a date, and counting the days up to that date gives the day back.
pub proof fn number_of_its_civil(days: int)
    ensures
        civil_of_day(days).valid(),
        civil_of_day(days).number() == days,
{
    lemma_civil_at(days);
    civil_of_its_number(civil_at(days));
}

/// All timestamps of one day have the same date text.
pub proof fn time_of_day_is_dropped(unix_ts: int, of_day: int)
    requires
        unix_ts % 86_400 == 0,
        0 <= of_day < 86_400,
    ensures
        timestamp_text(unix_ts + of_day) == timestamp_text(unix_ts),
{
}

/// The ten characters of a date with a year of up to four digits, whether or not the calendar has it.
pub proof fn date_characters(year: int, month: int, day: int)
    requires
        0 <= year <= 9999,
        0 <= month < 100,
        0 <= day < 100,
    ensures
        date_text(year, month, day) == seq![
            text::digit(year / 1_000),
            text::digit(year / 100 % 10),
            text::digit(year / 10 % 10),
            text::digit(year % 10),
            '-',
            text::digit(month / 10),
            text::digit(month % 10),
            '-',
            text::digit(day / 10),
            text::digit(day % 10),
        ],
{
    text::four_digits(year as nat);
    text::two_digits(month as nat);
    text::two_digits(day as nat);
    assert(date_text(year, month, day) =~= seq![
        text::digit(year / 1_000),
        text::digit(year / 100 % 10),
        text::digit(year / 10 % 10),
        text::digit(year % 10),
        '-',
        text::digit(month / 10),
        text::digit(month % 10),
        '-',
        text::digit(day / 10),
        text::digit(day % 10),
    ]);
}

/// Of two dates as texts the one comes first whose year, then whose month, then whose day is
/// smaller, whether or not the calendar has the dates.
pub proof fn smaller_fields_come_first(a: Civil, b: Civil)
    requires
        0 <= a.year <= 9999,
        0 <= b.year <= 9999,
        0 <= a.month < 100,
        0 <= b.month < 100,
        0 <= a.day < 100,
        0 <= b.day < 100,
        a.before(b),
    ensures
        text::text_less(
            date_text(a.year, a.month, a.day),
            date_text(b.year, b.month, b.day),
        ),
        !text::text_less(
            date_text(b.year, b.month, b.day),
            date_text(a.year, a.month, a.day),
        ),
{
    let first = date_text(a.year, a.month, a.day);
    let second = date_text(b.year, b.month, b.day);
    date_characters(a.year, a.month, a.day);
    date_characters(b.year, b.month, b.day);
    if a.year < b.year {
        lemma_four_digits_in_order(a.year, b.year);
        if a.year / 1_000 < b.year / 1_000 {
            text::the_first_difference_decides(first, second, 0);
        } else if a.year / 100 % 10 < b.year / 100 % 10 {
            text::the_first_difference_decides(first, second, 1);
        } else if a.year / 10 % 10 < b.year / 10 % 10 {
            text::the_first_difference_decides(first, second, 2);
        } else {
            text::the_first_difference_decides(first, second, 3);
        }
    } else if a.month < b.month {
        if a.month / 10 < b.month / 10 {
            text::the_first_difference_decides(first, second, 5);
        } else {
            text::the_first_difference_decides(first, second, 6);
        }
    } else {
        if a.day / 10 < b.day / 10 {
            text::the_first_difference_decides(first, second, 8);
        } else {
            text::the_first_difference_decides(first, second, 9);
        }
    }
}

/// The first digit in which two numbers below 10,000 differ decides which is smaller.
proof fn lemma_four_digits_in_order(x: int, y: int)
    requires
        0 <= x < y <= 9999,
    ensures
        ({
            ||| x / 1_000 < y / 1_000
            ||| x / 1_000 == y / 1_000 && x / 100 % 10 < y / 100 % 10
            ||| x / 1_000 == y / 1_000 && x / 100 % 10 == y / 100 % 10 && x / 10 % 10 < y / 10 % 10
            ||| x / 1_000 == y / 1_000 && x / 100 % 10 == y / 100 % 10 && x / 10 % 10 == y / 10 % 10
                && x % 10 < y % 10
        }),
{
    assert(x / 100 == 10 * (x / 1_000) + x / 100 % 10);
    assert(y / 100 == 10 * (y / 1_000) + y / 100 % 10);
    assert(x / 10 == 10 * (x / 100) + x / 10 % 10);
    assert(y / 10 == 10 * (y / 100) + y / 10 % 10);
    assert(x / 10 <= y / 10);
    assert(x / 100 <= y / 100);
}

/// Dates as texts are in the order of the days, for the years 0 to 9999.
pub proof fn dates_are_ordered_as_days(a: Civil, b: Civil)
    requires
        a.valid(),
        b.valid(),
        0 <= a.year <= 9999,
        0 <= b.year <= 9999,
    ensures
        text::text_less(
            date_text(a.year, a.month, a.day),
            date_text(b.year, b.month, b.day),
        ) <==> a.number() < b.number(),
{
    if a.before(b) {
        smaller_fields_come_first(a, b);
        lemma_days_follow(a, b);
    } else if b.before(a) {
        smaller_fields_come_first(b, a);
        lemma_days_follow(b, a);
    } else {
        let date = date_text(a.year, a.month, a.day);
        text::texts_form_a_line(date, date, date);
    }
}

/// An earlier date of the calendar has a smaller day number.
proof fn lemma_days_follow(a: Civil, b: Civil)
    requires
        a.valid(),
        b.valid(),
        a.before(b),
    ensures
        a.number() < b.number(),
{
    if a.year < b.year {
        lemma_year_start_grows(a.year, b.year);
        years_follow_each_other(a.year);
    }
}

/// A date from the year 0 to the year 9999 is written in ten characters, `YYYY-MM-DD`: four digits,
/// a dash, two digits, a dash, two digits.
pub proof fn dates_have_ten_characters(c: Civil)
    requires
        c.valid(),
        0 <= c.year <= 9999,
    ensures
        ({
            let text = date_text(c.year, c.month, c.day);
            &&& text.len() == 10
            &&& forall|i: int|
                0 <= i < 10 ==> if i == 4 || i == 7 {
                    #[trigger] text[i] == '-'
                } else {
                    text::is_digit(text[i])
                }
        }),
{
    date_characters(c.year, c.month, c.day);
}

} // verus!
