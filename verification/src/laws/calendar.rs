//! The calendar, day by day.
use vstd::prelude::*;

use crate::civil_date;
use crate::civil_date::Civil;
use crate::text;

verus! {

/// The days have the dates of the Gregorian calendar: day 0 is the 1st of January 1970, and each day
/// is followed by the next of its month, by the 1st of the next month, or by the 1st of January.
pub proof fn days_follow_each_other(days: int)
    ensures
        civil_date::civil_of_day(0) == (Civil { year: 1970, month: 1, day: 1 }),
        ({
            let c = civil_date::civil_of_day(days);
            let next = civil_date::civil_of_day(days + 1);
            let leap = c.year % 4 == 0 && (c.year % 100 != 0 || c.year % 400 == 0);
            let length: int = if c.month == 2 {
                if leap { 29 } else { 28 }
            } else if c.month == 4 || c.month == 6 || c.month == 9 || c.month == 11 {
                30
            } else {
                31
            };
            &&& 1 <= c.month <= 12
            &&& 1 <= c.day <= length
            &&& if c.day < length {
                next == Civil { year: c.year, month: c.month, day: c.day + 1 }
            } else if c.month < 12 {
                next == Civil { year: c.year, month: c.month + 1, day: 1 }
            } else {
                next == Civil { year: c.year + 1, month: 1, day: 1 }
            }
        }),
{
    let first = Civil { year: 1970, month: 1, day: 1 };
    civil_date::years_follow_each_other(1970);
    assert(first.valid() && first.number() == 0);
    civil_date::civil_of_its_number(first);
    civil_date::number_of_its_civil(days);
    let c = civil_date::civil_of_day(days);
    civil_date::months_follow_each_other(c.year, c.month);
    let next = if c.day < civil_date::month_length(c.year, c.month) {
        Civil { year: c.year, month: c.month, day: c.day + 1 }
    } else if c.month < 12 {
        Civil { year: c.year, month: c.month + 1, day: 1 }
    } else {
        Civil { year: c.year + 1, month: 1, day: 1 }
    };
    assert(next.valid());
    assert(next.number() == days + 1);
    civil_date::civil_of_its_number(next);
}

/// Counting the days up to a date and asking for the date of a day undo each other.
pub proof fn dates_and_days_are_inverse(days: int, c: Civil)
    ensures
        ({
            let d = civil_date::civil_of_day(days);
            civil_date::day_number(d.year, d.month, d.day) == days
        }),
        c.valid() ==> civil_date::civil_of_day(
            civil_date::day_number(c.year, c.month, c.day),
        ) == c,
        c.valid() <==> 1 <= c.month <= 12 && 1 <= c.day <= (if c.month == 2 {
            if c.year % 4 == 0 && (c.year % 100 != 0 || c.year % 400 == 0) { 29int } else { 28int }
        } else if c.month == 4 || c.month == 6 || c.month == 9 || c.month == 11 {
            30int
        } else {
            31int
        }),
{
    civil_date::number_of_its_civil(days);
    if c.valid() {
        civil_date::civil_of_its_number(c);
    }
}

/// Dates outside the calendar are counted on: a day more is a day later, month 0 is the December
/// before, and from March on, past December too, five months have 153 days.
pub proof fn dates_outside_the_calendar_are_counted_on(year: int, month: int, day: int, more: int)
    ensures
        civil_date::day_number(year, month, day + more) == civil_date::day_number(year, month, day)
            + more,
        civil_date::day_number(year, 0, day) == civil_date::day_number(year - 1, 12, day),
        month >= 3 ==> civil_date::day_number(year, month + 5, day) == civil_date::day_number(
            year,
            month,
            day,
        ) + 153,
        civil_date::day_number(year, 13, day) == civil_date::day_number(year, 12, day) + 31,
        civil_date::day_number(year, 14, day) == civil_date::day_number(year, 13, day) + 31,
{
    civil_date::years_follow_each_other(year - 1);
}

/// A timestamp is written as the year, the month and the day of its date: the year in four characters
/// or more, the month and the day in two, with dashes between. A year that no `i32` holds is written
/// as 1970.
pub proof fn timestamps_are_written_as_dates(unix_ts: int)
    ensures
        ({
            let c = civil_date::civil_of_day(unix_ts / 86_400);
            let year = if -0x8000_0000 <= c.year <= 0x7fff_ffff { c.year } else { 1970 };
            civil_date::timestamp_text(unix_ts) == text::padded(year, 4) + seq!['-']
                + text::padded(c.month, 2) + seq!['-'] + text::padded(c.day, 2)
        }),
        forall|year: int| #[trigger]
            civil_date::written_year(year) == if -0x8000_0000 <= year <= 0x7fff_ffff {
                year
            } else {
                1970
            },
{
}

} // verus!
