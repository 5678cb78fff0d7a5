//! End-of-day and intraday bars from EODHD.
use vstd::prelude::*;
use vstd::string::*;

use crate::civil_date;
use crate::civil_date::Civil;
use crate::double::Double;
use crate::eodhd;
use crate::eodhd::{EodRow, EodhdState, IntradayRow, RequestKindView};
use crate::laws::numbers;
use crate::request::Reply;
use crate::text;
use crate::timeframe::Timeframe;

verus! {

/// Six timeframes are served: a day, a week and a month by the end-of-day endpoint, under the letter
/// of the unit, and a minute, five minutes and an hour by the intraday endpoint, under the name that
/// the timeframe is shown with. For any other the error shows it.
pub proof fn timeframes_have_their_endpoints(timeframe: Timeframe)
    ensures
        eodhd::kind_of(timeframe) is Some <==> {
            ||| timeframe == Timeframe::Day(1)
            ||| timeframe == Timeframe::Week(1)
            ||| timeframe == Timeframe::Month(1)
            ||| timeframe == Timeframe::Minute(1)
            ||| timeframe == Timeframe::Minute(5)
            ||| timeframe == Timeframe::Hour(1)
        },
        eodhd::kind_of(timeframe) matches Some(RequestKindView::Intraday(name)) ==> (timeframe is Minute
            || timeframe is Hour) && name == timeframe.shown(),
        eodhd::kind_of(timeframe) matches Some(RequestKindView::Eod(name)) ==> {
            &&& timeframe is Day || timeframe is Week || timeframe is Month
            &&& timeframe is Day ==> name == seq!['d']
            &&& timeframe is Week ==> name == seq!['w']
            &&& timeframe is Month ==> name == seq!['m']
        },
        eodhd::unsupported(timeframe) == "EODHD does not support timeframe "@ + timeframe.shown()
            + " (supported: Day(1)/Week(1)/Month(1) via the EOD endpoint, Minute(1)/Minute(5)/Hour(1) via the intraday endpoint)"@,
{
    reveal_strlit("d");
    reveal_strlit("w");
    reveal_strlit("m");
    reveal_strlit("1m");
    reveal_strlit("5m");
    reveal_strlit("1h");
    assert("d"@ =~= seq!['d'] && "w"@ =~= seq!['w'] && "m"@ =~= seq!['m']);
    numbers::numerals_grow_by_a_digit(1);
    numbers::numerals_grow_by_a_digit(5);
    assert("1m"@ =~= Timeframe::Minute(1).shown());
    assert("5m"@ =~= Timeframe::Minute(5).shown());
    assert("1h"@ =~= Timeframe::Hour(1).shown());
}

/// The request for end-of-day bars, parameter by parameter: the days of the two timestamps bound it.
pub proof fn end_of_day_requests(
    state: EodhdState,
    symbol: Seq<char>,
    period: Seq<char>,
    from: i64,
    to: i64,
)
    ensures
        ({
            let r = eodhd::eod_request(state, symbol, period, from, to);
            &&& r.url == state.base_url + "/api/eod/"@ + symbol
            &&& r.query.len() == 5
            &&& r.query[0] == ("api_token"@, state.api_key)
            &&& r.query[1] == ("fmt"@, "json"@)
            &&& r.query[2] == ("period"@, period)
            &&& r.query[3] == ("from"@, civil_date::timestamp_text(from as int))
            &&& r.query[4] == ("to"@, civil_date::timestamp_text(to as int))
        }),
{
}

/// The request for intraday bars, parameter by parameter: the two timestamps bound it.
pub proof fn intraday_requests(
    state: EodhdState,
    symbol: Seq<char>,
    interval: Seq<char>,
    from: i64,
    to: i64,
)
    ensures
        ({
            let r = eodhd::intraday_request(state, symbol, interval, from, to);
            &&& r.url == state.base_url + "/api/intraday/"@ + symbol
            &&& r.query.len() == 5
            &&& r.query[0] == ("api_token"@, state.api_key)
            &&& r.query[1] == ("fmt"@, "json"@)
            &&& r.query[2] == ("interval"@, interval)
            &&& r.query[3] == ("from"@, text::integer(from as int))
            &&& r.query[4] == ("to"@, text::integer(to as int))
        }),
{
}

/// Three numbers with dashes between are a date, with or without leading zeros: the midnight of that
/// day, whether or not the calendar has it. The numbers have to fit, the year into an `i32` and the
/// others into a `u32`.
pub proof fn numbers_between_dashes_are_dates(
    year: nat,
    month: nat,
    day: nat,
    year_width: int,
    month_width: int,
    day_width: int,
)
    ensures
        eodhd::date_timestamp(
            text::padded(year as int, year_width) + seq!['-'] + text::padded(
                month as int,
                month_width,
            ) + seq!['-'] + text::padded(day as int, day_width),
        ) == if year <= 0x7fff_ffff && month <= 0xffff_ffff && day <= 0xffff_ffff {
            Some(civil_date::day_number(year as int, month as int, day as int) * 86_400)
        } else {
            None
        },
{
    let y = text::padded(year as int, year_width);
    let m = text::padded(month as int, month_width);
    let d = text::padded(day as int, day_width);
    let date = y + seq!['-'] + m + seq!['-'] + d;
    text::padded_reads_back(year, year_width);
    text::padded_reads_back(month, month_width);
    text::padded_reads_back(day, day_width);
    assert(date =~= y + seq!['-'] + (m + seq!['-'] + d));
    text::dash_behind_digits(y, m + seq!['-'] + d);
    let rest = date.skip(y.len() as int + 1);
    assert(rest =~= m + seq!['-'] + d);
    text::dash_behind_digits(m, d);
    assert(date.take(y.len() as int) =~= y);
    assert(rest.take(m.len() as int) =~= m);
    assert(rest.skip(m.len() as int + 1) =~= d);
}

/// The first dash of a text.
proof fn lemma_first_dash(s: Seq<char>)
    ensures
        ({
            let at = text::index_of_first(s, '-');
            &&& 0 <= at <= s.len()
            &&& at < s.len() ==> s[at] == '-'
            &&& forall|i: int| 0 <= i < at ==> #[trigger] s[i] != '-'
        }),
    decreases s.len(),
{
    if s.len() > 0 && s[0] != '-' {
        lemma_first_dash(s.skip(1));
        let at = text::index_of_first(s, '-');
        assert forall|i: int| 0 <= i < at implies #[trigger] s[i] != '-' by {
            if i > 0 {
                assert(s.skip(1)[i - 1] != '-');
            }
        }
    }
}

/// Nothing else is a date: a text that is one has two dashes, at the places that are returned, with a
/// number before, between and behind them, and these three are the year, the month and the day.
pub proof fn dates_are_numbers_between_dashes(date: Seq<char>) -> (at: (int, int))
    ensures
        eodhd::date_timestamp(date) matches Some(timestamp) ==> {
            &&& 0 <= at.0 < at.1 < date.len()
            &&& date[at.0] == '-' && date[at.1] == '-'
            &&& text::natural_of(date.subrange(0, at.0)) matches Some(year) && text::natural_of(
                date.subrange(at.0 + 1, at.1),
            ) matches Some(month) && text::natural_of(
                date.subrange(at.1 + 1, date.len() as int),
            ) matches Some(day) && {
                &&& year <= 0x7fff_ffff && month <= 0xffff_ffff && day <= 0xffff_ffff
                &&& timestamp == civil_date::day_number(year as int, month as int, day as int)
                    * 86_400
            }
        },
{
    let first = text::index_of_first(date, '-');
    lemma_first_dash(date);
    if first < date.len() {
        let rest = date.skip(first + 1);
        let second = text::index_of_first(rest, '-');
        lemma_first_dash(rest);
        if second < rest.len() {
            assert(date.take(first) =~= date.subrange(0, first));
            assert(rest.take(second) =~= date.subrange(first + 1, first + 1 + second));
            assert(rest.skip(second + 1) =~= date.subrange(
                first + 2 + second,
                date.len() as int,
            ));
            assert(rest[second] == date[first + 1 + second]);
        }
        (first, first + 1 + second)
    } else {
        (0, 0)
    }
}

proof fn lemma_timestamp_fits(date: Seq<char>)
    requires
        eodhd::date_timestamp(date) is Some,
    ensures
        i64::MIN <= eodhd::date_timestamp(date).unwrap() <= i64::MAX,
{
    let (year, month, day) = eodhd::date_fields(date).unwrap();
    lemma_days_fit(year, month, day);
}

proof fn lemma_days_fit(year: int, month: int, day: int)
    requires
        0 <= year <= 0x7fff_ffff,
        0 <= month <= 0xffff_ffff,
        0 <= day <= 0xffff_ffff,
    ensures
        -2_000_000_000_000 < civil_date::day_number(year, month, day) < 2_000_000_000_000,
{
    assert(-2_000_000 < civil_date::year_start(year) < 1_000_000_000_000);
    assert(-32 < civil_date::month_start(year, month) < 200_000_000_000);
}

/// End-of-day bars are one for each row, in their order. A bar has the row's own prices, adjusted
/// close and volume, and the midnight of the row's date. It is to be scaled exactly where the row's
/// close is a number above zero, whatever the other fields are. A date that is none is an error that
/// names the first such date, and a request that failed an error that names the cause.
pub proof fn end_of_day_bars_are_their_rows(symbol: Seq<char>, reply: Reply<Vec<EodRow>>)
    ensures
        match (reply, eodhd::eod_outcome(symbol, reply)) {
            (Reply::Body(rows), Ok(bars)) => {
                &&& bars.len() == rows@.len()
                &&& forall|i: int|
                    0 <= i < bars.len() ==> {
                        &&& (#[trigger] bars[i]).raw.open == rows@[i].open
                        &&& bars[i].raw.high == rows@[i].high
                        &&& bars[i].raw.low == rows@[i].low
                        &&& bars[i].raw.close == rows@[i].close
                        &&& bars[i].raw.volume == rows@[i].volume
                        &&& bars[i].adjusted_close == rows@[i].adjusted_close
                        &&& bars[i].scaled <==> 0 < rows@[i].close.bits <= 0x7ff0_0000_0000_0000
                        &&& eodhd::date_timestamp(rows@[i].date@) == Some(
                            bars[i].raw.timestamp as int,
                        )
                    }
            },
            (Reply::Body(rows), Err(error)) => exists|i: int|
                {
                    &&& 0 <= i < rows@.len()
                    &&& eodhd::date_timestamp((#[trigger] rows@[i]).date@) is None
                    &&& error == "invalid EOD date '"@ + rows@[i].date@ + "'"@
                    &&& forall|j: int|
                        0 <= j < i ==> eodhd::date_timestamp((#[trigger] rows@[j]).date@) is Some
                },
            (Reply::Failed(cause), Err(error)) => error == "EODHD EOD request for '"@ + symbol
                + "' failed: "@ + cause@,
            (Reply::Unreadable(cause), Err(error)) => error == "EODHD EOD response for '"@ + symbol
                + "' could not be parsed: "@ + cause@,
            _ => false,
        },
{
    if let Reply::Body(rows) = reply {
        eodhd::every_row_becomes_a_bar(rows@);
        if let Ok(bars) = eodhd::eod_bars(rows@) {
            assert forall|i: int| 0 <= i < bars.len() implies {
                &&& (#[trigger] bars[i]).raw.open == rows@[i].open
                &&& bars[i].raw.high == rows@[i].high
                &&& bars[i].raw.low == rows@[i].low
                &&& bars[i].raw.close == rows@[i].close
                &&& bars[i].raw.volume == rows@[i].volume
                &&& bars[i].adjusted_close == rows@[i].adjusted_close
                &&& bars[i].scaled <==> 0 < rows@[i].close.bits <= 0x7ff0_0000_0000_0000
                &&& eodhd::date_timestamp(rows@[i].date@) == Some(bars[i].raw.timestamp as int)
            } by {
                assert(eodhd::date_timestamp(rows@[i].date@) is Some);
                lemma_timestamp_fits(rows@[i].date@);
                numbers::numbers_are_ordered_by_their_bits(rows@[i].close, Double { bits: 0 });
            }
        }
    }
}

/// Where all dates are dates of the calendar, every row becomes a bar.
pub proof fn rows_with_dates_become_bars(
    symbol: Seq<char>,
    reply: Reply<Vec<EodRow>>,
    dates: Seq<Civil>,
)
    requires
        reply is Body,
        dates.len() == reply->Body_0@.len(),
        forall|i: int|
            0 <= i < dates.len() ==> (#[trigger] dates[i]).valid() && 0 <= dates[i].year
                <= 0x7fff_ffff && reply->Body_0@[i].date@ == text::padded(dates[i].year, 4)
                + seq!['-'] + text::padded(dates[i].month, 2) + seq!['-'] + text::padded(
                dates[i].day,
                2,
            ),
    ensures
        eodhd::eod_outcome(symbol, reply) matches Ok(bars) && forall|i: int|
            0 <= i < dates.len() ==> (#[trigger] bars[i]).raw.timestamp == civil_date::day_number(
                dates[i].year,
                dates[i].month,
                dates[i].day,
            ) * 86_400,
{
    let rows = reply->Body_0@;
    end_of_day_bars_are_their_rows(symbol, reply);
    assert forall|i: int| 0 <= i < rows.len() implies eodhd::date_timestamp(
        (#[trigger] rows[i]).date@,
    ) == Some(
        civil_date::day_number(dates[i].year, dates[i].month, dates[i].day) * 86_400,
    ) by {
        assert(dates[i].valid());
        numbers_between_dashes_are_dates(
            dates[i].year as nat,
            dates[i].month as nat,
            dates[i].day as nat,
            4,
            2,
            2,
        );
    }
    if let Ok(bars) = eodhd::eod_outcome(symbol, reply) {
        assert forall|i: int| 0 <= i < dates.len() implies (#[trigger] bars[i]).raw.timestamp
            == civil_date::day_number(dates[i].year, dates[i].month, dates[i].day) * 86_400 by {
            assert(eodhd::date_timestamp(rows[i].date@) is Some);
        }
    }
}

/// Intraday bars are one for each row, in their order. A bar has the row's timestamp and prices, and
/// its volume, or zero where the row has none. A request that failed is an error that names the
/// cause.
pub proof fn intraday_bars_are_their_rows(symbol: Seq<char>, reply: Reply<Vec<IntradayRow>>)
    ensures
        match (reply, eodhd::intraday_outcome(symbol, reply)) {
            (Reply::Body(rows), Ok(bars)) => {
                &&& bars.len() == rows@.len()
                &&& forall|i: int|
                    0 <= i < bars.len() ==> {
                        &&& (#[trigger] bars[i]).timestamp == rows@[i].timestamp
                        &&& bars[i].open == rows@[i].open
                        &&& bars[i].high == rows@[i].high
                        &&& bars[i].low == rows@[i].low
                        &&& bars[i].close == rows@[i].close
                        &&& rows@[i].volume matches Some(volume) ==> bars[i].volume == volume
                        &&& rows@[i].volume is None ==> bars[i].volume.bits == 0
                    }
            },
            (Reply::Failed(cause), Err(error)) => error == "EODHD intraday request for '"@ + symbol
                + "' failed: "@ + cause@,
            (Reply::Unreadable(cause), Err(error)) => error == "EODHD intraday response for '"@
                + symbol + "' could not be parsed: "@ + cause@,
            _ => false,
        },
{
}

} // verus!
