//! Aggregates: the bars of one contract.
use vstd::prelude::*;
use vstd::string::*;

use crate::bar;
use crate::bar::Bar;
use crate::double::Double;
use crate::laws;
use crate::order;
use crate::request;
use crate::request::{Reply, Request};
use crate::text;
use crate::timeframe;
use crate::timeframe::Timeframe;

verus! {

/// One bar as Massive sends it.
#[derive(Clone, Copy, Debug)]
pub struct AggRow {
    /// Where the bar starts, in nanoseconds.
    pub window_start: i64,
    pub open: Double,
    pub high: Double,
    pub low: Double,
    pub close: Double,
    pub volume: Double,
}

/// Whole seconds of a number of nanoseconds. What is left over is dropped, towards zero.
pub open spec fn whole_seconds(nanoseconds: int) -> int {
    if nanoseconds >= 0 {
        nanoseconds / 1_000_000_000
    } else {
        -((-nanoseconds) / 1_000_000_000)
    }
}

/// The bar of a row, in seconds.
pub open spec fn bar_of(row: AggRow) -> Bar {
    Bar {
        timestamp: whole_seconds(row.window_start as int) as i64,
        open: row.open,
        high: row.high,
        low: row.low,
        close: row.close,
        volume: row.volume,
    }
}

/// The bars of rows that came in any order: in seconds, and in the order of time.
pub open spec fn bars_of(rows: Seq<AggRow>) -> Seq<Bar> {
    order::in_order(rows.map_values(|row: AggRow| bar_of(row)))
}

/// What a reply to a request for the bars of `ticker` gives.
pub open spec fn aggs_outcome(ticker: Seq<char>, reply: Reply<Vec<AggRow>>) -> Result<
    Seq<Bar>,
    Seq<char>,
> {
    match reply {
        Reply::Failed(cause) => Err(
            "Massive-Aggregate für '"@ + ticker + "' fehlgeschlagen: "@ + cause@,
        ),
        Reply::Unreadable(cause) => Err(
            "Massive-Aggregate für '"@ + ticker + "' unlesbar: "@ + cause@,
        ),
        Reply::Body(rows) => Ok(bars_of(rows@)),
    }
}

/// The name that Massive has for a timeframe.
pub open spec fn resolution(timeframe: Timeframe) -> Option<Seq<char>> {
    match timeframe {
        Timeframe::Minute(1) => Some("1minute"@),
        Timeframe::Minute(5) => Some("5minute"@),
        Timeframe::Minute(15) => Some("15minute"@),
        Timeframe::Hour(1) => Some("1hour"@),
        Timeframe::Hour(4) => Some("4hour"@),
        Timeframe::Day(1) => Some("1day"@),
        _ => None,
    }
}

/// The error for a timeframe without a name.
pub open spec fn unsupported(timeframe: Timeframe) -> Seq<char> {
    "Massive-Adapter kennt "@ + timeframe.shown()
        + " nicht (unterstützt: Minute(1/5/15), Hour(1/4), Day(1))"@
}

/// A request for bars of `ticker`: those that start at `from` or later and before `to` (seconds).
pub open spec fn aggs_request(
    base_url: Seq<char>,
    api_key: Seq<char>,
    ticker: Seq<char>,
    resolution: Seq<char>,
    from: Option<i64>,
    to: Option<i64>,
    limit: nat,
) -> request::RequestView {
    let bare = request::plain(base_url + "/futures/v1/aggs/"@ + ticker).with(
        "resolution"@,
        resolution,
    ).with("limit"@, text::decimal(limit)).with("apiKey"@, api_key);
    let lower = match from {
        Some(seconds) => bare.with("window_start.gte"@, text::integer(seconds * 1_000_000_000)),
        None => bare,
    };
    match to {
        Some(seconds) => lower.with("window_start.lt"@, text::integer(seconds * 1_000_000_000)),
        None => lower,
    }
}

/// Seconds as nanoseconds.
pub fn nanos(seconds: i64) -> (n: i128)
    ensures
        n == seconds * 1_000_000_000,
{
    seconds as i128 * 1_000_000_000
}

/// Massive's name for a timeframe. Only the timeframes in use have one: a name that Massive does
/// not know would come back as a less telling error.
pub fn resolution_of(timeframe: Timeframe) -> (name: Result<&'static str, String>)
    ensures
        match name {
            Ok(name) => resolution(timeframe) == Some(name@),
            Err(error) => resolution(timeframe) is None && error@ == unsupported(timeframe),
        },
{
    match timeframe {
        Timeframe::Minute(1) => Ok("1minute"),
        Timeframe::Minute(5) => Ok("5minute"),
        Timeframe::Minute(15) => Ok("15minute"),
        Timeframe::Hour(1) => Ok("1hour"),
        Timeframe::Hour(4) => Ok("4hour"),
        Timeframe::Day(1) => Ok("1day"),
        other => Err(
            text::join3(
                "Massive-Adapter kennt ",
                timeframe::show(other).as_str(),
                " nicht (unterstützt: Minute(1/5/15), Hour(1/4), Day(1))",
            ),
        ),
    }
}

/// Builds a request for bars. `from` and `to` are in seconds, `to` is exclusive.
pub fn request_aggs(
    base_url: &str,
    api_key: &str,
    ticker: &str,
    resolution: &str,
    from: Option<i64>,
    to: Option<i64>,
    limit: usize,
) -> (request: Request)
    ensures
        request@ == aggs_request(
            base_url@,
            api_key@,
            ticker@,
            resolution@,
            from,
            to,
            limit as nat,
        ),
{
    let mut request: Request = Request::get(
        text::join3(base_url, "/futures/v1/aggs/", ticker),
    ).with("resolution", resolution).with("limit", text::integer_text(limit as i128).as_str()).with(
        "apiKey",
        api_key,
    );
    if let Some(seconds) = from {
        request = request.with("window_start.gte", text::integer_text(nanos(seconds)).as_str());
    }
    if let Some(seconds) = to {
        request = request.with("window_start.lt", text::integer_text(nanos(seconds)).as_str());
    }
    request
}

/// Reads the reply to a request for the bars of `ticker`. The bars come back in seconds and in the
/// order of time, whatever order Massive sends them in.
pub fn read_aggs(ticker: &str, reply: Reply<Vec<AggRow>>) -> (result: Result<Vec<Bar>, String>)
    ensures
        bar::outcome(result) == aggs_outcome(ticker@, reply),
        result matches Ok(bars) ==> reply matches Reply::Body(rows) && laws::futures::rows_and_bars(
            rows@,
            bars@,
        ),
{
    proof {
        if reply is Body {
            laws::futures::rows_and_bars_go_together(reply->Body_0@);
        }
    }
    match reply {
        Reply::Failed(cause) => Err(
            text::join4("Massive-Aggregate für '", ticker, "' fehlgeschlagen: ", cause.as_str()),
        ),
        Reply::Unreadable(cause) => Err(
            text::join4("Massive-Aggregate für '", ticker, "' unlesbar: ", cause.as_str()),
        ),
        Reply::Body(rows) => {
            let mut bars: Vec<Bar> = Vec::new();
            let mut i: usize = 0;
            while i < rows.len()
                invariant
                    i <= rows@.len(),
                    bars@ =~= rows@.take(i as int).map_values(|row: AggRow| bar_of(row)),
                decreases rows@.len() - i,
            {
                let row: AggRow = rows[i];
                bars.push(
                    Bar {
                        timestamp: row.window_start / 1_000_000_000,
                        open: row.open,
                        high: row.high,
                        low: row.low,
                        close: row.close,
                        volume: row.volume,
                    },
                );
                i += 1;
            }
            assert(rows@.take(rows@.len() as int) =~= rows@);
            Ok(order::sort(bars))
        },
    }
}

/// Bars come back ascending and one for each row, in whatever order the rows come.
pub proof fn bars_come_back_ascending(rows: Seq<AggRow>)
    ensures
        bar::ascending(bars_of(rows)),
        bars_of(rows).len() == rows.len(),
        bars_of(rows).to_multiset() == rows.map_values(|row: AggRow| bar_of(row)).to_multiset(),
{
    bar::ordered_bars_ascend(rows.map_values(|row: AggRow| bar_of(row)));
}

/// Seconds that are sent as nanoseconds come back as the same seconds.
pub proof fn nanoseconds_come_back_as_seconds(seconds: int)
    ensures
        whole_seconds(seconds * 1_000_000_000) == seconds,
{
}

} // verus!
