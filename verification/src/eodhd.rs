//! EODHD (<https://eodhd.com>): end-of-day bars, intraday bars and delayed quotes.
//!
//! Three REST endpoints serve the adapter:
//! - `/api/eod/{symbol}` for days, weeks and months, adjusted for splits and dividends,
//! - `/api/intraday/{symbol}` for 1 minute, 5 minutes and 1 hour, not adjusted,
//! - `/api/real-time/{symbol}` for polls, 15 to 20 minutes late. There is no push feed.
use vstd::hash_map::StringHashMap;
use vstd::prelude::*;
use vstd::string::*;

use crate::bar;
use crate::bar::Bar;
use crate::civil_date;
use crate::double::Double;
use crate::laws;
use crate::request;
use crate::request::{Reply, Request};
use crate::text;
use crate::timeframe;
use crate::timeframe::Timeframe;

verus! {

/// Where EODHD is reached.
pub const DEFAULT_BASE_URL: &'static str = "https://eodhd.com";

/// Bars and quotes from EODHD. Needs an API key.
pub struct EodhdAdapter {
    api_key: String,
    base_url: String,
    subscriptions: Vec<String>,
    live_cursor: StringHashMap<i64>,
}

/// What an [`EodhdAdapter`] holds: the key and the address, the subscribed symbols in the order in
/// which they were added, and for each symbol the timestamp of the last quote that was returned.
#[verifier::ext_equal]
pub struct EodhdState {
    pub api_key: Seq<char>,
    pub base_url: Seq<char>,
    pub subscriptions: Seq<Seq<char>>,
    pub live_cursor: Map<Seq<char>, i64>,
}

impl View for EodhdAdapter {
    type V = EodhdState;

    closed spec fn view(&self) -> EodhdState {
        EodhdState {
            api_key: self.api_key@,
            base_url: self.base_url@,
            subscriptions: text::texts(self.subscriptions@),
            live_cursor: self.live_cursor@,
        }
    }
}

impl EodhdState {
    /// No symbol is subscribed twice, and the subscribed symbols are those with a cursor.
    pub open spec fn wf(self) -> bool {
        &&& self.subscriptions.no_duplicates()
        &&& forall|symbol: Seq<char>| #[trigger]
            self.live_cursor.contains_key(symbol) <==> self.subscriptions.contains(symbol)
    }

    /// The timestamp of the last quote of `symbol` that was returned.
    pub open spec fn cursor(self, symbol: Seq<char>) -> i64 {
        if self.live_cursor.contains_key(symbol) { self.live_cursor[symbol] } else { i64::MIN }
    }

    /// The state after a subscription to `symbol`.
    pub open spec fn subscribed(self, symbol: Seq<char>) -> EodhdState {
        if self.subscriptions.contains(symbol) {
            self
        } else {
            EodhdState {
                subscriptions: self.subscriptions.push(symbol),
                live_cursor: self.live_cursor.insert(symbol, i64::MIN),
                ..self
            }
        }
    }

    /// The state after `quote` was returned for `symbol`.
    pub open spec fn returned(self, symbol: Seq<char>, quote: Bar) -> EodhdState {
        if quote.timestamp > self.cursor(symbol) {
            EodhdState {
                live_cursor: self.live_cursor.insert(symbol, quote.timestamp),
                ..self
            }
        } else {
            self
        }
    }

    /// The state after quotes were returned, each for its symbol.
    pub open spec fn all_returned(self, found: Seq<(Seq<char>, Bar)>) -> EodhdState
        decreases found.len(),
    {
        if found.len() == 0 {
            self
        } else {
            self.all_returned(found.drop_last()).returned(found.last().0, found.last().1)
        }
    }

    /// The quotes that a poll will return: those found before, and `quote` where it is later than
    /// the last one returned for `symbol`.
    pub open spec fn collected(
        self,
        symbol: Seq<char>,
        found: Seq<(Seq<char>, Bar)>,
        quote: Bar,
    ) -> Seq<(Seq<char>, Bar)> {
        if quote.timestamp > self.cursor(symbol) { found.push((symbol, quote)) } else { found }
    }
}

/// The endpoint that serves a timeframe, and the name that it has for it.
#[derive(Clone, Copy, Debug)]
pub enum RequestKind {
    Eod { period: &'static str },
    Intraday { interval: &'static str },
}

/// What a [`RequestKind`] holds.
pub enum RequestKindView {
    Eod(Seq<char>),
    Intraday(Seq<char>),
}

impl View for RequestKind {
    type V = RequestKindView;

    open spec fn view(&self) -> RequestKindView {
        match self {
            RequestKind::Eod { period } => RequestKindView::Eod(period@),
            RequestKind::Intraday { interval } => RequestKindView::Intraday(interval@),
        }
    }
}

/// The endpoint that serves `timeframe`.
pub open spec fn kind_of(timeframe: Timeframe) -> Option<RequestKindView> {
    match timeframe {
        Timeframe::Day(1) => Some(RequestKindView::Eod("d"@)),
        Timeframe::Week(1) => Some(RequestKindView::Eod("w"@)),
        Timeframe::Month(1) => Some(RequestKindView::Eod("m"@)),
        Timeframe::Minute(1) => Some(RequestKindView::Intraday("1m"@)),
        Timeframe::Minute(5) => Some(RequestKindView::Intraday("5m"@)),
        Timeframe::Hour(1) => Some(RequestKindView::Intraday("1h"@)),
        _ => None,
    }
}

/// The error for a timeframe that no endpoint serves.
pub open spec fn unsupported(timeframe: Timeframe) -> Seq<char> {
    "EODHD does not support timeframe "@ + timeframe.shown()
        + " (supported: Day(1)/Week(1)/Month(1) via the EOD endpoint, Minute(1)/Minute(5)/Hour(1) via the intraday endpoint)"@
}

/// Finds the endpoint that serves `timeframe`.
pub fn map_timeframe(timeframe: Timeframe) -> (kind: Result<RequestKind, String>)
    ensures
        match kind {
            Ok(kind) => kind_of(timeframe) == Some(kind@),
            Err(error) => kind_of(timeframe) is None && error@ == unsupported(timeframe),
        },
{
    match timeframe {
        Timeframe::Day(1) => Ok(RequestKind::Eod { period: "d" }),
        Timeframe::Week(1) => Ok(RequestKind::Eod { period: "w" }),
        Timeframe::Month(1) => Ok(RequestKind::Eod { period: "m" }),
        Timeframe::Minute(1) => Ok(RequestKind::Intraday { interval: "1m" }),
        Timeframe::Minute(5) => Ok(RequestKind::Intraday { interval: "5m" }),
        Timeframe::Hour(1) => Ok(RequestKind::Intraday { interval: "1h" }),
        other => Err(
            text::join3(
                "EODHD does not support timeframe ",
                timeframe::show(other).as_str(),
                " (supported: Day(1)/Week(1)/Month(1) via the EOD endpoint, Minute(1)/Minute(5)/Hour(1) via the intraday endpoint)",
            ),
        ),
    }
}

/// The year, the month and the day that a date names: three numbers with a dash behind the first
/// and behind the second. The calendar may lack the date.
pub open spec fn date_fields(date: Seq<char>) -> Option<(int, int, int)> {
    let first = text::index_of_first(date, '-');
    let rest = date.skip(first + 1);
    let second = text::index_of_first(rest, '-');
    if first == date.len() || second == rest.len() {
        None
    } else {
        match (
            text::natural_of(date.take(first)),
            text::natural_of(rest.take(second)),
            text::natural_of(rest.skip(second + 1)),
        ) {
            (Some(year), Some(month), Some(day)) => if year <= i32::MAX && month <= u32::MAX && day
                <= u32::MAX {
                Some((year as int, month as int, day as int))
            } else {
                None
            },
            _ => None,
        }
    }
}

/// The Unix timestamp of midnight, in UTC, at the start of the day that a date names.
pub open spec fn date_timestamp(date: Seq<char>) -> Option<int> {
    match date_fields(date) {
        Some((year, month, day)) => Some(civil_date::day_number(year, month, day) * 86_400),
        None => None,
    }
}

/// The error for a text that names no date.
pub open spec fn invalid_date(date: Seq<char>) -> Seq<char> {
    "invalid EOD date '"@ + date + "'"@
}

/// The Unix timestamp of the midnight at which a day starts.
fn midnight(year: i32, month: u32, day: u32) -> (timestamp: i64)
    ensures
        timestamp == civil_date::day_number(year as int, month as int, day as int) * 86_400,
{
    civil_date::days_from_civil(year, month, day) * 86_400
}

/// Reads a `YYYY-MM-DD` date, as the end-of-day endpoint sends it, as the Unix timestamp of its
/// midnight in UTC.
pub fn parse_eod_date(date: &str) -> (timestamp: Result<i64, String>)
    ensures
        match timestamp {
            Ok(timestamp) => date_timestamp(date@) == Some(timestamp as int),
            Err(error) => date_timestamp(date@) is None && error@ == invalid_date(date@),
        },
{
    let chars: Vec<char> = text::chars_of(date);
    let length: usize = chars.len();
    assert(chars@.skip(0) =~= chars@);
    let first: usize = text::find_char(&chars, 0, '-');
    if first < length {
        let second: usize = text::find_char(&chars, first + 1, '-');
        if second < length {
            let year: Option<u32> = text::parse_natural(&chars, 0, first, i32::MAX as u32);
            let month: Option<u32> = text::parse_natural(&chars, first + 1, second, u32::MAX);
            let day: Option<u32> = text::parse_natural(&chars, second + 1, length, u32::MAX);
            proof {
                let rest = date@.skip(first + 1);
                assert(chars@.subrange(0, first as int) =~= date@.take(first as int));
                assert(chars@.subrange(first + 1, second as int) =~= rest.take(
                    second - first - 1,
                ));
                assert(chars@.subrange(second + 1, length as int) =~= rest.skip(second - first));
            }
            if let (Some(year), Some(month), Some(day)) = (year, month, day) {
                return Ok(midnight(year as i32, month, day));
            }
        }
    }
    Err(text::join3("invalid EOD date '", date, "'"))
}

/// One bar as the end-of-day endpoint sends it.
#[derive(Debug)]
pub struct EodRow {
    pub date: String,
    pub open: Double,
    pub high: Double,
    pub low: Double,
    pub close: Double,
    pub adjusted_close: Double,
    pub volume: Double,
}

/// One bar as the intraday endpoint sends it. The endpoint leaves the volume out where it has none,
/// as it often does at the edges of a session.
#[derive(Clone, Copy, Debug)]
pub struct IntradayRow {
    pub timestamp: i64,
    pub open: Double,
    pub high: Double,
    pub low: Double,
    pub close: Double,
    pub volume: Option<Double>,
}

/// A quote as the real-time endpoint sends it.
#[derive(Clone, Copy, Debug)]
pub struct RealTimeQuote {
    pub timestamp: i64,
    pub open: Double,
    pub high: Double,
    pub low: Double,
    pub close: Double,
    pub volume: Double,
}

/// An end-of-day bar with its raw prices.
///
/// Where it is `scaled`, all four prices are to be multiplied by the adjusted close over the close.
/// Of the row only the adjusted close is adjusted: without the factor a split would look like a
/// crash, and the one factor holds for the open, the high and the low as for the close.
#[derive(Clone, Copy, Debug, PartialEq, Eq, Structural)]
pub struct EodBar {
    pub raw: Bar,
    pub adjusted_close: Double,
    pub scaled: bool,
}

/// The bar of an end-of-day row. It is scaled where its close is above zero.
pub open spec fn eod_bar(row: EodRow) -> EodBar {
    EodBar {
        raw: Bar {
            timestamp: date_timestamp(row.date@).unwrap() as i64,
            open: row.open,
            high: row.high,
            low: row.low,
            close: row.close,
            volume: row.volume,
        },
        adjusted_close: row.adjusted_close,
        scaled: row.close.exceeds(Double { bits: 0 }),
    }
}

/// The bars of end-of-day rows, one for each, or the first date that is none.
pub open spec fn eod_bars(rows: Seq<EodRow>) -> Result<Seq<EodBar>, Seq<char>>
    decreases rows.len(),
{
    if rows.len() == 0 {
        Ok(Seq::empty())
    } else {
        match eod_bars(rows.drop_last()) {
            Err(error) => Err(error),
            Ok(bars) => if date_timestamp(rows.last().date@) is Some {
                Ok(bars.push(eod_bar(rows.last())))
            } else {
                Err(invalid_date(rows.last().date@))
            },
        }
    }
}

/// What a reply to a request for the end-of-day bars of `symbol` gives.
pub open spec fn eod_outcome(symbol: Seq<char>, reply: Reply<Vec<EodRow>>) -> Result<
    Seq<EodBar>,
    Seq<char>,
> {
    match reply {
        Reply::Failed(cause) => Err(
            "EODHD EOD request for '"@ + symbol + "' failed: "@ + cause@,
        ),
        Reply::Unreadable(cause) => Err(
            "EODHD EOD response for '"@ + symbol + "' could not be parsed: "@ + cause@,
        ),
        Reply::Body(rows) => eod_bars(rows@),
    }
}

/// The bar of an intraday row. A volume that is left out counts as zero: the bar still has prices.
pub open spec fn intraday_bar(row: IntradayRow) -> Bar {
    Bar {
        timestamp: row.timestamp,
        open: row.open,
        high: row.high,
        low: row.low,
        close: row.close,
        volume: match row.volume {
            Some(volume) => volume,
            None => Double { bits: 0 },
        },
    }
}

/// What a reply to a request for the intraday bars of `symbol` gives.
pub open spec fn intraday_outcome(symbol: Seq<char>, reply: Reply<Vec<IntradayRow>>) -> Result<
    Seq<Bar>,
    Seq<char>,
> {
    match reply {
        Reply::Failed(cause) => Err(
            "EODHD intraday request for '"@ + symbol + "' failed: "@ + cause@,
        ),
        Reply::Unreadable(cause) => Err(
            "EODHD intraday response for '"@ + symbol + "' could not be parsed: "@ + cause@,
        ),
        Reply::Body(rows) => Ok(rows@.map_values(|row: IntradayRow| intraday_bar(row))),
    }
}

/// The bar of a quote.
pub open spec fn quote_bar(quote: RealTimeQuote) -> Bar {
    Bar {
        timestamp: quote.timestamp,
        open: quote.open,
        high: quote.high,
        low: quote.low,
        close: quote.close,
        volume: quote.volume,
    }
}

/// What a reply to a request for a quote of `symbol` gives.
pub open spec fn quote_outcome(symbol: Seq<char>, reply: Reply<RealTimeQuote>) -> Result<
    Bar,
    Seq<char>,
> {
    match reply {
        Reply::Failed(cause) => Err(
            "EODHD real-time request for '"@ + symbol + "' failed: "@ + cause@,
        ),
        Reply::Unreadable(cause) => Err(
            "EODHD real-time response for '"@ + symbol + "' could not be parsed: "@ + cause@,
        ),
        Reply::Body(quote) => Ok(quote_bar(quote)),
    }
}

/// Reads the reply to a request for the end-of-day bars of `symbol`.
pub fn read_eod(symbol: &str, reply: Reply<Vec<EodRow>>) -> (result: Result<Vec<EodBar>, String>)
    ensures
        match (result, eod_outcome(symbol@, reply)) {
            (Ok(bars), Ok(expected)) => bars@ == expected,
            (Err(error), Err(expected)) => error@ == expected,
            _ => false,
        },
        result matches Ok(bars) ==> reply matches Reply::Body(rows) && bars@.len() == rows@.len()
            && forall|i: int|
            0 <= i < rows@.len() ==> {
                &&& (#[trigger] bars@[i]).raw.open == rows@[i].open
                &&& bars@[i].raw.high == rows@[i].high
                &&& bars@[i].raw.low == rows@[i].low
                &&& bars@[i].raw.close == rows@[i].close
                &&& bars@[i].raw.volume == rows@[i].volume
                &&& bars@[i].adjusted_close == rows@[i].adjusted_close
                &&& bars@[i].scaled <==> 0 < rows@[i].close.bits <= 0x7ff0_0000_0000_0000
            },
{
    proof {
        laws::end_of_day::end_of_day_bars_are_their_rows(symbol@, reply);
    }
    match reply {
        Reply::Failed(cause) => Err(
            text::join4("EODHD EOD request for '", symbol, "' failed: ", cause.as_str()),
        ),
        Reply::Unreadable(cause) => Err(
            text::join4(
                "EODHD EOD response for '",
                symbol,
                "' could not be parsed: ",
                cause.as_str(),
            ),
        ),
        Reply::Body(rows) => {
            let mut bars: Vec<EodBar> = Vec::new();
            let mut i: usize = 0;
            while i < rows.len()
                invariant
                    i <= rows@.len(),
                    eod_bars(rows@.take(i as int)) == Ok::<Seq<EodBar>, Seq<char>>(bars@),
                    reply == Reply::Body(rows),
                decreases rows@.len() - i,
            {
                let row: &EodRow = &rows[i];
                assert(rows@.take(i + 1).drop_last() =~= rows@.take(i as int));
                match parse_eod_date(row.date.as_str()) {
                    Ok(timestamp) => {
                        bars.push(
                            EodBar {
                                raw: Bar {
                                    timestamp,
                                    open: row.open,
                                    high: row.high,
                                    low: row.low,
                                    close: row.close,
                                    volume: row.volume,
                                },
                                adjusted_close: row.adjusted_close,
                                scaled: row.close.is_greater(Double::zero()),
                            },
                        );
                    },
                    Err(error) => {
                        proof {
                            lemma_first_bad_date(rows@, i + 1);
                        }
                        return Err(error);
                    },
                }
                i += 1;
            }
            assert(rows@.take(rows@.len() as int) =~= rows@);
            Ok(bars)
        },
    }
}

/// A date that is none decides, whatever comes behind it.
proof fn lemma_first_bad_date(rows: Seq<EodRow>, n: int)
    requires
        0 <= n <= rows.len(),
        eod_bars(rows.take(n)) is Err,
    ensures
        eod_bars(rows) == eod_bars(rows.take(n)),
    decreases rows.len(),
{
    if n == rows.len() {
        assert(rows.take(n) =~= rows);
    } else {
        assert(rows.drop_last().take(n) =~= rows.take(n));
        lemma_first_bad_date(rows.drop_last(), n);
    }
}

/// Reads the reply to a request for the intraday bars of `symbol`.
pub fn read_intraday(symbol: &str, reply: Reply<Vec<IntradayRow>>) -> (result: Result<
    Vec<Bar>,
    String,
>)
    ensures
        bar::outcome(result) == intraday_outcome(symbol@, reply),
        result matches Ok(bars) ==> reply matches Reply::Body(rows) && bars@.len() == rows@.len()
            && forall|i: int|
            0 <= i < rows@.len() ==> {
                &&& (#[trigger] bars@[i]).timestamp == rows@[i].timestamp
                &&& bars@[i].open == rows@[i].open
                &&& bars@[i].high == rows@[i].high
                &&& bars@[i].low == rows@[i].low
                &&& bars@[i].close == rows@[i].close
                &&& rows@[i].volume matches Some(volume) ==> bars@[i].volume == volume
                &&& rows@[i].volume is None ==> bars@[i].volume.bits == 0
            },
{
    proof {
        laws::end_of_day::intraday_bars_are_their_rows(symbol@, reply);
    }
    match reply {
        Reply::Failed(cause) => Err(
            text::join4("EODHD intraday request for '", symbol, "' failed: ", cause.as_str()),
        ),
        Reply::Unreadable(cause) => Err(
            text::join4(
                "EODHD intraday response for '",
                symbol,
                "' could not be parsed: ",
                cause.as_str(),
            ),
        ),
        Reply::Body(rows) => {
            let mut bars: Vec<Bar> = Vec::new();
            let mut i: usize = 0;
            while i < rows.len()
                invariant
                    i <= rows@.len(),
                    bars@ =~= rows@.take(i as int).map_values(|row: IntradayRow| intraday_bar(row)),
                decreases rows@.len() - i,
            {
                let row: IntradayRow = rows[i];
                bars.push(
                    Bar {
                        timestamp: row.timestamp,
                        open: row.open,
                        high: row.high,
                        low: row.low,
                        close: row.close,
                        volume: match row.volume {
                            Some(volume) => volume,
                            None => Double::zero(),
                        },
                    },
                );
                i += 1;
            }
            assert(rows@.take(rows@.len() as int) =~= rows@);
            Ok(bars)
        },
    }
}

/// Reads the reply to a request for a quote of `symbol`.
pub fn read_real_time(symbol: &str, reply: Reply<RealTimeQuote>) -> (result: Result<Bar, String>)
    ensures
        match (result, quote_outcome(symbol@, reply)) {
            (Ok(quote), Ok(expected)) => quote == expected,
            (Err(error), Err(expected)) => error@ == expected,
            _ => false,
        },
        result matches Ok(bar) ==> reply matches Reply::Body(quote) && {
            &&& bar.timestamp == quote.timestamp
            &&& bar.open == quote.open
            &&& bar.high == quote.high
            &&& bar.low == quote.low
            &&& bar.close == quote.close
            &&& bar.volume == quote.volume
        },
{
    match reply {
        Reply::Failed(cause) => Err(
            text::join4("EODHD real-time request for '", symbol, "' failed: ", cause.as_str()),
        ),
        Reply::Unreadable(cause) => Err(
            text::join4(
                "EODHD real-time response for '",
                symbol,
                "' could not be parsed: ",
                cause.as_str(),
            ),
        ),
        Reply::Body(quote) => Ok(
            Bar {
                timestamp: quote.timestamp,
                open: quote.open,
                high: quote.high,
                low: quote.low,
                close: quote.close,
                volume: quote.volume,
            },
        ),
    }
}

/// A request for history, and the endpoint whose rows answer it.
#[derive(Debug)]
pub enum HistoricalRequest {
    Eod(Request),
    Intraday(Request),
}

/// The request for end-of-day bars from the day of `from` to the day of `to`.
pub open spec fn eod_request(
    state: EodhdState,
    symbol: Seq<char>,
    period: Seq<char>,
    from: i64,
    to: i64,
) -> request::RequestView {
    request::plain(state.base_url + "/api/eod/"@ + symbol).with("api_token"@, state.api_key).with(
        "fmt"@,
        "json"@,
    ).with("period"@, period).with("from"@, civil_date::timestamp_text(from as int)).with(
        "to"@,
        civil_date::timestamp_text(to as int),
    )
}

/// The request for intraday bars from `from` to `to`.
pub open spec fn intraday_request(
    state: EodhdState,
    symbol: Seq<char>,
    interval: Seq<char>,
    from: i64,
    to: i64,
) -> request::RequestView {
    request::plain(state.base_url + "/api/intraday/"@ + symbol).with(
        "api_token"@,
        state.api_key,
    ).with("fmt"@, "json"@).with("interval"@, interval).with(
        "from"@,
        text::integer(from as int),
    ).with("to"@, text::integer(to as int))
}

/// The request for a quote.
pub open spec fn quote_request(state: EodhdState, symbol: Seq<char>) -> request::RequestView {
    request::plain(state.base_url + "/api/real-time/"@ + symbol).with(
        "api_token"@,
        state.api_key,
    ).with("fmt"@, "json"@)
}

/// A quote that a poll will return, and the symbol that it is for.
#[derive(Debug)]
struct Found {
    symbol: String,
    quote: Bar,
}

/// A poll that waits for the quote of a symbol.
#[derive(Debug)]
pub struct LivePoll {
    symbols: Vec<String>,
    position: usize,
    found: Vec<Found>,
}

/// What a [`LivePoll`] holds: the symbols that are still to be polled, the one that it waits for
/// first, and the quotes that it will return, each with its symbol.
pub struct LivePollView {
    pub pending: Seq<Seq<char>>,
    pub found: Seq<(Seq<char>, Bar)>,
}

/// What found quotes hold.
spec fn pairs(found: Seq<Found>) -> Seq<(Seq<char>, Bar)> {
    found.map_values(|f: Found| (f.symbol@, f.quote))
}

/// The quotes alone.
pub open spec fn bars_in(found: Seq<(Seq<char>, Bar)>) -> Seq<Bar> {
    found.map_values(|f: (Seq<char>, Bar)| f.1)
}

/// Where a poll stands.
#[derive(Debug)]
pub enum PollStep {
    /// These are the new bars.
    Finished(Vec<Bar>),
    /// There are none, for this reason.
    Failed(String),
    /// A quote is needed.
    Quote(LivePoll),
}

/// Where a poll stands, as [`PollStep`] says it.
pub enum PollStepView {
    Finished(Seq<Bar>),
    Failed(Seq<char>),
    Quote(LivePollView),
}

impl View for LivePoll {
    type V = LivePollView;

    closed spec fn view(&self) -> LivePollView {
        LivePollView {
            pending: text::texts(self.symbols@).skip(self.position as int),
            found: pairs(self.found@),
        }
    }
}

impl View for PollStep {
    type V = PollStepView;

    open spec fn view(&self) -> PollStepView {
        match self {
            PollStep::Finished(bars) => PollStepView::Finished(bars@),
            PollStep::Failed(error) => PollStepView::Failed(error@),
            PollStep::Quote(poll) => PollStepView::Quote(poll@),
        }
    }
}

impl LivePoll {
    /// There is a symbol that the poll waits for.
    pub closed spec fn wf(self) -> bool {
        self.position < self.symbols@.len()
    }

    /// The symbol that the poll waits for.
    pub fn symbol(&self) -> (symbol: &str)
        requires
            self.wf(),
        ensures
            symbol@ == self@.pending[0],
    {
        self.symbols[self.position].as_str()
    }
}

impl PollStep {
    /// The step is the last one or can be followed by another.
    pub open spec fn wf(self) -> bool {
        match self {
            PollStep::Quote(poll) => poll.wf(),
            _ => true,
        }
    }
}

/// Whether a poll polls nothing but subscribed symbols.
pub open spec fn of_subscriptions(state: EodhdState, step: PollStepView) -> bool {
    step matches PollStepView::Quote(poll) ==> {
        &&& poll.pending.len() > 0
        &&& forall|i: int|
            0 <= i < poll.pending.len() ==> state.subscriptions.contains(#[trigger] poll.pending[i])
        &&& forall|k: int|
            0 <= k < poll.found.len() ==> state.subscriptions.contains((#[trigger] poll.found[k]).0)
    }
}

/// The step that starts a poll.
pub open spec fn first_step(state: EodhdState) -> PollStepView {
    if state.subscriptions.len() == 0 {
        PollStepView::Finished(Seq::empty())
    } else {
        PollStepView::Quote(LivePollView { pending: state.subscriptions, found: Seq::empty() })
    }
}

/// The state and the step after the quote that a poll waited for. Only behind the last quote, when
/// the poll returns what it found, do the cursors move.
pub open spec fn after_quote(
    state: EodhdState,
    poll: LivePollView,
    reply: Reply<RealTimeQuote>,
) -> (EodhdState, PollStepView) {
    let symbol = poll.pending[0];
    match quote_outcome(symbol, reply) {
        Err(error) => (state, PollStepView::Failed(error)),
        Ok(quote) => go_on(
            state,
            poll.pending.skip(1),
            state.collected(symbol, poll.found, quote),
        ),
    }
}

/// The state and the step of a poll with these symbols still to be polled and these quotes found.
pub open spec fn go_on(
    state: EodhdState,
    pending: Seq<Seq<char>>,
    found: Seq<(Seq<char>, Bar)>,
) -> (EodhdState, PollStepView) {
    if pending.len() == 0 {
        (state.all_returned(found), PollStepView::Finished(bars_in(found)))
    } else {
        (state, PollStepView::Quote(LivePollView { pending, found }))
    }
}

impl EodhdAdapter {
    /// An adapter for the real host.
    pub fn new(api_key: &str) -> (adapter: EodhdAdapter)
        ensures
            adapter@ == (EodhdState {
                api_key: api_key@,
                base_url: DEFAULT_BASE_URL@,
                subscriptions: Seq::empty(),
                live_cursor: Map::empty(),
            }),
            adapter@.wf(),
    {
        EodhdAdapter::with_base_url(api_key, DEFAULT_BASE_URL)
    }

    /// An adapter for another host.
    pub fn with_base_url(api_key: &str, base_url: &str) -> (adapter: EodhdAdapter)
        ensures
            adapter@ == (EodhdState {
                api_key: api_key@,
                base_url: base_url@,
                subscriptions: Seq::empty(),
                live_cursor: Map::empty(),
            }),
            adapter@.wf(),
    {
        let adapter = EodhdAdapter {
            api_key: api_key.to_owned(),
            base_url: base_url.to_owned(),
            subscriptions: Vec::new(),
            live_cursor: StringHashMap::new(),
        };
        assert(adapter@.subscriptions =~= Seq::empty());
        adapter
    }

    /// Builds the request for end-of-day bars. The endpoint counts in days.
    pub fn fetch_eod(&self, symbol: &str, period: &str, from: i64, to: i64) -> (request: Request)
        ensures
            request@ == eod_request(self@, symbol@, period@, from, to),
    {
        Request::get(text::join3(self.base_url.as_str(), "/api/eod/", symbol)).with(
            "api_token",
            self.api_key.as_str(),
        ).with("fmt", "json").with("period", period).with(
            "from",
            civil_date::format_date(from).as_str(),
        ).with("to", civil_date::format_date(to).as_str())
    }

    /// Builds the request for intraday bars.
    pub fn fetch_intraday(&self, symbol: &str, interval: &str, from: i64, to: i64) -> (request:
        Request)
        ensures
            request@ == intraday_request(self@, symbol@, interval@, from, to),
    {
        Request::get(text::join3(self.base_url.as_str(), "/api/intraday/", symbol)).with(
            "api_token",
            self.api_key.as_str(),
        ).with("fmt", "json").with("interval", interval).with(
            "from",
            text::integer_text(from as i128).as_str(),
        ).with("to", text::integer_text(to as i128).as_str())
    }

    /// Builds the request for a quote.
    pub fn fetch_real_time(&self, symbol: &str) -> (request: Request)
        ensures
            request@ == quote_request(self@, symbol@),
    {
        Request::get(text::join3(self.base_url.as_str(), "/api/real-time/", symbol)).with(
            "api_token",
            self.api_key.as_str(),
        ).with("fmt", "json")
    }

    /// Builds the request for the bars of `symbol` between `from` and `to` (Unix seconds), for the
    /// endpoint that serves `timeframe`.
    pub fn fetch_historical(&self, symbol: &str, timeframe: Timeframe, from: i64, to: i64) -> (request:
        Result<HistoricalRequest, String>)
        ensures
            match (request, kind_of(timeframe)) {
                (Ok(HistoricalRequest::Eod(request)), Some(RequestKindView::Eod(period))) => request@
                    == eod_request(self@, symbol@, period, from, to),
                (
                    Ok(HistoricalRequest::Intraday(request)),
                    Some(RequestKindView::Intraday(interval)),
                ) => request@ == intraday_request(self@, symbol@, interval, from, to),
                (Err(error), None) => error@ == unsupported(timeframe),
                _ => false,
            },
    {
        match map_timeframe(timeframe) {
            Err(error) => Err(error),
            Ok(RequestKind::Eod { period }) => Ok(
                HistoricalRequest::Eod(self.fetch_eod(symbol, period, from, to)),
            ),
            Ok(RequestKind::Intraday { interval }) => Ok(
                HistoricalRequest::Intraday(self.fetch_intraday(symbol, interval, from, to)),
            ),
        }
    }

    /// Subscribes to `symbol`, unless it is subscribed already. Quotes have no timeframe.
    pub fn subscribe_live(&mut self, symbol: &str, _timeframe: Timeframe) -> (result: Result<
        (),
        String,
    >)
        ensures
            result is Ok,
            final(self)@ == old(self)@.subscribed(symbol@),
            !old(self)@.subscriptions.contains(symbol@) ==> {
                &&& final(self)@.subscriptions == old(self)@.subscriptions.push(symbol@)
                &&& final(self)@.cursor(symbol@) == i64::MIN
                &&& forall|other: Seq<char>|
                    other != symbol@ ==> #[trigger] final(self)@.cursor(other) == old(self)@.cursor(
                        other,
                    )
            },
            old(self)@.wf() ==> final(self)@.wf(),
    {
        let name: String = symbol.to_owned();
        let mut i: usize = 0;
        while i < self.subscriptions.len()
            invariant
                i <= self.subscriptions@.len(),
                self@ == old(self)@,
                name@ == symbol@,
                forall|k: int| 0 <= k < i ==> (#[trigger] self@.subscriptions[k]) != symbol@,
            decreases self.subscriptions@.len() - i,
        {
            if self.subscriptions[i] == name {
                assert(self@.subscriptions[i as int] == symbol@);
                return Ok(());
            }
            i += 1;
        }
        let ghost before = self@;
        self.subscriptions.push(name);
        self.live_cursor.insert(symbol.to_owned(), i64::MIN);
        proof {
            assert(self@.subscriptions =~= before.subscriptions.push(symbol@));
            if before.wf() {
                lemma_subscribed(before, symbol@);
            }
        }
        Ok(())
    }

    /// Starts to poll all subscribed symbols.
    pub fn poll_live(&self) -> (step: PollStep)
        ensures
            step.wf(),
            step@ == first_step(self@),
            of_subscriptions(self@, step@),
    {
        let mut symbols: Vec<String> = Vec::new();
        let mut i: usize = 0;
        while i < self.subscriptions.len()
            invariant
                i <= self.subscriptions@.len(),
                text::texts(symbols@) =~= text::texts(self.subscriptions@.take(i as int)),
            decreases self.subscriptions@.len() - i,
        {
            let symbol: String = self.subscriptions[i].clone();
            let ghost before = text::texts(symbols@);
            symbols.push(symbol);
            assert(text::texts(symbols@) =~= before.push(symbol@));
            assert(text::texts(self.subscriptions@.take(i + 1)) =~= text::texts(
                self.subscriptions@.take(i as int),
            ).push(self.subscriptions@[i as int]@));
            i += 1;
        }
        assert(self.subscriptions@.take(i as int) =~= self.subscriptions@);
        assert(text::texts(symbols@).skip(0) =~= self@.subscriptions);
        if symbols.len() == 0 {
            return PollStep::Finished(Vec::new());
        }
        let found: Vec<Found> = Vec::new();
        assert(pairs(found@) =~= Seq::empty());
        PollStep::Quote(LivePoll { symbols, position: 0, found })
    }

    /// Takes in the quote that a poll waited for. It is new where it is later than the last one
    /// that was returned for the symbol. Only a poll that comes to its end counts as returned: an
    /// error leaves the cursors where they are.
    pub fn quote_arrived(&mut self, poll: LivePoll, reply: Reply<RealTimeQuote>) -> (step: PollStep)
        requires
            poll.wf(),
        ensures
            step.wf(),
            (final(self)@, step@) == after_quote(old(self)@, poll@, reply),
            old(self)@.wf() && of_subscriptions(old(self)@, PollStepView::Quote(poll@)) ==> {
                &&& final(self)@.wf()
                &&& of_subscriptions(final(self)@, step@)
            },
    {
        proof {
            if self@.wf() && of_subscriptions(self@, PollStepView::Quote(poll@)) {
                lemma_after_quote(self@, poll@, reply);
            }
        }
        let symbol: String = poll.symbols[poll.position].clone();
        let quote: Bar = match read_real_time(symbol.as_str(), reply) {
            Ok(quote) => quote,
            Err(error) => {
                return PollStep::Failed(error);
            },
        };
        let cursor: i64 = self.cursor(symbol.as_str());
        let mut found: Vec<Found> = poll.found;
        if quote.timestamp > cursor {
            let ghost before = pairs(found@);
            found.push(Found { symbol, quote });
            assert(pairs(found@) =~= before.push((symbol@, quote)));
        }
        assert(text::texts(poll.symbols@).skip(poll.position as int).skip(1) =~= text::texts(
            poll.symbols@,
        ).skip(poll.position + 1));
        assert(poll.position < poll.symbols.len());
        if poll.position + 1 < poll.symbols.len() {
            PollStep::Quote(LivePoll { symbols: poll.symbols, position: poll.position + 1, found })
        } else {
            PollStep::Finished(self.give_back(found))
        }
    }

    /// The timestamp of the last quote of `symbol` that was returned.
    fn cursor(&self, symbol: &str) -> (cursor: i64)
        ensures
            cursor == self@.cursor(symbol@),
    {
        match self.live_cursor.get(symbol) {
            Some(cursor) => *cursor,
            None => i64::MIN,
        }
    }

    /// Returns what a poll found, and moves the cursors to it.
    fn give_back(&mut self, found: Vec<Found>) -> (bars: Vec<Bar>)
        ensures
            bars@ == bars_in(pairs(found@)),
            final(self)@ == old(self)@.all_returned(pairs(found@)),
    {
        let mut bars: Vec<Bar> = Vec::new();
        let mut i: usize = 0;
        let ghost all = pairs(found@);
        assert(all.take(0) =~= Seq::empty());
        while i < found.len()
            invariant
                i <= found@.len(),
                all == pairs(found@),
                bars@ =~= bars_in(all.take(i as int)),
                self@ == old(self)@.all_returned(all.take(i as int)),
            decreases found@.len() - i,
        {
            let quote: Bar = found[i].quote;
            let symbol: String = found[i].symbol.clone();
            assert(all.take(i + 1).drop_last() =~= all.take(i as int));
            assert(all.take(i + 1).last() == (symbol@, quote));
            if quote.timestamp > self.cursor(symbol.as_str()) {
                self.live_cursor.insert(symbol, quote.timestamp);
            }
            bars.push(quote);
            i += 1;
        }
        assert(all.take(all.len() as int) =~= all);
        bars
    }
}

/// A date that is written as `YYYY-MM-DD` reads back as the midnight at which it starts.
pub proof fn dates_read_back(c: civil_date::Civil)
    requires
        c.valid(),
        0 <= c.year <= i32::MAX,
    ensures
        date_timestamp(civil_date::date_text(c.year, c.month, c.day)) == Some(c.number() * 86_400),
{
    let year = text::padded(c.year, 4);
    let month = text::padded(c.month, 2);
    let day = text::padded(c.day, 2);
    let date = civil_date::date_text(c.year, c.month, c.day);
    text::padded_reads_back(c.year as nat, 4);
    text::padded_reads_back(c.month as nat, 2);
    text::padded_reads_back(c.day as nat, 2);
    assert(date =~= year + seq!['-'] + (month + seq!['-'] + day));
    text::dash_behind_digits(year, month + seq!['-'] + day);
    let rest = date.skip(year.len() as int + 1);
    assert(rest =~= month + seq!['-'] + day);
    text::dash_behind_digits(month, day);
    assert(date.take(year.len() as int) =~= year);
    assert(rest.take(month.len() as int) =~= month);
    assert(rest.skip(month.len() as int + 1) =~= day);
}

/// The date of a timestamp reads back as the midnight before it, in the years that the text can
/// hold: from the year 0 on, up to the last one that an `i32` has.
pub proof fn timestamps_read_back(unix_ts: int)
    requires
        0 <= civil_date::civil_of_day(civil_date::day_of(unix_ts)).year <= i32::MAX,
    ensures
        date_timestamp(civil_date::timestamp_text(unix_ts)) == Some(unix_ts - unix_ts % 86_400),
{
    let c = civil_date::civil_of_day(civil_date::day_of(unix_ts));
    civil_date::number_of_its_civil(civil_date::day_of(unix_ts));
    dates_read_back(c);
}

/// All rows become bars, one for each and in their order, unless a row has no valid date; then the
/// error names the first such date.
pub proof fn every_row_becomes_a_bar(rows: Seq<EodRow>)
    ensures
        match eod_bars(rows) {
            Ok(bars) => {
                &&& bars.len() == rows.len()
                &&& forall|i: int|
                    0 <= i < rows.len() ==> date_timestamp((#[trigger] rows[i]).date@) is Some
                        && bars[i] == eod_bar(rows[i])
            },
            Err(error) => exists|i: int|
                {
                    &&& 0 <= i < rows.len()
                    &&& date_timestamp((#[trigger] rows[i]).date@) is None
                    &&& error == invalid_date(rows[i].date@)
                    &&& forall|j: int|
                        0 <= j < i ==> date_timestamp((#[trigger] rows[j]).date@) is Some
                },
        },
    decreases rows.len(),
{
    if rows.len() > 0 {
        let rest = rows.drop_last();
        every_row_becomes_a_bar(rest);
        match eod_bars(rest) {
            Ok(bars) => {
                assert forall|i: int| 0 <= i < rest.len() implies date_timestamp(
                    (#[trigger] rows[i]).date@,
                ) is Some && bars[i] == eod_bar(rows[i]) by {
                    assert(rest[i] == rows[i]);
                }
            },
            Err(error) => {
                let i = choose|i: int|
                    {
                        &&& 0 <= i < rest.len()
                        &&& date_timestamp((#[trigger] rest[i]).date@) is None
                        &&& error == invalid_date(rest[i].date@)
                        &&& forall|j: int|
                            0 <= j < i ==> date_timestamp((#[trigger] rest[j]).date@) is Some
                    };
                assert(rows[i] == rest[i]);
                assert forall|j: int| 0 <= j < i implies date_timestamp(
                    (#[trigger] rows[j]).date@,
                ) is Some by {
                    assert(rest[j] == rows[j]);
                }
            },
        }
    }
}

/// To subscribe to a symbol again changes nothing.
pub proof fn a_symbol_is_subscribed_once(state: EodhdState, symbol: Seq<char>)
    requires
        state.wf(),
    ensures
        state.subscribed(symbol).wf(),
        state.subscribed(symbol).subscriptions.contains(symbol),
        state.subscribed(symbol).subscribed(symbol) == state.subscribed(symbol),
{
    lemma_subscribed(state, symbol);
    if !state.subscriptions.contains(symbol) {
        let after = state.subscribed(symbol);
        assert(after.subscriptions[after.subscriptions.len() - 1] == symbol);
    }
}

/// A poll from the step `step` on, as far as the replies go.
pub open spec fn poll_run(
    state: EodhdState,
    step: PollStepView,
    replies: Seq<Reply<RealTimeQuote>>,
) -> (EodhdState, PollStepView)
    decreases replies.len(),
{
    match step {
        PollStepView::Quote(poll) if replies.len() > 0 => {
            let (after, next) = after_quote(state, poll, replies[0]);
            poll_run(after, next, replies.skip(1))
        },
        _ => (state, step),
    }
}

/// A whole poll.
pub open spec fn poll(state: EodhdState, replies: Seq<Reply<RealTimeQuote>>) -> (
    EodhdState,
    PollStepView,
) {
    poll_run(state, first_step(state), replies)
}

/// Replies that all have a quote.
pub open spec fn answered(quotes: Seq<RealTimeQuote>) -> Seq<Reply<RealTimeQuote>> {
    quotes.map_values(|quote: RealTimeQuote| Reply::Body(quote))
}

/// Those of the quotes, one for each symbol, that are later than the last one returned for the
/// symbol, each with its symbol.
pub open spec fn newer(
    state: EodhdState,
    symbols: Seq<Seq<char>>,
    quotes: Seq<RealTimeQuote>,
) -> Seq<(Seq<char>, Bar)>
    decreases symbols.len(),
{
    if symbols.len() == 0 {
        Seq::empty()
    } else {
        let rest = newer(state, symbols.skip(1), quotes.skip(1));
        if quotes[0].timestamp > state.cursor(symbols[0]) {
            seq![(symbols[0], quote_bar(quotes[0]))] + rest
        } else {
            rest
        }
    }
}

/// The later one of the last quote that was returned for a symbol and a quote.
pub open spec fn later(state: EodhdState, symbol: Seq<char>, quote: RealTimeQuote) -> i64 {
    if quote.timestamp > state.cursor(symbol) { quote.timestamp } else { state.cursor(symbol) }
}

/// What a poll makes of quotes for all its symbols.
proof fn lemma_answered_run(
    state: EodhdState,
    symbols: Seq<Seq<char>>,
    found: Seq<(Seq<char>, Bar)>,
    quotes: Seq<RealTimeQuote>,
)
    requires
        quotes.len() == symbols.len(),
        symbols.len() > 0,
    ensures
        poll_run(
            state,
            PollStepView::Quote(LivePollView { pending: symbols, found }),
            answered(quotes),
        ) == go_on(state, Seq::empty(), found + newer(state, symbols, quotes)),
    decreases symbols.len(),
{
    let rest = symbols.skip(1);
    let more = state.collected(symbols[0], found, quote_bar(quotes[0]));
    assert(answered(quotes).skip(1) =~= answered(quotes.skip(1)));
    assert(answered(quotes)[0] == Reply::Body(quotes[0]));
    let (after, next) = go_on(state, rest, more);
    let whole = found + newer(state, symbols, quotes);
    assert(more + newer(state, rest, quotes.skip(1)) =~= whole);
    if rest.len() > 0 {
        lemma_answered_run(state, rest, more, quotes.skip(1));
    } else {
        assert(newer(state, rest, quotes.skip(1)) =~= Seq::empty());
        assert(whole =~= more);
        assert(rest =~= Seq::empty());
        assert(poll_run(after, next, answered(quotes.skip(1))) == (after, next));
    }
}

/// Each quote that is newer is for one of the symbols.
proof fn lemma_newer(
    state: EodhdState,
    symbols: Seq<Seq<char>>,
    quotes: Seq<RealTimeQuote>,
    k: int,
)
    requires
        quotes.len() == symbols.len(),
        0 <= k < newer(state, symbols, quotes).len(),
    ensures
        symbols.contains(newer(state, symbols, quotes)[k].0),
    decreases symbols.len(),
{
    let rest = symbols.skip(1);
    let new = newer(state, symbols, quotes);
    let first: int = if quotes[0].timestamp > state.cursor(symbols[0]) { 1 } else { 0 };
    if k >= first {
        lemma_newer(state, rest, quotes.skip(1), k - first);
        assert(new[k] == newer(state, rest, quotes.skip(1))[k - first]);
        let i = choose|i: int| 0 <= i < rest.len() && rest[i] == new[k].0;
        assert(symbols[i + 1] == new[k].0);
    } else {
        assert(symbols[0] == new[k].0);
    }
}

/// Returning quotes leaves all but the cursors of their symbols.
proof fn lemma_returned_frame(state: EodhdState, found: Seq<(Seq<char>, Bar)>)
    ensures
        ({
            let after = state.all_returned(found);
            &&& after.api_key == state.api_key
            &&& after.base_url == state.base_url
            &&& after.subscriptions == state.subscriptions
            &&& forall|symbol: Seq<char>| #[trigger] after.cursor(symbol) >= state.cursor(symbol)
            &&& forall|symbol: Seq<char>|
                (forall|k: int| 0 <= k < found.len() ==> (#[trigger] found[k]).0 != symbol) ==> (
                #[trigger] after.cursor(symbol) == state.cursor(symbol))
        }),
    decreases found.len(),
{
    if found.len() > 0 {
        let rest = found.drop_last();
        lemma_returned_frame(state, rest);
        let middle = state.all_returned(rest);
        let after = state.all_returned(found);
        assert forall|symbol: Seq<char>| #[trigger] after.cursor(symbol) >= state.cursor(symbol) by {
            assert(middle.cursor(symbol) >= state.cursor(symbol));
        }
        assert forall|symbol: Seq<char>|
            (forall|k: int| 0 <= k < found.len() ==> (#[trigger] found[k]).0 != symbol) implies (
        #[trigger] after.cursor(symbol) == state.cursor(symbol)) by {
            assert forall|k: int| 0 <= k < rest.len() implies (#[trigger] rest[k]).0 != symbol by {
                assert(rest[k] == found[k]);
            }
            assert(middle.cursor(symbol) == state.cursor(symbol));
            assert(found[found.len() - 1].0 != symbol);
        }
    }
}

/// Returning quotes for subscribed symbols keeps the invariant.
proof fn lemma_returned_wf(state: EodhdState, found: Seq<(Seq<char>, Bar)>)
    requires
        state.wf(),
        forall|k: int| 0 <= k < found.len() ==> state.subscriptions.contains((#[trigger] found[k]).0),
    ensures
        state.all_returned(found).wf(),
    decreases found.len(),
{
    if found.len() > 0 {
        let rest = found.drop_last();
        assert forall|k: int| 0 <= k < rest.len() implies state.subscriptions.contains(
            (#[trigger] rest[k]).0,
        ) by {
            assert(rest[k] == found[k]);
        }
        lemma_returned_wf(state, rest);
        lemma_returned_frame(state, rest);
        assert(state.subscriptions.contains(found[found.len() - 1].0));
    }
}

/// Where symbols differ, the cursor of each moves to its own newer quote.
proof fn lemma_returned_newer(
    state: EodhdState,
    symbols: Seq<Seq<char>>,
    quotes: Seq<RealTimeQuote>,
    before: Seq<(Seq<char>, Bar)>,
    i: int,
)
    requires
        symbols.no_duplicates(),
        quotes.len() == symbols.len(),
        0 <= i < symbols.len(),
        forall|k: int| 0 <= k < before.len() ==> !symbols.contains((#[trigger] before[k]).0),
    ensures
        state.all_returned(before + newer(state, symbols, quotes)).cursor(symbols[i]) == later(
            state,
            symbols[i],
            quotes[i],
        ),
    decreases symbols.len(),
{
    let rest = symbols.skip(1);
    let new = newer(state, symbols, quotes);
    let tail = newer(state, rest, quotes.skip(1));
    let symbol = symbols[0];
    let quote = quote_bar(quotes[0]);
    let more = state.collected(symbol, before, quote);
    assert(before + new =~= more + tail);
    assert(!rest.contains(symbol)) by {
        if rest.contains(symbol) {
            let k = choose|k: int| 0 <= k < rest.len() && rest[k] == symbol;
            assert(symbols[k + 1] == symbol);
        }
    }
    assert(rest.no_duplicates()) by {
        assert forall|k: int, l: int|
            0 <= k < rest.len() && 0 <= l < rest.len() && k != l implies rest[k] != rest[l] by {
            assert(rest[k] == symbols[k + 1] && rest[l] == symbols[l + 1]);
        }
    }
    lemma_returned_frame(state, before);
    assert(symbols.contains(symbol));
    assert(state.all_returned(before).cursor(symbol) == state.cursor(symbol));
    let middle = state.all_returned(more);
    assert(middle.cursor(symbol) == later(state, symbol, quotes[0])) by {
        if quote.timestamp > state.cursor(symbol) {
            assert(more.drop_last() =~= before);
        }
    }
    if i > 0 {
        assert forall|k: int| 0 <= k < more.len() implies !rest.contains((#[trigger] more[k]).0) by {
            if k < before.len() {
                assert(more[k] == before[k]);
                assert(!symbols.contains(before[k].0));
                if rest.contains(before[k].0) {
                    let l = choose|l: int| 0 <= l < rest.len() && rest[l] == before[k].0;
                    assert(symbols[l + 1] == before[k].0);
                }
            }
        }
        lemma_returned_newer(state, rest, quotes.skip(1), more, i - 1);
        assert(rest[i - 1] == symbols[i] && quotes.skip(1)[i - 1] == quotes[i]);
    } else {
        lemma_returned_on(state, more, tail);
        lemma_returned_frame(middle, tail);
        assert forall|k: int| 0 <= k < tail.len() implies (#[trigger] tail[k]).0 != symbol by {
            lemma_newer(state, rest, quotes.skip(1), k);
        }
    }
}

/// Quotes can be returned in two parts.
proof fn lemma_returned_on(
    state: EodhdState,
    first: Seq<(Seq<char>, Bar)>,
    second: Seq<(Seq<char>, Bar)>,
)
    ensures
        state.all_returned(first + second) == state.all_returned(first).all_returned(second),
    decreases second.len(),
{
    if second.len() == 0 {
        assert(first + second =~= first);
    } else {
        assert((first + second).drop_last() =~= first + second.drop_last());
        lemma_returned_on(state, first, second.drop_last());
    }
}

/// A poll whose requests are all answered returns the quotes that are later than the last ones
/// returned, in the order of the subscriptions. It moves the cursor of each symbol to its latest
/// quote, and leaves everything else: the key, the address, the subscriptions and the cursors of
/// other symbols.
pub proof fn a_poll_returns_what_is_newer(state: EodhdState, quotes: Seq<RealTimeQuote>)
    requires
        state.wf(),
        quotes.len() == state.subscriptions.len(),
    ensures
        ({
            let (after, step) = poll(state, answered(quotes));
            &&& step == PollStepView::Finished(bars_in(newer(state, state.subscriptions, quotes)))
            &&& after.api_key == state.api_key
            &&& after.base_url == state.base_url
            &&& after.subscriptions == state.subscriptions
            &&& forall|i: int|
                0 <= i < quotes.len() ==> after.cursor(#[trigger] state.subscriptions[i]) == later(
                    state,
                    state.subscriptions[i],
                    quotes[i],
                )
            &&& forall|other: Seq<char>|
                !state.subscriptions.contains(other) ==> #[trigger] after.cursor(other)
                    == state.cursor(other)
        }),
{
    let symbols = state.subscriptions;
    let new = newer(state, symbols, quotes);
    let none = Seq::<(Seq<char>, Bar)>::empty();
    assert(none + new =~= new);
    if symbols.len() > 0 {
        lemma_answered_run(state, symbols, none, quotes);
    } else {
        assert(bars_in(new) =~= Seq::empty());
    }
    let after = poll(state, answered(quotes)).0;
    assert(after == state.all_returned(new));
    lemma_returned_frame(state, new);
    assert forall|i: int| 0 <= i < quotes.len() implies after.cursor(
        #[trigger] state.subscriptions[i],
    ) == later(state, state.subscriptions[i], quotes[i]) by {
        lemma_returned_newer(state, symbols, quotes, none, i);
    }
    assert forall|other: Seq<char>| !symbols.contains(other) implies #[trigger] after.cursor(other)
        == state.cursor(other) by {
        assert forall|k: int| 0 <= k < new.len() implies (#[trigger] new[k]).0 != other by {
            lemma_newer(state, symbols, quotes, k);
        }
    }
}

/// Each quote is returned only once: a second poll that shows the same quotes returns nothing.
pub proof fn each_quote_is_returned_once(state: EodhdState, quotes: Seq<RealTimeQuote>)
    requires
        state.wf(),
        quotes.len() == state.subscriptions.len(),
    ensures
        ({
            let (after, _) = poll(state, answered(quotes));
            poll(after, answered(quotes)).1 == PollStepView::Finished(Seq::empty())
        }),
{
    a_poll_returns_what_is_newer(state, quotes);
    cursors_never_go_back(state, answered(quotes));
    let (after, _) = poll(state, answered(quotes));
    a_poll_returns_what_is_newer(after, quotes);
    lemma_nothing_newer(after, after.subscriptions, quotes);
    assert(bars_in(newer(after, after.subscriptions, quotes)) =~= Seq::empty());
}

proof fn lemma_nothing_newer(
    state: EodhdState,
    symbols: Seq<Seq<char>>,
    quotes: Seq<RealTimeQuote>,
)
    requires
        quotes.len() == symbols.len(),
        forall|i: int|
            0 <= i < symbols.len() ==> quotes[i].timestamp <= state.cursor(#[trigger] symbols[i]),
    ensures
        newer(state, symbols, quotes) == Seq::<(Seq<char>, Bar)>::empty(),
    decreases symbols.len(),
{
    if symbols.len() > 0 {
        assert(quotes[0].timestamp <= state.cursor(symbols[0]));
        assert forall|i: int| 0 <= i < symbols.skip(1).len() implies quotes.skip(1)[i].timestamp
            <= state.cursor(#[trigger] symbols.skip(1)[i]) by {
            assert(symbols.skip(1)[i] == symbols[i + 1]);
        }
        lemma_nothing_newer(state, symbols.skip(1), quotes.skip(1));
    }
}

proof fn lemma_after_quote(state: EodhdState, poll: LivePollView, reply: Reply<RealTimeQuote>)
    requires
        state.wf(),
        of_subscriptions(state, PollStepView::Quote(poll)),
    ensures
        ({
            let (after, next) = after_quote(state, poll, reply);
            &&& after.wf()
            &&& of_subscriptions(after, next)
            &&& after.subscriptions == state.subscriptions
            &&& forall|symbol: Seq<char>| #[trigger] after.cursor(symbol) >= state.cursor(symbol)
            &&& next !is Finished ==> after == state
        }),
{
    let symbol = poll.pending[0];
    let rest = poll.pending.skip(1);
    assert(state.subscriptions.contains(symbol));
    if let Ok(quote) = quote_outcome(symbol, reply) {
        let found = state.collected(symbol, poll.found, quote);
        assert forall|k: int| 0 <= k < found.len() implies state.subscriptions.contains(
            (#[trigger] found[k]).0,
        ) by {
            if k < poll.found.len() {
                assert(found[k] == poll.found[k]);
            }
        }
        assert forall|i: int| 0 <= i < rest.len() implies state.subscriptions.contains(
            #[trigger] rest[i],
        ) by {
            assert(rest[i] == poll.pending[i + 1]);
        }
        lemma_returned_wf(state, found);
        lemma_returned_frame(state, found);
    }
}

proof fn lemma_poll_run(
    state: EodhdState,
    step: PollStepView,
    replies: Seq<Reply<RealTimeQuote>>,
)
    requires
        state.wf(),
        of_subscriptions(state, step),
    ensures
        ({
            let (after, end) = poll_run(state, step, replies);
            &&& after.wf()
            &&& after.subscriptions == state.subscriptions
            &&& forall|symbol: Seq<char>| #[trigger] after.cursor(symbol) >= state.cursor(symbol)
            &&& end !is Finished ==> after == state
        }),
    decreases replies.len(),
{
    if let PollStepView::Quote(poll) = step {
        if replies.len() > 0 {
            let (middle, next) = after_quote(state, poll, replies[0]);
            lemma_after_quote(state, poll, replies[0]);
            if next is Quote {
                lemma_poll_run(middle, next, replies.skip(1));
            } else {
                assert(poll_run(middle, next, replies.skip(1)) == (middle, next));
            }
        }
    }
}

/// Whatever the replies hold, a poll keeps the subscriptions and moves no cursor back.
pub proof fn cursors_never_go_back(state: EodhdState, replies: Seq<Reply<RealTimeQuote>>)
    requires
        state.wf(),
    ensures
        poll(state, replies).0.wf(),
        poll(state, replies).0.subscriptions == state.subscriptions,
        forall|symbol: Seq<char>| #[trigger]
            poll(state, replies).0.cursor(symbol) >= state.cursor(symbol),
{
    assert(of_subscriptions(state, first_step(state)));
    lemma_poll_run(state, first_step(state), replies);
}

/// A poll that fails changes nothing: what it saw has not been returned, and the next poll returns
/// it.
pub proof fn a_failed_poll_keeps_the_cursors(
    state: EodhdState,
    replies: Seq<Reply<RealTimeQuote>>,
)
    requires
        state.wf(),
        poll(state, replies).1 is Failed,
    ensures
        poll(state, replies).0 == state,
{
    assert(of_subscriptions(state, first_step(state)));
    lemma_poll_run(state, first_step(state), replies);
}

proof fn lemma_failed_run(
    state: EodhdState,
    poll: LivePollView,
    quotes: Seq<RealTimeQuote>,
    reply: Reply<RealTimeQuote>,
)
    requires
        quotes.len() < poll.pending.len(),
        reply !is Body,
    ensures
        poll_run(state, PollStepView::Quote(poll), answered(quotes).push(reply)).1
            == PollStepView::Failed(
            quote_outcome(poll.pending[quotes.len() as int], reply)->Err_0,
        ),
    decreases quotes.len(),
{
    let replies = answered(quotes).push(reply);
    let (after, next) = after_quote(state, poll, replies[0]);
    if quotes.len() == 0 {
        assert(poll_run(after, next, replies.skip(1)) == (after, next));
    } else {
        assert(replies.skip(1) =~= answered(quotes.skip(1)).push(reply));
        assert(replies[0] == Reply::Body(quotes[0]));
        let found = state.collected(poll.pending[0], poll.found, quote_bar(quotes[0]));
        let rest = LivePollView { pending: poll.pending.skip(1), found };
        lemma_failed_run(after, rest, quotes.skip(1), reply);
    }
}

/// The first request that is not answered ends a poll, with the error that names its symbol.
pub proof fn the_first_failure_ends_a_poll(
    state: EodhdState,
    quotes: Seq<RealTimeQuote>,
    reply: Reply<RealTimeQuote>,
)
    requires
        quotes.len() < state.subscriptions.len(),
        reply !is Body,
    ensures
        quote_outcome(state.subscriptions[quotes.len() as int], reply) matches Err(error)
            && poll(state, answered(quotes).push(reply)).1 == PollStepView::Failed(error),
{
    let first = LivePollView { pending: state.subscriptions, found: Seq::empty() };
    lemma_failed_run(state, first, quotes, reply);
}

proof fn lemma_subscribed(state: EodhdState, symbol: Seq<char>)
    requires
        state.wf(),
    ensures
        state.subscribed(symbol).wf(),
{
    let after = state.subscribed(symbol);
    if !state.subscriptions.contains(symbol) {
        assert forall|k: int, l: int|
            0 <= k < after.subscriptions.len() && 0 <= l < after.subscriptions.len() && k
                != l implies after.subscriptions[k] != after.subscriptions[l] by {
            let n = state.subscriptions.len() as int;
            if k < n {
                assert(state.subscriptions.contains(state.subscriptions[k]));
            }
            if l < n {
                assert(state.subscriptions.contains(state.subscriptions[l]));
            }
        }
        assert forall|name: Seq<char>| #[trigger]
            after.live_cursor.contains_key(name) <==> after.subscriptions.contains(name) by {
            let n = state.subscriptions.len() as int;
            if name == symbol {
                assert(after.subscriptions[n] == symbol);
            } else if after.subscriptions.contains(name) {
                let k = choose|k: int| 0 <= k < after.subscriptions.len() && after.subscriptions[k] == name;
                assert(state.subscriptions[k] == name);
            } else if state.subscriptions.contains(name) {
                let k = choose|k: int| 0 <= k < n && state.subscriptions[k] == name;
                assert(after.subscriptions[k] == name);
            }
        }
    }
}

} // verus!
