use kestrel_connector::bar::Bar;
use kestrel_connector::civil_date::{days_from_civil, format_date};
use kestrel_connector::double::Double;
use kestrel_connector::eodhd::{
    map_timeframe, parse_eod_date, read_eod, read_intraday, read_real_time, EodBar, EodRow,
    EodhdAdapter, HistoricalRequest, IntradayRow, PollStep, RealTimeQuote, RequestKind,
};
use kestrel_connector::request::{Reply, Request};
use kestrel_connector::timeframe::Timeframe;
use serde_json::Value;

fn double(value: f64) -> Double {
    Double { bits: value.to_bits() }
}

fn number(value: Double) -> f64 {
    f64::from_bits(value.bits)
}

fn field(row: &Value, name: &str) -> Double {
    double(row[name].as_f64().unwrap())
}

/// Answers a request for `path` with `body` and every other request with status 404.
fn serve<T>(
    request: &Request,
    path: &str,
    body: &str,
    decode: fn(&Value) -> T,
) -> Reply<T> {
    if request.url != format!("http://mock{path}") {
        return Reply::Failed(ureq::Error::StatusCode(404).to_string());
    }
    match serde_json::from_str::<Value>(body) {
        Ok(value) => Reply::Body(decode(&value)),
        Err(error) => Reply::Unreadable(error.to_string()),
    }
}

fn eod_rows(body: &Value) -> Vec<EodRow> {
    body.as_array()
        .unwrap()
        .iter()
        .map(|row| EodRow {
            date: row["date"].as_str().unwrap().to_string(),
            open: field(row, "open"),
            high: field(row, "high"),
            low: field(row, "low"),
            close: field(row, "close"),
            adjusted_close: field(row, "adjusted_close"),
            volume: field(row, "volume"),
        })
        .collect()
}

fn intraday_rows(body: &Value) -> Vec<IntradayRow> {
    body.as_array()
        .unwrap()
        .iter()
        .map(|row| IntradayRow {
            timestamp: row["timestamp"].as_i64().unwrap(),
            open: field(row, "open"),
            high: field(row, "high"),
            low: field(row, "low"),
            close: field(row, "close"),
            volume: row["volume"].as_f64().map(double),
        })
        .collect()
}

fn real_time_quote(row: &Value) -> RealTimeQuote {
    RealTimeQuote {
        timestamp: row["timestamp"].as_i64().unwrap(),
        open: field(row, "open"),
        high: field(row, "high"),
        low: field(row, "low"),
        close: field(row, "close"),
        volume: field(row, "volume"),
    }
}

struct Priced {
    timestamp: i64,
    open: f64,
    high: f64,
    low: f64,
    close: f64,
    volume: f64,
}

fn priced(bar: &EodBar) -> Priced {
    let factor = if bar.scaled {
        number(bar.adjusted_close) / number(bar.raw.close)
    } else {
        1.0
    };
    Priced {
        timestamp: bar.raw.timestamp,
        open: number(bar.raw.open) * factor,
        high: number(bar.raw.high) * factor,
        low: number(bar.raw.low) * factor,
        close: number(bar.raw.close) * factor,
        volume: number(bar.raw.volume),
    }
}

fn fetch_eod_bars(symbol: &str, path: &str, body: &str) -> Result<Vec<Priced>, String> {
    let adapter = EodhdAdapter::with_base_url("token", "http://mock");
    match adapter.fetch_historical(symbol, Timeframe::Day(1), 0, 2_000_000_000)? {
        HistoricalRequest::Eod(request) => {
            let bars = read_eod(symbol, serve(&request, path, body, eod_rows))?;
            Ok(bars.iter().map(priced).collect())
        }
        HistoricalRequest::Intraday(_) => panic!("days come from the end-of-day endpoint"),
    }
}

fn quote(timestamp: i64) -> RealTimeQuote {
    RealTimeQuote {
        timestamp,
        open: double(1.0),
        high: double(2.0),
        low: double(0.5),
        close: double(1.5),
        volume: double(100.0),
    }
}

fn quote_bar(timestamp: i64) -> Bar {
    Bar {
        timestamp,
        open: double(1.0),
        high: double(2.0),
        low: double(0.5),
        close: double(1.5),
        volume: double(100.0),
    }
}

/// Polls to the end, with one reply for each subscription.
fn poll(
    adapter: &mut EodhdAdapter,
    replies: Vec<Reply<RealTimeQuote>>,
) -> Result<Vec<Bar>, String> {
    let mut step = adapter.poll_live();
    let mut replies = replies.into_iter();
    loop {
        step = match step {
            PollStep::Finished(bars) => return Ok(bars),
            PollStep::Failed(error) => return Err(error),
            PollStep::Quote(waiting) => adapter.quote_arrived(waiting, replies.next().unwrap()),
        };
    }
}

#[test]
fn eodhd_unsupported_timeframe_is_rejected() {
    let adapter = EodhdAdapter::with_base_url("token", "http://127.0.0.1:0");
    let err = adapter
        .fetch_historical("AAPL.US", Timeframe::Minute(3), 0, 100)
        .unwrap_err();
    assert!(err.contains("does not support"));
    assert_eq!(
        err,
        "EODHD does not support timeframe 3m (supported: Day(1)/Week(1)/Month(1) via the EOD \
         endpoint, Minute(1)/Minute(5)/Hour(1) via the intraday endpoint)"
    );
}

#[test]
fn fetch_historical_parses_eod_bars() {
    let bars = fetch_eod_bars(
        "AAPL.US",
        "/api/eod/AAPL.US",
        r#"[{"date":"2024-01-02","open":295.05,"high":297.28,"low":295.05,"close":297.04,"adjusted_close":279.9221,"volume":4458400}]"#,
    )
    .unwrap();

    assert_eq!(bars.len(), 1);
    assert_eq!(bars[0].timestamp, days_from_civil(2024, 1, 2) * 86_400);
    assert_eq!(bars[0].close, 279.9221);
    let factor = 279.9221 / 297.04;
    assert!((bars[0].open - 295.05 * factor).abs() < 1e-9);
    assert!((bars[0].high - 297.28 * factor).abs() < 1e-9);
    assert!((bars[0].low - 295.05 * factor).abs() < 1e-9);
    assert!(bars[0].low <= bars[0].close && bars[0].close <= bars[0].high);
    assert_eq!(bars[0].volume, 4_458_400.0);
}

#[test]
fn split_does_not_produce_a_price_gap() {
    let bars = fetch_eod_bars(
        "AMZN.US",
        "/api/eod/AMZN.US",
        r#"[{"date":"2022-06-03","open":2450.0,"high":2460.0,"low":2440.0,"close":2447.0,"adjusted_close":122.35,"volume":1.0},
            {"date":"2022-06-06","open":125.0,"high":126.0,"low":124.0,"close":124.79,"adjusted_close":124.79,"volume":2.0}]"#,
    )
    .unwrap();

    let jump = (bars[1].close - bars[0].close).abs() / bars[0].close;
    assert!(jump < 0.05, "Split als Kurssprung durchgeschlagen: {jump}");
}

#[test]
fn fetch_historical_parses_intraday_bars() {
    let adapter = EodhdAdapter::with_base_url("token", "http://mock");
    let request = match adapter
        .fetch_historical("AAPL.US", Timeframe::Hour(1), 0, 2_000_000_000)
        .unwrap()
    {
        HistoricalRequest::Intraday(request) => request,
        HistoricalRequest::Eod(_) => panic!("hours come from the intraday endpoint"),
    };
    let bars = read_intraday(
        "AAPL.US",
        serve(
            &request,
            "/api/intraday/AAPL.US",
            r#"[{"timestamp":1700058600,"gmtoffset":0,"datetime":"2023-11-15 14:30:00","open":187.845001,"high":188.699996,"low":187.800003,"close":188.149993,"volume":11861855},
                {"timestamp":1700062200,"gmtoffset":0,"datetime":"2023-11-15 15:30:00","open":188.1,"high":188.4,"low":188.0,"close":188.2,"volume":null}]"#,
            intraday_rows,
        ),
    )
    .unwrap();

    assert_eq!(bars.len(), 2);
    assert_eq!(bars[0].timestamp, 1_700_058_600);
    assert_eq!(number(bars[0].volume), 11_861_855.0);
    assert_eq!(number(bars[1].volume), 0.0);
    assert_eq!(number(bars[1].close), 188.2);
}

#[test]
fn http_error_is_surfaced() {
    let adapter = EodhdAdapter::with_base_url("token", "http://mock");
    let request = match adapter
        .fetch_historical("AAPL.US", Timeframe::Day(1), 0, 100)
        .unwrap()
    {
        HistoricalRequest::Eod(request) => request,
        HistoricalRequest::Intraday(_) => panic!("days come from the end-of-day endpoint"),
    };
    assert_eq!(request.url, "http://mock/api/eod/AAPL.US");
    let err = read_eod(
        "AAPL.US",
        Reply::Failed(ureq::Error::StatusCode(429).to_string()),
    )
    .unwrap_err();
    assert!(err.contains("429"));
}

#[test]
fn poll_live_returns_each_quote_only_once() {
    let body = r#"{"code":"AAPL.US","timestamp":1700000000,"gmtoffset":0,"open":1,"high":2,"low":0.5,"close":1.5,"volume":100,"previousClose":1,"change":0.5,"change_p":50}"#;
    let mut adapter = EodhdAdapter::with_base_url("token", "http://mock");
    adapter
        .subscribe_live("AAPL.US", Timeframe::Minute(1))
        .unwrap();

    let request = adapter.fetch_real_time("AAPL.US");
    let reply = serve(&request, "/api/real-time/AAPL.US", body, real_time_quote);
    let first = poll(&mut adapter, vec![reply]).unwrap();
    assert_eq!(first.len(), 1);
    assert_eq!(first[0].timestamp, 1_700_000_000);

    let reply = serve(&request, "/api/real-time/AAPL.US", body, real_time_quote);
    let second = poll(&mut adapter, vec![reply]).unwrap();
    assert!(second.is_empty());
}

fn pairs(request: &Request) -> Vec<(&str, &str)> {
    request
        .query
        .iter()
        .map(|p| (p.name.as_str(), p.value.as_str()))
        .collect()
}

#[test]
fn eod_request_counts_in_days() {
    let adapter = EodhdAdapter::new("key");
    let request = adapter.fetch_eod("AAPL.US", "d", 1_704_153_599, 1_704_153_600);
    assert_eq!(request.url, "https://eodhd.com/api/eod/AAPL.US");
    assert_eq!(
        pairs(&request),
        vec![
            ("api_token", "key"),
            ("fmt", "json"),
            ("period", "d"),
            ("from", "2024-01-01"),
            ("to", "2024-01-02"),
        ]
    );
}

#[test]
fn intraday_request_counts_in_seconds() {
    let adapter = EodhdAdapter::with_base_url("key", "http://host");
    let request = adapter.fetch_intraday("AAPL.US", "5m", -7, 1_700_058_600);
    assert_eq!(request.url, "http://host/api/intraday/AAPL.US");
    assert_eq!(
        pairs(&request),
        vec![
            ("api_token", "key"),
            ("fmt", "json"),
            ("interval", "5m"),
            ("from", "-7"),
            ("to", "1700058600"),
        ]
    );
}

#[test]
fn real_time_request_names_the_symbol() {
    let adapter = EodhdAdapter::with_base_url("key", "http://host");
    let request = adapter.fetch_real_time("AAPL.US");
    assert_eq!(request.url, "http://host/api/real-time/AAPL.US");
    assert_eq!(pairs(&request), vec![("api_token", "key"), ("fmt", "json")]);
}

#[test]
fn each_supported_timeframe_has_an_endpoint() {
    let eod = |timeframe| match map_timeframe(timeframe) {
        Ok(RequestKind::Eod { period }) => period,
        _ => "",
    };
    let intraday = |timeframe| match map_timeframe(timeframe) {
        Ok(RequestKind::Intraday { interval }) => interval,
        _ => "",
    };
    assert_eq!(eod(Timeframe::Day(1)), "d");
    assert_eq!(eod(Timeframe::Week(1)), "w");
    assert_eq!(eod(Timeframe::Month(1)), "m");
    assert_eq!(intraday(Timeframe::Minute(1)), "1m");
    assert_eq!(intraday(Timeframe::Minute(5)), "5m");
    assert_eq!(intraday(Timeframe::Hour(1)), "1h");
}

#[test]
fn unsupported_timeframes_are_shown_with_their_unit() {
    for (timeframe, shown) in [
        (Timeframe::Second(30), "30s"),
        (Timeframe::Minute(0), "0m"),
        (Timeframe::Hour(4), "4h"),
        (Timeframe::Day(2), "2d"),
        (Timeframe::Week(4_294_967_295), "4294967295w"),
        (Timeframe::Month(3), "3M"),
    ] {
        let err = map_timeframe(timeframe).unwrap_err();
        assert!(
            err.starts_with(&format!("EODHD does not support timeframe {shown} (")),
            "{err}"
        );
    }
}

#[test]
fn eod_dates_are_numbers_between_dashes() {
    assert_eq!(parse_eod_date("1970-01-01"), Ok(0));
    assert_eq!(parse_eod_date("2024-02-29"), Ok(1_709_164_800));
    assert_eq!(parse_eod_date("1969-12-31"), Ok(-86_400));
    assert_eq!(parse_eod_date("+2024-+01-+02"), Ok(1_704_153_600));
    assert_eq!(parse_eod_date("0002024-1-2"), Ok(1_704_153_600));
    // Days and months outside the calendar are counted on.
    assert_eq!(parse_eod_date("2023-02-29"), parse_eod_date("2023-03-01"));
    assert_eq!(parse_eod_date("2024-00-31"), parse_eod_date("2023-12-31"));
    assert_eq!(parse_eod_date("2023-13-01"), parse_eod_date("2024-01-01"));
}

#[test]
fn other_texts_are_no_eod_dates() {
    for text in [
        "",
        "2024",
        "2024-01",
        "2024-01-",
        "-2024-01-02",
        "2024--01-02",
        "2024-01-02-03",
        "2024-01-02 ",
        "2024/01/02",
        "2024-0x1-02",
        "+-1-1",
        "2147483648-01-01",
        "2024-4294967296-01",
        "2024-01-99999999999999999999999",
        "٢٠٢٤-01-02",
    ] {
        assert_eq!(
            parse_eod_date(text),
            Err(format!("invalid EOD date '{text}'"))
        );
    }
    assert_eq!(
        parse_eod_date("2147483647-01-01"),
        Ok(days_from_civil(2_147_483_647, 1, 1) * 86_400)
    );
}

#[test]
fn written_dates_read_back_as_midnight() {
    for day in (-719_528..2_000_000).step_by(977) {
        let timestamp: i64 = day * 86_400;
        for of_day in [0, 1, 43_200, 86_399] {
            assert_eq!(
                parse_eod_date(&format_date(timestamp + of_day)),
                Ok(timestamp)
            );
        }
    }
}

fn eod_row(date: &str, close: f64) -> EodRow {
    EodRow {
        date: date.to_string(),
        open: double(1.0),
        high: double(3.0),
        low: double(0.5),
        close: double(close),
        adjusted_close: double(1.0),
        volume: double(7.0),
    }
}

#[test]
fn the_first_invalid_date_ends_the_series() {
    let rows = vec![
        eod_row("2024-01-02", 2.0),
        eod_row("soon", 2.0),
        eod_row("later", 2.0),
    ];
    assert_eq!(
        read_eod("AAPL.US", Reply::Body(rows)).unwrap_err(),
        "invalid EOD date 'soon'"
    );
}

#[test]
fn only_a_close_above_zero_scales() {
    let rows = vec![
        eod_row("2024-01-02", 2.0),
        eod_row("2024-01-03", 0.0),
        eod_row("2024-01-04", -2.0),
        eod_row("2024-01-05", -0.0),
        eod_row("2024-01-08", f64::NAN),
        eod_row("2024-01-09", f64::MIN_POSITIVE),
        eod_row("2024-01-10", f64::INFINITY),
    ];
    let bars = read_eod("AAPL.US", Reply::Body(rows)).unwrap();
    let scaled: Vec<bool> = bars.iter().map(|bar| bar.scaled).collect();
    assert_eq!(scaled, vec![true, false, false, false, false, true, true]);
    assert_eq!(bars[0].raw.timestamp, 1_704_153_600);
    assert_eq!(number(bars[0].raw.open), 1.0);
    assert_eq!(number(bars[0].raw.high), 3.0);
    assert_eq!(number(bars[0].raw.low), 0.5);
    assert_eq!(number(bars[0].raw.close), 2.0);
    assert_eq!(number(bars[0].raw.volume), 7.0);
    assert_eq!(number(bars[0].adjusted_close), 1.0);
}

#[test]
fn eodhd_errors_name_the_symbol_and_the_cause() {
    assert_eq!(
        read_eod("A", Reply::Failed("down".to_string())).unwrap_err(),
        "EODHD EOD request for 'A' failed: down"
    );
    assert_eq!(
        read_eod("A", Reply::Unreadable("odd".to_string())).unwrap_err(),
        "EODHD EOD response for 'A' could not be parsed: odd"
    );
    assert_eq!(
        read_intraday("A", Reply::Failed("down".to_string())).unwrap_err(),
        "EODHD intraday request for 'A' failed: down"
    );
    assert_eq!(
        read_intraday("A", Reply::Unreadable("odd".to_string())).unwrap_err(),
        "EODHD intraday response for 'A' could not be parsed: odd"
    );
    assert_eq!(
        read_real_time("A", Reply::Failed("down".to_string())).unwrap_err(),
        "EODHD real-time request for 'A' failed: down"
    );
    assert_eq!(
        read_real_time("A", Reply::Unreadable("odd".to_string())).unwrap_err(),
        "EODHD real-time response for 'A' could not be parsed: odd"
    );
}

#[test]
fn eodhd_subscriptions_are_made_once_and_polled_in_order() {
    let mut adapter = EodhdAdapter::new("key");
    assert_eq!(poll(&mut adapter, vec![]), Ok(vec![]));
    for symbol in ["B", "A", "B"] {
        assert_eq!(adapter.subscribe_live(symbol, Timeframe::Day(1)), Ok(()));
    }
    let first = vec![Reply::Body(quote(20)), Reply::Body(quote(10))];
    assert_eq!(
        poll(&mut adapter, first),
        Ok(vec![quote_bar(20), quote_bar(10)])
    );
    // A late subscription to a symbol keeps its cursor.
    assert_eq!(adapter.subscribe_live("A", Timeframe::Day(1)), Ok(()));
    let second = vec![Reply::Body(quote(20)), Reply::Body(quote(11))];
    assert_eq!(poll(&mut adapter, second), Ok(vec![quote_bar(11)]));
    let third = vec![Reply::Body(quote(19)), Reply::Body(quote(11))];
    assert_eq!(poll(&mut adapter, third), Ok(vec![]));
}

#[test]
fn a_failed_quote_ends_the_poll() {
    let mut adapter = EodhdAdapter::new("key");
    adapter.subscribe_live("A", Timeframe::Day(1)).unwrap();
    adapter.subscribe_live("B", Timeframe::Day(1)).unwrap();
    let replies = vec![
        Reply::Body(quote(10)),
        Reply::Failed("timeout".to_string()),
    ];
    assert_eq!(
        poll(&mut adapter, replies),
        Err("EODHD real-time request for 'B' failed: timeout".to_string())
    );
}

#[test]
fn a_failed_poll_loses_no_quote() {
    let mut adapter = EodhdAdapter::with_base_url("token", "http://mock");
    adapter.subscribe_live("A.US", Timeframe::Day(1)).unwrap();
    adapter.subscribe_live("B.US", Timeframe::Day(1)).unwrap();
    let refused = ureq::Error::StatusCode(500).to_string();
    let replies = vec![Reply::Body(quote(100)), Reply::Failed(refused)];
    assert!(poll(&mut adapter, replies).is_err());
    // The quote of the first symbol has not been returned yet.
    let replies = vec![Reply::Body(quote(100)), Reply::Body(quote(200))];
    assert_eq!(
        poll(&mut adapter, replies),
        Ok(vec![quote_bar(100), quote_bar(200)])
    );
    let replies = vec![Reply::Body(quote(100)), Reply::Unreadable("odd".to_string())];
    assert!(poll(&mut adapter, replies).is_err());
    let replies = vec![Reply::Body(quote(100)), Reply::Body(quote(200))];
    assert_eq!(poll(&mut adapter, replies), Ok(vec![]));
}

#[test]
fn a_waiting_poll_names_its_symbol() {
    let mut adapter = EodhdAdapter::new("key");
    adapter.subscribe_live("A", Timeframe::Day(1)).unwrap();
    match adapter.poll_live() {
        PollStep::Quote(waiting) => assert_eq!(waiting.symbol(), "A"),
        _ => panic!("the poll has to wait for a quote"),
    }
}
