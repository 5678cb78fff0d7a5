use kestrel_connector::bar::Bar;
use kestrel_connector::double::Double;
use kestrel_connector::massive::{
    far_future, is_outright, nanos, read_aggs, resolution_of, AggRow, ContractListing, ContractRow,
    FrontMonth, MassiveAdapter, Step,
};
use kestrel_connector::request::{Reply, Request};
use kestrel_connector::timeframe::Timeframe;
use serde_json::Value;

fn double(value: f64) -> Double {
    Double { bits: value.to_bits() }
}

fn number(value: Double) -> f64 {
    f64::from_bits(value.bits)
}

fn field(row: &Value, name: &str) -> Double {
    double(row[name].as_f64().unwrap_or(0.0))
}

fn contracts(body: &Value) -> ContractListing {
    let rows = body["results"].as_array().cloned().unwrap_or_default();
    ContractListing {
        results: rows
            .iter()
            .map(|row| ContractRow {
                ticker: row["ticker"].as_str().unwrap().to_string(),
                active: row["active"].as_bool().unwrap_or(false),
                last_trade_date: match row["last_trade_date"].as_str() {
                    Some(date) => date.to_string(),
                    None => far_future(),
                },
            })
            .collect(),
        next_url: body["next_url"].as_str().map(|url| url.to_string()),
    }
}

fn aggregates(body: &Value) -> Vec<AggRow> {
    let rows = body["results"].as_array().cloned().unwrap_or_default();
    rows.iter()
        .map(|row| AggRow {
            window_start: row["window_start"].as_i64().unwrap(),
            open: field(row, "open"),
            high: field(row, "high"),
            low: field(row, "low"),
            close: field(row, "close"),
            volume: field(row, "volume"),
        })
        .collect()
}

fn parameter<'a>(request: &'a Request, name: &str) -> Option<&'a str> {
    request
        .query
        .iter()
        .find(|p| p.name == name)
        .map(|p| p.value.as_str())
}

/// A provider with canned bodies: each address answers with its bodies in turn, and goes on with
/// the last one.
struct Provider {
    pages: Vec<(String, Vec<String>)>,
    asked: Vec<String>,
}

impl Provider {
    fn new() -> Provider {
        Provider { pages: Vec::new(), asked: Vec::new() }
    }

    fn answer(mut self, path: &str, bodies: &[&str]) -> Provider {
        let bodies = bodies.iter().map(|b| b.to_string()).collect();
        self.pages.push((format!("http://mock{path}"), bodies));
        self
    }

    fn get<T>(&mut self, request: &Request, decode: fn(&Value) -> T) -> Reply<T> {
        assert_eq!(parameter(request, "apiKey"), Some("token"));
        self.asked.push(request.url.clone());
        match self.pages.iter_mut().find(|(url, _)| *url == request.url) {
            None => Reply::Failed(ureq::Error::StatusCode(404).to_string()),
            Some((_, bodies)) => {
                let body = if bodies.len() > 1 {
                    bodies.remove(0)
                } else {
                    bodies[0].clone()
                };
                match serde_json::from_str::<Value>(&body) {
                    Ok(value) => Reply::Body(decode(&value)),
                    Err(error) => Reply::Unreadable(error.to_string()),
                }
            }
        }
    }
}

fn front_month(
    adapter: &mut MassiveAdapter,
    provider: &mut Provider,
    product: &str,
    now: i64,
) -> Result<String, String> {
    let mut search = adapter.front_month(product, now);
    loop {
        search = match search {
            FrontMonth::Found(ticker) => return Ok(ticker),
            FrontMonth::Failed(error) => return Err(error),
            FrontMonth::Listing(waiting) => {
                let request = adapter.list_outrights(&waiting);
                waiting.listed(provider.get(&request, contracts))
            }
            FrontMonth::Measuring(waiting) => {
                let request = adapter.recent_volume(&waiting);
                let reply = provider.get(&request, aggregates);
                adapter.volume_measured(waiting, reply)
            }
        };
    }
}

fn finish(
    adapter: &mut MassiveAdapter,
    provider: &mut Provider,
    step: Step,
) -> Result<Vec<Bar>, String> {
    let mut step = step;
    loop {
        let request = adapter.request_of(&step);
        step = match step {
            Step::Finished(bars) => {
                assert!(request.is_none());
                return Ok(bars);
            }
            Step::Failed(error) => {
                assert!(request.is_none());
                return Err(error);
            }
            Step::Contracts(purpose, search) => {
                let reply = provider.get(&request.unwrap(), contracts);
                adapter.contracts_arrived(purpose, search, reply)
            }
            Step::Volume(purpose, search) => {
                let reply = provider.get(&request.unwrap(), aggregates);
                adapter.volume_arrived(purpose, search, reply)
            }
            Step::Aggregates(purpose, ticker) => {
                let reply = provider.get(&request.unwrap(), aggregates);
                adapter.aggregates_arrived(purpose, &ticker, reply)
            }
        };
    }
}

fn poll(adapter: &mut MassiveAdapter, provider: &mut Provider) -> Result<Vec<Bar>, String> {
    let step = adapter.poll_live();
    finish(adapter, provider, step)
}

fn contracts_body() -> &'static str {
    r#"{"status":"OK","results":[
        {"ticker":"NG:BF F7-G7-H7","active":true},
        {"ticker":"NGF7-NGF8","active":true},
        {"ticker":"NGV26","active":true},
        {"ticker":"NGX26","active":true},
        {"ticker":"NGZ26","active":false}
    ]}"#
}

fn day_bar(volume: f64) -> String {
    format!(
        r#"{{"results":[{{"window_start":1788652800000000000,"open":1.0,"high":2.0,"low":0.5,"close":1.5,"volume":{volume}}}]}}"#
    )
}

#[test]
fn massive_unsupported_timeframe_is_rejected() {
    let mut adapter = MassiveAdapter::with_base_url("token", "http://127.0.0.1:0");
    let step = adapter.fetch_historical("NG", Timeframe::Minute(3), 0, 100);
    let mut provider = Provider::new();
    let err = finish(&mut adapter, &mut provider, step).unwrap_err();
    assert!(err.contains("kennt"), "Fehlertext: {err}");
    assert_eq!(
        err,
        "Massive-Adapter kennt 3m nicht (unterstützt: Minute(1/5/15), Hour(1/4), Day(1))"
    );
    assert!(provider.asked.is_empty());
}

#[test]
fn front_month_is_the_most_liquid_contract() {
    let mut provider = Provider::new()
        .answer("/futures/v1/contracts", &[contracts_body()])
        .answer("/futures/v1/aggs/NGV26", &[&day_bar(100.0)])
        .answer("/futures/v1/aggs/NGX26", &[&day_bar(900.0)]);
    let mut adapter = MassiveAdapter::with_base_url("token", "http://mock");
    assert_eq!(
        front_month(&mut adapter, &mut provider, "NG", 1_788_652_800).unwrap(),
        "NGX26"
    );
}

#[test]
fn spreads_are_never_chosen() {
    assert!(is_outright("NGV26"));
    assert!(!is_outright("NG:BF F7-G7-H7"));
    assert!(!is_outright("NGF7-NGF8"));
}

#[test]
fn bars_come_back_ascending_and_in_seconds() {
    let mut provider = Provider::new()
        .answer("/futures/v1/contracts", &[contracts_body()])
        .answer(
            "/futures/v1/aggs/NGV26",
            &[
                &day_bar(900.0),
                r#"{"results":[
                    {"window_start":1788656400000000000,"open":3,"high":4,"low":2,"close":3.5,"volume":20},
                    {"window_start":1788652800000000000,"open":1,"high":2,"low":0.5,"close":1.5,"volume":10}
                ]}"#,
            ],
        )
        .answer("/futures/v1/aggs/NGX26", &[&day_bar(1.0)]);
    let mut adapter = MassiveAdapter::with_base_url("token", "http://mock");
    let step = adapter.fetch_historical("NG", Timeframe::Hour(1), 1_788_000_000, 1_789_000_000);
    let bars = finish(&mut adapter, &mut provider, step).unwrap();
    assert_eq!(bars.len(), 2);
    assert!(
        bars[0].timestamp < bars[1].timestamp,
        "absteigend durchgereicht: {:?}",
        bars.iter().map(|b| b.timestamp).collect::<Vec<_>>()
    );
    assert_eq!(bars[0].timestamp, 1_788_652_800);
    assert_eq!(number(bars[0].volume), 10.0);
}

#[test]
fn a_listing_without_outrights_is_an_error() {
    let mut provider = Provider::new().answer(
        "/futures/v1/contracts",
        &[r#"{"results":[{"ticker":"NG:BF F7-G7-H7","active":true}]}"#],
    );
    let mut adapter = MassiveAdapter::with_base_url("token", "http://mock");
    let err = front_month(&mut adapter, &mut provider, "NG", 1_788_652_800).unwrap_err();
    assert!(err.contains("Einzelkontrakt"), "Fehlertext: {err}");
    assert_eq!(
        err,
        "Massive führt für 'NG' am 2026-09-06 keinen aktiven Einzelkontrakt (die Liste enthält \
         nur Spreads, oder der Produktcode stimmt nicht)"
    );
}

fn query(request: &Request) -> Vec<(&str, &str)> {
    request
        .query
        .iter()
        .map(|p| (p.name.as_str(), p.value.as_str()))
        .collect()
}

#[test]
fn contract_request_names_the_day() {
    let adapter = MassiveAdapter::new("key");
    let search = match adapter.front_month("NG", 1_788_652_800) {
        FrontMonth::Listing(search) => search,
        _ => panic!("the search has to start with the list"),
    };
    let request = adapter.list_outrights(&search);
    assert_eq!(request.url, "https://api.polygon.io/futures/v1/contracts");
    assert_eq!(
        query(&request),
        vec![
            ("product_code", "NG"),
            ("date", "2026-09-06"),
            ("limit", "250"),
            ("apiKey", "key"),
        ]
    );
}

#[test]
fn aggregate_request_is_in_nanoseconds() {
    let adapter = MassiveAdapter::with_base_url("key", "http://host");
    let request = adapter.fetch_aggs("NGV26", "1hour", Some(-1), Some(1_789_000_000), 50_000);
    assert_eq!(request.url, "http://host/futures/v1/aggs/NGV26");
    assert_eq!(
        query(&request),
        vec![
            ("resolution", "1hour"),
            ("limit", "50000"),
            ("apiKey", "key"),
            ("window_start.gte", "-1000000000"),
            ("window_start.lt", "1789000000000000000"),
        ]
    );
    let request = adapter.fetch_aggs("NGV26", "1day", None, None, 1);
    assert_eq!(
        query(&request),
        vec![("resolution", "1day"), ("limit", "1"), ("apiKey", "key")]
    );
    assert_eq!(nanos(i64::MAX), 9_223_372_036_854_775_807_000_000_000);
    assert_eq!(nanos(i64::MIN), -9_223_372_036_854_775_808_000_000_000);
}

#[test]
fn each_supported_timeframe_has_a_resolution() {
    assert_eq!(resolution_of(Timeframe::Minute(1)), Ok("1minute"));
    assert_eq!(resolution_of(Timeframe::Minute(5)), Ok("5minute"));
    assert_eq!(resolution_of(Timeframe::Minute(15)), Ok("15minute"));
    assert_eq!(resolution_of(Timeframe::Hour(1)), Ok("1hour"));
    assert_eq!(resolution_of(Timeframe::Hour(4)), Ok("4hour"));
    assert_eq!(resolution_of(Timeframe::Day(1)), Ok("1day"));
    assert!(resolution_of(Timeframe::Week(1)).unwrap_err().contains("1w"));
}

#[test]
fn the_front_month_holds_for_an_hour() {
    let mut provider = Provider::new()
        .answer("/futures/v1/contracts", &[contracts_body()])
        .answer("/futures/v1/aggs/NGV26", &[&day_bar(2.0), &day_bar(1.0)])
        .answer("/futures/v1/aggs/NGX26", &[&day_bar(1.0), &day_bar(2.0)]);
    let mut adapter = MassiveAdapter::with_base_url("token", "http://mock");
    let now = 1_788_652_800;
    let mut ask = |at: i64| {
        let found = front_month(&mut adapter, &mut provider, "NG", at).unwrap();
        (found, provider.asked.len())
    };
    assert_eq!(ask(now), ("NGV26".to_string(), 3));
    assert_eq!(ask(now + 3599), ("NGV26".to_string(), 3));
    assert_eq!(ask(now - 100_000), ("NGV26".to_string(), 3));
    assert_eq!(ask(i64::MIN), ("NGV26".to_string(), 3));
    assert_eq!(ask(now + 3600), ("NGX26".to_string(), 6));
    assert_eq!(ask(now + 7199), ("NGX26".to_string(), 6));
}

#[test]
fn the_nearest_contracts_are_asked_for_their_volume() {
    let list = r#"{"results":[
        {"ticker":"F","active":true},
        {"ticker":"E","active":true,"last_trade_date":"2027-02-01"},
        {"ticker":"D","active":true,"last_trade_date":"2026-12-01"},
        {"ticker":"C","active":true,"last_trade_date":"2026-11-01"},
        {"ticker":"B","active":true,"last_trade_date":"2026-10-01"},
        {"ticker":"A","active":true,"last_trade_date":"2026-12-01"}
    ]}"#;
    let mut provider = Provider::new()
        .answer("/futures/v1/contracts", &[list])
        .answer("/futures/v1/aggs/A", &[&day_bar(3.0)])
        .answer("/futures/v1/aggs/D", &[&day_bar(3.0)])
        .answer("/futures/v1/aggs/E", &[&day_bar(9.0)]);
    let mut adapter = MassiveAdapter::with_base_url("token", "http://mock");
    // B and C cannot be read and count as without volume; of D and A the first in the list wins.
    assert_eq!(
        front_month(&mut adapter, &mut provider, "NG", 0),
        Ok("D".to_string())
    );
    assert_eq!(
        provider.asked[1..],
        [
            "http://mock/futures/v1/aggs/B".to_string(),
            "http://mock/futures/v1/aggs/C".to_string(),
            "http://mock/futures/v1/aggs/D".to_string(),
            "http://mock/futures/v1/aggs/A".to_string(),
        ]
    );
}

#[test]
fn the_latest_bar_shows_the_volume() {
    let older_is_larger = r#"{"results":[
        {"window_start":1788652800000000000,"open":1,"high":1,"low":1,"close":1,"volume":5},
        {"window_start":1788566400000000000,"open":1,"high":1,"low":1,"close":1,"volume":50}
    ]}"#;
    let mut provider = Provider::new()
        .answer("/futures/v1/contracts", &[contracts_body()])
        .answer("/futures/v1/aggs/NGV26", &[older_is_larger])
        .answer("/futures/v1/aggs/NGX26", &[&day_bar(6.0)]);
    let mut adapter = MassiveAdapter::with_base_url("token", "http://mock");
    assert_eq!(
        front_month(&mut adapter, &mut provider, "NG", 0),
        Ok("NGX26".to_string())
    );
}

/// The front month where the first candidate answers with these rows and the second with a volume
/// of 6.
fn chosen_with(rows: &[(i64, f64)]) -> String {
    let rows: Vec<String> = rows
        .iter()
        .map(|(start, volume)| {
            format!(
                r#"{{"window_start":{start},"open":1,"high":1,"low":1,"close":1,"volume":{volume}}}"#
            )
        })
        .collect();
    let body = format!(r#"{{"results":[{}]}}"#, rows.join(","));
    let mut provider = Provider::new()
        .answer("/futures/v1/contracts", &[contracts_body()])
        .answer("/futures/v1/aggs/NGV26", &[&body])
        .answer("/futures/v1/aggs/NGX26", &[&day_bar(6.0)]);
    let mut adapter = MassiveAdapter::with_base_url("token", "http://mock");
    front_month(&mut adapter, &mut provider, "NG", 0).unwrap()
}

#[test]
fn the_latest_bar_is_found_within_a_second() {
    let newer: i64 = 1_788_652_800_000_000_001;
    let older: i64 = 1_788_652_800_000_000_000;
    assert_eq!(chosen_with(&[(newer, 5.0), (older, 50.0)]), "NGX26");
    assert_eq!(chosen_with(&[(older, 50.0), (newer, 5.0)]), "NGX26");
    assert_eq!(chosen_with(&[(newer, 50.0), (older, 5.0)]), "NGV26");
    assert_eq!(chosen_with(&[(older, 5.0), (newer, 50.0)]), "NGV26");
    // Of bars that start at the same time the first one counts.
    assert_eq!(chosen_with(&[(newer, 5.0), (newer, 50.0)]), "NGX26");
    assert_eq!(chosen_with(&[(newer, 50.0), (newer, 5.0)]), "NGV26");
}

#[test]
fn no_volume_is_an_error() {
    let mut provider = Provider::new()
        .answer("/futures/v1/contracts", &[contracts_body()])
        .answer("/futures/v1/aggs/NGV26", &[&day_bar(0.0)])
        .answer("/futures/v1/aggs/NGX26", &[r#"{"results":[]}"#]);
    let mut adapter = MassiveAdapter::with_base_url("token", "http://mock");
    assert_eq!(
        front_month(&mut adapter, &mut provider, "NG", 0),
        Err(
            "Massive meldet für keinen aktiven 'NG'-Kontrakt Volumen — ohne Volumen ist kein \
             Frontmonat bestimmbar"
                .to_string()
        )
    );
    // Nothing is kept: the next search starts over.
    assert!(front_month(&mut adapter, &mut provider, "NG", 1).is_err());
    assert_eq!(provider.asked.len(), 6);
}

#[test]
fn pages_of_spreads_are_skipped() {
    let spreads = |next: &str| {
        format!(
            r#"{{"results":[{{"ticker":"A-B","active":true}}],"next_url":"http://mock/{next}"}}"#
        )
    };
    let mut provider = Provider::new()
        .answer("/futures/v1/contracts", &[&spreads("2")])
        .answer("/2", &[&spreads("3")])
        .answer("/3", &[&spreads("4")])
        .answer("/4", &[contracts_body()])
        .answer("/futures/v1/aggs/NGV26", &[&day_bar(1.0)]);
    let mut adapter = MassiveAdapter::with_base_url("token", "http://mock");
    assert_eq!(
        front_month(&mut adapter, &mut provider, "NG", 0),
        Ok("NGV26".to_string())
    );
    assert_eq!(provider.asked[3], "http://mock/4");
}

#[test]
fn all_pages_are_searched_for_contracts() {
    let first = r#"{"results":[{"ticker":"NGF27","active":true,"last_trade_date":"2026-12-29"}],
        "next_url":"http://mock/p2"}"#;
    let second = r#"{"results":[{"ticker":"NGV26","active":true,"last_trade_date":"2026-09-28"}]}"#;
    let mut provider = Provider::new()
        .answer("/futures/v1/contracts", &[first])
        .answer("/p2", &[second])
        .answer("/futures/v1/aggs/NGF27", &[&day_bar(100.0)])
        .answer("/futures/v1/aggs/NGV26", &[&day_bar(900.0)]);
    let mut adapter = MassiveAdapter::with_base_url("token", "http://mock");
    assert_eq!(
        front_month(&mut adapter, &mut provider, "NG", 1_788_652_800),
        Ok("NGV26".to_string())
    );
    // The contract that expires next is asked first.
    assert_eq!(
        provider.asked,
        [
            "http://mock/futures/v1/contracts",
            "http://mock/p2",
            "http://mock/futures/v1/aggs/NGV26",
            "http://mock/futures/v1/aggs/NGF27",
        ]
    );
}

#[test]
fn contracts_of_the_last_page_that_may_be_read_count() {
    let body = |ticker: &str| {
        format!(r#"{{"results":[{{"ticker":"{ticker}","active":true}}],"next_url":"http://mock/next"}}"#)
    };
    let mut provider = Provider::new()
        .answer("/futures/v1/contracts", &[&body("A")])
        .answer("/next", &[&body("B-C"), &body("D"), &body("E"), &body("F")])
        .answer("/futures/v1/aggs/E", &[&day_bar(1.0)])
        .answer("/futures/v1/aggs/F", &[&day_bar(2.0)]);
    let mut adapter = MassiveAdapter::with_base_url("token", "http://mock");
    assert_eq!(
        front_month(&mut adapter, &mut provider, "NG", 0),
        Ok("E".to_string())
    );
}

#[test]
fn a_failed_page_fails_the_search() {
    let first = r#"{"results":[{"ticker":"A","active":true}],"next_url":"http://mock/gone"}"#;
    let mut provider = Provider::new().answer("/futures/v1/contracts", &[first]);
    let mut adapter = MassiveAdapter::with_base_url("token", "http://mock");
    let err = front_month(&mut adapter, &mut provider, "NG", 0).unwrap_err();
    assert!(
        err.starts_with("Massive-Kontraktliste für 'NG' fehlgeschlagen: "),
        "{err}"
    );
}

#[test]
fn a_fifth_page_is_not_read() {
    let spreads =
        r#"{"results":[{"ticker":"A-B","active":true}],"next_url":"http://mock/next"}"#;
    let mut provider = Provider::new()
        .answer("/futures/v1/contracts", &[spreads])
        .answer("/next", &[spreads, spreads, spreads, contracts_body()]);
    let mut adapter = MassiveAdapter::with_base_url("token", "http://mock");
    assert!(front_month(&mut adapter, &mut provider, "NG", 0).is_err());
    assert_eq!(provider.asked.len(), 4);
}

#[test]
fn an_empty_page_ends_the_list() {
    let mut provider = Provider::new()
        .answer(
            "/futures/v1/contracts",
            &[r#"{"results":[],"next_url":"http://mock/next"}"#],
        )
        .answer("/next", &[contracts_body()]);
    let mut adapter = MassiveAdapter::with_base_url("token", "http://mock");
    assert!(front_month(&mut adapter, &mut provider, "NG", 0).is_err());
    assert_eq!(provider.asked.len(), 1);
}

#[test]
fn massive_errors_name_what_was_asked() {
    let search = |reply| {
        match MassiveAdapter::new("key").front_month("NG", 0) {
            FrontMonth::Listing(waiting) => match waiting.listed(reply) {
                FrontMonth::Failed(error) => error,
                _ => panic!("the search has to fail"),
            },
            _ => panic!("the search has to start with the list"),
        }
    };
    assert_eq!(
        search(Reply::Failed("down".to_string())),
        "Massive-Kontraktliste für 'NG' fehlgeschlagen: down"
    );
    assert_eq!(
        search(Reply::Unreadable("odd".to_string())),
        "Massive-Kontraktliste für 'NG' unlesbar: odd"
    );
    assert_eq!(
        read_aggs("NGV26", Reply::Failed("down".to_string())),
        Err("Massive-Aggregate für 'NGV26' fehlgeschlagen: down".to_string())
    );
    assert_eq!(
        read_aggs("NGV26", Reply::Unreadable("odd".to_string())),
        Err("Massive-Aggregate für 'NGV26' unlesbar: odd".to_string())
    );
}

fn row(window_start: i64, volume: f64) -> AggRow {
    AggRow {
        window_start,
        open: double(1.0),
        high: double(2.0),
        low: double(0.5),
        close: double(1.5),
        volume: double(volume),
    }
}

#[test]
fn nanoseconds_are_cut_towards_zero() {
    let rows = vec![
        row(1_999_999_999, 1.0),
        row(-1, 2.0),
        row(-1_999_999_999, 3.0),
        row(i64::MAX, 4.0),
        row(i64::MIN, 5.0),
        row(999_999_999, 6.0),
    ];
    let bars = read_aggs("NGV26", Reply::Body(rows)).unwrap();
    let seen: Vec<(i64, f64)> = bars
        .iter()
        .map(|b| (b.timestamp, number(b.volume)))
        .collect();
    // Bars of the same second stay in the order in which they came.
    assert_eq!(
        seen,
        vec![
            (-9_223_372_036, 5.0),
            (-1, 3.0),
            (0, 2.0),
            (0, 6.0),
            (1, 1.0),
            (9_223_372_036, 4.0),
        ]
    );
}

#[test]
fn many_bars_are_sorted() {
    let seconds: Vec<i64> = (0..5_000).map(|i| (i * 7_919) % 5_003 - 2_500).collect();
    let rows = seconds
        .iter()
        .map(|s| row(s * 1_000_000_000, 0.0))
        .collect();
    let bars = read_aggs("NGV26", Reply::Body(rows)).unwrap();
    let mut expected = seconds;
    expected.sort();
    let seen: Vec<i64> = bars.iter().map(|b| b.timestamp).collect();
    assert_eq!(seen, expected);
}

fn page(rows: &[(i64, f64)]) -> String {
    let rows: Vec<String> = rows
        .iter()
        .map(|(seconds, volume)| {
            format!(
                r#"{{"window_start":{},"open":1,"high":2,"low":0.5,"close":1.5,"volume":{volume}}}"#,
                seconds * 1_000_000_000
            )
        })
        .collect();
    format!(r#"{{"results":[{}]}}"#, rows.join(","))
}

fn seen(bars: &[Bar]) -> Vec<(i64, f64)> {
    bars.iter()
        .map(|b| (b.timestamp, number(b.volume)))
        .collect()
}

#[test]
fn polls_return_only_what_is_new() {
    let list = |ticker: &str| format!(r#"{{"results":[{{"ticker":"{ticker}","active":true}}]}}"#);
    let mut provider = Provider::new()
        .answer("/futures/v1/contracts", &[&list("NGV26"), &list("CLV26")])
        .answer(
            "/futures/v1/aggs/NGV26",
            &[
                &day_bar(1.0),
                &page(&[(30, 3.0), (20, 2.0), (20, 9.0), (10, 1.0)]),
                &page(&[(30, 3.0), (20, 2.0)]),
                &page(&[(40, 4.0), (30, 3.0)]),
            ],
        )
        .answer(
            "/futures/v1/aggs/CLV26",
            &[
                &day_bar(1.0),
                &page(&[(25, 5.0), (15, 6.0)]),
                &page(&[(25, 5.0), (15, 6.0)]),
                &page(&[(35, 7.0)]),
            ],
        );
    let mut adapter = MassiveAdapter::with_base_url("token", "http://mock");
    assert_eq!(poll(&mut adapter, &mut provider), Ok(vec![]));
    for symbol in ["NG", "CL", "NG"] {
        assert_eq!(
            adapter.subscribe_live(symbol, Timeframe::Minute(1)),
            Ok(())
        );
    }
    assert_eq!(
        seen(&poll(&mut adapter, &mut provider).unwrap()),
        vec![(10, 1.0), (15, 6.0), (20, 2.0), (25, 5.0), (30, 3.0)]
    );
    assert_eq!(poll(&mut adapter, &mut provider), Ok(vec![]));
    assert_eq!(
        seen(&poll(&mut adapter, &mut provider).unwrap()),
        vec![(35, 7.0), (40, 4.0)]
    );
}

#[test]
fn each_timeframe_of_a_product_has_its_own_cursor() {
    let list = r#"{"results":[{"ticker":"NGV26","active":true}]}"#;
    // The minute bar at 7260 makes the front month of the first poll an old one for the hours.
    let mut provider = Provider::new()
        .answer("/futures/v1/contracts", &[list])
        .answer(
            "/futures/v1/aggs/NGV26",
            &[
                &day_bar(900.0),
                &page(&[(7260, 1.0)]),
                &day_bar(900.0),
                &page(&[(7200, 2.0)]),
                &page(&[(7320, 3.0), (7260, 1.0)]),
                &page(&[(7200, 2.0)]),
            ],
        );
    let mut adapter = MassiveAdapter::with_base_url("token", "http://mock");
    adapter.subscribe_live("NG", Timeframe::Minute(1)).unwrap();
    adapter.subscribe_live("NG", Timeframe::Hour(1)).unwrap();
    assert_eq!(
        seen(&poll(&mut adapter, &mut provider).unwrap()),
        vec![(7200, 2.0), (7260, 1.0)]
    );
    assert_eq!(
        seen(&poll(&mut adapter, &mut provider).unwrap()),
        vec![(7320, 3.0)]
    );
}

#[test]
fn a_failed_poll_loses_no_bar() {
    let list = |ticker: &str| format!(r#"{{"results":[{{"ticker":"{ticker}","active":true}}]}}"#);
    let mut provider = Provider::new()
        .answer("/futures/v1/contracts", &[&list("NGV26"), &list("CLV26")])
        .answer(
            "/futures/v1/aggs/NGV26",
            &[&day_bar(1.0), &page(&[(10, 1.0)])],
        )
        .answer(
            "/futures/v1/aggs/CLV26",
            &[&day_bar(1.0), "broken", &page(&[(20, 2.0)])],
        );
    let mut adapter = MassiveAdapter::with_base_url("token", "http://mock");
    adapter.subscribe_live("NG", Timeframe::Minute(1)).unwrap();
    adapter.subscribe_live("CL", Timeframe::Minute(1)).unwrap();
    assert!(poll(&mut adapter, &mut provider)
        .unwrap_err()
        .starts_with("Massive-Aggregate für 'CLV26' unlesbar: "));
    assert_eq!(
        seen(&poll(&mut adapter, &mut provider).unwrap()),
        vec![(10, 1.0), (20, 2.0)]
    );
    assert_eq!(poll(&mut adapter, &mut provider), Ok(vec![]));
}

#[test]
fn a_failed_request_ends_the_poll() {
    let mut provider = Provider::new()
        .answer("/futures/v1/contracts", &[contracts_body(), "broken"])
        .answer(
            "/futures/v1/aggs/NGV26",
            &[&day_bar(1.0), &page(&[(10, 1.0)])],
        );
    let mut adapter = MassiveAdapter::with_base_url("token", "http://mock");
    adapter.subscribe_live("NG", Timeframe::Day(1)).unwrap();
    adapter.subscribe_live("CL", Timeframe::Day(1)).unwrap();
    let err = poll(&mut adapter, &mut provider).unwrap_err();
    assert!(
        err.starts_with("Massive-Kontraktliste für 'CL' unlesbar: "),
        "{err}"
    );
}

#[test]
fn an_unsupported_subscription_is_refused() {
    let mut adapter = MassiveAdapter::with_base_url("token", "http://mock");
    let err = adapter
        .subscribe_live("NG", Timeframe::Month(1))
        .unwrap_err();
    assert_eq!(
        err,
        "Massive-Adapter kennt 1M nicht (unterstützt: Minute(1/5/15), Hour(1/4), Day(1))"
    );
    assert_eq!(poll(&mut adapter, &mut Provider::new()), Ok(vec![]));
}

#[test]
fn requests_for_bars_differ_by_purpose() {
    let mut adapter = MassiveAdapter::with_base_url("token", "http://mock");
    let mut provider = Provider::new()
        .answer("/futures/v1/contracts", &[contracts_body()])
        .answer("/futures/v1/aggs/NGV26", &[&day_bar(1.0)]);
    front_month(&mut adapter, &mut provider, "NG", 100).unwrap();
    adapter.subscribe_live("NG", Timeframe::Minute(15)).unwrap();

    let history = adapter.fetch_historical("NG", Timeframe::Hour(4), 7, 100);
    assert_eq!(
        query(&adapter.request_of(&history).unwrap()),
        vec![
            ("resolution", "4hour"),
            ("limit", "50000"),
            ("apiKey", "token"),
            ("window_start.gte", "7000000000"),
            ("window_start.lt", "100000000000"),
        ]
    );
    let live = adapter.poll_live();
    assert_eq!(
        query(&adapter.request_of(&live).unwrap()),
        vec![
            ("resolution", "15minute"),
            ("limit", "10"),
            ("apiKey", "token"),
        ]
    );
}

#[test]
fn the_far_future_sorts_last() {
    assert_eq!(far_future(), "9999-12-31");
}
