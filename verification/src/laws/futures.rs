//! Futures bars from Massive: fetches and polls.
use vstd::prelude::*;
use vstd::string::*;

use crate::bar::Bar;
use crate::laws::numbers;
use crate::laws::sorting;
use crate::massive::adapter;
use crate::massive::adapter::{
    Event, MassiveState, PurposeView, StepView, SubscriptionView,
};
use crate::massive::aggregates;
use crate::massive::aggregates::AggRow;
use crate::massive::front_month::FrontMonthView;
use crate::order;
use crate::request::Reply;
use crate::text;
use crate::timeframe::Timeframe;

verus! {

/// Six timeframes have a name, which is their number and the unit. For any other the error shows it.
pub proof fn timeframes_have_their_names(timeframe: Timeframe)
    ensures
        aggregates::resolution(timeframe) is Some <==> {
            ||| timeframe == Timeframe::Minute(1)
            ||| timeframe == Timeframe::Minute(5)
            ||| timeframe == Timeframe::Minute(15)
            ||| timeframe == Timeframe::Hour(1)
            ||| timeframe == Timeframe::Hour(4)
            ||| timeframe == Timeframe::Day(1)
        },
        aggregates::resolution(timeframe) matches Some(name) ==> {
            &&& timeframe matches Timeframe::Minute(n) ==> name == text::decimal(n as nat)
                + "minute"@
            &&& timeframe matches Timeframe::Hour(n) ==> name == text::decimal(n as nat) + "hour"@
            &&& timeframe matches Timeframe::Day(n) ==> name == text::decimal(n as nat) + "day"@
        },
        aggregates::unsupported(timeframe) == "Massive-Adapter kennt "@ + timeframe.shown()
            + " nicht (unterstützt: Minute(1/5/15), Hour(1/4), Day(1))"@,
{
    reveal_strlit("minute");
    reveal_strlit("hour");
    reveal_strlit("day");
    reveal_strlit("1minute");
    reveal_strlit("5minute");
    reveal_strlit("15minute");
    reveal_strlit("1hour");
    reveal_strlit("4hour");
    reveal_strlit("1day");
    numbers::numerals_grow_by_a_digit(1);
    numbers::numerals_grow_by_a_digit(4);
    numbers::numerals_grow_by_a_digit(5);
    numbers::numerals_grow_by_a_digit(15);
    assert("1minute"@ =~= text::decimal(1) + "minute"@);
    assert("5minute"@ =~= text::decimal(5) + "minute"@);
    assert("15minute"@ =~= text::decimal(15) + "minute"@);
    assert("1hour"@ =~= text::decimal(1) + "hour"@);
    assert("4hour"@ =~= text::decimal(4) + "hour"@);
    assert("1day"@ =~= text::decimal(1) + "day"@);
}

/// Where Massive is reached.
pub proof fn massive_has_its_address()
    ensures
        adapter::DEFAULT_BASE_URL@ == "https://api.polygon.io"@,
{
}

/// The request for bars, parameter by parameter. Bounds are in nanoseconds, the lower one inclusive
/// and the upper one exclusive; a bound that is not given is not sent.
pub proof fn bar_requests(
    base_url: Seq<char>,
    api_key: Seq<char>,
    ticker: Seq<char>,
    resolution: Seq<char>,
    from: Option<i64>,
    to: Option<i64>,
    limit: nat,
)
    ensures
        ({
            let r = aggregates::aggs_request(base_url, api_key, ticker, resolution, from, to, limit);
            let bounds: int = (if from is Some { 1int } else { 0 }) + (if to is Some { 1int } else {
                0
            });
            &&& r.url == base_url + "/futures/v1/aggs/"@ + ticker
            &&& r.query.len() == 3 + bounds
            &&& r.query[0] == ("resolution"@, resolution)
            &&& r.query[1] == ("limit"@, text::decimal(limit))
            &&& r.query[2] == ("apiKey"@, api_key)
            &&& from matches Some(seconds) ==> r.query[3] == (
                "window_start.gte"@,
                text::integer(seconds * 1_000_000_000),
            )
            &&& to matches Some(seconds) ==> r.query[2 + bounds] == (
                "window_start.lt"@,
                text::integer(seconds * 1_000_000_000),
            )
        }),
{
}

/// History is asked for within its bounds, up to 50,000 bars, and a poll asks for the last 10 bars.
pub proof fn operations_ask_for_their_bars(
    state: MassiveState,
    purpose: PurposeView,
    ticker: Seq<char>,
)
    ensures
        purpose matches PurposeView::Historical { resolution, from, to } ==> adapter::bars_request(
            state,
            purpose,
            ticker,
        ) == aggregates::aggs_request(
            state.base_url,
            state.api_key,
            ticker,
            resolution,
            Some(from),
            Some(to),
            50_000,
        ),
        purpose matches PurposeView::Live { resolution, .. } ==> adapter::bars_request(
            state,
            purpose,
            ticker,
        ) == aggregates::aggs_request(
            state.base_url,
            state.api_key,
            ticker,
            resolution,
            None,
            None,
            10,
        ),
        crate::massive::front_month::VOLUME_BARS == 1,
{
}

/// An operation goes on with what the search for its front month needs, with the bars of the front
/// month once it is found, and fails with the search.
pub proof fn operations_wait_for_their_front_month(purpose: PurposeView, search: FrontMonthView)
    ensures
        match (search, adapter::onward(purpose, search)) {
            (FrontMonthView::Found(ticker), StepView::Aggregates(p, t)) => p == purpose && t
                == ticker,
            (FrontMonthView::Failed(error), StepView::Failed(e)) => e == error,
            (FrontMonthView::Listing(s), StepView::Contracts(p, t)) => p == purpose && t == s,
            (FrontMonthView::Measuring(s), StepView::Volume(p, t)) => p == purpose && t == s,
            _ => false,
        },
{
}

/// Whether seconds are the whole seconds of nanoseconds: what is left over is less than a second, on
/// the side away from zero.
pub open spec fn in_seconds(nanoseconds: int, seconds: int) -> bool {
    if nanoseconds >= 0 {
        seconds * 1_000_000_000 <= nanoseconds < (seconds + 1) * 1_000_000_000
    } else {
        (seconds - 1) * 1_000_000_000 < nanoseconds <= seconds * 1_000_000_000
    }
}

/// The bars of a reply are its rows, each at one place: `from[i]` is the row of the bar at `i`. A bar
/// has the prices and the volume of its row and the row's start in whole seconds. The bars are in the
/// order of time, those of one second in the order of their rows.
pub proof fn bars_are_their_rows(rows: Seq<AggRow>) -> (from: Seq<int>)
    ensures
        from.len() == rows.len(),
        aggregates::bars_of(rows).len() == rows.len(),
        forall|i: int|
            0 <= i < rows.len() ==> {
                &&& 0 <= #[trigger] from[i] < rows.len()
                &&& aggregates::bars_of(rows)[i].open == rows[from[i]].open
                &&& aggregates::bars_of(rows)[i].high == rows[from[i]].high
                &&& aggregates::bars_of(rows)[i].low == rows[from[i]].low
                &&& aggregates::bars_of(rows)[i].close == rows[from[i]].close
                &&& aggregates::bars_of(rows)[i].volume == rows[from[i]].volume
                &&& in_seconds(
                    rows[from[i]].window_start as int,
                    aggregates::bars_of(rows)[i].timestamp as int,
                )
            },
        forall|v: int| 0 <= v < rows.len() ==> #[trigger] from.contains(v),
        forall|i: int, k: int|
            0 <= i < k < rows.len() ==> #[trigger] from[i] != #[trigger] from[k] && {
                ||| aggregates::bars_of(rows)[i].timestamp < aggregates::bars_of(rows)[k].timestamp
                ||| aggregates::bars_of(rows)[i].timestamp == aggregates::bars_of(rows)[k].timestamp
                    && from[i] < from[k]
            },
{
    let bars = rows.map_values(|row: AggRow| aggregates::bar_of(row));
    let from = sorting::bars_are_rearranged(bars);
    let out = aggregates::bars_of(rows);
    assert forall|i: int| 0 <= i < rows.len() implies {
        &&& 0 <= #[trigger] from[i] < rows.len()
        &&& out[i].open == rows[from[i]].open
        &&& out[i].high == rows[from[i]].high
        &&& out[i].low == rows[from[i]].low
        &&& out[i].close == rows[from[i]].close
        &&& out[i].volume == rows[from[i]].volume
        &&& in_seconds(rows[from[i]].window_start as int, out[i].timestamp as int)
    } by {
        assert(out[i] == bars[from[i]]);
        lemma_in_seconds(rows[from[i]]);
    }
    assert forall|i: int, k: int| 0 <= i < k < rows.len() implies #[trigger] from[i]
        != #[trigger] from[k] && {
        ||| out[i].timestamp < out[k].timestamp
        ||| out[i].timestamp == out[k].timestamp && from[i] < from[k]
    } by {
        assert(out[i] == bars[from[i]] && out[k] == bars[from[k]]);
    }
    from
}

proof fn lemma_in_seconds(row: AggRow)
    ensures
        in_seconds(row.window_start as int, aggregates::bar_of(row).timestamp as int),
{
}

/// Whether a bar has the prices, the volume and the start of a row, the start in whole seconds.
pub open spec fn made_from(bar: Bar, row: AggRow) -> bool {
    &&& bar.open == row.open
    &&& bar.high == row.high
    &&& bar.low == row.low
    &&& bar.close == row.close
    &&& bar.volume == row.volume
    &&& in_seconds(row.window_start as int, bar.timestamp as int)
}

/// Whether a bar is made from one of the rows.
pub open spec fn has_row(rows: Seq<AggRow>, bar: Bar) -> bool {
    exists|j: int| 0 <= j < rows.len() && made_from(bar, #[trigger] rows[j])
}

/// Whether one of the bars is made from a row.
pub open spec fn has_bar(bars: Seq<Bar>, row: AggRow) -> bool {
    exists|i: int| 0 <= i < bars.len() && made_from(#[trigger] bars[i], row)
}

/// Whether there are as many bars as rows, each bar is made from a row, and from each row a bar.
pub open spec fn rows_and_bars(rows: Seq<AggRow>, bars: Seq<Bar>) -> bool {
    &&& bars.len() == rows.len()
    &&& forall|i: int| 0 <= i < bars.len() ==> #[trigger] has_row(rows, bars[i])
    &&& forall|j: int| 0 <= j < rows.len() ==> #[trigger] has_bar(bars, rows[j])
}

/// Each bar of a reply is made from one of its rows, and from each row a bar is made.
pub proof fn rows_and_bars_go_together(rows: Seq<AggRow>)
    ensures
        rows_and_bars(rows, aggregates::bars_of(rows)),
{
    let bars = aggregates::bars_of(rows);
    let from = bars_are_their_rows(rows);
    assert forall|i: int| 0 <= i < bars.len() implies #[trigger] has_row(rows, bars[i]) by {
        assert(0 <= from[i] < rows.len());
        assert(made_from(bars[i], rows[from[i]]));
    }
    assert forall|j: int| 0 <= j < rows.len() implies #[trigger] has_bar(bars, rows[j]) by {
        assert(from.contains(j));
        let i = choose|i: int| 0 <= i < from.len() && from[i] == j;
        assert(made_from(bars[i], rows[j]));
    }
}

/// A reply gives the bars of its rows, or an error that names the contract and the cause.
pub proof fn replies_give_bars(ticker: Seq<char>, reply: Reply<Vec<AggRow>>)
    ensures
        match (reply, aggregates::aggs_outcome(ticker, reply)) {
            (Reply::Body(rows), Ok(bars)) => bars == aggregates::bars_of(rows@),
            (Reply::Failed(cause), Err(error)) => error == "Massive-Aggregate für '"@ + ticker
                + "' fehlgeschlagen: "@ + cause@,
            (Reply::Unreadable(cause), Err(error)) => error == "Massive-Aggregate für '"@ + ticker
                + "' unlesbar: "@ + cause@,
            _ => false,
        },
{
}

/// A fetch of history returns the bars of the reply and changes nothing; a reply that could not be had
/// is an error, of a fetch and of a poll, and changes nothing either.
pub proof fn a_fetch_returns_its_bars(
    state: MassiveState,
    purpose: PurposeView,
    ticker: Seq<char>,
    reply: Reply<Vec<AggRow>>,
)
    ensures
        purpose is Historical ==> (reply matches Reply::Body(rows) ==> adapter::after_aggregates(
            state,
            purpose,
            ticker,
            reply,
        ) == (state, StepView::Finished(aggregates::bars_of(rows@)))),
        reply matches Reply::Failed(cause) ==> adapter::after_aggregates(
            state,
            purpose,
            ticker,
            reply,
        ) == (
            state,
            StepView::Failed(
                "Massive-Aggregate für '"@ + ticker + "' fehlgeschlagen: "@ + cause@,
            ),
        ),
        reply matches Reply::Unreadable(cause) ==> adapter::after_aggregates(
            state,
            purpose,
            ticker,
            reply,
        ) == (
            state,
            StepView::Failed("Massive-Aggregate für '"@ + ticker + "' unlesbar: "@ + cause@),
        ),
{
}

/// A subscription to a product in a timeframe that was not subscribed is polled last and has no bar
/// returned yet. All others stay as they are.
pub proof fn a_new_subscription_has_nothing_returned(
    state: MassiveState,
    symbol: Seq<char>,
    timeframe: Timeframe,
)
    ensures
        ({
            let after = state.subscribed(symbol, timeframe);
            let known = exists|i: int|
                0 <= i < state.subscriptions.len() && (#[trigger] state.subscriptions[i]).symbol
                    == symbol && state.subscriptions[i].timeframe == timeframe;
            if known {
                after == state
            } else {
                &&& after.subscriptions.len() == state.subscriptions.len() + 1
                &&& after.subscriptions.last().symbol == symbol
                &&& after.subscriptions.last().timeframe == timeframe
                &&& after.subscriptions.last().cursor == i64::MIN
                &&& after.subscriptions.drop_last() == state.subscriptions
                &&& after.front_month == state.front_month
                &&& after.api_key == state.api_key
                &&& after.base_url == state.base_url
            }
        }),
{
    let after = state.subscribed(symbol, timeframe);
    if state.has(symbol, timeframe) {
        let i = choose|i: int|
            0 <= i < state.subscriptions.len() && (#[trigger] state.subscriptions[i]).is_to(
                symbol,
                timeframe,
            );
        assert(state.subscriptions[i].symbol == symbol);
    } else {
        assert forall|i: int| 0 <= i < state.subscriptions.len() implies !((
        #[trigger] state.subscriptions[i]).symbol == symbol && state.subscriptions[i].timeframe
            == timeframe) by {
            assert(!state.subscriptions[i].is_to(symbol, timeframe));
        }
        assert(after.subscriptions.drop_last() =~= state.subscriptions);
    }
}

/// The moment of a poll is the latest time that is known of the product, and not before 1970.
pub proof fn the_moment_is_the_latest_time(
    subscriptions: Seq<SubscriptionView>,
    symbol: Seq<char>,
)
    ensures
        ({
            let moment = adapter::moment(subscriptions, symbol);
            &&& moment >= 0
            &&& forall|i: int|
                0 <= i < subscriptions.len() && (#[trigger] subscriptions[i]).symbol == symbol
                    ==> subscriptions[i].cursor <= moment
            &&& moment > 0 ==> exists|i: int|
                0 <= i < subscriptions.len() && (#[trigger] subscriptions[i]).symbol == symbol
                    && subscriptions[i].cursor == moment
        }),
{
    lemma_last_seen(subscriptions, symbol);
}

proof fn lemma_last_seen(subscriptions: Seq<SubscriptionView>, symbol: Seq<char>)
    ensures
        ({
            let seen = adapter::last_seen(subscriptions, symbol);
            &&& forall|i: int|
                0 <= i < subscriptions.len() && (#[trigger] subscriptions[i]).symbol == symbol
                    ==> subscriptions[i].cursor <= seen
            &&& seen > i64::MIN ==> exists|i: int|
                0 <= i < subscriptions.len() && (#[trigger] subscriptions[i]).symbol == symbol
                    && subscriptions[i].cursor == seen
        }),
    decreases subscriptions.len(),
{
    if subscriptions.len() > 0 {
        let rest = subscriptions.drop_last();
        lemma_last_seen(rest, symbol);
        let before = adapter::last_seen(rest, symbol);
        let seen = adapter::last_seen(subscriptions, symbol);
        assert forall|i: int|
            0 <= i < subscriptions.len() && (#[trigger] subscriptions[i]).symbol
                == symbol implies subscriptions[i].cursor <= seen by {
            if i < rest.len() {
                assert(rest[i] == subscriptions[i]);
            }
        }
        if seen > i64::MIN {
            if seen == before {
                let i = choose|i: int|
                    0 <= i < rest.len() && (#[trigger] rest[i]).symbol == symbol && rest[i].cursor
                        == before;
                assert(subscriptions[i] == rest[i]);
            } else {
                assert(subscriptions[subscriptions.len() - 1].cursor == seen);
            }
        }
    }
}

/// A poll starts with the first subscription, and one without subscriptions returns nothing at once.
/// Each subscription is polled for its own product, at the moment of that product, under the name of
/// its own timeframe.
pub proof fn subscriptions_are_polled_in_order(
    state: MassiveState,
    subscriptions: Seq<SubscriptionView>,
    position: int,
    bars: Seq<Bar>,
)
    requires
        0 <= position < subscriptions.len(),
    ensures
        adapter::first_step(state) == if state.subscriptions.len() == 0 {
            StepView::Finished(Seq::empty())
        } else {
            adapter::live_step(state, state.subscriptions, 0, Seq::empty())
        },
        ({
            let s = subscriptions[position];
            match aggregates::resolution(s.timeframe) {
                Some(resolution) => adapter::live_step(state, subscriptions, position, bars)
                    == adapter::onward(
                    PurposeView::Live { subscriptions, position, resolution, bars },
                    state.search(s.symbol, adapter::moment(subscriptions, s.symbol)),
                ),
                None => adapter::live_step(state, subscriptions, position, bars)
                    == StepView::Failed(aggregates::unsupported(s.timeframe)),
            }
        }),
{
}

/// Once the bars of a subscription are there, a poll goes on with the next subscription, and nothing
/// has changed yet: the poll carries the cursor that it reached, and what it found behind what it had.
/// Behind the last subscription it returns all of it in the order of time.
pub proof fn a_poll_goes_on_with_the_next_subscription(
    state: MassiveState,
    subscriptions: Seq<SubscriptionView>,
    position: int,
    resolution: Seq<char>,
    bars: Seq<Bar>,
    ticker: Seq<char>,
    reply: Reply<Vec<AggRow>>,
)
    requires
        0 <= position < subscriptions.len(),
        reply is Body,
    ensures
        ({
            let shown = aggregates::bars_of(reply->Body_0@);
            let (last, new) = adapter::fresh(subscriptions[position].cursor, shown);
            let reached = subscriptions.update(
                position,
                SubscriptionView {
                    symbol: subscriptions[position].symbol,
                    timeframe: subscriptions[position].timeframe,
                    cursor: last,
                },
            );
            let (after, step) = adapter::after_aggregates(
                state,
                PurposeView::Live { subscriptions, position, resolution, bars },
                ticker,
                reply,
            );
            if position + 1 < subscriptions.len() {
                after == state && step == adapter::live_step(
                    state,
                    reached,
                    position + 1,
                    bars + new,
                )
            } else {
                &&& step == StepView::Finished(order::in_order(bars + new))
                &&& after.api_key == state.api_key
                &&& after.base_url == state.base_url
                &&& after.front_month == state.front_month
                &&& after.subscriptions.len() == state.subscriptions.len()
                &&& forall|i: int|
                    0 <= i < state.subscriptions.len() ==> {
                        &&& (#[trigger] after.subscriptions[i]).symbol
                            == state.subscriptions[i].symbol
                        &&& after.subscriptions[i].timeframe == state.subscriptions[i].timeframe
                        &&& after.subscriptions[i].cursor == if i < reached.len()
                            && reached[i].cursor > state.subscriptions[i].cursor {
                            reached[i].cursor
                        } else {
                            state.subscriptions[i].cursor
                        }
                    }
            }
        }),
{
}

/// The places of the bars that are new behind a cursor: `at` has those of the bars that are later
/// than the cursor and than all the bars in front of them. The cursor moves to the latest bar.
pub proof fn new_bars_are_later_than_all_before(cursor: i64, bars: Seq<Bar>) -> (at: Seq<int>)
    ensures
        at.len() == adapter::fresh(cursor, bars).1.len(),
        forall|k: int|
            0 <= k < at.len() ==> 0 <= #[trigger] at[k] < bars.len() && adapter::fresh(
                cursor,
                bars,
            ).1[k] == bars[at[k]],
        forall|k: int, l: int| 0 <= k < l < at.len() ==> #[trigger] at[k] < #[trigger] at[l],
        forall|i: int|
            0 <= i < bars.len() ==> (#[trigger] at.contains(i) <==> is_new(cursor, bars, i)),
        adapter::fresh(cursor, bars).0 >= cursor,
        forall|i: int|
            0 <= i < bars.len() ==> (#[trigger] bars[i]).timestamp <= adapter::fresh(cursor, bars).0,
        adapter::fresh(cursor, bars).0 == cursor || exists|i: int|
            0 <= i < bars.len() && (#[trigger] bars[i]).timestamp == adapter::fresh(cursor, bars).0,
    decreases bars.len(),
{
    if bars.len() == 0 {
        Seq::empty()
    } else {
        let rest = bars.drop_last();
        let n = rest.len() as int;
        let before = new_bars_are_later_than_all_before(cursor, rest);
        let (seen, old_new) = adapter::fresh(cursor, rest);
        let (last, new) = adapter::fresh(cursor, bars);
        let keep = bars.last().timestamp > seen;
        let at = if keep { before.push(n) } else { before };
        assert forall|k: int| 0 <= k < at.len() implies 0 <= #[trigger] at[k] < bars.len() && new[k]
            == bars[at[k]] by {
            if k < before.len() {
                assert(at[k] == before[k]);
                assert(old_new[k] == rest[before[k]]);
                assert(new[k] == old_new[k]);
            }
        }
        assert forall|k: int, l: int| 0 <= k < l < at.len() implies #[trigger] at[k]
            < #[trigger] at[l] by {
            assert(at[k] == before[k]);
            if l < before.len() {
                assert(at[l] == before[l]);
            }
        }
        assert forall|i: int| 0 <= i < bars.len() implies (#[trigger] bars[i]).timestamp <= last by {
            if i < n {
                assert(rest[i] == bars[i]);
            }
        }
        assert forall|i: int| 0 <= i < bars.len() implies (#[trigger] at.contains(i) <==> is_new(
            cursor,
            bars,
            i,
        )) by {
            if i < n {
                if at.contains(i) {
                    let k = choose|k: int| 0 <= k < at.len() && at[k] == i;
                    assert(before[k] == i);
                    assert(before.contains(i));
                }
                if before.contains(i) {
                    let k = choose|k: int| 0 <= k < before.len() && before[k] == i;
                    assert(at[k] == i);
                }
                assert(rest[i] == bars[i]);
                assert(is_new(cursor, rest, i) <==> is_new(cursor, bars, i)) by {
                    if is_new(cursor, rest, i) {
                        assert forall|j: int| 0 <= j < i implies (#[trigger] bars[j]).timestamp
                            < bars[i].timestamp by {
                            assert(rest[j] == bars[j]);
                        }
                    }
                    if is_new(cursor, bars, i) {
                        assert forall|j: int| 0 <= j < i implies (#[trigger] rest[j]).timestamp
                            < rest[i].timestamp by {
                            assert(rest[j] == bars[j]);
                        }
                    }
                }
            } else {
                if keep {
                    assert(at[before.len() as int] == n);
                    assert forall|j: int| 0 <= j < n implies (#[trigger] bars[j]).timestamp
                        < bars[n].timestamp by {
                        assert(rest[j] == bars[j]);
                    }
                } else {
                    if at.contains(n) {
                        let k = choose|k: int| 0 <= k < at.len() && at[k] == n;
                        assert(before[k] < rest.len());
                    }
                    if is_new(cursor, bars, n) {
                        let j = choose|j: int|
                            0 <= j < rest.len() && (#[trigger] rest[j]).timestamp == seen;
                        assert(bars[j] == rest[j]);
                        assert(bars[j].timestamp < bars[n].timestamp);
                    }
                }
            }
        }
        if last != cursor {
            if keep {
                assert(bars[n].timestamp == last);
            } else {
                let j = choose|j: int|
                    0 <= j < rest.len() && (#[trigger] rest[j]).timestamp == seen;
                assert(bars[j] == rest[j]);
            }
        }
        at
    }
}

/// Whether the bar at `i` is later than the cursor and than all the bars in front of it.
pub open spec fn is_new(cursor: i64, bars: Seq<Bar>, i: int) -> bool {
    &&& bars[i].timestamp > cursor
    &&& forall|j: int| 0 <= j < i ==> (#[trigger] bars[j]).timestamp < bars[i].timestamp
}

/// The places of the bars that are new to their subscriptions: page, and place on the page.
proof fn lemma_new_places(subscriptions: Seq<SubscriptionView>, pages: Seq<Seq<Bar>>) -> (from: Seq<
    (int, int),
>)
    requires
        pages.len() >= subscriptions.len(),
    ensures
        from.len() == adapter::new_bars(subscriptions, pages).len(),
        forall|j: int|
            0 <= j < from.len() ==> {
                &&& 0 <= (#[trigger] from[j]).0 < subscriptions.len()
                &&& 0 <= from[j].1 < pages[from[j].0].len()
                &&& is_new(subscriptions[from[j].0].cursor, pages[from[j].0], from[j].1)
                &&& adapter::new_bars(subscriptions, pages)[j] == pages[from[j].0][from[j].1]
            },
        forall|j: int, l: int| 0 <= j < l < from.len() ==> #[trigger] from[j] != #[trigger] from[l],
        forall|i: int, k: int|
            0 <= i < subscriptions.len() && 0 <= k < pages[i].len() && #[trigger] is_new(
                subscriptions[i].cursor,
                pages[i],
                k,
            ) ==> from.contains((i, k)),
    decreases subscriptions.len(),
{
    if subscriptions.len() == 0 {
        Seq::empty()
    } else {
        let cursor = subscriptions[0].cursor;
        let at = new_bars_are_later_than_all_before(cursor, pages[0]);
        let subs = subscriptions.skip(1);
        let more = pages.skip(1);
        let rest = lemma_new_places(subs, more);
        let n = at.len() as int;
        let from = Seq::new(
            at.len() + rest.len(),
            |j: int| if j < n { (0int, at[j]) } else { (rest[j - n].0 + 1, rest[j - n].1) },
        );
        let mine = adapter::fresh(cursor, pages[0]).1;
        let tail = adapter::new_bars(subs, more);
        let all = adapter::new_bars(subscriptions, pages);
        assert(all == mine + tail);
        assert forall|j: int| 0 <= j < from.len() implies {
            &&& 0 <= (#[trigger] from[j]).0 < subscriptions.len()
            &&& 0 <= from[j].1 < pages[from[j].0].len()
            &&& is_new(subscriptions[from[j].0].cursor, pages[from[j].0], from[j].1)
            &&& all[j] == pages[from[j].0][from[j].1]
        } by {
            if j < n {
                assert(0 <= at[j] < pages[0].len());
                assert(at.contains(at[j]));
                assert(all[j] == mine[j]);
            } else {
                let r = rest[j - n];
                assert(0 <= r.0 < subs.len());
                assert(subs[r.0] == subscriptions[r.0 + 1]);
                assert(more[r.0] == pages[r.0 + 1]);
                assert(all[j] == tail[j - n]);
            }
        }
        assert forall|j: int, l: int| 0 <= j < l < from.len() implies #[trigger] from[j]
            != #[trigger] from[l] by {
            if l < n {
                assert(at[j] < at[l]);
            } else if j >= n {
                assert(rest[j - n] != rest[l - n]);
            } else {
                assert(rest[l - n].0 >= 0);
            }
        }
        assert forall|i: int, k: int|
            0 <= i < subscriptions.len() && 0 <= k < pages[i].len() && #[trigger] is_new(
                subscriptions[i].cursor,
                pages[i],
                k,
            ) implies from.contains((i, k)) by {
            if i == 0 {
                assert(at.contains(k));
                let j = choose|j: int| 0 <= j < at.len() && at[j] == k;
                assert(from[j] == (i, k));
            } else {
                assert(subs[i - 1] == subscriptions[i]);
                assert(more[i - 1] == pages[i]);
                assert(is_new(subs[i - 1].cursor, more[i - 1], k));
                assert(rest.contains((i - 1, k)));
                let j = choose|j: int| 0 <= j < rest.len() && rest[j] == (i - 1, k);
                assert(from[j + n] == (i, k));
            }
        }
        from
    }
}

/// A poll that comes to its end returns, in the order of time, every bar that is new to its own
/// subscription, once, and no other: `from` has for each returned bar the subscription and the place
/// on its page. A bar is new where it is later than the last one returned for the subscription, and
/// than all the bars in front of it. The cursor of each subscription moves to its latest bar.
pub proof fn a_poll_returns_each_new_bar(state: MassiveState, events: Seq<Event>) -> (from: Seq<
    (int, int),
>)
    requires
        adapter::poll(state, events).1 is Finished,
    ensures
        ({
            let shown = adapter::pages(events);
            let (end, step) = adapter::poll(state, events);
            &&& shown.len() >= state.subscriptions.len()
            &&& step matches StepView::Finished(out) && {
                &&& out.len() == from.len()
                &&& forall|j: int|
                    0 <= j < from.len() ==> {
                        &&& 0 <= (#[trigger] from[j]).0 < state.subscriptions.len()
                        &&& 0 <= from[j].1 < shown[from[j].0].len()
                        &&& out[j] == shown[from[j].0][from[j].1]
                        &&& is_new(
                            state.subscriptions[from[j].0].cursor,
                            shown[from[j].0],
                            from[j].1,
                        )
                    }
                &&& forall|j: int, l: int|
                    0 <= j < l < out.len() ==> (#[trigger] out[j]).timestamp <= (
                    #[trigger] out[l]).timestamp
            }
            &&& forall|j: int, l: int|
                0 <= j < l < from.len() ==> #[trigger] from[j] != #[trigger] from[l]
            &&& forall|i: int, k: int|
                0 <= i < state.subscriptions.len() && 0 <= k < shown[i].len() && #[trigger] is_new(
                    state.subscriptions[i].cursor,
                    shown[i],
                    k,
                ) ==> from.contains((i, k))
            &&& end.subscriptions.len() == state.subscriptions.len()
            &&& forall|i: int|
                0 <= i < state.subscriptions.len() ==> moves_to_the_latest(
                    state.subscriptions[i],
                    shown[i],
                    #[trigger] end.subscriptions[i],
                )
        }),
{
    adapter::a_poll_returns_what_is_newer(state, events);
    let shown = adapter::pages(events);
    let new = adapter::new_bars(state.subscriptions, shown);
    let end = adapter::poll(state, events).0;
    let out = order::in_order(new);
    let places = lemma_new_places(state.subscriptions, shown);
    let moved = sorting::bars_are_rearranged(new);
    let from = Seq::new(new.len(), |j: int| places[moved[j]]);
    assert forall|j: int| 0 <= j < from.len() implies {
        &&& 0 <= (#[trigger] from[j]).0 < state.subscriptions.len()
        &&& 0 <= from[j].1 < shown[from[j].0].len()
        &&& out[j] == shown[from[j].0][from[j].1]
        &&& is_new(state.subscriptions[from[j].0].cursor, shown[from[j].0], from[j].1)
    } by {
        assert(0 <= moved[j] < new.len());
        assert(from[j] == places[moved[j]]);
        assert(out[j] == new[moved[j]]);
    }
    assert forall|j: int, l: int| 0 <= j < l < out.len() implies (#[trigger] out[j]).timestamp <= (
    #[trigger] out[l]).timestamp by {
        assert(out[j] == new[moved[j]] && out[l] == new[moved[l]]);
    }
    assert forall|j: int, l: int| 0 <= j < l < from.len() implies #[trigger] from[j]
        != #[trigger] from[l] by {
        let a = moved[j];
        let b = moved[l];
        assert(0 <= a < new.len() && 0 <= b < new.len());
        assert(a != b);
        if a < b {
            assert(places[a] != places[b]);
        } else {
            assert(places[b] != places[a]);
        }
    }
    assert forall|i: int, k: int|
        0 <= i < state.subscriptions.len() && 0 <= k < shown[i].len() && #[trigger] is_new(
            state.subscriptions[i].cursor,
            shown[i],
            k,
        ) implies from.contains((i, k)) by {
        assert(places.contains((i, k)));
        let v = choose|v: int| 0 <= v < places.len() && places[v] == (i, k);
        assert(moved.contains(v));
        let j = choose|j: int| 0 <= j < moved.len() && moved[j] == v;
        assert(from[j] == (i, k));
    }
    assert forall|i: int| 0 <= i < state.subscriptions.len() implies moves_to_the_latest(
        state.subscriptions[i],
        shown[i],
        #[trigger] end.subscriptions[i],
    ) by {
        let at = new_bars_are_later_than_all_before(state.subscriptions[i].cursor, shown[i]);
    }
    from
}

/// Whether `after` is the subscription `before` with its cursor at the latest of the bars, or where it
/// was if no bar is later.
pub open spec fn moves_to_the_latest(
    before: SubscriptionView,
    bars: Seq<Bar>,
    after: SubscriptionView,
) -> bool {
    &&& after.symbol == before.symbol
    &&& after.timeframe == before.timeframe
    &&& after.cursor >= before.cursor
    &&& forall|k: int| 0 <= k < bars.len() ==> (#[trigger] bars[k]).timestamp <= after.cursor
    &&& after.cursor == before.cursor || exists|k: int|
        0 <= k < bars.len() && (#[trigger] bars[k]).timestamp == after.cursor
}

} // verus!
