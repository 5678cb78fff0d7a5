//! Polls of the quotes of EODHD.
use vstd::prelude::*;
use vstd::string::*;

use crate::bar::Bar;
use crate::eodhd;
use crate::eodhd::{EodhdState, LivePollView, PollStepView, RealTimeQuote};
use crate::request::Reply;

verus! {

/// Where EODHD is reached.
pub proof fn eodhd_has_its_address()
    ensures
        eodhd::DEFAULT_BASE_URL@ == "https://eodhd.com"@,
{
}

/// The request for a quote, parameter by parameter.
pub proof fn quote_requests(state: EodhdState, symbol: Seq<char>)
    ensures
        ({
            let r = eodhd::quote_request(state, symbol);
            &&& r.url == state.base_url + "/api/real-time/"@ + symbol
            &&& r.query.len() == 2
            &&& r.query[0] == ("api_token"@, state.api_key)
            &&& r.query[1] == ("fmt"@, "json"@)
        }),
{
}

/// A quote is a bar with the same fields, and a request that failed an error that names the cause.
pub proof fn quotes_are_bars(symbol: Seq<char>, reply: Reply<RealTimeQuote>)
    ensures
        match (reply, eodhd::quote_outcome(symbol, reply)) {
            (Reply::Body(quote), Ok(bar)) => {
                &&& bar.timestamp == quote.timestamp
                &&& bar.open == quote.open
                &&& bar.high == quote.high
                &&& bar.low == quote.low
                &&& bar.close == quote.close
                &&& bar.volume == quote.volume
            },
            (Reply::Failed(cause), Err(error)) => error == "EODHD real-time request for '"@ + symbol
                + "' failed: "@ + cause@,
            (Reply::Unreadable(cause), Err(error)) => error == "EODHD real-time response for '"@
                + symbol + "' could not be parsed: "@ + cause@,
            _ => false,
        },
{
}

/// A symbol that is subscribed for the first time is polled last and has no quote returned yet. All
/// other symbols keep their place and the last quote returned for them.
pub proof fn a_new_symbol_has_nothing_returned(state: EodhdState, symbol: Seq<char>)
    requires
        !state.subscriptions.contains(symbol),
    ensures
        ({
            let after = state.subscribed(symbol);
            &&& after.subscriptions == state.subscriptions.push(symbol)
            &&& after.live_cursor.contains_key(symbol)
            &&& after.live_cursor[symbol] == i64::MIN
            &&& forall|other: Seq<char>|
                other != symbol ==> (#[trigger] after.live_cursor.contains_key(other)
                    <==> state.live_cursor.contains_key(other))
            &&& forall|other: Seq<char>|
                other != symbol && #[trigger] state.live_cursor.contains_key(other)
                    ==> after.live_cursor[other] == state.live_cursor[other]
            &&& after.api_key == state.api_key
            &&& after.base_url == state.base_url
        }),
{
}

/// To subscribe to a symbol that is subscribed changes nothing.
pub proof fn a_known_symbol_stays(state: EodhdState, symbol: Seq<char>)
    requires
        state.subscriptions.contains(symbol),
    ensures
        state.subscribed(symbol) == state,
{
}

/// The indices of the quotes that are newer.
proof fn lemma_newer_indices(
    state: EodhdState,
    symbols: Seq<Seq<char>>,
    quotes: Seq<RealTimeQuote>,
) -> (at: Seq<int>)
    requires
        quotes.len() == symbols.len(),
    ensures
        at.len() == eodhd::newer(state, symbols, quotes).len(),
        forall|k: int|
            0 <= k < at.len() ==> 0 <= #[trigger] at[k] < quotes.len() && eodhd::newer(
                state,
                symbols,
                quotes,
            )[k].1 == eodhd::quote_bar(quotes[at[k]]),
        forall|k: int, l: int| 0 <= k < l < at.len() ==> #[trigger] at[k] < #[trigger] at[l],
        forall|i: int|
            0 <= i < quotes.len() ==> (#[trigger] at.contains(i) <==> quotes[i].timestamp
                > state.cursor(symbols[i])),
    decreases symbols.len(),
{
    if symbols.len() == 0 {
        Seq::empty()
    } else {
        let rest = lemma_newer_indices(state, symbols.skip(1), quotes.skip(1));
        let moved = rest.map_values(|i: int| i + 1);
        let kept = quotes[0].timestamp > state.cursor(symbols[0]);
        let at = if kept { seq![0int] + moved } else { moved };
        let first: int = if kept { 1 } else { 0 };
        let new = eodhd::newer(state, symbols, quotes);
        let tail = eodhd::newer(state, symbols.skip(1), quotes.skip(1));
        assert forall|k: int| first <= k < at.len() implies #[trigger] at[k] == rest[k - first] + 1 by {
            assert(at[k] == moved[k - first]);
        }
        assert forall|k: int| 0 <= k < at.len() implies 0 <= #[trigger] at[k] < quotes.len()
            && new[k].1 == eodhd::quote_bar(quotes[at[k]]) by {
            if k >= first {
                assert(new[k] == tail[k - first]);
                assert(0 <= rest[k - first] < quotes.skip(1).len());
                assert(quotes.skip(1)[rest[k - first]] == quotes[at[k]]);
            }
        }
        assert forall|k: int, l: int| 0 <= k < l < at.len() implies #[trigger] at[k]
            < #[trigger] at[l] by {
            assert(at[l] == rest[l - first] + 1);
            assert(0 <= rest[l - first]);
            if k >= first {
                assert(at[k] == rest[k - first] + 1);
                assert(rest[k - first] < rest[l - first]);
            }
        }
        assert forall|i: int| 0 <= i < quotes.len() implies (#[trigger] at.contains(i)
            <==> quotes[i].timestamp > state.cursor(symbols[i])) by {
            if i == 0 {
                if kept {
                    assert(at[0] == 0);
                } else if at.contains(0) {
                    let k = choose|k: int| 0 <= k < at.len() && at[k] == 0;
                    assert(rest[k] >= 0);
                }
            } else {
                assert(quotes.skip(1)[i - 1] == quotes[i] && symbols.skip(1)[i - 1] == symbols[i]);
                if at.contains(i) {
                    let k = choose|k: int| 0 <= k < at.len() && at[k] == i;
                    assert(k >= first);
                    assert(rest[k - first] == i - 1);
                    assert(rest.contains(i - 1));
                }
                if rest.contains(i - 1) {
                    let k = choose|k: int| 0 <= k < rest.len() && rest[k] == i - 1;
                    assert(at[k + first] == i);
                }
            }
        }
        at
    }
}

/// A poll whose requests are all answered returns a quote exactly where it is later than the last one
/// returned for its symbol: `at` has the places of these among the subscriptions, ascending, and the
/// bars have their fields. The last quote returned for each symbol is then the later of the two; for
/// no other symbol anything changes.
pub proof fn a_poll_returns_the_later_quotes(
    state: EodhdState,
    replies: Seq<Reply<RealTimeQuote>>,
    quotes: Seq<RealTimeQuote>,
) -> (at: Seq<int>)
    requires
        state.wf(),
        quotes.len() == state.subscriptions.len(),
        replies.len() == quotes.len(),
        forall|i: int| 0 <= i < quotes.len() ==> #[trigger] replies[i] == Reply::Body(quotes[i]),
    ensures
        ({
            let (after, step) = eodhd::poll(state, replies);
            &&& step matches PollStepView::Finished(bars) && {
                &&& bars.len() == at.len()
                &&& forall|k: int|
                    0 <= k < at.len() ==> {
                        &&& 0 <= #[trigger] at[k] < quotes.len()
                        &&& bars[k].timestamp == quotes[at[k]].timestamp
                        &&& bars[k].open == quotes[at[k]].open
                        &&& bars[k].high == quotes[at[k]].high
                        &&& bars[k].low == quotes[at[k]].low
                        &&& bars[k].close == quotes[at[k]].close
                        &&& bars[k].volume == quotes[at[k]].volume
                    }
            }
            &&& forall|i: int|
                0 <= i < quotes.len() ==> (#[trigger] at.contains(i) <==> quotes[i].timestamp
                    > state.live_cursor[state.subscriptions[i]])
            &&& forall|k: int, l: int| 0 <= k < l < at.len() ==> #[trigger] at[k] < #[trigger] at[l]
            &&& after.subscriptions == state.subscriptions
            &&& after.api_key == state.api_key
            &&& after.base_url == state.base_url
            &&& forall|i: int|
                0 <= i < quotes.len() ==> after.live_cursor[#[trigger] state.subscriptions[i]] == if quotes[i].timestamp
                    > state.live_cursor[state.subscriptions[i]] {
                    quotes[i].timestamp
                } else {
                    state.live_cursor[state.subscriptions[i]]
                }
            &&& forall|symbol: Seq<char>| #[trigger]
                after.live_cursor.contains_key(symbol) <==> state.subscriptions.contains(symbol)
        }),
{
    assert(replies =~= eodhd::answered(quotes));
    eodhd::a_poll_returns_what_is_newer(state, quotes);
    eodhd::cursors_never_go_back(state, replies);
    let at = lemma_newer_indices(state, state.subscriptions, quotes);
    let after = eodhd::poll(state, replies).0;
    assert forall|i: int| 0 <= i < quotes.len() implies state.live_cursor.contains_key(
        #[trigger] state.subscriptions[i],
    ) && after.live_cursor.contains_key(state.subscriptions[i]) by {
        assert(state.subscriptions.contains(state.subscriptions[i]));
    }
    assert forall|i: int| 0 <= i < quotes.len() implies (#[trigger] at.contains(i)
        <==> quotes[i].timestamp > state.live_cursor[state.subscriptions[i]]) by {
        assert(state.live_cursor.contains_key(state.subscriptions[i]));
    }
    assert forall|i: int| 0 <= i < quotes.len() implies after.live_cursor[
        #[trigger] state.subscriptions[i]
    ] == if quotes[i].timestamp > state.live_cursor[state.subscriptions[i]] {
        quotes[i].timestamp
    } else {
        state.live_cursor[state.subscriptions[i]]
    } by {
        assert(after.cursor(state.subscriptions[i]) == eodhd::later(
            state,
            state.subscriptions[i],
            quotes[i],
        ));
    }
    at
}

/// The first quote of a symbol is returned by the first complete poll behind its subscription,
/// whatever its time is and whatever was returned for other symbols.
pub proof fn the_first_quote_of_a_symbol_is_returned(
    state: EodhdState,
    symbol: Seq<char>,
    replies: Seq<Reply<RealTimeQuote>>,
    quotes: Seq<RealTimeQuote>,
)
    requires
        state.wf(),
        !state.subscriptions.contains(symbol),
        quotes.len() == state.subscriptions.len() + 1,
        replies.len() == quotes.len(),
        forall|i: int| 0 <= i < quotes.len() ==> #[trigger] replies[i] == Reply::Body(quotes[i]),
        quotes.last().timestamp > i64::MIN,
    ensures
        eodhd::poll(state.subscribed(symbol), replies).1 matches PollStepView::Finished(bars) && {
            &&& bars.len() > 0
            &&& bars.last().timestamp == quotes.last().timestamp
            &&& bars.last().open == quotes.last().open
            &&& bars.last().high == quotes.last().high
            &&& bars.last().low == quotes.last().low
            &&& bars.last().close == quotes.last().close
            &&& bars.last().volume == quotes.last().volume
        },
{
    let after = state.subscribed(symbol);
    eodhd::a_symbol_is_subscribed_once(state, symbol);
    a_new_symbol_has_nothing_returned(state, symbol);
    let at = a_poll_returns_the_later_quotes(after, replies, quotes);
    let last = quotes.len() - 1;
    assert(after.subscriptions[last] == symbol);
    assert(at.contains(last));
    let k = choose|k: int| 0 <= k < at.len() && at[k] == last;
    if k < at.len() - 1 {
        assert(at[k] < at[at.len() - 1]);
    }
    assert(at[at.len() - 1] == last);
}

proof fn lemma_waiting(
    state: EodhdState,
    poll: LivePollView,
    replies: Seq<Reply<RealTimeQuote>>,
)
    requires
        replies.len() < poll.pending.len(),
        forall|i: int| 0 <= i < replies.len() ==> (#[trigger] replies[i]) is Body,
    ensures
        ({
            let (after, step) = eodhd::poll_run(state, PollStepView::Quote(poll), replies);
            &&& after == state
            &&& step matches PollStepView::Quote(waiting) && waiting.pending == poll.pending.skip(
                replies.len() as int,
            )
        }),
    decreases replies.len(),
{
    if replies.len() == 0 {
        assert(poll.pending.skip(0) =~= poll.pending);
    } else {
        assert(replies[0] is Body);
        let quote = eodhd::quote_bar(replies[0]->Body_0);
        let rest = LivePollView {
            pending: poll.pending.skip(1),
            found: state.collected(poll.pending[0], poll.found, quote),
        };
        assert forall|i: int| 0 <= i < replies.skip(1).len() implies (
        #[trigger] replies.skip(1)[i]) is Body by {
            assert(replies.skip(1)[i] == replies[i + 1]);
        }
        lemma_waiting(state, rest, replies.skip(1));
        assert(rest.pending.skip(replies.len() - 1) =~= poll.pending.skip(replies.len() as int));
    }
}

/// A poll asks for the symbols in the order of their subscriptions: after some answers it waits for
/// the next one, and nothing has changed.
pub proof fn symbols_are_polled_in_order(state: EodhdState, replies: Seq<Reply<RealTimeQuote>>)
    requires
        replies.len() < state.subscriptions.len(),
        forall|i: int| 0 <= i < replies.len() ==> (#[trigger] replies[i]) is Body,
    ensures
        ({
            let (after, step) = eodhd::poll(state, replies);
            &&& after == state
            &&& step matches PollStepView::Quote(waiting) && waiting.pending.len() > 0
                && waiting.pending[0] == state.subscriptions[replies.len() as int]
        }),
{
    let first = LivePollView { pending: state.subscriptions, found: Seq::empty() };
    lemma_waiting(state, first, replies);
}

/// A request that is not answered ends a poll: the error names the symbol and the cause, and nothing
/// has changed.
pub proof fn a_failed_request_ends_a_poll(
    state: EodhdState,
    replies: Seq<Reply<RealTimeQuote>>,
    reply: Reply<RealTimeQuote>,
)
    requires
        state.wf(),
        replies.len() < state.subscriptions.len(),
        forall|i: int| 0 <= i < replies.len() ==> (#[trigger] replies[i]) is Body,
        reply !is Body,
    ensures
        ({
            let symbol = state.subscriptions[replies.len() as int];
            let (after, step) = eodhd::poll(state, replies.push(reply));
            &&& after == state
            &&& step matches PollStepView::Failed(error) && {
                &&& reply matches Reply::Failed(cause) ==> error == "EODHD real-time request for '"@
                    + symbol + "' failed: "@ + cause@
                &&& reply matches Reply::Unreadable(cause) ==> error
                    == "EODHD real-time response for '"@ + symbol + "' could not be parsed: "@
                    + cause@
            }
        }),
{
    let quotes = Seq::new(replies.len(), |i: int| replies[i]->Body_0);
    assert(eodhd::answered(quotes) =~= replies) by {
        assert forall|i: int| 0 <= i < replies.len() implies eodhd::answered(quotes)[i]
            == #[trigger] replies[i] by {
            assert(replies[i] is Body);
        }
    }
    eodhd::the_first_failure_ends_a_poll(state, quotes, reply);
    eodhd::a_failed_poll_keeps_the_cursors(state, replies.push(reply));
}

/// A poll without subscriptions returns nothing at once.
pub proof fn a_poll_without_subscriptions_is_empty(
    state: EodhdState,
    replies: Seq<Reply<RealTimeQuote>>,
)
    requires
        state.subscriptions.len() == 0,
    ensures
        eodhd::poll(state, replies) == (state, PollStepView::Finished(Seq::<Bar>::empty())),
{
}

} // verus!
