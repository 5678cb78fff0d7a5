//! What the contracts see of the values that pass in and out.
use vstd::prelude::*;
use vstd::string::*;

use crate::bar;
use crate::bar::Bar;
use crate::eodhd::{PollStep, PollStepView, RequestKind, RequestKindView};
use crate::massive::adapter;
use crate::massive::adapter::{Purpose, PurposeView, Step, StepView, Subscription};
use crate::massive::front_month;
use crate::massive::front_month::{FrontMonth, FrontMonthView};
use crate::request;
use crate::request::Request;
use crate::text;

verus! {

/// A request is seen by its address and, in their order, the names and values of its parameters.
pub proof fn requests_are_seen_by_their_fields(r: Request)
    ensures
        r@.url == r.url@,
        r@.query.len() == r.query@.len(),
        forall|i: int|
            0 <= i < r.query@.len() ==> (#[trigger] r@.query[i]) == (
                r.query@[i].name@,
                r.query@[i].value@,
            ),
{
}

/// A request for an address has no parameters, and each one that is added stands last.
pub proof fn parameters_are_added_last(
    url: Seq<char>,
    r: request::RequestView,
    name: Seq<char>,
    value: Seq<char>,
)
    ensures
        request::plain(url).url == url,
        request::plain(url).query.len() == 0,
        r.with(name, value).url == r.url,
        r.with(name, value).query == r.query.push((name, value)),
{
}

/// Bars and errors are seen as they are.
pub proof fn results_are_seen_as_they_are(result: Result<Vec<Bar>, String>)
    ensures
        result matches Ok(bars) ==> bar::outcome(result) == Ok::<Seq<Bar>, Seq<char>>(bars@),
        result matches Err(error) ==> bar::outcome(result) == Err::<Seq<Bar>, Seq<char>>(error@),
{
}

/// Strings are seen by their texts, one for one.
pub proof fn strings_are_seen_by_their_texts(strings: Seq<String>, s: Option<String>)
    ensures
        text::texts(strings).len() == strings.len(),
        forall|i: int| 0 <= i < strings.len() ==> (#[trigger] text::texts(strings)[i]) == strings[i]@,
        s is None ==> front_month::optional_text(s) is None,
        s matches Some(t) ==> front_month::optional_text(s) == Some(t@),
{
}

/// The steps of a poll of quotes are seen as they are.
pub proof fn poll_steps_are_seen_as_they_are(step: PollStep, kind: RequestKind)
    ensures
        step matches PollStep::Finished(bars) ==> step@ == PollStepView::Finished(bars@),
        step matches PollStep::Failed(error) ==> step@ == PollStepView::Failed(error@),
        step matches PollStep::Quote(poll) ==> step@ == PollStepView::Quote(poll@),
        kind matches RequestKind::Eod { period } ==> kind@ == RequestKindView::Eod(period@),
        kind matches RequestKind::Intraday { interval } ==> kind@ == RequestKindView::Intraday(
            interval@,
        ),
{
}

/// The steps of an operation on futures, and what they work towards, are seen as they are.
pub proof fn steps_are_seen_as_they_are(step: Step, purpose: Purpose, search: FrontMonth)
    ensures
        step matches Step::Finished(bars) ==> step@ == StepView::Finished(bars@),
        step matches Step::Failed(error) ==> step@ == StepView::Failed(error@),
        step matches Step::Contracts(p, s) ==> step@ == StepView::Contracts(p@, s@),
        step matches Step::Volume(p, s) ==> step@ == StepView::Volume(p@, s@),
        step matches Step::Aggregates(p, ticker) ==> step@ == StepView::Aggregates(p@, ticker@),
        purpose matches Purpose::Historical { resolution, from, to } ==> purpose@
            == (PurposeView::Historical { resolution: resolution@, from, to }),
        purpose matches Purpose::Live { subscriptions, position, resolution, bars } ==> purpose@
            == (PurposeView::Live {
            subscriptions: adapter::views(subscriptions@),
            position: position as int,
            resolution: resolution@,
            bars: bars@,
        }),
        search matches FrontMonth::Found(ticker) ==> search@ == FrontMonthView::Found(ticker@),
        search matches FrontMonth::Failed(error) ==> search@ == FrontMonthView::Failed(error@),
        search matches FrontMonth::Listing(s) ==> search@ == FrontMonthView::Listing(s@),
        search matches FrontMonth::Measuring(s) ==> search@ == FrontMonthView::Measuring(s@),
{
}

/// Subscriptions are seen by their fields, one for one.
pub proof fn subscriptions_are_seen_by_their_fields(subscriptions: Seq<Subscription>)
    ensures
        adapter::views(subscriptions).len() == subscriptions.len(),
        forall|i: int|
            0 <= i < subscriptions.len() ==> {
                &&& (#[trigger] adapter::views(subscriptions)[i]).symbol == subscriptions[i].symbol@
                &&& adapter::views(subscriptions)[i].timeframe == subscriptions[i].timeframe
                &&& adapter::views(subscriptions)[i].cursor == subscriptions[i].cursor
            },
{
}

} // verus!
