//! The adapter: fetches and polls as steps, each of which names the request that it waits for.
use vstd::hash_map::StringHashMap;
use vstd::prelude::*;
use vstd::string::*;

use crate::bar;
use crate::bar::Bar;
use crate::massive::aggregates;
use crate::massive::aggregates::AggRow;
use crate::massive::contract;
use crate::massive::contract::ContractListing;
use crate::massive::front_month;
use crate::massive::front_month::{
    ContractSearch, ContractSearchView, FrontMonth, FrontMonthView, VolumeSearch, VolumeSearchView,
};
use crate::order;
use crate::request;
use crate::request::{Reply, Request};
use crate::timeframe::Timeframe;

verus! {

/// Where Massive is reached.
pub const DEFAULT_BASE_URL: &'static str = "https://api.polygon.io";

/// How many bars one request for history asks for.
pub const HISTORY_BARS: usize = 50_000;

/// How many bars one request for live bars asks for.
pub const LIVE_BARS: usize = 10;

/// A product and a timeframe that are polled, and the timestamp of the last bar that was returned for
/// them.
#[derive(Debug)]
pub struct Subscription {
    pub symbol: String,
    pub timeframe: Timeframe,
    pub cursor: i64,
}

/// A front month, and when it was found.
#[derive(Debug)]
pub struct Resolved {
    pub ticker: String,
    pub resolved_at: i64,
}

/// Futures bars from Massive. Needs a key that is entitled to futures: Massive charges each asset
/// class on its own.
pub struct MassiveAdapter {
    api_key: String,
    base_url: String,
    subscriptions: Vec<Subscription>,
    front_month: StringHashMap<Resolved>,
}

/// What a [`MassiveAdapter`] holds: the key and the address, the subscriptions in the order in
/// which they were made, and for each product the ticker of the front month and when it was found.
#[verifier::ext_equal]
pub struct MassiveState {
    pub api_key: Seq<char>,
    pub base_url: Seq<char>,
    pub subscriptions: Seq<SubscriptionView>,
    pub front_month: Map<Seq<char>, (Seq<char>, i64)>,
}

/// What a [`Subscription`] holds.
pub struct SubscriptionView {
    pub symbol: Seq<char>,
    pub timeframe: Timeframe,
    pub cursor: i64,
}

impl View for Subscription {
    type V = SubscriptionView;

    open spec fn view(&self) -> SubscriptionView {
        SubscriptionView { symbol: self.symbol@, timeframe: self.timeframe, cursor: self.cursor }
    }
}

impl SubscriptionView {
    /// Whether this is the subscription to a product in a timeframe.
    pub open spec fn is_to(self, symbol: Seq<char>, timeframe: Timeframe) -> bool {
        self.symbol == symbol && self.timeframe == timeframe
    }

    /// The subscription with another cursor.
    pub open spec fn at(self, cursor: i64) -> SubscriptionView {
        SubscriptionView { cursor, ..self }
    }
}

/// What subscriptions hold.
pub open spec fn views(subscriptions: Seq<Subscription>) -> Seq<SubscriptionView> {
    subscriptions.map_values(|s: Subscription| s@)
}

/// What found front months hold.
pub open spec fn months(found: Map<Seq<char>, Resolved>) -> Map<Seq<char>, (Seq<char>, i64)> {
    found.map_values(|r: Resolved| (r.ticker@, r.resolved_at))
}

impl View for MassiveAdapter {
    type V = MassiveState;

    closed spec fn view(&self) -> MassiveState {
        MassiveState {
            api_key: self.api_key@,
            base_url: self.base_url@,
            subscriptions: views(self.subscriptions@),
            front_month: months(self.front_month@),
        }
    }
}

impl MassiveState {
    /// No subscription is made twice, all are for timeframes that Massive has, and all front months
    /// are single contracts.
    pub open spec fn wf(self) -> bool {
        &&& forall|i: int, j: int|
            0 <= i < j < self.subscriptions.len() ==> !(#[trigger] self.subscriptions[i]).is_to(
                (#[trigger] self.subscriptions[j]).symbol,
                self.subscriptions[j].timeframe,
            )
        &&& forall|i: int|
            0 <= i < self.subscriptions.len() ==> aggregates::resolution(
                (#[trigger] self.subscriptions[i]).timeframe,
            ) is Some
        &&& forall|product: Seq<char>| #[trigger]
            self.front_month.contains_key(product) ==> contract::outright(
                self.front_month[product].0,
            )
    }

    /// Whether the front month of `product` is known and still holds.
    pub open spec fn holds(self, product: Seq<char>, now: i64) -> bool {
        self.front_month.contains_key(product) && now - self.front_month[product].1
            < front_month::FRONT_MONTH_TTL_SECS
    }

    /// Whether there is a subscription to a product in a timeframe.
    pub open spec fn has(self, symbol: Seq<char>, timeframe: Timeframe) -> bool {
        exists|i: int|
            0 <= i < self.subscriptions.len() && (#[trigger] self.subscriptions[i]).is_to(
                symbol,
                timeframe,
            )
    }

    /// The state after a subscription.
    pub open spec fn subscribed(self, symbol: Seq<char>, timeframe: Timeframe) -> MassiveState {
        if self.has(symbol, timeframe) {
            self
        } else {
            MassiveState {
                subscriptions: self.subscriptions.push(
                    SubscriptionView { symbol, timeframe, cursor: i64::MIN },
                ),
                ..self
            }
        }
    }

    /// Where the search for the front month of `product` starts.
    pub open spec fn search(self, product: Seq<char>, now: i64) -> FrontMonthView {
        if self.holds(product, now) {
            FrontMonthView::Found(self.front_month[product].0)
        } else {
            front_month::new_search(product, now)
        }
    }

    /// The state once the volume that `search` waited for is known.
    pub open spec fn measured(self, search: VolumeSearchView, reply: Reply<Vec<AggRow>>) -> MassiveState {
        match front_month::after_volume(search, reply) {
            FrontMonthView::Found(ticker) => MassiveState {
                front_month: self.front_month.insert(search.product, (ticker, search.now)),
                ..self
            },
            _ => self,
        }
    }

    /// The state after a poll has returned its bars: each subscription has the cursor that the poll
    /// reached for it.
    pub open spec fn returned(self, reached: Seq<SubscriptionView>) -> MassiveState {
        MassiveState {
            subscriptions: Seq::new(
                self.subscriptions.len(),
                |i: int|
                    if i < reached.len() && reached[i].cursor > self.subscriptions[i].cursor {
                        self.subscriptions[i].at(reached[i].cursor)
                    } else {
                        self.subscriptions[i]
                    },
            ),
            ..self
        }
    }
}

/// The latest timestamp that is known of a product: the latest cursor of its subscriptions.
pub open spec fn last_seen(subscriptions: Seq<SubscriptionView>, symbol: Seq<char>) -> i64
    decreases subscriptions.len(),
{
    if subscriptions.len() == 0 {
        i64::MIN
    } else {
        let before = last_seen(subscriptions.drop_last(), symbol);
        let last = subscriptions.last();
        if last.symbol == symbol && last.cursor > before { last.cursor } else { before }
    }
}

/// The moment of a poll: the latest timestamp that is known of the product.
pub open spec fn moment(subscriptions: Seq<SubscriptionView>, symbol: Seq<char>) -> i64 {
    if last_seen(subscriptions, symbol) > 0 { last_seen(subscriptions, symbol) } else { 0 }
}

/// The step that polls the subscription at `position`. The subscriptions in front of it have the
/// cursors that the poll has reached, and `bars` were found for them.
pub open spec fn live_step(
    state: MassiveState,
    subscriptions: Seq<SubscriptionView>,
    position: int,
    bars: Seq<Bar>,
) -> StepView {
    let symbol = subscriptions[position].symbol;
    match aggregates::resolution(subscriptions[position].timeframe) {
        None => StepView::Failed(aggregates::unsupported(subscriptions[position].timeframe)),
        Some(resolution) => onward(
            PurposeView::Live { subscriptions, position, resolution, bars },
            state.search(symbol, moment(subscriptions, symbol)),
        ),
    }
}

/// The step that starts a poll.
pub open spec fn first_step(state: MassiveState) -> StepView {
    if state.subscriptions.len() == 0 {
        StepView::Finished(Seq::empty())
    } else {
        live_step(state, state.subscriptions, 0, Seq::empty())
    }
}

/// The state and the step of a poll that goes on at `position`. Only behind the last subscription,
/// when the poll returns what it found, do the cursors move.
pub open spec fn next_poll(
    state: MassiveState,
    subscriptions: Seq<SubscriptionView>,
    position: int,
    bars: Seq<Bar>,
) -> (MassiveState, StepView) {
    if position < subscriptions.len() {
        (state, live_step(state, subscriptions, position, bars))
    } else {
        (state.returned(subscriptions), StepView::Finished(order::in_order(bars)))
    }
}

/// The bars that are newer than `cursor` and than the new ones before them, and the timestamp of
/// the last of these.
pub open spec fn fresh(cursor: i64, bars: Seq<Bar>) -> (i64, Seq<Bar>)
    decreases bars.len(),
{
    if bars.len() == 0 {
        (cursor, Seq::empty())
    } else {
        let (last, new) = fresh(cursor, bars.drop_last());
        if bars.last().timestamp > last {
            (bars.last().timestamp, new.push(bars.last()))
        } else {
            (last, new)
        }
    }
}

/// What the steps of an operation work towards.
#[derive(Debug)]
pub enum Purpose {
    /// The bars of a span of time.
    Historical { resolution: &'static str, from: i64, to: i64 },
    /// The new bars of all subscriptions: the one at `position` is being polled. Those in front of
    /// it have the cursors that the poll has reached, and `bars` were found for them.
    Live {
        subscriptions: Vec<Subscription>,
        position: usize,
        resolution: &'static str,
        bars: Vec<Bar>,
    },
}

/// Where an operation stands.
#[derive(Debug)]
pub enum Step {
    /// These are the bars.
    Finished(Vec<Bar>),
    /// There are none, for this reason.
    Failed(String),
    /// A page of the contract list is needed.
    Contracts(Purpose, ContractSearch),
    /// The volume of a contract is needed.
    Volume(Purpose, VolumeSearch),
    /// The bars of the contract with this ticker are needed.
    Aggregates(Purpose, String),
}

/// What a [`Purpose`] holds.
pub enum PurposeView {
    Historical { resolution: Seq<char>, from: i64, to: i64 },
    Live {
        subscriptions: Seq<SubscriptionView>,
        position: int,
        resolution: Seq<char>,
        bars: Seq<Bar>,
    },
}

/// Where an operation stands, as [`Step`] says it.
pub enum StepView {
    Finished(Seq<Bar>),
    Failed(Seq<char>),
    Contracts(PurposeView, ContractSearchView),
    Volume(PurposeView, VolumeSearchView),
    Aggregates(PurposeView, Seq<char>),
}

impl View for Purpose {
    type V = PurposeView;

    open spec fn view(&self) -> PurposeView {
        match self {
            Purpose::Historical { resolution, from, to } => PurposeView::Historical {
                resolution: resolution@,
                from: *from,
                to: *to,
            },
            Purpose::Live { subscriptions, position, resolution, bars } => PurposeView::Live {
                subscriptions: views(subscriptions@),
                position: *position as int,
                resolution: resolution@,
                bars: bars@,
            },
        }
    }
}

impl View for Step {
    type V = StepView;

    open spec fn view(&self) -> StepView {
        match self {
            Step::Finished(bars) => StepView::Finished(bars@),
            Step::Failed(error) => StepView::Failed(error@),
            Step::Contracts(purpose, search) => StepView::Contracts(purpose@, search@),
            Step::Volume(purpose, search) => StepView::Volume(purpose@, search@),
            Step::Aggregates(purpose, ticker) => StepView::Aggregates(purpose@, ticker@),
        }
    }
}

impl PurposeView {
    /// A poll has a subscription that it polls.
    pub open spec fn wf(self) -> bool {
        match self {
            PurposeView::Historical { .. } => true,
            PurposeView::Live { subscriptions, position, .. } => 0 <= position < subscriptions.len(),
        }
    }
}

impl StepView {
    /// The step is the last one or can be followed by another, and only bars of single contracts
    /// are asked for.
    pub open spec fn wf(self) -> bool {
        match self {
            StepView::Finished(_) => true,
            StepView::Failed(_) => true,
            StepView::Contracts(purpose, search) => purpose.wf() && search.wf(),
            StepView::Volume(purpose, search) => purpose.wf() && search.wf(),
            StepView::Aggregates(purpose, ticker) => purpose.wf() && contract::outright(ticker),
        }
    }
}

/// The step of an operation at which the search for its front month stands.
pub open spec fn onward(purpose: PurposeView, search: FrontMonthView) -> StepView {
    match search {
        FrontMonthView::Found(ticker) => StepView::Aggregates(purpose, ticker),
        FrontMonthView::Failed(error) => StepView::Failed(error),
        FrontMonthView::Listing(search) => StepView::Contracts(purpose, search),
        FrontMonthView::Measuring(search) => StepView::Volume(purpose, search),
    }
}

/// The request for the bars of an operation.
pub open spec fn bars_request(
    state: MassiveState,
    purpose: PurposeView,
    ticker: Seq<char>,
) -> request::RequestView {
    match purpose {
        PurposeView::Historical { resolution, from, to } => aggregates::aggs_request(
            state.base_url,
            state.api_key,
            ticker,
            resolution,
            Some(from),
            Some(to),
            HISTORY_BARS as nat,
        ),
        PurposeView::Live { resolution, .. } => aggregates::aggs_request(
            state.base_url,
            state.api_key,
            ticker,
            resolution,
            None,
            None,
            LIVE_BARS as nat,
        ),
    }
}

/// The state and the step after the bars of an operation.
pub open spec fn after_aggregates(
    state: MassiveState,
    purpose: PurposeView,
    ticker: Seq<char>,
    reply: Reply<Vec<AggRow>>,
) -> (MassiveState, StepView) {
    match aggregates::aggs_outcome(ticker, reply) {
        Err(error) => (state, StepView::Failed(error)),
        Ok(bars) => match purpose {
            PurposeView::Historical { .. } => (state, StepView::Finished(bars)),
            PurposeView::Live { subscriptions, position, bars: found, .. } => {
                let (last, new) = fresh(subscriptions[position].cursor, bars);
                next_poll(
                    state,
                    subscriptions.update(position, subscriptions[position].at(last)),
                    position + 1,
                    found + new,
                )
            },
        },
    }
}

/// Goes on with an operation where the search for its front month stands.
fn go_on(purpose: Purpose, search: FrontMonth) -> (step: Step)
    requires
        purpose@.wf(),
        search@.wf(),
    ensures
        step@ == onward(purpose@, search@),
        step@.wf(),
{
    match search {
        FrontMonth::Found(ticker) => Step::Aggregates(purpose, ticker),
        FrontMonth::Failed(error) => Step::Failed(error),
        FrontMonth::Listing(search) => Step::Contracts(purpose, search),
        FrontMonth::Measuring(search) => Step::Volume(purpose, search),
    }
}

/// Appends the bars that are newer than `cursor` and than the new ones before them, and says when
/// the last of these starts.
fn take_fresh(cursor: i64, bars: Vec<Bar>, out: &mut Vec<Bar>) -> (last: i64)
    ensures
        last == fresh(cursor, bars@).0,
        final(out)@ == old(out)@ + fresh(cursor, bars@).1,
{
    let mut last: i64 = cursor;
    let mut i: usize = 0;
    let ghost before = out@;
    assert(out@ =~= before + fresh(cursor, bars@.take(0)).1);
    while i < bars.len()
        invariant
            i <= bars@.len(),
            last == fresh(cursor, bars@.take(i as int)).0,
            out@ =~= before + fresh(cursor, bars@.take(i as int)).1,
        decreases bars@.len() - i,
    {
        assert(bars@.take(i + 1).drop_last() =~= bars@.take(i as int));
        if bars[i].timestamp > last {
            last = bars[i].timestamp;
            out.push(bars[i]);
        }
        i += 1;
    }
    assert(bars@.take(bars@.len() as int) =~= bars@);
    last
}

/// Finds the latest cursor of the subscriptions to a product.
fn latest_cursor(subscriptions: &Vec<Subscription>, symbol: &String) -> (cursor: i64)
    ensures
        cursor == last_seen(views(subscriptions@), symbol@),
{
    let mut latest: i64 = i64::MIN;
    let mut i: usize = 0;
    let ghost all = views(subscriptions@);
    while i < subscriptions.len()
        invariant
            i <= subscriptions@.len(),
            all == views(subscriptions@),
            latest == last_seen(all.take(i as int), symbol@),
        decreases subscriptions@.len() - i,
    {
        assert(all.take(i + 1).drop_last() =~= all.take(i as int));
        if subscriptions[i].symbol == *symbol && subscriptions[i].cursor > latest {
            latest = subscriptions[i].cursor;
        }
        i += 1;
    }
    assert(all.take(all.len() as int) =~= all);
    latest
}

impl MassiveAdapter {
    /// An adapter for the real host.
    pub fn new(api_key: &str) -> (adapter: MassiveAdapter)
        ensures
            adapter@ == (MassiveState {
                api_key: api_key@,
                base_url: DEFAULT_BASE_URL@,
                subscriptions: Seq::empty(),
                front_month: Map::empty(),
            }),
            adapter@.wf(),
    {
        MassiveAdapter::with_base_url(api_key, DEFAULT_BASE_URL)
    }

    /// An adapter for another host.
    pub fn with_base_url(api_key: &str, base_url: &str) -> (adapter: MassiveAdapter)
        ensures
            adapter@ == (MassiveState {
                api_key: api_key@,
                base_url: base_url@,
                subscriptions: Seq::empty(),
                front_month: Map::empty(),
            }),
            adapter@.wf(),
    {
        let adapter = MassiveAdapter {
            api_key: api_key.to_owned(),
            base_url: base_url.to_owned(),
            subscriptions: Vec::new(),
            front_month: StringHashMap::new(),
        };
        assert(adapter@.subscriptions =~= Seq::empty());
        assert(adapter@.front_month =~= Map::empty());
        adapter
    }

    /// Starts the search for the most liquid contract of `product`. A front month that was found
    /// less than [`front_month::FRONT_MONTH_TTL_SECS`] before `now` needs no search.
    pub fn front_month(&self, product: &str, now: i64) -> (search: FrontMonth)
        requires
            self@.wf(),
        ensures
            search@ == self@.search(product@, now),
            search@.wf(),
    {
        if let Some(known) = self.front_month.get(product) {
            assert(self@.front_month.contains_key(product@));
            if now as i128 - (known.resolved_at as i128)
                < front_month::FRONT_MONTH_TTL_SECS as i128 {
                return FrontMonth::Found(known.ticker.clone());
            }
        }
        FrontMonth::Listing(ContractSearch::start(product, now))
    }

    /// The request for the page of the contract list that a search waits for.
    pub fn list_outrights(&self, search: &ContractSearch) -> (request: Request)
        ensures
            request@ == front_month::listing_request(self@.base_url, self@.api_key, search@),
    {
        search.request(self.base_url.as_str(), self.api_key.as_str())
    }

    /// The request for the volume that a search waits for: the latest daily bar of the contract.
    pub fn recent_volume(&self, search: &VolumeSearch) -> (request: Request)
        requires
            search@.wf(),
        ensures
            request@ == aggregates::aggs_request(
                self@.base_url,
                self@.api_key,
                search@.next(),
                "1day"@,
                None,
                None,
                front_month::VOLUME_BARS as nat,
            ),
    {
        search.request(self.base_url.as_str(), self.api_key.as_str())
    }

    /// Takes in the volume that a search waited for, and keeps the front month that is found.
    pub fn volume_measured(&mut self, search: VolumeSearch, reply: Reply<Vec<AggRow>>) -> (next:
        FrontMonth)
        requires
            old(self)@.wf(),
            search@.wf(),
        ensures
            next@ == front_month::after_volume(search@, reply),
            next@.wf(),
            final(self)@ == old(self)@.measured(search@, reply),
            final(self)@.wf(),
    {
        let product: String = search.product().to_owned();
        let now: i64 = search.now();
        let next: FrontMonth = search.measured(reply);
        if let FrontMonth::Found(ticker) = &next {
            let ghost before = self.front_month@;
            self.front_month.insert(product, Resolved { ticker: ticker.clone(), resolved_at: now });
            assert(months(self.front_month@) =~= months(before).insert(
                product@,
                (ticker@, now),
            ));
        }
        next
    }

    /// Builds a request for the bars of a contract. `from` and `to` are in seconds, `to` is
    /// exclusive.
    pub fn fetch_aggs(
        &self,
        ticker: &str,
        resolution: &str,
        from: Option<i64>,
        to: Option<i64>,
        limit: usize,
    ) -> (request: Request)
        ensures
            request@ == aggregates::aggs_request(
                self@.base_url,
                self@.api_key,
                ticker@,
                resolution@,
                from,
                to,
                limit as nat,
            ),
    {
        aggregates::request_aggs(
            self.base_url.as_str(),
            self.api_key.as_str(),
            ticker,
            resolution,
            from,
            to,
            limit,
        )
    }

    /// Starts to fetch the bars of the front month of the product `symbol` between `from` and `to`
    /// (seconds, `to` exclusive). The front month is that at `to`.
    pub fn fetch_historical(&self, symbol: &str, timeframe: Timeframe, from: i64, to: i64) -> (step:
        Step)
        requires
            self@.wf(),
        ensures
            step@.wf(),
            step@ == (match aggregates::resolution(timeframe) {
                None => StepView::Failed(aggregates::unsupported(timeframe)),
                Some(resolution) => onward(
                    PurposeView::Historical { resolution, from, to },
                    self@.search(symbol@, to),
                ),
            }),
    {
        match aggregates::resolution_of(timeframe) {
            Err(error) => Step::Failed(error),
            Ok(resolution) => go_on(
                Purpose::Historical { resolution, from, to },
                self.front_month(symbol, to),
            ),
        }
    }

    /// Adds a subscription, unless it is there already.
    pub fn subscribe_live(&mut self, symbol: &str, timeframe: Timeframe) -> (result: Result<
        (),
        String,
    >)
        requires
            old(self)@.wf(),
        ensures
            final(self)@.wf(),
            match result {
                Ok(_) => aggregates::resolution(timeframe) is Some && final(self)@ == old(
                    self,
                )@.subscribed(symbol@, timeframe),
                Err(error) => aggregates::resolution(timeframe) is None && error@
                    == aggregates::unsupported(timeframe) && final(self)@ == old(self)@,
            },
    {
        if let Err(error) = aggregates::resolution_of(timeframe) {
            return Err(error);
        }
        let name: String = symbol.to_owned();
        let mut i: usize = 0;
        while i < self.subscriptions.len()
            invariant
                i <= self.subscriptions@.len(),
                self@ == old(self)@,
                name@ == symbol@,
                aggregates::resolution(timeframe) is Some,
                old(self)@.wf(),
                forall|k: int|
                    0 <= k < i ==> !(#[trigger] self@.subscriptions[k]).is_to(symbol@, timeframe),
            decreases self.subscriptions@.len() - i,
        {
            if self.subscriptions[i].symbol == name && self.subscriptions[i].timeframe
                == timeframe {
                assert(self@.subscriptions[i as int].is_to(symbol@, timeframe));
                return Ok(());
            }
            i += 1;
        }
        let ghost before = self@;
        self.subscriptions.push(Subscription { symbol: name, timeframe, cursor: i64::MIN });
        proof {
            let new = SubscriptionView { symbol: symbol@, timeframe, cursor: i64::MIN };
            assert(self@.subscriptions =~= before.subscriptions.push(new));
            assert(!before.has(symbol@, timeframe));
            lemma_subscribed(before, symbol@, timeframe);
        }
        Ok(())
    }

    /// Starts to poll all subscriptions for bars that have come since the last poll.
    pub fn poll_live(&self) -> (step: Step)
        requires
            self@.wf(),
        ensures
            step@.wf(),
            step@ == first_step(self@),
    {
        let mut subscriptions: Vec<Subscription> = Vec::new();
        let mut i: usize = 0;
        while i < self.subscriptions.len()
            invariant
                i <= self.subscriptions@.len(),
                views(subscriptions@) =~= views(self.subscriptions@).take(i as int),
            decreases self.subscriptions@.len() - i,
        {
            let symbol: String = self.subscriptions[i].symbol.clone();
            let timeframe: Timeframe = self.subscriptions[i].timeframe;
            let cursor: i64 = self.subscriptions[i].cursor;
            let ghost before = views(subscriptions@);
            subscriptions.push(Subscription { symbol, timeframe, cursor });
            assert(views(subscriptions@) =~= before.push(views(self.subscriptions@)[i as int]));
            i += 1;
        }
        assert(views(subscriptions@) =~= self@.subscriptions);
        if subscriptions.len() == 0 {
            return Step::Finished(Vec::new());
        }
        self.poll_at(subscriptions, 0, Vec::new())
    }

    /// Polls the subscription at `position`.
    fn poll_at(&self, subscriptions: Vec<Subscription>, position: usize, bars: Vec<Bar>) -> (step:
        Step)
        requires
            self@.wf(),
            position < subscriptions@.len(),
        ensures
            step@.wf(),
            step@ == live_step(self@, views(subscriptions@), position as int, bars@),
    {
        match aggregates::resolution_of(subscriptions[position].timeframe) {
            Err(error) => Step::Failed(error),
            Ok(resolution) => {
                let symbol: String = subscriptions[position].symbol.clone();
                let seen: i64 = latest_cursor(&subscriptions, &symbol);
                let now: i64 = if seen > 0 { seen } else { 0 };
                let search: FrontMonth = self.front_month(symbol.as_str(), now);
                go_on(Purpose::Live { subscriptions, position, resolution, bars }, search)
            },
        }
    }

    /// Moves the cursors to those that a poll has reached.
    fn give_back(&mut self, reached: Vec<Subscription>)
        requires
            old(self)@.wf(),
        ensures
            final(self)@ == old(self)@.returned(views(reached@)),
            final(self)@.wf(),
    {
        let ghost before = self@;
        let ghost target = before.returned(views(reached@)).subscriptions;
        let mut i: usize = 0;
        while i < self.subscriptions.len() && i < reached.len()
            invariant
                i <= self.subscriptions@.len(),
                i <= reached@.len(),
                before == old(self)@,
                target == before.returned(views(reached@)).subscriptions,
                self@.api_key == before.api_key,
                self@.base_url == before.base_url,
                self@.front_month == before.front_month,
                self@.subscriptions =~= target.take(i as int) + before.subscriptions.skip(i as int),
                self@.subscriptions.len() == before.subscriptions.len(),
            decreases reached@.len() - i,
        {
            let cursor: i64 = reached[i].cursor;
            let ghost so_far = self@.subscriptions;
            assert(so_far[i as int] == before.subscriptions[i as int]);
            assert(views(reached@)[i as int].cursor == cursor);
            if cursor > self.subscriptions[i].cursor {
                self.subscriptions[i].cursor = cursor;
            }
            assert(self@.subscriptions =~= so_far.update(i as int, target[i as int]));
            assert(self@.subscriptions =~= target.take(i + 1) + before.subscriptions.skip(i + 1));
            i += 1;
        }
        proof {
            assert(self@.subscriptions =~= target);
            lemma_returned_wf(before, views(reached@));
        }
    }

    /// The request that a step waits for.
    pub fn request_of(&self, step: &Step) -> (request: Option<Request>)
        requires
            step@.wf(),
        ensures
            match (step@, request) {
                (StepView::Finished(_), None) => true,
                (StepView::Failed(_), None) => true,
                (StepView::Contracts(_, search), Some(request)) => request@
                    == front_month::listing_request(self@.base_url, self@.api_key, search),
                (StepView::Volume(_, search), Some(request)) => request@
                    == aggregates::aggs_request(
                    self@.base_url,
                    self@.api_key,
                    search.next(),
                    "1day"@,
                    None,
                    None,
                    front_month::VOLUME_BARS as nat,
                ),
                (StepView::Aggregates(purpose, ticker), Some(request)) => request@ == bars_request(
                    self@,
                    purpose,
                    ticker,
                ),
                _ => false,
            },
    {
        match step {
            Step::Finished(_) => None,
            Step::Failed(_) => None,
            Step::Contracts(_, search) => Some(self.list_outrights(search)),
            Step::Volume(_, search) => Some(self.recent_volume(search)),
            Step::Aggregates(purpose, ticker) => Some(
                match purpose {
                    Purpose::Historical { resolution, from, to } => self.fetch_aggs(
                        ticker.as_str(),
                        resolution,
                        Some(*from),
                        Some(*to),
                        HISTORY_BARS,
                    ),
                    Purpose::Live { resolution, .. } => self.fetch_aggs(
                        ticker.as_str(),
                        resolution,
                        None,
                        None,
                        LIVE_BARS,
                    ),
                },
            ),
        }
    }

    /// Goes on after a page of the contract list.
    pub fn contracts_arrived(
        &self,
        purpose: Purpose,
        search: ContractSearch,
        reply: Reply<ContractListing>,
    ) -> (step: Step)
        requires
            purpose@.wf(),
            search@.wf(),
        ensures
            step@.wf(),
            step@ == onward(purpose@, front_month::after_listing(search@, reply)),
    {
        go_on(purpose, search.listed(reply))
    }

    /// Goes on after the volume of a contract.
    pub fn volume_arrived(
        &mut self,
        purpose: Purpose,
        search: VolumeSearch,
        reply: Reply<Vec<AggRow>>,
    ) -> (step: Step)
        requires
            old(self)@.wf(),
            purpose@.wf(),
            search@.wf(),
        ensures
            final(self)@.wf(),
            final(self)@ == old(self)@.measured(search@, reply),
            step@.wf(),
            step@ == onward(purpose@, front_month::after_volume(search@, reply)),
    {
        go_on(purpose, self.volume_measured(search, reply))
    }

    /// Goes on after the bars of a contract. Only a poll that comes to its end counts as returned: an
    /// error leaves the cursors where they are.
    pub fn aggregates_arrived(&mut self, purpose: Purpose, ticker: &str, reply: Reply<Vec<AggRow>>) -> (step:
        Step)
        requires
            old(self)@.wf(),
            purpose@.wf(),
        ensures
            final(self)@.wf(),
            step@.wf(),
            (final(self)@, step@) == after_aggregates(old(self)@, purpose@, ticker@, reply),
    {
        let bars: Vec<Bar> = match aggregates::read_aggs(ticker, reply) {
            Ok(bars) => bars,
            Err(error) => {
                return Step::Failed(error);
            },
        };
        match purpose {
            Purpose::Historical { .. } => Step::Finished(bars),
            Purpose::Live { subscriptions, position, bars: found, .. } => {
                let mut subscriptions: Vec<Subscription> = subscriptions;
                let mut found: Vec<Bar> = found;
                let ghost before = views(subscriptions@);
                let last: i64 = take_fresh(subscriptions[position].cursor, bars, &mut found);
                subscriptions[position].cursor = last;
                assert(views(subscriptions@) =~= before.update(
                    position as int,
                    before[position as int].at(last),
                ));
                assert(position < subscriptions.len());
                if position + 1 < subscriptions.len() {
                    self.poll_at(subscriptions, position + 1, found)
                } else {
                    self.give_back(subscriptions);
                    Step::Finished(order::sort(found))
                }
            },
        }
    }
}

/// A front month that a search found holds for [`front_month::FRONT_MONTH_TTL_SECS`] from the
/// moment of the search; after that it is searched anew.
pub proof fn a_front_month_holds_for_its_time(
    state: MassiveState,
    search: VolumeSearchView,
    reply: Reply<Vec<AggRow>>,
    now: i64,
)
    requires
        front_month::after_volume(search, reply) is Found,
    ensures
        ({
            let after = state.measured(search, reply);
            if now - search.now < front_month::FRONT_MONTH_TTL_SECS {
                after.search(search.product, now) == front_month::after_volume(search, reply)
            } else {
                after.search(search.product, now) == front_month::new_search(search.product, now)
            }
        }),
{
}

/// To subscribe again changes nothing.
pub proof fn a_subscription_is_made_once(
    state: MassiveState,
    symbol: Seq<char>,
    timeframe: Timeframe,
)
    ensures
        state.subscribed(symbol, timeframe).has(symbol, timeframe),
        state.subscribed(symbol, timeframe).subscribed(symbol, timeframe) == state.subscribed(
            symbol,
            timeframe,
        ),
{
    let after = state.subscribed(symbol, timeframe);
    if !state.has(symbol, timeframe) {
        assert(after.subscriptions[after.subscriptions.len() - 1].is_to(symbol, timeframe));
    }
}

proof fn lemma_subscribed(state: MassiveState, symbol: Seq<char>, timeframe: Timeframe)
    requires
        state.wf(),
        aggregates::resolution(timeframe) is Some,
    ensures
        state.subscribed(symbol, timeframe).wf(),
{
    let after = state.subscribed(symbol, timeframe);
    if !state.has(symbol, timeframe) {
        assert forall|i: int, j: int| 0 <= i < j < after.subscriptions.len() implies !(
        #[trigger] after.subscriptions[i]).is_to(
            (#[trigger] after.subscriptions[j]).symbol,
            after.subscriptions[j].timeframe,
        ) by {
            assert(after.subscriptions[i] == state.subscriptions[i]);
            if j < state.subscriptions.len() {
                assert(after.subscriptions[j] == state.subscriptions[j]);
            }
        }
        assert forall|i: int| 0 <= i < after.subscriptions.len() implies aggregates::resolution(
            (#[trigger] after.subscriptions[i]).timeframe,
        ) is Some by {
            if i < state.subscriptions.len() {
                assert(after.subscriptions[i] == state.subscriptions[i]);
            }
        }
    }
}

proof fn lemma_returned_wf(state: MassiveState, reached: Seq<SubscriptionView>)
    requires
        state.wf(),
    ensures
        state.returned(reached).wf(),
{
    let after = state.returned(reached);
    assert forall|i: int, j: int| 0 <= i < j < after.subscriptions.len() implies !(
    #[trigger] after.subscriptions[i]).is_to(
        (#[trigger] after.subscriptions[j]).symbol,
        after.subscriptions[j].timeframe,
    ) by {
        assert(!state.subscriptions[i].is_to(
            state.subscriptions[j].symbol,
            state.subscriptions[j].timeframe,
        ));
    }
    assert forall|i: int| 0 <= i < after.subscriptions.len() implies aggregates::resolution(
        (#[trigger] after.subscriptions[i]).timeframe,
    ) is Some by {
        assert(aggregates::resolution(state.subscriptions[i].timeframe) is Some);
    }
}

/// Whether a bar starts at this time.
pub open spec fn has_time(bars: Seq<Bar>, timestamp: i64) -> bool {
    exists|i: int| 0 <= i < bars.len() && (#[trigger] bars[i]).timestamp == timestamp
}

/// The bars that count as new are later than the cursor and each later than the one before it; the
/// cursor moves to the last of them, and then no bar is later than the cursor. Of ascending bars
/// none is lost: every time behind the cursor that a bar has, a new bar has.
pub proof fn new_bars_are_newer(cursor: i64, bars: Seq<Bar>)
    ensures
        ({
            let (last, new) = fresh(cursor, bars);
            &&& last >= cursor
            &&& last == if new.len() > 0 { new.last().timestamp } else { cursor }
            &&& forall|i: int| 0 <= i < new.len() ==> cursor < (#[trigger] new[i]).timestamp <= last
            &&& forall|i: int, j: int|
                0 <= i < j < new.len() ==> (#[trigger] new[i]).timestamp < (
                #[trigger] new[j]).timestamp
            &&& forall|i: int| 0 <= i < bars.len() ==> (#[trigger] bars[i]).timestamp <= last
            &&& forall|i: int| 0 <= i < new.len() ==> bars.contains(#[trigger] new[i])
            &&& bar::ascending(bars) ==> forall|i: int|
                0 <= i < bars.len() && (#[trigger] bars[i]).timestamp > cursor ==> has_time(
                    new,
                    bars[i].timestamp,
                )
        }),
    decreases bars.len(),
{
    if bars.len() > 0 {
        let rest = bars.drop_last();
        new_bars_are_newer(cursor, rest);
        let (before, old_new) = fresh(cursor, rest);
        let (last, new) = fresh(cursor, bars);
        assert forall|i: int| 0 <= i < bars.len() implies (#[trigger] bars[i]).timestamp <= last by {
            if i < rest.len() {
                assert(rest[i] == bars[i]);
            }
        }
        assert forall|i: int| 0 <= i < new.len() implies bars.contains(#[trigger] new[i]) by {
            if i < old_new.len() {
                assert(new[i] == old_new[i]);
                assert(rest.contains(old_new[i]));
                let k = choose|k: int| 0 <= k < rest.len() && rest[k] == old_new[i];
                assert(bars[k] == new[i]);
            } else {
                assert(bars[bars.len() - 1] == new[i]);
            }
        }
        if bar::ascending(bars) {
            assert(bar::ascending(rest)) by {
                assert forall|i: int, j: int| 0 <= i < j < rest.len() implies (
                #[trigger] rest[i]).timestamp <= (#[trigger] rest[j]).timestamp by {
                    assert(rest[i] == bars[i] && rest[j] == bars[j]);
                }
            }
            assert forall|i: int|
                0 <= i < bars.len() && (#[trigger] bars[i]).timestamp > cursor implies has_time(
                new,
                bars[i].timestamp,
            ) by {
                if i < rest.len() {
                    assert(rest[i] == bars[i]);
                    assert(has_time(old_new, rest[i].timestamp));
                    let k = choose|k: int|
                        0 <= k < old_new.len() && (#[trigger] old_new[k]).timestamp
                            == bars[i].timestamp;
                    assert(new[k] == old_new[k]);
                } else if bars.last().timestamp > before {
                    assert(new[new.len() - 1] == bars.last());
                } else {
                    let newest = old_new[old_new.len() - 1];
                    assert(rest.contains(newest));
                    let k = choose|k: int| 0 <= k < rest.len() && rest[k] == newest;
                    assert(bars[k] == newest);
                    assert(bars[k].timestamp <= bars[i].timestamp);
                    assert(new[old_new.len() - 1] == newest);
                }
            }
        }
    }
}

proof fn lemma_nothing_fresh(cursor: i64, bars: Seq<Bar>)
    requires
        forall|i: int| 0 <= i < bars.len() ==> (#[trigger] bars[i]).timestamp <= cursor,
    ensures
        fresh(cursor, bars) == (cursor, Seq::<Bar>::empty()),
    decreases bars.len(),
{
    if bars.len() > 0 {
        let rest = bars.drop_last();
        assert forall|i: int| 0 <= i < rest.len() implies (#[trigger] rest[i]).timestamp <= cursor by {
            assert(rest[i] == bars[i]);
        }
        lemma_nothing_fresh(cursor, rest);
        assert(bars[bars.len() - 1].timestamp <= cursor);
    }
}

/// Something that an operation waited for.
pub enum Event {
    Contracts(Reply<ContractListing>),
    Volume(Reply<Vec<AggRow>>),
    Aggregates(Reply<Vec<AggRow>>),
}

/// The state and the step after an event that the step waits for.
pub open spec fn after_event(state: MassiveState, step: StepView, event: Event) -> Option<
    (MassiveState, StepView),
> {
    match (step, event) {
        (StepView::Contracts(purpose, search), Event::Contracts(reply)) => Some(
            (state, onward(purpose, front_month::after_listing(search, reply))),
        ),
        (StepView::Volume(purpose, search), Event::Volume(reply)) => Some(
            (
                state.measured(search, reply),
                onward(purpose, front_month::after_volume(search, reply)),
            ),
        ),
        (StepView::Aggregates(purpose, ticker), Event::Aggregates(reply)) => Some(
            after_aggregates(state, purpose, ticker, reply),
        ),
        _ => None,
    }
}

/// An operation from the step `step` on, as far as the events go that it waits for.
pub open spec fn run(state: MassiveState, step: StepView, events: Seq<Event>) -> (
    MassiveState,
    StepView,
)
    decreases events.len(),
{
    if events.len() == 0 {
        (state, step)
    } else {
        match after_event(state, step, events[0]) {
            Some((after, next)) => run(after, next, events.skip(1)),
            None => (state, step),
        }
    }
}

/// A whole poll.
pub open spec fn poll(state: MassiveState, events: Seq<Event>) -> (MassiveState, StepView) {
    run(state, first_step(state), events)
}

/// Spreads are never chosen: whatever an operation is answered, it asks only for the bars of single
/// contracts, and only single contracts are kept as front months.
pub proof fn spreads_are_never_chosen(state: MassiveState, step: StepView, events: Seq<Event>)
    requires
        state.wf(),
        step.wf(),
    ensures
        run(state, step, events).0.wf(),
        run(state, step, events).1.wf(),
    decreases events.len(),
{
    if events.len() > 0 {
        match (step, events[0]) {
            (StepView::Aggregates(purpose, ticker), Event::Aggregates(reply)) => {
                if let (PurposeView::Live { subscriptions, position, .. }, Ok(bars)) = (
                    purpose,
                    aggregates::aggs_outcome(ticker, reply),
                ) {
                    let last = fresh(subscriptions[position].cursor, bars).0;
                    lemma_returned_wf(
                        state,
                        subscriptions.update(position, subscriptions[position].at(last)),
                    );
                }
            },
            (StepView::Contracts(_, search), Event::Contracts(reply)) => {
                front_month::a_search_finds_single_contracts_after_a_page(search, reply);
            },
            (StepView::Volume(_, search), Event::Volume(reply)) => {
                front_month::a_search_finds_single_contracts_after_a_volume(search, reply);
            },
            _ => {},
        }
        if let Some((after, next)) = after_event(state, step, events[0]) {
            spreads_are_never_chosen(after, next, events.skip(1));
        }
    }
}

/// The bars in the events.
pub open spec fn pages(events: Seq<Event>) -> Seq<Seq<Bar>>
    decreases events.len(),
{
    if events.len() == 0 {
        Seq::empty()
    } else {
        match events[0] {
            Event::Aggregates(Reply::Body(rows)) => seq![aggregates::bars_of(rows@)] + pages(
                events.skip(1),
            ),
            _ => pages(events.skip(1)),
        }
    }
}

/// The bars that are new to their subscriptions: each subscription contributes those of its page
/// that are newer than its cursor.
pub open spec fn new_bars(subscriptions: Seq<SubscriptionView>, pages: Seq<Seq<Bar>>) -> Seq<Bar>
    decreases subscriptions.len(),
{
    if subscriptions.len() == 0 {
        Seq::empty()
    } else {
        fresh(subscriptions[0].cursor, pages[0]).1 + new_bars(
            subscriptions.skip(1),
            pages.skip(1),
        )
    }
}

/// The subscriptions from `position` on with their cursors behind the new bars of their pages.
pub open spec fn reached_from(
    subscriptions: Seq<SubscriptionView>,
    position: int,
    pages: Seq<Seq<Bar>>,
) -> Seq<SubscriptionView> {
    Seq::new(
        subscriptions.len(),
        |i: int|
            if i < position {
                subscriptions[i]
            } else {
                subscriptions[i].at(fresh(subscriptions[i].cursor, pages[i - position]).0)
            },
    )
}

/// Whether a step belongs to a poll that is at this point.
spec fn polls(
    step: StepView,
    subscriptions: Seq<SubscriptionView>,
    position: int,
    bars: Seq<Bar>,
) -> bool {
    match step {
        StepView::Finished(_) => false,
        StepView::Failed(_) => true,
        StepView::Contracts(purpose, _) => of_poll(purpose, subscriptions, position, bars),
        StepView::Volume(purpose, _) => of_poll(purpose, subscriptions, position, bars),
        StepView::Aggregates(purpose, _) => of_poll(purpose, subscriptions, position, bars),
    }
}

spec fn of_poll(
    purpose: PurposeView,
    subscriptions: Seq<SubscriptionView>,
    position: int,
    bars: Seq<Bar>,
) -> bool {
    match purpose {
        PurposeView::Historical { .. } => false,
        PurposeView::Live { subscriptions: s, position: p, bars: b, .. } => s == subscriptions && p
            == position && b == bars,
    }
}

/// A step that is the last one is followed by none.
proof fn lemma_last_step(state: MassiveState, step: StepView, events: Seq<Event>)
    requires
        step is Finished || step is Failed,
    ensures
        run(state, step, events) == (state, step),
{
    if events.len() > 0 {
        assert(after_event(state, step, events[0]) is None);
    }
}

proof fn lemma_poll_run(
    state: MassiveState,
    step: StepView,
    events: Seq<Event>,
    subscriptions: Seq<SubscriptionView>,
    position: int,
    bars: Seq<Bar>,
)
    requires
        0 <= position < subscriptions.len(),
        polls(step, subscriptions, position, bars),
        run(state, step, events).1 is Finished,
    ensures
        ({
            let (end, last) = run(state, step, events);
            let new = new_bars(subscriptions.skip(position), pages(events));
            &&& last == StepView::Finished(order::in_order(bars + new))
            &&& end.subscriptions == state.returned(
                reached_from(subscriptions, position, pages(events)),
            ).subscriptions
            &&& end.api_key == state.api_key
            &&& end.base_url == state.base_url
            &&& pages(events).len() >= subscriptions.len() - position
        }),
    decreases events.len(),
{
    if step is Failed {
        lemma_last_step(state, step, events);
    }
    assert(events.len() > 0);
    let (after, next) = after_event(state, step, events[0]).unwrap();
    let rest = events.skip(1);
    if next is Failed {
        lemma_last_step(after, next, rest);
    }
    match (step, events[0]) {
        (StepView::Contracts(purpose, search), Event::Contracts(reply)) => {
            lemma_poll_run(after, next, rest, subscriptions, position, bars);
        },
        (StepView::Volume(purpose, search), Event::Volume(reply)) => {
            lemma_poll_run(after, next, rest, subscriptions, position, bars);
            let reached = reached_from(subscriptions, position, pages(rest));
            assert(after.returned(reached).subscriptions =~= state.returned(reached).subscriptions);
        },
        (StepView::Aggregates(purpose, ticker), Event::Aggregates(reply)) => {
            assert(reply is Body);
            let page = aggregates::bars_of(reply->Body_0@);
            let (last, new) = fresh(subscriptions[position].cursor, page);
            let moved = subscriptions.update(position, subscriptions[position].at(last));
            let shown = pages(events);
            assert(shown.skip(1) =~= pages(rest));
            assert(shown[0] == page);
            let pending = subscriptions.skip(position);
            assert(pending.skip(1) =~= subscriptions.skip(position + 1));
            assert(moved.skip(position + 1) =~= subscriptions.skip(position + 1));
            assert(new_bars(pending, shown) == new + new_bars(pending.skip(1), pages(rest)));
            assert((after, next) == next_poll(state, moved, position + 1, bars + new));
            let later = new_bars(moved.skip(position + 1), pages(rest));
            assert(bars + new + later =~= bars + (new + later));
            if position + 1 < subscriptions.len() {
                lemma_poll_run(after, next, rest, moved, position + 1, bars + new);
                let reached = reached_from(subscriptions, position, shown);
                let onward = reached_from(moved, position + 1, pages(rest));
                assert forall|i: int| 0 <= i < subscriptions.len() implies #[trigger] onward[i]
                    == reached[i] by {
                    if i > position {
                        assert(shown[i - position] == shown.skip(1)[i - position - 1]);
                    }
                }
                assert(onward =~= reached);
            } else {
                lemma_last_step(after, next, rest);
                assert(later =~= Seq::empty());
                assert(bars + new + later =~= bars + new);
                assert(moved =~= reached_from(subscriptions, position, shown));
            }
        },
        _ => {},
    }
}

/// A poll that comes to its end returns, ascending, what each subscription contributes: the bars of
/// its page that are newer than its own cursor. It moves the cursor of each subscription behind its
/// bars, and leaves the key and the address, whatever the searches for the front months were
/// answered on the way.
pub proof fn a_poll_returns_what_is_newer(state: MassiveState, events: Seq<Event>)
    requires
        poll(state, events).1 is Finished,
    ensures
        ({
            let new = new_bars(state.subscriptions, pages(events));
            let (end, step) = poll(state, events);
            &&& pages(events).len() >= state.subscriptions.len()
            &&& step == StepView::Finished(order::in_order(new))
            &&& bar::ascending(order::in_order(new))
            &&& end.subscriptions == reached_from(state.subscriptions, 0, pages(events))
            &&& end.api_key == state.api_key
            &&& end.base_url == state.base_url
        }),
{
    let subscriptions = state.subscriptions;
    let shown = pages(events);
    let new = new_bars(subscriptions, shown);
    let reached = reached_from(subscriptions, 0, shown);
    bar::ordered_bars_ascend(new);
    if subscriptions.len() == 0 {
        lemma_last_step(state, first_step(state), events);
        assert(order::in_order(new) =~= Seq::empty());
        assert(reached =~= subscriptions);
    } else {
        lemma_poll_run(state, first_step(state), events, subscriptions, 0, Seq::empty());
        assert(subscriptions.skip(0) =~= subscriptions);
        assert(Seq::<Bar>::empty() + new =~= new);
        assert(state.returned(reached).subscriptions =~= reached) by {
            assert forall|i: int| 0 <= i < subscriptions.len() implies
                state.returned(reached).subscriptions[i] == reached[i] by {
                new_bars_are_newer(subscriptions[i].cursor, shown[i]);
            }
        }
    }
}

/// Cursors and subscriptions after one event.
proof fn lemma_after_event(state: MassiveState, step: StepView, event: Event)
    requires
        after_event(state, step, event) is Some,
    ensures
        ({
            let (after, next) = after_event(state, step, event).unwrap();
            &&& cursors_kept(state, after)
            &&& next !is Finished ==> after.subscriptions == state.subscriptions
            &&& after.api_key == state.api_key
            &&& after.base_url == state.base_url
        }),
{
}

/// Whether the subscriptions are the same and no cursor is further back.
pub open spec fn cursors_kept(before: MassiveState, after: MassiveState) -> bool {
    &&& after.subscriptions.len() == before.subscriptions.len()
    &&& forall|i: int|
        0 <= i < before.subscriptions.len() ==> {
            &&& (#[trigger] after.subscriptions[i]).is_to(
                before.subscriptions[i].symbol,
                before.subscriptions[i].timeframe,
            )
            &&& after.subscriptions[i].cursor >= before.subscriptions[i].cursor
        }
}

/// Whatever an operation is answered, it keeps the subscriptions and moves no cursor back.
pub proof fn cursors_never_go_back(state: MassiveState, step: StepView, events: Seq<Event>)
    ensures
        cursors_kept(state, run(state, step, events).0),
    decreases events.len(),
{
    if events.len() > 0 {
        if let Some((after, next)) = after_event(state, step, events[0]) {
            lemma_after_event(state, step, events[0]);
            cursors_never_go_back(after, next, events.skip(1));
            let end = run(after, next, events.skip(1)).0;
            assert forall|i: int| 0 <= i < state.subscriptions.len() implies {
                &&& (#[trigger] end.subscriptions[i]).is_to(
                    state.subscriptions[i].symbol,
                    state.subscriptions[i].timeframe,
                )
                &&& end.subscriptions[i].cursor >= state.subscriptions[i].cursor
            } by {
                assert(after.subscriptions[i].is_to(
                    state.subscriptions[i].symbol,
                    state.subscriptions[i].timeframe,
                ));
            }
        }
    }
}

proof fn lemma_unfinished_run(state: MassiveState, step: StepView, events: Seq<Event>)
    requires
        run(state, step, events).1 !is Finished,
    ensures
        run(state, step, events).0.subscriptions == state.subscriptions,
        run(state, step, events).0.api_key == state.api_key,
        run(state, step, events).0.base_url == state.base_url,
    decreases events.len(),
{
    if events.len() > 0 {
        if let Some((after, next)) = after_event(state, step, events[0]) {
            lemma_after_event(state, step, events[0]);
            if next is Finished {
                lemma_last_step(after, next, events.skip(1));
            }
            lemma_unfinished_run(after, next, events.skip(1));
        }
    }
}

/// A poll that fails moves no cursor: what it saw has not been returned, and the next poll returns
/// it. Only the front months that it found are kept.
pub proof fn a_failed_poll_keeps_the_cursors(state: MassiveState, events: Seq<Event>)
    requires
        poll(state, events).1 is Failed,
    ensures
        poll(state, events).0.subscriptions == state.subscriptions,
        poll(state, events).0.api_key == state.api_key,
        poll(state, events).0.base_url == state.base_url,
{
    lemma_unfinished_run(state, first_step(state), events);
}

/// A fetch that comes to its end returns the bars of the one page that it asked for, ascending and
/// in seconds, however its front month was found. It leaves subscriptions and cursors alone.
pub proof fn history_comes_back_ascending(
    state: MassiveState,
    resolution: Seq<char>,
    from: i64,
    to: i64,
    search: FrontMonthView,
    events: Seq<Event>,
)
    requires
        run(state, onward(PurposeView::Historical { resolution, from, to }, search), events).1 is Finished,
    ensures
        ({
            let purpose = PurposeView::Historical { resolution, from, to };
            let (end, step) = run(state, onward(purpose, search), events);
            &&& pages(events).len() > 0
            &&& step == StepView::Finished(pages(events)[0])
            &&& bar::ascending(pages(events)[0])
            &&& end.subscriptions == state.subscriptions
        }),
    decreases events.len(),
{
    let purpose = PurposeView::Historical { resolution, from, to };
    let rest = events.skip(1);
    match (search, events[0]) {
        (FrontMonthView::Listing(waiting), Event::Contracts(reply)) => {
            let next = front_month::after_listing(waiting, reply);
            history_comes_back_ascending(state, resolution, from, to, next, rest);
        },
        (FrontMonthView::Measuring(waiting), Event::Volume(reply)) => {
            let next = front_month::after_volume(waiting, reply);
            let after = state.measured(waiting, reply);
            history_comes_back_ascending(after, resolution, from, to, next, rest);
        },
        (FrontMonthView::Found(ticker), Event::Aggregates(reply)) => {
            let (after, next) = after_aggregates(state, purpose, ticker, reply);
            lemma_last_step(after, next, rest);
            aggregates::bars_come_back_ascending(reply->Body_0@);
        },
        _ => {},
    }
}

proof fn lemma_nothing_new(subscriptions: Seq<SubscriptionView>, pages: Seq<Seq<Bar>>)
    requires
        pages.len() >= subscriptions.len(),
        forall|i: int, k: int|
            0 <= i < subscriptions.len() && 0 <= k < pages[i].len() ==> (
            #[trigger] pages[i][k]).timestamp <= subscriptions[i].cursor,
    ensures
        new_bars(subscriptions, pages) == Seq::<Bar>::empty(),
    decreases subscriptions.len(),
{
    if subscriptions.len() > 0 {
        let rest = subscriptions.skip(1);
        let more = pages.skip(1);
        assert forall|k: int| 0 <= k < pages[0].len() implies (#[trigger] pages[0][k]).timestamp
            <= subscriptions[0].cursor by {}
        lemma_nothing_fresh(subscriptions[0].cursor, pages[0]);
        assert forall|i: int, k: int| 0 <= i < rest.len() && 0 <= k < more[i].len() implies (
        #[trigger] more[i][k]).timestamp <= rest[i].cursor by {
            assert(more[i] == pages[i + 1]);
            assert(rest[i] == subscriptions[i + 1]);
            assert(pages[i + 1][k].timestamp <= subscriptions[i + 1].cursor);
        }
        lemma_nothing_new(rest, more);
        assert(new_bars(subscriptions, pages) =~= Seq::<Bar>::empty());
    }
}

/// Each bar is returned only once: a second poll that shows the same bars returns nothing, even if
/// the front months are searched anew.
pub proof fn each_bar_is_returned_once(
    state: MassiveState,
    first: Seq<Event>,
    second: Seq<Event>,
)
    requires
        poll(state, first).1 is Finished,
        poll(poll(state, first).0, second).1 is Finished,
        pages(second) == pages(first),
    ensures
        poll(poll(state, first).0, second).1 == StepView::Finished(Seq::empty()),
{
    let shown = pages(first);
    let (end, _) = poll(state, first);
    a_poll_returns_what_is_newer(state, first);
    a_poll_returns_what_is_newer(end, second);
    assert forall|i: int, k: int|
        0 <= i < end.subscriptions.len() && 0 <= k < shown[i].len() implies (
    #[trigger] shown[i][k]).timestamp <= end.subscriptions[i].cursor by {
        new_bars_are_newer(state.subscriptions[i].cursor, shown[i]);
    }
    lemma_nothing_new(end.subscriptions, shown);
    assert(order::in_order(Seq::<Bar>::empty()) =~= Seq::empty());
}

} // verus!
