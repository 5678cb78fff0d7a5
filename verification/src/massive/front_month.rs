//! The search for the front month of a product.
//!
//! The front month is the active single contract with the highest volume, not the one that expires
//! next: shortly before expiry the trade moves to the following month while the expiring contract
//! is still listed. The search reads the contract list page by page, as far as it may, takes the few
//! single contracts that expire next, and asks for the volume of each of them.
use vstd::prelude::*;
use vstd::string::*;

use crate::civil_date;
use crate::double::Double;
use crate::massive::aggregates;
use crate::massive::aggregates::AggRow;
use crate::massive::contract;
use crate::massive::contract::{ContractListing, ContractRow};
use crate::request;
use crate::request::{Reply, Request};
use crate::text;

verus! {

/// How long a front month holds, in seconds, before it is searched anew. The change to the next
/// month is an event of a day, not of a minute; an hour is short enough to follow it on the day.
pub const FRONT_MONTH_TTL_SECS: i64 = 3600;

/// How many contracts one page lists.
pub const CONTRACT_PAGE_LIMIT: usize = 250;

/// How many pages of the list are read at most.
pub const MAX_CONTRACT_PAGES: usize = 4;

/// How many daily bars are asked for to learn a contract's volume.
pub const VOLUME_BARS: usize = 1;

/// A search that waits for a page of the contract list.
#[derive(Debug)]
pub struct ContractSearch {
    product: String,
    now: i64,
    day: String,
    pages_read: usize,
    next_url: Option<String>,
    found: Vec<ContractRow>,
}

/// A search that waits for the volume of a contract.
#[derive(Debug)]
pub struct VolumeSearch {
    product: String,
    now: i64,
    candidates: Vec<String>,
    volumes: Vec<Double>,
}

/// Where a search for the front month stands.
#[derive(Debug)]
pub enum FrontMonth {
    /// The front month is the contract with this ticker.
    Found(String),
    /// There is none, for this reason.
    Failed(String),
    /// A page of the contract list is needed.
    Listing(ContractSearch),
    /// The volume of a contract is needed.
    Measuring(VolumeSearch),
}

/// What a [`ContractSearch`] holds: the product, the moment and the day of the search, how many
/// pages were read, the address of the next page where the list named one, and the usable contracts
/// of the pages that were read.
pub struct ContractSearchView {
    pub product: Seq<char>,
    pub now: i64,
    pub day: Seq<char>,
    pub pages_read: int,
    pub next_url: Option<Seq<char>>,
    pub found: Seq<ContractRow>,
}

/// What a [`VolumeSearch`] holds: the product, the moment of the search, the tickers to choose
/// from, and the volumes of the first of them.
pub struct VolumeSearchView {
    pub product: Seq<char>,
    pub now: i64,
    pub candidates: Seq<Seq<char>>,
    pub volumes: Seq<Double>,
}

/// Where a search stands, as [`FrontMonth`] says it.
pub enum FrontMonthView {
    Found(Seq<char>),
    Failed(Seq<char>),
    Listing(ContractSearchView),
    Measuring(VolumeSearchView),
}

/// The text of an optional string.
pub open spec fn optional_text(s: Option<String>) -> Option<Seq<char>> {
    match s {
        Some(s) => Some(s@),
        None => None,
    }
}

impl View for ContractSearch {
    type V = ContractSearchView;

    closed spec fn view(&self) -> ContractSearchView {
        ContractSearchView {
            product: self.product@,
            now: self.now,
            day: self.day@,
            pages_read: self.pages_read as int,
            next_url: optional_text(self.next_url),
            found: self.found@,
        }
    }
}

impl View for VolumeSearch {
    type V = VolumeSearchView;

    closed spec fn view(&self) -> VolumeSearchView {
        VolumeSearchView {
            product: self.product@,
            now: self.now,
            candidates: text::texts(self.candidates@),
            volumes: self.volumes@,
        }
    }
}

impl View for FrontMonth {
    type V = FrontMonthView;

    open spec fn view(&self) -> FrontMonthView {
        match self {
            FrontMonth::Found(ticker) => FrontMonthView::Found(ticker@),
            FrontMonth::Failed(error) => FrontMonthView::Failed(error@),
            FrontMonth::Listing(search) => FrontMonthView::Listing(search@),
            FrontMonth::Measuring(search) => FrontMonthView::Measuring(search@),
        }
    }
}

impl ContractSearchView {
    /// A page is still to be read, and only usable contracts were found.
    pub open spec fn wf(self) -> bool {
        &&& 0 <= self.pages_read < MAX_CONTRACT_PAGES
        &&& forall|i: int| 0 <= i < self.found.len() ==> contract::usable(#[trigger] self.found[i])
    }
}

impl VolumeSearchView {
    /// A volume is still to be measured, and only single contracts are in the choice.
    pub open spec fn wf(self) -> bool {
        &&& self.volumes.len() < self.candidates.len() <= contract::FRONT_MONTH_CANDIDATES
        &&& forall|k: int|
            0 <= k < self.candidates.len() ==> contract::outright(#[trigger] self.candidates[k])
    }

    /// The ticker whose volume is needed next.
    pub open spec fn next(self) -> Seq<char> {
        self.candidates[self.volumes.len() as int]
    }
}

impl FrontMonthView {
    /// The search is at an end or can go on, and it finds nothing but single contracts.
    pub open spec fn wf(self) -> bool {
        match self {
            FrontMonthView::Found(ticker) => contract::outright(ticker),
            FrontMonthView::Failed(_) => true,
            FrontMonthView::Listing(search) => search.wf(),
            FrontMonthView::Measuring(search) => search.wf(),
        }
    }
}

/// A search that has read nothing yet.
pub open spec fn new_search(product: Seq<char>, now: i64) -> FrontMonthView {
    FrontMonthView::Listing(
        ContractSearchView {
            product,
            now,
            day: civil_date::timestamp_text(now as int),
            pages_read: 0,
            next_url: None,
            found: Seq::empty(),
        },
    )
}

/// The error where no page has a usable contract.
pub open spec fn no_contract(product: Seq<char>, day: Seq<char>) -> Seq<char> {
    "Massive führt für '"@ + product + "' am "@ + day
        + " keinen aktiven Einzelkontrakt (die Liste enthält nur Spreads, oder der Produktcode stimmt nicht)"@
}

/// The error where no candidate has a volume.
pub open spec fn no_volume(product: Seq<char>) -> Seq<char> {
    "Massive meldet für keinen aktiven '"@ + product
        + "'-Kontrakt Volumen — ohne Volumen ist kein Frontmonat bestimmbar"@
}

/// The request for the page that a search waits for.
pub open spec fn listing_request(
    base_url: Seq<char>,
    api_key: Seq<char>,
    search: ContractSearchView,
) -> request::RequestView {
    match search.next_url {
        None => request::plain(base_url + "/futures/v1/contracts"@).with(
            "product_code"@,
            search.product,
        ).with("date"@, search.day).with("limit"@, text::decimal(CONTRACT_PAGE_LIMIT as nat)).with(
            "apiKey"@,
            api_key,
        ),
        Some(url) => request::plain(url).with("apiKey"@, api_key),
    }
}

/// Whether a page names a further one. An empty page ends the list.
pub open spec fn leads_on(page: ContractListing) -> bool {
    page.results@.len() > 0 && page.next_url is Some
}

/// Where a search stands when it has read the list and found these contracts.
pub open spec fn conclude(search: ContractSearchView, found: Seq<ContractRow>) -> FrontMonthView {
    if found.len() > 0 {
        FrontMonthView::Measuring(
            VolumeSearchView {
                product: search.product,
                now: search.now,
                candidates: contract::candidates(found),
                volumes: Seq::empty(),
            },
        )
    } else {
        FrontMonthView::Failed(no_contract(search.product, search.day))
    }
}

/// Where a search stands after the page that it waited for.
pub open spec fn after_listing(
    search: ContractSearchView,
    reply: Reply<ContractListing>,
) -> FrontMonthView {
    match reply {
        Reply::Failed(cause) => FrontMonthView::Failed(
            "Massive-Kontraktliste für '"@ + search.product + "' fehlgeschlagen: "@ + cause@,
        ),
        Reply::Unreadable(cause) => FrontMonthView::Failed(
            "Massive-Kontraktliste für '"@ + search.product + "' unlesbar: "@ + cause@,
        ),
        Reply::Body(page) => {
            let found = search.found + contract::outrights(page.results@);
            if leads_on(page) && search.pages_read + 1 < MAX_CONTRACT_PAGES {
                FrontMonthView::Listing(
                    ContractSearchView {
                        pages_read: search.pages_read + 1,
                        next_url: optional_text(page.next_url),
                        found,
                        ..search
                    },
                )
            } else {
                conclude(search, found)
            }
        },
    }
}

/// The first index of a row that starts last.
pub open spec fn latest_row(rows: Seq<AggRow>) -> int
    decreases rows.len(),
{
    if rows.len() <= 1 {
        0
    } else {
        let before = latest_row(rows.drop_last());
        if rows.last().window_start > rows[before].window_start { rows.len() - 1 } else { before }
    }
}

/// The volume that a reply shows: that of the latest bar, and none where there is no bar.
pub open spec fn recent_volume(reply: Reply<Vec<AggRow>>) -> Double {
    match reply {
        Reply::Body(rows) if rows@.len() > 0 => rows@[latest_row(rows@)].volume,
        _ => Double { bits: 0 },
    }
}

/// The first index with the highest volume.
pub open spec fn leader(volumes: Seq<Double>) -> int
    decreases volumes.len(),
{
    if volumes.len() <= 1 {
        0
    } else {
        let before = leader(volumes.drop_last());
        if volumes.last().exceeds(volumes[before]) { volumes.len() - 1 } else { before }
    }
}

/// The choice among candidates whose volumes are all known.
pub open spec fn choice(
    product: Seq<char>,
    candidates: Seq<Seq<char>>,
    volumes: Seq<Double>,
) -> FrontMonthView {
    if volumes[leader(volumes)].at_most_zero() {
        FrontMonthView::Failed(no_volume(product))
    } else {
        FrontMonthView::Found(candidates[leader(volumes)])
    }
}

/// Where a search stands after the volume that it waited for.
pub open spec fn after_volume(
    search: VolumeSearchView,
    reply: Reply<Vec<AggRow>>,
) -> FrontMonthView {
    let volumes = search.volumes.push(recent_volume(reply));
    if volumes.len() < search.candidates.len() {
        FrontMonthView::Measuring(VolumeSearchView { volumes, ..search })
    } else {
        choice(search.product, search.candidates, volumes)
    }
}

impl ContractSearch {
    /// Starts a search.
    pub fn start(product: &str, now: i64) -> (search: ContractSearch)
        ensures
            FrontMonthView::Listing(search@) == new_search(product@, now),
            search@.wf(),
    {
        ContractSearch {
            product: product.to_owned(),
            now,
            day: civil_date::format_date(now),
            pages_read: 0,
            next_url: None,
            found: Vec::new(),
        }
    }

    /// The request for the page that the search waits for.
    ///
    /// The list is alphabetic and puts butterflies and calendar spreads before the single
    /// contracts, so the first pages may have none of these.
    pub fn request(&self, base_url: &str, api_key: &str) -> (request: Request)
        ensures
            request@ == listing_request(base_url@, api_key@, self@),
    {
        match &self.next_url {
            None => {
                let mut url: String = base_url.to_owned();
                url.append("/futures/v1/contracts");
                Request::get(url).with("product_code", self.product.as_str()).with(
                    "date",
                    self.day.as_str(),
                ).with("limit", text::integer_text(CONTRACT_PAGE_LIMIT as i128).as_str()).with(
                    "apiKey",
                    api_key,
                )
            },
            Some(url) => Request::get(url.clone()).with("apiKey", api_key),
        }
    }

    /// Takes in the page. The list is alphabetic, so a page may have contracts that expire before
    /// those of the pages in front of it: the search reads on while there are pages.
    pub fn listed(self, reply: Reply<ContractListing>) -> (next: FrontMonth)
        requires
            self@.wf(),
        ensures
            next@ == after_listing(self@, reply),
            next@.wf(),
            reply matches Reply::Body(page) ==> (page.results@.len() > 0 && page.next_url is Some
                && self@.pages_read + 1 < 4 ==> (next matches FrontMonth::Listing(search)
                && search@.next_url == Some(page.next_url->0@))),
    {
        proof {
            a_search_finds_single_contracts_after_a_page(self@, reply);
        }
        match reply {
            Reply::Failed(cause) => FrontMonth::Failed(
                text::join4(
                    "Massive-Kontraktliste für '",
                    self.product.as_str(),
                    "' fehlgeschlagen: ",
                    cause.as_str(),
                ),
            ),
            Reply::Unreadable(cause) => FrontMonth::Failed(
                text::join4(
                    "Massive-Kontraktliste für '",
                    self.product.as_str(),
                    "' unlesbar: ",
                    cause.as_str(),
                ),
            ),
            Reply::Body(page) => {
                let more: bool = page.results.len() > 0 && page.next_url.is_some();
                let mut found: Vec<ContractRow> = self.found;
                let mut usable: Vec<ContractRow> = contract::keep_outrights(page.results);
                found.append(&mut usable);
                if more && self.pages_read + 1 < MAX_CONTRACT_PAGES {
                    return FrontMonth::Listing(
                        ContractSearch {
                            product: self.product,
                            now: self.now,
                            day: self.day,
                            pages_read: self.pages_read + 1,
                            next_url: page.next_url,
                            found,
                        },
                    );
                }
                if found.len() > 0 {
                    return FrontMonth::Measuring(
                        VolumeSearch {
                            product: self.product,
                            now: self.now,
                            candidates: contract::nearest_outrights(found),
                            volumes: Vec::new(),
                        },
                    );
                }
                let mut error: String = text::join4(
                    "Massive führt für '",
                    self.product.as_str(),
                    "' am ",
                    self.day.as_str(),
                );
                error.append(
                    " keinen aktiven Einzelkontrakt (die Liste enthält nur Spreads, oder der Produktcode stimmt nicht)",
                );
                FrontMonth::Failed(error)
            },
        }
    }
}

/// Reads the volume of the latest bar.
fn read_volume(reply: Reply<Vec<AggRow>>) -> (volume: Double)
    ensures
        volume == recent_volume(reply),
{
    match reply {
        Reply::Body(rows) if rows.len() > 0 => rows[latest(&rows)].volume,
        _ => Double::zero(),
    }
}

/// Finds the first index of a row that starts last.
fn latest(rows: &Vec<AggRow>) -> (best: usize)
    requires
        rows@.len() > 0,
    ensures
        best == latest_row(rows@),
        best < rows@.len(),
{
    let mut best: usize = 0;
    let mut i: usize = 1;
    while i < rows.len()
        invariant
            1 <= i <= rows@.len(),
            best < i,
            best == latest_row(rows@.take(i as int)),
        decreases rows@.len() - i,
    {
        assert(rows@.take(i + 1).drop_last() =~= rows@.take(i as int));
        if rows[i].window_start > rows[best].window_start {
            best = i;
        }
        i += 1;
    }
    assert(rows@.take(rows@.len() as int) =~= rows@);
    best
}

/// Finds the first index with the highest volume.
fn leading(volumes: &Vec<Double>) -> (best: usize)
    requires
        volumes@.len() > 0,
    ensures
        best == leader(volumes@),
        best < volumes@.len(),
{
    let mut best: usize = 0;
    let mut i: usize = 1;
    while i < volumes.len()
        invariant
            1 <= i <= volumes@.len(),
            best < i,
            best == leader(volumes@.take(i as int)),
        decreases volumes@.len() - i,
    {
        assert(volumes@.take(i + 1).drop_last() =~= volumes@.take(i as int));
        if volumes[i].is_greater(volumes[best]) {
            best = i;
        }
        i += 1;
    }
    assert(volumes@.take(volumes@.len() as int) =~= volumes@);
    best
}

impl VolumeSearch {
    /// The product that the search is for.
    pub fn product(&self) -> (product: &str)
        ensures
            product@ == self@.product,
    {
        self.product.as_str()
    }

    /// The moment of the search.
    pub fn now(&self) -> (now: i64)
        ensures
            now == self@.now,
    {
        self.now
    }

    /// The request for the volume that the search waits for.
    pub fn request(&self, base_url: &str, api_key: &str) -> (request: Request)
        requires
            self@.wf(),
        ensures
            request@ == aggregates::aggs_request(
                base_url@,
                api_key@,
                self@.next(),
                "1day"@,
                None,
                None,
                VOLUME_BARS as nat,
            ),
    {
        let next: &String = &self.candidates[self.volumes.len()];
        aggregates::request_aggs(base_url, api_key, next.as_str(), "1day", None, None, VOLUME_BARS)
    }

    /// Takes in the volume. A volume that could not be read counts as none.
    pub fn measured(self, reply: Reply<Vec<AggRow>>) -> (next: FrontMonth)
        requires
            self@.wf(),
        ensures
            next@ == after_volume(self@, reply),
            next@.wf(),
    {
        let mut volumes: Vec<Double> = self.volumes;
        let volume: Double = read_volume(reply);
        volumes.push(volume);
        assert(text::texts(self.candidates@).len() == self.candidates@.len());
        if volumes.len() < self.candidates.len() {
            return FrontMonth::Measuring(
                VolumeSearch {
                    product: self.product,
                    now: self.now,
                    candidates: self.candidates,
                    volumes,
                },
            );
        }
        let best: usize = leading(&volumes);
        if volumes[best].is_at_most_zero() {
            FrontMonth::Failed(
                text::join3(
                    "Massive meldet für keinen aktiven '",
                    self.product.as_str(),
                    "'-Kontrakt Volumen — ohne Volumen ist kein Frontmonat bestimmbar",
                ),
            )
        } else {
            assert(contract::outright(self@.candidates[best as int]));
            FrontMonth::Found(self.candidates[best].clone())
        }
    }
}

proof fn lemma_leader_is_an_index(volumes: Seq<Double>)
    requires
        volumes.len() > 0,
    ensures
        0 <= leader(volumes) < volumes.len(),
    decreases volumes.len(),
{
    if volumes.len() > 1 {
        lemma_leader_is_an_index(volumes.drop_last());
    }
}

/// Whatever a page lists, only usable contracts are found on it, and only single contracts are
/// measured behind it.
pub proof fn a_search_finds_single_contracts_after_a_page(
    search: ContractSearchView,
    reply: Reply<ContractListing>,
)
    requires
        search.wf(),
    ensures
        after_listing(search, reply).wf(),
{
    if reply is Body {
        let kept = contract::outrights(reply->Body_0.results@);
        let found = search.found + kept;
        contract::the_usable_contracts_are_kept(reply->Body_0.results@);
        assert forall|i: int| 0 <= i < found.len() implies contract::usable(#[trigger] found[i]) by {
            if i < search.found.len() {
                assert(found[i] == search.found[i]);
            } else {
                assert(kept.contains(found[i]));
            }
        }
        lemma_candidates_are_outrights(found);
    }
}

proof fn lemma_candidates_are_outrights(found: Seq<ContractRow>)
    requires
        forall|i: int| 0 <= i < found.len() ==> contract::usable(#[trigger] found[i]),
    ensures
        contract::candidates(found).len() <= contract::FRONT_MONTH_CANDIDATES,
        contract::candidates(found).len() == 0 <==> found.len() == 0,
        forall|k: int|
            0 <= k < contract::candidates(found).len() ==> contract::outright(
                #[trigger] contract::candidates(found)[k],
            ),
{
    contract::candidates_are_found_contracts(found);
    assert forall|k: int| 0 <= k < contract::candidates(found).len() implies contract::outright(
        #[trigger] contract::candidates(found)[k],
    ) by {
        assert(contract::has_ticker(found, contract::candidates(found)[k]));
        let i = choose|i: int|
            0 <= i < found.len() && (#[trigger] found[i]).ticker@ == contract::candidates(found)[k];
        assert(contract::usable(found[i]));
    }
}

/// Whatever volume a contract has, only a single contract is found behind it.
pub proof fn a_search_finds_single_contracts_after_a_volume(
    search: VolumeSearchView,
    reply: Reply<Vec<AggRow>>,
)
    requires
        search.wf(),
    ensures
        after_volume(search, reply).wf(),
{
    lemma_leader_is_an_index(search.volumes.push(recent_volume(reply)));
}

/// No row starts after the latest one, and every row in front of it starts earlier.
pub proof fn no_row_is_later_than_the_latest(rows: Seq<AggRow>)
    requires
        rows.len() > 0,
    ensures
        0 <= latest_row(rows) < rows.len(),
        forall|i: int|
            0 <= i < rows.len() ==> (#[trigger] rows[i]).window_start <= rows[latest_row(
                rows,
            )].window_start,
        forall|i: int|
            0 <= i < latest_row(rows) ==> (#[trigger] rows[i]).window_start < rows[latest_row(
                rows,
            )].window_start,
    decreases rows.len(),
{
    if rows.len() > 1 {
        let rest = rows.drop_last();
        no_row_is_later_than_the_latest(rest);
        let best = latest_row(rest);
        assert(rest[best] == rows[best]);
        assert forall|i: int| 0 <= i < rows.len() implies (#[trigger] rows[i]).window_start
            <= rows[latest_row(rows)].window_start by {
            if i < rest.len() {
                assert(rest[i] == rows[i]);
            }
        }
        assert forall|i: int| 0 <= i < latest_row(rows) implies (#[trigger] rows[i]).window_start
            < rows[latest_row(rows)].window_start by {
            assert(rest[i] == rows[i]);
        }
    }
}

/// Where volumes are numbers, the leading one is the highest, and the first of the highest ones.
pub proof fn the_leader_is_the_first_of_the_highest(volumes: Seq<Double>)
    requires
        volumes.len() > 0,
        forall|i: int| 0 <= i < volumes.len() ==> !(#[trigger] volumes[i]).is_nan(),
    ensures
        0 <= leader(volumes) < volumes.len(),
        forall|i: int|
            0 <= i < volumes.len() ==> (#[trigger] volumes[i]).rank() <= volumes[leader(
                volumes,
            )].rank(),
        forall|i: int|
            0 <= i < leader(volumes) ==> (#[trigger] volumes[i]).rank() < volumes[leader(
                volumes,
            )].rank(),
    decreases volumes.len(),
{
    if volumes.len() > 1 {
        let rest = volumes.drop_last();
        assert forall|i: int| 0 <= i < rest.len() implies !(#[trigger] rest[i]).is_nan() by {
            assert(rest[i] == volumes[i]);
        }
        the_leader_is_the_first_of_the_highest(rest);
        let best = leader(rest);
        assert(rest[best] == volumes[best]);
        assert forall|i: int| 0 <= i < volumes.len() implies (#[trigger] volumes[i]).rank()
            <= volumes[leader(volumes)].rank() by {
            if i < rest.len() {
                assert(rest[i] == volumes[i]);
            }
        }
        assert forall|i: int| 0 <= i < leader(volumes) implies (#[trigger] volumes[i]).rank()
            < volumes[leader(volumes)].rank() by {
            assert(rest[i] == volumes[i]);
        }
    }
}

/// A search from the step `step` on that is given volumes, as far as the replies go.
pub open spec fn volume_run(step: FrontMonthView, replies: Seq<Reply<Vec<AggRow>>>) -> FrontMonthView
    decreases replies.len(),
{
    match step {
        FrontMonthView::Measuring(search) if replies.len() > 0 => volume_run(
            after_volume(search, replies[0]),
            replies.skip(1),
        ),
        _ => step,
    }
}

/// The volumes that replies show.
pub open spec fn volumes_in(replies: Seq<Reply<Vec<AggRow>>>) -> Seq<Double> {
    replies.map_values(|reply: Reply<Vec<AggRow>>| recent_volume(reply))
}

proof fn lemma_volume_run(search: VolumeSearchView, replies: Seq<Reply<Vec<AggRow>>>)
    requires
        search.volumes.len() < search.candidates.len(),
        search.volumes.len() + replies.len() == search.candidates.len(),
    ensures
        volume_run(FrontMonthView::Measuring(search), replies) == choice(
            search.product,
            search.candidates,
            search.volumes + volumes_in(replies),
        ),
    decreases replies.len(),
{
    let volumes = search.volumes.push(recent_volume(replies[0]));
    let rest = replies.skip(1);
    assert(volumes + volumes_in(rest) =~= search.volumes + volumes_in(replies));
    if rest.len() > 0 {
        lemma_volume_run(VolumeSearchView { volumes, ..search }, rest);
    } else {
        assert(volumes + volumes_in(rest) =~= volumes);
        let next = after_volume(search, replies[0]);
        assert(volume_run(next, rest) == next);
    }
}

/// A search from the step `step` on that is given pages, as far as the replies go.
pub open spec fn listing_run(
    step: FrontMonthView,
    replies: Seq<Reply<ContractListing>>,
) -> FrontMonthView
    decreases replies.len(),
{
    match step {
        FrontMonthView::Listing(search) if replies.len() > 0 => listing_run(
            after_listing(search, replies[0]),
            replies.skip(1),
        ),
        _ => step,
    }
}

/// A search never asks for a page behind the last one that it may read.
pub proof fn the_pages_come_to_an_end(
    search: ContractSearchView,
    replies: Seq<Reply<ContractListing>>,
)
    requires
        search.wf(),
        search.pages_read + replies.len() >= MAX_CONTRACT_PAGES,
    ensures
        listing_run(FrontMonthView::Listing(search), replies) !is Listing,
    decreases replies.len(),
{
    let step = after_listing(search, replies[0]);
    if let FrontMonthView::Listing(next) = step {
        the_pages_come_to_an_end(next, replies.skip(1));
    } else {
        assert(listing_run(step, replies.skip(1)) == step);
    }
}

/// Replies that all have a page.
pub open spec fn bodies(pages: Seq<ContractListing>) -> Seq<Reply<ContractListing>> {
    pages.map_values(|page: ContractListing| Reply::Body(page))
}

/// The usable contracts of all pages, in their order.
pub open spec fn usable_in(pages: Seq<ContractListing>) -> Seq<ContractRow>
    decreases pages.len(),
{
    if pages.len() == 0 {
        Seq::empty()
    } else {
        contract::outrights(pages[0].results@) + usable_in(pages.skip(1))
    }
}

/// Whether these are the pages that a search reads: each leads on to the next, and the last one ends
/// the list or is the last one that may be read.
pub open spec fn whole_list(search: ContractSearchView, pages: Seq<ContractListing>) -> bool {
    &&& 0 < pages.len() <= MAX_CONTRACT_PAGES - search.pages_read
    &&& forall|i: int| 0 <= i < pages.len() - 1 ==> leads_on(#[trigger] pages[i])
    &&& leads_on(pages.last()) ==> search.pages_read + pages.len() == MAX_CONTRACT_PAGES
}

/// The search reads the list to its end, within the pages that it may read, and goes on with the
/// usable contracts of all the pages.
pub proof fn the_list_is_read_to_its_end(search: ContractSearchView, pages: Seq<ContractListing>)
    requires
        search.wf(),
        whole_list(search, pages),
    ensures
        listing_run(FrontMonthView::Listing(search), bodies(pages)) == conclude(
            search,
            search.found + usable_in(pages),
        ),
    decreases pages.len(),
{
    let replies = bodies(pages);
    let rest = pages.skip(1);
    let found = search.found + contract::outrights(pages[0].results@);
    assert(replies.skip(1) =~= bodies(rest));
    assert(replies[0] == Reply::Body(pages[0]));
    assert(found + usable_in(rest) =~= search.found + usable_in(pages));
    if rest.len() > 0 {
        assert(leads_on(pages[0]));
        let next = ContractSearchView {
            pages_read: search.pages_read + 1,
            next_url: optional_text(pages[0].next_url),
            found,
            ..search
        };
        assert(after_listing(search, replies[0]) == FrontMonthView::Listing(next));
        a_search_finds_single_contracts_after_a_page(search, replies[0]);
        assert forall|i: int| 0 <= i < rest.len() - 1 implies leads_on(#[trigger] rest[i]) by {
            assert(rest[i] == pages[i + 1]);
        }
        assert(rest.last() == pages.last());
        the_list_is_read_to_its_end(next, rest);
    } else {
        assert(usable_in(rest) =~= Seq::empty());
        assert(found =~= search.found + usable_in(pages));
        let end = after_listing(search, replies[0]);
        assert(pages.last() == pages[0]);
        assert(listing_run(end, replies.skip(1)) == end);
    }
}

/// Every usable contract of every page is considered.
pub proof fn all_usable_contracts_are_considered(pages: Seq<ContractListing>, i: int, k: int)
    requires
        0 <= i < pages.len(),
        0 <= k < pages[i].results@.len(),
        contract::usable(pages[i].results@[k]),
    ensures
        usable_in(pages).contains(pages[i].results@[k]),
    decreases pages.len(),
{
    let row = pages[i].results@[k];
    let kept = contract::outrights(pages[0].results@);
    let rest = usable_in(pages.skip(1));
    if i == 0 {
        contract::the_usable_contracts_are_kept(pages[0].results@);
        assert(pages[0].results@.contains(row));
        assert(kept.contains(row));
        let j = choose|j: int| 0 <= j < kept.len() && kept[j] == row;
        assert(usable_in(pages)[j] == row);
    } else {
        assert(pages.skip(1)[i - 1] == pages[i]);
        all_usable_contracts_are_considered(pages.skip(1), i - 1, k);
        let j = choose|j: int| 0 <= j < rest.len() && rest[j] == row;
        assert(usable_in(pages)[kept.len() + j] == row);
    }
}

/// Nothing but usable contracts of the pages is considered.
pub proof fn only_usable_contracts_are_considered(pages: Seq<ContractListing>, row: ContractRow)
    requires
        usable_in(pages).contains(row),
    ensures
        contract::usable(row),
        exists|i: int| 0 <= i < pages.len() && (#[trigger] pages[i]).results@.contains(row),
    decreases pages.len(),
{
    let kept = contract::outrights(pages[0].results@);
    let rest = usable_in(pages.skip(1));
    let j = choose|j: int| 0 <= j < usable_in(pages).len() && usable_in(pages)[j] == row;
    if j < kept.len() {
        assert(kept[j] == row);
        assert(kept.contains(row));
        contract::the_usable_contracts_are_kept(pages[0].results@);
        assert(pages[0].results@.contains(row));
    } else {
        assert(rest[j - kept.len()] == row);
        only_usable_contracts_are_considered(pages.skip(1), row);
        let i = choose|i: int|
            0 <= i < pages.skip(1).len() && (#[trigger] pages.skip(1)[i]).results@.contains(row);
        assert(pages[i + 1] == pages.skip(1)[i]);
    }
}

/// The front month is the most liquid one: once the list is read and the volumes of the candidates
/// are known, the search finds the candidate with the highest volume, the first one where several
/// have it. It fails exactly where no candidate has a volume above zero.
pub proof fn the_front_month_is_the_most_liquid(
    search: ContractSearchView,
    pages: Seq<ContractListing>,
    replies: Seq<Reply<Vec<AggRow>>>,
)
    requires
        search.wf(),
        whole_list(search, pages),
        (search.found + usable_in(pages)).len() > 0,
        replies.len() == contract::candidates(search.found + usable_in(pages)).len(),
        forall|i: int| 0 <= i < replies.len() ==> !recent_volume(#[trigger] replies[i]).is_nan(),
    ensures
        ({
            let candidates = contract::candidates(search.found + usable_in(pages));
            let volumes = volumes_in(replies);
            match volume_run(listing_run(FrontMonthView::Listing(search), bodies(pages)), replies) {
                FrontMonthView::Found(ticker) => {
                    &&& contract::outright(ticker)
                    &&& exists|best: int|
                        {
                            &&& 0 <= best < candidates.len()
                            &&& ticker == candidates[best]
                            &&& (#[trigger] volumes[best]).rank() > 0
                            &&& forall|i: int|
                                0 <= i < volumes.len() ==> (#[trigger] volumes[i]).rank()
                                    <= volumes[best].rank()
                            &&& forall|i: int|
                                0 <= i < best ==> (#[trigger] volumes[i]).rank()
                                    < volumes[best].rank()
                        }
                },
                FrontMonthView::Failed(error) => {
                    &&& error == no_volume(search.product)
                    &&& forall|i: int|
                        0 <= i < volumes.len() ==> (#[trigger] volumes[i]).at_most_zero()
                },
                _ => false,
            }
        }),
{
    let found = search.found + usable_in(pages);
    let candidates = contract::candidates(found);
    let volumes = volumes_in(replies);
    let measuring = VolumeSearchView {
        product: search.product,
        now: search.now,
        candidates,
        volumes: Seq::empty(),
    };
    the_list_is_read_to_its_end(search, pages);
    assert forall|i: int| 0 <= i < found.len() implies contract::usable(#[trigger] found[i]) by {
        if i < search.found.len() {
            assert(found[i] == search.found[i]);
        } else {
            assert(usable_in(pages).contains(found[i]));
            only_usable_contracts_are_considered(pages, found[i]);
        }
    }
    lemma_candidates_are_outrights(found);
    lemma_volume_run(measuring, replies);
    assert(Seq::<Double>::empty() + volumes =~= volumes);
    assert forall|i: int| 0 <= i < volumes.len() implies !(#[trigger] volumes[i]).is_nan() by {
        assert(volumes[i] == recent_volume(replies[i]));
    }
    the_leader_is_the_first_of_the_highest(volumes);
    let best = leader(volumes);
    assert(contract::outright(candidates[best]));
    assert(volumes[best].rank() == volumes[best].rank());
    if volumes[best].at_most_zero() {
        assert forall|i: int| 0 <= i < volumes.len() implies (
        #[trigger] volumes[i]).at_most_zero() by {
            assert(volumes[i].rank() <= volumes[best].rank());
        }
    }
}

/// A list fails to give candidates exactly where none of its pages has a usable contract, and then
/// the error says so.
pub proof fn a_list_without_single_contracts_is_an_error(
    search: ContractSearchView,
    pages: Seq<ContractListing>,
)
    requires
        search.wf(),
        search.found.len() == 0,
        whole_list(search, pages),
    ensures
        ({
            let end = listing_run(FrontMonthView::Listing(search), bodies(pages));
            if forall|i: int, k: int|
                0 <= i < pages.len() && 0 <= k < pages[i].results@.len() ==> !contract::usable(
                    #[trigger] pages[i].results@[k],
                ) {
                end == FrontMonthView::Failed(no_contract(search.product, search.day))
            } else {
                end is Measuring
            }
        }),
{
    the_list_is_read_to_its_end(search, pages);
    let found = search.found + usable_in(pages);
    if forall|i: int, k: int|
        0 <= i < pages.len() && 0 <= k < pages[i].results@.len() ==> !contract::usable(
            #[trigger] pages[i].results@[k],
        ) {
        if found.len() > 0 {
            let row = usable_in(pages)[0];
            assert(usable_in(pages).contains(row));
            only_usable_contracts_are_considered(pages, row);
            let i = choose|i: int|
                0 <= i < pages.len() && (#[trigger] pages[i]).results@.contains(row);
            let k = choose|k: int| 0 <= k < pages[i].results@.len() && pages[i].results@[k] == row;
            assert(!contract::usable(pages[i].results@[k]));
        }
    } else {
        let (i, k) = choose|i: int, k: int|
            0 <= i < pages.len() && 0 <= k < pages[i].results@.len() && contract::usable(
                #[trigger] pages[i].results@[k],
            );
        all_usable_contracts_are_considered(pages, i, k);
    }
}

} // verus!
