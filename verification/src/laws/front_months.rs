//! The search for the front month of a product at Massive.
use vstd::prelude::*;
use vstd::string::*;

use crate::civil_date;
use crate::double::Double;
use crate::laws::numbers;
use crate::laws::sorting;
use crate::massive::adapter::MassiveState;
use crate::massive::aggregates::AggRow;
use crate::massive::contract;
use crate::massive::contract::{ContractListing, ContractRow};
use crate::massive::front_month;
use crate::massive::front_month::{ContractSearchView, FrontMonthView, VolumeSearchView};
use crate::order;
use crate::request::Reply;
use crate::text;

verus! {

/// A front month that was found less than an hour before holds. Otherwise a search starts with the
/// first page of the contract list, for the day of the moment.
pub proof fn a_search_starts_where_no_front_month_holds(
    state: MassiveState,
    product: Seq<char>,
    now: i64,
)
    ensures
        if state.front_month.contains_key(product) && now - state.front_month[product].1 < 3600 {
            state.search(product, now) == FrontMonthView::Found(state.front_month[product].0)
        } else {
            state.search(product, now) matches FrontMonthView::Listing(search) && {
                &&& search.product == product
                &&& search.now == now
                &&& search.day == civil_date::timestamp_text(now as int)
                &&& search.pages_read == 0
                &&& search.next_url is None
                &&& search.found.len() == 0
            }
        },
{
}

/// The request for a page of the contract list, parameter by parameter: the first page names the
/// product, the day and the size of a page, and every further one is the address that the page in
/// front of it gave.
pub proof fn listing_requests(base_url: Seq<char>, api_key: Seq<char>, search: ContractSearchView)
    ensures
        ({
            let r = front_month::listing_request(base_url, api_key, search);
            match search.next_url {
                None => {
                    &&& r.url == base_url + "/futures/v1/contracts"@
                    &&& r.query.len() == 4
                    &&& r.query[0] == ("product_code"@, search.product)
                    &&& r.query[1] == ("date"@, search.day)
                    &&& r.query[2] == ("limit"@, seq!['2', '5', '0'])
                    &&& r.query[3] == ("apiKey"@, api_key)
                },
                Some(url) => {
                    &&& r.url == url
                    &&& r.query.len() == 1
                    &&& r.query[0] == ("apiKey"@, api_key)
                },
            }
        }),
{
    numbers::numerals_grow_by_a_digit(250);
    numbers::numerals_grow_by_a_digit(25);
    numbers::numerals_grow_by_a_digit(2);
    assert(text::decimal(250) =~= seq!['2', '5', '0']);
}

/// Of a page those contracts are kept, in their order, that are active and whose ticker has neither a
/// colon nor a dash: `at` has their places.
pub proof fn active_single_contracts_are_kept(rows: Seq<ContractRow>) -> (at: Seq<int>)
    ensures
        at.len() == contract::outrights(rows).len(),
        forall|k: int|
            0 <= k < at.len() ==> 0 <= #[trigger] at[k] < rows.len() && contract::outrights(rows)[k]
                == rows[at[k]],
        forall|k: int, l: int| 0 <= k < l < at.len() ==> #[trigger] at[k] < #[trigger] at[l],
        forall|i: int|
            0 <= i < rows.len() ==> (#[trigger] at.contains(i) <==> rows[i].active
                && !rows[i].ticker@.contains(':') && !rows[i].ticker@.contains('-')),
    decreases rows.len(),
{
    reveal(Seq::filter);
    if rows.len() == 0 {
        Seq::empty()
    } else {
        let rest = rows.drop_last();
        let last = rest.len() as int;
        let before = active_single_contracts_are_kept(rest);
        let kept = contract::outrights(rows);
        let row = rows.last();
        let keep = row.active && !row.ticker@.contains(':') && !row.ticker@.contains('-');
        let at = if keep { before.push(last) } else { before };
        assert(kept == if keep {
            contract::outrights(rest).push(row)
        } else {
            contract::outrights(rest)
        });
        assert forall|k: int| 0 <= k < at.len() implies 0 <= #[trigger] at[k] < rows.len()
            && kept[k] == rows[at[k]] by {
            if k < before.len() {
                assert(at[k] == before[k]);
                assert(rest[before[k]] == rows[before[k]]);
            }
        }
        assert forall|k: int, l: int| 0 <= k < l < at.len() implies #[trigger] at[k]
            < #[trigger] at[l] by {
            assert(at[k] == before[k]);
            if l < before.len() {
                assert(at[l] == before[l]);
            }
        }
        assert forall|i: int| 0 <= i < rows.len() implies (#[trigger] at.contains(i)
            <==> rows[i].active && !rows[i].ticker@.contains(':') && !rows[i].ticker@.contains(
            '-',
        )) by {
            if i < last {
                assert(rest[i] == rows[i]);
                if at.contains(i) {
                    let k = choose|k: int| 0 <= k < at.len() && at[k] == i;
                    assert(before[k] == i);
                    assert(before.contains(i));
                }
                if before.contains(i) {
                    let k = choose|k: int| 0 <= k < before.len() && before[k] == i;
                    assert(at[k] == i);
                }
            } else if keep {
                assert(at[before.len() as int] == last);
            } else if at.contains(last) {
                let k = choose|k: int| 0 <= k < at.len() && at[k] == last;
                assert(before[k] < rest.len());
            }
        }
        at
    }
}

/// A page that has a row and names a next page is followed by that page, however many rows it has,
/// as long as it is not the fourth. What was found stays, and what is kept of the page comes behind
/// it.
pub proof fn a_page_is_followed_by_the_next(search: ContractSearchView, page: ContractListing)
    requires
        page.results@.len() > 0,
        page.next_url is Some,
        search.pages_read + 1 < 4,
    ensures
        front_month::after_listing(search, Reply::Body(page)) matches FrontMonthView::Listing(next) && {
            &&& next.next_url == Some(page.next_url->0@)
            &&& next.pages_read == search.pages_read + 1
            &&& next.product == search.product
            &&& next.now == search.now
            &&& next.day == search.day
            &&& next.found == search.found + contract::outrights(page.results@)
        },
{
}

/// A page without rows, one that names no next page, and the fourth page end the list. Then the
/// volumes of the contracts that expire next are asked for, or, where no contract was found, the
/// search fails.
pub proof fn the_last_page_ends_the_list(search: ContractSearchView, page: ContractListing)
    requires
        page.results@.len() == 0 || page.next_url is None || search.pages_read + 1 >= 4,
    ensures
        ({
            let found = search.found + contract::outrights(page.results@);
            let next = front_month::after_listing(search, Reply::Body(page));
            if found.len() == 0 {
                next == FrontMonthView::Failed(
                    "Massive führt für '"@ + search.product + "' am "@ + search.day
                        + " keinen aktiven Einzelkontrakt (die Liste enthält nur Spreads, oder der Produktcode stimmt nicht)"@,
                )
            } else {
                next matches FrontMonthView::Measuring(measuring) && {
                    &&& measuring.product == search.product
                    &&& measuring.now == search.now
                    &&& measuring.candidates == contract::candidates(found)
                    &&& measuring.volumes.len() == 0
                }
            }
        }),
{
}

/// A page that could not be had ends the search with an error that names the product and the cause.
pub proof fn a_missing_page_is_an_error(search: ContractSearchView, reply: Reply<ContractListing>)
    ensures
        reply matches Reply::Failed(cause) ==> front_month::after_listing(search, reply)
            == FrontMonthView::Failed(
            "Massive-Kontraktliste für '"@ + search.product + "' fehlgeschlagen: "@ + cause@,
        ),
        reply matches Reply::Unreadable(cause) ==> front_month::after_listing(search, reply)
            == FrontMonthView::Failed(
            "Massive-Kontraktliste für '"@ + search.product + "' unlesbar: "@ + cause@,
        ),
{
}

/// The candidates are the four contracts that expire next, or all where there are fewer: `from` has
/// the places of the contracts, ordered by the texts of their last trading days, those of one day in
/// the order in which they were found.
pub proof fn candidates_expire_next(found: Seq<ContractRow>) -> (from: Seq<int>)
    ensures
        from.len() == found.len(),
        contract::candidates(found).len() == if found.len() < 4 { found.len() } else { 4 },
        forall|k: int|
            0 <= k < contract::candidates(found).len() ==> (#[trigger] contract::candidates(
                found,
            )[k]) == found[from[k]].ticker@,
        forall|i: int| 0 <= i < found.len() ==> 0 <= #[trigger] from[i] < found.len(),
        forall|v: int| 0 <= v < found.len() ==> #[trigger] from.contains(v),
        forall|i: int, k: int|
            0 <= i < k < found.len() ==> {
                ||| text::text_less(
                    found[#[trigger] from[i]].last_trade_date@,
                    found[#[trigger] from[k]].last_trade_date@,
                )
                ||| !text::text_less(
                    found[from[k]].last_trade_date@,
                    found[from[i]].last_trade_date@,
                ) && from[i] < from[k]
            },
{
    let from = sorting::items_are_rearranged(found);
    assert forall|k: int| 0 <= k < contract::candidates(found).len() implies (
    #[trigger] contract::candidates(found)[k]) == found[from[k]].ticker@ by {
        assert(order::in_order(found)[k] == found[from[k]]);
    }
    from
}

/// The volume of a reply is that of the row that starts last, the first of these, whose place is
/// returned. A reply without rows, or none at all, shows no volume.
pub proof fn the_latest_row_has_the_volume(reply: Reply<Vec<AggRow>>) -> (latest: int)
    ensures
        match reply {
            Reply::Body(rows) if rows@.len() > 0 => {
                &&& 0 <= latest < rows@.len()
                &&& front_month::recent_volume(reply) == rows@[latest].volume
                &&& forall|i: int|
                    0 <= i < rows@.len() ==> (#[trigger] rows@[i]).window_start
                        <= rows@[latest].window_start
                &&& forall|i: int|
                    0 <= i < latest ==> (#[trigger] rows@[i]).window_start
                        < rows@[latest].window_start
            },
            _ => front_month::recent_volume(reply).bits == 0,
        },
{
    match reply {
        Reply::Body(rows) if rows@.len() > 0 => {
            front_month::no_row_is_later_than_the_latest(rows@);
            front_month::latest_row(rows@)
        },
        _ => 0,
    }
}

/// Volumes are taken in one by one, in the order of the candidates, until all are known.
pub proof fn volumes_are_taken_in_one_by_one(search: VolumeSearchView, reply: Reply<Vec<AggRow>>)
    requires
        search.volumes.len() + 1 < search.candidates.len(),
    ensures
        front_month::after_volume(search, reply) matches FrontMonthView::Measuring(next) && {
            &&& next.product == search.product
            &&& next.now == search.now
            &&& next.candidates == search.candidates
            &&& next.volumes == search.volumes.push(front_month::recent_volume(reply))
            &&& next.next() == search.candidates[search.volumes.len() as int + 1]
        },
        search.next() == search.candidates[search.volumes.len() as int],
{
}

/// Once the last volume is known, the candidate with the highest volume is found, the first one of
/// several. Where none is above zero, the search fails.
pub proof fn the_highest_volume_decides(search: VolumeSearchView, reply: Reply<Vec<AggRow>>) -> (best:
    int)
    requires
        search.volumes.len() + 1 == search.candidates.len(),
        forall|i: int| 0 <= i < search.volumes.len() ==> !(#[trigger] search.volumes[i]).is_nan(),
        !front_month::recent_volume(reply).is_nan(),
    ensures
        ({
            let volumes = search.volumes.push(front_month::recent_volume(reply));
            &&& 0 <= best < volumes.len()
            &&& forall|i: int|
                0 <= i < volumes.len() ==> (#[trigger] volumes[i]).rank() <= volumes[best].rank()
            &&& forall|i: int|
                0 <= i < best ==> (#[trigger] volumes[i]).rank() < volumes[best].rank()
            &&& front_month::after_volume(search, reply) == if volumes[best].rank() > 0 {
                FrontMonthView::Found(search.candidates[best])
            } else {
                FrontMonthView::Failed(
                    "Massive meldet für keinen aktiven '"@ + search.product
                        + "'-Kontrakt Volumen — ohne Volumen ist kein Frontmonat bestimmbar"@,
                )
            }
        }),
{
    let volumes = search.volumes.push(front_month::recent_volume(reply));
    assert forall|i: int| 0 <= i < volumes.len() implies !(#[trigger] volumes[i]).is_nan() by {
        if i < search.volumes.len() {
            assert(volumes[i] == search.volumes[i]);
        }
    }
    front_month::the_leader_is_the_first_of_the_highest(volumes);
    let best = front_month::leader(volumes);
    assert(!volumes[best].is_nan());
    best
}

/// A volume leads over all the ones in front of it exactly where it exceeds the one that led before,
/// and the first one leads alone, also where a volume is no number. The one that leads in the end is
/// chosen unless it is zero or below.
pub proof fn a_volume_leads_where_it_exceeds(
    volumes: Seq<Double>,
    volume: Double,
    search: VolumeSearchView,
    reply: Reply<Vec<AggRow>>,
)
    requires
        volumes.len() > 0,
        search.volumes.len() + 1 == search.candidates.len(),
    ensures
        front_month::leader(seq![volume]) == 0,
        front_month::leader(volumes.push(volume)) == if volume.exceeds(
            volumes[front_month::leader(volumes)],
        ) {
            volumes.len() as int
        } else {
            front_month::leader(volumes)
        },
        ({
            let all = search.volumes.push(front_month::recent_volume(reply));
            let best = front_month::leader(all);
            &&& 0 <= best < all.len()
            &&& front_month::after_volume(search, reply) is Failed <==> all[best].at_most_zero()
            &&& !all[best].at_most_zero() ==> front_month::after_volume(search, reply)
                == FrontMonthView::Found(search.candidates[best])
        }),
{
    assert(volumes.push(volume).drop_last() =~= volumes);
    lemma_leader_is_an_index(volumes);
    lemma_leader_is_an_index(search.volumes.push(front_month::recent_volume(reply)));
}

proof fn lemma_leader_is_an_index(volumes: Seq<Double>)
    requires
        volumes.len() > 0,
    ensures
        0 <= front_month::leader(volumes) < volumes.len(),
    decreases volumes.len(),
{
    if volumes.len() > 1 {
        lemma_leader_is_an_index(volumes.drop_last());
    }
}

/// A front month that was found is kept for its product with the moment of the search. Nothing else
/// changes, and nothing changes where none was found.
pub proof fn a_found_front_month_is_kept(
    state: MassiveState,
    search: VolumeSearchView,
    reply: Reply<Vec<AggRow>>,
)
    ensures
        ({
            let after = state.measured(search, reply);
            &&& after.api_key == state.api_key
            &&& after.base_url == state.base_url
            &&& after.subscriptions == state.subscriptions
            &&& match front_month::after_volume(search, reply) {
                FrontMonthView::Found(ticker) => {
                    &&& after.front_month.contains_key(search.product)
                    &&& after.front_month[search.product] == (ticker, search.now)
                    &&& forall|other: Seq<char>|
                        other != search.product ==> (#[trigger] after.front_month.contains_key(other)
                            <==> state.front_month.contains_key(other))
                    &&& forall|other: Seq<char>|
                        other != search.product && #[trigger] state.front_month.contains_key(other)
                            ==> after.front_month[other] == state.front_month[other]
                },
                _ => after == state,
            }
        }),
{
}

} // verus!
