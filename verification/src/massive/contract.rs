//! The contracts that Massive lists for a product.
use vstd::prelude::*;
use vstd::string::*;

use crate::civil_date;
use crate::order;
use crate::order::Ranked;
use crate::text;

verus! {

/// How many of the contracts that expire next are asked for their volume. The most liquid one is
/// always among the first; everything behind them would only cost requests.
pub const FRONT_MONTH_CANDIDATES: usize = 4;

/// One line of the contract list.
#[derive(Debug)]
pub struct ContractRow {
    pub ticker: String,
    pub active: bool,
    /// The last trading day as `YYYY-MM-DD`, [`far_future`] where the list does not name it.
    pub last_trade_date: String,
}

/// One page of the contract list.
#[derive(Debug)]
pub struct ContractListing {
    pub results: Vec<ContractRow>,
    /// The address of the next page.
    pub next_url: Option<String>,
}

/// Contracts are ordered by their last trading day.
impl Ranked for ContractRow {
    open spec fn ahead(self, other: ContractRow) -> bool {
        text::text_less(self.last_trade_date@, other.last_trade_date@)
    }

    proof fn places_form_a_line(a: ContractRow, b: ContractRow, c: ContractRow) {
        text::texts_form_a_line(a.last_trade_date@, b.last_trade_date@, c.last_trade_date@);
    }

    fn is_ahead(&self, other: &ContractRow) -> (b: bool) {
        text::comes_before(self.last_trade_date.as_str(), other.last_trade_date.as_str())
    }
}

/// The ticker of a single contract has neither the `:` of a butterfly (`NG:BF F7-G7-H7`) nor the
/// `-` of a calendar spread (`NGF7-NGF8`).
pub open spec fn outright(ticker: Seq<char>) -> bool {
    !ticker.contains(':') && !ticker.contains('-')
}

/// A contract that can become the front month: it is active and a single contract.
pub open spec fn usable(row: ContractRow) -> bool {
    row.active && outright(row.ticker@)
}

/// The contracts of a page that can become the front month.
pub open spec fn outrights(rows: Seq<ContractRow>) -> Seq<ContractRow> {
    rows.filter(|row: ContractRow| usable(row))
}

/// The tickers of contracts.
pub open spec fn tickers(rows: Seq<ContractRow>) -> Seq<Seq<char>> {
    rows.map_values(|row: ContractRow| row.ticker@)
}

/// The first few items.
pub open spec fn first<T>(s: Seq<T>, count: int) -> Seq<T> {
    if s.len() <= count { s } else { s.take(count) }
}

/// The tickers among which the front month is chosen: those of the found contracts that expire next.
pub open spec fn candidates(found: Seq<ContractRow>) -> Seq<Seq<char>> {
    tickers(first(order::in_order(found), FRONT_MONTH_CANDIDATES as int))
}

/// The last trading day of a contract for which none is named: it sorts behind the others.
pub fn far_future() -> (date: String)
    ensures
        date@ == "9999-12-31"@,
{
    "9999-12-31".to_owned()
}

/// Whether a ticker is that of a single contract, neither a butterfly nor a calendar spread.
pub fn is_outright(ticker: &str) -> (b: bool)
    ensures
        b == outright(ticker@),
{
    !text::contains_char(ticker, ':') && !text::contains_char(ticker, '-')
}

/// Picks the usable contracts of a page.
pub fn keep_outrights(rows: Vec<ContractRow>) -> (kept: Vec<ContractRow>)
    ensures
        kept@ == outrights(rows@),
{
    let ghost all = rows@;
    let mut kept: Vec<ContractRow> = Vec::new();
    let ghost pred = |row: ContractRow| usable(row);
    assert(all.take(0).filter(pred) =~= Seq::empty()) by {
        reveal(Seq::filter);
    }
    for row in it: rows
        invariant
            it.seq() == all,
            pred == (|row: ContractRow| usable(row)),
            kept@ == all.take(it.index() as int).filter(pred),
    {
        let ghost i = it.index() as int;
        assert(all.take(i + 1).drop_last() =~= all.take(i));
        assert(all.take(i + 1).last() == row);
        assert(all.take(i + 1).filter(pred) == if pred(row) {
            all.take(i).filter(pred).push(row)
        } else {
            all.take(i).filter(pred)
        }) by {
            reveal(Seq::filter);
        }
        if row.active && is_outright(row.ticker.as_str()) {
            kept.push(row);
        }
    }
    assert(all.take(all.len() as int) =~= all);
    kept
}

/// The tickers among which the front month is chosen.
pub fn nearest_outrights(found: Vec<ContractRow>) -> (out: Vec<String>)
    ensures
        text::texts(out@) == candidates(found@),
{
    let sorted: Vec<ContractRow> = order::sort(found);
    let mut out: Vec<String> = Vec::new();
    let mut i: usize = 0;
    while i < sorted.len() && i < FRONT_MONTH_CANDIDATES
        invariant
            i <= sorted@.len(),
            i <= FRONT_MONTH_CANDIDATES,
            text::texts(out@) =~= tickers(sorted@.take(i as int)),
        decreases sorted@.len() - i,
    {
        let ticker: String = sorted[i].ticker.clone();
        let ghost before = text::texts(out@);
        out.push(ticker);
        assert(text::texts(out@) =~= before.push(ticker@));
        assert(tickers(sorted@.take(i + 1)) =~= tickers(sorted@.take(i as int)).push(
            sorted@[i as int].ticker@,
        ));
        i += 1;
    }
    assert(sorted@.take(i as int) =~= first(sorted@, FRONT_MONTH_CANDIDATES as int));
    out
}

/// The contracts that are kept of a page are its usable ones, all of them.
pub proof fn the_usable_contracts_are_kept(rows: Seq<ContractRow>)
    ensures
        forall|row: ContractRow| #[trigger]
            outrights(rows).contains(row) <==> rows.contains(row) && usable(row),
        outrights(rows).len() == 0 <==> forall|i: int|
            0 <= i < rows.len() ==> !usable(#[trigger] rows[i]),
{
    broadcast use vstd::seq_lib::group_filter_ensures;

    let pred = |row: ContractRow| usable(row);
    let kept = outrights(rows);
    assert forall|row: ContractRow| #[trigger] kept.contains(row) <==> rows.contains(row) && usable(
        row,
    ) by {
        if kept.contains(row) {
            rows.lemma_filter_contains_rev(pred, row);
            let k = choose|k: int| 0 <= k < kept.len() && kept[k] == row;
            assert(pred(kept[k]));
        }
        if rows.contains(row) && usable(row) {
            let i = choose|i: int| 0 <= i < rows.len() && rows[i] == row;
            assert(pred(rows[i]));
        }
    }
    if kept.len() > 0 {
        assert(kept.contains(kept[0]));
        let i = choose|i: int| 0 <= i < rows.len() && rows[i] == kept[0];
        assert(usable(rows[i]));
    } else {
        assert forall|i: int| 0 <= i < rows.len() implies !usable(#[trigger] rows[i]) by {
            assert(rows.contains(rows[i]));
            assert(!kept.contains(rows[i]));
        }
    }
}

/// Whether one of the contracts has this ticker.
pub open spec fn has_ticker(rows: Seq<ContractRow>, ticker: Seq<char>) -> bool {
    exists|i: int| 0 <= i < rows.len() && (#[trigger] rows[i]).ticker@ == ticker
}

/// Every candidate is the ticker of a found contract, and there are candidates wherever a contract
/// was found.
pub proof fn candidates_are_found_contracts(found: Seq<ContractRow>)
    ensures
        candidates(found).len() <= FRONT_MONTH_CANDIDATES,
        candidates(found).len() == 0 <==> found.len() == 0,
        forall|k: int|
            0 <= k < candidates(found).len() ==> has_ticker(found, #[trigger] candidates(found)[k]),
{
    broadcast use vstd::seq_lib::group_to_multiset_ensures;

    let sorted = order::in_order(found);
    order::in_order_is_a_stable_sort(found);
    assert forall|k: int| 0 <= k < candidates(found).len() implies has_ticker(
        found,
        #[trigger] candidates(found)[k],
    ) by {
        let row = sorted[k];
        assert(sorted.contains(row));
        assert(found.to_multiset().count(row) > 0);
        assert(found.contains(row));
        let i = choose|i: int| 0 <= i < found.len() && found[i] == row;
        assert(found[i].ticker@ == candidates(found)[k]);
    }
}

/// No contract that is left out expires before a candidate.
pub proof fn nothing_nearer_is_left_out(found: Seq<ContractRow>, i: int)
    requires
        0 <= i < found.len(),
    ensures
        candidates(found).contains(found[i].ticker@) || forall|k: int|
            0 <= k < candidates(found).len() ==> !found[i].ahead(
                #[trigger] order::in_order(found)[k],
            ),
{
    broadcast use vstd::seq_lib::group_to_multiset_ensures;

    let sorted = order::in_order(found);
    order::in_order_is_a_stable_sort(found);
    assert(found.contains(found[i]));
    assert(found.to_multiset().count(found[i]) > 0);
    assert(sorted.contains(found[i]));
    let j = choose|j: int| 0 <= j < sorted.len() && sorted[j] == found[i];
    if j < candidates(found).len() {
        assert(candidates(found)[j] == found[i].ticker@);
    }
}

/// Where contracts name days of the calendar, the one that expires earlier is ahead.
pub proof fn contracts_are_ordered_by_their_days(
    a: ContractRow,
    b: ContractRow,
    a_day: civil_date::Civil,
    b_day: civil_date::Civil,
)
    requires
        a_day.valid(),
        b_day.valid(),
        0 <= a_day.year <= 9999,
        0 <= b_day.year <= 9999,
        a.last_trade_date@ == civil_date::date_text(a_day.year, a_day.month, a_day.day),
        b.last_trade_date@ == civil_date::date_text(b_day.year, b_day.month, b_day.day),
    ensures
        a.ahead(b) <==> a_day.number() < b_day.number(),
{
    civil_date::dates_are_ordered_as_days(a_day, b_day);
}

/// A contract without a last trading day sorts behind every contract with one: no date from the
/// year 0 to the year 9999, with a month from 01 to 12 and a day from 01 to 31, comes behind
/// [`far_future`].
pub proof fn no_date_is_behind_the_far_future(year: int, month: int, day: int)
    requires
        0 <= year <= 9999,
        1 <= month <= 12,
        1 <= day <= 31,
    ensures
        !text::text_less("9999-12-31"@, civil_date::date_text(year, month, day)),
{
    reveal_strlit("9999-12-31");
    let last = civil_date::Civil { year: 9999, month: 12, day: 31 };
    let far = civil_date::date_text(last.year, last.month, last.day);
    civil_date::date_characters(last.year, last.month, last.day);
    assert(far =~= "9999-12-31"@);
    let date = civil_date::Civil { year, month, day };
    if date.before(last) {
        civil_date::smaller_fields_come_first(date, last);
    } else {
        text::texts_form_a_line(far, far, far);
    }
}

} // verus!
