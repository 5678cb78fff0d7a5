//! How items are put in order.
use vstd::prelude::*;

use crate::bar::Bar;
use crate::order;
use crate::order::Ranked;

verus! {

/// The place of `x` in `s` when it is put behind all the items that it is not ahead of.
proof fn lemma_place<T: Ranked>(s: Seq<T>, x: T) -> (at: int)
    requires
        order::ordered(s),
    ensures
        0 <= at <= s.len(),
        order::insert_behind(s, x) == s.insert(at, x),
        forall|i: int| 0 <= i < at ==> !x.ahead(#[trigger] s[i]),
        forall|i: int| at <= i < s.len() ==> x.ahead(#[trigger] s[i]),
    decreases s.len(),
{
    if s.len() == 0 || !x.ahead(s.last()) {
        assert(s.push(x) =~= s.insert(s.len() as int, x));
        assert forall|i: int| 0 <= i < s.len() implies !x.ahead(#[trigger] s[i]) by {
            T::places_form_a_line(x, s[i], s.last());
            if i < s.len() - 1 {
                assert(!s[s.len() - 1].ahead(s[i]));
            }
        }
        s.len() as int
    } else {
        let rest = s.drop_last();
        let at = lemma_place(rest, x);
        assert(rest.insert(at, x).push(s.last()) =~= s.insert(at, x));
        assert forall|i: int| 0 <= i < at implies !x.ahead(#[trigger] s[i]) by {
            assert(rest[i] == s[i]);
        }
        assert forall|i: int| at <= i < s.len() implies x.ahead(#[trigger] s[i]) by {
            if i < rest.len() {
                assert(rest[i] == s[i]);
            }
        }
        at
    }
}

/// Putting items in order moves each of them to one place: `from[i]` is where the item at `i` stood.
/// No item stands behind one that it is ahead of, and of two items of which neither is ahead the one
/// that stood first stays first.
pub proof fn items_are_rearranged<T: Ranked>(s: Seq<T>) -> (from: Seq<int>)
    ensures
        from.len() == s.len(),
        order::in_order(s).len() == s.len(),
        forall|i: int|
            0 <= i < s.len() ==> 0 <= #[trigger] from[i] < s.len() && order::in_order(s)[i]
                == s[from[i]],
        forall|v: int| 0 <= v < s.len() ==> #[trigger] from.contains(v),
        forall|i: int, k: int|
            0 <= i < k < s.len() ==> #[trigger] from[i] != #[trigger] from[k] && !s[from[k]].ahead(
                s[from[i]],
            ) && (s[from[i]].ahead(s[from[k]]) || from[i] < from[k]),
    decreases s.len(),
{
    if s.len() == 0 {
        Seq::empty()
    } else {
        let rest = s.drop_last();
        let x = s.last();
        let last = rest.len() as int;
        let before = items_are_rearranged(rest);
        let sorted = order::in_order(rest);
        order::in_order_is_a_stable_sort(rest);
        let at = lemma_place(sorted, x);
        let from = before.insert(at, last);
        let out = order::in_order(s);
        assert(out == sorted.insert(at, x));
        assert forall|i: int| 0 <= i < s.len() implies 0 <= #[trigger] from[i] < s.len() && out[i]
            == s[from[i]] by {
            if i < at {
                assert(from[i] == before[i] && out[i] == sorted[i]);
            } else if i > at {
                assert(from[i] == before[i - 1] && out[i] == sorted[i - 1]);
            }
        }
        assert forall|v: int| 0 <= v < s.len() implies #[trigger] from.contains(v) by {
            if v == last {
                assert(from[at] == v);
            } else {
                assert(before.contains(v));
                let i = choose|i: int| 0 <= i < before.len() && before[i] == v;
                if i < at {
                    assert(from[i] == v);
                } else {
                    assert(from[i + 1] == v);
                }
            }
        }
        assert forall|i: int, k: int| 0 <= i < k < s.len() implies #[trigger] from[i]
            != #[trigger] from[k] && !s[from[k]].ahead(s[from[i]]) && (s[from[i]].ahead(s[from[k]])
            || from[i] < from[k]) by {
            let a: int = if i < at { i } else { i - 1 };
            let b: int = if k < at { k } else { k - 1 };
            if i != at {
                assert(from[i] == before[a] && sorted[a] == rest[before[a]]);
                assert(s[from[i]] == sorted[a]);
            }
            if k != at {
                assert(from[k] == before[b] && sorted[b] == rest[before[b]]);
                assert(s[from[k]] == sorted[b]);
            }
            if i != at && k != at {
                assert(before[a] != before[b]);
            } else if i == at {
                assert(x.ahead(sorted[b]));
                T::places_form_a_line(x, sorted[b], x);
            } else {
                assert(!x.ahead(sorted[a]));
            }
        }
        from
    }
}

/// Bars are put in the order of time: each moves to one place, none starts before one in front of it,
/// and bars that start at the same time stay in the order in which they stood.
pub proof fn bars_are_rearranged(bars: Seq<Bar>) -> (from: Seq<int>)
    ensures
        from.len() == bars.len(),
        order::in_order(bars).len() == bars.len(),
        forall|i: int|
            0 <= i < bars.len() ==> 0 <= #[trigger] from[i] < bars.len() && order::in_order(bars)[i]
                == bars[from[i]],
        forall|v: int| 0 <= v < bars.len() ==> #[trigger] from.contains(v),
        forall|i: int, k: int|
            0 <= i < k < bars.len() ==> {
                ||| bars[#[trigger] from[i]].timestamp < bars[#[trigger] from[k]].timestamp
                ||| bars[from[i]].timestamp == bars[from[k]].timestamp && from[i] < from[k]
            },
{
    items_are_rearranged(bars)
}

} // verus!
