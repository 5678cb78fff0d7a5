//! The bars that all connectors deliver.
use vstd::prelude::*;

use crate::double::Double;
use crate::order;
use crate::order::Ranked;

verus! {

/// Open, high, low, close and volume of one period, which starts at `timestamp` (Unix seconds).
#[derive(Clone, Copy, Debug, PartialEq, Eq, Structural)]
pub struct Bar {
    pub timestamp: i64,
    pub open: Double,
    pub high: Double,
    pub low: Double,
    pub close: Double,
    pub volume: Double,
}

/// Bars are ordered by their timestamps.
impl Ranked for Bar {
    open spec fn ahead(self, other: Bar) -> bool {
        self.timestamp < other.timestamp
    }

    proof fn places_form_a_line(a: Bar, b: Bar, c: Bar) {
    }

    fn is_ahead(&self, other: &Bar) -> (b: bool) {
        self.timestamp < other.timestamp
    }
}

/// What a fetch gives: the bars, or the text of the error.
pub open spec fn outcome(result: Result<Vec<Bar>, String>) -> Result<Seq<Bar>, Seq<char>> {
    match result {
        Ok(bars) => Ok(bars@),
        Err(error) => Err(error@),
    }
}

/// Whether no bar starts before the one in front of it.
pub open spec fn ascending(bars: Seq<Bar>) -> bool {
    forall|i: int, j: int|
        0 <= i < j < bars.len() ==> (#[trigger] bars[i]).timestamp <= (#[trigger] bars[j]).timestamp
}

/// Bars that are put in order come back ascending.
pub proof fn ordered_bars_ascend(bars: Seq<Bar>)
    ensures
        ascending(order::in_order(bars)),
        order::in_order(bars).len() == bars.len(),
        order::in_order(bars).to_multiset() == bars.to_multiset(),
{
    order::in_order_is_a_stable_sort(bars);
    let sorted = order::in_order(bars);
    assert forall|i: int, j: int| 0 <= i < j < sorted.len() implies (#[trigger] sorted[i]).timestamp
        <= (#[trigger] sorted[j]).timestamp by {
        assert(!sorted[j].ahead(sorted[i]));
    }
}

} // verus!
