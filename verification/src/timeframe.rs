//! The length of a bar's period.
use vstd::prelude::*;

use crate::text;

verus! {

/// A number of seconds, minutes, hours, days, weeks or months.
#[derive(Clone, Copy, Debug, PartialEq, Eq, Structural)]
pub enum Timeframe {
    Second(u32),
    Minute(u32),
    Hour(u32),
    Day(u32),
    Week(u32),
    Month(u32),
}

impl Timeframe {
    /// The number and the letter of its unit.
    pub open spec fn shown(self) -> Seq<char> {
        match self {
            Timeframe::Second(n) => text::decimal(n as nat).push('s'),
            Timeframe::Minute(n) => text::decimal(n as nat).push('m'),
            Timeframe::Hour(n) => text::decimal(n as nat).push('h'),
            Timeframe::Day(n) => text::decimal(n as nat).push('d'),
            Timeframe::Week(n) => text::decimal(n as nat).push('w'),
            Timeframe::Month(n) => text::decimal(n as nat).push('M'),
        }
    }
}

/// Shows a timeframe by `kestrel_chartkit::Timeframe`'s `Display`, which writes the number in
/// decimal and behind it `s`, `m`, `h`, `d`, `w` or `M`.
#[verifier::external_body]
pub(crate) fn show(timeframe: Timeframe) -> (shown: String)
    ensures
        shown@ == timeframe.shown(),
{
    let shown = match timeframe {
        Timeframe::Second(n) => kestrel_chartkit::Timeframe::Second(n),
        Timeframe::Minute(n) => kestrel_chartkit::Timeframe::Minute(n),
        Timeframe::Hour(n) => kestrel_chartkit::Timeframe::Hour(n),
        Timeframe::Day(n) => kestrel_chartkit::Timeframe::Day(n),
        Timeframe::Week(n) => kestrel_chartkit::Timeframe::Week(n),
        Timeframe::Month(n) => kestrel_chartkit::Timeframe::Month(n),
    };
    shown.to_string()
}

} // verus!
