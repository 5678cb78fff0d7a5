//! Binary floating-point numbers, carried as their bits.
use vstd::prelude::*;

verus! {

/// The bits of an IEEE 754 double-precision number: sign, exponent, fraction, from the top down.
///
/// Prices and volumes pass through the connectors unchanged, so only their order is modelled.
#[derive(Clone, Copy, Debug, PartialEq, Eq, Structural)]
pub struct Double {
    pub bits: u64,
}

/// The bit that marks a negative number.
pub const SIGN_BIT: u64 = 0x8000_0000_0000_0000;

/// The bits of positive infinity. Every larger magnitude stands for no number.
pub const INFINITY_BITS: u64 = 0x7ff0_0000_0000_0000;

impl Double {
    /// The bits without the sign.
    pub open spec fn magnitude(self) -> int {
        if self.bits < SIGN_BIT { self.bits as int } else { self.bits - SIGN_BIT }
    }

    /// Whether the bits stand for no number.
    pub open spec fn is_nan(self) -> bool {
        self.magnitude() > INFINITY_BITS
    }

    /// The place of the number among all numbers. Both zeros have the place 0.
    pub open spec fn rank(self) -> int {
        if self.bits < SIGN_BIT { self.magnitude() } else { -self.magnitude() }
    }

    /// Whether this number is larger than `other`. Without two numbers it is not.
    pub open spec fn exceeds(self, other: Double) -> bool {
        !self.is_nan() && !other.is_nan() && self.rank() > other.rank()
    }

    /// Whether this is a number that is zero or negative.
    pub open spec fn at_most_zero(self) -> bool {
        !self.is_nan() && self.rank() <= 0
    }

    /// Zero.
    pub fn zero() -> (r: Double)
        ensures
            r == (Double { bits: 0 }),
            !r.is_nan(),
            r.rank() == 0,
    {
        Double { bits: 0 }
    }

    fn magnitude_bits(self) -> (m: u64)
        ensures
            m == self.magnitude(),
    {
        if self.bits < SIGN_BIT { self.bits } else { self.bits - SIGN_BIT }
    }

    /// Whether this number is larger than `other`.
    pub fn is_greater(self, other: Double) -> (greater: bool)
        ensures
            greater == self.exceeds(other),
    {
        let mine: u64 = self.magnitude_bits();
        let theirs: u64 = other.magnitude_bits();
        if mine > INFINITY_BITS || theirs > INFINITY_BITS {
            false
        } else if self.bits < SIGN_BIT {
            if other.bits < SIGN_BIT { mine > theirs } else { mine > 0 || theirs > 0 }
        } else {
            other.bits >= SIGN_BIT && mine < theirs
        }
    }

    /// Whether this is a number that is zero or negative.
    pub fn is_at_most_zero(self) -> (b: bool)
        ensures
            b == self.at_most_zero(),
    {
        let mine: u64 = self.magnitude_bits();
        mine <= INFINITY_BITS && (self.bits >= SIGN_BIT || mine == 0)
    }
}

} // verus!
