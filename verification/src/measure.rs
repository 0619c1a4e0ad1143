//! Measured quantities, held as IEEE 754 binary64 bit patterns and ordered
//! as the numbers they stand for.

use vstd::prelude::*;

verus! {

/// The bit that holds the sign of a binary64 number.
pub const SIGN_BIT: u64 = 0x8000_0000_0000_0000;

/// The bit pattern of positive infinity; every larger magnitude is a NaN.
pub const INFINITY_BITS: u64 = 0x7ff0_0000_0000_0000;

/// A measured quantity: a binary64 number, held as its bit pattern.
///
/// Two measures are the same value when their bit patterns are the same; the
/// numeric order, in which the two zeros are equal and a NaN is unordered, is
/// given by [`Measure::at_most`].
#[derive(Clone, Copy, Debug, PartialEq, Eq, Structural)]
pub struct Measure {
    pub bits: u64,
}

impl Measure {
    /// The bit pattern without its sign.
    pub open spec fn magnitude(self) -> int {
        if self.bits >= SIGN_BIT {
            self.bits - SIGN_BIT
        } else {
            self.bits as int
        }
    }

    /// Whether the sign bit is set.
    pub open spec fn negative(self) -> bool {
        self.bits >= SIGN_BIT
    }

    /// Whether the pattern is a NaN, which compares with nothing.
    pub open spec fn is_nan(self) -> bool {
        self.magnitude() > INFINITY_BITS
    }

    /// An integer that orders the patterns that are not NaN as their numbers
    /// are ordered: magnitudes grow with the pattern, and the sign mirrors them.
    pub open spec fn rank(self) -> int {
        if self.negative() {
            -self.magnitude()
        } else {
            self.magnitude()
        }
    }

    /// `self <= other` as numbers.
    pub open spec fn at_most(self, other: Measure) -> bool {
        !self.is_nan() && !other.is_nan() && self.rank() <= other.rank()
    }

    /// `min <= self` and `self <= max` as numbers.
    pub open spec fn within(self, min: Measure, max: Measure) -> bool {
        min.at_most(self) && self.at_most(max)
    }

    /// The measure with the given bit pattern.
    pub fn from_bits(bits: u64) -> (m: Measure)
        ensures
            m.bits == bits,
    {
        Measure { bits }
    }

    /// The bit pattern of the measure.
    pub fn to_bits(&self) -> (bits: u64)
        ensures
            bits == self.bits,
    {
        self.bits
    }

    /// Positive zero.
    pub fn zero() -> (m: Measure)
        ensures
            m.bits == 0,
    {
        Measure { bits: 0 }
    }

    fn split(&self) -> (parts: (bool, u64))
        ensures
            parts.0 == self.negative(),
            parts.1 == self.magnitude(),
    {
        if self.bits >= SIGN_BIT {
            (true, self.bits - SIGN_BIT)
        } else {
            (false, self.bits)
        }
    }

    /// Decides `self <= other` as numbers.
    pub fn le(&self, other: &Measure) -> (r: bool)
        ensures
            r == self.at_most(*other),
    {
        let (negative_a, magnitude_a) = self.split();
        let (negative_b, magnitude_b) = other.split();
        if magnitude_a > INFINITY_BITS || magnitude_b > INFINITY_BITS {
            false
        } else if negative_a && negative_b {
            magnitude_b <= magnitude_a
        } else if negative_a {
            true
        } else if negative_b {
            magnitude_a == 0 && magnitude_b == 0
        } else {
            magnitude_a <= magnitude_b
        }
    }

    /// Decides whether the measure lies in the closed range from `min` to `max`.
    pub fn in_range(&self, min: &Measure, max: &Measure) -> (r: bool)
        ensures
            r == self.within(*min, *max),
    {
        min.le(self) && self.le(max)
    }
}

impl Default for Measure {
    fn default() -> (m: Measure)
        ensures
            m.bits == 0,
    {
        Measure { bits: 0 }
    }
}

/// The order of the measures is that of numbers: whatever is at most a
/// second that is at most a third is at most the third, two that are each at
/// most the other have the same rank, and of two that are not NaN one is at
/// most the other.
pub proof fn at_most_is_an_order(a: Measure, b: Measure, c: Measure)
    ensures
        a.at_most(b) && b.at_most(c) ==> a.at_most(c),
        a.at_most(b) && b.at_most(a) ==> a.rank() == b.rank(),
        !a.is_nan() ==> a.at_most(a),
        !a.is_nan() && !b.is_nan() ==> a.at_most(b) || b.at_most(a),
{
}

/// A range whose lower end lies above its upper end holds no measure.
pub proof fn inverted_range_is_empty(x: Measure, min: Measure, max: Measure)
    requires
        !min.at_most(max),
    ensures
        !x.within(min, max),
{
}

} // verus!
