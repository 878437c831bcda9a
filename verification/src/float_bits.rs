//! Single-precision numbers by their bits.
//!
//! A number is kept as the 32 bits of its IEEE 754 encoding: the sign in the highest bit,
//! then exponent and fraction, which together order the numbers of one sign by size.
use vstd::prelude::*;

verus! {

/// The bits of positive infinity. Larger magnitudes encode "not a number".
pub const INFINITY_BITS: u32 = 0x7f80_0000;

/// The bit that holds the sign.
pub const SIGN_BIT: u32 = 0x8000_0000;

/// A single-precision number, by its bits.
#[derive(Clone, Copy, Debug, PartialEq, Eq, Structural)]
pub struct F32Bits {
    pub bits: u32,
}

impl F32Bits {
    /// The bits without the sign.
    pub open spec fn magnitude(self) -> int {
        if self.bits >= SIGN_BIT {
            self.bits - SIGN_BIT
        } else {
            self.bits as int
        }
    }

    /// Whether the bits encode "not a number".
    pub open spec fn is_nan(self) -> bool {
        self.magnitude() > INFINITY_BITS
    }

    /// An integer that orders the numbers as their values do; the two zeros have the same.
    pub open spec fn rank(self) -> int {
        if self.bits >= SIGN_BIT {
            -self.magnitude()
        } else {
            self.magnitude()
        }
    }

    /// Whether the value is zero, of either sign.
    pub open spec fn is_zero_value(self) -> bool {
        self.rank() == 0
    }

    /// Whether the value is `other`'s or larger. Nothing compares with "not a number".
    pub open spec fn at_least_value(self, other: F32Bits) -> bool {
        !self.is_nan() && !other.is_nan() && self.rank() >= other.rank()
    }

    /// Whether the value is larger than `other`'s.
    pub open spec fn above_value(self, other: F32Bits) -> bool {
        !self.is_nan() && !other.is_nan() && self.rank() > other.rank()
    }

    /// The number with these bits.
    pub fn from_bits(bits: u32) -> (number: F32Bits)
        ensures
            number.bits == bits,
    {
        F32Bits { bits }
    }

    /// Whether the value is zero, of either sign.
    pub fn is_zero(self) -> (yes: bool)
        ensures
            yes == self.is_zero_value(),
    {
        self.bits == 0 || self.bits == SIGN_BIT
    }

    /// The rank of the value, and whether there is one.
    fn ranked(self) -> (rank: Option<i64>)
        ensures
            rank is None <==> self.is_nan(),
            rank matches Some(r) ==> r == self.rank(),
    {
        let negative: bool = self.bits >= SIGN_BIT;
        let magnitude: u32 = if negative {
            self.bits - SIGN_BIT
        } else {
            self.bits
        };
        if magnitude > INFINITY_BITS {
            None
        } else if negative {
            Some(-(magnitude as i64))
        } else {
            Some(magnitude as i64)
        }
    }

    /// Whether the value is `other`'s or larger.
    pub fn at_least(self, other: F32Bits) -> (yes: bool)
        ensures
            yes == self.at_least_value(other),
    {
        match (self.ranked(), other.ranked()) {
            (Some(a), Some(b)) => a >= b,
            _ => false,
        }
    }

    /// Whether the value is larger than `other`'s.
    pub fn above(self, other: F32Bits) -> (yes: bool)
        ensures
            yes == self.above_value(other),
    {
        match (self.ranked(), other.ranked()) {
            (Some(a), Some(b)) => a > b,
            _ => false,
        }
    }
}

/// Comparison goes by the value: among numbers without a sign the larger bits are the larger
/// number, among negative ones the smaller, and a negative number is below any other but
/// minus zero, which equals zero. Nothing compares with "not a number".
pub proof fn law_numbers_compare_by_value(a: F32Bits, b: F32Bits)
    ensures
        a.is_zero_value() <==> a.bits == 0 || a.bits == 0x8000_0000,
        a.bits <= 0x7f80_0000 && b.bits <= 0x7f80_0000 ==> {
            &&& a.at_least_value(b) <==> a.bits >= b.bits
            &&& a.above_value(b) <==> a.bits > b.bits
        },
        0x8000_0000 <= a.bits <= 0xff80_0000 && 0x8000_0000 <= b.bits <= 0xff80_0000 ==> {
            &&& a.at_least_value(b) <==> a.bits <= b.bits
            &&& a.above_value(b) <==> a.bits < b.bits
        },
        a.bits <= 0x7f80_0000 && 0x8000_0000 <= b.bits <= 0xff80_0000 ==> {
            &&& a.at_least_value(b)
            &&& a.above_value(b) <==> !(a.bits == 0 && b.bits == 0x8000_0000)
            &&& b.at_least_value(a) <==> a.bits == 0 && b.bits == 0x8000_0000
            &&& !b.above_value(a)
        },
        (0x7f80_0000 < a.bits < 0x8000_0000 || a.bits > 0xff80_0000) ==> !a.at_least_value(b)
            && !b.at_least_value(a) && !a.above_value(b) && !b.above_value(a),
{
}

} // verus!
