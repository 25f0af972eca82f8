//! Double-precision numbers, carried by their bits.
//!
//! The library compares such numbers and hands them on; it does no arithmetic on them.

use vstd::prelude::*;

verus! {

/// A 64-bit binary floating-point number in the IEEE 754 encoding.
#[derive(Clone, Copy, Debug, PartialEq, Eq, Structural)]
pub struct Double {
    /// The encoding: sign, exponent and fraction from the highest bit down.
    pub bits: u64,
}

/// The lowest encoding with the sign bit set.
pub const SIGN: u64 = 0x8000_0000_0000_0000;

/// The encoding of positive infinity.
pub const INFINITY: u64 = 0x7FF0_0000_0000_0000;

impl Double {
    /// The encoding without its sign.
    pub open spec fn magnitude(self) -> int {
        if self.bits >= SIGN {
            self.bits - SIGN
        } else {
            self.bits as int
        }
    }

    /// Whether this is no number.
    pub open spec fn is_nan(self) -> bool {
        self.magnitude() > INFINITY
    }

    /// Where the number stands in the order of all numbers; both zeros stand at 0.
    pub open spec fn rank(self) -> int {
        if self.bits >= SIGN {
            -self.magnitude()
        } else {
            self.magnitude()
        }
    }

    /// Whether `self` is below `other`.
    pub open spec fn below(self, other: Double) -> bool {
        !self.is_nan() && !other.is_nan() && self.rank() < other.rank()
    }

    /// Whether `self` is below `other` or equal to it.
    pub open spec fn at_most(self, other: Double) -> bool {
        !self.is_nan() && !other.is_nan() && self.rank() <= other.rank()
    }

    /// The number with the encoding `bits`.
    pub fn from_bits(bits: u64) -> (r: Self)
        ensures
            r.bits == bits,
    {
        Double { bits }
    }

    /// The encoding.
    pub fn to_bits(self) -> (r: u64)
        ensures
            r == self.bits,
    {
        self.bits
    }

    fn not_a_number(self) -> (r: bool)
        ensures
            r == self.is_nan(),
    {
        let m: u64 = if self.bits >= SIGN {
            self.bits - SIGN
        } else {
            self.bits
        };
        m > INFINITY
    }

    fn rank_below(self, other: Double) -> (r: bool)
        ensures
            r == (self.rank() < other.rank()),
    {
        let a_neg: bool = self.bits >= SIGN;
        let b_neg: bool = other.bits >= SIGN;
        if a_neg && b_neg {
            self.bits > other.bits
        } else if a_neg {
            self.bits > SIGN || other.bits > 0
        } else if b_neg {
            false
        } else {
            self.bits < other.bits
        }
    }

    /// `self < other`.
    pub fn lt(self, other: Double) -> (r: bool)
        ensures
            r == self.below(other),
    {
        !self.not_a_number() && !other.not_a_number() && self.rank_below(other)
    }

    /// `self <= other`.
    pub fn le(self, other: Double) -> (r: bool)
        ensures
            r == self.at_most(other),
    {
        !self.not_a_number() && !other.not_a_number() && !other.rank_below(self)
    }

    /// The greater of two numbers; a value that is no number loses against one that is.
    pub open spec fn greater(self, other: Double) -> Double {
        if self.is_nan() {
            other
        } else if self.below(other) {
            other
        } else {
            self
        }
    }

    /// The greater of two numbers.
    pub fn max(self, other: Double) -> (r: Self)
        ensures
            r == self.greater(other),
    {
        if self.not_a_number() {
            other
        } else if self.lt(other) {
            other
        } else {
            self
        }
    }
}

/// The encoding of 0.0.
pub const ZERO: u64 = 0;

/// The encoding of 0.1.
pub const ONE_TENTH: u64 = 0x3FB9_9999_9999_999A;

/// The encoding of 0.2.
pub const TWO_TENTHS: u64 = 0x3FC9_9999_9999_999A;

/// The encoding of 0.3.
pub const THREE_TENTHS: u64 = 0x3FD3_3333_3333_3333;

/// The encoding of 0.5.
pub const HALF: u64 = 0x3FE0_0000_0000_0000;

/// The encoding of 0.7.
pub const SEVEN_TENTHS: u64 = 0x3FE6_6666_6666_6666;

/// The encoding of 0.9.
pub const NINE_TENTHS: u64 = 0x3FEC_CCCC_CCCC_CCCD;

/// The encoding of 1.0.
pub const ONE: u64 = 0x3FF0_0000_0000_0000;

/// The encoding of 2.0.
pub const TWO: u64 = 0x4000_0000_0000_0000;

/// The encoding of 50.0.
pub const FIFTY: u64 = 0x4049_0000_0000_0000;

/// The encoding of 80.0.
pub const EIGHTY: u64 = 0x4054_0000_0000_0000;

/// The encoding of 90.0.
pub const NINETY: u64 = 0x4056_8000_0000_0000;

/// The encoding of 95.0.
pub const NINETY_FIVE: u64 = 0x4057_C000_0000_0000;

/// The encoding of 100.0.
pub const HUNDRED: u64 = 0x4059_0000_0000_0000;

/// Numbers without a sign are ordered as their encodings, each number with a sign lies below each
/// without but for the zeros, which are equal, and what is no number is neither below nor above.
pub proof fn numbers_are_ordered(a: Double, b: Double, less: bool, most: bool, greatest: Double)
    requires
        call_ensures(Double::lt, (a, b), less),
        call_ensures(Double::le, (a, b), most),
        call_ensures(Double::max, (a, b), greatest),
    ensures
        a.bits <= 0x7FF0_0000_0000_0000 && b.bits <= 0x7FF0_0000_0000_0000 ==> (less <==> a.bits < b.bits) && (most <==> a.bits
            <= b.bits) && greatest.bits == (if a.bits < b.bits {
            b.bits
        } else {
            a.bits
        }),
        0x8000_0000_0000_0000 < a.bits <= 0xFFF0_0000_0000_0000 && b.bits <= 0x7FF0_0000_0000_0000 ==> less && most && greatest
            == b,
        a.bits <= 0x7FF0_0000_0000_0000 && 0x8000_0000_0000_0000 < b.bits <= 0xFFF0_0000_0000_0000 ==> !less && !most
            && greatest == a,
        0x8000_0000_0000_0000 <= a.bits <= 0xFFF0_0000_0000_0000 && 0x8000_0000_0000_0000 <= b.bits <= 0xFFF0_0000_0000_0000
            ==> (less <==> b.bits < a.bits) && (most <==> b.bits <= a.bits),
        0x7FF0_0000_0000_0000 < a.bits < 0x8000_0000_0000_0000 || a.bits > 0xFFF0_0000_0000_0000 ==> !less && !most && greatest
            == b,
        0x7FF0_0000_0000_0000 < b.bits < 0x8000_0000_0000_0000 || b.bits > 0xFFF0_0000_0000_0000 ==> !less && !most,
        a.bits == 0x8000_0000_0000_0000 && b.bits == 0 ==> !less && most,
{
}

} // verus!
