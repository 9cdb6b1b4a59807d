//! Floating-point numbers as bit patterns.
//!
//! Measured quantities (distances, speeds, cosines) reach this library as the
//! bits of an IEEE 754 number. Nothing here computes with them; they are
//! compared, and the comparisons are those of the numbers: every comparison
//! with a NaN is false, and the two zeros are equal.

use vstd::prelude::*;

verus! {

/// The bits of a 64-bit IEEE 754 number.
#[derive(Clone, Copy, Debug, PartialEq, Eq, Structural, Hash)]
pub struct Real64 {
    pub bits: u64,
}

/// The bits of a 32-bit IEEE 754 number.
#[derive(Clone, Copy, Debug, PartialEq, Eq, Structural, Hash)]
pub struct Real32 {
    pub bits: u32,
}

/// The sign bit of a 64-bit number.
pub const SIGN_64: u64 = 0x8000_0000_0000_0000;

/// The bits of 64-bit infinity; a larger magnitude is a NaN.
pub const INFINITY_64: u64 = 0x7ff0_0000_0000_0000;

/// The sign bit of a 32-bit number.
pub const SIGN_32: u32 = 0x8000_0000;

/// The bits of 32-bit infinity; a larger magnitude is a NaN.
pub const INFINITY_32: u32 = 0x7f80_0000;

impl Real64 {
    pub fn from_bits(bits: u64) -> (r: Self)
        ensures
            r == (Real64 { bits }),
    {
        Real64 { bits }
    }

    /// The magnitude's bits, without the sign.
    pub open spec fn magnitude(self) -> int {
        if self.bits >= SIGN_64 {
            self.bits - SIGN_64
        } else {
            self.bits as int
        }
    }

    pub open spec fn is_nan(self) -> bool {
        self.magnitude() > INFINITY_64
    }

    /// An integer that orders as the numbers do (NaN aside).
    pub open spec fn rank(self) -> int {
        if self.bits >= SIGN_64 {
            -self.magnitude()
        } else {
            self.magnitude()
        }
    }

    pub open spec fn less(self, other: Self) -> bool {
        !self.is_nan() && !other.is_nan() && self.rank() < other.rank()
    }

    pub open spec fn less_or_equal(self, other: Self) -> bool {
        !self.is_nan() && !other.is_nan() && self.rank() <= other.rank()
    }

    /// `self < other`.
    pub fn lt(self, other: Self) -> (r: bool)
        ensures
            r == self.less(other),
    {
        let a: u64 = if self.bits >= SIGN_64 {
            self.bits - SIGN_64
        } else {
            self.bits
        };
        let b: u64 = if other.bits >= SIGN_64 {
            other.bits - SIGN_64
        } else {
            other.bits
        };
        if a > INFINITY_64 || b > INFINITY_64 {
            false
        } else if self.bits >= SIGN_64 {
            if other.bits >= SIGN_64 {
                a > b
            } else {
                a != 0 || b != 0
            }
        } else {
            other.bits < SIGN_64 && a < b
        }
    }

    /// `self <= other`.
    pub fn le(self, other: Self) -> (r: bool)
        ensures
            r == self.less_or_equal(other),
    {
        let a: u64 = if self.bits >= SIGN_64 {
            self.bits - SIGN_64
        } else {
            self.bits
        };
        let b: u64 = if other.bits >= SIGN_64 {
            other.bits - SIGN_64
        } else {
            other.bits
        };
        if a > INFINITY_64 || b > INFINITY_64 {
            false
        } else {
            !other.lt(self)
        }
    }

    /// The smaller of two numbers: `other` unless `self` is below it or
    /// `other` is not a number.
    pub open spec fn lesser(self, other: Self) -> Self {
        if other.is_nan() || self.less(other) {
            self
        } else {
            other
        }
    }

    /// The smaller of two numbers; the one that is a number where the other
    /// is not.
    pub fn min(self, other: Self) -> (r: Self)
        ensures
            r == self.lesser(other),
    {
        let b: u64 = if other.bits >= SIGN_64 {
            other.bits - SIGN_64
        } else {
            other.bits
        };
        if b > INFINITY_64 || self.lt(other) {
            self
        } else {
            other
        }
    }
}

impl Real32 {
    pub fn from_bits(bits: u32) -> (r: Self)
        ensures
            r == (Real32 { bits }),
    {
        Real32 { bits }
    }

    /// The magnitude's bits, without the sign.
    pub open spec fn magnitude(self) -> int {
        if self.bits >= SIGN_32 {
            self.bits - SIGN_32
        } else {
            self.bits as int
        }
    }

    pub open spec fn is_nan(self) -> bool {
        self.magnitude() > INFINITY_32
    }

    /// An integer that orders as the numbers do (NaN aside).
    pub open spec fn rank(self) -> int {
        if self.bits >= SIGN_32 {
            -self.magnitude()
        } else {
            self.magnitude()
        }
    }

    pub open spec fn less(self, other: Self) -> bool {
        !self.is_nan() && !other.is_nan() && self.rank() < other.rank()
    }

    pub open spec fn less_or_equal(self, other: Self) -> bool {
        !self.is_nan() && !other.is_nan() && self.rank() <= other.rank()
    }

    /// `self < other`.
    pub fn lt(self, other: Self) -> (r: bool)
        ensures
            r == self.less(other),
    {
        let a: u32 = if self.bits >= SIGN_32 {
            self.bits - SIGN_32
        } else {
            self.bits
        };
        let b: u32 = if other.bits >= SIGN_32 {
            other.bits - SIGN_32
        } else {
            other.bits
        };
        if a > INFINITY_32 || b > INFINITY_32 {
            false
        } else if self.bits >= SIGN_32 {
            if other.bits >= SIGN_32 {
                a > b
            } else {
                a != 0 || b != 0
            }
        } else {
            other.bits < SIGN_32 && a < b
        }
    }

    /// `self <= other`.
    pub fn le(self, other: Self) -> (r: bool)
        ensures
            r == self.less_or_equal(other),
    {
        let a: u32 = if self.bits >= SIGN_32 {
            self.bits - SIGN_32
        } else {
            self.bits
        };
        let b: u32 = if other.bits >= SIGN_32 {
            other.bits - SIGN_32
        } else {
            other.bits
        };
        if a > INFINITY_32 || b > INFINITY_32 {
            false
        } else {
            !other.lt(self)
        }
    }
}

/// Numbers of one sign and finite magnitude compare by their bits, negative
/// ones the other way round; a negative number is below a positive one; zero is
/// zero, whatever its sign; and nothing compares with a NaN.
pub proof fn numbers_compare_by_their_bits(a: Real64, b: Real64)
    ensures
        a.bits <= 0x7ff0_0000_0000_0000 && b.bits <= 0x7ff0_0000_0000_0000 ==> (a.less(b) <==> a.bits < b.bits) && (
        a.less_or_equal(b) <==> a.bits <= b.bits),
        0x8000_0000_0000_0000 <= a.bits <= 0xfff0_0000_0000_0000 && 0x8000_0000_0000_0000 <= b.bits
            <= 0xfff0_0000_0000_0000 ==> (a.less(b) <==> a.bits > b.bits) && (a.less_or_equal(b) <==> a.bits >= b.bits),
        0x8000_0000_0000_0000 < a.bits <= 0xfff0_0000_0000_0000 && b.bits <= 0x7ff0_0000_0000_0000 ==> a.less(b)
            && !b.less_or_equal(a),
        a.bits == 0x8000_0000_0000_0000 && b.bits <= 0x7ff0_0000_0000_0000 ==> (a.less(b) <==> b.bits > 0)
            && a.less_or_equal(b) && (b.less_or_equal(a) <==> b.bits == 0),
        0x7ff0_0000_0000_0000 < a.bits < 0x8000_0000_0000_0000 || a.bits > 0xfff0_0000_0000_0000 ==> !a.less(b)
            && !b.less(a) && !a.less_or_equal(b) && !b.less_or_equal(a),
        !a.is_nan() && !b.is_nan() ==> (a.less(b) <==> !b.less_or_equal(a)),
        a.is_nan() <==> !a.less_or_equal(a),
{
}

/// The lesser of two numbers is one of them and above neither; of a number and
/// a NaN it is the number.
pub proof fn the_lesser_is_above_neither(a: Real64, b: Real64)
    ensures
        a.lesser(b) == a || a.lesser(b) == b,
        !a.is_nan() && !b.is_nan() ==> a.lesser(b).less_or_equal(a) && a.lesser(b).less_or_equal(b),
        !a.is_nan() && b.is_nan() ==> a.lesser(b) == a,
        a.is_nan() && !b.is_nan() ==> a.lesser(b) == b,
{
}

/// As [`numbers_compare_by_their_bits`], of 32-bit numbers.
pub proof fn short_numbers_compare_by_their_bits(a: Real32, b: Real32)
    ensures
        a.bits <= 0x7f80_0000 && b.bits <= 0x7f80_0000 ==> (a.less(b) <==> a.bits < b.bits) && (a.less_or_equal(b)
            <==> a.bits <= b.bits),
        0x8000_0000 <= a.bits <= 0xff80_0000 && 0x8000_0000 <= b.bits <= 0xff80_0000 ==> (a.less(b) <==> a.bits
            > b.bits) && (a.less_or_equal(b) <==> a.bits >= b.bits),
        0x8000_0000 < a.bits <= 0xff80_0000 && b.bits <= 0x7f80_0000 ==> a.less(b) && !b.less_or_equal(a),
        a.bits == 0x8000_0000 && b.bits <= 0x7f80_0000 ==> (a.less(b) <==> b.bits > 0) && a.less_or_equal(b) && (
        b.less_or_equal(a) <==> b.bits == 0),
        0x7f80_0000 < a.bits < 0x8000_0000 || a.bits > 0xff80_0000 ==> !a.less(b) && !b.less(a) && !a.less_or_equal(b)
            && !b.less_or_equal(a),
        !a.is_nan() && !b.is_nan() ==> (a.less(b) <==> !b.less_or_equal(a)),
        a.is_nan() <==> !a.less_or_equal(a),
{
}

} // verus!
