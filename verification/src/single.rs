//! Single-precision values carried as IEEE 754 binary32 bit patterns.

use vstd::prelude::*;

verus! {

/// Bit pattern of the sign bit.
pub const SIGN_BIT: u32 = 0x8000_0000;

/// Magnitude of an infinity: every exponent bit set, no fraction bit.
pub const INFINITY_MAGNITUDE: u32 = 0x7f80_0000;

/// A single-precision number, held as its binary32 bit pattern.
#[derive(Clone, Copy, Debug)]
pub struct Single {
    pub bits: u32,
}

impl Single {
    /// The pattern without its sign bit.
    pub open spec fn magnitude(self) -> int {
        if self.bits >= SIGN_BIT {
            self.bits - SIGN_BIT
        } else {
            self.bits as int
        }
    }

    /// Whether the pattern is not a number.
    pub open spec fn is_nan(self) -> bool {
        self.magnitude() > INFINITY_MAGNITUDE
    }

    /// Place of a number on the number line: `a` is greater than `b`
    /// exactly when `a.ordinal() > b.ordinal()`. Both zeros have ordinal 0.
    pub open spec fn ordinal(self) -> int {
        if self.bits >= SIGN_BIT {
            -self.magnitude()
        } else {
            self.magnitude()
        }
    }

    /// `self > other` as binary32 values: false as soon as either is not a number.
    pub open spec fn exceeds(self, other: Single) -> bool {
        !self.is_nan() && !other.is_nan() && self.ordinal() > other.ordinal()
    }

    /// Decides `self > other` as binary32 values.
    #[verifier::when_used_as_spec(exceeds)]
    pub fn gt(self, other: Single) -> (r: bool)
        ensures
            r == self.exceeds(other),
    {
        let a: u32 = if self.bits >= SIGN_BIT { self.bits - SIGN_BIT } else { self.bits };
        let b: u32 = if other.bits >= SIGN_BIT { other.bits - SIGN_BIT } else { other.bits };
        if a > INFINITY_MAGNITUDE || b > INFINITY_MAGNITUDE {
            false
        } else if self.bits >= SIGN_BIT {
            other.bits >= SIGN_BIT && a < b
        } else if other.bits >= SIGN_BIT {
            a > 0 || b > 0
        } else {
            a > b
        }
    }
}

} // verus!
