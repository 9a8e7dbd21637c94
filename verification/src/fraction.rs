//! Proportions between zero and one, kept exact.

use vstd::prelude::*;

verus! {

/// The mathematical value of a [`Fraction`]: `num / den`.
pub ghost struct Ratio {
    pub num: nat,
    pub den: nat,
}

impl Ratio {
    /// Zero, written over one.
    pub open spec fn zero() -> Ratio {
        Ratio { num: 0, den: 1 }
    }

    /// The quotient is defined and lies between zero and one, both included.
    pub open spec fn is_proportion(self) -> bool {
        0 < self.den && self.num <= self.den
    }
}

/// `num` parts out of `den`, neither reduced nor rounded.
#[derive(Clone, Copy, Debug, PartialEq, Eq, Structural)]
pub struct Fraction {
    pub num: usize,
    pub den: usize,
}

impl View for Fraction {
    type V = Ratio;

    open spec fn view(&self) -> Ratio {
        Ratio { num: self.num as nat, den: self.den as nat }
    }
}

impl Fraction {
    /// Zero parts out of one.
    pub fn zero() -> (r: Fraction)
        ensures
            r@ == Ratio::zero(),
    {
        Fraction { num: 0, den: 1 }
    }
}

} // verus!
