//! Exact fractions: the interpolation parameter and the value of a spline.

use vstd::prelude::*;

verus! {

/// A position along a scale, the fraction `num / den`. Zero is the start of
/// the scale and one is its end; positions outside are allowed.
#[derive(Clone, Copy, Debug, PartialEq, Eq, Structural)]
pub struct Fraction {
    pub num: i64,
    pub den: u32,
}

/// The value of one channel, the quotient `num / den` of two wide integers.
#[derive(Clone, Copy, Debug, PartialEq, Eq, Structural)]
pub struct Ratio {
    pub num: i128,
    pub den: i128,
}

impl Fraction {
    /// A fraction is well formed when its denominator is not zero.
    pub open spec fn wf(&self) -> bool {
        self.den > 0
    }

    /// The fraction lies between zero and one, both included.
    pub open spec fn in_unit_range(&self) -> bool {
        0 <= self.num <= self.den
    }

    /// The nearest fraction between zero and one, over the same denominator.
    pub open spec fn clamped(&self) -> Fraction {
        if self.num < 0 {
            Fraction { num: 0, den: self.den }
        } else if self.num > self.den {
            Fraction { num: self.den as i64, den: self.den }
        } else {
            *self
        }
    }

    /// Restricts the fraction to the range from zero to one.
    pub fn clamp_unit(&self) -> (out: Fraction)
        ensures
            out == self.clamped(),
    {
        if self.num < 0 {
            Fraction { num: 0, den: self.den }
        } else if self.num > self.den as i64 {
            Fraction { num: self.den as i64, den: self.den }
        } else {
            *self
        }
    }
}

impl Ratio {
    /// A ratio is well formed when its denominator is positive.
    pub open spec fn wf(&self) -> bool {
        self.den > 0
    }
}

} // verus!
