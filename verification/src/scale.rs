//! Mapping a scalar of some domain onto a colour.

use vstd::prelude::*;
use crate::color::{NormalizedColor, QuantizedColor};
use crate::error::DomainError;
use crate::fraction::Fraction;

verus! {

/// Where `x` lies in the domain from `x0` to `x1`: the fraction
/// `(x - x0) / (x1 - x0)`, written with a positive denominator.
pub open spec fn domain_position(x: i32, x0: i32, x1: i32) -> Fraction
    recommends
        x0 != x1,
{
    if x1 > x0 {
        Fraction { num: (x - x0) as i64, den: (x1 - x0) as u32 }
    } else {
        Fraction { num: (x0 - x) as i64, den: (x0 - x1) as u32 }
    }
}

/// The position that is handed to the interpolator: that of `x` in the
/// domain, held between zero and one where `clamp` is set.
pub open spec fn scale_position(x: i32, clamp: bool, x0: i32, x1: i32) -> Fraction
    recommends
        x0 != x1,
{
    if clamp {
        domain_position(x, x0, x1).clamped()
    } else {
        domain_position(x, x0, x1)
    }
}

/// Finds the position of `x` in the domain from `x0` to `x1`. A domain whose
/// ends coincide has no positions.
pub fn position(x: i32, x0: i32, x1: i32) -> (res: Result<Fraction, DomainError>)
    ensures
        res is Err <==> x0 == x1,
        res matches Ok(t) ==> {
            &&& t == domain_position(x, x0, x1)
            &&& t.wf()
            &&& t.num * (x1 - x0) == t.den * (x - x0)
        },
{
    if x0 == x1 {
        return Err(DomainError);
    }
    let t = if x1 > x0 {
        Fraction { num: x as i64 - x0 as i64, den: (x1 as i64 - x0 as i64) as u32 }
    } else {
        Fraction { num: x0 as i64 - x as i64, den: (x0 as i64 - x1 as i64) as u32 }
    };
    proof {
        assert(t.num * (x1 - x0) == t.den * (x - x0)) by (nonlinear_arith)
            requires
                (t.num == x - x0 && t.den == x1 - x0) || (t.num == x0 - x && t.den == x0 - x1),
        ;
    }
    Ok(t)
}

/// A source of colours that can be laid along a scalar domain.
pub trait Colors: Sized {
    /// Maps `x` from the domain between `x0` and `x1` to a colour.
    ///
    /// The position of `x` in the domain, clamped to the domain where `clamp`
    /// is set, is handed to `interpolator`, and the colour that it returns is
    /// quantized. A domain whose ends coincide is refused. The interpolator
    /// must accept that position and answer it with a well-formed colour.
    fn scale_sequential<F: Fn(&Self, Fraction) -> NormalizedColor>(
        &self,
        x: i32,
        clamp: bool,
        x0: i32,
        x1: i32,
        interpolator: F,
    ) -> (res: Result<QuantizedColor, DomainError>)
        requires
            x0 != x1 ==> interpolator.requires((self, scale_position(x, clamp, x0, x1))),
            x0 != x1 ==> forall|c: NormalizedColor|
                #![auto]
                interpolator.ensures((self, scale_position(x, clamp, x0, x1)), c) ==> c.wf(),
        ensures
            res is Err <==> x0 == x1,
            res matches Ok(out) ==> exists|c: NormalizedColor|
                #![auto]
                interpolator.ensures((self, scale_position(x, clamp, x0, x1)), c) && out
                    == c.quantized(),
    {
        match position(x, x0, x1) {
            Err(e) => Err(e),
            Ok(t) => {
                let color = interpolator(
                    self,
                    if clamp {
                        t.clamp_unit()
                    } else {
                        t
                    },
                );
                Ok(color.quantize())
            },
        }
    }
}

} // verus!
