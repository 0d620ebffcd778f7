//! Colour values: exact fractions in working space, bytes on output.

use vstd::prelude::*;
use vstd::arithmetic::div_mod::lemma_fundamental_div_mod_converse;

verus! {

/// A colour in working space. The channels share one denominator: the red
/// channel is the fraction `r / den` of full intensity, and so on.
#[derive(Clone, Copy, Debug, PartialEq, Eq, Structural)]
pub struct NormalizedColor {
    pub r: i128,
    pub g: i128,
    pub b: i128,
    pub a: i128,
    pub den: i128,
}

/// A colour ready for output, one byte per channel.
#[derive(Clone, Copy, Debug, PartialEq, Eq, Structural)]
pub struct QuantizedColor {
    pub r: u8,
    pub g: u8,
    pub b: u8,
    pub a: u8,
}

/// The byte that stands for the fraction `num / den`: the fraction times 255,
/// cut off towards zero, and held to the range of a byte.
pub open spec fn channel_level(num: int, den: int) -> int
    recommends
        den > 0,
{
    if num <= 0 {
        0
    } else if num >= den {
        255
    } else {
        (255 * num) / den
    }
}

impl NormalizedColor {
    /// A colour is well formed when its denominator is positive.
    pub open spec fn wf(&self) -> bool {
        self.den > 0
    }

    /// Every channel lies between zero and full intensity.
    pub open spec fn in_unit_range(&self) -> bool {
        &&& 0 <= self.r <= self.den
        &&& 0 <= self.g <= self.den
        &&& 0 <= self.b <= self.den
        &&& 0 <= self.a <= self.den
    }

    /// The alpha channel is at full intensity.
    pub open spec fn is_opaque(&self) -> bool {
        self.a == self.den
    }

    /// The output colour that `quantize` computes.
    pub open spec fn quantized(&self) -> QuantizedColor {
        QuantizedColor {
            r: channel_level(self.r as int, self.den as int) as u8,
            g: channel_level(self.g as int, self.den as int) as u8,
            b: channel_level(self.b as int, self.den as int) as u8,
            a: channel_level(self.a as int, self.den as int) as u8,
        }
    }

    /// Converts each channel to a byte by `channel_level`.
    pub fn quantize(&self) -> (out: QuantizedColor)
        requires
            self.wf(),
        ensures
            out == self.quantized(),
    {
        QuantizedColor {
            r: quantize_channel(self.r, self.den),
            g: quantize_channel(self.g, self.den),
            b: quantize_channel(self.b, self.den),
            a: quantize_channel(self.a, self.den),
        }
    }
}

proof fn lemma_double_step(qt: int, d: int, rem: int, m: int, n: int)
    by (nonlinear_arith)
    requires
        qt * d + rem == m * n,
    ensures
        (2 * qt) * d + 2 * rem == (2 * m) * n,
        (2 * qt + 1) * d + (2 * rem - d) == (2 * m) * n,
{
}

proof fn lemma_last_step(qt: int, d: int, rem: int, n: int)
    by (nonlinear_arith)
    requires
        qt * d + rem == 256 * n,
    ensures
        qt * d + (rem - n) == 255 * n,
        (qt - 1) * d + (rem - n + d) == 255 * n,
{
}

/// Computes `channel_level(num, den)` for any positive denominator. The
/// product `255 * num` may exceed 128 bits, so the quotient is built by
/// doubling a running quotient and remainder.
pub fn quantize_channel(num: i128, den: i128) -> (level: u8)
    requires
        den > 0,
    ensures
        level as int == channel_level(num as int, den as int),
{
    if num <= 0 {
        return 0;
    }
    if num >= den {
        return 255;
    }
    let n: u128 = num as u128;
    let d: u128 = den as u128;
    let mut qt: u128 = 0;
    let mut rem: u128 = n;
    let mut m: u128 = 1;
    while m < 256
        invariant
            0 < n < d,
            d <= i128::MAX,
            1 <= m <= 256,
            m == 1 || m == 2 || m == 4 || m == 8 || m == 16 || m == 32 || m == 64 || m == 128
                || m == 256,
            qt < m,
            rem < d,
            qt * d + rem == m * n,
        decreases 256 - m,
    {
        proof {
            lemma_double_step(qt as int, d as int, rem as int, m as int, n as int);
        }
        if rem >= d - rem {
            rem = rem - (d - rem);
            qt = 2 * qt + 1;
        } else {
            rem = 2 * rem;
            qt = 2 * qt;
        }
        m = 2 * m;
    }
    proof {
        lemma_last_step(qt as int, d as int, rem as int, n as int);
    }
    if rem >= n {
        proof {
            lemma_fundamental_div_mod_converse(255 * n, d as int, qt as int, rem - n);
        }
        qt as u8
    } else {
        proof {
            lemma_fundamental_div_mod_converse(255 * n, d as int, qt - 1, rem - n + d);
        }
        (qt - 1) as u8
    }
}

} // verus!
