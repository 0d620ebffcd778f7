//! The uniform cubic B-spline over one channel.

use vstd::prelude::*;
use crate::color::NormalizedColor;
use crate::fraction::{Fraction, Ratio};
use crate::palette::{is_palette, STOP_DEN};

verus! {

/// The four weights of a segment at the local position `u / q`, each scaled
/// by `q` cubed so that it is an integer. As fractions they are
/// `1 - 3u + 3u^2 - u^3`, `4 - 6u^2 + 3u^3`, `1 + 3u + 3u^2 - 3u^3` and `u^3`.
pub open spec fn basis_weights(u: int, q: int) -> (int, int, int, int) {
    let q3 = q * q * q;
    let uq2 = q * q * u;
    let u2q = u * u * q;
    let u3 = u * u * u;
    (q3 - 3 * uq2 + 3 * u2q - u3, 4 * q3 - 6 * u2q + 3 * u3, q3 + 3 * uq2 + 3 * u2q - 3 * u3, u3)
}

/// The numerator of the blend of four control values at the local position
/// `u / q`: each value times its weight. The blend itself is this sum over
/// `blend_den(q)`.
pub open spec fn basis_blend(u: int, q: int, v0: int, v1: int, v2: int, v3: int) -> int {
    let (w0, w1, w2, w3) = basis_weights(u, q);
    w0 * v0 + w1 * v1 + w2 * v2 + w3 * v3
}

/// The denominator under `basis_blend`: six times the cube of `q`.
pub open spec fn blend_den(q: int) -> int {
    6 * (q * q * q)
}

proof fn lemma_square_bound(a: int, b: int)
    by (nonlinear_arith)
    requires
        0 <= a <= 0xffff_ffff,
        0 <= b <= 0xffff_ffff,
    ensures
        0 <= a * b <= 0xffff_fffe_0000_0001,
        a > 0 && b > 0 ==> a * b > 0,
{
}

proof fn lemma_cube_bound(ab: int, c: int)
    by (nonlinear_arith)
    requires
        0 <= ab <= 0xffff_fffe_0000_0001,
        0 <= c <= 0xffff_ffff,
    ensures
        0 <= ab * c <= 0xffff_fffd_0000_0002_ffff_ffff,
        ab > 0 && c > 0 ==> ab * c > 0,
{
}

proof fn lemma_weighted_bound(c: int, v: int)
    by (nonlinear_arith)
    requires
        -0x7_0000_0000_0000_0000_0000_0000 <= c <= 0x7_0000_0000_0000_0000_0000_0000,
        -0x8000 <= v <= 0x7fff,
    ensures
        -0x3_8000_0000_0000_0000_0000_0000_0000 <= c * v <= 0x3_8000_0000_0000_0000_0000_0000_0000,
{
}

/// Blends four control values at the local position `t1` inside a segment:
/// the sum of the values, each times its weight, over six.
pub fn basis(t1: Fraction, v0: i16, v1: i16, v2: i16, v3: i16) -> (out: Ratio)
    requires
        t1.wf(),
        t1.in_unit_range(),
    ensures
        out.num == basis_blend(t1.num as int, t1.den as int, v0 as int, v1 as int, v2 as int, v3 as int),
        out.den == blend_den(t1.den as int),
        out.wf(),
{
    let q: i128 = t1.den as i128;
    let u: i128 = t1.num as i128;
    proof {
        lemma_square_bound(q as int, q as int);
        lemma_square_bound(u as int, u as int);
        lemma_cube_bound(q * q, q as int);
        lemma_cube_bound(u * u, u as int);
        lemma_cube_bound(q * q, u as int);
        lemma_cube_bound(u * u, q as int);
    }
    let q2: i128 = q * q;
    let q3: i128 = q2 * q;
    let u2: i128 = u * u;
    let u3: i128 = u2 * u;
    let uq2: i128 = q2 * u;
    let u2q: i128 = u2 * q;
    let c0: i128 = q3 - 3 * uq2 + 3 * u2q - u3;
    let c1: i128 = 4 * q3 - 6 * u2q + 3 * u3;
    let c2: i128 = q3 + 3 * uq2 + 3 * u2q - 3 * u3;
    let c3: i128 = u3;
    proof {
        lemma_weighted_bound(c0 as int, v0 as int);
        lemma_weighted_bound(c1 as int, v1 as int);
        lemma_weighted_bound(c2 as int, v2 as int);
        lemma_weighted_bound(c3 as int, v3 as int);
    }
    let num: i128 = c0 * (v0 as i128) + c1 * (v1 as i128) + c2 * (v2 as i128) + c3 * (v3 as i128);
    Ratio { num, den: 6 * q3 }
}

/// The segment in which the position `t` falls, for `n` control values. The
/// scale is cut into `n` equal segments, numbered from zero, and a position
/// inside the scale belongs to segment `floor(t * n)`. A position at or
/// before the start belongs to the first segment, and one at or past the end
/// to segment `n - 2`, the last that has a stored value at each of its ends.
pub open spec fn segment_index(t: Fraction, n: int) -> int {
    if t.num <= 0 {
        0
    } else if t.num >= t.den {
        n - 2
    } else {
        (t.num * n) / (t.den as int)
    }
}

/// The position of `t` inside its segment: what is left of `t * n` beyond the
/// segment's start, over the denominator of `t`. It is zero at or before the
/// start of the scale and one at or past its end.
pub open spec fn local_position(t: Fraction, n: int) -> Fraction {
    if t.num <= 0 {
        Fraction { num: 0, den: t.den }
    } else if t.num >= t.den {
        Fraction { num: t.den as i64, den: t.den }
    } else {
        Fraction { num: ((t.num * n) % (t.den as int)) as i64, den: t.den }
    }
}

/// The four control values around segment `i`. The two in the middle are
/// `values[i]` and `values[i + 1]`, the outer two are `values[i - 1]` and
/// `values[i + 2]`. One that would lie outside the sequence continues the
/// line through the two control values next to it: `2 v1 - v0` for the third
/// in the last segment, `2 v1 - v2` for the first in the first segment, and
/// `2 v2 - v1` for the fourth in the last two segments.
pub open spec fn control_values(values: Seq<u8>, i: int) -> (int, int, int, int) {
    let n = values.len() as int;
    let v1 = values[i] as int;
    let v2 = if i + 1 < n {
        values[i + 1] as int
    } else {
        2 * v1 - values[i - 1]
    };
    let v0 = if i > 0 {
        values[i - 1] as int
    } else {
        2 * v1 - v2
    };
    let v3 = if i + 2 < n {
        values[i + 2] as int
    } else {
        2 * v2 - v1
    };
    (v0, v1, v2, v3)
}

/// The numerator of the spline through `values` at `t`, over the denominator
/// `blend_den(t.den)`.
pub open spec fn spline_value(t: Fraction, values: Seq<u8>) -> int {
    let n = values.len() as int;
    let u = local_position(t, n);
    let (v0, v1, v2, v3) = control_values(values, segment_index(t, n));
    basis_blend(u.num as int, u.den as int, v0, v1, v2, v3)
}

proof fn lemma_index_bounds(p: int, q: int, n: int)
    by (nonlinear_arith)
    requires
        0 < p < q,
        0 <= n,
        q <= 0xffff_ffff,
        n <= 0xffff_ffff_ffff_ffff,
    ensures
        0 <= p * n <= 0xffff_ffff_0000_0000_0000_0000,
        n > 0 ==> 0 <= (p * n) / q < n,
        0 <= (p * n) % q < q,
{
}

/// Evaluates the uniform cubic B-spline through `values` at the position `t`:
/// the blend of the control values around the segment of `t`, at the local
/// position of `t` inside that segment. No position reads outside `values`.
pub fn spline(t: Fraction, values: &[u8]) -> (out: Ratio)
    requires
        t.wf(),
        values@.len() >= 2,
    ensures
        out.num == spline_value(t, values@),
        out.den == blend_den(t.den as int),
        out.wf(),
{
    let n: usize = values.len();
    let i: usize;
    let u: i64;
    if t.num <= 0 {
        i = 0;
        u = 0;
    } else if t.num >= t.den as i64 {
        i = n - 2;
        u = t.den as i64;
    } else {
        proof {
            lemma_index_bounds(t.num as int, t.den as int, n as int);
        }
        let s: u128 = (t.num as u128) * (n as u128);
        let q: u128 = t.den as u128;
        i = (s / q) as usize;
        u = (s % q) as i64;
    }
    let v1: i16 = values[i] as i16;
    let v2: i16 = if n - i > 1 {
        values[i + 1] as i16
    } else {
        2 * v1 - values[i - 1] as i16
    };
    let v0: i16 = if i > 0 {
        values[i - 1] as i16
    } else {
        2 * v1 - v2
    };
    let v3: i16 = if n - i > 2 {
        values[i + 2] as i16
    } else {
        2 * v2 - v1
    };
    basis(Fraction { num: u, den: t.den }, v0, v1, v2, v3)
}

/// The red channel of each stop, in steps of 1/255.
pub open spec fn red_levels(stops: Seq<NormalizedColor>) -> Seq<u8> {
    Seq::new(stops.len(), |i: int| stops[i].r as u8)
}

/// The green channel of each stop, in steps of 1/255.
pub open spec fn green_levels(stops: Seq<NormalizedColor>) -> Seq<u8> {
    Seq::new(stops.len(), |i: int| stops[i].g as u8)
}

/// The blue channel of each stop, in steps of 1/255.
pub open spec fn blue_levels(stops: Seq<NormalizedColor>) -> Seq<u8> {
    Seq::new(stops.len(), |i: int| stops[i].b as u8)
}

/// The colour of a palette at the position `t`: the spline through each of
/// the red, green and blue channels of its stops, and full alpha. The
/// channels of the stops are steps of 1/255, so the common denominator is 255
/// times that of the spline.
pub open spec fn interpolated(t: Fraction, stops: Seq<NormalizedColor>) -> NormalizedColor {
    NormalizedColor {
        r: spline_value(t, red_levels(stops)) as i128,
        g: spline_value(t, green_levels(stops)) as i128,
        b: spline_value(t, blue_levels(stops)) as i128,
        a: (STOP_DEN * blend_den(t.den as int)) as i128,
        den: (STOP_DEN * blend_den(t.den as int)) as i128,
    }
}

/// Interpolates a palette at the position `t`, channel by channel.
pub fn rgb_spline(t: Fraction, colors: &[NormalizedColor]) -> (out: NormalizedColor)
    requires
        t.wf(),
        is_palette(colors@),
    ensures
        out == interpolated(t, colors@),
        out.wf(),
        out.is_opaque(),
{
    let n: usize = colors.len();
    let mut r_values: Vec<u8> = Vec::new();
    let mut g_values: Vec<u8> = Vec::new();
    let mut b_values: Vec<u8> = Vec::new();
    let mut i: usize = 0;
    while i < n
        invariant
            n == colors@.len(),
            is_palette(colors@),
            i <= n,
            r_values@.len() == i,
            g_values@.len() == i,
            b_values@.len() == i,
            forall|k: int| 0 <= k < i ==> #[trigger] r_values@[k] == colors@[k].r as u8,
            forall|k: int| 0 <= k < i ==> #[trigger] g_values@[k] == colors@[k].g as u8,
            forall|k: int| 0 <= k < i ==> #[trigger] b_values@[k] == colors@[k].b as u8,
        decreases n - i,
    {
        let c = colors[i];
        r_values.push(c.r as u8);
        g_values.push(c.g as u8);
        b_values.push(c.b as u8);
        i = i + 1;
    }
    proof {
        assert(r_values@ =~= red_levels(colors@));
        assert(g_values@ =~= green_levels(colors@));
        assert(b_values@ =~= blue_levels(colors@));
        let q = t.den as int;
        lemma_square_bound(q, q);
        lemma_cube_bound(q * q, q);
    }
    let r = spline(t, r_values.as_slice());
    let g = spline(t, g_values.as_slice());
    let b = spline(t, b_values.as_slice());
    let den: i128 = STOP_DEN * r.den;
    NormalizedColor { r: r.num, g: g.num, b: b.num, a: den, den }
}

} // verus!
