//! What holds of a scale for every palette and every scalar.

use vstd::prelude::*;
use vstd::arithmetic::div_mod::{lemma_div_multiples_vanish_quotient, lemma_truncate_middle};
use vstd::arithmetic::mul::{lemma_mul_is_associative, lemma_mul_is_distributive_add};
use crate::color::{channel_level, NormalizedColor, QuantizedColor};
use crate::continuity::{gap, lemma_spline_is_lipschitz};
use crate::fraction::Fraction;
use crate::palette::{is_palette, is_stop, STOP_DEN};
use crate::scale::scale_position;
use crate::spline::{
    basis_blend, basis_weights, blend_den, blue_levels, control_values, green_levels,
    interpolated, local_position, red_levels, segment_index, spline_value,
};
use crate::spline_laws::{
    lemma_segment_in_range, lemma_spline_at_end, lemma_spline_at_start, lemma_spline_in_range,
    lemma_spline_value_bounded,
};

verus! {

/// A fraction and the same fraction with both parts multiplied by `k` stand
/// for the same byte.
pub proof fn lemma_level_of_multiple(k: int, num: int, den: int)
    requires
        k > 0,
        den > 0,
    ensures
        channel_level(k * num, k * den) == channel_level(num, den),
{
    assert(k * num <= 0 <==> num <= 0) by (nonlinear_arith)
        requires
            k > 0,
    ;
    assert(k * num >= k * den <==> num >= den) by (nonlinear_arith)
        requires
            k > 0,
    ;
    if 0 < num < den {
        lemma_div_multiples_vanish_quotient(k, 255 * num, den);
        assert(k * (255 * num) == 255 * (k * num)) by (nonlinear_arith);
    }
}

/// The bytes of a palette stop are its red, green and blue steps, and 255
/// for alpha.
pub proof fn lemma_stop_quantized(c: NormalizedColor)
    requires
        is_stop(c),
    ensures
        c.wf(),
        c.in_unit_range(),
        c.is_opaque(),
        c.quantized() == (QuantizedColor { r: c.r as u8, g: c.g as u8, b: c.b as u8, a: 255 }),
{
}

/// The colour of a palette is well formed and opaque at every position, and
/// its numerators are those of the three splines.
pub proof fn lemma_interpolated_wf(t: Fraction, stops: Seq<NormalizedColor>)
    requires
        t.wf(),
        is_palette(stops),
    ensures
        interpolated(t, stops).wf(),
        interpolated(t, stops).is_opaque(),
        interpolated(t, stops).den == STOP_DEN * blend_den(t.den as int),
        interpolated(t, stops).r == spline_value(t, red_levels(stops)),
        interpolated(t, stops).g == spline_value(t, green_levels(stops)),
        interpolated(t, stops).b == spline_value(t, blue_levels(stops)),
        interpolated(t, stops).quantized().a == 255,
{
    lemma_spline_value_bounded(t, red_levels(stops));
    lemma_spline_value_bounded(t, green_levels(stops));
    lemma_spline_value_bounded(t, blue_levels(stops));
}

/// At or before the start of the scale the palette shows its first stop.
pub proof fn lemma_first_stop(t: Fraction, stops: Seq<NormalizedColor>)
    requires
        t.wf(),
        is_palette(stops),
        t.num <= 0,
    ensures
        interpolated(t, stops).quantized() == stops[0].quantized(),
{
    let d = blend_den(t.den as int);
    let first = stops[0];
    assert(is_stop(first));
    lemma_interpolated_wf(t, stops);
    lemma_spline_at_start(t, red_levels(stops));
    lemma_spline_at_start(t, green_levels(stops));
    lemma_spline_at_start(t, blue_levels(stops));
    lemma_level_of_multiple(d, first.r as int, STOP_DEN as int);
    lemma_level_of_multiple(d, first.g as int, STOP_DEN as int);
    lemma_level_of_multiple(d, first.b as int, STOP_DEN as int);
    lemma_level_of_multiple(d, first.a as int, STOP_DEN as int);
    assert(d * STOP_DEN == STOP_DEN * d) by (nonlinear_arith);
}

/// At or past the end of the scale the palette shows its last stop.
pub proof fn lemma_last_stop(t: Fraction, stops: Seq<NormalizedColor>)
    requires
        t.wf(),
        is_palette(stops),
        t.num >= t.den,
    ensures
        interpolated(t, stops).quantized() == stops[stops.len() - 1].quantized(),
{
    let d = blend_den(t.den as int);
    let last = stops[stops.len() - 1];
    assert(is_stop(last));
    lemma_interpolated_wf(t, stops);
    lemma_spline_at_end(t, red_levels(stops));
    lemma_spline_at_end(t, green_levels(stops));
    lemma_spline_at_end(t, blue_levels(stops));
    lemma_level_of_multiple(d, last.r as int, STOP_DEN as int);
    lemma_level_of_multiple(d, last.g as int, STOP_DEN as int);
    lemma_level_of_multiple(d, last.b as int, STOP_DEN as int);
    lemma_level_of_multiple(d, last.a as int, STOP_DEN as int);
    assert(d * STOP_DEN == STOP_DEN * d) by (nonlinear_arith);
}

/// A scalar at the lower end of the domain is given the bytes of the first
/// stop, whatever the domain and with or without clamping.
pub proof fn lemma_scale_at_lower_end(stops: Seq<NormalizedColor>, clamp: bool, x0: i32, x1: i32)
    requires
        is_palette(stops),
        x0 != x1,
    ensures
        interpolated(scale_position(x0, clamp, x0, x1), stops).quantized() == stops[0].quantized(),
{
    lemma_first_stop(scale_position(x0, clamp, x0, x1), stops);
}

/// A scalar at the upper end of the domain is given the bytes of the last
/// stop, whatever the domain and with or without clamping.
pub proof fn lemma_scale_at_upper_end(stops: Seq<NormalizedColor>, clamp: bool, x0: i32, x1: i32)
    requires
        is_palette(stops),
        x0 != x1,
    ensures
        interpolated(scale_position(x1, clamp, x0, x1), stops).quantized() == stops[stops.len()
            - 1].quantized(),
{
    lemma_last_stop(scale_position(x1, clamp, x0, x1), stops);
}

/// With clamping, every scalar before the first end of the domain is treated
/// as that end: the positions agree, and so do the colours. Before the first
/// end means below it where the domain rises and above it where it falls.
pub proof fn lemma_clamp_before_domain(stops: Seq<NormalizedColor>, x: i32, x0: i32, x1: i32)
    requires
        (x0 < x1 && x < x0) || (x1 < x0 && x > x0),
    ensures
        scale_position(x, true, x0, x1) == scale_position(x0, true, x0, x1),
        interpolated(scale_position(x, true, x0, x1), stops) == interpolated(
            scale_position(x0, true, x0, x1),
            stops,
        ),
{
}

/// With clamping, every scalar past the second end of the domain is treated
/// as that end: the positions agree, and so do the colours. Past the second
/// end means above it where the domain rises and below it where it falls.
pub proof fn lemma_clamp_past_domain(stops: Seq<NormalizedColor>, x: i32, x0: i32, x1: i32)
    requires
        (x0 < x1 && x > x1) || (x1 < x0 && x < x1),
    ensures
        scale_position(x, true, x0, x1) == scale_position(x1, true, x0, x1),
        interpolated(scale_position(x, true, x0, x1), stops) == interpolated(
            scale_position(x1, true, x0, x1),
            stops,
        ),
{
}

/// The spline holds positions outside the scale to its ends by itself, so
/// clamping a position beforehand changes no colour.
pub proof fn lemma_clamp_changes_nothing(t: Fraction, stops: Seq<NormalizedColor>)
    requires
        t.wf(),
    ensures
        interpolated(t.clamped(), stops) == interpolated(t, stops),
{
}

/// The bytes of a scale are a function of its arguments: two results for the
/// same palette, scalar, clamping and domain are the same.
pub proof fn lemma_scale_is_deterministic(
    stops: Seq<NormalizedColor>,
    x: i32,
    clamp: bool,
    x0: i32,
    x1: i32,
    first: QuantizedColor,
    second: QuantizedColor,
)
    requires
        first == interpolated(scale_position(x, clamp, x0, x1), stops).quantized(),
        second == interpolated(scale_position(x, clamp, x0, x1), stops).quantized(),
    ensures
        first == second,
{
}

/// Before the last segment every channel of the colour of a palette lies
/// between zero and full intensity, so quantizing it clips nothing.
pub proof fn lemma_interpolated_in_unit_range(t: Fraction, stops: Seq<NormalizedColor>)
    requires
        t.wf(),
        is_palette(stops),
        segment_index(t, stops.len() as int) <= stops.len() - 2,
    ensures
        interpolated(t, stops).in_unit_range(),
{
    lemma_interpolated_wf(t, stops);
    lemma_spline_in_range(t, red_levels(stops));
    lemma_spline_in_range(t, green_levels(stops));
    lemma_spline_in_range(t, blue_levels(stops));
}

proof fn lemma_square_of_gap(x: int, y: int, bound: int)
    by (nonlinear_arith)
    requires
        gap(x, y) <= bound,
    ensures
        (x - y) * (x - y) <= bound * bound,
{
}

/// The colour of a palette is continuous inside each segment. For two
/// positions of one segment, written over one denominator `q`, the two
/// colours stand over one denominator, `1530 q^3`, and each of red, green and
/// blue differs by at most `45900 n q^2` times the distance of the numerators
/// of the positions: as fractions, by at most `30 n` times the distance of the
/// positions. The square of the Euclidean distance of the two colours is
/// therefore at most three times the square of that bound.
pub proof fn lemma_interpolation_is_continuous(s: Fraction, t: Fraction, stops: Seq<NormalizedColor>)
    requires
        s.wf(),
        t.wf(),
        s.den == t.den,
        is_palette(stops),
        segment_index(s, stops.len() as int) == segment_index(t, stops.len() as int),
    ensures
        ({
            let a = interpolated(s, stops);
            let b = interpolated(t, stops);
            let bound = 45900 * stops.len() * (s.den * s.den) * gap(s.num as int, t.num as int);
            &&& a.den == b.den
            &&& a.den == 1530 * (s.den * s.den * s.den)
            &&& gap(a.r as int, b.r as int) <= bound
            &&& gap(a.g as int, b.g as int) <= bound
            &&& gap(a.b as int, b.b as int) <= bound
            &&& (a.r - b.r) * (a.r - b.r) + (a.g - b.g) * (a.g - b.g) + (a.b - b.b) * (a.b - b.b)
                <= 3 * (bound * bound)
        }),
{
    let a = interpolated(s, stops);
    let b = interpolated(t, stops);
    let bound = 45900 * stops.len() * (s.den * s.den) * gap(s.num as int, t.num as int);
    lemma_interpolated_wf(s, stops);
    lemma_interpolated_wf(t, stops);
    lemma_spline_is_lipschitz(s, t, red_levels(stops));
    lemma_spline_is_lipschitz(s, t, green_levels(stops));
    lemma_spline_is_lipschitz(s, t, blue_levels(stops));
    lemma_square_of_gap(a.r as int, b.r as int, bound);
    lemma_square_of_gap(a.g as int, b.g as int, bound);
    lemma_square_of_gap(a.b as int, b.b as int, bound);
}

proof fn lemma_scaled_monomial(k: int, a: int, b: int, c: int)
    by (nonlinear_arith)
    ensures
        (k * a) * (k * b) * (k * c) == (k * k * k) * (a * b * c),
{
}

proof fn lemma_scaled_sum(k: int, w0: int, w1: int, w2: int, w3: int, v0: int, v1: int, v2: int, v3: int)
    ensures
        (k * w0) * v0 + (k * w1) * v1 + (k * w2) * v2 + (k * w3) * v3 == k * (w0 * v0 + w1 * v1
            + w2 * v2 + w3 * v3),
{
    lemma_mul_is_associative(k, w0, v0);
    lemma_mul_is_associative(k, w1, v1);
    lemma_mul_is_associative(k, w2, v2);
    lemma_mul_is_associative(k, w3, v3);
    lemma_mul_is_distributive_add(k, w0 * v0 + w1 * v1 + w2 * v2, w3 * v3);
    lemma_mul_is_distributive_add(k, w0 * v0 + w1 * v1, w2 * v2);
    lemma_mul_is_distributive_add(k, w0 * v0, w1 * v1);
}

proof fn lemma_scaled_weights(c: int, q3: int, uq2: int, u2q: int, u3: int)
    by (nonlinear_arith)
    ensures
        c * q3 - 3 * (c * uq2) + 3 * (c * u2q) - c * u3 == c * (q3 - 3 * uq2 + 3 * u2q - u3),
        4 * (c * q3) - 6 * (c * u2q) + 3 * (c * u3) == c * (4 * q3 - 6 * u2q + 3 * u3),
        c * q3 + 3 * (c * uq2) + 3 * (c * u2q) - 3 * (c * u3) == c * (q3 + 3 * uq2 + 3 * u2q - 3
            * u3),
        6 * (c * q3) == c * (6 * q3),
{
}

proof fn lemma_scaled_position(k: int, p: int, q: int, n: int)
    requires
        0 < k,
        0 < p < q,
        0 < n,
    ensures
        0 < k * p < k * q,
        ((k * p) * n) / (k * q) == (p * n) / q,
        ((k * p) * n) % (k * q) == k * ((p * n) % q),
{
    assert(0 < k * p < k * q) by (nonlinear_arith)
        requires
            0 < k,
            0 < p < q,
    ;
    assert((k * p) * n == k * (p * n)) by (nonlinear_arith);
    assert(0 <= p * n) by (nonlinear_arith)
        requires
            0 < p,
            0 < n,
    ;
    lemma_div_multiples_vanish_quotient(k, p * n, q);
    lemma_truncate_middle(p * n, k, q);
}

proof fn lemma_scaled_bounds(k: int, u: int, q: int)
    by (nonlinear_arith)
    requires
        0 < k,
        0 <= u <= q,
        0 < q,
    ensures
        0 <= k * u <= k * q,
        0 < k * q,
        u == 0 ==> k * u == 0,
        u < q ==> k * u < k * q,
        0 < k * k * k,
{
}

/// Written over a `k` times larger denominator, a position gives a spline
/// value with `k` cubed times the numerator and `k` cubed times the
/// denominator: the same value.
pub proof fn lemma_spline_of_same_position(s: Fraction, t: Fraction, k: int, values: Seq<u8>)
    requires
        s.wf(),
        k > 0,
        t.num == k * s.num,
        t.den == k * s.den,
        values.len() >= 2,
    ensures
        spline_value(t, values) == (k * k * k) * spline_value(s, values),
        blend_den(t.den as int) == (k * k * k) * blend_den(s.den as int),
{
    let n = values.len() as int;
    let q = s.den as int;
    let p = s.num as int;
    let cube = k * k * k;
    assert(k * p <= 0 <==> p <= 0) by (nonlinear_arith)
        requires
            k > 0,
    ;
    assert(k * p >= k * q <==> p >= q) by (nonlinear_arith)
        requires
            k > 0,
    ;
    if 0 < p < q {
        lemma_scaled_position(k, p, q, n);
    }
    lemma_segment_in_range(s, n);
    let i = segment_index(s, n);
    let u = local_position(s, n).num as int;
    lemma_scaled_bounds(k, u, q);
    assert(segment_index(t, n) == i);
    assert(local_position(t, n).num == k * u);
    let (v0, v1, v2, v3) = control_values(values, i);
    let (w0, w1, w2, w3) = basis_weights(u, q);
    lemma_scaled_monomial(k, q, q, q);
    lemma_scaled_monomial(k, q, q, u);
    lemma_scaled_monomial(k, u, u, q);
    lemma_scaled_monomial(k, u, u, u);
    lemma_scaled_weights(cube, q * q * q, q * q * u, u * u * q, u * u * u);
    assert(basis_weights(k * u, k * q) == (cube * w0, cube * w1, cube * w2, cube * w3));
    lemma_scaled_sum(cube, w0, w1, w2, w3, v0, v1, v2, v3);
}

/// The bytes of a colour depend on the position alone, not on the
/// denominator over which it is written: `k p / k q` gives the bytes of
/// `p / q`.
pub proof fn lemma_same_position_same_bytes(
    s: Fraction,
    t: Fraction,
    k: int,
    stops: Seq<NormalizedColor>,
)
    requires
        s.wf(),
        k > 0,
        t.num == k * s.num,
        t.den == k * s.den,
        is_palette(stops),
    ensures
        interpolated(t, stops).quantized() == interpolated(s, stops).quantized(),
{
    let cube = k * k * k;
    lemma_scaled_bounds(k, 0, s.den as int);
    let a = interpolated(s, stops);
    let b = interpolated(t, stops);
    lemma_interpolated_wf(s, stops);
    lemma_interpolated_wf(t, stops);
    lemma_spline_of_same_position(s, t, k, red_levels(stops));
    lemma_spline_of_same_position(s, t, k, green_levels(stops));
    lemma_spline_of_same_position(s, t, k, blue_levels(stops));
    assert(b.den == cube * a.den) by (nonlinear_arith)
        requires
            b.den == 255 * blend_den(t.den as int),
            a.den == 255 * blend_den(s.den as int),
            blend_den(t.den as int) == cube * blend_den(s.den as int),
    ;
    lemma_level_of_multiple(cube, a.r as int, a.den as int);
    lemma_level_of_multiple(cube, a.g as int, a.den as int);
    lemma_level_of_multiple(cube, a.b as int, a.den as int);
    lemma_level_of_multiple(cube, a.a as int, a.den as int);
}

} // verus!
