//! What holds of the spline over one channel: its range and its ends.

use vstd::prelude::*;
use crate::fraction::Fraction;
use crate::spline::{
    basis_blend, basis_weights, blend_den, control_values, local_position, segment_index,
    spline_value,
};

verus! {

proof fn lemma_cube_of_u32(q: int)
    by (nonlinear_arith)
    requires
        0 < q <= 0xffff_ffff,
    ensures
        0 < q * q * q <= 0xffff_fffd_0000_0002_ffff_ffff,
{
}

proof fn lemma_monomials(q: int, u: int)
    by (nonlinear_arith)
    ensures
        q * (q * q) == q * q * q,
        q * (q * u) == q * q * u,
        q * (u * u) == u * u * q,
        u * (q * q) == q * q * u,
        u * (q * u) == u * u * q,
        u * (u * u) == u * u * u,
{
}

proof fn lemma_expand_products(q: int, u: int, a: int, b: int, c: int)
    by (nonlinear_arith)
    ensures
        (q - u) * (a - 2 * b + c) == q * a - 2 * (q * b) + q * c - u * a + 2 * (u * b) - u * c,
        (q - u) * (a + b - c) == q * a + q * b - q * c - u * a - u * b + u * c,
        c * (q - u) == c * q - c * u,
        q * (a - c) == q * a - q * c,
        u * (3 * a - c) == 3 * (u * a) - u * c,
{
}

proof fn lemma_square_of_difference(q: int, u: int)
    by (nonlinear_arith)
    ensures
        (q - u) * (q - u) == q * q - 2 * (q * u) + u * u,
        (q - u) * (q - u) * (q - u) == (q - u) * ((q - u) * (q - u)),
{
}

proof fn lemma_cubic_factors(u: int, q: int)
    ensures
        (q - u) * (q - u) * (q - u) == q * q * q - 3 * (q * q * u) + 3 * (u * u * q) - u * u * u,
        (q - u) * (q * q + q * u - u * u) == q * q * q - 2 * (u * u * q) + u * u * u,
        u * u * (q - u) == u * u * q - u * u * u,
        q * (q * q - u * u) == q * q * q - u * u * q,
        u * (3 * (q * q) - u * u) == 3 * (q * q * u) - u * u * u,
{
    lemma_monomials(q, u);
    lemma_square_of_difference(q, u);
    lemma_expand_products(q, u, q * q, q * u, u * u);
}

proof fn lemma_cubic_signs(u: int, q: int)
    by (nonlinear_arith)
    requires
        0 <= u <= q,
    ensures
        (q - u) * (q - u) * (q - u) >= 0,
        (q - u) * (q * q + q * u - u * u) >= 0,
        u * u * (q - u) >= 0,
        q * (q * q - u * u) >= 0,
        u * (3 * (q * q) - u * u) >= 0,
        q * q * q >= 0,
        q * q * u >= 0,
        u * u * u >= 0,
{
    assert(q * q >= u * u);
    assert(q * u >= u * u);
    assert((q - u) * (q - u) >= 0);
}

proof fn lemma_weights(u: int, q: int)
    requires
        0 <= u <= q,
    ensures
        basis_weights(u, q).0 >= 0,
        basis_weights(u, q).1 >= 0,
        basis_weights(u, q).2 >= 0,
        basis_weights(u, q).3 >= 0,
        basis_weights(u, q).0 + basis_weights(u, q).1 + basis_weights(u, q).2 + basis_weights(
            u,
            q,
        ).3 == blend_den(q),
        basis_weights(u, q).2 - basis_weights(u, q).0 >= 0,
        basis_weights(u, q).1 - basis_weights(u, q).3 >= 0,
{
    lemma_cubic_factors(u, q);
    lemma_cubic_signs(u, q);
}

proof fn lemma_weighted_sum(
    c0: int,
    c1: int,
    c2: int,
    c3: int,
    v0: int,
    v1: int,
    v2: int,
    v3: int,
    lo: int,
    hi: int,
)
    by (nonlinear_arith)
    requires
        c0 >= 0,
        c1 >= 0,
        c2 >= 0,
        c3 >= 0,
        lo <= v0 <= hi,
        lo <= v1 <= hi,
        lo <= v2 <= hi,
        lo <= v3 <= hi,
    ensures
        lo * (c0 + c1 + c2 + c3) <= c0 * v0 + c1 * v1 + c2 * v2 + c3 * v3 <= hi * (c0 + c1 + c2
            + c3),
{
    assert(lo * c0 <= c0 * v0 <= hi * c0);
    assert(lo * c1 <= c1 * v1 <= hi * c1);
    assert(lo * c2 <= c2 * v2 <= hi * c2);
    assert(lo * c3 <= c3 * v3 <= hi * c3);
}

/// Inside a segment the blend lies between the smallest and the largest of
/// its control values: its four weights are not negative and add up to six.
pub proof fn lemma_blend_between(u: int, q: int, v0: int, v1: int, v2: int, v3: int, lo: int, hi: int)
    requires
        0 <= u <= q,
        lo <= v0 <= hi,
        lo <= v1 <= hi,
        lo <= v2 <= hi,
        lo <= v3 <= hi,
    ensures
        lo * blend_den(q) <= basis_blend(u, q, v0, v1, v2, v3) <= hi * blend_den(q),
{
    lemma_weights(u, q);
    let (c0, c1, c2, c3) = basis_weights(u, q);
    lemma_weighted_sum(c0, c1, c2, c3, v0, v1, v2, v3, lo, hi);
}

proof fn lemma_segment_bounds(p: int, q: int, n: int)
    by (nonlinear_arith)
    requires
        0 < p < q,
        0 < n,
    ensures
        0 <= (p * n) / q < n,
        0 <= (p * n) % q < q,
{
}

/// The segment of a position is one of the `n` segments, and the local
/// position inside it lies between zero and one.
pub proof fn lemma_segment_in_range(t: Fraction, n: int)
    requires
        t.wf(),
        n >= 2,
    ensures
        0 <= segment_index(t, n) < n,
        local_position(t, n).den == t.den,
        local_position(t, n).in_unit_range(),
        t.num <= 0 ==> segment_index(t, n) == 0 && local_position(t, n).num == 0,
        t.num >= t.den ==> segment_index(t, n) == n - 2 && local_position(t, n).num == t.den,
{
    if 0 < t.num < t.den {
        lemma_segment_bounds(t.num as int, t.den as int, n);
    }
}

/// Every control value stays within 765 of zero: one beyond the end of the
/// sequence is at most two steps of 255 away from a stored value. The second
/// is always a stored value, and so is the third in all segments but the last.
pub proof fn lemma_control_values_bounded(values: Seq<u8>, i: int)
    requires
        values.len() >= 2,
        0 <= i < values.len(),
    ensures
        ({
            let (v0, v1, v2, v3) = control_values(values, i);
            &&& -765 <= v0 <= 765
            &&& 0 <= v1 <= 255
            &&& -765 <= v2 <= 765
            &&& -765 <= v3 <= 765
            &&& v1 == values[i]
            &&& i + 1 < values.len() ==> v2 == values[i + 1]
        }),
{
}

/// The spline never leaves the range of its control values, so its numerator
/// fits the integers that carry it.
pub proof fn lemma_spline_value_bounded(t: Fraction, values: Seq<u8>)
    requires
        t.wf(),
        values.len() >= 2,
    ensures
        0 < blend_den(t.den as int) <= 6 * 0xffff_fffd_0000_0002_ffff_ffff,
        -765 * blend_den(t.den as int) <= spline_value(t, values) <= 765
            * blend_den(t.den as int),
{
    let n = values.len() as int;
    lemma_cube_of_u32(t.den as int);
    lemma_segment_in_range(t, n);
    let i = segment_index(t, n);
    let u = local_position(t, n);
    lemma_control_values_bounded(values, i);
    let (v0, v1, v2, v3) = control_values(values, i);
    lemma_blend_between(
        u.num as int,
        t.den as int,
        v0,
        v1,
        v2,
        v3,
        -765,
        765,
    );
}

proof fn lemma_collect_at_start(c: int, v1: int, v2: int, v3: int)
    by (nonlinear_arith)
    ensures
        c * (2 * v1 - v2) + (4 * c) * v1 + c * v2 + 0 * v3 == (6 * c) * v1,
{
}

proof fn lemma_collect_at_end(c: int, v0: int, v1: int, v2: int)
    by (nonlinear_arith)
    ensures
        0 * v0 + c * v1 + (4 * c) * v2 + c * (2 * v2 - v1) == (6 * c) * v2,
{
}

proof fn lemma_blend_at_start(q: int, v1: int, v2: int, v3: int)
    ensures
        basis_blend(0, q, 2 * v1 - v2, v1, v2, v3) == blend_den(q) * v1,
{
    assert(q * q * 0 == 0 && 0 * 0 * q == 0 && 0 * 0 * 0 == 0) by (nonlinear_arith);
    lemma_collect_at_start(q * q * q, v1, v2, v3);
}

proof fn lemma_blend_at_end(q: int, v0: int, v1: int, v2: int)
    ensures
        basis_blend(q, q, v0, v1, v2, 2 * v2 - v1) == blend_den(q) * v2,
{
    lemma_collect_at_end(q * q * q, v0, v1, v2);
}

/// At or before the start of the scale the spline takes the first value.
pub proof fn lemma_spline_at_start(t: Fraction, values: Seq<u8>)
    requires
        t.wf(),
        values.len() >= 2,
        t.num <= 0,
    ensures
        spline_value(t, values) == blend_den(t.den as int) * values[0],
{
    let (v0, v1, v2, v3) = control_values(values, 0);
    lemma_blend_at_start(t.den as int, v1, v2, v3);
}

/// At or past the end of the scale the spline takes the last value.
pub proof fn lemma_spline_at_end(t: Fraction, values: Seq<u8>)
    requires
        t.wf(),
        values.len() >= 2,
        t.num >= t.den,
    ensures
        spline_value(t, values) == blend_den(t.den as int) * values[values.len() - 1],
{
    let n = values.len() as int;
    let (v0, v1, v2, v3) = control_values(values, n - 2);
    lemma_blend_at_end(t.den as int, v0, v1, v2);
}

proof fn lemma_combination(a: int, b: int, c: int, v: int)
    by (nonlinear_arith)
    ensures
        (2 * a + b - c) * v == 2 * (a * v) + b * v - c * v,
        v * (2 * a + b - c) == 2 * (v * a) + v * b - v * c,
        v * a == a * v,
{
}

proof fn lemma_fold_outer_values(w0: int, w1: int, w2: int, w3: int, v0: int, v1: int, v2: int, v3: int)
    ensures
        w0 * (2 * v1 - v2) + w1 * v1 + w2 * v2 + w3 * v3 == (2 * w0 + w1) * v1 + (w2 - w0) * v2
            + w3 * v3 + 0 * v1,
        w0 * v0 + w1 * v1 + w2 * v2 + w3 * (2 * v2 - v1) == w0 * v0 + (w1 - w3) * v1 + (w2 + 2
            * w3) * v2 + 0 * v1,
        w0 * (2 * v1 - v2) + w1 * v1 + w2 * v2 + w3 * (2 * v2 - v1) == (2 * w0 + w1 - w3) * v1 + (
        w2 - w0 + 2 * w3) * v2 + 0 * v1 + 0 * v1,
{
    lemma_combination(v1, 0, v2, w0);
    lemma_combination(v2, 0, v1, w3);
    lemma_combination(w0, w1, 0, v1);
    lemma_combination(0, w2, w0, v2);
    lemma_combination(0, w1, w3, v1);
    lemma_combination(w3, w2, 0, v2);
    lemma_combination(w0, w1, w3, v1);
    lemma_combination(w3, w2, w0, v2);
}

/// Before the last segment the spline stays between the smallest and the
/// largest byte: a control value that continues the line beyond an end only
/// moves weight between the two stored values next to it. In the last
/// segment two control values lie beyond the end, and the spline follows the
/// line through the last two values out of that range.
pub proof fn lemma_spline_in_range(t: Fraction, values: Seq<u8>)
    requires
        t.wf(),
        values.len() >= 2,
        segment_index(t, values.len() as int) <= values.len() - 2,
    ensures
        0 <= spline_value(t, values) <= 255 * blend_den(t.den as int),
{
    let n = values.len() as int;
    let q = t.den as int;
    lemma_segment_in_range(t, n);
    let i = segment_index(t, n);
    let u = local_position(t, n).num as int;
    let (v0, v1, v2, v3) = control_values(values, i);
    let (w0, w1, w2, w3) = basis_weights(u, q);
    lemma_weights(u, q);
    lemma_fold_outer_values(w0, w1, w2, w3, v0, v1, v2, v3);
    if i == 0 && i == n - 2 {
        lemma_weighted_sum(2 * w0 + w1 - w3, w2 - w0 + 2 * w3, 0, 0, v1, v2, v1, v1, 0, 255);
    } else if i == 0 {
        lemma_weighted_sum(2 * w0 + w1, w2 - w0, w3, 0, v1, v2, v3, v1, 0, 255);
    } else if i == n - 2 {
        lemma_weighted_sum(w0, w1 - w3, w2 + 2 * w3, 0, v0, v1, v2, v1, 0, 255);
    } else {
        lemma_weighted_sum(w0, w1, w2, w3, v0, v1, v2, v3, 0, 255);
    }
}

} // verus!
