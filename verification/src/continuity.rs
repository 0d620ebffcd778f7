//! The spline changes little where the position changes little.

use vstd::prelude::*;
use vstd::arithmetic::div_mod::lemma_fundamental_div_mod;
use vstd::arithmetic::mul::lemma_mul_is_distributive_sub_other_way;
use crate::fraction::Fraction;
use crate::spline::{
    basis_blend, basis_weights, control_values, local_position, segment_index, spline_value,
};
use crate::spline_laws::{lemma_control_values_bounded, lemma_segment_in_range};

verus! {

/// How far apart two integers are.
pub open spec fn gap(a: int, b: int) -> int {
    if a >= b {
        a - b
    } else {
        b - a
    }
}

proof fn lemma_scaled_gap(d: int, e: int, m: int)
    by (nonlinear_arith)
    requires
        -m <= e <= m,
    ensures
        -(m * gap(d, 0)) <= d * e <= m * gap(d, 0),
{
}

proof fn lemma_weight_slopes(a: int, b: int, q: int)
    by (nonlinear_arith)
    requires
        0 <= a <= q,
        0 <= b <= q,
    ensures
        0 <= a * a + a * b + b * b <= 3 * (q * q),
        0 <= q * (a + b) <= 2 * (q * q),
{
    assert(0 <= a * a <= q * q);
    assert(0 <= a * b <= q * q);
    assert(0 <= b * b <= q * q);
    assert(0 <= q * a <= q * q);
    assert(0 <= q * b <= q * q);
}

proof fn lemma_cube_difference(a: int, b: int)
    by (nonlinear_arith)
    ensures
        a * a * a - b * b * b == (a - b) * (a * a + a * b + b * b),
{
}

proof fn lemma_square_difference(a: int, b: int, q: int)
    by (nonlinear_arith)
    ensures
        a * a * q - b * b * q == (a - b) * (q * (a + b)),
        q * q * a - q * q * b == (a - b) * (q * q),
{
}

proof fn lemma_collect_slopes(d: int, e: int, f: int, qq: int)
    by (nonlinear_arith)
    ensures
        3 * (d * f) - 3 * (d * qq) - d * e == d * (3 * f - 3 * qq - e),
        3 * (d * e) - 6 * (d * f) == d * (3 * e - 6 * f),
        3 * (d * qq) + 3 * (d * f) - 3 * (d * e) == d * (3 * qq + 3 * f - 3 * e),
{
}

proof fn lemma_weight_differences(a: int, b: int, q: int, e: int, f: int, qq: int)
    requires
        e == a * a + a * b + b * b,
        f == q * (a + b),
        qq == q * q,
    ensures
        basis_weights(a, q).0 - basis_weights(b, q).0 == (a - b) * (3 * f - 3 * qq - e),
        basis_weights(a, q).1 - basis_weights(b, q).1 == (a - b) * (3 * e - 6 * f),
        basis_weights(a, q).2 - basis_weights(b, q).2 == (a - b) * (3 * qq + 3 * f - 3 * e),
        basis_weights(a, q).3 - basis_weights(b, q).3 == (a - b) * e,
{
    lemma_cube_difference(a, b);
    lemma_square_difference(a, b, q);
    lemma_collect_slopes(a - b, e, f, qq);
}

proof fn lemma_weighted_gap(dw: int, v: int, m: int)
    by (nonlinear_arith)
    requires
        -m <= dw <= m,
        -765 <= v <= 765,
    ensures
        -(765 * m) <= dw * v <= 765 * m,
{
}

proof fn lemma_blend_split(
    a0: int,
    a1: int,
    a2: int,
    a3: int,
    b0: int,
    b1: int,
    b2: int,
    b3: int,
    v0: int,
    v1: int,
    v2: int,
    v3: int,
)
    ensures
        (a0 * v0 + a1 * v1 + a2 * v2 + a3 * v3) - (b0 * v0 + b1 * v1 + b2 * v2 + b3 * v3) == (a0
            - b0) * v0 + (a1 - b1) * v1 + (a2 - b2) * v2 + (a3 - b3) * v3,
{
    lemma_mul_is_distributive_sub_other_way(v0, a0, b0);
    lemma_mul_is_distributive_sub_other_way(v1, a1, b1);
    lemma_mul_is_distributive_sub_other_way(v2, a2, b2);
    lemma_mul_is_distributive_sub_other_way(v3, a3, b3);
}

/// Inside a segment the blend changes by at most a fixed multiple of the
/// distance between two local positions.
pub proof fn lemma_blend_is_lipschitz(
    a: int,
    b: int,
    q: int,
    v0: int,
    v1: int,
    v2: int,
    v3: int,
)
    requires
        0 <= a <= q,
        0 <= b <= q,
        -765 <= v0 <= 765,
        -765 <= v1 <= 765,
        -765 <= v2 <= 765,
        -765 <= v3 <= 765,
    ensures
        gap(basis_blend(a, q, v0, v1, v2, v3), basis_blend(b, q, v0, v1, v2, v3)) <= 45900 * (q
            * q) * gap(a, b),
{
    let e = a * a + a * b + b * b;
    let f = q * (a + b);
    let qq = q * q;
    let g = gap(a - b, 0);
    lemma_weight_slopes(a, b, q);
    lemma_weight_differences(a, b, q, e, f, qq);
    let (a0, a1, a2, a3) = basis_weights(a, q);
    let (b0, b1, b2, b3) = basis_weights(b, q);
    lemma_scaled_gap(a - b, 3 * f - 3 * qq - e, 12 * qq);
    lemma_scaled_gap(a - b, 3 * e - 6 * f, 21 * qq);
    lemma_scaled_gap(a - b, 3 * qq + 3 * f - 3 * e, 18 * qq);
    lemma_scaled_gap(a - b, e, 9 * qq);
    lemma_weighted_gap(a0 - b0, v0, 12 * qq * g);
    lemma_weighted_gap(a1 - b1, v1, 21 * qq * g);
    lemma_weighted_gap(a2 - b2, v2, 18 * qq * g);
    lemma_weighted_gap(a3 - b3, v3, 9 * qq * g);
    lemma_blend_split(a0, a1, a2, a3, b0, b1, b2, b3, v0, v1, v2, v3);
    assert(765 * (12 * qq * g) + 765 * (21 * qq * g) + 765 * (18 * qq * g) + 765 * (9 * qq * g)
        == 45900 * qq * g) by (nonlinear_arith);
}

proof fn lemma_local_gap(ps: int, pt: int, q: int, n: int, i: int, us: int, ut: int)
    by (nonlinear_arith)
    requires
        0 < q,
        2 <= n,
        ps * n == q * i + us,
        pt * n == q * i + ut,
    ensures
        us - ut == n * (ps - pt),
{
}

proof fn lemma_local_gap_at_start(pt: int, q: int, n: int, ut: int, ps: int)
    by (nonlinear_arith)
    requires
        ps <= 0,
        0 < pt,
        2 <= n,
        pt * n == q * 0 + ut,
    ensures
        0 <= ut <= n * (pt - ps),
{
}

proof fn lemma_local_gap_at_end(pt: int, q: int, n: int, ut: int, ps: int)
    by (nonlinear_arith)
    requires
        ps >= q,
        0 < pt < q,
        2 <= n,
        0 <= ut < q,
        pt * n == q * (n - 2) + ut,
    ensures
        0 <= q - ut <= n * (ps - pt),
{
}

proof fn lemma_ends_gap(ps: int, pt: int, q: int, n: int)
    by (nonlinear_arith)
    requires
        ps <= 0,
        pt >= q,
        0 < q,
        2 <= n,
    ensures
        q <= n * (pt - ps),
{
}

/// Two positions of one segment, over one denominator, lie no further apart
/// inside the segment than `n` times their distance on the scale.
pub proof fn lemma_local_positions_close(s: Fraction, t: Fraction, n: int)
    requires
        s.wf(),
        t.wf(),
        s.den == t.den,
        n >= 2,
        segment_index(s, n) == segment_index(t, n),
    ensures
        gap(local_position(s, n).num as int, local_position(t, n).num as int) <= n * gap(
            s.num as int,
            t.num as int,
        ),
{
    let q = s.den as int;
    let i = segment_index(s, n);
    lemma_segment_in_range(s, n);
    lemma_segment_in_range(t, n);
    let us = local_position(s, n).num as int;
    let ut = local_position(t, n).num as int;
    if 0 < s.num < q {
        lemma_fundamental_div_mod(s.num * n, q);
    }
    if 0 < t.num < q {
        lemma_fundamental_div_mod(t.num * n, q);
    }
    if 0 < s.num < q && 0 < t.num < q {
        lemma_local_gap(s.num as int, t.num as int, q, n, i, us, ut);
        assert(n * gap(s.num as int, t.num as int) == gap(n * s.num, n * t.num))
            by (nonlinear_arith)
            requires
                n >= 2,
        ;
        assert(n * (s.num - t.num) == n * s.num - n * t.num) by (nonlinear_arith);
    } else if s.num <= 0 && 0 < t.num < q {
        lemma_local_gap_at_start(t.num as int, q, n, ut, s.num as int);
    } else if t.num <= 0 && 0 < s.num < q {
        lemma_local_gap_at_start(s.num as int, q, n, us, t.num as int);
    } else if s.num >= q && 0 < t.num < q {
        lemma_local_gap_at_end(t.num as int, q, n, ut, s.num as int);
    } else if t.num >= q && 0 < s.num < q {
        lemma_local_gap_at_end(s.num as int, q, n, us, t.num as int);
    } else if s.num <= 0 && t.num >= q {
        lemma_ends_gap(s.num as int, t.num as int, q, n);
    } else if t.num <= 0 && s.num >= q {
        lemma_ends_gap(t.num as int, s.num as int, q, n);
    } else {
        assert(us == ut);
        assert(0 <= n * gap(s.num as int, t.num as int)) by (nonlinear_arith)
            requires
                n >= 2,
                gap(s.num as int, t.num as int) >= 0,
        ;
    }
}

/// The spline is continuous inside each segment: for two positions of one
/// segment, written over one denominator `q`, the values differ by at most
/// `7650 n` times the distance of the positions. Both values stand over
/// `blend_den(q)`, which is `6 q^3`, hence the factor `45900 n q^2` between
/// the numerators.
pub proof fn lemma_spline_is_lipschitz(s: Fraction, t: Fraction, values: Seq<u8>)
    requires
        s.wf(),
        t.wf(),
        s.den == t.den,
        values.len() >= 2,
        segment_index(s, values.len() as int) == segment_index(t, values.len() as int),
    ensures
        gap(spline_value(s, values), spline_value(t, values)) <= 45900 * values.len() * (s.den
            * s.den) * gap(s.num as int, t.num as int),
{
    let n = values.len() as int;
    let q = s.den as int;
    let i = segment_index(s, n);
    lemma_segment_in_range(s, n);
    lemma_segment_in_range(t, n);
    lemma_control_values_bounded(values, i);
    let (v0, v1, v2, v3) = control_values(values, i);
    let a = local_position(s, n).num as int;
    let b = local_position(t, n).num as int;
    lemma_blend_is_lipschitz(a, b, q, v0, v1, v2, v3);
    lemma_local_positions_close(s, t, n);
    let dp = gap(s.num as int, t.num as int);
    assert(45900 * (q * q) * gap(a, b) <= 45900 * n * (q * q) * dp) by (nonlinear_arith)
        requires
            0 <= gap(a, b) <= n * dp,
            0 < q,
    ;
}

} // verus!
