//! Trigonometry in fixed point. Angles are fixed-point degrees.
//!
//! The sine is computed with the classical rational approximation
//! `sin(d) = 4 d (180 - d) / (40500 - d (180 - d))` on a half turn,
//! extended by point symmetry to the full circle. The approximation is
//! exact at every multiple of a quarter turn and stays within the unit
//! interval, which is what the rendering pipeline depends on.

use vstd::prelude::*;

verus! {

use crate::fixed::{FP_ONE, DEG_FULL, DEG_HALF, DEG_QUARTER, euclid_mod};
use vstd::arithmetic::div_mod::{
    lemma_div_is_ordered,
    lemma_div_multiples_vanish,
    lemma_div_pos_is_pos,
    lemma_mod_bound,
};

/// Rational sine approximation on [0, DEG_HALF], in fixed point.
pub open spec fn spec_sin_half(d: int) -> int
    recommends
        0 <= d <= DEG_HALF,
{
    let p = d * (DEG_HALF - d) / (FP_ONE as int);
    4 * p * FP_ONE / (40500 * FP_ONE - p)
}

/// Sine of a normalized angle in [0, DEG_FULL).
pub open spec fn spec_sin_norm(a: int) -> int
    recommends
        0 <= a < DEG_FULL,
{
    if a <= DEG_HALF {
        spec_sin_half(a)
    } else {
        -spec_sin_half(a - DEG_HALF)
    }
}

/// Sine of an arbitrary angle.
pub open spec fn spec_sin(a: int) -> int {
    spec_sin_norm(a % (DEG_FULL as int))
}

/// Cosine of an arbitrary angle.
pub open spec fn spec_cos(a: int) -> int {
    spec_sin(a + DEG_QUARTER)
}

/// The scaled half-turn product `d (180 - d)` never exceeds the square of
/// the quarter turn, which keeps the approximation's denominator positive.
proof fn lemma_half_product_bounds(d: int)
    requires
        0 <= d <= DEG_HALF,
    ensures
        0 <= d * (DEG_HALF - d) / (FP_ONE as int) <= 8100 * FP_ONE,
{
    let prod = d * (DEG_HALF - d);
    assert(0 <= d * (11796480 - d) <= 530841600 * 65536) by (nonlinear_arith)
        requires 0 <= d <= 11796480;
    lemma_div_pos_is_pos(prod, FP_ONE as int);
    lemma_div_is_ordered(prod, (8100 * FP_ONE) * (FP_ONE as int), FP_ONE as int);
    lemma_div_multiples_vanish(8100 * FP_ONE, FP_ONE as int);
    assert((FP_ONE as int) * (8100 * FP_ONE) == (8100 * FP_ONE) * (FP_ONE as int))
        by (nonlinear_arith);
}

/// The sine approximation stays within [0, FP_ONE] on the first half turn.
pub proof fn lemma_sin_half_bounds(d: int)
    requires
        0 <= d <= DEG_HALF,
    ensures
        0 <= spec_sin_half(d) <= FP_ONE,
{
    let p = d * (DEG_HALF - d) / (FP_ONE as int);
    let num = 4 * p * FP_ONE;
    let den = 40500 * FP_ONE - p;
    lemma_half_product_bounds(d);
    assert(num <= den * (FP_ONE as int)) by (nonlinear_arith)
        requires 0 <= p <= 8100 * FP_ONE, num == 4 * p * FP_ONE, den == 40500 * FP_ONE - p;
    lemma_div_pos_is_pos(num, den);
    lemma_div_is_ordered(num, den * (FP_ONE as int), den);
    lemma_div_multiples_vanish(FP_ONE as int, den);
    assert(den * (FP_ONE as int) == (FP_ONE as int) * den) by (nonlinear_arith);
}

/// The sine of any angle lies in [-FP_ONE, FP_ONE].
pub proof fn lemma_sin_bounds(a: int)
    ensures
        -FP_ONE <= spec_sin(a) <= FP_ONE,
{
    lemma_mod_bound(a, DEG_FULL as int);
    let n = a % (DEG_FULL as int);
    if n <= DEG_HALF {
        lemma_sin_half_bounds(n);
    } else {
        lemma_sin_half_bounds(n - DEG_HALF);
    }
}

/// The cosine of any angle lies in [-FP_ONE, FP_ONE].
pub proof fn lemma_cos_bounds(a: int)
    ensures
        -FP_ONE <= spec_cos(a) <= FP_ONE,
{
    lemma_sin_bounds(a + DEG_QUARTER);
}

/// The cosine of a zero relative angle is exactly one: a ray straight
/// along the view axis keeps its raw distance.
pub proof fn lemma_cos_zero()
    ensures
        spec_cos(0) == FP_ONE,
{
    lemma_mod_bound(DEG_QUARTER as int, DEG_FULL as int);
    assert(DEG_QUARTER as int % (DEG_FULL as int) == DEG_QUARTER as int)
        by (nonlinear_arith);
    assert(spec_sin_half(DEG_QUARTER as int) == FP_ONE) by (nonlinear_arith);
}

/// Within a quarter turn either side of the view direction the cosine is
/// nonnegative, so corrected distances keep their sign.
pub proof fn lemma_cos_nonneg_quadrant(a: int)
    requires
        -DEG_QUARTER <= a <= DEG_QUARTER,
    ensures
        0 <= spec_cos(a) <= FP_ONE,
{
    let n = a + DEG_QUARTER;
    vstd::arithmetic::div_mod::lemma_small_mod(n as nat, DEG_FULL as nat);
    lemma_sin_half_bounds(n);
}

/// Rational sine approximation on the first half turn, in fixed point.
fn sin_half(d: i64) -> (r: i64)
    requires
        0 <= d <= DEG_HALF,
    ensures
        r == spec_sin_half(d as int),
        0 <= r <= FP_ONE,
{
    proof {
        lemma_half_product_bounds(d as int);
        lemma_sin_half_bounds(d as int);
    }
    let p = (((d as u64) * ((DEG_HALF - d) as u64)) / (FP_ONE as u64)) as i64;
    proof {
        assert((d as u64) * ((DEG_HALF - d) as u64) == (d as int) * ((DEG_HALF - d) as int))
            by (nonlinear_arith)
            requires 0 <= d <= DEG_HALF;
    }
    let num = 4 * p * FP_ONE;
    let den = 40500 * FP_ONE - p;
    ((num as u64) / (den as u64)) as i64
}

/// Wraps an angle into [0, DEG_FULL) with a Euclidean remainder, so that
/// negative intermediate angles wrap to the high end of the range.
pub fn normalize_angle(a: i64) -> (r: i64)
    requires
        i64::MIN < a,
    ensures
        r == (a as int) % (DEG_FULL as int),
        0 <= r < DEG_FULL,
{
    euclid_mod(a, DEG_FULL)
}

/// Normalizing an already normalized angle changes nothing.
pub proof fn lemma_normalize_idempotent(a: int)
    ensures
        (a % (DEG_FULL as int)) % (DEG_FULL as int) == a % (DEG_FULL as int),
{
    lemma_mod_bound(a, DEG_FULL as int);
    vstd::arithmetic::div_mod::lemma_small_mod(
        (a % (DEG_FULL as int)) as nat,
        DEG_FULL as nat,
    );
}

/// Fixed-point sine of an arbitrary angle.
pub fn sin_fx(a: i64) -> (r: i64)
    requires
        i64::MIN < a,
    ensures
        r == spec_sin(a as int),
        -FP_ONE <= r <= FP_ONE,
{
    let n = euclid_mod(a, DEG_FULL);
    if n <= DEG_HALF {
        sin_half(n)
    } else {
        -sin_half(n - DEG_HALF)
    }
}

/// Fixed-point cosine of an arbitrary angle.
pub fn cos_fx(a: i64) -> (r: i64)
    requires
        i64::MIN < a,
        a <= i64::MAX - DEG_QUARTER,
    ensures
        r == spec_cos(a as int),
        -FP_ONE <= r <= FP_ONE,
{
    sin_fx(a + DEG_QUARTER)
}

} // verus!
