//! Signed fixed-point scalars.
//!
//! A scalar is an `i64` counting units of 1e-9, so `FX_SCALE` units stand
//! for the real number one.  Every operation saturates at `FX_MAX` units in
//! magnitude, which keeps all intermediate arithmetic inside `i128` range
//! and makes every operation total.

use vstd::prelude::*;

use vstd::arithmetic::div_mod::{lemma_div_is_ordered, lemma_div_multiples_vanish};

verus! {

/// Number of fixed-point units in 1.0.
pub const FX_SCALE: i64 = 1_000_000_000;

/// Saturation bound: scalars are kept in `[-FX_MAX, FX_MAX]` (|value| <= 1000.0).
pub const FX_MAX: i64 = 1_000_000_000_000;

/// Absolute tolerance, in units, under which two scalars count as equal.
pub const FX_EPSILON: i64 = 1;

/// Truncating division (round toward zero) for a positive divisor.
pub open spec fn div_trunc(a: int, b: int) -> int
    recommends
        b > 0,
{
    if a >= 0 {
        a / b
    } else {
        -((-a) / b)
    }
}

/// Saturate a mathematical integer into the scalar range.
pub open spec fn fx_clamp(x: int) -> int {
    if x > FX_MAX as int {
        FX_MAX as int
    } else if x < -(FX_MAX as int) {
        -(FX_MAX as int)
    } else {
        x
    }
}

/// Whether `x` is a scalar in range.
pub open spec fn fx_in_range(x: int) -> bool {
    -(FX_MAX as int) <= x <= FX_MAX as int
}

/// Fixed-point product: truncate `a * b` back to units, then saturate.
pub open spec fn fx_mul(a: int, b: int) -> int {
    fx_clamp(div_trunc(a * b, FX_SCALE as int))
}

/// Fixed-point sum with saturation.
pub open spec fn fx_add(a: int, b: int) -> int {
    fx_clamp(a + b)
}

/// Fixed-point difference with saturation.
pub open spec fn fx_sub(a: int, b: int) -> int {
    fx_clamp(a - b)
}

/// Truncating division keeps a symmetric bound: if `|p| <= m * d` then
/// `|div_trunc(p, d)| <= m`.
pub proof fn lemma_div_trunc_bounded(p: int, m: int, d: int)
    requires
        d > 0,
        m >= 0,
        -(m * d) <= p <= m * d,
    ensures
        -m <= div_trunc(p, d) <= m,
{
    if p >= 0 {
        lemma_div_is_ordered(p, m * d, d);
        lemma_div_multiples_vanish(m, d);
        assert(m * d == d * m) by (nonlinear_arith);
        assert(p / d >= 0) by (nonlinear_arith)
            requires
                p >= 0,
                d > 0,
        ;
    } else {
        lemma_div_is_ordered(-p, m * d, d);
        lemma_div_multiples_vanish(m, d);
        assert(m * d == d * m) by (nonlinear_arith);
        assert((-p) / d >= 0) by (nonlinear_arith)
            requires
                -p >= 0,
                d > 0,
        ;
    }
}

/// Divide by a positive integer (truncating toward zero) and saturate.
pub fn fx_div_clamp(p: i128, d: i128) -> (r: i64)
    requires
        p > i128::MIN,
        d >= 1,
    ensures
        r as int == fx_clamp(div_trunc(p as int, d as int)),
        fx_in_range(r as int),
{
    let q: i128 = if p >= 0 {
        ((p as u128) / (d as u128)) as i128
    } else {
        -((((-p) as u128) / (d as u128)) as i128)
    };
    saturate(q)
}

/// Scale a raw `i128` product sum down by `FX_SCALE` (truncating) and saturate.
pub fn fx_scale_down(p: i128) -> (r: i64)
    requires
        p > i128::MIN,
    ensures
        r as int == fx_clamp(div_trunc(p as int, FX_SCALE as int)),
        fx_in_range(r as int),
{
    fx_div_clamp(p, FX_SCALE as i128)
}

/// Saturate an `i128` into the scalar range.
pub fn saturate(q: i128) -> (r: i64)
    ensures
        r as int == fx_clamp(q as int),
        fx_in_range(r as int),
{
    if q > FX_MAX as i128 {
        FX_MAX
    } else if q < -(FX_MAX as i128) {
        -FX_MAX
    } else {
        q as i64
    }
}

/// Saturating fixed-point product of two scalars.
pub fn mul_units(a: i64, b: i64) -> (r: i64)
    ensures
        r as int == fx_mul(a as int, b as int),
        fx_in_range(r as int),
{
    proof {
        assert((a as int) * (b as int) < i128::MAX && (a as int) * (b as int) > i128::MIN)
            by (nonlinear_arith)
            requires
                i64::MIN <= a <= i64::MAX,
                i64::MIN <= b <= i64::MAX,
        ;
    }
    let p: i128 = (a as i128) * (b as i128);
    fx_scale_down(p)
}

/// Saturating fixed-point sum of two scalars.
pub fn add_units(a: i64, b: i64) -> (r: i64)
    ensures
        r as int == fx_add(a as int, b as int),
        fx_in_range(r as int),
{
    saturate((a as i128) + (b as i128))
}

/// Saturating fixed-point difference of two scalars.
pub fn sub_units(a: i64, b: i64) -> (r: i64)
    ensures
        r as int == fx_sub(a as int, b as int),
        fx_in_range(r as int),
{
    saturate((a as i128) - (b as i128))
}

} // verus!
