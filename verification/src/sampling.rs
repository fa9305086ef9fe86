//! Random sampling for weight initialization.
//!
//! The only trusted surface is one tiny wrapper over the `rand` crate: a
//! uniform integer draw.  Everything built on it — the integer square root
//! used for the initializers' bounds and the sum-of-uniforms approximation
//! of a normal draw — is verified code.

use vstd::prelude::*;

use crate::fixed::{fx_in_range, FX_SCALE};

verus! {

/// Relies on `rand::random_range`: a uniformly distributed integer drawn
/// from the inclusive range `lo..=hi`.  The call panics on an empty range,
/// which the precondition excludes.
#[verifier::external_body]
pub(crate) fn sample_uniform(lo: i64, hi: i64) -> (r: i64)
    requires
        lo <= hi,
    ensures
        lo <= r <= hi,
{
    rand::random_range(lo..=hi)
}

/// The integer square root as a mathematical function: the greatest `r`
/// with `r * r <= x`, defined by counting up from zero.
pub open spec fn isqrt_spec(x: nat) -> nat
    decreases x,
{
    if x == 0 {
        0
    } else {
        let r = isqrt_spec((x - 1) as nat);
        if (r + 1) * (r + 1) <= x {
            (r + 1) as nat
        } else {
            r
        }
    }
}

/// `isqrt_spec` satisfies the square-root characterization.
pub proof fn lemma_isqrt_spec_bounds(x: nat)
    ensures
        isqrt_spec(x) * isqrt_spec(x) <= x,
        x < (isqrt_spec(x) + 1) * (isqrt_spec(x) + 1),
    decreases x,
{
    if x == 0 {
        assert(isqrt_spec(x) == 0);
        assert((isqrt_spec(x) + 1) * (isqrt_spec(x) + 1) == 1) by (nonlinear_arith)
            requires
                isqrt_spec(x) == 0,
        ;
    } else {
        lemma_isqrt_spec_bounds((x - 1) as nat);
        let r0 = isqrt_spec((x - 1) as nat);
        assert(r0 * r0 <= x - 1);
        assert(x - 1 < (r0 + 1) * (r0 + 1));
        if (r0 + 1) * (r0 + 1) <= x {
            assert(isqrt_spec(x) == r0 + 1);
            // The previous bound x - 1 < (r0 + 1)^2 forces x == (r0 + 1)^2.
            assert(x == (r0 + 1) * (r0 + 1));
            assert((r0 + 1) * (r0 + 1) < (r0 + 2) * (r0 + 2)) by (nonlinear_arith)
                requires
                    r0 >= 0,
            ;
            assert(isqrt_spec(x) * isqrt_spec(x) <= x);
            assert(x < (isqrt_spec(x) + 1) * (isqrt_spec(x) + 1));
        } else {
            assert(isqrt_spec(x) == r0);
            assert(isqrt_spec(x) * isqrt_spec(x) <= x);
            assert(x < (isqrt_spec(x) + 1) * (isqrt_spec(x) + 1));
        }
    }
}

/// Any `r` satisfying the square-root characterization equals `isqrt_spec`.
pub proof fn lemma_isqrt_unique(x: nat, r: nat)
    requires
        r * r <= x,
        x < (r + 1) * (r + 1),
    ensures
        r == isqrt_spec(x),
{
    lemma_isqrt_spec_bounds(x);
    let s = isqrt_spec(x);
    if r < s {
        assert((r + 1) * (r + 1) <= s * s) by (nonlinear_arith)
            requires
                r + 1 <= s,
                r >= 0,
        ;
    }
    if s < r {
        assert((s + 1) * (s + 1) <= r * r) by (nonlinear_arith)
            requires
                s + 1 <= r,
                s >= 0,
        ;
    }
}

/// Integer square root: the greatest `r` with `r * r <= x`.
pub fn isqrt_u64(x: u64) -> (r: u64)
    ensures
        r * r <= x,
        x < (r + 1) * (r + 1),
        r == isqrt_spec(x as nat),
{
    let mut lo: u64 = 0;
    let mut hi: u64 = 4_294_967_296;
    proof {
        assert((x as int) < (hi as int) * (hi as int)) by (nonlinear_arith)
            requires
                hi == 4_294_967_296u64,
                x <= u64::MAX,
        ;
    }
    while lo + 1 < hi
        invariant
            lo < hi,
            hi <= 4_294_967_296,
            (lo as int) * (lo as int) <= x as int,
            (x as int) < (hi as int) * (hi as int),
        decreases hi - lo,
    {
        let mid: u64 = lo + (hi - lo) / 2;
        proof {
            assert(lo < mid < hi) by (nonlinear_arith)
                requires
                    mid == lo + (hi - lo) / 2,
                    lo + 1 < hi,
        ;
            assert((mid as int) * (mid as int) <= u128::MAX as int) by (nonlinear_arith)
                requires
                    mid <= 4_294_967_296u64,
            ;
        }
        let sq: u128 = (mid as u128) * (mid as u128);
        if sq <= x as u128 {
            lo = mid;
        } else {
            hi = mid;
        }
    }
    proof {
        assert(lo * lo <= u64::MAX as int) by (nonlinear_arith)
            requires
                (lo as int) * (lo as int) <= x as int,
                x <= u64::MAX,
        ;
        lemma_isqrt_unique(x as nat, lo as nat);
    }
    lo
}

/// One approximately standard-normal draw in fixed-point units: the sum of
/// twelve unit-uniform draws, centered.  The result lies in `[-6, 6]`
/// (in units, `[-6 * FX_SCALE, 6 * FX_SCALE]`); its distribution has mean
/// zero and unit variance.
pub fn sample_centered_normal_units() -> (r: i64)
    ensures
        -6 * (FX_SCALE as int) <= r as int <= 6 * (FX_SCALE as int),
        fx_in_range(r as int),
{
    let mut sum: i64 = 0;
    let mut i: u64 = 0;
    while i < 12
        invariant
            i <= 12,
            0 <= sum as int <= (i as int) * (FX_SCALE as int),
        decreases 12 - i,
    {
        let u: i64 = sample_uniform(0, FX_SCALE);
        sum = sum + u;
        i += 1;
    }
    sum - 6 * FX_SCALE
}

} // verus!
