//! Activation functions over fixed-point scalars.
//!
//! The logistic (sigmoid) function is computed in fixed point from a
//! truncated Taylor expansion of `e^-x`; its contract states exactly the
//! integer recurrence the code evaluates, together with the `[0, 1]` range.
//! The rectifier and the identity are exact.

use vstd::prelude::*;

use crate::fixed::{div_trunc, fx_in_range, fx_mul, mul_units, FX_MAX, FX_SCALE};

verus! {

/// `1/e` in fixed-point units, truncated.
pub const INV_E_UNITS: i64 = 367_879_441;

/// Number of Taylor terms used for `e^-f` on the fractional part.
pub const TAYLOR_TERMS: u64 = 13;

/// Inputs at or above this many units map to zero under `e^-x`
/// (the true value is below one unit).
pub const EXP_NEG_CUTOFF: i64 = 21_000_000_000;

/// Clamp a value into `[0, FX_SCALE]` (the fixed-point unit interval).
pub open spec fn clamp_unit(x: int) -> int {
    if x < 0 {
        0
    } else if x > FX_SCALE as int {
        FX_SCALE as int
    } else {
        x
    }
}

/// `k`-th power of `1/e` in units, each step truncating.
pub open spec fn pow_inv_e(k: nat) -> int
    decreases k,
{
    if k == 0 {
        FX_SCALE as int
    } else {
        div_trunc(pow_inv_e((k - 1) as nat) * INV_E_UNITS, FX_SCALE as int)
    }
}

/// `k`-th Taylor term of `e^-f` in magnitude: `f^k / k!` in units,
/// each step truncating.
pub open spec fn exp_taylor_term(f: int, k: nat) -> int
    decreases k,
{
    if k == 0 {
        FX_SCALE as int
    } else {
        div_trunc(exp_taylor_term(f, (k - 1) as nat) * f, (k as int) * (FX_SCALE as int))
    }
}

/// Alternating partial Taylor sum for `e^-f` through term `k`.
pub open spec fn exp_taylor_sum(f: int, k: nat) -> int
    decreases k,
{
    if k == 0 {
        FX_SCALE as int
    } else {
        exp_taylor_sum(f, (k - 1) as nat) + if k % 2 == 1 {
            -exp_taylor_term(f, k)
        } else {
            exp_taylor_term(f, k)
        }
    }
}

/// `e^-x` in units for `x >= 0`: split `x` into whole and fractional parts,
/// take the truncated power of `1/e` for the whole part and the clamped
/// Taylor sum for the fraction, and combine with one more truncation.
pub open spec fn exp_neg_spec(x: int) -> int
    recommends
        0 <= x,
{
    if x >= EXP_NEG_CUTOFF as int {
        0
    } else {
        div_trunc(
            pow_inv_e((x / (FX_SCALE as int)) as nat) * clamp_unit(
                exp_taylor_sum(x % (FX_SCALE as int), TAYLOR_TERMS as nat),
            ),
            FX_SCALE as int,
        )
    }
}

/// The logistic function in units: `1 / (1 + e^-x)` computed with the
/// fixed-point `e^-x` above; negative inputs use `1 - sigmoid(-x)`.
pub open spec fn sigmoid_spec(x: int) -> int {
    if x >= 0 {
        div_trunc(
            (FX_SCALE as int) * (FX_SCALE as int),
            FX_SCALE as int + exp_neg_spec(x),
        )
    } else {
        FX_SCALE as int - div_trunc(
            (FX_SCALE as int) * (FX_SCALE as int),
            FX_SCALE as int + exp_neg_spec(-x),
        )
    }
}

/// The logistic derivative in units: `s * (1 - s)` with `s = sigmoid_spec(x)`.
pub open spec fn sigmoid_deriv_spec(x: int) -> int {
    fx_mul(sigmoid_spec(x), FX_SCALE as int - sigmoid_spec(x))
}

/// Taylor sum for the fractional part of `e^-f`, clamped into `[0, 1]`.
fn exp_neg_frac(f: u64) -> (r: u64)
    requires
        f <= FX_SCALE as u64,
    ensures
        r as int == clamp_unit(exp_taylor_sum(f as int, TAYLOR_TERMS as nat)),
        r <= FX_SCALE as u64,
{
    let mut t: u64 = FX_SCALE as u64;
    let mut s: i64 = FX_SCALE;
    let mut k: u64 = 1;
    while k <= TAYLOR_TERMS
        invariant
            f <= FX_SCALE as u64,
            1 <= k <= TAYLOR_TERMS + 1,
            t as int == exp_taylor_term(f as int, (k - 1) as nat),
            t <= FX_SCALE as u64,
            s as int == exp_taylor_sum(f as int, (k - 1) as nat),
            -((k as int) * (FX_SCALE as int)) <= s as int <= (k as int) * (FX_SCALE as int),
        decreases TAYLOR_TERMS + 1 - k,
    {
        proof {
            assert(t * f <= 1_000_000_000_000_000_000int) by (nonlinear_arith)
                requires
                    0 <= t <= 1_000_000_000u64,
                    0 <= f <= 1_000_000_000u64,
            ;
        }
        let num: u64 = t * f;
        let den: u64 = k * FX_SCALE as u64;
        let tk: u64 = num / den;
        proof {
            assert(tk as int == div_trunc(
                exp_taylor_term(f as int, (k - 1) as nat) * f as int,
                (k as int) * (FX_SCALE as int),
            ));
            assert(tk as int == exp_taylor_term(f as int, k as nat));
            assert(tk <= FX_SCALE as u64) by (nonlinear_arith)
                requires
                    tk == num / den,
                    num <= (FX_SCALE as u64) * (FX_SCALE as u64),
                    den >= FX_SCALE as u64,
                    FX_SCALE as u64 > 0,
            ;
        }
        if k % 2 == 1 {
            s = s - tk as i64;
        } else {
            s = s + tk as i64;
        }
        proof {
            assert(((k + 1) as int) * (FX_SCALE as int) == (k as int) * (FX_SCALE as int)
                + FX_SCALE as int) by (nonlinear_arith);
        }
        t = tk;
        k += 1;
    }
    if s < 0 {
        0
    } else if s > FX_SCALE {
        FX_SCALE as u64
    } else {
        s as u64
    }
}

/// `e^-x` in units for a nonnegative scalar `x`.
fn exp_neg_units(x: i64) -> (r: u64)
    requires
        0 <= x <= FX_MAX,
    ensures
        r as int == exp_neg_spec(x as int),
        r <= FX_SCALE as u64,
{
    if x >= EXP_NEG_CUTOFF {
        return 0;
    }
    let xu: u64 = x as u64;
    let n: u64 = xu / (FX_SCALE as u64);
    let f: u64 = xu % (FX_SCALE as u64);
    let mut en: u64 = FX_SCALE as u64;
    let mut i: u64 = 0;
    while i < n
        invariant
            n <= 21,
            i <= n,
            en as int == pow_inv_e(i as nat),
            en <= FX_SCALE as u64,
        decreases n - i,
    {
        proof {
            assert(en * (INV_E_UNITS as u64) <= (FX_SCALE as u64) * (INV_E_UNITS as u64))
                by (nonlinear_arith)
                requires
                    en <= FX_SCALE as u64,
            ;
        }
        let num: u64 = en * (INV_E_UNITS as u64);
        let next: u64 = num / (FX_SCALE as u64);
        proof {
            assert(next as int == div_trunc(pow_inv_e(i as nat) * INV_E_UNITS as int,
                FX_SCALE as int));
            assert(next as int == pow_inv_e((i + 1) as nat));
            assert(next <= FX_SCALE as u64) by (nonlinear_arith)
                requires
                    next == num / (FX_SCALE as u64),
                    num <= (FX_SCALE as u64) * (INV_E_UNITS as u64),
                    INV_E_UNITS as u64 <= FX_SCALE as u64,
                    FX_SCALE as u64 > 0,
            ;
        }
        en = next;
        i += 1;
    }
    let ef: u64 = exp_neg_frac(f);
    proof {
        assert(en * ef <= (FX_SCALE as u64) * (FX_SCALE as u64)) by (nonlinear_arith)
            requires
                en <= FX_SCALE as u64,
                ef <= FX_SCALE as u64,
        ;
    }
    let prod: u64 = en * ef;
    let r: u64 = prod / (FX_SCALE as u64);
    proof {
        assert(n as int == x as int / FX_SCALE as int);
        assert(f as int == x as int % FX_SCALE as int);
        assert(r as int == div_trunc(pow_inv_e(n as nat) * ef as int, FX_SCALE as int));
        assert(r <= FX_SCALE as u64) by (nonlinear_arith)
            requires
                r == prod / (FX_SCALE as u64),
                prod <= (FX_SCALE as u64) * (FX_SCALE as u64),
                FX_SCALE as u64 > 0,
        ;
    }
    r
}

/// The logistic function on a scalar, in units.
pub fn sigmoid_units(x: i64) -> (r: i64)
    requires
        fx_in_range(x as int),
    ensures
        r as int == sigmoid_spec(x as int),
        0 <= r <= FX_SCALE,
{
    let num: u64 = (FX_SCALE as u64) * (FX_SCALE as u64);
    if x >= 0 {
        let e: u64 = exp_neg_units(x);
        let den: u64 = (FX_SCALE as u64) + e;
        let q: u64 = num / den;
        proof {
            assert(q <= FX_SCALE as u64) by (nonlinear_arith)
                requires
                    q == num / den,
                    num == (FX_SCALE as u64) * (FX_SCALE as u64),
                    den >= FX_SCALE as u64,
                    FX_SCALE as u64 > 0,
            ;
        }
        q as i64
    } else {
        let e: u64 = exp_neg_units(-x);
        let den: u64 = (FX_SCALE as u64) + e;
        let q: u64 = num / den;
        proof {
            assert(q <= FX_SCALE as u64) by (nonlinear_arith)
                requires
                    q == num / den,
                    num == (FX_SCALE as u64) * (FX_SCALE as u64),
                    den >= FX_SCALE as u64,
                    FX_SCALE as u64 > 0,
            ;
        }
        FX_SCALE - q as i64
    }
}

/// The logistic derivative on a scalar, in units.
pub fn sigmoid_deriv_units(x: i64) -> (r: i64)
    requires
        fx_in_range(x as int),
    ensures
        r as int == sigmoid_deriv_spec(x as int),
        0 <= r <= FX_SCALE,
{
    let s: i64 = sigmoid_units(x);
    let r: i64 = mul_units(s, FX_SCALE - s);
    proof {
        assert(div_trunc(s as int * (FX_SCALE as int - s as int), FX_SCALE as int)
            <= FX_SCALE as int && 0 <= div_trunc(s as int * (FX_SCALE as int - s as int),
            FX_SCALE as int)) by (nonlinear_arith)
            requires
                0 <= s as int <= FX_SCALE as int,
                FX_SCALE as int > 0,
        ;
    }
    r
}

/// The closed set of activation functions a layer can use.
#[derive(Clone, Copy, Debug, PartialEq, Eq, Structural)]
pub enum Activation {
    Sigmoid,
    Relu,
    Identity,
}

/// Value of an activation function on a scalar, in units.
pub open spec fn act_value(a: Activation, x: int) -> int {
    match a {
        Activation::Sigmoid => sigmoid_spec(x),
        Activation::Relu => if x > 0 {
            x
        } else {
            0
        },
        Activation::Identity => x,
    }
}

/// Derivative of an activation function on a scalar, in units
/// (so the constant one is `FX_SCALE`).
pub open spec fn act_deriv(a: Activation, x: int) -> int {
    match a {
        Activation::Sigmoid => sigmoid_deriv_spec(x),
        Activation::Relu => if x <= 0 {
            0
        } else {
            FX_SCALE as int
        },
        Activation::Identity => FX_SCALE as int,
    }
}

impl Activation {
    /// Apply the activation function to a scalar.
    pub fn activate(&self, x: i64) -> (r: i64)
        requires
            fx_in_range(x as int),
        ensures
            r as int == act_value(*self, x as int),
            fx_in_range(r as int),
    {
        match self {
            Activation::Sigmoid => sigmoid_units(x),
            Activation::Relu => if x > 0 {
                x
            } else {
                0
            },
            Activation::Identity => x,
        }
    }

    /// Apply the activation function's derivative to a scalar.
    pub fn derivative(&self, x: i64) -> (r: i64)
        requires
            fx_in_range(x as int),
        ensures
            r as int == act_deriv(*self, x as int),
            fx_in_range(r as int),
    {
        match self {
            Activation::Sigmoid => sigmoid_deriv_units(x),
            Activation::Relu => if x <= 0 {
                0
            } else {
                FX_SCALE
            },
            Activation::Identity => FX_SCALE,
        }
    }
}

} // verus!
