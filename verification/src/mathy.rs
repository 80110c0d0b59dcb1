//! Fixed-point scalar arithmetic for the thermodynamic quantities.
//!
//! Every scalar the engine tracks (temperature, field, coupling, energies,
//! magnetization) is quantized to a fixed decimal precision: a value is an
//! `i64` count of units of `1 / SCALE`. All arithmetic on these scalars is
//! exact integer arithmetic, so repeated sweeps cannot accumulate drift, and
//! equality tests between runs are stable. Division truncates toward zero.
//!
//! The one transcendental the Metropolis rule needs, `exp(-x)`, is computed
//! here in the same fixed-point units by argument reduction (a power of
//! `exp(-1)`) and a short alternating series on the fractional part, clamped
//! to `[0, SCALE]`.

use vstd::prelude::*;

verus! {

/// Number of fixed-point units per 1.0: scalars carry nine decimal places.
pub const SCALE: i64 = 1_000_000_000;

/// `exp(-1)` in fixed-point units, truncated.
pub const INV_E: i64 = 367_879_441;

/// Arguments at or above this threshold make `exp(-x)` smaller than one
/// fixed-point unit, so the result is taken as zero outright.
pub const EXP_CUT: i64 = 64_000_000_000;

/// Truncating (toward zero) division, the rounding the engine's scalars use.
pub open spec fn spec_div_tz(a: int, b: int) -> int
    recommends
        b > 0,
{
    if a >= 0 {
        a / b
    } else {
        -((-a) / b)
    }
}

/// Truncating division of a fixed-point value by a positive divisor.
pub fn div_tz(a: i64, b: i64) -> (r: i64)
    requires
        b > 0,
        a != i64::MIN,
    ensures
        r == spec_div_tz(a as int, b as int),
{
    if a >= 0 {
        a / b
    } else {
        let m: i64 = -a;
        -(m / b)
    }
}

/// `exp(-1)^k` in fixed-point units, by repeated multiply-and-truncate.
pub open spec fn spec_inv_e_pow(k: nat) -> int
    decreases k,
{
    if k == 0 {
        SCALE as int
    } else {
        spec_inv_e_pow((k - 1) as nat) * INV_E / (SCALE as int)
    }
}

pub proof fn lemma_inv_e_pow_bounds(k: nat)
    ensures
        0 <= spec_inv_e_pow(k) <= SCALE,
    decreases k,
{
    if k > 0 {
        lemma_inv_e_pow_bounds((k - 1) as nat);
        let p = spec_inv_e_pow((k - 1) as nat);
        assert(0 <= p * INV_E <= SCALE * INV_E) by (nonlinear_arith)
            requires 0 <= p <= SCALE;
        assert(p * INV_E / SCALE as int <= SCALE) by (nonlinear_arith)
            requires 0 <= p * INV_E <= SCALE * INV_E;
        assert(p * INV_E / SCALE as int >= 0) by (nonlinear_arith)
            requires 0 <= p * INV_E;
    }
}

/// Four-term alternating series for `exp(-f / SCALE)` on a fractional
/// argument `0 <= f < SCALE`, clamped into `[0, SCALE]`.
pub open spec fn spec_exp_frac(f: int) -> int
    recommends
        0 <= f < SCALE,
{
    let s = SCALE as int;
    let t = s - f + f * f / (2 * s) - f * f * f / (6 * s * s) + f * f * f * f / (24 * s * s * s);
    if t < 0 {
        0
    } else if t > s {
        s
    } else {
        t
    }
}

/// `exp(-x)` in fixed-point units for a non-negative fixed-point argument.
pub open spec fn spec_exp_neg(x: int) -> int
    recommends
        x >= 0,
{
    if x >= EXP_CUT {
        0
    } else {
        spec_inv_e_pow((x / SCALE as int) as nat) * spec_exp_frac(x % SCALE as int) / SCALE as int
    }
}

pub proof fn lemma_exp_neg_bounds(x: int)
    requires
        x >= 0,
    ensures
        0 <= spec_exp_neg(x) <= SCALE,
{
    if x < EXP_CUT {
        let s = SCALE as int;
        let k = (x / s) as nat;
        let f = x % s;
        lemma_inv_e_pow_bounds(k);
        let p = spec_inv_e_pow(k);
        let t = spec_exp_frac(f);
        assert(0 <= t <= s);
        assert(0 <= p * t <= s * s) by (nonlinear_arith)
            requires 0 <= p <= s, 0 <= t <= s, s > 0;
        assert(p * t / s <= s) by (nonlinear_arith)
            requires 0 <= p * t <= s * s, s > 0;
        assert(p * t / s >= 0) by (nonlinear_arith)
            requires 0 <= p * t, s > 0;
    }
}

/// Evaluates `exp(-x)` in fixed-point units.
pub fn exp_neg(x: i64) -> (r: i64)
    requires
        x >= 0,
    ensures
        r == spec_exp_neg(x as int),
        0 <= r <= SCALE,
{
    proof {
        lemma_exp_neg_bounds(x as int);
    }
    if x >= EXP_CUT {
        return 0;
    }
    let k: i64 = x / SCALE;
    let f: i64 = x % SCALE;
    assert(k == x as int / SCALE as int && 0 <= k < 64);
    assert(f == x as int % SCALE as int && 0 <= f < SCALE) by {
        vstd::arithmetic::div_mod::lemma_mod_division_less_than_divisor(x as int, SCALE as int);
    }

    let mut p: i64 = SCALE;
    let mut j: i64 = 0;
    while j < k
        invariant
            0 <= j <= k < 64,
            p == spec_inv_e_pow(j as nat),
            0 <= p <= SCALE,
        decreases k - j,
    {
        proof {
            lemma_inv_e_pow_bounds((j + 1) as nat);
        }
        p = (p * INV_E) / SCALE;
        j = j + 1;
    }

    let fw: i128 = f as i128;
    let s: i128 = SCALE as i128;
    proof {
        assert(0 <= fw * fw <= 1_000_000_000_000_000_000) by (nonlinear_arith)
            requires 0 <= fw < 1_000_000_000;
        assert(0 <= fw * fw * fw <= 1_000_000_000_000_000_000_000_000_000) by (nonlinear_arith)
            requires 0 <= fw < 1_000_000_000;
        assert(0 <= fw * fw * fw * fw <= 1_000_000_000_000_000_000_000_000_000_000_000_000)
            by (nonlinear_arith)
            requires 0 <= fw < 1_000_000_000;
    }
    proof {
        let x2 = (fw as int) * (fw as int);
        let x3 = x2 * (fw as int);
        let x4 = x3 * (fw as int);
        let sp = SCALE as int;
        vstd::arithmetic::div_mod::lemma_div_pos_is_pos(x2, 2 * sp);
        vstd::arithmetic::div_mod::lemma_div_nonincreasing(x2, 2 * sp);
        vstd::arithmetic::div_mod::lemma_div_pos_is_pos(x3, 6 * sp * sp);
        vstd::arithmetic::div_mod::lemma_div_nonincreasing(x3, 6 * sp * sp);
        vstd::arithmetic::div_mod::lemma_div_pos_is_pos(x4, 24 * sp * sp * sp);
        vstd::arithmetic::div_mod::lemma_div_nonincreasing(x4, 24 * sp * sp * sp);
    }
    let d2: i128 = fw * fw / (2 * s);
    let d3: i128 = fw * fw * fw / (6 * s * s);
    let d4: i128 = fw * fw * fw * fw / (24 * s * s * s);
    let t128: i128 = s - fw + d2 - d3 + d4;
    let t: i64 = if t128 < 0 {
        0
    } else if t128 > SCALE as i128 {
        SCALE
    } else {
        t128 as i64
    };
    assert(t == spec_exp_frac(f as int));
    assert(0 <= p * t <= SCALE * SCALE) by (nonlinear_arith)
        requires 0 <= p <= SCALE, 0 <= t <= SCALE;
    (p * t) / SCALE
}

/// The Metropolis thermal acceptance weight `exp(-dh / (kb * temp))` in
/// fixed-point units, for a positive energy cost `dh`. A product `kb * temp`
/// below one fixed-point unit counts as zero temperature: the weight is zero.
pub open spec fn spec_boltzmann(dh: int, kb: int, temp: int) -> int
    recommends
        dh > 0,
        kb >= 0,
        temp >= 0,
{
    let denom = kb * temp / SCALE as int;
    if denom <= 0 {
        0
    } else {
        spec_exp_neg(dh * SCALE / denom)
    }
}

/// Whether the Metropolis rule accepts a candidate flip of energy cost `dh`,
/// given the uniform draw `draw` from `[0, SCALE)`: downhill or level moves
/// always pass, uphill moves pass when the draw falls under the thermal
/// acceptance weight.
pub open spec fn spec_accepts(dh: int, kb: int, temp: int, draw: int) -> bool {
    dh <= 0 || draw < spec_boltzmann(dh, kb, temp)
}

/// Decides one Metropolis acceptance test.
pub fn metropolis_accepts(dh: i64, kb: i64, temp: i64, draw: i64) -> (r: bool)
    requires
        -100_000_000_000_000 <= dh <= 100_000_000_000_000,
        0 <= kb <= 2_000_000_000_000,
        0 <= temp <= 2_000_000_000_000_000,
        0 <= draw,
    ensures
        r == spec_accepts(dh as int, kb as int, temp as int, draw as int),
{
    if dh <= 0 {
        return true;
    }
    proof {
        assert(0 <= (kb as int) * (temp as int) <= 4_000_000_000_000_000_000_000_000_000)
            by (nonlinear_arith)
            requires
                0 <= kb as int <= 2_000_000_000_000,
                0 <= temp as int <= 2_000_000_000_000_000;
    }
    let denom: i128 = (kb as i128) * (temp as i128) / (SCALE as i128);
    if denom <= 0 {
        return false;
    }
    proof {
        assert(0 <= (dh as int) * (SCALE as int) <= 100_000_000_000_000_000_000_000)
            by (nonlinear_arith)
            requires 0 <= dh as int <= 100_000_000_000_000;
    }
    let x128: i128 = (dh as i128) * (SCALE as i128) / denom;
    assert(x128 >= 0) by (nonlinear_arith)
        requires
            denom as int > 0,
            dh as int >= 0,
            x128 as int == (dh as int) * (SCALE as int) / (denom as int);
    let factor: i64 = if x128 >= EXP_CUT as i128 {
        proof {
            lemma_exp_neg_bounds(x128 as int);
        }
        0
    } else {
        exp_neg(x128 as i64)
    };
    assert(factor == spec_boltzmann(dh as int, kb as int, temp as int));
    draw < factor
}

/// At temperatures so low that `kb * temp` rounds to zero, no energy-raising
/// move is ever accepted, whatever the draw: the thermal weight is zero.
pub proof fn lemma_cold_rejects_uphill(dh: int, kb: int, temp: int, draw: int)
    requires
        dh > 0,
        0 <= kb,
        0 <= temp,
        kb * temp < SCALE,
        draw >= 0,
    ensures
        !spec_accepts(dh, kb, temp, draw),
{
    vstd::arithmetic::div_mod::lemma_basic_div(kb * temp, SCALE as int);
}

} // verus!
