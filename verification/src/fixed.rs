//! Fixed-point units and the small arithmetic kernel shared by the timing
//! and interpolation code.
//!
//! Every fractional quantity of the chart format — seconds, ticks, track
//! values, tempo multipliers, easing progress — is held as a signed or
//! unsigned count of millionths.  The helpers here state exactly, over `int`,
//! what each scaled multiplication returns, so the callers' contracts can be
//! pinned to closed formulas.

use vstd::prelude::*;

verus! {

/// Number of fixed-point units in one whole (one second, one tick, one unit
/// of track value).
pub const SCALE: u64 = 1_000_000;

/// Largest time, in units, accepted in chart data: ticks and breakpoint
/// seconds up to one million real seconds.
pub const MAX_TIME: u64 = 1_000_000_000_000;

/// Largest magnitude, in units, accepted for a track value (positions,
/// scales, speeds): ten thousand real units.
pub const MAX_VALUE: i64 = 10_000_000_000;

/// Smallest accepted product, in units squared, of base rate and tempo
/// multiplier (0.6 ticks-per-minute-units in real terms).
pub const MIN_RATE: u64 = 600_000_000_000;

/// Largest accepted product, in units squared, of base rate and tempo
/// multiplier.
pub const MAX_RATE: u64 = 600_000_000_000_000_000;

/// Every seconds value the temporal mapper can produce stays below this.
pub const SEC_BOUND: u64 = 101_000_000_000_000;

/// Every tick value the temporal mapper can produce stays below this.
pub const TICK_BOUND: u64 = 10_001_000_000_000_000;

/// `v * d / SCALE` truncated toward zero: the product of a signed value with
/// a non-negative scalar, brought back to units.
pub open spec fn scaled(v: int, d: int) -> int {
    if v >= 0 {
        (v * d) / (SCALE as int)
    } else {
        -(((-v) * d) / (SCALE as int))
    }
}

/// Magnitude of a signed value, in spec land.
pub open spec fn abs(v: int) -> int {
    if v >= 0 {
        v
    } else {
        -v
    }
}

/// Largest cumulative floor position the speed integrator can produce.
pub const FP_BOUND: i64 = 1_010_000_000_000_000_000;

/// `v * d / SCALE` truncated toward zero, for a scalar `d` of either sign.
pub open spec fn scaled_signed(v: int, d: int) -> int {
    if d >= 0 {
        scaled(v, d)
    } else {
        -scaled(v, -d)
    }
}

/// The magnitude of a scaled product is at most the scaled product of the
/// magnitudes.
pub proof fn lemma_scaled_bound(v: int, d: int, vb: int, db: int)
    requires
        d >= 0,
        abs(v) <= vb,
        0 <= d <= db,
    ensures
        abs(scaled(v, d)) <= (vb * db) / (SCALE as int),
{
    let s = SCALE as int;
    if v >= 0 {
        vstd::arithmetic::mul::lemma_mul_upper_bound(v, vb, d, db);
        vstd::arithmetic::div_mod::lemma_div_is_ordered(v * d, vb * db, s);
        vstd::arithmetic::div_mod::lemma_div_pos_is_pos(v * d, s);
        vstd::arithmetic::mul::lemma_mul_nonnegative(v, d);
    } else {
        vstd::arithmetic::mul::lemma_mul_upper_bound(-v, vb, d, db);
        vstd::arithmetic::div_mod::lemma_div_is_ordered((-v) * d, vb * db, s);
        vstd::arithmetic::div_mod::lemma_div_pos_is_pos((-v) * d, s);
        vstd::arithmetic::mul::lemma_mul_nonnegative(-v, d);
    }
}

/// Scaling by a larger non-negative scalar never shrinks the result.
pub proof fn lemma_scaled_monotone(v: int, d1: int, d2: int)
    requires
        v >= 0,
        0 <= d1 <= d2,
    ensures
        scaled(v, d1) <= scaled(v, d2),
{
    vstd::arithmetic::mul::lemma_mul_inequality(d1, d2, v);
    vstd::arithmetic::div_mod::lemma_div_is_ordered(v * d1, v * d2, SCALE as int);
}

/// `v * d / SCALE`, truncated toward zero.  The workhorse of every
/// fixed-point product in the library.
pub fn mul_scaled(v: i64, d: u64) -> (r: i64)
    requires
        abs(v as int) <= 1_000_000 * (MAX_VALUE as int),
        abs(v as int) * (d as int) <= 9_000_000_000_000_000_000 * (SCALE as int),
    ensures
        r as int == scaled(v as int, d as int),
        abs(r as int) <= (abs(v as int) * (d as int)) / (SCALE as int),
{
    proof {
        lemma_scaled_bound(v as int, d as int, abs(v as int), d as int);
    }
    let s128: u128 = SCALE as u128;
    if v >= 0 {
        let q: u128 = (v as u128) * (d as u128) / s128;
        proof {
            vstd::arithmetic::div_mod::lemma_div_is_ordered(
                (v as int) * (d as int),
                9_000_000_000_000_000_000 * (SCALE as int),
                SCALE as int,
            );
            vstd::arithmetic::div_mod::lemma_div_multiples_vanish(
                9_000_000_000_000_000_000,
                SCALE as int,
            );
            vstd::arithmetic::div_mod::lemma_div_pos_is_pos((v as int) * (d as int), SCALE as int);
            vstd::arithmetic::mul::lemma_mul_nonnegative(v as int, d as int);
        }
        q as i64
    } else {
        let m: u64 = (-v) as u64;
        let q: u128 = (m as u128) * (d as u128) / s128;
        proof {
            vstd::arithmetic::div_mod::lemma_div_is_ordered(
                (m as int) * (d as int),
                9_000_000_000_000_000_000 * (SCALE as int),
                SCALE as int,
            );
            vstd::arithmetic::div_mod::lemma_div_multiples_vanish(
                9_000_000_000_000_000_000,
                SCALE as int,
            );
            vstd::arithmetic::div_mod::lemma_div_pos_is_pos((m as int) * (d as int), SCALE as int);
            vstd::arithmetic::mul::lemma_mul_nonnegative(m as int, d as int);
        }
        -(q as i64)
    }
}

/// `v * d / SCALE`, truncated toward zero, for a scalar `d` of either sign.
pub fn mul_scaled_signed(v: i64, d: i64) -> (r: i64)
    requires
        abs(v as int) <= 1_000_000 * (MAX_VALUE as int),
        abs(d as int) <= 9_223_372_036_854_775_807,
        abs(v as int) * abs(d as int) <= 9_000_000_000_000_000_000 * (SCALE as int),
    ensures
        r as int == scaled_signed(v as int, d as int),
        abs(r as int) <= (abs(v as int) * abs(d as int)) / (SCALE as int),
{
    if d >= 0 {
        mul_scaled(v, d as u64)
    } else {
        let m: i64 = mul_scaled(v, (-d) as u64);
        proof {
            vstd::arithmetic::div_mod::lemma_div_is_ordered(
                abs(v as int) * abs(d as int),
                9_000_000_000_000_000_000 * (SCALE as int),
                SCALE as int,
            );
            vstd::arithmetic::div_mod::lemma_div_multiples_vanish(
                9_000_000_000_000_000_000,
                SCALE as int,
            );
        }
        -m
    }
}

/// Floor division distributes superadditively over a sum of non-negative
/// terms.
pub proof fn lemma_div_superadd(x: int, y: int, d: int)
    requires
        x >= 0,
        y >= 0,
        0 < d,
    ensures
        x / d + y / d <= (x + y) / d,
{
    vstd::arithmetic::div_mod::lemma_fundamental_div_mod(x, d);
    vstd::arithmetic::div_mod::lemma_fundamental_div_mod(y, d);
    vstd::arithmetic::div_mod::lemma_mod_division_less_than_divisor(x, d);
    vstd::arithmetic::div_mod::lemma_mod_division_less_than_divisor(y, d);
    vstd::arithmetic::mul::lemma_mul_is_distributive_add(d, x / d, y / d);
    vstd::arithmetic::div_mod::lemma_div_pos_is_pos(x, d);
    vstd::arithmetic::div_mod::lemma_div_pos_is_pos(y, d);
    vstd::arithmetic::div_mod::lemma_div_is_ordered(d * (x / d + y / d), x + y, d);
    vstd::arithmetic::div_mod::lemma_div_multiples_vanish(x / d + y / d, d);
}

} // verus!
