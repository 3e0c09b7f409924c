//! Easing curves: nineteen shaping functions on the unit interval, a total
//! dispatch from the chart format's numeric curve index, and a clamped
//! application helper.
//!
//! Curve arguments and results count millionths of the unit interval: an
//! input of [`SCALE`] is 1.  Each curve's contract gives its closed integer
//! formula; [`lemma_ease_unit_range`] states the shared shape law: every
//! curve maps the unit interval into itself and fixes both endpoints, except
//! the two constant curves.

use vstd::prelude::*;

use crate::fixed::{scaled, MAX_VALUE, SCALE};
use crate::fixed::{abs, mul_scaled};

verus! {

/// The nineteen curve kinds of the chart format, in index order.
#[derive(Debug, Clone, Copy, PartialEq, Eq, Structural)]
pub enum EaseKind {
    Linear,
    InQuad,
    OutQuad,
    InOutQuad,
    InCubic,
    OutCubic,
    InOutCubic,
    InQuart,
    OutQuart,
    InOutQuart,
    InQuint,
    OutQuint,
    InOutQuint,
    Zero,
    One,
    InCirc,
    OutCirc,
    OutSine,
    InSine,
}

/// `x * x / SCALE`: the square brought back to units.
pub open spec fn pow2_div(x: int) -> int {
    (x * x) / (SCALE as int)
}

/// `x^3 / SCALE^2`.
pub open spec fn pow3_div(x: int) -> int {
    (x * x * x) / ((SCALE as int) * (SCALE as int))
}

/// `x^4 / SCALE^3`.
pub open spec fn pow4_div(x: int) -> int {
    (x * x * x * x) / ((SCALE as int) * (SCALE as int) * (SCALE as int))
}

/// `x^5 / SCALE^4`.
pub open spec fn pow5_div(x: int) -> int {
    (x * x * x * x * x) / ((SCALE as int) * (SCALE as int) * (SCALE as int) * (SCALE as int))
}

/// Integer square root: the largest `r` with `r * r <= n`.
pub open spec fn isqrt_spec(n: nat) -> nat
    decreases n,
{
    if n == 0 {
        0
    } else {
        let r = isqrt_spec((n - 1) as nat);
        if (r + 1) * (r + 1) <= n {
            r + 1
        } else {
            r
        }
    }
}

/// Quarter-period sine in units: a rational approximation of
/// `sin(u * pi / 2)` that is exact at both endpoints.
pub open spec fn sine_quarter(u: int) -> int {
    let s = SCALE as int;
    (4 * s * (u * (2 * s - u))) / (5 * s * s - u * (2 * s - u))
}

/// The value of each curve at `x` (both in units).
pub open spec fn ease_value(kind: EaseKind, x: int) -> int {
    let s = SCALE as int;
    match kind {
        EaseKind::Linear => x,
        EaseKind::InQuad => pow2_div(x),
        EaseKind::OutQuad => s - pow2_div(s - x),
        EaseKind::InOutQuad => if x < s / 2 {
            2 * pow2_div(x)
        } else {
            s - pow2_div(2 * (s - x)) / 2
        },
        EaseKind::InCubic => pow3_div(x),
        EaseKind::OutCubic => s - pow3_div(s - x),
        EaseKind::InOutCubic => if x < s / 2 {
            4 * pow3_div(x)
        } else {
            s - pow3_div(2 * (s - x)) / 2
        },
        EaseKind::InQuart => pow4_div(x),
        EaseKind::OutQuart => s - pow4_div(s - x),
        EaseKind::InOutQuart => if x < s / 2 {
            8 * pow4_div(x)
        } else {
            s - pow4_div(2 * (s - x)) / 2
        },
        EaseKind::InQuint => pow5_div(x),
        EaseKind::OutQuint => s - pow5_div(s - x),
        EaseKind::InOutQuint => if x < s / 2 {
            16 * pow5_div(x)
        } else {
            s - pow5_div(2 * (s - x)) / 2
        },
        EaseKind::Zero => 0,
        EaseKind::One => s,
        EaseKind::InCirc => s - isqrt_spec(((s - x) * (s + x)) as nat),
        EaseKind::OutCirc => isqrt_spec(((2 * s - x) * x) as nat) as int,
        EaseKind::OutSine => sine_quarter(x),
        EaseKind::InSine => s - sine_quarter(s - x),
    }
}

/// The curve kind selected by a chart's numeric curve index; indices past
/// the table fall back to the linear curve.
pub open spec fn kind_of(ease_type: u8) -> EaseKind {
    match ease_type {
        0u8 => EaseKind::Linear,
        1u8 => EaseKind::InQuad,
        2u8 => EaseKind::OutQuad,
        3u8 => EaseKind::InOutQuad,
        4u8 => EaseKind::InCubic,
        5u8 => EaseKind::OutCubic,
        6u8 => EaseKind::InOutCubic,
        7u8 => EaseKind::InQuart,
        8u8 => EaseKind::OutQuart,
        9u8 => EaseKind::InOutQuart,
        10u8 => EaseKind::InQuint,
        11u8 => EaseKind::OutQuint,
        12u8 => EaseKind::InOutQuint,
        13u8 => EaseKind::Zero,
        14u8 => EaseKind::One,
        15u8 => EaseKind::InCirc,
        16u8 => EaseKind::OutCirc,
        17u8 => EaseKind::OutSine,
        18u8 => EaseKind::InSine,
        _ => EaseKind::Linear,
    }
}

proof fn lemma_pow_div_props(x: int)
    requires
        0 <= x <= SCALE as int,
    ensures
        0 <= pow2_div(x) <= x,
        0 <= pow3_div(x) <= x,
        0 <= pow4_div(x) <= x,
        0 <= pow5_div(x) <= x,
        x == SCALE as int ==> pow2_div(x) == x && pow3_div(x) == x && pow4_div(x) == x
            && pow5_div(x) == x,
        x < (SCALE as int) / 2 ==> 2 * pow2_div(x) <= SCALE as int && 4 * pow3_div(x)
            <= SCALE as int && 8 * pow4_div(x) <= SCALE as int && 16 * pow5_div(x)
            <= SCALE as int,
{
    let s = SCALE as int;
    assert(s * s == 1_000_000_000_000 && s * s * s == 1_000_000_000_000_000_000 && s * s * s * s
        == 1_000_000_000_000_000_000_000_000) by (nonlinear_arith)
        requires
            s == 1_000_000,
    ;
    assert(x * x <= x * s && x * x * x <= x * (s * s) && x * x * x * x <= x * (s * s * s)
        && x * x * x * x * x <= x * (s * s * s * s) && x * x >= 0 && x * x * x >= 0
        && x * x * x * x >= 0 && x * x * x * x * x >= 0) by (nonlinear_arith)
        requires
            0 <= x <= s,
    ;
    vstd::arithmetic::div_mod::lemma_div_is_ordered(x * x, x * s, s);
    vstd::arithmetic::div_mod::lemma_div_by_multiple(x, s);
    vstd::arithmetic::div_mod::lemma_div_is_ordered(x * x * x, x * (s * s), s * s);
    vstd::arithmetic::div_mod::lemma_div_by_multiple(x, s * s);
    vstd::arithmetic::div_mod::lemma_div_is_ordered(x * x * x * x, x * (s * s * s), s * s * s);
    vstd::arithmetic::div_mod::lemma_div_by_multiple(x, s * s * s);
    vstd::arithmetic::div_mod::lemma_div_is_ordered(
        x * x * x * x * x,
        x * (s * s * s * s),
        s * s * s * s,
    );
    vstd::arithmetic::div_mod::lemma_div_by_multiple(x, s * s * s * s);
    vstd::arithmetic::div_mod::lemma_div_pos_is_pos(x * x, s);
    vstd::arithmetic::div_mod::lemma_div_pos_is_pos(x * x * x, s * s);
    vstd::arithmetic::div_mod::lemma_div_pos_is_pos(x * x * x * x, s * s * s);
    vstd::arithmetic::div_mod::lemma_div_pos_is_pos(x * x * x * x * x, s * s * s * s);
    if x < s / 2 {
        assert(x * x <= 500_000 * 500_000 && x * x * x <= 500_000 * 500_000 * 500_000 && x * x * x
            * x <= 500_000 * 500_000 * 500_000 * 500_000 && x * x * x * x * x <= 500_000 * 500_000
            * 500_000 * 500_000 * 500_000) by (nonlinear_arith)
            requires
                0 <= x <= 500_000,
        ;
        vstd::arithmetic::div_mod::lemma_div_is_ordered(x * x, 500_000int * 500_000, s);
        vstd::arithmetic::div_mod::lemma_div_is_ordered(
            x * x * x,
            500_000int * 500_000 * 500_000,
            s * s,
        );
        vstd::arithmetic::div_mod::lemma_div_is_ordered(
            x * x * x * x,
            500_000int * 500_000 * 500_000 * 500_000,
            s * s * s,
        );
        vstd::arithmetic::div_mod::lemma_div_is_ordered(
            x * x * x * x * x,
            500_000int * 500_000 * 500_000 * 500_000 * 500_000,
            s * s * s * s,
        );
    }
}

proof fn lemma_isqrt_bounds(n: nat)
    ensures
        isqrt_spec(n) * isqrt_spec(n) <= n,
        n < (isqrt_spec(n) + 1) * (isqrt_spec(n) + 1),
    decreases n,
{
    if n == 0 {
        assert(isqrt_spec(0) == 0);
        assert(0nat * 0nat == 0 && (0nat + 1) * (0nat + 1) == 1) by (nonlinear_arith);
    } else {
        lemma_isqrt_bounds((n - 1) as nat);
        let r = isqrt_spec((n - 1) as nat);
        if (r + 1) * (r + 1) <= n {
            assert(isqrt_spec(n) == r + 1);
            assert((r + 1) * (r + 1) < (r + 2) * (r + 2)) by (nonlinear_arith);
        } else {
            assert(isqrt_spec(n) == r);
        }
    }
}

proof fn lemma_isqrt_unique(n: nat, r: nat)
    requires
        r * r <= n,
        n < (r + 1) * (r + 1),
    ensures
        isqrt_spec(n) == r,
{
    let q = isqrt_spec(n);
    lemma_isqrt_bounds(n);
    if q < r {
        assert((q + 1) * (q + 1) <= r * r) by (nonlinear_arith)
            requires
                q + 1 <= r,
        ;
    }
    if r < q {
        assert((r + 1) * (r + 1) <= q * q) by (nonlinear_arith)
            requires
                r + 1 <= q,
        ;
    }
}

/// The integer square root never exceeds a square's root.
proof fn lemma_isqrt_le(n: nat, m: nat)
    requires
        n <= m * m,
    ensures
        isqrt_spec(n) <= m,
{
    let q = isqrt_spec(n);
    lemma_isqrt_bounds(n);
    if m < q {
        assert((m + 1) * (m + 1) <= q * q && m * m < (m + 1) * (m + 1)) by (nonlinear_arith)
            requires
                m + 1 <= q,
        ;
    }
}

/// Largest `r` with `r * r <= n`, by bisection.
fn isqrt(n: u64) -> (r: u64)
    requires
        n <= 1_000_000_000_000,
    ensures
        r as nat == isqrt_spec(n as nat),
        r * r <= n,
{
    let mut lo: u64 = 0;
    let mut hi: u64 = 1_000_001;
    proof {
        assert(1_000_001int * 1_000_001 > n);
    }
    while lo + 1 < hi
        invariant
            lo < hi <= 1_000_001,
            (lo as int) * (lo as int) <= n as int,
            (n as int) < (hi as int) * (hi as int),
        decreases hi - lo,
    {
        let mid: u64 = lo + (hi - lo) / 2;
        proof {
            assert((mid as int) * (mid as int) <= 1_000_001 * 1_000_001) by (nonlinear_arith)
                requires
                    0 <= mid as int <= 1_000_001,
            ;
        }
        if mid * mid <= n {
            lo = mid;
        } else {
            hi = mid;
        }
    }
    proof {
        lemma_isqrt_unique(n as nat, lo as nat);
    }
    lo
}

/// Shared shape of the easing family: every curve maps the unit interval
/// into itself, and fixes 0 and 1, except the two constant curves, which
/// hold 0 and 1 everywhere.
pub proof fn lemma_ease_unit_range(kind: EaseKind, x: int)
    requires
        0 <= x <= SCALE as int,
    ensures
        0 <= ease_value(kind, x) <= SCALE as int,
        kind == EaseKind::Zero ==> ease_value(kind, x) == 0,
        kind == EaseKind::One ==> ease_value(kind, x) == SCALE as int,
        kind != EaseKind::Zero && kind != EaseKind::One ==> ease_value(kind, 0) == 0
            && ease_value(kind, SCALE as int) == SCALE as int,
{
    let s = SCALE as int;
    lemma_pow_div_props(x);
    lemma_pow_div_props(s - x);
    lemma_pow_div_props(0);
    lemma_pow_div_props(s);
    if x >= s / 2 {
        lemma_pow_div_props(2 * (s - x));
    }
    lemma_circ_range(x);
    lemma_circ_range(0);
    lemma_circ_range(s);
    lemma_sine_quarter_range(x);
    lemma_sine_quarter_range(s - x);
    lemma_sine_quarter_range(0);
    lemma_sine_quarter_range(s);
}

proof fn lemma_circ_range(x: int)
    requires
        0 <= x <= SCALE as int,
    ensures
        0 <= isqrt_spec(((SCALE as int - x) * (SCALE as int + x)) as nat) <= SCALE as int,
        0 <= isqrt_spec(((2 * (SCALE as int) - x) * x) as nat) <= SCALE as int,
        x == 0 ==> isqrt_spec(((SCALE as int - x) * (SCALE as int + x)) as nat) == SCALE as int,
        x == 0 ==> isqrt_spec(((2 * (SCALE as int) - x) * x) as nat) == 0,
        x == SCALE as int ==> isqrt_spec(((SCALE as int - x) * (SCALE as int + x)) as nat) == 0,
        x == SCALE as int ==> isqrt_spec(((2 * (SCALE as int) - x) * x) as nat) == SCALE as int,
{
    let s = SCALE as int;
    assert(0 <= (s - x) * (s + x) <= s * s && 0 <= (2 * s - x) * x <= s * s && s * s
        == 1_000_000_000_000) by (nonlinear_arith)
        requires
            0 <= x <= s,
            s == 1_000_000,
    ;
    assert((SCALE as nat) * (SCALE as nat) == 1_000_000_000_000nat && ((SCALE as nat) + 1) * ((
    SCALE as nat) + 1) == 1_000_002_000_001nat) by (nonlinear_arith)
        requires
            SCALE as nat == 1_000_000nat,
    ;
    lemma_isqrt_le(((s - x) * (s + x)) as nat, SCALE as nat);
    lemma_isqrt_le(((2 * s - x) * x) as nat, SCALE as nat);
    if x == 0 {
        assert((s - x) * (s + x) == s * s && (2 * s - x) * x == 0) by (nonlinear_arith)
            requires
                x == 0,
        ;
        assert((0nat + 1) * (0nat + 1) == 1) by (nonlinear_arith);
        lemma_isqrt_unique((s * s) as nat, SCALE as nat);
        lemma_isqrt_unique(0, 0);
    }
    if x == s {
        assert((s - x) * (s + x) == 0 && (2 * s - x) * x == s * s) by (nonlinear_arith)
            requires
                x == s,
        ;
        assert((0nat + 1) * (0nat + 1) == 1) by (nonlinear_arith);
        lemma_isqrt_unique(0, 0);
        lemma_isqrt_unique((s * s) as nat, SCALE as nat);
    }
}

proof fn lemma_sine_quarter_range(u: int)
    requires
        0 <= u <= SCALE as int,
    ensures
        0 <= sine_quarter(u) <= SCALE as int,
        u == 0 ==> sine_quarter(u) == 0,
        u == SCALE as int ==> sine_quarter(u) == SCALE as int,
{
    let s = SCALE as int;
    let p = u * (2 * s - u);
    assert(0 <= p <= s * s && 4 * s * p <= s * (5 * s * s - p) && s * s == 1_000_000_000_000 && 4
        * s * p >= 0) by (nonlinear_arith)
        requires
            0 <= u <= s,
            p == u * (2 * s - u),
            s == 1_000_000,
    ;
    vstd::arithmetic::div_mod::lemma_div_pos_is_pos(4 * s * p, 5 * s * s - p);
    vstd::arithmetic::div_mod::lemma_div_is_ordered(4 * s * p, s * (5 * s * s - p), 5 * s * s - p);
    vstd::arithmetic::div_mod::lemma_div_multiples_vanish(s, 5 * s * s - p);
    if u == 0 {
        assert(p == 0 && 4 * s * p == 0) by (nonlinear_arith)
            requires
                p == u * (2 * s - u),
                u == 0,
        ;
        vstd::arithmetic::div_mod::lemma_div_of0(5 * s * s - p);
    }
    if u == s {
        assert(p == s * s && 4 * s * p == 4_000_000_000_000_000_000 && 5 * s * s - p
            == 4_000_000_000_000) by (nonlinear_arith)
            requires
                p == u * (2 * s - u),
                u == s,
                s == 1_000_000,
        ;
        assert(4_000_000_000_000_000_000int / 4_000_000_000_000int == 1_000_000);
    }
}

fn pow2_div_exec(x: u64) -> (r: u64)
    requires
        x <= SCALE,
    ensures
        r as int == pow2_div(x as int),
        r <= x,
{
    proof {
        lemma_pow_div_props(x as int);
        assert((x as int) * (x as int) <= 1_000_000_000_000) by (nonlinear_arith)
            requires
                x as int <= 1_000_000,
        ;
    }
    (x * x) / SCALE
}

fn pow3_div_exec(x: u64) -> (r: u64)
    requires
        x <= SCALE,
    ensures
        r as int == pow3_div(x as int),
        r <= x,
{
    proof {
        lemma_pow_div_props(x as int);
        assert((x as int) * (x as int) <= 1_000_000_000_000 && (x as int) * (x as int) * (x as int)
            <= 1_000_000_000_000_000_000) by (nonlinear_arith)
            requires
                x as int <= 1_000_000,
        ;
    }
    let x2: u64 = x * x;
    (x2 * x) / 1_000_000_000_000
}

fn pow4_div_exec(x: u64) -> (r: u64)
    requires
        x <= SCALE,
    ensures
        r as int == pow4_div(x as int),
        r <= x,
{
    proof {
        lemma_pow_div_props(x as int);
        assert((x as int) * (x as int) <= 1_000_000_000_000 && (x as int) * (x as int) * (x as int)
            <= 1_000_000_000_000_000_000 && (x as int) * (x as int) * (x as int) * (x as int)
            <= 1_000_000_000_000_000_000_000_000) by (nonlinear_arith)
            requires
                x as int <= 1_000_000,
        ;
    }
    let x1: u128 = x as u128;
    let x4: u128 = x1 * x1 * x1 * x1;
    (x4 / 1_000_000_000_000_000_000) as u64
}

fn pow5_div_exec(x: u64) -> (r: u64)
    requires
        x <= SCALE,
    ensures
        r as int == pow5_div(x as int),
        r <= x,
{
    proof {
        lemma_pow_div_props(x as int);
        assert((x as int) * (x as int) <= 1_000_000_000_000 && (x as int) * (x as int) * (x as int)
            <= 1_000_000_000_000_000_000 && (x as int) * (x as int) * (x as int) * (x as int)
            <= 1_000_000_000_000_000_000_000_000 && (x as int) * (x as int) * (x as int) * (
        x as int) * (x as int) <= 1_000_000_000_000_000_000_000_000_000_000) by (nonlinear_arith)
            requires
                x as int <= 1_000_000,
        ;
    }
    let x1: u128 = x as u128;
    let x5: u128 = x1 * x1 * x1 * x1 * x1;
    (x5 / 1_000_000_000_000_000_000_000_000) as u64
}

fn sine_quarter_exec(u: u64) -> (r: u64)
    requires
        u <= SCALE,
    ensures
        r as int == sine_quarter(u as int),
        r <= SCALE,
{
    proof {
        lemma_sine_quarter_range(u as int);
        assert(0 <= (u as int) * (2 * (SCALE as int) - u as int) <= 1_000_000_000_000)
            by (nonlinear_arith)
            requires
                0 <= u as int <= 1_000_000,
        ;
    }
    let p: u64 = u * (2 * SCALE - u);
    let num: u128 = 4 * (SCALE as u128) * (p as u128);
    let den: u128 = 5 * (SCALE as u128) * (SCALE as u128) - (p as u128);
    proof {
        vstd::arithmetic::div_mod::lemma_div_pos_is_pos(num as int, den as int);
    }
    (num / den) as u64
}

/// Identity curve.
pub fn linear(x: u64) -> (r: u64)
    requires
        x <= SCALE,
    ensures
        r as int == ease_value(EaseKind::Linear, x as int),
{
    x
}

/// Quadratic ease-in.
pub fn ease_in_quad(x: u64) -> (r: u64)
    requires
        x <= SCALE,
    ensures
        r as int == ease_value(EaseKind::InQuad, x as int),
{
    pow2_div_exec(x)
}

/// Quadratic ease-out.
pub fn ease_out_quad(x: u64) -> (r: u64)
    requires
        x <= SCALE,
    ensures
        r as int == ease_value(EaseKind::OutQuad, x as int),
{
    SCALE - pow2_div_exec(SCALE - x)
}

/// Quadratic ease-in-out.
pub fn ease_in_out_quad(x: u64) -> (r: u64)
    requires
        x <= SCALE,
    ensures
        r as int == ease_value(EaseKind::InOutQuad, x as int),
{
    if x < SCALE / 2 {
        2 * pow2_div_exec(x)
    } else {
        let y: u64 = 2 * (SCALE - x);
        SCALE - pow2_div_exec(y) / 2
    }
}

/// Cubic ease-in.
pub fn ease_in_cubic(x: u64) -> (r: u64)
    requires
        x <= SCALE,
    ensures
        r as int == ease_value(EaseKind::InCubic, x as int),
{
    pow3_div_exec(x)
}

/// Cubic ease-out.
pub fn ease_out_cubic(x: u64) -> (r: u64)
    requires
        x <= SCALE,
    ensures
        r as int == ease_value(EaseKind::OutCubic, x as int),
{
    SCALE - pow3_div_exec(SCALE - x)
}

/// Cubic ease-in-out.
pub fn ease_in_out_cubic(x: u64) -> (r: u64)
    requires
        x <= SCALE,
    ensures
        r as int == ease_value(EaseKind::InOutCubic, x as int),
{
    if x < SCALE / 2 {
        proof {
            lemma_pow_div_props(x as int);
        }
        4 * pow3_div_exec(x)
    } else {
        let y: u64 = 2 * (SCALE - x);
        SCALE - pow3_div_exec(y) / 2
    }
}

/// Quartic ease-in.
pub fn ease_in_quart(x: u64) -> (r: u64)
    requires
        x <= SCALE,
    ensures
        r as int == ease_value(EaseKind::InQuart, x as int),
{
    pow4_div_exec(x)
}

/// Quartic ease-out.
pub fn ease_out_quart(x: u64) -> (r: u64)
    requires
        x <= SCALE,
    ensures
        r as int == ease_value(EaseKind::OutQuart, x as int),
{
    SCALE - pow4_div_exec(SCALE - x)
}

/// Quartic ease-in-out.
pub fn ease_in_out_quart(x: u64) -> (r: u64)
    requires
        x <= SCALE,
    ensures
        r as int == ease_value(EaseKind::InOutQuart, x as int),
{
    if x < SCALE / 2 {
        proof {
            lemma_pow_div_props(x as int);
        }
        8 * pow4_div_exec(x)
    } else {
        let y: u64 = 2 * (SCALE - x);
        SCALE - pow4_div_exec(y) / 2
    }
}

/// Quintic ease-in.
pub fn ease_in_quint(x: u64) -> (r: u64)
    requires
        x <= SCALE,
    ensures
        r as int == ease_value(EaseKind::InQuint, x as int),
{
    pow5_div_exec(x)
}

/// Quintic ease-out.
pub fn ease_out_quint(x: u64) -> (r: u64)
    requires
        x <= SCALE,
    ensures
        r as int == ease_value(EaseKind::OutQuint, x as int),
{
    SCALE - pow5_div_exec(SCALE - x)
}

/// Quintic ease-in-out.
pub fn ease_in_out_quint(x: u64) -> (r: u64)
    requires
        x <= SCALE,
    ensures
        r as int == ease_value(EaseKind::InOutQuint, x as int),
{
    if x < SCALE / 2 {
        proof {
            lemma_pow_div_props(x as int);
        }
        16 * pow5_div_exec(x)
    } else {
        let y: u64 = 2 * (SCALE - x);
        SCALE - pow5_div_exec(y) / 2
    }
}

/// Constant curve holding 0: "stay at the start" semantics.
pub fn ease_zero(x: u64) -> (r: u64)
    requires
        x <= SCALE,
    ensures
        r as int == ease_value(EaseKind::Zero, x as int),
{
    0
}

/// Constant curve holding 1: "jump to the end" semantics.
pub fn ease_one(x: u64) -> (r: u64)
    requires
        x <= SCALE,
    ensures
        r as int == ease_value(EaseKind::One, x as int),
{
    SCALE
}

/// Circular ease-in.
pub fn ease_in_circ(x: u64) -> (r: u64)
    requires
        x <= SCALE,
    ensures
        r as int == ease_value(EaseKind::InCirc, x as int),
{
    proof {
        lemma_circ_range(x as int);
        assert(0 <= (SCALE as int - x as int) * (SCALE as int + x as int) <= 1_000_000_000_000)
            by (nonlinear_arith)
            requires
                0 <= x as int <= 1_000_000,
        ;
    }
    let n: u64 = (SCALE - x) * (SCALE + x);
    SCALE - isqrt(n)
}

/// Circular ease-out.
pub fn ease_out_circ(x: u64) -> (r: u64)
    requires
        x <= SCALE,
    ensures
        r as int == ease_value(EaseKind::OutCirc, x as int),
{
    proof {
        lemma_circ_range(x as int);
        assert(0 <= (2 * (SCALE as int) - x as int) * (x as int) <= 1_000_000_000_000)
            by (nonlinear_arith)
            requires
                0 <= x as int <= 1_000_000,
        ;
    }
    let n: u64 = (2 * SCALE - x) * x;
    isqrt(n)
}

/// Sinusoidal ease-out: quarter-period sine.
pub fn ease_out_sine(x: u64) -> (r: u64)
    requires
        x <= SCALE,
    ensures
        r as int == ease_value(EaseKind::OutSine, x as int),
{
    sine_quarter_exec(x)
}

/// Sinusoidal ease-in: quarter-period cosine complement.
pub fn ease_in_sine(x: u64) -> (r: u64)
    requires
        x <= SCALE,
    ensures
        r as int == ease_value(EaseKind::InSine, x as int),
{
    SCALE - sine_quarter_exec(SCALE - x)
}

/// Curve kind selected by a chart's numeric curve index; indices past the
/// table fall back to the linear curve, so the lookup is total.
pub fn get_ease_func(ease_type: u8) -> (k: EaseKind)
    ensures
        k == kind_of(ease_type),
{
    match ease_type {
        0 => EaseKind::Linear,
        1 => EaseKind::InQuad,
        2 => EaseKind::OutQuad,
        3 => EaseKind::InOutQuad,
        4 => EaseKind::InCubic,
        5 => EaseKind::OutCubic,
        6 => EaseKind::InOutCubic,
        7 => EaseKind::InQuart,
        8 => EaseKind::OutQuart,
        9 => EaseKind::InOutQuart,
        10 => EaseKind::InQuint,
        11 => EaseKind::OutQuint,
        12 => EaseKind::InOutQuint,
        13 => EaseKind::Zero,
        14 => EaseKind::One,
        15 => EaseKind::InCirc,
        16 => EaseKind::OutCirc,
        17 => EaseKind::OutSine,
        18 => EaseKind::InSine,
        _ => EaseKind::Linear,
    }
}

/// Evaluate the curve selected by `ease_type` at `t`, clamping `t` into the
/// unit interval first; the result is again inside the unit interval.
pub fn apply_ease(ease_type: u8, t: u64) -> (r: u64)
    ensures
        r as int == ease_value(
            kind_of(ease_type),
            if t <= SCALE {
                t as int
            } else {
                SCALE as int
            },
        ),
        r <= SCALE,
{
    let x: u64 = if t > SCALE {
        SCALE
    } else {
        t
    };
    proof {
        lemma_ease_unit_range(kind_of(ease_type), x as int);
    }
    let k: EaseKind = get_ease_func(ease_type);
    match k {
        EaseKind::Linear => linear(x),
        EaseKind::InQuad => ease_in_quad(x),
        EaseKind::OutQuad => ease_out_quad(x),
        EaseKind::InOutQuad => ease_in_out_quad(x),
        EaseKind::InCubic => ease_in_cubic(x),
        EaseKind::OutCubic => ease_out_cubic(x),
        EaseKind::InOutCubic => ease_in_out_cubic(x),
        EaseKind::InQuart => ease_in_quart(x),
        EaseKind::OutQuart => ease_out_quart(x),
        EaseKind::InOutQuart => ease_in_out_quart(x),
        EaseKind::InQuint => ease_in_quint(x),
        EaseKind::OutQuint => ease_out_quint(x),
        EaseKind::InOutQuint => ease_in_out_quint(x),
        EaseKind::Zero => ease_zero(x),
        EaseKind::One => ease_one(x),
        EaseKind::InCirc => ease_in_circ(x),
        EaseKind::OutCirc => ease_out_circ(x),
        EaseKind::OutSine => ease_out_sine(x),
        EaseKind::InSine => ease_in_sine(x),
    }
}

/// Linear interpolation from `start` toward `end`, `t` millionths of the
/// way.
pub fn lerp(start: i64, end: i64, t: u64) -> (r: i64)
    requires
        abs(start as int) <= MAX_VALUE as int,
        abs(end as int) <= MAX_VALUE as int,
        t <= SCALE,
    ensures
        r as int == start as int + scaled(end as int - start as int, t as int),
{
    let d: i64 = end - start;
    proof {
        vstd::arithmetic::mul::lemma_mul_upper_bound(
            abs(d as int),
            2 * (MAX_VALUE as int),
            t as int,
            SCALE as int,
        );
        crate::fixed::lemma_scaled_bound(
            d as int,
            t as int,
            2 * (MAX_VALUE as int),
            SCALE as int,
        );
        vstd::arithmetic::div_mod::lemma_div_multiples_vanish(
            2 * (MAX_VALUE as int),
            SCALE as int,
        );
    }
    let m: i64 = mul_scaled(d, t);
    start + m
}

} // verus!
