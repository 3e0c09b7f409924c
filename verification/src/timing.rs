//! Temporal mapping and keyframe resolution.
//!
//! [`seconds_to_tick`] and [`tick_to_seconds`] convert between wall-clock
//! seconds and tempo ticks under a piecewise tempo-shift list; [`find_value`]
//! resolves a keyframe track at a tick with eased interpolation;
//! [`recalculate_fps`] and [`speed_to_fp`] integrate a speed track into a
//! cumulative floor position.  All quantities are fixed-point units of one
//! millionth; see [`crate::fixed`] for the accepted bounds.

use vstd::prelude::*;

use crate::chart::{BpmShift, KeyPoint};
use crate::easing::{apply_ease, ease_value, kind_of, lerp};
use crate::fixed::{abs, scaled, MAX_RATE, MAX_TIME, MAX_VALUE, MIN_RATE, SCALE, SEC_BOUND};

verus! {

/// Ticks elapsed over `sec` seconds at base rate `bpm` scaled by `mult`
/// (all in units): `sec * bpm * mult / (60 * SCALE * SCALE)`.
pub open spec fn ticks_of_seconds(sec: int, bpm: int, mult: int) -> int {
    (sec * bpm * mult) / (60 * (SCALE as int) * (SCALE as int))
}

/// Seconds elapsed over `tick` ticks at base rate `bpm` scaled by `mult`
/// (all in units): `tick * 60 * SCALE * SCALE / (bpm * mult)`.
pub open spec fn seconds_of_ticks(tick: int, bpm: int, mult: int) -> int {
    (tick * 60 * (SCALE as int) * (SCALE as int)) / (bpm * mult)
}

/// Where `q` lies within `[a0, a1]`, mapped proportionally into `[b0, b1]`.
pub open spec fn interp(q: int, a0: int, a1: int, b0: int, b1: int) -> int {
    b0 + ((q - a0) * (b1 - b0)) / (a1 - a0)
}

/// Both axes of the tempo-shift list strictly increase: ticks and their
/// wall-clock floors are jointly monotone.
pub open spec fn shifts_sorted(shifts: Seq<BpmShift>) -> bool {
    forall|i: int, j: int|
        0 <= i < j < shifts.len() ==> (shifts[i].time as int) < (shifts[j].time as int) && (
        shifts[i].floor_position as int) < (shifts[j].floor_position as int)
}

/// Tempo-shift list invariant: jointly monotone axes, times within the
/// accepted range, and every multiplier forming an accepted rate with the
/// base rate `bpm` (the unit multiplier too, for the no-shift fallback).
pub open spec fn shifts_wf(shifts: Seq<BpmShift>, bpm: int) -> bool {
    &&& shifts_sorted(shifts)
    &&& forall|i: int|
        0 <= i < shifts.len() ==> (shifts[i].time as int) <= MAX_TIME as int && (
        shifts[i].floor_position as int) <= MAX_TIME as int
    &&& forall|i: int|
        0 <= i < shifts.len() ==> MIN_RATE as int <= bpm * ((#[trigger] shifts[i]).value as int)
            <= MAX_RATE as int
    &&& MIN_RATE as int <= bpm * (SCALE as int) <= MAX_RATE as int
}

/// The tick reached after `seconds` of wall-clock time: constant-rate
/// fallback without shifts, the first shift's rate up to its floor, linear
/// interpolation between bracketing shifts, and the last shift's rate
/// beyond it.
pub open spec fn s2t_spec(seconds: int, shifts: Seq<BpmShift>, bpm: int) -> int {
    let n = shifts.len() as int;
    if n == 0 {
        ticks_of_seconds(seconds, bpm, SCALE as int)
    } else if seconds <= shifts[0].floor_position as int {
        ticks_of_seconds(seconds, bpm, shifts[0].value as int)
    } else if seconds > shifts[n - 1].floor_position as int {
        shifts[n - 1].time as int + ticks_of_seconds(
            seconds - shifts[n - 1].floor_position as int,
            bpm,
            shifts[n - 1].value as int,
        )
    } else {
        let i = choose|i: int|
            1 <= i < n && ((#[trigger] shifts[i - 1]).floor_position as int) < seconds && seconds
                <= (shifts[i].floor_position as int);
        interp(
            seconds,
            shifts[i - 1].floor_position as int,
            shifts[i].floor_position as int,
            shifts[i - 1].time as int,
            shifts[i].time as int,
        )
    }
}

/// The wall-clock seconds at which `tick` is reached: the symmetric
/// construction, bracketing on the tick axis.
pub open spec fn t2s_spec(tick: int, shifts: Seq<BpmShift>, bpm: int) -> int {
    let n = shifts.len() as int;
    if n == 0 {
        seconds_of_ticks(tick, bpm, SCALE as int)
    } else if tick <= shifts[0].time as int {
        seconds_of_ticks(tick, bpm, shifts[0].value as int)
    } else if tick > shifts[n - 1].time as int {
        shifts[n - 1].floor_position as int + seconds_of_ticks(
            tick - shifts[n - 1].time as int,
            bpm,
            shifts[n - 1].value as int,
        )
    } else {
        let i = choose|i: int|
            1 <= i < n && ((#[trigger] shifts[i - 1]).time as int) < tick && tick <= (shifts[
                i].time as int);
        interp(
            tick,
            shifts[i - 1].time as int,
            shifts[i].time as int,
            shifts[i - 1].floor_position as int,
            shifts[i].floor_position as int,
        )
    }
}

proof fn lemma_ticks_of_seconds_bounds(sec: int, bpm: int, mult: int)
    requires
        0 <= sec <= MAX_TIME as int,
        0 <= bpm,
        0 <= mult,
        bpm * mult <= MAX_RATE as int,
    ensures
        0 <= ticks_of_seconds(sec, bpm, mult) <= 10_000_000_000_000_000,
{
    assert(sec * bpm * mult == sec * (bpm * mult) && 0 <= sec * (bpm * mult) && sec * (bpm * mult)
        <= 600_000_000_000_000_000_000_000_000_000) by (nonlinear_arith)
        requires
            0 <= sec <= 1_000_000_000_000,
            0 <= bpm,
            0 <= mult,
            bpm * mult <= 600_000_000_000_000_000,
    ;
    vstd::arithmetic::div_mod::lemma_div_pos_is_pos(sec * bpm * mult, 60_000_000_000_000);
    vstd::arithmetic::div_mod::lemma_div_is_ordered(
        sec * bpm * mult,
        600_000_000_000_000_000_000_000_000_000,
        60_000_000_000_000,
    );
    assert(600_000_000_000_000_000_000_000_000_000int / 60_000_000_000_000int
        == 10_000_000_000_000_000);
    assert(60 * (SCALE as int) * (SCALE as int) == 60_000_000_000_000);
}

proof fn lemma_seconds_of_ticks_bounds(tick: int, bpm: int, mult: int)
    requires
        0 <= tick <= MAX_TIME as int,
        MIN_RATE as int <= bpm * mult,
    ensures
        0 <= seconds_of_ticks(tick, bpm, mult) <= 100_000_000_000_000,
{
    let num = tick * 60 * (SCALE as int) * (SCALE as int);
    assert(num == tick * 60_000_000_000_000 && 0 <= num && num
        <= 60_000_000_000_000_000_000_000_000) by (nonlinear_arith)
        requires
            0 <= tick <= 1_000_000_000_000,
            num == tick * 60 * (SCALE as int) * (SCALE as int),
            SCALE as int == 1_000_000,
    ;
    vstd::arithmetic::div_mod::lemma_div_pos_is_pos(num, bpm * mult);
    vstd::arithmetic::div_mod::lemma_div_is_ordered_by_denominator(
        num,
        MIN_RATE as int,
        bpm * mult,
    );
    vstd::arithmetic::div_mod::lemma_div_is_ordered(
        num,
        60_000_000_000_000_000_000_000_000,
        MIN_RATE as int,
    );
    assert(60_000_000_000_000_000_000_000_000int / 600_000_000_000int == 100_000_000_000_000);
}

/// On a jointly monotone shift list, at most one interval brackets a
/// seconds value.
proof fn lemma_sec_bracket_unique(shifts: Seq<BpmShift>, seconds: int, i: int)
    requires
        shifts_sorted(shifts),
        1 <= i < shifts.len(),
        (shifts[i - 1].floor_position as int) < seconds,
        seconds <= (shifts[i].floor_position as int),
    ensures
        forall|j: int|
            1 <= j < shifts.len() && ((#[trigger] shifts[j - 1]).floor_position as int) < seconds
                && seconds <= (shifts[j].floor_position as int) ==> j == i,
{
    assert forall|j: int|
        1 <= j < shifts.len() && ((#[trigger] shifts[j - 1]).floor_position as int) < seconds
            && seconds <= (shifts[j].floor_position as int) implies j == i by {
        if j < i {
            assert((shifts[j].floor_position as int) <= (shifts[i - 1].floor_position as int));
        }
        if j > i {
            assert((shifts[i].floor_position as int) <= (shifts[j - 1].floor_position as int));
        }
    }
}

/// Likewise on the tick axis.
proof fn lemma_tick_bracket_unique(shifts: Seq<BpmShift>, tick: int, i: int)
    requires
        shifts_sorted(shifts),
        1 <= i < shifts.len(),
        (shifts[i - 1].time as int) < tick,
        tick <= (shifts[i].time as int),
    ensures
        forall|j: int|
            1 <= j < shifts.len() && ((#[trigger] shifts[j - 1]).time as int) < tick && tick
                <= (shifts[j].time as int) ==> j == i,
{
    assert forall|j: int|
        1 <= j < shifts.len() && ((#[trigger] shifts[j - 1]).time as int) < tick && tick <= (
        shifts[j].time as int) implies j == i by {
        if j < i {
            assert((shifts[j].time as int) <= (shifts[i - 1].time as int));
        }
        if j > i {
            assert((shifts[i].time as int) <= (shifts[j - 1].time as int));
        }
    }
}

/// Ticks elapsed over `sec` seconds at rate `bpm * mult`.
fn rate_ticks(sec: u64, bpm: u64, mult: u64) -> (r: u64)
    requires
        sec <= MAX_TIME,
        0 <= (bpm as int) * (mult as int) <= MAX_RATE as int,
    ensures
        r as int == ticks_of_seconds(sec as int, bpm as int, mult as int),
        r <= 10_000_000_000_000_000,
{
    proof {
        lemma_ticks_of_seconds_bounds(sec as int, bpm as int, mult as int);
        assert((sec as int) * (bpm as int) * (mult as int) == (sec as int) * ((bpm as int) * (
        mult as int)) && 0 <= (sec as int) * ((bpm as int) * (mult as int))
            <= 600_000_000_000_000_000_000_000_000_000) by (nonlinear_arith)
            requires
                0 <= sec as int <= 1_000_000_000_000,
                0 <= (bpm as int) * (mult as int) <= 600_000_000_000_000_000,
                0 <= bpm as int,
                0 <= mult as int,
        ;
    }
    let rate: u128 = (bpm as u128) * (mult as u128);
    let num: u128 = (sec as u128) * rate;
    let q: u128 = num / 60_000_000_000_000u128;
    proof {
        assert(60 * (SCALE as int) * (SCALE as int) == 60_000_000_000_000);
    }
    q as u64
}

/// Seconds elapsed over `tick` ticks at rate `bpm * mult`.
fn rate_seconds(tick: u64, bpm: u64, mult: u64) -> (r: u64)
    requires
        tick <= MAX_TIME,
        MIN_RATE as int <= (bpm as int) * (mult as int),
    ensures
        r as int == seconds_of_ticks(tick as int, bpm as int, mult as int),
        r <= 100_000_000_000_000,
{
    proof {
        lemma_seconds_of_ticks_bounds(tick as int, bpm as int, mult as int);
        assert((tick as int) * 60 * (SCALE as int) * (SCALE as int) == (tick as int)
            * 60_000_000_000_000 && 0 <= (tick as int) * 60_000_000_000_000
            <= 60_000_000_000_000_000_000_000_000) by (nonlinear_arith)
            requires
                0 <= tick as int <= 1_000_000_000_000,
                SCALE as int == 1_000_000,
        ;
        assert((bpm as int) * (mult as int) <= 340_282_366_920_938_463_463_374_607_431_768_211_455)
            by (nonlinear_arith)
            requires
                0 <= bpm as int,
                (bpm as int) < 18_446_744_073_709_551_616,
                0 <= mult as int,
                (mult as int) < 18_446_744_073_709_551_616,
        ;
    }
    let num: u128 = (tick as u128) * 60_000_000_000_000u128;
    let den: u128 = (bpm as u128) * (mult as u128);
    let q: u128 = num / den;
    q as u64
}

/// Wall-clock seconds to tempo tick under the tempo-shift list: before the
/// first shift's floor the first rate applies, between shifts the tick is
/// interpolated proportionally, and past the last floor the last rate
/// extrapolates.
pub fn seconds_to_tick(seconds: u64, bpm_shifts: &Vec<BpmShift>, base_bpm: u64) -> (tick: u64)
    requires
        shifts_wf(bpm_shifts@, base_bpm as int),
        seconds <= MAX_TIME,
    ensures
        tick as int == s2t_spec(seconds as int, bpm_shifts@, base_bpm as int),
        tick <= crate::fixed::TICK_BOUND,
{
    let ghost shifts = bpm_shifts@;
    let ghost bpm = base_bpm as int;
    let n: usize = bpm_shifts.len();
    if n == 0 {
        return rate_ticks(seconds, base_bpm, SCALE);
    }
    let first_floor: u64 = bpm_shifts[0].floor_position;
    if seconds <= first_floor {
        return rate_ticks(seconds, base_bpm, bpm_shifts[0].value);
    }
    let mut i: usize = 1;
    while i < n
        invariant
            1 <= i <= n,
            n == shifts.len(),
            shifts == bpm_shifts@,
            bpm == base_bpm as int,
            shifts_wf(shifts, bpm),
            seconds <= MAX_TIME,
            (shifts[i - 1].floor_position as int) < seconds as int,
        decreases n - i,
    {
        let curr_floor: u64 = bpm_shifts[i].floor_position;
        if seconds <= curr_floor {
            let s0: u64 = bpm_shifts[i - 1].floor_position;
            let s1: u64 = curr_floor;
            let t0: u64 = bpm_shifts[i - 1].time;
            let t1: u64 = bpm_shifts[i].time;
            proof {
                assert((shifts[i - 1 as int].time as int) < (shifts[i as int].time as int));
                vstd::arithmetic::mul::lemma_mul_inequality(
                    seconds as int - s0 as int,
                    s1 as int - s0 as int,
                    t1 as int - t0 as int,
                );
                vstd::arithmetic::mul::lemma_mul_nonnegative(
                    seconds as int - s0 as int,
                    t1 as int - t0 as int,
                );
                vstd::arithmetic::div_mod::lemma_div_pos_is_pos(
                    (seconds as int - s0 as int) * (t1 as int - t0 as int),
                    s1 as int - s0 as int,
                );
                vstd::arithmetic::div_mod::lemma_div_is_ordered(
                    (seconds as int - s0 as int) * (t1 as int - t0 as int),
                    (s1 as int - s0 as int) * (t1 as int - t0 as int),
                    s1 as int - s0 as int,
                );
                vstd::arithmetic::div_mod::lemma_div_multiples_vanish(
                    t1 as int - t0 as int,
                    s1 as int - s0 as int,
                );
                assert((s1 as int - s0 as int) * (t1 as int - t0 as int) == (t1 as int
                    - t0 as int) * (s1 as int - s0 as int)) by (nonlinear_arith);
            }
            proof {
                vstd::arithmetic::mul::lemma_mul_upper_bound(
                    seconds as int - s0 as int,
                    1_000_000_000_000,
                    t1 as int - t0 as int,
                    1_000_000_000_000,
                );
            }
            let num: u128 = ((seconds - s0) as u128) * ((t1 - t0) as u128);
            let q: u64 = (num / ((s1 - s0) as u128)) as u64;
            let tick: u64 = t0 + q;
            proof {
                lemma_sec_bracket_unique(shifts, seconds as int, i as int);
                assert(1 <= i as int && (i as int) < n as int && (shifts[i as int - 1].floor_position as int)
                    < seconds as int <= (shifts[i as int].floor_position as int));
            }
            return tick;
        }
        i = i + 1;
    }
    let last_time: u64 = bpm_shifts[n - 1].time;
    let last_floor: u64 = bpm_shifts[n - 1].floor_position;
    let extra: u64 = rate_ticks(seconds - last_floor, base_bpm, bpm_shifts[n - 1].value);
    last_time + extra
}

/// Tempo tick to wall-clock seconds: the inverse construction, bracketing
/// on the tick axis.
pub fn tick_to_seconds(tick: u64, bpm_shifts: &Vec<BpmShift>, base_bpm: u64) -> (seconds: u64)
    requires
        shifts_wf(bpm_shifts@, base_bpm as int),
        tick <= MAX_TIME,
    ensures
        seconds as int == t2s_spec(tick as int, bpm_shifts@, base_bpm as int),
        seconds <= SEC_BOUND,
{
    let ghost shifts = bpm_shifts@;
    let ghost bpm = base_bpm as int;
    let n: usize = bpm_shifts.len();
    if n == 0 {
        return rate_seconds(tick, base_bpm, SCALE);
    }
    let first_time: u64 = bpm_shifts[0].time;
    if tick <= first_time {
        return rate_seconds(tick, base_bpm, bpm_shifts[0].value);
    }
    let mut i: usize = 1;
    while i < n
        invariant
            1 <= i <= n,
            n == shifts.len(),
            shifts == bpm_shifts@,
            bpm == base_bpm as int,
            shifts_wf(shifts, bpm),
            tick <= MAX_TIME,
            (shifts[i - 1].time as int) < tick as int,
        decreases n - i,
    {
        let curr_time: u64 = bpm_shifts[i].time;
        if tick <= curr_time {
            let t0: u64 = bpm_shifts[i - 1].time;
            let t1: u64 = curr_time;
            let s0: u64 = bpm_shifts[i - 1].floor_position;
            let s1: u64 = bpm_shifts[i].floor_position;
            proof {
                assert((shifts[i - 1 as int].floor_position as int) < (shifts[i as int].floor_position as int));
                vstd::arithmetic::mul::lemma_mul_inequality(
                    tick as int - t0 as int,
                    t1 as int - t0 as int,
                    s1 as int - s0 as int,
                );
                vstd::arithmetic::mul::lemma_mul_nonnegative(
                    tick as int - t0 as int,
                    s1 as int - s0 as int,
                );
                vstd::arithmetic::div_mod::lemma_div_pos_is_pos(
                    (tick as int - t0 as int) * (s1 as int - s0 as int),
                    t1 as int - t0 as int,
                );
                vstd::arithmetic::div_mod::lemma_div_is_ordered(
                    (tick as int - t0 as int) * (s1 as int - s0 as int),
                    (t1 as int - t0 as int) * (s1 as int - s0 as int),
                    t1 as int - t0 as int,
                );
                vstd::arithmetic::div_mod::lemma_div_multiples_vanish(
                    s1 as int - s0 as int,
                    t1 as int - t0 as int,
                );
                assert((t1 as int - t0 as int) * (s1 as int - s0 as int) == (s1 as int
                    - s0 as int) * (t1 as int - t0 as int)) by (nonlinear_arith);
            }
            proof {
                vstd::arithmetic::mul::lemma_mul_upper_bound(
                    tick as int - t0 as int,
                    1_000_000_000_000,
                    s1 as int - s0 as int,
                    1_000_000_000_000,
                );
            }
            let num: u128 = ((tick - t0) as u128) * ((s1 - s0) as u128);
            let q: u64 = (num / ((t1 - t0) as u128)) as u64;
            let seconds: u64 = s0 + q;
            proof {
                lemma_tick_bracket_unique(shifts, tick as int, i as int);
                assert(1 <= i as int && (i as int) < n as int && (shifts[i as int - 1].time as int)
                    < tick as int <= (shifts[i as int].time as int));
            }
            return seconds;
        }
        i = i + 1;
    }
    let last_time: u64 = bpm_shifts[n - 1].time;
    let last_floor: u64 = bpm_shifts[n - 1].floor_position;
    let extra: u64 = rate_seconds(tick - last_time, base_bpm, bpm_shifts[n - 1].value);
    last_floor + extra
}

/// Keyframe list invariant: strictly increasing ticks, times and values in
/// the accepted range.
pub open spec fn keys_wf(events: Seq<KeyPoint>) -> bool {
    &&& forall|i: int, j: int|
        0 <= i < j < events.len() ==> (events[i].time as int) < (events[j].time as int)
    &&& forall|i: int|
        0 <= i < events.len() ==> ((#[trigger] events[i]).time as int) <= MAX_TIME as int && abs(
            events[i].value as int,
        ) <= MAX_VALUE as int
}

/// Progress of `tick` across the bracket `[t1, t2)`, in units.
pub open spec fn progress_of(tick: int, t1: int, t2: int) -> int {
    ((tick - t1) * (SCALE as int)) / (t2 - t1)
}

/// Blend from `v1` toward `v2` by the eased progress `e`, in units.
pub open spec fn blend(v1: int, v2: int, e: int) -> int {
    v1 + scaled(v2 - v1, e)
}

/// The wall-clock seconds of a keyframe's tick under the tempo mapping.
pub open spec fn key_sec(k: KeyPoint, shifts: Seq<BpmShift>, bpm: int) -> int {
    t2s_spec(k.time as int, shifts, bpm)
}

/// The keyframes' wall-clock times never decrease: the tick order survives
/// the tempo mapping (guaranteed by the joint monotonicity of the shift
/// list, assumed of chart data).
pub open spec fn keys_secs_sorted(keys: Seq<KeyPoint>, shifts: Seq<BpmShift>, bpm: int) -> bool {
    forall|i: int, j: int|
        0 <= i < j < keys.len() ==> #[trigger] key_sec(keys[i], shifts, bpm)
            <= #[trigger] key_sec(keys[j], shifts, bpm)
}

/// A keyframe's cached floor position; an absent cache reads as zero.
pub open spec fn fp_of(k: KeyPoint) -> int {
    match k.fp {
        Some(v) => v as int,
        None => 0,
    }
}

/// Cumulative scroll distance owed to the keyframes before index `i`: each
/// keyframe's speed held constant until the next keyframe's wall-clock
/// time.
pub open spec fn cum_dist(keys: Seq<KeyPoint>, shifts: Seq<BpmShift>, bpm: int, i: int) -> int
    decreases i,
{
    if i <= 0 {
        0
    } else {
        cum_dist(keys, shifts, bpm, i - 1) + scaled(
            keys[i - 1].value as int,
            key_sec(keys[i], shifts, bpm) - key_sec(keys[i - 1], shifts, bpm),
        )
    }
}

/// The value a keyframe track resolves to at `tick`: the contract of
/// [`find_value`], gathered into one function.
pub open spec fn track_value_at(events: Seq<KeyPoint>, tick: int) -> int {
    let n = events.len() as int;
    if n == 0 {
        0
    } else if n == 1 {
        if tick >= events[0].time as int {
            events[0].value as int
        } else {
            0
        }
    } else if tick > events[n - 1].time as int {
        events[n - 1].value as int
    } else if tick < events[0].time as int {
        0
    } else if exists|i: int| 0 <= i < n && ((#[trigger] events[i]).time as int) == tick {
        let i = choose|i: int| 0 <= i < n && ((#[trigger] events[i]).time as int) == tick;
        events[i].value as int
    } else {
        let i = choose|i: int|
            0 <= i < n - 1 && ((#[trigger] events[i]).time as int) < tick && tick < (events[i
                + 1].time as int);
        blend(
            events[i].value as int,
            events[i + 1].value as int,
            ease_value(
                kind_of(events[i].ease_type),
                progress_of(tick, events[i].time as int, events[i + 1].time as int),
            ),
        )
    }
}

/// The cumulative distance depends only on the keyframes' ticks and
/// values, never on their caches.
proof fn lemma_cum_dist_congruent(
    k1: Seq<KeyPoint>,
    k2: Seq<KeyPoint>,
    shifts: Seq<BpmShift>,
    bpm: int,
    i: int,
)
    requires
        k1.len() == k2.len(),
        forall|j: int|
            0 <= j < k1.len() ==> (#[trigger] k1[j]).time == k2[j].time && k1[j].value
                == k2[j].value,
        0 <= i < k1.len(),
    ensures
        cum_dist(k1, shifts, bpm, i) == cum_dist(k2, shifts, bpm, i),
    decreases i,
{
    if i > 0 {
        lemma_cum_dist_congruent(k1, k2, shifts, bpm, i - 1);
    }
}

/// An eased blend stays between its two keyframe values.
pub proof fn lemma_blend_range(v1: int, v2: int, e: int)
    requires
        0 <= e <= SCALE as int,
    ensures
        v1 <= v2 ==> v1 <= blend(v1, v2, e) <= v2,
        v2 <= v1 ==> v2 <= blend(v1, v2, e) <= v1,
{
    let s = SCALE as int;
    let d = if v2 >= v1 {
        v2 - v1
    } else {
        v1 - v2
    };
    vstd::arithmetic::mul::lemma_mul_nonnegative(d, e);
    vstd::arithmetic::mul::lemma_mul_inequality(e, s, d);
    assert(e * d == d * e && s * d == d * s) by (nonlinear_arith);
    vstd::arithmetic::div_mod::lemma_div_pos_is_pos(d * e, s);
    vstd::arithmetic::div_mod::lemma_div_is_ordered(d * e, d * s, s);
    vstd::arithmetic::div_mod::lemma_div_by_multiple(d, s);
}

/// At zero progress a blend holds the left keyframe's value; at full
/// progress it reaches the right one exactly: the interpolant is
/// continuous at each keyframe boundary.
pub proof fn lemma_blend_endpoints(v1: int, v2: int)
    ensures
        blend(v1, v2, 0) == v1,
        blend(v1, v2, SCALE as int) == v2,
{
    let s = SCALE as int;
    let d = if v2 >= v1 {
        v2 - v1
    } else {
        v1 - v2
    };
    assert(d * 0 == 0 && (v2 - v1) * 0 == 0 && (v1 - v2) * 0 == 0) by (nonlinear_arith);
    vstd::arithmetic::div_mod::lemma_div_of0(s);
    vstd::arithmetic::div_mod::lemma_div_by_multiple(d, s);
    assert(d * s == s * d) by (nonlinear_arith);
    vstd::arithmetic::div_mod::lemma_div_multiples_vanish(d, s);
}

/// Resolved value of a keyframe track at `tick`: zero on an empty track and
/// before the first keyframe, the last keyframe's value from its tick on,
/// a keyframe's own value at an exact hit, and otherwise the eased blend
/// across the bracketing pair — the left keyframe's curve governs the whole
/// segment.
pub fn find_value(tick: u64, events: &Vec<KeyPoint>) -> (r: i64)
    requires
        keys_wf(events@),
    ensures
        r as int == track_value_at(events@, tick as int),
        abs(r as int) <= MAX_VALUE as int,
        (forall|i: int|
            0 <= i < events@.len() ==> abs((#[trigger] events@[i]).value as int) <= 100 * (
            SCALE as int)) ==> abs(r as int) <= 100 * (SCALE as int),
        events@.len() == 0 ==> r == 0,
        events@.len() == 1 ==> r as int == (if tick as int >= events@[0].time as int {
            events@[0].value as int
        } else {
            0
        }),
        events@.len() > 1 && (tick as int) > (events@[events@.len() - 1].time as int)
            ==> r as int == events@[events@.len() - 1].value as int,
        events@.len() > 1 && (tick as int) < (events@[0].time as int) ==> r == 0,
        events@.len() > 1 ==> forall|i: int|
            0 <= i < events@.len() && ((#[trigger] events@[i]).time as int) == tick as int
                ==> r as int == events@[i].value as int,
        events@.len() > 1 ==> forall|i: int|
            0 <= i < events@.len() - 1 && ((#[trigger] events@[i]).time as int) < tick as int
                && (tick as int) < (events@[i + 1].time as int) ==> r as int == blend(
                events@[i].value as int,
                events@[i + 1].value as int,
                ease_value(
                    kind_of(events@[i].ease_type),
                    progress_of(tick as int, events@[i].time as int, events@[i + 1].time as int),
                ),
            ),
{
    let ghost evs = events@;
    let n: usize = events.len();
    if n == 0 {
        return 0;
    }
    if n == 1 {
        if tick >= events[0].time {
            return events[0].value;
        } else {
            return 0;
        }
    }
    if tick > events[n - 1].time {
        return events[n - 1].value;
    }
    if tick < events[0].time {
        return 0;
    }
    let mut i: usize = 0;
    while i + 1 < n
        invariant
            0 <= i < n,
            n == evs.len(),
            evs == events@,
            n > 1,
            keys_wf(evs),
            (evs[i as int].time as int) <= tick as int,
            tick as int <= evs[n - 1].time as int,
            forall|j: int| 0 <= j < i ==> ((#[trigger] evs[j]).time as int) < tick as int,
        decreases n - i,
    {
        if events[i].time == tick {
            proof {
                assert forall|j: int|
                    0 <= j < n as int && ((#[trigger] evs[j]).time as int) == tick as int implies j
                    == i as int by {
                    if j < i as int {
                        assert((evs[j].time as int) < tick as int);
                    }
                    if j > i as int {
                        assert((evs[i as int].time as int) < (evs[j].time as int));
                    }
                }
            }
            return events[i].value;
        }
        if tick < events[i + 1].time {
            let t1: u64 = events[i].time;
            let t2: u64 = events[i + 1].time;
            proof {
                assert((evs[i as int].time as int) < (evs[i as int + 1].time as int));
                vstd::arithmetic::mul::lemma_mul_upper_bound(
                    tick as int - t1 as int,
                    1_000_000_000_000,
                    SCALE as int,
                    1_000_000,
                );
                vstd::arithmetic::mul::lemma_mul_nonnegative(tick as int - t1 as int, SCALE as int);
                vstd::arithmetic::mul::lemma_mul_inequality(
                    tick as int - t1 as int,
                    t2 as int - t1 as int,
                    SCALE as int,
                );
                vstd::arithmetic::div_mod::lemma_div_pos_is_pos(
                    (tick as int - t1 as int) * (SCALE as int),
                    t2 as int - t1 as int,
                );
                vstd::arithmetic::div_mod::lemma_div_is_ordered(
                    (tick as int - t1 as int) * (SCALE as int),
                    (t2 as int - t1 as int) * (SCALE as int),
                    t2 as int - t1 as int,
                );
                vstd::arithmetic::div_mod::lemma_div_by_multiple(SCALE as int, t2 as int - t1 as int);
                assert((t2 as int - t1 as int) * (SCALE as int) == (SCALE as int) * (t2 as int
                    - t1 as int)) by (nonlinear_arith);
            }
            let num: u128 = ((tick - t1) as u128) * (SCALE as u128);
            let tq: u64 = (num / ((t2 - t1) as u128)) as u64;
            let e: u64 = apply_ease(events[i].ease_type, tq);
            let r: i64 = lerp(events[i].value, events[i + 1].value, e);
            proof {
                lemma_blend_range(evs[i as int].value as int, evs[i as int + 1].value as int, e as int);
                assert forall|j: int| 0 <= j < n as int implies ((#[trigger] evs[j]).time as int)
                    != tick as int by {
                    if j > i as int {
                        assert((evs[i as int + 1].time as int) <= (evs[j].time as int));
                    }
                }
                assert forall|j: int|
                    0 <= j < n as int - 1 && ((#[trigger] evs[j]).time as int) < tick as int && (
                    tick as int) < (evs[j + 1].time as int) implies j == i as int by {
                    if j < i as int {
                        assert((evs[j + 1].time as int) <= (evs[i as int].time as int));
                    }
                    if j > i as int {
                        assert((evs[i as int + 1].time as int) <= (evs[j].time as int));
                    }
                }
                assert(0 <= i as int && (i as int) < n as int - 1 && ((evs[i as int].time as int) < tick as int)
                    && (tick as int) < (evs[i as int + 1].time as int));
            }
            return r;
        }
        i = i + 1;
    }
    proof {
        assert(tick as int == evs[n - 1].time as int);
        assert forall|j: int|
            0 <= j < n as int && ((#[trigger] evs[j]).time as int) == tick as int implies j == n
            as int - 1 by {
            if j < n as int - 1 {
                assert((evs[j].time as int) < (evs[n - 1].time as int));
            }
        }
    }
    events[n - 1].value
}

/// The floor position that the speed track yields at wall-clock time
/// `timer`: the last keyframe whose mapped time is at or before `timer`
/// extrapolates forward at its own constant speed from its cached
/// distance; when every keyframe still lies in the future, the last
/// keyframe extrapolates backward instead.
pub open spec fn speed_fp_at(
    keys: Seq<KeyPoint>,
    shifts: Seq<BpmShift>,
    bpm: int,
    timer: int,
) -> int {
    let n = keys.len() as int;
    if n == 0 {
        0
    } else {
        let i = if key_sec(keys[0], shifts, bpm) > timer {
            n - 1
        } else {
            choose|i: int|
                0 <= i < n && #[trigger] key_sec(keys[i], shifts, bpm) <= timer && (i == n - 1
                    || key_sec(keys[i + 1], shifts, bpm) > timer)
        };
        fp_of(keys[i]) + crate::fixed::scaled_signed(
            keys[i].value as int,
            timer - key_sec(keys[i], shifts, bpm),
        )
    }
}

/// Every cached floor position is in the accepted range.
pub open spec fn keys_fps_bounded(keys: Seq<KeyPoint>) -> bool {
    forall|i: int|
        0 <= i < keys.len() ==> abs(fp_of(#[trigger] keys[i])) <= crate::fixed::FP_BOUND as int
}

/// Recompute the cumulative-distance cache of a speed track: the first
/// keyframe's distance is zero and each later keyframe adds the previous
/// keyframe's speed times the wall-clock span up to it.  Nothing but the
/// caches changes.
pub fn recalculate_fps(
    speed_key_points: &mut Vec<KeyPoint>,
    bpm_shifts: &Vec<BpmShift>,
    base_bpm: u64,
)
    requires
        keys_wf(old(speed_key_points)@),
        shifts_wf(bpm_shifts@, base_bpm as int),
        keys_secs_sorted(old(speed_key_points)@, bpm_shifts@, base_bpm as int),
    ensures
        final(speed_key_points)@.len() == old(speed_key_points)@.len(),
        forall|i: int|
            0 <= i < old(speed_key_points)@.len() ==> {
                let ko = old(speed_key_points)@[i];
                let kn = #[trigger] final(speed_key_points)@[i];
                kn.time == ko.time && kn.value == ko.value && kn.ease_type == ko.ease_type
                    && kn.floor_position == ko.floor_position && kn.fp is Some && fp_of(kn)
                    == cum_dist(old(speed_key_points)@, bpm_shifts@, base_bpm as int, i) && fp_of(
                    kn,
                ) == cum_dist(final(speed_key_points)@, bpm_shifts@, base_bpm as int, i)
            },
        keys_fps_bounded(final(speed_key_points)@),
{
    let ghost keys0 = old(speed_key_points)@;
    let ghost shifts = bpm_shifts@;
    let ghost bpm = base_bpm as int;
    let n: usize = speed_key_points.len();
    if n == 0 {
        return ;
    }
    let first_time: u64 = speed_key_points[0].time;
    let mut k0: KeyPoint = speed_key_points[0];
    k0.fp = Some(0);
    speed_key_points[0] = k0;
    let mut prev_sec: u64 = tick_to_seconds(first_time, bpm_shifts, base_bpm);
    let mut prev_fp: i64 = 0;
    let ghost sec0 = key_sec(keys0[0], shifts, bpm);
    let mut i: usize = 1;
    while i < n
        invariant
            1 <= i <= n,
            n == keys0.len(),
            speed_key_points@.len() == n,
            keys_wf(keys0),
            shifts_wf(shifts, bpm),
            keys_secs_sorted(keys0, shifts, bpm),
            shifts == bpm_shifts@,
            bpm == base_bpm as int,
            sec0 == key_sec(keys0[0], shifts, bpm),
            forall|j: int| i <= j < n ==> #[trigger] speed_key_points@[j] == keys0[j],
            forall|j: int|
                0 <= j < i ==> {
                    let ko = keys0[j];
                    let kn = #[trigger] speed_key_points@[j];
                    kn.time == ko.time && kn.value == ko.value && kn.ease_type == ko.ease_type
                        && kn.floor_position == ko.floor_position && kn.fp is Some && fp_of(kn)
                        == cum_dist(keys0, shifts, bpm, j) && abs(fp_of(kn))
                        <= crate::fixed::FP_BOUND as int
                },
            prev_sec as int == key_sec(keys0[i - 1], shifts, bpm),
            prev_sec <= SEC_BOUND,
            sec0 >= 0,
            prev_fp as int == cum_dist(keys0, shifts, bpm, i - 1),
            abs(prev_fp as int) <= ((MAX_VALUE as int) * (prev_sec as int - sec0)) / (
            SCALE as int),
        decreases n - i,
    {
        let curr_time: u64 = speed_key_points[i].time;
        let curr_sec: u64 = tick_to_seconds(curr_time, bpm_shifts, base_bpm);
        proof {
            assert(key_sec(keys0[i - 1], shifts, bpm) <= key_sec(keys0[i as int], shifts, bpm));
        }
        let diff: u64 = curr_sec - prev_sec;
        let prev_value: i64 = speed_key_points[i - 1].value;
        proof {
            assert(prev_value as int == keys0[i - 1].value as int);
            vstd::arithmetic::mul::lemma_mul_upper_bound(
                abs(prev_value as int),
                MAX_VALUE as int,
                diff as int,
                SEC_BOUND as int,
            );
        }
        let step_d: i64 = crate::fixed::mul_scaled(prev_value, diff);
        proof {
            vstd::arithmetic::mul::lemma_mul_inequality(
                abs(prev_value as int),
                MAX_VALUE as int,
                diff as int,
            );
            vstd::arithmetic::div_mod::lemma_div_is_ordered(
                abs(prev_value as int) * (diff as int),
                (MAX_VALUE as int) * (diff as int),
                SCALE as int,
            );
            crate::fixed::lemma_div_superadd(
                (MAX_VALUE as int) * (prev_sec as int - sec0),
                (MAX_VALUE as int) * (diff as int),
                SCALE as int,
            );
            vstd::arithmetic::mul::lemma_mul_is_distributive_add(
                MAX_VALUE as int,
                prev_sec as int - sec0,
                diff as int,
            );
            vstd::arithmetic::mul::lemma_mul_inequality(
                curr_sec as int - sec0,
                SEC_BOUND as int,
                MAX_VALUE as int,
            );
            vstd::arithmetic::div_mod::lemma_div_is_ordered(
                (MAX_VALUE as int) * (curr_sec as int - sec0),
                (MAX_VALUE as int) * (SEC_BOUND as int),
                SCALE as int,
            );
            assert((curr_sec as int - sec0) * (MAX_VALUE as int) == (MAX_VALUE as int) * (
            curr_sec as int - sec0) && (SEC_BOUND as int) * (MAX_VALUE as int) == (MAX_VALUE as int)
                * (SEC_BOUND as int)) by (nonlinear_arith);
            assert(((MAX_VALUE as int) * (SEC_BOUND as int)) / (SCALE as int)
                == crate::fixed::FP_BOUND as int) by (nonlinear_arith)
                requires
                    MAX_VALUE as int == 10_000_000_000,
                    SEC_BOUND as int == 101_000_000_000_000,
                    SCALE as int == 1_000_000,
                    crate::fixed::FP_BOUND as int == 1_010_000_000_000_000_000,
            ;
            vstd::arithmetic::div_mod::lemma_div_pos_is_pos(
                (MAX_VALUE as int) * (prev_sec as int - sec0),
                SCALE as int,
            );
            vstd::arithmetic::mul::lemma_mul_nonnegative(
                MAX_VALUE as int,
                prev_sec as int - sec0,
            );
        }
        let fpv: i64 = prev_fp + step_d;
        let mut k: KeyPoint = speed_key_points[i];
        k.fp = Some(fpv);
        speed_key_points[i] = k;
        prev_sec = curr_sec;
        prev_fp = fpv;
        i = i + 1;
    }
    proof {
        assert forall|j: int| 0 <= j < n as int implies cum_dist(speed_key_points@, shifts, bpm, j)
            == cum_dist(keys0, shifts, bpm, j) by {
            lemma_cum_dist_congruent(speed_key_points@, keys0, shifts, bpm, j);
        }
    }
}

/// Floor position of a speed track at wall-clock time `timer`: locate the
/// last keyframe whose mapped wall-clock time is at or before `timer` and
/// extrapolate forward from its cached distance at its own constant speed
/// — no easing; speed is a step function and distance its running
/// integral.
#[verifier::rlimit(100)]
pub fn speed_to_fp(
    timer: u64,
    speed_key_points: &Vec<KeyPoint>,
    bpm_shifts: &Vec<BpmShift>,
    base_bpm: u64,
) -> (r: i64)
    requires
        keys_wf(speed_key_points@),
        shifts_wf(bpm_shifts@, base_bpm as int),
        keys_secs_sorted(speed_key_points@, bpm_shifts@, base_bpm as int),
        keys_fps_bounded(speed_key_points@),
        timer <= SEC_BOUND,
    ensures
        r as int == speed_fp_at(speed_key_points@, bpm_shifts@, base_bpm as int, timer as int),
        abs(r as int) <= 3_000_000_000_000_000_000,
{
    let ghost keys = speed_key_points@;
    let ghost shifts = bpm_shifts@;
    let ghost bpm = base_bpm as int;
    let n: usize = speed_key_points.len();
    if n == 0 {
        return 0;
    }
    let mut idx: usize = n - 1;
    let mut any = false;
    let mut j: usize = 0;
    while j < n
        invariant
            0 <= j <= n,
            n == keys.len(),
            n >= 1,
            idx < n,
            keys == speed_key_points@,
            shifts == bpm_shifts@,
            bpm == base_bpm as int,
            keys_wf(keys),
            shifts_wf(shifts, bpm),
            timer <= SEC_BOUND,
            any ==> idx < j && key_sec(keys[idx as int], shifts, bpm) <= timer as int,
            any ==> forall|k: int|
                idx < k < j ==> #[trigger] key_sec(keys[k], shifts, bpm) > timer as int,
            !any ==> idx == n - 1 && forall|k: int|
                0 <= k < j ==> #[trigger] key_sec(keys[k], shifts, bpm) > timer as int,
        decreases n - j,
    {
        let sj: u64 = tick_to_seconds(speed_key_points[j].time, bpm_shifts, base_bpm);
        if sj <= timer {
            idx = j;
            any = true;
        }
        j = j + 1;
    }
    let cur: KeyPoint = speed_key_points[idx];
    let cur_sec: u64 = tick_to_seconds(cur.time, bpm_shifts, base_bpm);
    let diff: i64 = if timer >= cur_sec {
        (timer - cur_sec) as i64
    } else {
        -((cur_sec - timer) as i64)
    };
    let fpv: i64 = match cur.fp {
        Some(v) => v,
        None => 0,
    };
    proof {
        vstd::arithmetic::mul::lemma_mul_upper_bound(
            abs(cur.value as int),
            MAX_VALUE as int,
            abs(diff as int),
            SEC_BOUND as int,
        );
        vstd::arithmetic::mul::lemma_mul_inequality(
            abs(cur.value as int),
            MAX_VALUE as int,
            abs(diff as int),
        );
        vstd::arithmetic::div_mod::lemma_div_is_ordered(
            abs(cur.value as int) * abs(diff as int),
            (MAX_VALUE as int) * abs(diff as int),
            SCALE as int,
        );
        vstd::arithmetic::mul::lemma_mul_inequality(
            abs(diff as int),
            SEC_BOUND as int,
            MAX_VALUE as int,
        );
        vstd::arithmetic::div_mod::lemma_div_is_ordered(
            (MAX_VALUE as int) * abs(diff as int),
            (MAX_VALUE as int) * (SEC_BOUND as int),
            SCALE as int,
        );
        assert((abs(diff as int)) * (MAX_VALUE as int) == (MAX_VALUE as int) * abs(diff as int)
            && (SEC_BOUND as int) * (MAX_VALUE as int) == (MAX_VALUE as int) * (SEC_BOUND as int))
            by (nonlinear_arith);
        assert(((MAX_VALUE as int) * (SEC_BOUND as int)) / (SCALE as int)
            == 1_010_000_000_000_000_000) by (nonlinear_arith)
            requires
                MAX_VALUE as int == 10_000_000_000,
                SEC_BOUND as int == 101_000_000_000_000,
                SCALE as int == 1_000_000,
        ;
    }
    let step_d: i64 = crate::fixed::mul_scaled_signed(cur.value, diff);
    let r: i64 = fpv + step_d;
    proof {
        if any {
            assert forall|k: int|
                0 <= k < n && #[trigger] key_sec(keys[k], shifts, bpm) <= timer as int && (k == n
                    - 1 || key_sec(keys[k + 1], shifts, bpm) > timer as int) implies k
                == idx as int by {
                if k < idx as int {
                    assert(key_sec(keys[k + 1], shifts, bpm) <= key_sec(
                        keys[idx as int],
                        shifts,
                        bpm,
                    ));
                }
            }
            assert(key_sec(keys[0], shifts, bpm) <= key_sec(keys[idx as int], shifts, bpm));
        } else {
            assert(key_sec(keys[0], shifts, bpm) > timer as int);
        }
    }
    r
}

/// Somewhere at or after index `k` sits the last keyframe whose mapped
/// wall-clock time is at or before `t`.
proof fn lemma_fp_target_exists(
    keys: Seq<KeyPoint>,
    shifts: Seq<BpmShift>,
    bpm: int,
    t: int,
    k: int,
)
    requires
        0 <= k < keys.len(),
        key_sec(keys[k], shifts, bpm) <= t,
    ensures
        exists|i: int|
            k <= i < keys.len() && #[trigger] key_sec(keys[i], shifts, bpm) <= t && (i
                == keys.len() - 1 || key_sec(keys[i + 1], shifts, bpm) > t),
    decreases keys.len() - k,
{
    if k == keys.len() - 1 || key_sec(keys[k + 1], shifts, bpm) > t {
        assert(k <= k < keys.len() && key_sec(keys[k], shifts, bpm) <= t && (k == keys.len() - 1
            || key_sec(keys[k + 1], shifts, bpm) > t));
    } else {
        lemma_fp_target_exists(keys, shifts, bpm, t, k + 1);
        let w = choose|i: int|
            k + 1 <= i < keys.len() && #[trigger] key_sec(keys[i], shifts, bpm) <= t && (i
                == keys.len() - 1 || key_sec(keys[i + 1], shifts, bpm) > t);
        assert(k <= w < keys.len() && key_sec(keys[w], shifts, bpm) <= t && (w == keys.len() - 1
            || key_sec(keys[w + 1], shifts, bpm) > t));
    }
}

/// With the keyframes' wall-clock times sorted, at most one index is the
/// last at or before `t`.
proof fn lemma_fp_target_unique(
    keys: Seq<KeyPoint>,
    shifts: Seq<BpmShift>,
    bpm: int,
    t: int,
    i: int,
)
    requires
        keys_secs_sorted(keys, shifts, bpm),
        0 <= i < keys.len(),
        key_sec(keys[i], shifts, bpm) <= t,
        i == keys.len() - 1 || key_sec(keys[i + 1], shifts, bpm) > t,
    ensures
        forall|j: int|
            0 <= j < keys.len() && #[trigger] key_sec(keys[j], shifts, bpm) <= t && (j
                == keys.len() - 1 || key_sec(keys[j + 1], shifts, bpm) > t) ==> j == i,
{
    assert forall|j: int|
        0 <= j < keys.len() && #[trigger] key_sec(keys[j], shifts, bpm) <= t && (j == keys.len()
            - 1 || key_sec(keys[j + 1], shifts, bpm) > t) implies j == i by {
        if j < i {
            assert(key_sec(keys[j + 1], shifts, bpm) <= key_sec(keys[i], shifts, bpm));
        }
        if j > i {
            assert(key_sec(keys[i + 1], shifts, bpm) <= key_sec(keys[j], shifts, bpm));
        }
    }
}

/// With non-negative speeds the cached distances never decrease along the
/// track.
proof fn lemma_cum_dist_monotone(
    keys: Seq<KeyPoint>,
    shifts: Seq<BpmShift>,
    bpm: int,
    a: int,
    b: int,
)
    requires
        keys_secs_sorted(keys, shifts, bpm),
        forall|i: int| 0 <= i < keys.len() ==> (#[trigger] keys[i]).value >= 0,
        0 <= a <= b < keys.len(),
    ensures
        cum_dist(keys, shifts, bpm, a) <= cum_dist(keys, shifts, bpm, b),
    decreases b - a,
{
    if a < b {
        lemma_cum_dist_monotone(keys, shifts, bpm, a, b - 1);
        let d = key_sec(keys[b], shifts, bpm) - key_sec(keys[b - 1], shifts, bpm);
        vstd::arithmetic::mul::lemma_mul_nonnegative(keys[b - 1].value as int, d);
        vstd::arithmetic::div_mod::lemma_div_pos_is_pos((keys[b - 1].value as int) * d, SCALE as int);
    }
}

/// The floor position at `t` is determined by the last keyframe whose
/// mapped time is at or before `t`.
proof fn lemma_speed_fp_at_target(
    keys: Seq<KeyPoint>,
    shifts: Seq<BpmShift>,
    bpm: int,
    t: int,
    i: int,
)
    requires
        keys_secs_sorted(keys, shifts, bpm),
        0 <= i < keys.len(),
        key_sec(keys[i], shifts, bpm) <= t,
        i == keys.len() - 1 || key_sec(keys[i + 1], shifts, bpm) > t,
    ensures
        speed_fp_at(keys, shifts, bpm, t) == fp_of(keys[i]) + crate::fixed::scaled_signed(
            keys[i].value as int,
            t - key_sec(keys[i], shifts, bpm),
        ),
{
    let n = keys.len() as int;
    assert(key_sec(keys[0], shifts, bpm) <= t) by {
        if i > 0 {
            assert(key_sec(keys[0], shifts, bpm) <= key_sec(keys[i], shifts, bpm));
        }
    }
    lemma_fp_target_unique(keys, shifts, bpm, t, i);
    assert(0 <= i < n && key_sec(keys[i], shifts, bpm) <= t && (i == n - 1 || key_sec(
        keys[i + 1],
        shifts,
        bpm,
    ) > t));
}

/// The floor position never decreases in wall-clock time while every speed
/// keyframe's value is non-negative and the distance cache is the one
/// [`recalculate_fps`] computes.  The two query times must not precede the
/// first keyframe's wall-clock time: before it, the track extrapolates
/// backward from the last keyframe instead of the first.
#[verifier::rlimit(100)]
pub proof fn lemma_distance_monotone(
    keys: Seq<KeyPoint>,
    shifts: Seq<BpmShift>,
    bpm: int,
    t1: int,
    t2: int,
)
    requires
        keys.len() > 0,
        keys_secs_sorted(keys, shifts, bpm),
        forall|i: int| 0 <= i < keys.len() ==> (#[trigger] keys[i]).value >= 0,
        forall|i: int|
            0 <= i < keys.len() ==> (#[trigger] keys[i]).fp is Some && fp_of(keys[i]) == cum_dist(
                keys,
                shifts,
                bpm,
                i,
            ),
        key_sec(keys[0], shifts, bpm) <= t1 <= t2,
    ensures
        speed_fp_at(keys, shifts, bpm, t1) <= speed_fp_at(keys, shifts, bpm, t2),
{
    let n = keys.len() as int;
    lemma_fp_target_exists(keys, shifts, bpm, t1, 0);
    lemma_fp_target_exists(keys, shifts, bpm, t2, 0);
    let i1 = choose|i: int|
        0 <= i < n && #[trigger] key_sec(keys[i], shifts, bpm) <= t1 && (i == n - 1 || key_sec(
            keys[i + 1],
            shifts,
            bpm,
        ) > t1);
    let i2 = choose|i: int|
        0 <= i < n && #[trigger] key_sec(keys[i], shifts, bpm) <= t2 && (i == n - 1 || key_sec(
            keys[i + 1],
            shifts,
            bpm,
        ) > t2);
    lemma_speed_fp_at_target(keys, shifts, bpm, t1, i1);
    lemma_speed_fp_at_target(keys, shifts, bpm, t2, i2);
    assert(i1 <= i2) by {
        if i1 > i2 {
            assert(key_sec(keys[i2 + 1], shifts, bpm) <= key_sec(keys[i1], shifts, bpm));
        }
    }
    let s1 = key_sec(keys[i1], shifts, bpm);
    let s2 = key_sec(keys[i2], shifts, bpm);
    vstd::arithmetic::mul::lemma_mul_nonnegative(keys[i2].value as int, t2 - s2);
    vstd::arithmetic::div_mod::lemma_div_pos_is_pos((keys[i2].value as int) * (t2 - s2), SCALE as int);
    if i1 == i2 {
        crate::fixed::lemma_scaled_monotone(keys[i1].value as int, t1 - s1, t2 - s1);
    } else {
        let snext = key_sec(keys[i1 + 1], shifts, bpm);
        crate::fixed::lemma_scaled_monotone(keys[i1].value as int, t1 - s1, snext - s1);
        assert(fp_of(keys[i1]) + scaled(keys[i1].value as int, snext - s1) == cum_dist(
            keys,
            shifts,
            bpm,
            i1 + 1,
        ));
        lemma_cum_dist_monotone(keys, shifts, bpm, i1 + 1, i2);
    }
}

/// Round trip of the temporal mapping inside a tempo bracket: converting a
/// wall-clock time to a tick and back never moves forward, and falls short
/// by at most one tick's worth of seconds plus one unit — the fixed-point
/// analogue of inverse-up-to-rounding.  The derived tick must stay inside
/// the bracket: a time so close to the bracket's start that the tick
/// rounds down onto the boundary re-enters the previous bracket instead.
#[verifier::rlimit(100)]
pub proof fn lemma_round_trip(shifts: Seq<BpmShift>, bpm: int, s: int, i: int)
    requires
        shifts_wf(shifts, bpm),
        1 <= i < shifts.len(),
        (shifts[i - 1].floor_position as int) < s,
        s <= (shifts[i].floor_position as int),
        s2t_spec(s, shifts, bpm) > shifts[i - 1].time as int,
    ensures
        t2s_spec(s2t_spec(s, shifts, bpm), shifts, bpm) <= s,
        s - t2s_spec(s2t_spec(s, shifts, bpm), shifts, bpm) <= (shifts[i].floor_position as int
            - shifts[i - 1].floor_position as int) / (shifts[i].time as int - shifts[i
            - 1].time as int) + 1,
{
    let n = shifts.len() as int;
    let s0 = shifts[i - 1].floor_position as int;
    let s1 = shifts[i].floor_position as int;
    let t0 = shifts[i - 1].time as int;
    let t1 = shifts[i].time as int;
    let a = s - s0;
    let ss = s1 - s0;
    let tt = t1 - t0;
    assert(t0 < t1 && s0 < s1);
    // the forward conversion lands in this bracket
    lemma_sec_bracket_unique(shifts, s, i);
    assert(1 <= i < n && (shifts[i - 1].floor_position as int) < s && s <= (shifts[
        i].floor_position as int));
    assert(s > shifts[0].floor_position as int) by {
        if i - 1 > 0 {
            assert((shifts[0].floor_position as int) < (shifts[i - 1].floor_position as int));
        }
    }
    assert(s <= shifts[n - 1].floor_position as int) by {
        if i < n - 1 {
            assert((shifts[i].floor_position as int) < (shifts[n - 1].floor_position as int));
        }
    }
    let q = (a * tt) / ss;
    assert(s2t_spec(s, shifts, bpm) == t0 + q);
    let t = t0 + q;
    // the tick stays inside the bracket on the tick axis
    vstd::arithmetic::mul::lemma_mul_nonnegative(a, tt);
    vstd::arithmetic::mul::lemma_mul_inequality(a, ss, tt);
    assert(ss * tt == tt * ss) by (nonlinear_arith);
    vstd::arithmetic::div_mod::lemma_div_is_ordered(a * tt, tt * ss, ss);
    vstd::arithmetic::div_mod::lemma_div_by_multiple(tt, ss);
    assert(q <= tt);
    assert(t0 < t <= t1);
    // the backward conversion re-enters the same bracket
    assert(t > shifts[0].time as int) by {
        if i - 1 > 0 {
            assert((shifts[0].time as int) < (shifts[i - 1].time as int));
        }
    }
    assert(t <= shifts[n - 1].time as int) by {
        if i < n - 1 {
            assert((shifts[i].time as int) < (shifts[n - 1].time as int));
        }
    }
    lemma_tick_bracket_unique(shifts, t, i);
    assert(1 <= i < n && (shifts[i - 1].time as int) < t && t <= (shifts[i].time as int));
    let back = (q * ss) / tt;
    assert(t2s_spec(t, shifts, bpm) == s0 + back);
    // upper: the round trip never moves forward
    vstd::arithmetic::div_mod::lemma_fundamental_div_mod(a * tt, ss);
    vstd::arithmetic::div_mod::lemma_mod_division_less_than_divisor(a * tt, ss);
    let r = (a * tt) % ss;
    assert(a * tt == ss * q + r && 0 <= r < ss);
    assert(q * ss == a * tt - r) by (nonlinear_arith)
        requires
            a * tt == ss * q + r,
    ;
    vstd::arithmetic::div_mod::lemma_div_is_ordered(q * ss, a * tt, tt);
    vstd::arithmetic::div_mod::lemma_div_by_multiple(a, tt);
    assert((a * tt) / tt == a) by {
        assert(a * tt == tt * a) by (nonlinear_arith);
        vstd::arithmetic::div_mod::lemma_div_multiples_vanish(a, tt);
    }
    assert(back <= a);
    // lower: it falls short by at most one tick's worth of seconds
    let d = ss / tt;
    let low = a - d - 1;
    assert(tt * low <= q * ss) by {
        vstd::arithmetic::div_mod::lemma_fundamental_div_mod(ss, tt);
        vstd::arithmetic::div_mod::lemma_mod_division_less_than_divisor(ss, tt);
        assert(tt * low == tt * a - tt * d - tt) by (nonlinear_arith)
            requires
                low == a - d - 1,
        ;
        assert(tt * a == a * tt) by (nonlinear_arith);
    }
    vstd::arithmetic::div_mod::lemma_div_is_ordered(tt * low, q * ss, tt);
    vstd::arithmetic::div_mod::lemma_div_multiples_vanish(low, tt);
    assert(back >= low);
}

} // verus!
