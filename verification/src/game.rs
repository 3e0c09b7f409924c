//! Playback state and per-frame resolution: the current tick, camera scale
//! and position, canvas states, segment color resolution and blending, and
//! computed line-point placement.

use vstd::prelude::*;

use crate::chart::{
    CanvasMove, CameraMove, ChallengeTime, Chart, Color, JudgeRingColor, KeyPoint, LineColor,
    LinePoint, Theme,
};
use crate::chart::{lerp_spec, mix_spec};
use crate::fixed::{abs, mul_scaled_signed, scaled_signed, MAX_TIME, MAX_VALUE, SCALE};
use crate::timing::{
    find_value, keys_fps_bounded, keys_secs_sorted, keys_wf, progress_of, s2t_spec,
    seconds_to_tick, shifts_wf, speed_fp_at, speed_to_fp, t2s_spec, tick_to_seconds,
    track_value_at,
};
use crate::timing::{recalculate_fps, cum_dist};

verus! {

/// Color-transition list invariant: boundaries strictly ascend and stay in
/// the accepted tick range.
pub open spec fn line_segs_wf(segs: Seq<LineColor>) -> bool {
    &&& forall|i: int, j: int|
        0 <= i < j < segs.len() ==> (segs[i].time as int) < (segs[j].time as int)
    &&& forall|i: int| 0 <= i < segs.len() ==> ((#[trigger] segs[i]).time as int) <= MAX_TIME as int
}

/// The same invariant for the judge-ring transition list.
pub open spec fn ring_segs_wf(segs: Seq<JudgeRingColor>) -> bool {
    &&& forall|i: int, j: int|
        0 <= i < j < segs.len() ==> (segs[i].time as int) < (segs[j].time as int)
    &&& forall|i: int| 0 <= i < segs.len() ==> ((#[trigger] segs[i]).time as int) <= MAX_TIME as int
}

/// The color a line's transition list resolves to at `tick`: none without
/// segments, a sole segment's start color, the last segment's end color
/// from its boundary on, the first segment's start color before the list
/// begins, and otherwise the linear blend across the bracketing window.
pub open spec fn seg_color_at(segs: Seq<LineColor>, tick: int) -> Option<Color> {
    let n = segs.len() as int;
    if n == 0 {
        None
    } else if n == 1 {
        Some(segs[0].start_color)
    } else if tick >= segs[n - 1].time as int {
        Some(segs[n - 1].end_color)
    } else if tick < segs[0].time as int {
        Some(segs[0].start_color)
    } else {
        let i = choose|i: int|
            0 <= i < n - 1 && ((#[trigger] segs[i]).time as int) <= tick && tick < (segs[i
                + 1].time as int);
        Some(
            lerp_spec(
                segs[i].start_color,
                segs[i].end_color,
                progress_of(tick, segs[i].time as int, segs[i + 1].time as int),
            ),
        )
    }
}

/// The same resolution for the judge-ring transition list.
pub open spec fn ring_color_at(segs: Seq<JudgeRingColor>, tick: int) -> Option<Color> {
    let n = segs.len() as int;
    if n == 0 {
        None
    } else if n == 1 {
        Some(segs[0].start_color)
    } else if tick >= segs[n - 1].time as int {
        Some(segs[n - 1].end_color)
    } else if tick < segs[0].time as int {
        Some(segs[0].start_color)
    } else {
        let i = choose|i: int|
            0 <= i < n - 1 && ((#[trigger] segs[i]).time as int) <= tick && tick < (segs[i
                + 1].time as int);
        Some(
            lerp_spec(
                segs[i].start_color,
                segs[i].end_color,
                progress_of(tick, segs[i].time as int, segs[i + 1].time as int),
            ),
        )
    }
}

/// A point's color with the line's transition color mixed on: the point
/// color alone when the list is empty.
pub open spec fn mixed_color_at(point_color: Color, segs: Seq<LineColor>, tick: int) -> Color {
    match seg_color_at(segs, tick) {
        Some(c) => mix_spec(point_color, c),
        None => point_color,
    }
}

/// Line-path keyframe list invariant: strictly ascending ticks in range,
/// bounded positions.
pub open spec fn lps_wf(points: Seq<LinePoint>) -> bool {
    &&& forall|i: int, j: int|
        0 <= i < j < points.len() ==> (points[i].time as int) < (points[j].time as int)
    &&& forall|i: int|
        0 <= i < points.len() ==> ((#[trigger] points[i]).time as int) <= MAX_TIME as int && abs(
            points[i].x_position as int,
        ) <= MAX_VALUE as int
}

/// One-based index of the first challenge period containing `tick`,
/// scanning from `i`; zero when none does.
pub open spec fn challenge_idx(cts: Seq<ChallengeTime>, tick: int, i: int) -> int
    decreases cts.len() - i,
{
    if i < 0 || i >= cts.len() {
        0
    } else if cts[i].start as int <= tick && tick <= cts[i].end as int {
        i + 1
    } else {
        challenge_idx(cts, tick, i + 1)
    }
}

/// Chart invariant: every ordered list the resolvers walk is ordered and
/// bounded, and the tempo data forms accepted rates.
pub open spec fn chart_wf(chart: Chart) -> bool {
    &&& shifts_wf(chart.bpm_shifts@, chart.bpm as int)
    &&& keys_wf(chart.camera_move.scale_key_points@)
    &&& keys_wf(chart.camera_move.x_position_key_points@)
    &&& forall|i: int|
        0 <= i < chart.camera_move.scale_key_points@.len() ==> abs(
            (#[trigger] chart.camera_move.scale_key_points@[i]).value as int,
        ) <= 100 * (SCALE as int)
    &&& forall|i: int|
        0 <= i < chart.canvas_moves@.len() ==> {
            let cm = #[trigger] chart.canvas_moves@[i];
            keys_wf(cm.x_position_key_points@) && keys_wf(cm.speed_key_points@)
                && keys_secs_sorted(cm.speed_key_points@, chart.bpm_shifts@, chart.bpm as int)
                && keys_fps_bounded(cm.speed_key_points@)
        }
    &&& forall|i: int|
        0 <= i < chart.lines@.len() ==> {
            let l = #[trigger] chart.lines@[i];
            lps_wf(l.line_points@) && line_segs_wf(l.line_color@) && ring_segs_wf(
                l.judge_ring_color@,
            )
        }
}

/// Mutable playback state: the chart, the playback cursor, scroll and zoom
/// factors, and the per-canvas derived states.
pub struct GameState {
    pub chart: Chart,
    /// Current wall-clock time, in units.
    pub current_time: u64,
    pub is_playing: bool,
    /// Scroll-speed factor, in units.
    pub speed: i64,
    /// Camera zoom factor, in units.
    pub revelation_size: i64,
    pub canvas_states: Vec<CanvasState>,
}

/// Per-canvas derived state: screen offset and floor position, in units.
#[derive(Debug, Clone, Copy)]
pub struct CanvasState {
    pub x: i64,
    pub fp: i64,
}

impl Default for CanvasState {
    /// A canvas at the origin with no accumulated scroll.
    fn default() -> (c: CanvasState)
        ensures
            c == (CanvasState { x: 0i64, fp: 0i64 }),
    {
        CanvasState { x: 0, fp: 0 }
    }
}

/// Hit bookkeeping for one note.
#[derive(Debug, Clone, Copy)]
pub struct NoteState {
    pub is_hit: bool,
    pub is_play_hit: bool,
}

impl Default for NoteState {
    /// A note that has not been hit.
    fn default() -> (s: NoteState)
        ensures
            !s.is_hit,
            !s.is_play_hit,
    {
        NoteState { is_hit: false, is_play_hit: false }
    }
}

/// A line-path keyframe resolved to screen coordinates and final color.
pub struct ComputedLinePoint {
    pub x: i64,
    pub y: i64,
    pub color: Color,
    pub ease_type: u8,
}

/// Game-state invariant: a well-formed chart, the cursor and the two
/// factors in range, one canvas state per canvas movement.
pub open spec fn game_wf(gs: GameState) -> bool {
    &&& chart_wf(gs.chart)
    &&& gs.current_time <= MAX_TIME
    &&& abs(gs.speed as int) <= 100 * (SCALE as int)
    &&& abs(gs.revelation_size as int) <= 100 * (SCALE as int)
    &&& gs.canvas_states@.len() == gs.chart.canvas_moves@.len()
}

/// The tick the playback cursor stands at.
pub open spec fn current_tick_spec(gs: GameState) -> int {
    s2t_spec(gs.current_time as int, gs.chart.bpm_shifts@, gs.chart.bpm as int)
}

/// The camera's zoom at the cursor: the scale track's value times the
/// revelation factor.
pub open spec fn camera_scale_spec(gs: GameState) -> int {
    scaled_signed(
        track_value_at(gs.chart.camera_move.scale_key_points@, current_tick_spec(gs)),
        gs.revelation_size as int,
    )
}

/// The camera's horizontal position at the cursor.
pub open spec fn camera_x_spec(gs: GameState) -> int {
    track_value_at(gs.chart.camera_move.x_position_key_points@, current_tick_spec(gs))
}

/// A line point's floor position: the runtime cache when present, else the
/// speed track of its canvas integrated up to the point's own wall-clock
/// time.
pub open spec fn point_fp_spec(chart: Chart, point: LinePoint) -> int {
    match point.fp {
        Some(v) => v as int,
        None => speed_fp_at(
            chart.canvas_moves@[point.canvas_index as int].speed_key_points@,
            chart.bpm_shifts@,
            chart.bpm as int,
            t2s_spec(point.time as int, chart.bpm_shifts@, chart.bpm as int),
        ),
    }
}

impl GameState {
    /// Fresh playback state over a chart: cursor at zero, paused, default
    /// scroll and zoom factors, one default canvas state per canvas
    /// movement.
    pub fn new(chart: Chart) -> (g: GameState)
        ensures
            g.chart == chart,
            g.current_time == 0,
            !g.is_playing,
            g.speed as int == ((215 * (SCALE as int) / 32 + 10 * (SCALE as int)) * 10) / 129,
            g.revelation_size == SCALE as i64,
            g.canvas_states@.len() == chart.canvas_moves@.len(),
            forall|i: int|
                0 <= i < g.canvas_states@.len() ==> (#[trigger] g.canvas_states@[i]) == (
                CanvasState { x: 0i64, fp: 0i64 }),
            chart_wf(chart) ==> game_wf(g),
    {
        let canvas_count: usize = chart.canvas_moves.len();
        let mut canvas_states: Vec<CanvasState> = Vec::new();
        let mut i: usize = 0;
        while i < canvas_count
            invariant
                i <= canvas_count,
                canvas_states@.len() == i as int,
                forall|j: int|
                    0 <= j < i as int ==> (#[trigger] canvas_states@[j]) == (CanvasState {
                        x: 0i64,
                        fp: 0i64,
                    }),
            decreases canvas_count - i,
        {
            canvas_states.push(CanvasState::default());
            i = i + 1;
        }
        let speed: i64 = (215 * (SCALE as i64) / 32 + 10 * (SCALE as i64)) * 10 / 129;
        GameState {
            chart,
            current_time: 0,
            is_playing: false,
            speed,
            revelation_size: SCALE as i64,
            canvas_states,
        }
    }

    /// The tick the playback cursor stands at.
    pub fn current_tick(&self) -> (t: u64)
        requires
            game_wf(*self),
        ensures
            t as int == current_tick_spec(*self),
            t <= crate::fixed::TICK_BOUND,
    {
        seconds_to_tick(self.current_time, &self.chart.bpm_shifts, self.chart.bpm)
    }

    /// The camera's zoom at the cursor.
    #[verifier::rlimit(100)]
    pub fn camera_scale(&self) -> (s: i64)
        requires
            game_wf(*self),
        ensures
            s as int == camera_scale_spec(*self),
            abs(s as int) <= 10_000_000_000,
    {
        let tick: u64 = self.current_tick();
        let v: i64 = find_value(tick, &self.chart.camera_move.scale_key_points);
        proof {
            vstd::arithmetic::mul::lemma_mul_upper_bound(
                abs(v as int),
                100_000_000,
                abs(self.revelation_size as int),
                100_000_000,
            );
            vstd::arithmetic::div_mod::lemma_div_is_ordered(
                abs(v as int) * abs(self.revelation_size as int),
                10_000_000_000_000_000,
                SCALE as int,
            );
        }
        mul_scaled_signed(v, self.revelation_size)
    }

    /// The camera's horizontal position at the cursor.
    pub fn camera_move_x(&self) -> (x: i64)
        requires
            game_wf(*self),
        ensures
            x as int == camera_x_spec(*self),
            abs(x as int) <= MAX_VALUE as int,
    {
        let tick: u64 = self.current_tick();
        find_value(tick, &self.chart.camera_move.x_position_key_points)
    }

    /// One-based index of the challenge period the cursor stands in, if
    /// any.
    pub fn get_challenge_time_index(&self) -> (r: Option<usize>)
        requires
            game_wf(*self),
        ensures
            ({
                let idx = challenge_idx(
                    self.chart.challenge_times@,
                    current_tick_spec(*self),
                    0,
                );
                &&& (idx == 0 ==> r is None)
                &&& (idx != 0 ==> (r matches Some(k) && k as int == idx))
            }),
    {
        let ghost cts = self.chart.challenge_times@;
        let tick: u64 = self.current_tick();
        let n: usize = self.chart.challenge_times.len();
        let mut i: usize = 0;
        while i < n
            invariant
                i <= n,
                n == cts.len(),
                cts == self.chart.challenge_times@,
                tick as int == current_tick_spec(*self),
                challenge_idx(cts, tick as int, 0) == challenge_idx(cts, tick as int, i as int),
            decreases n - i,
        {
            let ct: ChallengeTime = self.chart.challenge_times[i];
            if tick >= ct.start && tick <= ct.end {
                proof {
                    assert(challenge_idx(cts, tick as int, i as int) == i as int + 1);
                }
                return Some(i + 1);
            }
            i = i + 1;
        }
        None
    }

    /// The theme color for `index`: the active challenge period selects the
    /// theme, missing themes or colors fall back to the default color.
    pub fn get_theme_color(&self, index: usize) -> (c: Color)
        requires
            game_wf(*self),
        ensures
            ({
                let ti = challenge_idx(self.chart.challenge_times@, current_tick_spec(*self), 0);
                c == (if ti < self.chart.themes@.len() && (index as int)
                    < self.chart.themes@[ti].colors_list@.len() {
                    self.chart.themes@[ti].colors_list@[index as int]
                } else {
                    Color { r: 0, g: 0, b: 0, a: 0 }
                })
            }),
    {
        let theme_idx: usize = match self.get_challenge_time_index() {
            Some(i) => i,
            None => 0,
        };
        if theme_idx < self.chart.themes.len() {
            if index < self.chart.themes[theme_idx].colors_list.len() {
                return self.chart.themes[theme_idx].colors_list[index];
            }
        }
        Color::default()
    }
}

/// Resolve the active line color at `tick`, blending linearly across the
/// bracketing transition window; a sole segment never transitions, the
/// last segment's boundary holds its end color, and a query before the
/// first window falls back to the first start color.
#[verifier::rlimit(100)]
pub fn get_current_line_color(line_color: &Vec<LineColor>, tick: u64) -> (c: Option<Color>)
    requires
        line_segs_wf(line_color@),
    ensures
        c == seg_color_at(line_color@, tick as int),
{
    let ghost segs = line_color@;
    let n: usize = line_color.len();
    if n == 0 {
        return None;
    }
    if n == 1 {
        return Some(line_color[0].start_color);
    }
    if tick >= line_color[n - 1].time {
        return Some(line_color[n - 1].end_color);
    }
    let mut i: usize = 0;
    while i < n
        invariant
            i <= n,
            n == segs.len(),
            segs == line_color@,
            n > 1,
            line_segs_wf(segs),
            (tick as int) < (segs[n - 1].time as int),
            (tick as int) < (segs[0].time as int) || (i < n && (tick as int) >= (segs[
                i as int].time as int)),
        decreases n - i,
    {
        let seg_time: u64 = line_color[i].time;
        let next_time: u64 = if i + 1 < n {
            line_color[i + 1].time
        } else {
            seg_time
        };
        if tick >= seg_time && tick < next_time {
            let t0: u64 = seg_time;
            let t1: u64 = next_time;
            proof {
                assert(i as int + 1 < n as int);
                assert((segs[i as int].time as int) < (segs[i as int + 1].time as int));
                vstd::arithmetic::mul::lemma_mul_upper_bound(
                    tick as int - t0 as int,
                    1_000_000_000_000,
                    SCALE as int,
                    1_000_000,
                );
                vstd::arithmetic::mul::lemma_mul_nonnegative(tick as int - t0 as int, SCALE as int);
                vstd::arithmetic::mul::lemma_mul_inequality(
                    tick as int - t0 as int,
                    t1 as int - t0 as int,
                    SCALE as int,
                );
                vstd::arithmetic::div_mod::lemma_div_pos_is_pos(
                    (tick as int - t0 as int) * (SCALE as int),
                    t1 as int - t0 as int,
                );
                vstd::arithmetic::div_mod::lemma_div_is_ordered(
                    (tick as int - t0 as int) * (SCALE as int),
                    (t1 as int - t0 as int) * (SCALE as int),
                    t1 as int - t0 as int,
                );
                vstd::arithmetic::div_mod::lemma_div_by_multiple(SCALE as int, t1 as int - t0 as int);
                assert((t1 as int - t0 as int) * (SCALE as int) == (SCALE as int) * (t1 as int
                    - t0 as int)) by (nonlinear_arith);
            }
            let num: u128 = ((tick - t0) as u128) * (SCALE as u128);
            let progress: u64 = (num / ((t1 - t0) as u128)) as u64;
            let seg: LineColor = line_color[i];
            let c: Color = seg.start_color.lerp(&seg.end_color, progress);
            proof {
                assert forall|j: int|
                    0 <= j < n as int - 1 && ((#[trigger] segs[j]).time as int) <= tick as int
                        && (tick as int) < (segs[j + 1].time as int) implies j == i as int by {
                    if j < i as int {
                        assert((segs[j + 1].time as int) <= (segs[i as int].time as int));
                    }
                    if j > i as int {
                        assert((segs[i as int + 1].time as int) <= (segs[j].time as int));
                    }
                }
                assert(0 <= i as int && (i as int) < n as int - 1 && ((segs[
                    i as int].time as int) <= tick as int) && (tick as int) < (segs[i as int
                    + 1].time as int));
            }
            return Some(c);
        }
        i = i + 1;
    }
    Some(line_color[0].start_color)
}

/// Resolve the active judge-ring color at `tick`; the same resolution as
/// the line color list.
#[verifier::rlimit(100)]
pub fn get_current_judge_ring_color(judge_ring_color: &Vec<JudgeRingColor>, tick: u64) -> (c:
    Option<Color>)
    requires
        ring_segs_wf(judge_ring_color@),
    ensures
        c == ring_color_at(judge_ring_color@, tick as int),
{
    let ghost segs = judge_ring_color@;
    let n: usize = judge_ring_color.len();
    if n == 0 {
        return None;
    }
    if n == 1 {
        return Some(judge_ring_color[0].start_color);
    }
    if tick >= judge_ring_color[n - 1].time {
        return Some(judge_ring_color[n - 1].end_color);
    }
    let mut i: usize = 0;
    while i < n
        invariant
            i <= n,
            n == segs.len(),
            segs == judge_ring_color@,
            n > 1,
            ring_segs_wf(segs),
            (tick as int) < (segs[n - 1].time as int),
            (tick as int) < (segs[0].time as int) || (i < n && (tick as int) >= (segs[
                i as int].time as int)),
        decreases n - i,
    {
        let seg_time: u64 = judge_ring_color[i].time;
        let next_time: u64 = if i + 1 < n {
            judge_ring_color[i + 1].time
        } else {
            seg_time
        };
        if tick >= seg_time && tick < next_time {
            let t0: u64 = seg_time;
            let t1: u64 = next_time;
            proof {
                assert(i as int + 1 < n as int);
                assert((segs[i as int].time as int) < (segs[i as int + 1].time as int));
                vstd::arithmetic::mul::lemma_mul_upper_bound(
                    tick as int - t0 as int,
                    1_000_000_000_000,
                    SCALE as int,
                    1_000_000,
                );
                vstd::arithmetic::mul::lemma_mul_nonnegative(tick as int - t0 as int, SCALE as int);
                vstd::arithmetic::mul::lemma_mul_inequality(
                    tick as int - t0 as int,
                    t1 as int - t0 as int,
                    SCALE as int,
                );
                vstd::arithmetic::div_mod::lemma_div_pos_is_pos(
                    (tick as int - t0 as int) * (SCALE as int),
                    t1 as int - t0 as int,
                );
                vstd::arithmetic::div_mod::lemma_div_is_ordered(
                    (tick as int - t0 as int) * (SCALE as int),
                    (t1 as int - t0 as int) * (SCALE as int),
                    t1 as int - t0 as int,
                );
                vstd::arithmetic::div_mod::lemma_div_by_multiple(SCALE as int, t1 as int - t0 as int);
                assert((t1 as int - t0 as int) * (SCALE as int) == (SCALE as int) * (t1 as int
                    - t0 as int)) by (nonlinear_arith);
            }
            let num: u128 = ((tick - t0) as u128) * (SCALE as u128);
            let progress: u64 = (num / ((t1 - t0) as u128)) as u64;
            let seg: JudgeRingColor = judge_ring_color[i];
            let c: Color = seg.start_color.lerp(&seg.end_color, progress);
            proof {
                assert forall|j: int|
                    0 <= j < n as int - 1 && ((#[trigger] segs[j]).time as int) <= tick as int
                        && (tick as int) < (segs[j + 1].time as int) implies j == i as int by {
                    if j < i as int {
                        assert((segs[j + 1].time as int) <= (segs[i as int].time as int));
                    }
                    if j > i as int {
                        assert((segs[i as int + 1].time as int) <= (segs[j].time as int));
                    }
                }
                assert(0 <= i as int && (i as int) < n as int - 1 && ((segs[
                    i as int].time as int) <= tick as int) && (tick as int) < (segs[i as int
                    + 1].time as int));
            }
            return Some(c);
        }
        i = i + 1;
    }
    Some(judge_ring_color[0].start_color)
}

/// Mix the active line color onto a point color; an empty transition list
/// leaves the point color untouched.
pub fn calculate_mixed_color(tick: u64, point_color: &Color, line_color: &Vec<LineColor>) -> (c:
    Color)
    requires
        line_segs_wf(line_color@),
    ensures
        c == mixed_color_at(*point_color, line_color@, tick as int),
{
    if line_color.len() == 0 {
        return *point_color;
    }
    match get_current_line_color(line_color, tick) {
        Some(current) => point_color.mix(&current),
        None => *point_color,
    }
}

/// Combo score: flat up to five, then successively steeper multipliers.
pub fn calculate_combo(combo: u32) -> (r: u32)
    requires
        combo <= 1_000_000_000,
    ensures
        combo == 0 ==> r == 0,
        0 < combo <= 5 ==> r == combo,
        5 < combo <= 8 ==> r as int == 2 * combo - 5,
        8 < combo <= 11 ==> r as int == 3 * combo - 13,
        combo > 11 ==> r as int == 4 * combo - 24,
{
    if combo == 0 {
        0
    } else if combo <= 5 {
        combo
    } else if combo <= 8 {
        2 * combo - 5
    } else if combo <= 11 {
        3 * combo - 13
    } else {
        4 * combo - 24
    }
}

/// Index of the path keyframe governing `time`: the last whose tick is at
/// or before it; when every keyframe still lies in the future, the last
/// index is returned.
pub fn find_line_points_for_time(points: &Vec<LinePoint>, time: u64) -> (idx: usize)
    requires
        lps_wf(points@),
        points@.len() >= 1,
    ensures
        (idx as int) < points@.len(),
        (points@[0].time as int) > time as int ==> idx as int == points@.len() - 1,
        forall|i: int|
            0 <= i < points@.len() && ((#[trigger] points@[i]).time as int) <= time as int && (i
                == points@.len() - 1 || (points@[i + 1].time as int) > time as int) ==> idx as int
                == i,
{
    let ghost pts = points@;
    let n: usize = points.len();
    let mut idx: usize = n - 1;
    let mut any = false;
    let mut j: usize = 0;
    while j < n
        invariant
            0 <= j <= n,
            n == pts.len(),
            n >= 1,
            idx < n,
            pts == points@,
            lps_wf(pts),
            any ==> idx < j && (pts[idx as int].time as int) <= time as int,
            any ==> forall|k: int|
                idx < k < j ==> ((#[trigger] pts[k]).time as int) > time as int,
            !any ==> idx == n - 1 && forall|k: int|
                0 <= k < j ==> ((#[trigger] pts[k]).time as int) > time as int,
        decreases n - j,
    {
        if points[j].time <= time {
            idx = j;
            any = true;
        }
        j = j + 1;
    }
    proof {
        if any {
            assert forall|i: int|
                0 <= i < n as int && ((#[trigger] pts[i]).time as int) <= time as int && (i == n
                    as int - 1 || (pts[i + 1].time as int) > time as int) implies i
                == idx as int by {
                if i < idx as int {
                    assert((pts[i + 1].time as int) <= (pts[idx as int].time as int));
                }
            }
            assert((pts[0].time as int) <= (pts[idx as int].time as int));
        }
    }
    idx
}

/// Rebuild every canvas speed track's cumulative-distance cache.  Nothing
/// else in the state changes.
#[verifier::rlimit(100)]
pub fn initialize_canvas_states(game_state: &mut GameState)
    requires
        game_wf(*old(game_state)),
    ensures
        game_wf(*final(game_state)),
        final(game_state).chart.bpm_shifts == old(game_state).chart.bpm_shifts,
        final(game_state).chart.bpm == old(game_state).chart.bpm,
        final(game_state).chart.camera_move == old(game_state).chart.camera_move,
        final(game_state).chart.lines == old(game_state).chart.lines,
        final(game_state).chart.themes == old(game_state).chart.themes,
        final(game_state).chart.challenge_times == old(game_state).chart.challenge_times,
        final(game_state).current_time == old(game_state).current_time,
        final(game_state).is_playing == old(game_state).is_playing,
        final(game_state).speed == old(game_state).speed,
        final(game_state).revelation_size == old(game_state).revelation_size,
        final(game_state).canvas_states == old(game_state).canvas_states,
        final(game_state).chart.canvas_moves@.len() == old(game_state).chart.canvas_moves@.len(),
        forall|i: int|
            0 <= i < old(game_state).chart.canvas_moves@.len() ==> {
                let co = old(game_state).chart.canvas_moves@[i];
                let cn = #[trigger] final(game_state).chart.canvas_moves@[i];
                &&& cn.index == co.index
                &&& cn.x_position_key_points == co.x_position_key_points
                &&& cn.speed_key_points@.len() == co.speed_key_points@.len()
                &&& forall|j: int|
                    0 <= j < co.speed_key_points@.len() ==> {
                        let ko = co.speed_key_points@[j];
                        let kn = #[trigger] cn.speed_key_points@[j];
                        &&& kn.time == ko.time
                        &&& kn.value == ko.value
                        &&& kn.ease_type == ko.ease_type
                        &&& kn.floor_position == ko.floor_position
                        &&& kn.fp is Some
                        &&& crate::timing::fp_of(kn) == cum_dist(
                            cn.speed_key_points@,
                            old(game_state).chart.bpm_shifts@,
                            old(game_state).chart.bpm as int,
                            j,
                        )
                    }
            },
{
    let ghost gs0 = *game_state;
    let n: usize = game_state.chart.canvas_moves.len();
    let mut i: usize = 0;
    while i < n
        invariant
            0 <= i <= n,
            n == gs0.chart.canvas_moves@.len(),
            game_wf(gs0),
            game_state.chart.bpm_shifts == gs0.chart.bpm_shifts,
            game_state.chart.bpm == gs0.chart.bpm,
            game_state.chart.camera_move == gs0.chart.camera_move,
            game_state.chart.lines == gs0.chart.lines,
            game_state.chart.themes == gs0.chart.themes,
            game_state.chart.challenge_times == gs0.chart.challenge_times,
            game_state.chart.songs_name == gs0.chart.songs_name,
            game_state.chart.offset == gs0.chart.offset,
            game_state.chart.file_version == gs0.chart.file_version,
            game_state.current_time == gs0.current_time,
            game_state.is_playing == gs0.is_playing,
            game_state.speed == gs0.speed,
            game_state.revelation_size == gs0.revelation_size,
            game_state.canvas_states == gs0.canvas_states,
            game_state.chart.canvas_moves@.len() == n,
            forall|k: int|
                i <= k < n ==> #[trigger] game_state.chart.canvas_moves@[k]
                    == gs0.chart.canvas_moves@[k],
            forall|k: int|
                0 <= k < i ==> {
                    let co = gs0.chart.canvas_moves@[k];
                    let cn = #[trigger] game_state.chart.canvas_moves@[k];
                    &&& cn.index == co.index
                    &&& cn.x_position_key_points == co.x_position_key_points
                    &&& cn.speed_key_points@.len() == co.speed_key_points@.len()
                    &&& keys_wf(cn.speed_key_points@)
                    &&& keys_secs_sorted(
                        cn.speed_key_points@,
                        gs0.chart.bpm_shifts@,
                        gs0.chart.bpm as int,
                    )
                    &&& keys_fps_bounded(cn.speed_key_points@)
                    &&& forall|j: int|
                        0 <= j < co.speed_key_points@.len() ==> {
                            let ko = co.speed_key_points@[j];
                            let kn = #[trigger] cn.speed_key_points@[j];
                            &&& kn.time == ko.time
                            &&& kn.value == ko.value
                            &&& kn.ease_type == ko.ease_type
                            &&& kn.floor_position == ko.floor_position
                            &&& kn.fp is Some
                            &&& crate::timing::fp_of(kn) == cum_dist(
                                cn.speed_key_points@,
                                gs0.chart.bpm_shifts@,
                                gs0.chart.bpm as int,
                                j,
                            )
                        }
                },
        decreases n - i,
    {
        let ghost track0 = game_state.chart.canvas_moves@[i as int].speed_key_points@;
        recalculate_fps(
            &mut game_state.chart.canvas_moves[i].speed_key_points,
            &game_state.chart.bpm_shifts,
            game_state.chart.bpm,
        );
        i = i + 1;
    }
}

/// Refresh every canvas state from the cursor: the horizontal offset from
/// the canvas's position track relative to the camera, scaled by the zoom,
/// and the floor position from its speed track at the current wall-clock
/// time.
#[verifier::rlimit(100)]
pub fn update_canvas_states(game_state: &mut GameState)
    requires
        game_wf(*old(game_state)),
    ensures
        game_wf(*final(game_state)),
        final(game_state).chart == old(game_state).chart,
        final(game_state).current_time == old(game_state).current_time,
        final(game_state).is_playing == old(game_state).is_playing,
        final(game_state).speed == old(game_state).speed,
        final(game_state).revelation_size == old(game_state).revelation_size,
        final(game_state).canvas_states@.len() == old(game_state).canvas_states@.len(),
        forall|i: int|
            0 <= i < old(game_state).canvas_states@.len() ==> {
                let cs = #[trigger] final(game_state).canvas_states@[i];
                &&& cs.x as int == scaled_signed(
                    track_value_at(
                        old(game_state).chart.canvas_moves@[i].x_position_key_points@,
                        current_tick_spec(*old(game_state)),
                    ) - camera_x_spec(*old(game_state)),
                    camera_scale_spec(*old(game_state)),
                )
                &&& cs.fp as int == speed_fp_at(
                    old(game_state).chart.canvas_moves@[i].speed_key_points@,
                    old(game_state).chart.bpm_shifts@,
                    old(game_state).chart.bpm as int,
                    old(game_state).current_time as int,
                )
            },
{
    let ghost gs0 = *game_state;
    let tick: u64 = game_state.current_tick();
    let timer: u64 = game_state.current_time;
    let scale: i64 = game_state.camera_scale();
    let camera_x: i64 = game_state.camera_move_x();
    let n: usize = game_state.chart.canvas_moves.len();
    let mut new_states: Vec<CanvasState> = Vec::new();
    let mut i: usize = 0;
    while i < n
        invariant
            0 <= i <= n,
            n == gs0.chart.canvas_moves@.len(),
            game_wf(gs0),
            *game_state == gs0,
            tick as int == current_tick_spec(gs0),
            timer == gs0.current_time,
            scale as int == camera_scale_spec(gs0),
            abs(scale as int) <= 10_000_000_000,
            camera_x as int == camera_x_spec(gs0),
            abs(camera_x as int) <= MAX_VALUE as int,
            new_states@.len() == i as int,
            forall|k: int|
                0 <= k < i ==> {
                    let cs = #[trigger] new_states@[k];
                    &&& cs.x as int == scaled_signed(
                        track_value_at(
                            gs0.chart.canvas_moves@[k].x_position_key_points@,
                            current_tick_spec(gs0),
                        ) - camera_x_spec(gs0),
                        camera_scale_spec(gs0),
                    )
                    &&& cs.fp as int == speed_fp_at(
                        gs0.chart.canvas_moves@[k].speed_key_points@,
                        gs0.chart.bpm_shifts@,
                        gs0.chart.bpm as int,
                        gs0.current_time as int,
                    )
                },
        decreases n - i,
    {
        let cs: CanvasState = canvas_state_at(game_state, i, tick, timer, scale, camera_x);
        new_states.push(cs);
        i = i + 1;
    }
    game_state.canvas_states = new_states;
}

/// One canvas's refreshed state, given the cursor's resolved tick, camera
/// scale and camera position.
#[verifier::rlimit(100)]
fn canvas_state_at(
    gs: &GameState,
    i: usize,
    tick: u64,
    timer: u64,
    scale: i64,
    camera_x: i64,
) -> (cs: CanvasState)
    requires
        game_wf(*gs),
        (i as int) < gs.chart.canvas_moves@.len(),
        tick as int == current_tick_spec(*gs),
        timer == gs.current_time,
        scale as int == camera_scale_spec(*gs),
        abs(scale as int) <= 10_000_000_000,
        camera_x as int == camera_x_spec(*gs),
        abs(camera_x as int) <= MAX_VALUE as int,
    ensures
        cs.x as int == scaled_signed(
            track_value_at(
                gs.chart.canvas_moves@[i as int].x_position_key_points@,
                current_tick_spec(*gs),
            ) - camera_x_spec(*gs),
            camera_scale_spec(*gs),
        ),
        cs.fp as int == speed_fp_at(
            gs.chart.canvas_moves@[i as int].speed_key_points@,
            gs.chart.bpm_shifts@,
            gs.chart.bpm as int,
            gs.current_time as int,
        ),
{
    let x_value: i64 = find_value(tick, &gs.chart.canvas_moves[i].x_position_key_points);
    let fp: i64 = speed_to_fp(
        timer,
        &gs.chart.canvas_moves[i].speed_key_points,
        &gs.chart.bpm_shifts,
        gs.chart.bpm,
    );
    let d: i64 = x_value - camera_x;
    proof {
        vstd::arithmetic::mul::lemma_mul_upper_bound(
            abs(d as int),
            20_000_000_000,
            abs(scale as int),
            10_000_000_000,
        );
    }
    let xv: i64 = mul_scaled_signed(d, scale);
    CanvasState { x: xv, fp }
}

/// Resolve one path keyframe to screen coordinates and final color: the
/// horizontal position scaled by zoom and screen width plus the canvas
/// offset; the vertical position from the scroll distance still ahead,
/// scaled by screen height, scroll speed and zoom; and the point color
/// with the active line color mixed on.
pub fn compute_line_point(
    game_state: &GameState,
    point: &LinePoint,
    canvas_fp: i64,
    canvas_x: i64,
    line_color: &Vec<LineColor>,
    screen_width: u64,
    screen_height: u64,
) -> (r: ComputedLinePoint)
    requires
        game_wf(*game_state),
        line_segs_wf(line_color@),
        (point.canvas_index as int) < game_state.chart.canvas_moves@.len(),
        abs(point.x_position as int) <= MAX_VALUE as int,
        point.time <= MAX_TIME,
        abs(canvas_fp as int) <= 3_000_000_000_000_000_000,
        abs(canvas_x as int) <= 4_000_000_000_000_000,
        screen_width <= 4_000_000_000,
        screen_height <= 4_000_000_000,
        abs(point_fp_spec(game_state.chart, *point) - canvas_fp as int) <= 100 * (SCALE as int),
    ensures
        r.ease_type == point.ease_type,
        r.color == mixed_color_at(point.color, line_color@, current_tick_spec(*game_state)),
        r.x as int == scaled_signed(
            scaled_signed(point.x_position as int, camera_scale_spec(*game_state)),
            screen_width as int,
        ) + canvas_x as int,
        r.y as int == -scaled_signed(
            scaled_signed(
                scaled_signed(
                    point_fp_spec(game_state.chart, *point) - canvas_fp as int,
                    screen_height as int,
                ),
                game_state.speed as int,
            ),
            camera_scale_spec(*game_state),
        ),
{
    let tick: u64 = game_state.current_tick();
    let scale: i64 = game_state.camera_scale();
    let point_fp: i64 = match point.fp {
        Some(v) => v,
        None => {
            let secs: u64 = tick_to_seconds(
                point.time,
                &game_state.chart.bpm_shifts,
                game_state.chart.bpm,
            );
            speed_to_fp(
                secs,
                &game_state.chart.canvas_moves[point.canvas_index].speed_key_points,
                &game_state.chart.bpm_shifts,
                game_state.chart.bpm,
            )
        },
    };
    proof {
        vstd::arithmetic::mul::lemma_mul_upper_bound(
            abs(point.x_position as int),
            MAX_VALUE as int,
            abs(scale as int),
            10_000_000_000,
        );
        vstd::arithmetic::div_mod::lemma_div_is_ordered(
            abs(point.x_position as int) * abs(scale as int),
            100_000_000_000_000_000_000,
            SCALE as int,
        );
    }
    let a: i64 = mul_scaled_signed(point.x_position, scale);
    proof {
        vstd::arithmetic::mul::lemma_mul_upper_bound(
            abs(a as int),
            100_000_000_000_000,
            screen_width as int,
            4_000_000_000,
        );
        vstd::arithmetic::div_mod::lemma_div_is_ordered(
            abs(a as int) * (screen_width as int),
            400_000_000_000_000_000_000_000,
            SCALE as int,
        );
    }
    let b: i64 = mul_scaled_signed(a, screen_width as i64);
    let x: i64 = b + canvas_x;
    let dd: i64 = point_fp - canvas_fp;
    proof {
        vstd::arithmetic::mul::lemma_mul_upper_bound(
            abs(dd as int),
            100_000_000,
            screen_height as int,
            4_000_000_000,
        );
        vstd::arithmetic::div_mod::lemma_div_is_ordered(
            abs(dd as int) * (screen_height as int),
            400_000_000_000_000_000,
            SCALE as int,
        );
    }
    let y1: i64 = mul_scaled_signed(dd, screen_height as i64);
    proof {
        vstd::arithmetic::mul::lemma_mul_upper_bound(
            abs(y1 as int),
            400_000_000_000,
            abs(game_state.speed as int),
            100_000_000,
        );
        vstd::arithmetic::div_mod::lemma_div_is_ordered(
            abs(y1 as int) * abs(game_state.speed as int),
            40_000_000_000_000_000_000,
            SCALE as int,
        );
    }
    let y2: i64 = mul_scaled_signed(y1, game_state.speed);
    proof {
        vstd::arithmetic::mul::lemma_mul_upper_bound(
            abs(y2 as int),
            40_000_000_000_000,
            abs(scale as int),
            10_000_000_000,
        );
        vstd::arithmetic::div_mod::lemma_div_is_ordered(
            abs(y2 as int) * abs(scale as int),
            400_000_000_000_000_000_000_000,
            SCALE as int,
        );
    }
    let y3: i64 = mul_scaled_signed(y2, scale);
    let y: i64 = -y3;
    let mix_color: Color = calculate_mixed_color(tick, &point.color, line_color);
    ComputedLinePoint { x, y, color: mix_color, ease_type: point.ease_type }
}

/// A minimal playable chart: three theme colors, one unit tempo shift at
/// the origin, one canvas with an idle position track and a unit speed
/// track, and a unit camera.
pub fn create_empty_chart() -> (r: Chart)
    ensures
        chart_wf(r),
        r.file_version == 0,
        r.songs_name@.len() == 0,
        r.themes@.len() == 1 && r.themes@[0].colors_list@.len() == 3,
        r.themes@[0].colors_list@[0] == (Color { r: 255, g: 255, b: 255, a: 255 }),
        r.themes@[0].colors_list@[1] == (Color { r: 254, g: 212, b: 212, a: 255 }),
        r.themes@[0].colors_list@[2] == (Color { r: 217, g: 217, b: 217, a: 255 }),
        r.challenge_times@.len() == 0,
        r.bpm == 120_000_000u64,
        r.bpm_shifts@.len() == 1,
        r.bpm_shifts@[0] == (crate::chart::BpmShift {
            time: 0u64,
            value: 1_000_000u64,
            ease_type: 0u8,
            floor_position: 0u64,
        }),
        r.offset == 0,
        r.lines@.len() == 0,
        r.canvas_moves@.len() == 1,
        r.canvas_moves@[0].index == 0,
        r.canvas_moves@[0].x_position_key_points@.len() == 1,
        r.canvas_moves@[0].x_position_key_points@[0].value == 0,
        r.canvas_moves@[0].speed_key_points@.len() == 1,
        r.canvas_moves@[0].speed_key_points@[0].value == 1_000_000i64,
        r.canvas_moves@[0].speed_key_points@[0].fp == Some(0i64),
        r.camera_move.scale_key_points@.len() == 1,
        r.camera_move.scale_key_points@[0].value == 1_000_000i64,
        r.camera_move.x_position_key_points@.len() == 1,
        r.camera_move.x_position_key_points@[0].value == 0,
{
    let themes: Vec<Theme> = vec![
        Theme {
            colors_list: vec![
                Color { r: 255, g: 255, b: 255, a: 255 },
                Color { r: 254, g: 212, b: 212, a: 255 },
                Color { r: 217, g: 217, b: 217, a: 255 },
            ],
        },
    ];
    let bpm_shifts: Vec<crate::chart::BpmShift> = vec![
        crate::chart::BpmShift { time: 0, value: 1_000_000, ease_type: 0, floor_position: 0 },
    ];
    let canvas_moves: Vec<CanvasMove> = vec![
        CanvasMove {
            index: 0,
            x_position_key_points: vec![
                KeyPoint { time: 0, value: 0, ease_type: 0, floor_position: 0, fp: Some(0) },
            ],
            speed_key_points: vec![
                KeyPoint {
                    time: 0,
                    value: 1_000_000,
                    ease_type: 0,
                    floor_position: 0,
                    fp: Some(0),
                },
            ],
        },
    ];
    let camera_move: CameraMove = CameraMove {
        scale_key_points: vec![
            KeyPoint { time: 0, value: 1_000_000, ease_type: 0, floor_position: 0, fp: None },
        ],
        x_position_key_points: vec![
            KeyPoint { time: 0, value: 0, ease_type: 0, floor_position: 0, fp: None },
        ],
    };
    Chart {
        file_version: 0,
        songs_name: String::new(),
        themes,
        challenge_times: Vec::new(),
        bpm: 120_000_000,
        bpm_shifts,
        offset: 0,
        lines: Vec::new(),
        canvas_moves,
        camera_move,
    }
}

} // verus!
