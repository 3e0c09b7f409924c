//! Chart data model: colors, tempo shifts, keyframes, notes, lines and the
//! chart record itself.
//!
//! All records are plain immutable values.  Fractional chart quantities are
//! fixed-point counts of millionths (see [`crate::fixed`]): times (ticks and
//! seconds) are unsigned, track values and cached floor positions signed.

use vstd::prelude::*;

use crate::fixed::SCALE;

verus! {

/// Per-channel blend of two 8-bit channels, rounding to nearest: the blend
/// weight `t` counts millionths of the way from `a` to `b`.
pub open spec fn lerp_channel(a: int, b: int, t: int) -> int {
    (a * (SCALE as int - t) + b * t + (SCALE as int) / 2) / (SCALE as int)
}

/// Per-channel blend of two 8-bit channels, rounding to nearest, weighted by
/// a blend-source alpha in `0..=255`.
pub open spec fn mix_channel(a: int, b: int, alpha: int) -> int {
    (a * (255 - alpha) + b * alpha + 127) / 255
}

/// RGBA color, one byte per channel.
#[derive(Debug, Clone, Copy, PartialEq, Eq, Structural)]
pub struct Color {
    pub r: u8,
    pub g: u8,
    pub b: u8,
    pub a: u8,
}

/// The color that [`Color::lerp`] returns: every channel blended `t`
/// millionths of the way, rounding to nearest.
pub open spec fn lerp_spec(a: Color, b: Color, t: int) -> Color {
    Color {
        r: lerp_channel(a.r as int, b.r as int, t) as u8,
        g: lerp_channel(a.g as int, b.g as int, t) as u8,
        b: lerp_channel(a.b as int, b.b as int, t) as u8,
        a: lerp_channel(a.a as int, b.a as int, t) as u8,
    }
}

/// The color that [`Color::mix`] returns: `b.a` weighs `b` onto `a`,
/// alpha 0 and 255 degenerate to the endpoints, and the result always
/// keeps `a`'s alpha.
pub open spec fn mix_spec(a: Color, b: Color) -> Color {
    if b.a == 0 {
        a
    } else if b.a == 255 {
        Color { r: b.r, g: b.g, b: b.b, a: a.a }
    } else {
        Color {
            r: mix_channel(a.r as int, b.r as int, b.a as int) as u8,
            g: mix_channel(a.g as int, b.g as int, b.a as int) as u8,
            b: mix_channel(a.b as int, b.b as int, b.a as int) as u8,
            a: a.a,
        }
    }
}

impl Default for Color {
    /// Fully transparent black, the fallback when theme data runs short.
    fn default() -> (c: Color)
        ensures
            c == (Color { r: 0, g: 0, b: 0, a: 0 }),
    {
        Color { r: 0, g: 0, b: 0, a: 0 }
    }
}

impl Color {
    /// Per-channel linear blend toward `other`, `t` millionths of the way,
    /// rounding each channel to nearest.
    pub fn lerp(&self, other: &Color, t: u64) -> (c: Color)
        requires
            t <= SCALE,
        ensures
            c == lerp_spec(*self, *other, t as int),
            c.r as int == lerp_channel(self.r as int, other.r as int, t as int),
            c.g as int == lerp_channel(self.g as int, other.g as int, t as int),
            c.b as int == lerp_channel(self.b as int, other.b as int, t as int),
            c.a as int == lerp_channel(self.a as int, other.a as int, t as int),
    {
        Color {
            r: lerp_channel_exec(self.r, other.r, t),
            g: lerp_channel_exec(self.g, other.g, t),
            b: lerp_channel_exec(self.b, other.b, t),
            a: lerp_channel_exec(self.a, other.a, t),
        }
    }

    /// Blend `other` onto `self`, treating `other.a` as the blend-source
    /// alpha: alpha 0 leaves `self` unchanged, alpha 255 replaces the RGB
    /// channels and keeps `self`'s alpha, anything between blends each RGB
    /// channel by `other.a / 255` rounding to nearest.  The result's alpha is
    /// always `self.a`: alpha is a weight here, never blended.
    pub fn mix(&self, other: &Color) -> (c: Color)
        ensures
            c == mix_spec(*self, *other),
            other.a == 0 ==> c == *self,
            other.a == 255 ==> c == (Color { r: other.r, g: other.g, b: other.b, a: self.a }),
            0 < other.a < 255 ==> {
                &&& c.r as int == mix_channel(self.r as int, other.r as int, other.a as int)
                &&& c.g as int == mix_channel(self.g as int, other.g as int, other.a as int)
                &&& c.b as int == mix_channel(self.b as int, other.b as int, other.a as int)
                &&& c.a == self.a
            },
    {
        if other.a == 0 {
            return *self;
        }
        if other.a == 255 {
            return Color { r: other.r, g: other.g, b: other.b, a: self.a };
        }
        Color {
            r: mix_channel_exec(self.r, other.r, other.a),
            g: mix_channel_exec(self.g, other.g, other.a),
            b: mix_channel_exec(self.b, other.b, other.a),
            a: self.a,
        }
    }
}

/// One channel of [`Color::lerp`].
fn lerp_channel_exec(a: u8, b: u8, t: u64) -> (r: u8)
    requires
        t <= SCALE,
    ensures
        r as int == lerp_channel(a as int, b as int, t as int),
        lerp_channel(a as int, b as int, t as int) <= 255,
{
    proof {
        vstd::arithmetic::mul::lemma_mul_inequality(a as int, 255, (SCALE - t) as int);
        vstd::arithmetic::mul::lemma_mul_inequality(b as int, 255, t as int);
        assert(255 * ((SCALE - t) as int) + 255 * (t as int) == 255 * (SCALE as int))
            by (nonlinear_arith);
    }
    let n: u64 = (a as u64) * (SCALE - t) + (b as u64) * t + SCALE / 2;
    proof {
        vstd::arithmetic::div_mod::lemma_div_is_ordered(
            n as int,
            255 * (SCALE as int) + (SCALE as int) / 2,
            SCALE as int,
        );
    }
    (n / SCALE) as u8
}

/// One channel of [`Color::mix`].
fn mix_channel_exec(a: u8, b: u8, alpha: u8) -> (r: u8)
    requires
        alpha < 255,
    ensures
        r as int == mix_channel(a as int, b as int, alpha as int),
        mix_channel(a as int, b as int, alpha as int) <= 255,
{
    proof {
        vstd::arithmetic::mul::lemma_mul_inequality(a as int, 255, 255 - alpha as int);
        vstd::arithmetic::mul::lemma_mul_inequality(b as int, 255, alpha as int);
        assert(255 * (255 - alpha as int) + 255 * (alpha as int) == 255 * 255)
            by (nonlinear_arith);
    }
    let n: u32 = (a as u32) * (255 - alpha as u32) + (b as u32) * (alpha as u32) + 127;
    proof {
        vstd::arithmetic::div_mod::lemma_div_is_ordered(n as int, 255int * 255 + 127, 255int);
    }
    (n / 255) as u8
}

/// Theme: an indexed list of colors.
#[derive(Debug, Clone)]
pub struct Theme {
    pub colors_list: Vec<Color>,
}

/// Challenge time period, in ticks.
#[derive(Debug, Clone, Copy)]
pub struct ChallengeTime {
    pub check_point: u64,
    pub start: u64,
    pub end: u64,
    pub trans_time: u64,
}

/// Tempo-shift breakpoint: at tick `time` the tick rate becomes the base
/// rate times `value`; `floor_position` is the wall-clock seconds that
/// correspond to `time` under the mapping of all shifts up to this one.
#[derive(Debug, Clone, Copy)]
pub struct BpmShift {
    /// Tick at which this shift begins, in units.
    pub time: u64,
    /// Tempo multiplier relative to the base rate, in units.
    pub value: u64,
    /// Easing-curve index, carried for forward compatibility; the temporal
    /// mapper itself never reads it.
    pub ease_type: u8,
    /// Wall-clock seconds corresponding to `time`, in units.
    pub floor_position: u64,
}

/// Keyframe of a line path: position, color and departure curve.
#[derive(Debug, Clone, Copy)]
pub struct LinePoint {
    /// Tick, in units.
    pub time: u64,
    /// Horizontal position, in units.
    pub x_position: i64,
    pub color: Color,
    pub ease_type: u8,
    pub canvas_index: usize,
    /// Floor position as stored in the chart file, in units.
    pub floor_position: i64,
    /// Cached floor position computed at runtime, in units.
    pub fp: Option<i64>,
    /// Cached mixed color computed at runtime.
    pub mix_color: Option<Color>,
}

/// Note kinds of the chart format.
#[derive(Debug, Clone, Copy, PartialEq, Eq, Structural)]
pub enum NoteType {
    Tap,
    Drag,
    Hold,
}

impl From<u8> for NoteType {
    /// Total decoding of the chart format's numeric note kind: 0 is `Tap`,
    /// 1 is `Drag`, 2 is `Hold`, anything else falls back to `Tap`.
    fn from(value: u8) -> (t: NoteType) {
        match value {
            0 => NoteType::Tap,
            1 => NoteType::Drag,
            2 => NoteType::Hold,
            _ => NoteType::Tap,
        }
    }
}

impl vstd::std_specs::convert::FromSpecImpl<u8> for NoteType {
    open spec fn obeys_from_spec() -> bool {
        true
    }

    open spec fn from_spec(value: u8) -> NoteType {
        if value == 1 {
            NoteType::Drag
        } else if value == 2 {
            NoteType::Hold
        } else {
            NoteType::Tap
        }
    }
}

/// Note in the chart.
#[derive(Debug, Clone)]
pub struct Note {
    /// Numeric note kind as stored in the chart file.
    pub note_type: u8,
    /// Tick, in units.
    pub time: u64,
    /// Floor position as stored in the chart file, in units.
    pub floor_position: i64,
    /// Extra data: for hold notes, end tick and optionally end canvas index.
    pub other_informations: Vec<i64>,
}

/// Color-transition segment for the judge ring.
#[derive(Debug, Clone, Copy)]
pub struct JudgeRingColor {
    pub start_color: Color,
    pub end_color: Color,
    /// Tick at which this segment's blend begins, in units.
    pub time: u64,
}

/// Color-transition segment for a line.
#[derive(Debug, Clone, Copy)]
pub struct LineColor {
    pub start_color: Color,
    pub end_color: Color,
    /// Tick at which this segment's blend begins, in units.
    pub time: u64,
}

/// Line: path keyframes, notes and color-transition lists.
#[derive(Debug, Clone)]
pub struct Line {
    pub line_points: Vec<LinePoint>,
    pub notes: Vec<Note>,
    pub judge_ring_color: Vec<JudgeRingColor>,
    pub line_color: Vec<LineColor>,
}

/// Keyframe of a scalar track (position, scale or speed).
#[derive(Debug, Clone, Copy)]
pub struct KeyPoint {
    /// Tick, in units.
    pub time: u64,
    /// Track value, in units.
    pub value: i64,
    /// Curve index governing departure from this keyframe.
    pub ease_type: u8,
    /// Floor position as stored in the chart file, in units.
    pub floor_position: i64,
    /// Cached floor position computed at runtime, in units.
    pub fp: Option<i64>,
}

/// Canvas movement: a horizontal-position track and a scroll-speed track.
#[derive(Debug, Clone)]
pub struct CanvasMove {
    pub index: usize,
    pub x_position_key_points: Vec<KeyPoint>,
    pub speed_key_points: Vec<KeyPoint>,
}

/// Camera movement: a scale track and a horizontal-position track.
#[derive(Debug, Clone)]
pub struct CameraMove {
    pub scale_key_points: Vec<KeyPoint>,
    pub x_position_key_points: Vec<KeyPoint>,
}

/// The whole chart.
#[derive(Debug, Clone)]
pub struct Chart {
    pub file_version: u32,
    pub songs_name: String,
    pub themes: Vec<Theme>,
    pub challenge_times: Vec<ChallengeTime>,
    /// Base tempo, beats per minute, in units.
    pub bpm: u64,
    pub bpm_shifts: Vec<BpmShift>,
    /// Audio offset in seconds, in units.
    pub offset: i64,
    pub lines: Vec<Line>,
    pub canvas_moves: Vec<CanvasMove>,
    pub camera_move: CameraMove,
}

} // verus!
