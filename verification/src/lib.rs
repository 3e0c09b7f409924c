//! Timing and interpolation core of a chart-driven rhythm-game player.
//!
//! The library converts between wall-clock seconds and tempo-relative ticks
//! under a piecewise tempo-shift list, resolves keyframe tracks with eased
//! interpolation, integrates scroll speed into a cumulative floor position,
//! and resolves time-indexed color-transition segments with alpha-aware
//! blending.  Every fractional quantity of the chart format is held in
//! fixed-point units of one millionth (see [`fixed`]).

pub mod chart;
pub mod easing;
pub mod fixed;
pub mod game;
pub mod timing;
