use rzl_core::chart::{BpmShift, Color, KeyPoint, LineColor, NoteType};
use rzl_core::easing;
use rzl_core::fixed::SCALE;
use rzl_core::game;
use rzl_core::game::GameState;
use rzl_core::timing;

fn unit_shift() -> Vec<BpmShift> {
    vec![BpmShift { time: 0, value: 1_000_000, ease_type: 0, floor_position: 0 }]
}

const BPM_120: u64 = 120_000_000;

fn key(time: u64, value: i64) -> KeyPoint {
    KeyPoint { time, value, ease_type: 0, floor_position: 0, fp: None }
}

#[test]
fn easing_endpoints_all_curves() {
    for ease_type in 0u8..19u8 {
        let at0 = easing::apply_ease(ease_type, 0);
        let at1 = easing::apply_ease(ease_type, SCALE);
        if ease_type == 13 {
            assert_eq!(at0, 0);
            assert_eq!(at1, 0);
        } else if ease_type == 14 {
            assert_eq!(at0, SCALE);
            assert_eq!(at1, SCALE);
        } else {
            assert_eq!(at0, 0);
            assert_eq!(at1, SCALE);
        }
    }
}

#[test]
fn easing_stays_in_unit_interval() {
    for ease_type in 0u8..19u8 {
        for t in [0u64, 1, 137, 250_000, 500_000, 750_000, 999_999, 1_000_000, 5_000_000] {
            let r = easing::apply_ease(ease_type, t);
            assert!(r <= SCALE);
        }
    }
}

#[test]
fn easing_power_curve_values() {
    assert_eq!(easing::linear(123_456), 123_456);
    assert_eq!(easing::ease_in_quad(500_000), 250_000);
    assert_eq!(easing::ease_out_quad(250_000), 437_500);
    assert_eq!(easing::ease_in_out_quad(250_000), 125_000);
    assert_eq!(easing::ease_in_out_quad(750_000), 875_000);
    assert_eq!(easing::ease_in_cubic(500_000), 125_000);
    assert_eq!(easing::ease_out_cubic(500_000), 875_000);
    assert_eq!(easing::ease_in_out_cubic(250_000), 62_500);
    assert_eq!(easing::ease_in_quart(500_000), 62_500);
    assert_eq!(easing::ease_in_out_quart(250_000), 31_248);
    assert_eq!(easing::ease_in_quint(500_000), 31_250);
    assert_eq!(easing::ease_in_out_quint(250_000), 15_616);
}

#[test]
fn easing_constant_curves() {
    assert_eq!(easing::ease_zero(700_000), 0);
    assert_eq!(easing::ease_one(700_000), SCALE);
}

#[test]
fn easing_circular_values() {
    assert_eq!(easing::ease_in_circ(0), 0);
    assert_eq!(easing::ease_in_circ(SCALE), SCALE);
    assert_eq!(easing::ease_in_circ(500_000), 133_975);
    assert_eq!(easing::ease_out_circ(500_000), 866_025);
}

#[test]
fn easing_sine_values() {
    assert_eq!(easing::ease_out_sine(500_000), 705_882);
    assert_eq!(easing::ease_in_sine(500_000), 294_118);
    assert_eq!(easing::ease_out_sine(0), 0);
    assert_eq!(easing::ease_out_sine(SCALE), SCALE);
}

#[test]
fn easing_out_of_range_index_falls_back_to_linear() {
    assert_eq!(easing::apply_ease(19, 123_456), 123_456);
    assert_eq!(easing::apply_ease(255, 777_777), 777_777);
}

#[test]
fn easing_clamps_progress() {
    assert_eq!(easing::apply_ease(0, 5_000_000), SCALE);
}

#[test]
fn lerp_interpolates_scalars() {
    assert_eq!(easing::lerp(0, 1_000_000, 500_000), 500_000);
    assert_eq!(easing::lerp(-1_000_000, 1_000_000, 250_000), -500_000);
    assert_eq!(easing::lerp(10, 10, 999_999), 10);
}

#[test]
fn seconds_to_tick_single_unit_shift() {
    // one second at 120 beats per minute is two ticks
    let shifts = unit_shift();
    assert_eq!(timing::seconds_to_tick(1_000_000, &shifts, BPM_120), 2_000_000);
}

#[test]
fn seconds_to_tick_without_shifts() {
    let shifts: Vec<BpmShift> = vec![];
    assert_eq!(timing::seconds_to_tick(1_000_000, &shifts, BPM_120), 2_000_000);
    assert_eq!(timing::seconds_to_tick(0, &shifts, BPM_120), 0);
}

#[test]
fn tick_to_seconds_without_shifts() {
    let shifts: Vec<BpmShift> = vec![];
    assert_eq!(timing::tick_to_seconds(2_000_000, &shifts, BPM_120), 1_000_000);
}

#[test]
fn temporal_mapping_between_shifts() {
    // double tempo from tick 8: seconds 0..4 cover ticks 0..8
    let shifts = vec![
        BpmShift { time: 0, value: 1_000_000, ease_type: 0, floor_position: 0 },
        BpmShift { time: 8_000_000, value: 2_000_000, ease_type: 0, floor_position: 4_000_000 },
    ];
    assert_eq!(timing::seconds_to_tick(2_000_000, &shifts, BPM_120), 4_000_000);
    assert_eq!(timing::tick_to_seconds(4_000_000, &shifts, BPM_120), 2_000_000);
    // beyond the last shift the doubled rate extrapolates: 4 ticks per second
    assert_eq!(timing::seconds_to_tick(5_000_000, &shifts, BPM_120), 12_000_000);
    assert_eq!(timing::tick_to_seconds(12_000_000, &shifts, BPM_120), 5_000_000);
}

#[test]
fn temporal_round_trip_is_close() {
    let shifts = vec![
        BpmShift { time: 0, value: 1_000_000, ease_type: 0, floor_position: 0 },
        BpmShift { time: 7_000_000, value: 3_000_000, ease_type: 0, floor_position: 3_500_000 },
        BpmShift { time: 19_000_000, value: 500_000, ease_type: 0, floor_position: 5_500_000 },
    ];
    for s in [1u64, 17, 999_999, 1_000_000, 3_499_999, 3_500_001, 4_123_457, 5_499_999, 7_777_777]
    {
        let t = timing::seconds_to_tick(s, &shifts, BPM_120);
        let back = timing::tick_to_seconds(t, &shifts, BPM_120);
        assert!(back <= s + 1);
        // within one tick's worth of seconds plus rounding
        assert!(s - back.min(s) <= 3);
    }
}

#[test]
fn find_value_fallbacks() {
    let empty: Vec<KeyPoint> = vec![];
    assert_eq!(timing::find_value(500, &empty), 0);
    let single = vec![key(1_000_000, 42)];
    assert_eq!(timing::find_value(999_999, &single), 0);
    assert_eq!(timing::find_value(1_000_000, &single), 42);
    assert_eq!(timing::find_value(2_000_000, &single), 42);
}

#[test]
fn find_value_interpolates_with_left_curve() {
    let keys = vec![key(0, 0), key(2_000_000, 1_000_000)];
    assert_eq!(timing::find_value(1_000_000, &keys), 500_000);
    assert_eq!(timing::find_value(0, &keys), 0);
    assert_eq!(timing::find_value(2_000_000, &keys), 1_000_000);
    assert_eq!(timing::find_value(3_000_000, &keys), 1_000_000);
}

#[test]
fn find_value_honors_hold_curves() {
    // the zero curve holds the left value, the one curve jumps to the right
    let mut hold = vec![key(0, 111), key(2_000_000, 999)];
    hold[0].ease_type = 13;
    assert_eq!(timing::find_value(1_500_000, &hold), 111);
    hold[0].ease_type = 14;
    assert_eq!(timing::find_value(1_500_000, &hold), 999);
}

#[test]
fn find_value_before_first_is_zero() {
    let keys = vec![key(1_000_000, 7), key(2_000_000, 9)];
    assert_eq!(timing::find_value(500_000, &keys), 0);
}

#[test]
fn recalculate_fps_speed_scenario() {
    // speed 1 until tick 4 (two seconds at 120 bpm), then speed 2
    let mut keys = vec![key(0, 1_000_000), key(4_000_000, 2_000_000)];
    let shifts = unit_shift();
    timing::recalculate_fps(&mut keys, &shifts, BPM_120);
    assert_eq!(keys[0].fp, Some(0));
    assert_eq!(keys[1].fp, Some(2_000_000));
    // three seconds in: two units from the cache plus one second at speed 2
    assert_eq!(timing::speed_to_fp(3_000_000, &keys, &shifts, BPM_120), 4_000_000);
}

#[test]
fn speed_to_fp_extrapolates_backward_before_first_key() {
    // a query before the first keyframe's wall-clock time walks backward
    // from the last keyframe
    let mut keys = vec![key(2_000_000, 1_000_000)];
    let shifts = unit_shift();
    timing::recalculate_fps(&mut keys, &shifts, BPM_120);
    // the keyframe sits at one second; half a second earlier the distance
    // is negative
    assert_eq!(timing::speed_to_fp(500_000, &keys, &shifts, BPM_120), -500_000);
}

#[test]
fn color_lerp_rounds_to_nearest() {
    let white = Color { r: 255, g: 255, b: 255, a: 255 };
    let black = Color { r: 0, g: 0, b: 0, a: 255 };
    let mid = white.lerp(&black, 500_000);
    assert_eq!(mid, Color { r: 128, g: 128, b: 128, a: 255 });
    let same = white.lerp(&white, 731_000);
    assert_eq!(same, white);
}

#[test]
fn color_mix_alpha_zero_is_identity() {
    let base = Color { r: 10, g: 20, b: 30, a: 200 };
    let other = Color { r: 99, g: 88, b: 77, a: 0 };
    assert_eq!(base.mix(&other), base);
}

#[test]
fn color_mix_alpha_full_replaces_rgb_keeps_alpha() {
    let base = Color { r: 10, g: 20, b: 30, a: 200 };
    let other = Color { r: 99, g: 88, b: 77, a: 255 };
    assert_eq!(base.mix(&other), Color { r: 99, g: 88, b: 77, a: 200 });
}

#[test]
fn color_mix_blends_by_source_alpha() {
    let base = Color { r: 100, g: 150, b: 200, a: 77 };
    let other = Color { r: 30, g: 60, b: 90, a: 128 };
    assert_eq!(base.mix(&other), Color { r: 65, g: 105, b: 145, a: 77 });
}

#[test]
fn note_type_from_index() {
    assert_eq!(NoteType::from(0u8), NoteType::Tap);
    assert_eq!(NoteType::from(1u8), NoteType::Drag);
    assert_eq!(NoteType::from(2u8), NoteType::Hold);
    assert_eq!(NoteType::from(7u8), NoteType::Tap);
}

#[test]
fn line_color_two_segment_scenario() {
    let white = Color { r: 255, g: 255, b: 255, a: 255 };
    let black = Color { r: 0, g: 0, b: 0, a: 255 };
    let segs = vec![
        LineColor { start_color: white, end_color: black, time: 0 },
        LineColor { start_color: black, end_color: white, time: 10_000_000 },
    ];
    // halfway through the first window: mid gray
    let mid = game::get_current_line_color(&segs, 5_000_000);
    assert_eq!(mid, Some(Color { r: 128, g: 128, b: 128, a: 255 }));
    // at or past the last boundary: the last segment's end color
    assert_eq!(game::get_current_line_color(&segs, 15_000_000), Some(white));
}

#[test]
fn line_color_fallbacks() {
    let white = Color { r: 255, g: 255, b: 255, a: 255 };
    let black = Color { r: 0, g: 0, b: 0, a: 255 };
    let empty: Vec<LineColor> = vec![];
    assert_eq!(game::get_current_line_color(&empty, 3), None);
    let single = vec![LineColor { start_color: white, end_color: black, time: 5 }];
    assert_eq!(game::get_current_line_color(&single, 99), Some(white));
    let two = vec![
        LineColor { start_color: white, end_color: black, time: 1_000_000 },
        LineColor { start_color: black, end_color: white, time: 2_000_000 },
    ];
    // before the first window: its start color
    assert_eq!(game::get_current_line_color(&two, 0), Some(white));
}

#[test]
fn judge_ring_color_resolution() {
    let red = Color { r: 255, g: 0, b: 0, a: 255 };
    let blue = Color { r: 0, g: 0, b: 255, a: 255 };
    let segs = vec![
        rzl_core::chart::JudgeRingColor { start_color: red, end_color: blue, time: 0 },
        rzl_core::chart::JudgeRingColor { start_color: blue, end_color: red, time: 2_000_000 },
    ];
    let mid = game::get_current_judge_ring_color(&segs, 1_000_000);
    assert_eq!(mid, Some(Color { r: 128, g: 0, b: 128, a: 255 }));
}

#[test]
fn mixed_color_empty_list_keeps_point_color() {
    let point = Color { r: 1, g: 2, b: 3, a: 4 };
    let empty: Vec<LineColor> = vec![];
    assert_eq!(game::calculate_mixed_color(77, &point, &empty), point);
}

#[test]
fn mixed_color_full_alpha_line_replaces_rgb() {
    let point = Color { r: 1, g: 2, b: 3, a: 4 };
    let white = Color { r: 255, g: 255, b: 255, a: 255 };
    let segs = vec![LineColor { start_color: white, end_color: white, time: 0 }];
    assert_eq!(
        game::calculate_mixed_color(5, &point, &segs),
        Color { r: 255, g: 255, b: 255, a: 4 }
    );
}

#[test]
fn combo_score_breakpoints() {
    assert_eq!(game::calculate_combo(0), 0);
    assert_eq!(game::calculate_combo(1), 1);
    assert_eq!(game::calculate_combo(5), 5);
    assert_eq!(game::calculate_combo(6), 7);
    assert_eq!(game::calculate_combo(8), 11);
    assert_eq!(game::calculate_combo(9), 14);
    assert_eq!(game::calculate_combo(11), 20);
    assert_eq!(game::calculate_combo(12), 24);
    assert_eq!(game::calculate_combo(100), 376);
}

#[test]
fn empty_chart_defaults() {
    let chart = game::create_empty_chart();
    assert_eq!(chart.bpm, BPM_120);
    assert_eq!(chart.bpm_shifts.len(), 1);
    assert_eq!(chart.themes.len(), 1);
    assert_eq!(chart.themes[0].colors_list[0], Color { r: 255, g: 255, b: 255, a: 255 });
    assert_eq!(chart.canvas_moves.len(), 1);
    assert_eq!(chart.camera_move.scale_key_points[0].value, 1_000_000);
    assert!(chart.lines.is_empty());
}

#[test]
fn game_state_initial_values() {
    let state = GameState::new(game::create_empty_chart());
    assert_eq!(state.current_time, 0);
    assert!(!state.is_playing);
    assert_eq!(state.speed, 1_296_027);
    assert_eq!(state.revelation_size, 1_000_000);
    assert_eq!(state.canvas_states.len(), 1);
    assert_eq!(state.canvas_states[0].x, 0);
}

#[test]
fn game_state_tick_and_camera() {
    let mut state = GameState::new(game::create_empty_chart());
    state.current_time = 1_000_000;
    assert_eq!(state.current_tick(), 2_000_000);
    assert_eq!(state.camera_scale(), 1_000_000);
    assert_eq!(state.camera_move_x(), 0);
}

#[test]
fn theme_color_lookup_and_fallback() {
    let state = GameState::new(game::create_empty_chart());
    assert_eq!(state.get_challenge_time_index(), None);
    assert_eq!(state.get_theme_color(0), Color { r: 255, g: 255, b: 255, a: 255 });
    assert_eq!(state.get_theme_color(1), Color { r: 254, g: 212, b: 212, a: 255 });
    // past the color list: the default color
    assert_eq!(state.get_theme_color(9), Color { r: 0, g: 0, b: 0, a: 0 });
}

#[test]
fn challenge_time_selects_theme_index() {
    let mut chart = game::create_empty_chart();
    chart.challenge_times = vec![rzl_core::chart::ChallengeTime {
        check_point: 0,
        start: 1_000_000,
        end: 3_000_000,
        trans_time: 0,
    }];
    let mut state = GameState::new(chart);
    state.current_time = 1_000_000;  // tick 2_000_000, inside the period
    assert_eq!(state.get_challenge_time_index(), Some(1));
}

#[test]
fn canvas_states_follow_speed_track() {
    let mut chart = game::create_empty_chart();
    chart.canvas_moves[0].speed_key_points = vec![
        KeyPoint { time: 0, value: 1_000_000, ease_type: 0, floor_position: 0, fp: None },
        KeyPoint { time: 4_000_000, value: 2_000_000, ease_type: 0, floor_position: 0, fp: None },
    ];
    let mut state = GameState::new(chart);
    game::initialize_canvas_states(&mut state);
    assert_eq!(state.chart.canvas_moves[0].speed_key_points[1].fp, Some(2_000_000));
    state.current_time = 3_000_000;
    game::update_canvas_states(&mut state);
    assert_eq!(state.canvas_states[0].fp, 4_000_000);
    assert_eq!(state.canvas_states[0].x, 0);
}

#[test]
fn compute_line_point_places_point() {
    let state = GameState::new(game::create_empty_chart());
    let point = rzl_core::chart::LinePoint {
        time: 0,
        x_position: 500_000,
        color: Color { r: 9, g: 8, b: 7, a: 6 },
        ease_type: 3,
        canvas_index: 0,
        floor_position: 0,
        fp: Some(0),
        mix_color: None,
    };
    let empty: Vec<LineColor> = vec![];
    let computed = game::compute_line_point(
        &state,
        &point,
        0,
        0,
        &empty,
        1_080_000_000,
        1_920_000_000,
    );
    // half the screen width at unit zoom
    assert_eq!(computed.x, 540_000_000);
    assert_eq!(computed.y, 0);
    assert_eq!(computed.color, Color { r: 9, g: 8, b: 7, a: 6 });
    assert_eq!(computed.ease_type, 3);
}

#[test]
fn line_point_search_picks_last_at_or_before() {
    let mk = |time: u64| rzl_core::chart::LinePoint {
        time,
        x_position: 0,
        color: Color { r: 0, g: 0, b: 0, a: 0 },
        ease_type: 0,
        canvas_index: 0,
        floor_position: 0,
        fp: None,
        mix_color: None,
    };
    let points = vec![mk(0), mk(1_000_000), mk(2_000_000)];
    assert_eq!(game::find_line_points_for_time(&points, 1_500_000), 1);
    assert_eq!(game::find_line_points_for_time(&points, 5_000_000), 2);
    assert_eq!(game::find_line_points_for_time(&points, 0), 0);
    // every keyframe in the future: the last index stands in
    let late = vec![mk(1_000_000), mk(2_000_000)];
    assert_eq!(game::find_line_points_for_time(&late, 0), 1);
}

#[test]
fn distance_is_monotone_for_nonnegative_speeds() {
    // speeds 1, 0, 3 across ticks 0, 2, 6 at 120 bpm
    let mut keys = vec![key(0, 1_000_000), key(2_000_000, 0), key(6_000_000, 3_000_000)];
    let shifts = unit_shift();
    timing::recalculate_fps(&mut keys, &shifts, BPM_120);
    let mut last = i64::MIN;
    for timer in (0u64..=5_000_000).step_by(250_000) {
        let fp = timing::speed_to_fp(timer, &keys, &shifts, BPM_120);
        assert!(fp >= last);
        last = fp;
    }
    // plateau while the speed is zero, then slope three
    assert_eq!(timing::speed_to_fp(1_000_000, &keys, &shifts, BPM_120), 1_000_000);
    assert_eq!(timing::speed_to_fp(2_000_000, &keys, &shifts, BPM_120), 1_000_000);
    assert_eq!(timing::speed_to_fp(4_000_000, &keys, &shifts, BPM_120), 4_000_000);
}

#[test]
fn segment_boundary_is_continuous() {
    // approaching a keyframe from below converges onto its value
    let keys = vec![key(0, 0), key(1_000_000, 1_000_000), key(2_000_000, 500_000)];
    assert_eq!(timing::find_value(999_999, &keys), 999_999);
    assert_eq!(timing::find_value(1_000_000, &keys), 1_000_000);
    assert_eq!(timing::find_value(1_000_001, &keys), 1_000_000);
}
