use smart_road::stats::{
    apply_event, Stats, StatsEvent, StatsSession, VehicleSample, UNSET_MIN_KEY,
};
use smart_road::stats_window::{
    stats_window_dimensions, text_height_px, text_width_px, BODY_TEXT_SCALE, EMPTY_LINE_STEP,
    FOOTER_TEXT, FOOTER_TEXT_SCALE, LINE_STEP, MARGIN_X, MARGIN_Y, TITLE_TEXT,
};
use smart_road::vehicle::{VehicleId, VehicleState};

fn key(value: f32) -> Option<u32> {
    Some(value.to_bits())
}

fn value(key: u32) -> f32 {
    f32::from_bits(key)
}

fn sample(id: u64, state: VehicleState, velocity: f32) -> VehicleSample {
    VehicleSample { id: VehicleId(id), state, velocity: key(velocity) }
}

#[test]
fn vehicle_exit_updates_passed_count_and_crossing_bounds() {
    let mut stats = Stats::new();
    apply_event(
        &mut stats,
        StatsEvent::VehicleExited { id: VehicleId(1), crossing_time: key(2.5), peak_velocity: key(100.0) },
    );
    apply_event(
        &mut stats,
        StatsEvent::VehicleExited { id: VehicleId(2), crossing_time: key(1.0), peak_velocity: key(80.0) },
    );

    assert_eq!(stats.vehicles_passed, 2);
    assert_eq!(stats.max_vehicles_passed, 2);
    assert_eq!(value(stats.max_crossing_time), 2.5);
    assert_eq!(value(stats.min_crossing_time), 1.0);
    assert_eq!(value(stats.max_velocity), 100.0);
    assert_eq!(value(stats.min_velocity), 80.0);
}

#[test]
fn velocity_samples_track_min_and_max() {
    let mut stats = Stats::new();
    for v in [120.0, 60.0, 90.0] {
        apply_event(&mut stats, StatsEvent::VelocitySample { id: VehicleId(1), v: key(v) });
    }

    assert_eq!(value(stats.max_velocity), 120.0);
    assert_eq!(value(stats.min_velocity), 60.0);
}

#[test]
fn close_call_increments_counter() {
    let mut stats = Stats::new();
    apply_event(&mut stats, StatsEvent::CloseCall { ids: (VehicleId(1), VehicleId(2)) });
    assert_eq!(stats.close_calls, 1);
}

#[test]
fn close_call_deduplicates_vehicle_pairs() {
    let mut session = StatsSession::new();
    session.record_close_call(VehicleId(1), VehicleId(2));
    session.record_close_call(VehicleId(2), VehicleId(1));
    assert_eq!(session.stats.close_calls, 1);
}

#[test]
fn stats_session_records_managed_once_and_exit() {
    let mut session = StatsSession::new();
    let vehicle = sample(7, VehicleState::Managed, 100.0);

    session.observe_vehicles(std::slice::from_ref(&vehicle));
    session.observe_vehicles(std::slice::from_ref(&vehicle));
    session.record_exit(vehicle.id, key(1.5));

    assert_eq!(session.stats.vehicles_passed, 1);
    assert_eq!(value(session.stats.max_velocity), 100.0);
}

#[test]
fn peak_concurrent_in_zone_tracks_managed_and_exiting() {
    let mut session = StatsSession::new();
    let vehicles = [
        sample(1, VehicleState::Managed, 100.0),
        sample(2, VehicleState::Exiting, 100.0),
    ];
    session.observe_vehicles(&vehicles);
    assert_eq!(session.stats.peak_concurrent_in_zone, 2);
}

#[test]
fn empty_statistics_hold_unset_minimums() {
    let stats = Stats::default();
    assert_eq!(stats.min_velocity, UNSET_MIN_KEY);
    assert_eq!(value(stats.min_velocity), f32::MAX);
    assert_eq!(stats.min_crossing_time, f32::MAX.to_bits());
    assert_eq!(stats.max_velocity, 0);
    assert_eq!(stats.vehicles_passed, 0);
}

#[test]
fn uncounted_samples_leave_bounds_alone() {
    let mut stats = Stats::new();
    apply_event(&mut stats, StatsEvent::VelocitySample { id: VehicleId(3), v: None });
    apply_event(
        &mut stats,
        StatsEvent::VehicleExited { id: VehicleId(3), crossing_time: None, peak_velocity: key(0.0) },
    );
    assert_eq!(stats.vehicles_passed, 1);
    assert_eq!(stats.min_crossing_time, UNSET_MIN_KEY);
    assert_eq!(stats.max_crossing_time, 0);
    assert_eq!(value(stats.min_velocity), 0.0);
}

#[test]
fn zone_entries_count_each_managed_vehicle_once() {
    let mut session = StatsSession::new();
    session.observe_vehicles(&[
        sample(1, VehicleState::Approaching, 50.0),
        sample(2, VehicleState::Managed, 60.0),
        sample(2, VehicleState::Managed, 60.0),
        sample(3, VehicleState::Done, 500.0),
    ]);
    session.observe_vehicles(&[sample(2, VehicleState::Managed, 70.0), sample(1, VehicleState::Managed, 55.0)]);
    assert_eq!(session.stats.vehicles_entered_zone, 2);
    assert_eq!(session.stats.peak_concurrent_in_zone, 2);
    assert_eq!(value(session.stats.max_velocity), 70.0);
    assert_eq!(value(session.stats.min_velocity), 50.0);
}

#[test]
fn exit_uses_peak_velocity_and_forgets_the_vehicle() {
    let mut session = StatsSession::new();
    session.observe_vehicles(&[sample(4, VehicleState::Managed, 90.0)]);
    session.observe_vehicles(&[sample(4, VehicleState::Managed, 30.0)]);
    session.record_exit(VehicleId(4), key(2.0));
    assert_eq!(value(session.stats.min_velocity), 30.0);
    assert_eq!(value(session.stats.max_velocity), 90.0);
    session.record_exit(VehicleId(9), key(3.0));
    assert_eq!(session.stats.vehicles_passed, 2);
    assert_eq!(value(session.stats.min_velocity), 0.0);
    assert_eq!(value(session.stats.max_crossing_time), 3.0);
    assert_eq!(value(session.stats.min_crossing_time), 2.0);
    session.observe_vehicles(&[sample(4, VehicleState::Managed, 10.0)]);
    assert_eq!(session.stats.vehicles_entered_zone, 2);
}

#[test]
fn distinct_close_call_pairs_count_separately() {
    let mut session = StatsSession::default();
    session.record_close_call(VehicleId(1), VehicleId(2));
    session.record_close_call(VehicleId(1), VehicleId(3));
    session.record_close_call(VehicleId(3), VehicleId(1));
    session.record_close_call(VehicleId(u64::MAX), VehicleId(0));
    assert_eq!(session.stats.close_calls, 3);
}

#[test]
fn text_width_counts_glyph_advance() {
    assert_eq!(text_width_px("", 2), 0);
    assert_eq!(text_width_px("abc", 2), 54);
    assert_eq!(text_width_px("abc", 0), 27);
    assert_eq!(text_width_px("é", 1), 9);
    assert_eq!(text_width_px(TITLE_TEXT, BODY_TEXT_SCALE), 324);
    assert_eq!(text_width_px(FOOTER_TEXT, FOOTER_TEXT_SCALE), 297);
    assert_eq!(text_height_px(1), 8);
    assert_eq!(text_height_px(0), 8);
    assert_eq!(text_height_px(3), 24);
}

#[test]
fn stats_window_dimensions_fit_given_lines() {
    let lines: Vec<String> = vec![
        TITLE_TEXT.to_string(),
        String::new(),
        "Max number of vehicles that passed the intersection: 4".to_string(),
        "Close calls: 0".to_string(),
    ];
    let (width, height) = stats_window_dimensions(&lines);
    assert_eq!(width, 54 * 18 + 40);
    assert_eq!(height, (20 + 24 + 8 + 24 + 24 + 12 + 8 + 20) as u32);
    for line in &lines {
        if !line.is_empty() {
            assert!(text_width_px(line, BODY_TEXT_SCALE) + MARGIN_X * 2 <= width as i32);
        }
    }
    assert_eq!(stats_window_dimensions(&[]), (364, 60));
}

#[test]
fn stats_window_dimensions_fit_all_content() {
    let lines: Vec<String> = [
        "Session statistics",
        "",
        "Max number of vehicles that passed the intersection: 4",
        "Max velocity of all vehicles: 120.0",
        "Min velocity of all vehicles: 80.0",
        "Max time that took the vehicle to pass the intersection (s): 2.50",
        "Min time that took the vehicle to pass the intersection (s): 1.00",
        "Close calls: 0",
        "",
        "--- Additional statistics (bonus) ---",
        "Session duration (s): 12.00",
        "Avg crossing time (s): 1.75",
        "Peak concurrent in zone: 2",
        "Vehicles entered zone: 4",
    ]
    .iter()
    .map(|line| line.to_string())
    .collect();
    let (width, height) = stats_window_dimensions(&lines);

    for line in &lines {
        if line.is_empty() {
            continue;
        }
        assert!(
            text_width_px(line, BODY_TEXT_SCALE) + MARGIN_X * 2 <= width as i32,
            "line {:?} wider than window ({width}px)",
            line
        );
    }
    assert!(
        text_width_px(FOOTER_TEXT, FOOTER_TEXT_SCALE) + MARGIN_X * 2 <= width as i32,
        "footer wider than window"
    );

    let mut y = MARGIN_Y;
    for (index, line) in lines.iter().enumerate() {
        if index == 0 {
            y += LINE_STEP;
            continue;
        }
        if line.is_empty() {
            y += EMPTY_LINE_STEP;
        } else {
            y += LINE_STEP;
        }
    }
    y += smart_road::stats_window::FOOTER_TOP_GAP + text_height_px(FOOTER_TEXT_SCALE);
    assert!(y <= height as i32, "content height {y} exceeds window height {height}");
}

#[test]
fn mixed_event_sequence_counts_and_bounds_match_the_events() {
    let mut stats = Stats::new();
    let events = [
        StatsEvent::VehicleManaged { id: VehicleId(1) },
        StatsEvent::VelocitySample { id: VehicleId(1), v: key(90.0) },
        StatsEvent::VelocitySample { id: VehicleId(2), v: None },
        StatsEvent::CloseCall { ids: (VehicleId(1), VehicleId(2)) },
        StatsEvent::VehicleManaged { id: VehicleId(2) },
        StatsEvent::VehicleExited { id: VehicleId(1), crossing_time: key(3.0), peak_velocity: key(140.0) },
        StatsEvent::VelocitySample { id: VehicleId(2), v: key(45.0) },
        StatsEvent::VehicleExited { id: VehicleId(2), crossing_time: None, peak_velocity: None },
        StatsEvent::CloseCall { ids: (VehicleId(2), VehicleId(1)) },
    ];
    for event in events {
        apply_event(&mut stats, event);
    }
    assert_eq!(stats.vehicles_passed, 2);
    assert_eq!(stats.max_vehicles_passed, 2);
    assert_eq!(stats.close_calls, 2);
    assert_eq!(stats.vehicles_entered_zone, 2);
    assert_eq!(value(stats.max_velocity), 140.0);
    assert_eq!(value(stats.min_velocity), 45.0);
    assert_eq!(value(stats.max_crossing_time), 3.0);
    assert_eq!(value(stats.min_crossing_time), 3.0);
}
