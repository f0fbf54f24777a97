use smart_road::config::DEFAULT_SPAWN_VELOCITY;
use smart_road::intersection::{lane_id, spawn_point_for, Cardinal, Point, Route};
use smart_road::render::{dash_spans, lane_label_screen_pos, lane_width_i, vehicle_asset_name};
use smart_road::vehicle::{uses_follow_distance, VehicleId, VehicleState, VelocityLevel};
use std::collections::HashSet;

#[test]
fn consecutive_vehicles_get_three_distinct_speeds() {
    let speeds: HashSet<u32> = (1..=3u64)
        .map(|id| VelocityLevel::for_vehicle(VehicleId(id)).speed())
        .collect();
    assert_eq!(speeds.len(), 3);
    assert_eq!(VelocityLevel::Fast.speed(), 168);
    assert_eq!(VelocityLevel::Cruise.speed(), DEFAULT_SPAWN_VELOCITY as u32);
    assert_eq!(VelocityLevel::Yield.speed(), 60);
}

#[test]
fn speed_levels_cycle_by_vehicle_number() {
    assert_eq!(VelocityLevel::for_vehicle(VehicleId(0)), VelocityLevel::Fast);
    assert_eq!(VelocityLevel::for_vehicle(VehicleId(1)), VelocityLevel::Cruise);
    assert_eq!(VelocityLevel::for_vehicle(VehicleId(2)), VelocityLevel::Yield);
    assert_eq!(VelocityLevel::for_vehicle(VehicleId(u64::MAX)), VelocityLevel::Fast);
}

#[test]
fn follow_distance_applies_outside_the_managed_zone() {
    assert!(uses_follow_distance(VehicleState::Approaching));
    assert!(uses_follow_distance(VehicleState::Exiting));
    assert!(!uses_follow_distance(VehicleState::Managed));
    assert!(!uses_follow_distance(VehicleState::Done));
}

#[test]
fn each_approach_has_its_own_sprite_file() {
    assert_eq!(vehicle_asset_name(Cardinal::South), "vehicle_south.bmp");
    assert_eq!(vehicle_asset_name(Cardinal::East), "vehicle_east.bmp");
    let names: HashSet<_> = Cardinal::ALL.iter().map(|a| vehicle_asset_name(*a)).collect();
    assert_eq!(names.len(), 4);
    assert_eq!(lane_width_i(), 40);
}

#[test]
fn lane_labels_sit_inside_the_approach_arm() {
    let north = spawn_point_for(Cardinal::North, Route::Right);
    assert_eq!(lane_label_screen_pos(north, Cardinal::North, 28, 20), (398, 118));
    assert_eq!(lane_label_screen_pos(Point::new(100, 0), Cardinal::North, 28, 400), (86, 24));
    let south = spawn_point_for(Cardinal::South, Route::Left);
    assert_eq!(lane_label_screen_pos(south, Cardinal::South, 28, 20), (518, 630));
    let east = spawn_point_for(Cardinal::East, Route::Straight);
    assert_eq!(lane_label_screen_pos(east, Cardinal::East, 28, 20), (882, 314));
    let west = spawn_point_for(Cardinal::West, Route::Straight);
    assert_eq!(lane_label_screen_pos(west, Cardinal::West, 28, 20), (114, 434));
    assert_eq!(lane_id(Cardinal::West, Route::Straight).0, 10);
}

#[test]
fn dashed_markings_alternate_dash_and_gap() {
    assert_eq!(dash_spans(0, 50), vec![(0, 12), (22, 34), (44, 50)]);
    assert_eq!(dash_spans(50, 0), vec![(0, 12), (22, 34), (44, 50)]);
    assert_eq!(dash_spans(10, 10), vec![]);
    assert_eq!(dash_spans(-30, -8), vec![(-30, -18)]);
    assert_eq!(dash_spans(0, 23), vec![(0, 12), (22, 23)]);
}
