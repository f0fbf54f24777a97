use smart_road::config::{
    APPROACH_ARM_LENGTH, APPROACH_MARGIN, EW_ARM_LENGTH, INTERSECTION_CENTER_X,
    INTERSECTION_CENTER_Y, INTERSECTION_HALF_SIZE, LANES_PER_APPROACH, LANE_WIDTH, ROAD_ARM_WIDTH,
    ROAD_WIDTH, SAFE_DISTANCE, STATS_WINDOW_TITLE, VEHICLE_LENGTH, VEHICLE_WIDTH, WINDOW_HEIGHT,
    WINDOW_TITLE, WINDOW_WIDTH,
};
use smart_road::render::{ROAD_ASSET_DIR, VEHICLE_ASSET_DIR};
use std::path::Path;

#[test]
fn window_dimensions_are_positive() {
    assert!(WINDOW_WIDTH > 0);
    assert!(WINDOW_HEIGHT > 0);
}

#[test]
fn road_width_matches_lane_count() {
    assert!(
        (ROAD_WIDTH as f32 - LANE_WIDTH as f32 * LANES_PER_APPROACH as f32).abs() < f32::EPSILON
    );
}

#[test]
fn arm_lengths_reach_window_margins() {
    let half = INTERSECTION_HALF_SIZE;
    assert!(
        ((APPROACH_ARM_LENGTH - (INTERSECTION_CENTER_Y - half - APPROACH_MARGIN)) as f32).abs()
            < f32::EPSILON
    );
    assert!(
        ((EW_ARM_LENGTH - (INTERSECTION_CENTER_X - half - APPROACH_MARGIN)) as f32).abs()
            < f32::EPSILON
    );
}

#[test]
fn safe_distance_is_positive_and_vehicle_scaled() {
    assert!(SAFE_DISTANCE > 0);
    assert!(
        SAFE_DISTANCE >= VEHICLE_LENGTH,
        "safe distance should be at least one vehicle length"
    );
}

#[test]
fn road_asset_paths_are_under_assets_dir() {
    let path = Path::new(ROAD_ASSET_DIR).join("intersection_core.bmp");
    assert!(path.starts_with("assets/roads"));
}

#[test]
fn layout_constants_fit_default_window() {
    let half = ROAD_ARM_WIDTH / 2;
    let ns_arm = APPROACH_ARM_LENGTH;
    let ew_arm = EW_ARM_LENGTH;
    assert!(INTERSECTION_CENTER_X - half - ew_arm >= 0);
    assert!(INTERSECTION_CENTER_X + half + ew_arm <= WINDOW_WIDTH as i32);
    assert!(INTERSECTION_CENTER_Y - half - ns_arm >= 0);
    assert!(INTERSECTION_CENTER_Y + half + ns_arm <= WINDOW_HEIGHT as i32);
}

#[test]
fn vehicle_asset_paths_are_under_assets_dir() {
    let path = Path::new(VEHICLE_ASSET_DIR).join("vehicle_east.bmp");
    assert!(path.starts_with("assets/vehicles"));
}

#[test]
fn vehicle_sprite_texture_is_authored_eastbound() {
    let w = VEHICLE_LENGTH;
    let h = VEHICLE_WIDTH;
    assert!(w > h, "default sprite is longer along +x (eastbound)");
}

#[test]
fn window_titles_and_default_size() {
    assert_eq!(WINDOW_WIDTH, 1024);
    assert_eq!(WINDOW_HEIGHT, 768);
    assert_eq!(WINDOW_TITLE, "smart-road");
    assert_ne!(STATS_WINDOW_TITLE, WINDOW_TITLE);
    assert!(STATS_WINDOW_TITLE.contains("statistics"));
}

#[test]
fn layout_constants_agree_with_each_other() {
    assert_eq!(ROAD_WIDTH, LANE_WIDTH * LANES_PER_APPROACH as i32);
    assert_eq!(ROAD_ARM_WIDTH, 2 * ROAD_WIDTH);
    assert_eq!(INTERSECTION_HALF_SIZE * 2, ROAD_ARM_WIDTH);
    assert_eq!(INTERSECTION_CENTER_X * 2, WINDOW_WIDTH as i32);
    assert_eq!(INTERSECTION_CENTER_Y * 2, WINDOW_HEIGHT as i32);
    assert_eq!(APPROACH_ARM_LENGTH, 216);
    assert_eq!(EW_ARM_LENGTH, 344);
}
