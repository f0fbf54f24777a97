//! Window, layout and tunable simulation constants (world units are pixels at 1:1 scale).

use vstd::prelude::*;

verus! {

/// Application window title.
pub const WINDOW_TITLE: &'static str = "smart-road";

/// Title of the post-session statistics window.
pub const STATS_WINDOW_TITLE: &'static str = "smart-road statistics";

/// Default window width in pixels.
pub const WINDOW_WIDTH: u32 = 1024;

/// Default window height in pixels.
pub const WINDOW_HEIGHT: u32 = 768;

/// Target frames per second for the game loop.
pub const TARGET_FPS: u32 = 60;

/// Lane width in world units.
pub const LANE_WIDTH: i32 = 40;

/// Number of inbound lanes per approach (right, straight, left).
pub const LANES_PER_APPROACH: u32 = 3;

/// Total width of the inbound lanes of one approach.
pub const ROAD_WIDTH: i32 = 120;

/// Width of the inbound half of an arm.
pub const INBOUND_ROAD_WIDTH: i32 = 120;

/// Full arm width: three inbound plus three outbound lanes.
pub const ROAD_ARM_WIDTH: i32 = 240;

/// Half-width of the junction box (smart-system zone): half the full arm width (240), so that
/// the box spans all six lanes of each arm (three inbound, three outbound) that the lane paths
/// cross. Each vehicle must be detected when it enters the zone. Half the inbound width alone
/// (60) would put every right-turn lane (100 from the centre line) and its corner connector
/// wholly outside the box, so right-turning vehicles would never be detected, managed or
/// counted. The arm lengths below follow from this value.
pub const INTERSECTION_HALF_SIZE: i32 = 120;

/// Distance from the window edge to the near end of each approach arm.
pub const APPROACH_MARGIN: i32 = 48;

/// Intersection center in world coordinates.
pub const INTERSECTION_CENTER_X: i32 = 512;
pub const INTERSECTION_CENTER_Y: i32 = 384;

/// North/south arm length from the junction edge to the approach margin (follows from the
/// window height, the junction box and the margin).
pub const APPROACH_ARM_LENGTH: i32 = 216;

/// East/west arm length from the junction edge to the approach margin.
pub const EW_ARM_LENGTH: i32 = 344;

/// Distance beyond the window edge at which paths end and vehicles leave the canvas.
pub const OFF_SCREEN_MARGIN: i32 = 64;

/// Default cruise speed for newly spawned vehicles (world units per second).
pub const DEFAULT_SPAWN_VELOCITY: i32 = 120;

/// Minimum milliseconds between spawns on the same approach.
pub const SPAWN_COOLDOWN_MS: u64 = 400;

/// Vehicle sprite width in world units.
pub const VEHICLE_WIDTH: i32 = 22;

/// Vehicle sprite length in world units.
pub const VEHICLE_LENGTH: i32 = 36;

/// Minimum center-to-center gap between vehicles on the same lane.
pub const SAFE_DISTANCE: i32 = 40;

/// Distance to the junction edge at which an approaching vehicle queues for a reservation.
pub const RESERVATION_TRIGGER_DISTANCE: i32 = 200;

/// The layout constants agree with one another.
pub proof fn lemma_layout_consistent()
    ensures
        ROAD_WIDTH == LANE_WIDTH * LANES_PER_APPROACH,
        INBOUND_ROAD_WIDTH == ROAD_WIDTH,
        ROAD_ARM_WIDTH == 2 * INBOUND_ROAD_WIDTH,
        INTERSECTION_HALF_SIZE * 2 == ROAD_ARM_WIDTH,
        INTERSECTION_CENTER_X * 2 == WINDOW_WIDTH,
        INTERSECTION_CENTER_Y * 2 == WINDOW_HEIGHT,
        APPROACH_ARM_LENGTH == INTERSECTION_CENTER_Y - INTERSECTION_HALF_SIZE - APPROACH_MARGIN,
        EW_ARM_LENGTH == INTERSECTION_CENTER_X - INTERSECTION_HALF_SIZE - APPROACH_MARGIN,
        SAFE_DISTANCE > 0,
        SAFE_DISTANCE >= VEHICLE_LENGTH,
{
}

} // verus!
