use smart_road::config::SPAWN_COOLDOWN_MS;
use smart_road::intersection::{lane_id, Cardinal, LaneId, Route};
use smart_road::smart::Occupant;
use smart_road::spawn::{
    lane_has_room, saturate_nanos, seed_from_reading, RouteCycle, SpawnControl, SpawnCooldown,
    SpawnRequest, SpawnRng, LANE_CAPACITY, SPAWN_COOLDOWN_NS,
};
use smart_road::vehicle::{VehicleId, VehicleState};

fn on_lane(id: u64, lane: LaneId, state: VehicleState) -> Occupant {
    Occupant {
        id: VehicleId(id),
        lane_id: lane,
        state,
        reservation_granted: false,
        in_zone: false,
        in_trigger: false,
        zone_distance: 0,
        reservation_hold: false,
        in_stop_range: false,
        stopped: false,
    }
}

#[test]
fn spawn_request_carries_lane_id() {
    let req = SpawnRequest::new(Cardinal::South, Route::Straight);
    assert_eq!(req.approach, Cardinal::South);
    assert_eq!(req.route, Route::Straight);
    assert_eq!(req.lane_id, lane_id(Cardinal::South, Route::Straight));
}

#[test]
fn cooldown_blocks_rapid_same_direction_spawns() {
    let mut cooldown = SpawnCooldown::new();
    let t0 = cooldown.now_ns();
    assert!(cooldown.allows_at(Cardinal::South, t0));
    cooldown.record_at(Cardinal::South, t0);
    assert!(!cooldown.allows_at(Cardinal::South, t0));
    let t1 = t0 + SPAWN_COOLDOWN_MS * 1_000_000;
    assert!(cooldown.allows_at(Cardinal::South, t1));
}

#[test]
fn cooldown_is_per_direction() {
    let mut cooldown = SpawnCooldown::new();
    let t0 = cooldown.now_ns();
    cooldown.record_at(Cardinal::South, t0);
    assert!(!cooldown.allows_at(Cardinal::South, t0));
    assert!(cooldown.allows_at(Cardinal::North, t0));
    assert!(cooldown.allows_at(Cardinal::West, t0));
    assert!(cooldown.allows_at(Cardinal::East, t0));
}

#[test]
fn cooldown_boundary_and_clock_going_backwards() {
    let mut cooldown = SpawnCooldown::new();
    cooldown.record_at(Cardinal::East, 1_000);
    assert!(!cooldown.allows_at(Cardinal::East, 400_000_999));
    assert!(cooldown.allows_at(Cardinal::East, 400_001_000));
    assert_eq!(SPAWN_COOLDOWN_NS, 400_000_000);
    assert!(!cooldown.allows_at(Cardinal::East, 10));
    cooldown.clear(Cardinal::East);
    assert!(cooldown.allows_at(Cardinal::East, 10));
}

#[test]
fn fresh_cooldown_allows_now_and_record_blocks_now() {
    let mut cooldown = SpawnCooldown::default();
    assert!(cooldown.allows(Cardinal::West));
    cooldown.record(Cardinal::West);
    assert!(cooldown.allows(Cardinal::North));
}

#[test]
fn spawn_control_numbers_admitted_spawns_and_applies_cooldown() {
    let mut control = SpawnControl::new();
    let req = SpawnRequest::new(Cardinal::South, Route::Straight);
    assert_eq!(control.try_spawn_at(req, 0, true, false), Some(VehicleId(1)));
    assert_eq!(control.try_spawn_at(req, 100_000_000, true, false), None);
    let other = SpawnRequest::new(Cardinal::North, Route::Straight);
    assert_eq!(control.try_spawn_at(other, 100_000_000, true, false), Some(VehicleId(2)));
    assert_eq!(control.try_spawn_at(req, 400_000_000, true, false), Some(VehicleId(3)));
}

#[test]
fn spawn_control_rejects_full_lane_and_crowded_spawn_point() {
    let mut control = SpawnControl::new();
    let req = SpawnRequest::new(Cardinal::West, Route::Left);
    assert_eq!(control.try_spawn_at(req, 0, false, false), None);
    assert_eq!(control.try_spawn_at(req, 0, true, true), None);
    assert_eq!(control.try_spawn_at(req, 0, true, false), Some(VehicleId(1)));
}

#[test]
fn spawn_control_try_spawn_on_fresh_approach_succeeds() {
    let mut control = SpawnControl::new();
    let req = SpawnRequest::new(Cardinal::East, Route::Right);
    assert_eq!(control.try_spawn(req, true, false), Some(VehicleId(1)));
    assert_eq!(control.try_spawn(req, true, false), None);
    control.force_cooldowns_expired();
    assert_eq!(control.try_spawn(req, true, false), Some(VehicleId(2)));
}

#[test]
fn keyboard_spawns_rotate_routes_and_hold_on_rejection() {
    let mut control = SpawnControl::new();
    assert_eq!(control.route_for_approach(Cardinal::West), Route::Right);
    assert_eq!(control.spawn_on_approach_at(Cardinal::West, 0, true, false), Some(VehicleId(1)));
    assert_eq!(control.route_for_approach(Cardinal::West), Route::Straight);
    assert_eq!(control.spawn_on_approach_at(Cardinal::West, 10_000_000, true, false), None);
    assert_eq!(control.route_for_approach(Cardinal::West), Route::Straight);
    assert_eq!(control.spawn_on_approach_at(Cardinal::West, 500_000_000, true, false), Some(VehicleId(2)));
    assert_eq!(control.route_for_approach(Cardinal::West), Route::Left);
    assert_eq!(control.spawn_on_approach_at(Cardinal::West, 1_000_000_000, true, false), Some(VehicleId(3)));
    assert_eq!(control.route_for_approach(Cardinal::West), Route::Right);
    assert_eq!(control.route_for_approach(Cardinal::North), Route::Right);
}

#[test]
fn route_cycle_wraps_its_counter() {
    let mut cycle = RouteCycle::new();
    for _ in 0..256 {
        cycle.advance_route_for_approach(Cardinal::South);
    }
    assert_eq!(cycle.route_for_approach(Cardinal::South), Route::Right);
    cycle.advance_route_for_approach(Cardinal::South);
    assert_eq!(cycle.route_for_approach(Cardinal::South), Route::Straight);
    assert_eq!(cycle.route_for_approach(Cardinal::East), Route::Right);
}

#[test]
fn xorshift_generator_steps_exactly() {
    let mut rng = SpawnRng::with_state(1);
    assert_eq!(rng.next_u32(), 270369);
    assert_eq!(rng.next_u32(), 67634689);
    let mut rng = SpawnRng::with_state(1);
    assert_eq!(rng.pick_cardinal(), Cardinal::South);
    assert_eq!(rng.pick_route(), Route::Straight);
    assert_eq!(rng.pick_route(), Route::Right);
}

#[test]
fn random_requests_cover_all_approaches_and_routes() {
    let mut control = SpawnControl::new();
    let mut approaches = std::collections::HashSet::new();
    let mut routes = std::collections::HashSet::new();
    for _ in 0..80 {
        let req = control.pick_random_request();
        assert_eq!(req.lane_id, lane_id(req.approach, req.route));
        approaches.insert(req.approach);
        routes.insert(req.route);
    }
    assert_eq!(approaches.len(), 4);
    assert_eq!(routes.len(), 3);
}

#[test]
fn lane_capacity_counts_only_live_vehicles_on_the_lane() {
    let lane = LaneId(4);
    let mut vehicles: Vec<Occupant> = (0..LANE_CAPACITY as u64 - 1)
        .map(|i| on_lane(i, lane, VehicleState::Approaching))
        .collect();
    vehicles.push(on_lane(100, LaneId(5), VehicleState::Approaching));
    vehicles.push(on_lane(101, lane, VehicleState::Done));
    assert!(lane_has_room(&vehicles, lane));
    vehicles.push(on_lane(102, lane, VehicleState::Managed));
    assert!(!lane_has_room(&vehicles, lane));
    assert!(lane_has_room(&vehicles, LaneId(5)));
}

#[test]
fn spawn_on_approach_rotates_routes() {
    let mut control = SpawnControl::new();
    let expected = [Route::Right, Route::Straight, Route::Left, Route::Right];
    for &route in &expected {
        control.force_cooldowns_expired();
        let chosen = control.route_for_approach(Cardinal::West);
        let now = control.now_ns();
        control
            .spawn_on_approach_at(Cardinal::West, now, true, false)
            .expect("spawn should succeed after cooldown");
        assert_eq!(chosen, route);
    }
}

#[test]
fn spawn_on_approach_does_not_advance_route_on_cooldown_reject() {
    let mut control = SpawnControl::new();
    let first_route = control.route_for_approach(Cardinal::West);
    let now = control.now_ns();
    control
        .spawn_on_approach_at(Cardinal::West, now, true, false)
        .expect("first spawn should succeed");
    assert_eq!(first_route, Route::Right);

    assert!(control.spawn_on_approach_at(Cardinal::West, now, true, false).is_none());

    control.force_cooldowns_expired();
    let second_route = control.route_for_approach(Cardinal::West);
    control
        .spawn_on_approach_at(Cardinal::West, now, true, false)
        .expect("second spawn should succeed after cooldown");
    assert_eq!(second_route, Route::Straight);
}

#[test]
fn try_spawn_rejects_rapid_duplicate_on_same_approach() {
    let mut control = SpawnControl::new();
    let req = SpawnRequest::new(Cardinal::South, Route::Straight);
    assert!(control.try_spawn(req, true, false).is_some());
    assert!(control.try_spawn(req, true, false).is_none());
    assert_eq!(control.next_vehicle_number() - 1, 1);
}

#[test]
fn try_spawn_allows_different_approaches_without_cooldown_gap() {
    let mut control = SpawnControl::new();
    assert!(control
        .try_spawn(SpawnRequest::new(Cardinal::South, Route::Straight), true, false)
        .is_some());
    assert!(control
        .try_spawn(SpawnRequest::new(Cardinal::North, Route::Straight), true, false)
        .is_some());
    assert_eq!(control.next_vehicle_number() - 1, 2);
}

#[test]
fn spawn_random_respects_per_direction_cooldown() {
    let mut control = SpawnControl::new();
    let first = control.pick_random_request();
    control.try_spawn(first, true, false).expect("first random spawn");
    let approach = first.approach;

    assert!(control
        .try_spawn(SpawnRequest::new(approach, Route::Straight), true, false)
        .is_none());

    let other = Cardinal::ALL
        .iter()
        .copied()
        .find(|c| *c != approach)
        .expect("another approach exists");
    assert!(control
        .try_spawn(SpawnRequest::new(other, Route::Straight), true, false)
        .is_some());
    assert_eq!(control.next_vehicle_number() - 1, 2);

    control.force_cooldowns_expired();
    assert!(control
        .try_spawn(SpawnRequest::new(approach, Route::Left), true, false)
        .is_some());
    assert_eq!(control.next_vehicle_number() - 1, 3);
}

#[test]
fn spawn_random_produces_varied_approaches_and_routes() {
    let mut control = SpawnControl::new();
    let mut approaches = std::collections::HashSet::new();
    let mut routes = std::collections::HashSet::new();
    for _ in 0..80 {
        let req = control.pick_random_request();
        if control.try_spawn(req, true, false).is_some() {
            approaches.insert(req.approach);
            routes.insert(req.route);
        }
        control.force_cooldowns_expired();
    }
    assert_eq!(approaches.len(), Cardinal::ALL.len(), "all approaches appear");
    assert_eq!(routes.len(), Route::ALL.len(), "all routes appear");
}

#[test]
fn seed_takes_low_bits_of_wall_clock_reading() {
    assert_eq!(seed_from_reading(Some(12_345)), 12_345);
    assert_eq!(seed_from_reading(Some((1u128 << 32) + 5)), 5);
    assert_eq!(seed_from_reading(Some(1u128 << 40)), 1);
    assert_eq!(seed_from_reading(Some(0)), 1);
    assert_eq!(seed_from_reading(None), 1_000_000_000);
    let mut from_clock = SpawnRng::from_reading(Some(1));
    let mut fixed = SpawnRng::with_state(1);
    assert_eq!(from_clock.next_u32(), fixed.next_u32());
    let mut before_epoch = SpawnRng::from_reading(None);
    let mut one_second = SpawnRng::with_state(1_000_000_000);
    assert_eq!(before_epoch.next_u32(), one_second.next_u32());
}

#[test]
fn nanosecond_counts_saturate_at_u64_max() {
    assert_eq!(saturate_nanos(0), 0);
    assert_eq!(saturate_nanos(400_000_000), 400_000_000);
    assert_eq!(saturate_nanos(u64::MAX as u128), u64::MAX);
    assert_eq!(saturate_nanos(u64::MAX as u128 + 1), u64::MAX);
    assert_eq!(saturate_nanos(u128::MAX), u64::MAX);
}
