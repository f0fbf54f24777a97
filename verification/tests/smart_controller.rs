use smart_road::config::{INTERSECTION_CENTER_X, INTERSECTION_CENTER_Y};
use smart_road::intersection::{lane_id, Cardinal, IntersectionModel, LaneId, Point, Route};
use smart_road::smart::{
    build_lane_conflicts, lane_pair_key, point_in_polygon, HoldAction, Occupant, SmartController,
};
use smart_road::vehicle::{VehicleId, VehicleState};
use std::collections::HashSet;

fn occupant(id: u64, lane: LaneId, state: VehicleState) -> Occupant {
    Occupant {
        id: VehicleId(id),
        lane_id: lane,
        state,
        reservation_granted: false,
        in_zone: false,
        in_trigger: false,
        zone_distance: 0,
        reservation_hold: false,
        in_stop_range: false,
        stopped: false,
    }
}

fn waiting(id: u64, lane: LaneId, zone_distance: u32) -> Occupant {
    Occupant {
        in_trigger: true,
        zone_distance,
        ..occupant(id, lane, VehicleState::Approaching)
    }
}

fn ready_controller() -> SmartController {
    let model = IntersectionModel::new();
    let mut smart = SmartController::new();
    smart.ensure_lane_conflicts(&model);
    smart
}

fn square(n: usize, value: bool) -> Vec<Vec<bool>> {
    vec![vec![value; n]; n]
}

#[test]
fn point_in_polygon_detects_junction_center() {
    let model = IntersectionModel::new();
    let center = Point::new(INTERSECTION_CENTER_X, INTERSECTION_CENTER_Y);
    assert!(point_in_polygon(center, &model.zone_polygon));
}

#[test]
fn point_in_polygon_rejects_far_off_screen_point() {
    let model = IntersectionModel::new();
    assert!(!point_in_polygon(Point::new(-100, -100), &model.zone_polygon));
}

#[test]
fn point_in_polygon_zone_is_half_open_box() {
    let model = IntersectionModel::new();
    assert!(point_in_polygon(Point::new(392, 264), &model.zone_polygon));
    assert!(!point_in_polygon(Point::new(632, 384), &model.zone_polygon));
    assert!(!point_in_polygon(Point::new(512, 504), &model.zone_polygon));
    assert!(point_in_polygon(Point::new(631, 503), &model.zone_polygon));
    assert!(!point_in_polygon(Point::new(391, 300), &model.zone_polygon));
}

#[test]
fn build_lane_conflicts_marks_crossing_approaches() {
    let model = IntersectionModel::new();
    let conflicts = build_lane_conflicts(&model);
    let south_straight = lane_id(Cardinal::South, Route::Straight);
    let east_straight = lane_id(Cardinal::East, Route::Straight);
    assert!(conflicts.contains(&lane_pair_key(south_straight, east_straight)));
}

#[test]
fn build_lane_conflicts_covers_cross_intersection() {
    let model = IntersectionModel::new();
    let conflicts = build_lane_conflicts(&model);
    assert!(
        conflicts.len() > 10,
        "cross intersection should have many conflicting lane pairs"
    );
}

#[test]
fn build_lane_conflicts_lists_exact_pairs() {
    let model = IntersectionModel::new();
    let conflicts: HashSet<(u32, u32)> = build_lane_conflicts(&model).into_iter().collect();
    let expected: HashSet<(u32, u32)> = [
        (1, 5), (1, 7), (1, 10), (1, 11), (2, 4), (2, 5), (2, 7), (2, 8), (2, 11),
        (4, 7), (4, 8), (4, 10), (5, 8), (5, 10), (5, 11), (7, 11), (8, 10), (8, 11),
    ]
    .into_iter()
    .collect();
    assert_eq!(conflicts, expected);
    assert_eq!(build_lane_conflicts(&model).len(), 18);
}

#[test]
fn lane_pair_key_is_order_independent() {
    assert_eq!(lane_pair_key(LaneId(7), LaneId(4)), (4, 7));
    assert_eq!(lane_pair_key(LaneId(4), LaneId(7)), (4, 7));
}

#[test]
fn cross_paths_conflict_follows_geometry() {
    let smart = ready_controller();
    assert!(smart.cross_paths_conflict(LaneId(4), LaneId(7)));
    assert!(smart.cross_paths_conflict(LaneId(7), LaneId(4)));
    assert!(!smart.cross_paths_conflict(LaneId(4), LaneId(4)));
    assert!(!smart.cross_paths_conflict(LaneId(0), LaneId(3)));
}

#[test]
fn zone_entry_makes_approaching_vehicle_managed() {
    let mut smart = ready_controller();
    let mut vehicles = vec![Occupant {
        in_zone: true,
        ..occupant(1, LaneId(4), VehicleState::Approaching)
    }];
    smart.admit_zone_entries(&mut vehicles);
    assert_eq!(vehicles[0].state, VehicleState::Managed);
    assert!(!vehicles[0].reservation_granted);
}

#[test]
fn vehicle_outside_zone_is_not_admitted() {
    let mut smart = ready_controller();
    let mut vehicles = vec![occupant(1, LaneId(4), VehicleState::Approaching)];
    smart.admit_zone_entries(&mut vehicles);
    assert_eq!(vehicles[0].state, VehicleState::Approaching);
}

#[test]
fn blocked_intruder_without_reservation_stays_out() {
    let mut smart = ready_controller();
    let mut vehicles = vec![
        Occupant { in_zone: true, ..occupant(1, LaneId(7), VehicleState::Managed) },
        Occupant { in_zone: true, ..occupant(2, LaneId(4), VehicleState::Approaching) },
    ];
    smart.admit_zone_entries(&mut vehicles);
    assert_eq!(vehicles[1].state, VehicleState::Approaching);
    let retract = smart.zone_gate_retractions(&vehicles);
    assert_eq!(retract, vec![false, true]);
}

#[test]
fn managed_vehicle_leaving_zone_becomes_exiting() {
    let mut smart = ready_controller();
    let mut vehicles = vec![
        Occupant { reservation_granted: true, ..occupant(1, LaneId(4), VehicleState::Managed) },
        Occupant { in_zone: true, ..occupant(2, LaneId(7), VehicleState::Managed) },
    ];
    smart.release_zone_exits(&mut vehicles);
    assert_eq!(vehicles[0].state, VehicleState::Exiting);
    assert!(!vehicles[0].reservation_granted);
    assert_eq!(vehicles[1].state, VehicleState::Managed);
}

#[test]
fn gate_blocks_conflicting_candidate_while_zone_occupied() {
    let smart = ready_controller();
    let occupied = Occupant { in_zone: true, ..occupant(1, LaneId(7), VehicleState::Managed) };
    let candidate = waiting(2, LaneId(4), 10);
    let vehicles = vec![occupied, candidate];
    assert!(smart.reservation_blocked(&candidate, &vehicles));
    let other_lane = waiting(3, LaneId(3), 10);
    assert!(!smart.reservation_blocked(&other_lane, &[occupied, other_lane]));
}

#[test]
fn unreserved_intruder_does_not_block_cross_traffic() {
    let smart = ready_controller();
    let intruder = Occupant { in_zone: true, ..occupant(1, LaneId(7), VehicleState::Approaching) };
    let candidate = waiting(2, LaneId(4), 10);
    assert!(!smart.reservation_blocked(&candidate, &[intruder, candidate]));
}

#[test]
fn nearer_reserved_vehicle_blocks_farther_candidate() {
    let smart = ready_controller();
    let reserved = Occupant { reservation_granted: true, ..waiting(1, LaneId(7), 5) };
    let far = waiting(2, LaneId(4), 50);
    let near = waiting(3, LaneId(4), 2);
    assert!(smart.reservation_blocked(&far, &[reserved, far]));
    assert!(!smart.reservation_blocked(&near, &[reserved, near]));
}

#[test]
fn candidates_are_served_nearest_first() {
    let smart = ready_controller();
    let vehicles = vec![
        waiting(1, LaneId(4), 30),
        occupant(2, LaneId(5), VehicleState::Managed),
        waiting(3, LaneId(7), 10),
        waiting(4, LaneId(10), 20),
        Occupant { reservation_granted: true, ..waiting(5, LaneId(1), 1) },
    ];
    assert_eq!(smart.reservation_candidates(&vehicles), vec![2, 3, 0]);
}

#[test]
fn equal_distance_candidates_are_served_in_arrival_order() {
    let mut smart = ready_controller();
    let first = waiting(8, LaneId(7), 10);
    let second = waiting(9, LaneId(4), 10);
    smart.track_approaching_waiters(&[first]);
    smart.track_approaching_waiters(&[second, first]);
    assert_eq!(smart.reservation_candidates(&[second, first]), vec![1, 0]);
}

#[test]
fn grant_pass_never_reserves_conflicting_pair() {
    let smart = ready_controller();
    let mut vehicles = vec![waiting(1, LaneId(4), 20), waiting(2, LaneId(7), 10)];
    let order = smart.reservation_candidates(&vehicles);
    assert_eq!(order, vec![1, 0]);
    smart.grant_reservations(&mut vehicles, &order);
    assert!(vehicles[1].reservation_granted);
    assert!(!vehicles[0].reservation_granted);
}

#[test]
fn grant_pass_reserves_non_conflicting_lanes_together() {
    let smart = ready_controller();
    let mut vehicles = vec![waiting(1, LaneId(0), 20), waiting(2, LaneId(3), 10)];
    let order = smart.reservation_candidates(&vehicles);
    smart.grant_reservations(&mut vehicles, &order);
    assert!(vehicles[0].reservation_granted);
    assert!(vehicles[1].reservation_granted);
}

#[test]
fn scheduler_yields_later_entry_on_conflict() {
    let mut smart = ready_controller();
    let vehicles = vec![
        occupant(1, LaneId(4), VehicleState::Managed),
        occupant(2, LaneId(7), VehicleState::Managed),
    ];
    smart.register_managed_entry(VehicleId(1), 0);
    smart.register_managed_entry(VehicleId(2), 1);
    assert_eq!(smart.scheduler_yields(&vehicles, &square(2, true)), vec![false, true]);
    assert_eq!(smart.scheduler_yields(&vehicles, &square(2, false)), vec![false, false]);
}

#[test]
fn scheduler_yields_same_lane_follower() {
    let mut smart = ready_controller();
    let vehicles = vec![
        occupant(1, LaneId(3), VehicleState::Managed),
        occupant(2, LaneId(3), VehicleState::Managed),
        occupant(3, LaneId(0), VehicleState::Managed),
    ];
    smart.register_managed_entry(VehicleId(1), 0);
    smart.register_managed_entry(VehicleId(2), 1);
    smart.register_managed_entry(VehicleId(3), 2);
    assert_eq!(
        smart.scheduler_yields(&vehicles, &square(3, true)),
        vec![false, true, false]
    );
}

#[test]
fn zone_entry_numbers_follow_entry_order() {
    let mut smart = ready_controller();
    let mut vehicles = vec![
        Occupant { in_zone: true, ..occupant(1, LaneId(0), VehicleState::Approaching) },
        Occupant { in_zone: true, ..occupant(2, LaneId(3), VehicleState::Approaching) },
    ];
    smart.admit_zone_entries(&mut vehicles);
    assert_eq!(vehicles[0].state, VehicleState::Managed);
    assert_eq!(vehicles[1].state, VehicleState::Managed);
    let yields = smart.scheduler_yields(&vehicles, &square(2, true));
    assert_eq!(yields, vec![false, false]);
}

#[test]
fn distant_holder_loses_reservation_to_closer_cross_traffic() {
    let smart = ready_controller();
    let mut vehicles = vec![
        Occupant { reservation_granted: true, ..waiting(1, LaneId(4), 50) },
        waiting(2, LaneId(7), 5),
    ];
    let mut lead = square(2, false);
    lead[0][1] = true;
    smart.revoke_distant_reservations(&mut vehicles, &lead);
    assert!(!vehicles[0].reservation_granted);
    let mut kept = vec![
        Occupant { reservation_granted: true, ..waiting(1, LaneId(4), 50) },
        waiting(2, LaneId(3), 5),
    ];
    smart.revoke_distant_reservations(&mut kept, &lead);
    assert!(kept[0].reservation_granted);
}

#[test]
fn queue_follower_loses_reservation_to_lane_front() {
    let smart = ready_controller();
    let mut vehicles = vec![
        waiting(1, LaneId(4), 5),
        Occupant { reservation_granted: true, ..waiting(2, LaneId(4), 60) },
    ];
    let mut lead = square(2, false);
    lead[1][0] = true;
    smart.revoke_non_front_lane_reservations(&mut vehicles, &lead);
    assert!(!vehicles[1].reservation_granted);
}

#[test]
fn stale_grant_dropped_only_for_stopped_holder() {
    let smart = ready_controller();
    let moving = Occupant { reservation_granted: true, ..waiting(1, LaneId(4), 50) };
    let mut lead = square(2, false);
    lead[0][1] = true;
    let mut vehicles = vec![moving, waiting(2, LaneId(7), 5)];
    smart.revoke_stale_grants_from_stopped_holders(&mut vehicles, &lead);
    assert!(vehicles[0].reservation_granted);
    let mut vehicles = vec![Occupant { stopped: true, ..moving }, waiting(2, LaneId(7), 5)];
    smart.revoke_stale_grants_from_stopped_holders(&mut vehicles, &lead);
    assert!(!vehicles[0].reservation_granted);
}

#[test]
fn intruder_grants_are_revoked() {
    let smart = ready_controller();
    let mut vehicles = vec![
        Occupant { reservation_granted: true, in_zone: true, ..occupant(1, LaneId(4), VehicleState::Approaching) },
        Occupant { reservation_granted: true, ..waiting(2, LaneId(7), 5) },
    ];
    smart.revoke_intruder_zone_grants(&mut vehicles);
    assert!(!vehicles[0].reservation_granted);
    assert!(vehicles[1].reservation_granted);
}

#[test]
fn hold_actions_follow_gate_and_distance() {
    let smart = ready_controller();
    let blocker = Occupant { in_zone: true, ..occupant(1, LaneId(7), VehicleState::Managed) };
    let vehicles = vec![
        blocker,
        Occupant { in_stop_range: true, ..waiting(2, LaneId(4), 3) },
        waiting(3, LaneId(1), 100),
        Occupant { in_trigger: false, ..waiting(4, LaneId(11), 900) },
        Occupant { reservation_granted: true, ..waiting(5, LaneId(2), 40) },
        waiting(6, LaneId(3), 40),
    ];
    assert_eq!(
        smart.reservation_hold_actions(&vehicles),
        vec![
            HoldAction::ClearHold,
            HoldAction::Stop,
            HoldAction::Brake,
            HoldAction::Keep,
            HoldAction::Proceed,
            HoldAction::Proceed,
        ]
    );
}

#[test]
fn scheduler_range_needs_two_managed_vehicles_near_each_other() {
    let vehicles = vec![
        occupant(1, LaneId(4), VehicleState::Managed),
        occupant(2, LaneId(7), VehicleState::Approaching),
        occupant(3, LaneId(5), VehicleState::Managed),
    ];
    let mut near = square(3, false);
    near[0][1] = true;
    near[2][0] = true;
    assert!(!SmartController::managed_vehicles_in_scheduler_range(&vehicles, &near));
    near[0][2] = true;
    assert!(SmartController::managed_vehicles_in_scheduler_range(&vehicles, &near));
}

#[test]
fn controller_frame_decides_exits_grants_holds_entries_and_yields() {
    let model = IntersectionModel::new();
    let mut smart = SmartController::new();
    smart.register_managed_entry(VehicleId(1), 0);
    let mut vehicles = vec![
        occupant(1, LaneId(4), VehicleState::Managed),
        waiting(2, LaneId(4), 10),
        waiting(3, LaneId(7), 5),
        Occupant { in_stop_range: true, ..waiting(4, LaneId(11), 30) },
        Occupant { in_zone: true, ..occupant(5, LaneId(0), VehicleState::Approaching) },
    ];
    let n = vehicles.len();
    let decisions = smart.update(&mut vehicles, &model, &square(n, false), &square(n, false), &square(n, true));
    assert_eq!(vehicles[0].state, VehicleState::Exiting);
    assert_eq!(decisions.order, vec![2, 1, 3]);
    assert!(vehicles[2].reservation_granted);
    assert!(!vehicles[1].reservation_granted);
    assert!(!vehicles[3].reservation_granted);
    assert_eq!(
        decisions.holds,
        vec![
            HoldAction::ClearHold,
            HoldAction::Brake,
            HoldAction::Proceed,
            HoldAction::Stop,
            HoldAction::Proceed,
        ]
    );
    assert_eq!(vehicles[4].state, VehicleState::Managed);
    assert_eq!(decisions.yields, vec![false; 5]);
}

#[test]
fn grant_pass_skips_candidate_while_conflicting_vehicle_in_zone() {
    let smart = ready_controller();
    let mut vehicles = vec![
        Occupant { in_zone: true, ..occupant(1, LaneId(8), VehicleState::Exiting) },
        waiting(2, LaneId(10), 15),
        waiting(3, LaneId(9), 15),
    ];
    let order = smart.reservation_candidates(&vehicles);
    smart.grant_reservations(&mut vehicles, &order);
    assert!(!vehicles[1].reservation_granted);
    assert!(vehicles[2].reservation_granted);
}

#[test]
fn stale_pass_after_distant_pass_changes_nothing() {
    let smart = ready_controller();
    let mut vehicles = vec![
        Occupant { reservation_granted: true, stopped: true, ..waiting(1, LaneId(4), 50) },
        Occupant { reservation_granted: true, stopped: true, ..waiting(2, LaneId(7), 5) },
        Occupant { reservation_granted: true, stopped: true, ..waiting(3, LaneId(0), 70) },
    ];
    let mut lead = square(3, false);
    lead[0][1] = true;
    lead[2][1] = true;
    smart.revoke_distant_reservations(&mut vehicles, &lead);
    let after_distant = vehicles.clone();
    smart.revoke_stale_grants_from_stopped_holders(&mut vehicles, &lead);
    assert_eq!(vehicles, after_distant);
    assert!(!vehicles[0].reservation_granted);
    assert!(vehicles[1].reservation_granted);
    assert!(vehicles[2].reservation_granted);
}

#[test]
fn only_first_of_two_crossing_intruders_enters() {
    let mut smart = ready_controller();
    let mut vehicles = vec![
        Occupant { in_zone: true, ..occupant(1, LaneId(4), VehicleState::Approaching) },
        Occupant { in_zone: true, ..occupant(2, LaneId(7), VehicleState::Approaching) },
        Occupant { in_zone: true, reservation_granted: true, ..occupant(3, LaneId(11), VehicleState::Approaching) },
    ];
    smart.admit_zone_entries(&mut vehicles);
    assert_eq!(vehicles[0].state, VehicleState::Managed);
    assert_eq!(vehicles[1].state, VehicleState::Approaching);
    assert_eq!(vehicles[2].state, VehicleState::Managed);
}

#[test]
fn standard_layout_fits_the_world_square() {
    let mut model = IntersectionModel::new();
    assert!(smart_road::smart::model_fits_world(&model));
    model.zone_polygon.push(Point::new(0, 16_777_217));
    assert!(!smart_road::smart::model_fits_world(&model));
}

fn frame(smart: &mut SmartController, vehicles: &mut Vec<Occupant>, lead: &Vec<Vec<bool>>) -> smart_road::smart::FrameDecisions {
    let model = IntersectionModel::new();
    let n = vehicles.len();
    smart.update(vehicles, &model, lead, lead, &square(n, false))
}

#[test]
fn frame_grants_closer_cross_traffic_first() {
    let mut smart = SmartController::new();
    let mut vehicles = vec![waiting(1, LaneId(4), 180), waiting(2, LaneId(7), 36)];
    let mut lead = square(2, false);
    lead[0][1] = true;
    let decisions = frame(&mut smart, &mut vehicles, &lead);
    assert!(vehicles[1].reservation_granted);
    assert!(!vehicles[0].reservation_granted);
    assert_eq!(decisions.holds, vec![HoldAction::Brake, HoldAction::Proceed]);
}

#[test]
fn frame_revokes_distant_holder_for_closer_cross_traffic() {
    let mut smart = SmartController::new();
    let mut vehicles = vec![
        Occupant { reservation_granted: true, ..waiting(1, LaneId(4), 180) },
        waiting(2, LaneId(7), 36),
    ];
    let mut lead = square(2, false);
    lead[0][1] = true;
    let decisions = frame(&mut smart, &mut vehicles, &lead);
    assert!(!vehicles[0].reservation_granted);
    assert!(vehicles[1].reservation_granted);
    assert_eq!(decisions.order, vec![1, 0]);
}

#[test]
fn frame_lets_solo_waiter_keep_speed() {
    let mut smart = SmartController::new();
    let mut vehicles = vec![waiting(1, LaneId(4), 100)];
    let decisions = frame(&mut smart, &mut vehicles, &square(1, false));
    assert!(vehicles[0].reservation_granted);
    assert_eq!(decisions.holds, vec![HoldAction::Proceed]);
}

#[test]
fn frame_lets_non_conflicting_waiter_proceed_while_zone_occupied() {
    let mut smart = SmartController::new();
    smart.register_managed_entry(VehicleId(1), 0);
    let mut vehicles = vec![
        Occupant { in_zone: true, ..occupant(1, LaneId(4), VehicleState::Managed) },
        waiting(2, LaneId(3), 50),
    ];
    let decisions = frame(&mut smart, &mut vehicles, &square(2, false));
    assert_eq!(vehicles[0].state, VehicleState::Managed);
    assert_eq!(decisions.holds[1], HoldAction::Proceed);
    assert!(vehicles[1].reservation_granted);
}

#[test]
fn frame_stops_cross_waiter_while_conflicting_vehicle_occupies_zone() {
    let mut smart = SmartController::new();
    let mut vehicles = vec![
        Occupant { in_zone: true, ..occupant(1, LaneId(4), VehicleState::Exiting) },
        Occupant { in_stop_range: true, ..waiting(2, LaneId(7), 40) },
    ];
    let decisions = frame(&mut smart, &mut vehicles, &square(2, false));
    assert!(!vehicles[1].reservation_granted);
    assert_eq!(vehicles[1].state, VehicleState::Approaching);
    assert_eq!(decisions.holds[1], HoldAction::Stop);
}

// Vehicles of the following scenarios are given as the program measures them: the zone is the
// box x in [392, 632), y in [264, 504); a vehicle's zone distance is the order key of its f32
// distance to the zone edge along its approach; it is in trigger range at 0 < d <= 200 and in
// stopping range at 0 < d <= 44 (safe distance plus one frame at 120 units/s plus 2).

fn dist(d: f32) -> u32 {
    d.to_bits()
}

fn run_frame(smart: &mut SmartController, vehicles: &mut Vec<Occupant>, lead: Vec<Vec<bool>>) -> smart_road::smart::FrameDecisions {
    let model = IntersectionModel::new();
    let near = square(vehicles.len(), false);
    smart.update(vehicles, &model, &lead, &lead, &near)
}

#[test]
fn approaching_outside_zone_stays_approaching() {
    let mut smart = SmartController::new();
    let mut vehicles = vec![occupant(1, LaneId(0), VehicleState::Approaching)];
    run_frame(&mut smart, &mut vehicles, square(1, false));
    assert_eq!(vehicles[0].state, VehicleState::Approaching);
}

#[test]
fn update_transitions_managed_to_exiting_on_zone_exit() {
    let mut smart = SmartController::new();
    let mut vehicles = vec![occupant(1, LaneId(0), VehicleState::Managed)];
    run_frame(&mut smart, &mut vehicles, square(1, false));
    assert_eq!(vehicles[0].state, VehicleState::Exiting);
}

#[test]
fn same_lane_follower_not_held_when_leader_has_reservation() {
    let mut smart = SmartController::new();
    let leader = Occupant {
        reservation_granted: true,
        in_stop_range: true,
        ..waiting(1, LaneId(4), dist(40.0))
    };
    let follower = waiting(2, LaneId(4), dist(120.0));
    let mut vehicles = vec![leader, follower];
    let mut lead = square(2, false);
    lead[1][0] = true;
    let decisions = run_frame(&mut smart, &mut vehicles, lead);
    assert_eq!(
        decisions.holds[1],
        HoldAction::Proceed,
        "same-lane follower must not freeze for leader reservation"
    );
}

#[test]
fn unreserved_approaching_in_zone_does_not_block_cross_traffic() {
    let mut smart = SmartController::new();
    let intruder = Occupant { in_zone: true, ..occupant(1, LaneId(4), VehicleState::Approaching) };
    let waiter = Occupant { in_stop_range: true, ..waiting(2, LaneId(7), dist(36.0)) };
    let mut vehicles = vec![intruder, waiter];
    let mut lead = square(2, false);
    lead[1][0] = true;
    let decisions = run_frame(&mut smart, &mut vehicles, lead);
    assert!(
        vehicles[1].reservation_granted,
        "cross-traffic must not be blocked by an unreserved vehicle retracted from the zone"
    );
    assert_eq!(
        decisions.holds[1],
        HoldAction::Proceed,
        "waiter should not be held when the only zone occupant is an unreserved intruder"
    );
}

#[test]
fn reservation_blocks_while_conflicting_vehicle_exits_zone() {
    let mut smart = SmartController::new();
    let exiting = Occupant { in_zone: true, ..occupant(1, LaneId(4), VehicleState::Exiting) };
    let waiter = Occupant { in_stop_range: true, ..waiting(2, LaneId(7), dist(40.0)) };
    let mut vehicles = vec![exiting, waiter];
    let mut lead = square(2, false);
    lead[1][0] = true;
    let decisions = run_frame(&mut smart, &mut vehicles, lead);
    assert!(
        !vehicles[1].reservation_granted,
        "cross-path waiter stays unreserved while conflicting vehicle occupies zone"
    );
    assert_eq!(decisions.holds[1], HoldAction::Stop);
}

#[test]
fn reservation_blocks_conflicting_approach_until_leader_exits() {
    let mut smart = SmartController::new();
    let south = Occupant {
        in_zone: true,
        reservation_granted: true,
        ..occupant(1, LaneId(4), VehicleState::Managed)
    };
    let east = Occupant { in_zone: true, ..occupant(2, LaneId(7), VehicleState::Approaching) };
    let mut vehicles = vec![south, east];
    smart.register_managed_entry(VehicleId(1), 0);
    let decisions = run_frame(&mut smart, &mut vehicles, square(2, false));
    assert_eq!(vehicles[1].state, VehicleState::Approaching);
    assert!(!vehicles[1].reservation_granted);
    assert_eq!(decisions.holds[1], HoldAction::Stop);
}

#[test]
fn reservation_brakes_cross_path_waiter_near_zone_without_grant() {
    let mut smart = SmartController::new();
    let leader = Occupant {
        in_zone: true,
        reservation_granted: true,
        ..occupant(1, LaneId(4), VehicleState::Managed)
    };
    let waiter = Occupant { in_stop_range: true, ..waiting(2, LaneId(7), dist(18.0)) };
    smart.register_managed_entry(VehicleId(1), 0);
    let mut vehicles = vec![leader, waiter];
    let mut lead = square(2, false);
    lead[1][0] = true;
    let decisions = run_frame(&mut smart, &mut vehicles, lead);
    assert_eq!(vehicles[1].state, VehicleState::Approaching);
    assert!(!vehicles[1].reservation_granted);
    assert_eq!(decisions.holds[1], HoldAction::Stop);
}

#[test]
fn closer_cross_traffic_not_blocked_by_distant_reserved_vehicle() {
    let mut smart = SmartController::new();
    let distant_south = waiting(1, LaneId(4), dist(180.0));
    let near_east = Occupant { in_stop_range: true, ..waiting(2, LaneId(7), dist(36.0)) };
    let mut vehicles = vec![distant_south, near_east];
    let mut lead = square(2, false);
    lead[0][1] = true;
    let decisions = run_frame(&mut smart, &mut vehicles, lead);
    assert!(
        vehicles[1].reservation_granted,
        "closer cross-traffic vehicle should receive reservation"
    );
    assert_eq!(
        decisions.holds[1],
        HoldAction::Proceed,
        "closer vehicle should not stop when no collision is possible"
    );
    assert!(
        !vehicles[0].reservation_granted,
        "distant vehicle should yield reservation to closer cross-traffic"
    );
}

#[test]
fn solo_vehicle_does_not_slow_in_trigger_zone() {
    let mut smart = SmartController::new();
    let mut vehicles = vec![waiting(1, LaneId(4), dist(100.0))];
    let decisions = run_frame(&mut smart, &mut vehicles, square(1, false));
    assert_eq!(
        decisions.holds[0],
        HoldAction::Proceed,
        "solo vehicle must keep nominal speed with no conflicting traffic"
    );
}

#[test]
fn non_conflicting_traffic_proceeds_while_other_lane_occupied() {
    let model = IntersectionModel::new();
    let mut smart = SmartController::new();
    smart.ensure_lane_conflicts(&model);
    let south_straight = lane_id(Cardinal::South, Route::Straight);
    let south_right = lane_id(Cardinal::South, Route::Right);
    let conflicts = build_lane_conflicts(&model);
    assert!(
        !conflicts.contains(&lane_pair_key(south_straight, south_right)),
        "test requires a non-conflicting lane pair"
    );
    let leader = Occupant {
        in_zone: true,
        reservation_granted: true,
        ..occupant(1, south_straight, VehicleState::Managed)
    };
    let follower = waiting(2, south_right, dist(50.0));
    let mut vehicles = vec![leader, follower];
    let mut lead = square(2, false);
    lead[1][0] = true;
    let decisions = run_frame(&mut smart, &mut vehicles, lead);
    assert_eq!(
        decisions.holds[1],
        HoldAction::Proceed,
        "non-conflicting waiter must keep nominal speed"
    );
}

#[test]
fn schedule_managed_velocities_yields_later_entry_on_conflict() {
    let mut smart = ready_controller();
    let leader = Occupant { in_zone: true, ..occupant(1, lane_id(Cardinal::South, Route::Straight), VehicleState::Managed) };
    let follower = Occupant { in_zone: true, ..occupant(2, lane_id(Cardinal::East, Route::Straight), VehicleState::Managed) };
    smart.register_managed_entry(leader.id, 0);
    smart.register_managed_entry(follower.id, 1);
    let yields = smart.scheduler_yields(&[leader, follower], &square(2, true));
    assert!(!yields[0]);
    assert!(yields[1]);
}

#[test]
fn schedule_managed_velocities_same_lane_follower_yields() {
    let mut smart = ready_controller();
    let lane = lane_id(Cardinal::South, Route::Straight);
    let leader = Occupant { in_zone: true, ..occupant(1, lane, VehicleState::Managed) };
    let follower = Occupant { in_zone: true, ..occupant(2, lane, VehicleState::Managed) };
    smart.register_managed_entry(leader.id, 0);
    smart.register_managed_entry(follower.id, 1);
    let yields = smart.scheduler_yields(&[leader, follower], &square(2, true));
    assert!(!yields[0]);
    assert!(yields[1]);
}
