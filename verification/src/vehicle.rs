//! Vehicle identity, lifecycle states and speed levels.

use vstd::prelude::*;

use crate::config::DEFAULT_SPAWN_VELOCITY;

verus! {

/// Unique vehicle identifier.
#[derive(Debug, Clone, Copy, PartialEq, Eq, Hash, Structural)]
pub struct VehicleId(pub u64);

/// Lifecycle inside the simulation.
#[derive(Debug, Clone, Copy, PartialEq, Eq, Structural)]
pub enum VehicleState {
    /// Travelling toward the intersection.
    Approaching,
    /// Inside the junction zone, speed owned by the smart controller.
    Managed,
    /// Has left the zone, still on screen.
    Exiting,
    /// Off screen; removed from the simulation.
    Done,
}

/// Discrete speed levels assigned at spawn.
#[derive(Debug, Clone, Copy, PartialEq, Eq, Structural)]
pub enum VelocityLevel {
    Fast,
    Cruise,
    Yield,
}

/// Speed level of a vehicle: levels cycle Fast, Cruise, Yield by vehicle number.
pub open spec fn level_of(id: VehicleId) -> VelocityLevel {
    if id.0 % 3 == 0 {
        VelocityLevel::Fast
    } else if id.0 % 3 == 1 {
        VelocityLevel::Cruise
    } else {
        VelocityLevel::Yield
    }
}

/// Speed of a level in world units per second: 1.4x the default cruise speed for Fast, 1x for
/// Cruise, 0.5x for Yield.
pub open spec fn level_speed(level: VelocityLevel) -> int {
    match level {
        VelocityLevel::Fast => 7 * DEFAULT_SPAWN_VELOCITY / 5,
        VelocityLevel::Cruise => DEFAULT_SPAWN_VELOCITY as int,
        VelocityLevel::Yield => DEFAULT_SPAWN_VELOCITY / 2,
    }
}

impl VelocityLevel {
    /// Level assigned to a vehicle at spawn.
    pub fn for_vehicle(id: VehicleId) -> (level: VelocityLevel)
        ensures
            level == level_of(id),
    {
        match id.0 % 3 {
            0 => VelocityLevel::Fast,
            1 => VelocityLevel::Cruise,
            _ => VelocityLevel::Yield,
        }
    }

    /// Concrete speed in world units per second.
    pub fn speed(self) -> (speed: u32)
        ensures
            speed == level_speed(self),
    {
        let base = DEFAULT_SPAWN_VELOCITY as u32;
        match self {
            VelocityLevel::Fast => base * 7 / 5,
            VelocityLevel::Cruise => base,
            VelocityLevel::Yield => base / 2,
        }
    }
}

/// Vehicles spawned one after another move at three different speeds: any three consecutive
/// vehicle numbers get pairwise different levels, and the levels' speeds are pairwise
/// different and positive.
pub proof fn lemma_consecutive_vehicles_distinct_speeds(n: u64)
    requires
        n <= u64::MAX - 2,
    ensures
        ({
            let a = level_speed(level_of(VehicleId(n)));
            let b = level_speed(level_of(VehicleId((n + 1) as u64)));
            let c = level_speed(level_of(VehicleId((n + 2) as u64)));
            &&& a != b && b != c && a != c
            &&& a > 0 && b > 0 && c > 0
        }),
{
}

/// Whether a vehicle in this state keeps follow distance behind a same-lane leader: vehicles
/// approaching or leaving the junction do; managed vehicles defer to the smart controller.
pub fn uses_follow_distance(state: VehicleState) -> (uses: bool)
    ensures
        uses <==> (state == VehicleState::Approaching || state == VehicleState::Exiting),
{
    match state {
        VehicleState::Approaching | VehicleState::Exiting => true,
        _ => false,
    }
}

} // verus!
