//! Spawn throttling and spawn choices: per-approach cooldown, lane capacity, random
//! approach/route picks and route rotation.

use std::collections::HashMap;
use std::time::{Duration, Instant, SystemTime, SystemTimeError, UNIX_EPOCH};

use vstd::prelude::*;

use crate::config::SPAWN_COOLDOWN_MS;
use crate::intersection::{lane_id, lane_number, Cardinal, LaneId, Route};
use crate::smart::Occupant;
use crate::vehicle::{VehicleId, VehicleState};

verus! {

/// Minimum time between spawns on the same approach, in nanoseconds.
pub const SPAWN_COOLDOWN_NS: u64 = SPAWN_COOLDOWN_MS * 1_000_000;

/// Maximum vehicles allowed on a single lane before new spawns are blocked.
pub const LANE_CAPACITY: usize = 8;

#[verifier::external_type_specification]
#[verifier::external_body]
pub struct ExInstant(Instant);

#[verifier::external_type_specification]
#[verifier::external_body]
pub struct ExSystemTime(SystemTime);

#[verifier::external_type_specification]
#[verifier::external_body]
pub struct ExSystemTimeError(SystemTimeError);

/// `Instant::now`: a reading of the monotonic clock. Nothing is claimed of it.
#[verifier::external_body]
fn instant_now() -> Instant {
    Instant::now()
}

/// `Instant::elapsed`: the time passed since `origin`. Nothing is claimed of it: it depends on
/// when the call is made.
#[verifier::external_body]
fn instant_elapsed(origin: &Instant) -> Duration {
    origin.elapsed()
}

/// `Duration::as_nanos`: the whole nanoseconds of `d`. Nothing is claimed of the value, as
/// durations are opaque here.
#[verifier::external_body]
fn duration_as_nanos(d: &Duration) -> u128 {
    d.as_nanos()
}

/// `SystemTime::now`: a reading of the wall clock. Nothing is claimed of it.
#[verifier::external_body]
fn system_time_now() -> SystemTime {
    SystemTime::now()
}

/// `SystemTime::duration_since(UNIX_EPOCH)`: the time from the Unix epoch to `t`, or an error
/// when `t` lies before the epoch. Nothing is claimed of which: it depends on the clock.
#[verifier::external_body]
fn duration_since_unix_epoch(t: &SystemTime) -> Result<Duration, SystemTimeError> {
    t.duration_since(UNIX_EPOCH)
}

/// Nanoseconds from the Unix epoch to the wall-clock time now, or `None` when the clock reads
/// before the epoch.
fn wall_clock_reading() -> Option<u128> {
    let now = system_time_now();
    match duration_since_unix_epoch(&now) {
        Ok(d) => Some(duration_as_nanos(&d)),
        Err(_) => None,
    }
}

/// Nanoseconds of a wall-clock reading: one second where the clock read before the epoch.
pub open spec fn reading_nanos(reading: Option<u128>) -> u128 {
    match reading {
        Some(n) => n,
        None => 1_000_000_000,
    }
}

/// Generator seed of a wall-clock reading in nanoseconds: its low 32 bits, with zero replaced
/// by one.
pub open spec fn seed_of(nanos: u128) -> u32 {
    if (nanos as u32) == 0 {
        1
    } else {
        nanos as u32
    }
}

/// The generator seed of a wall-clock reading (`None` when the clock read before the epoch).
pub fn seed_from_reading(reading: Option<u128>) -> (seed: u32)
    ensures
        seed == seed_of(reading_nanos(reading)),
        seed != 0,
{
    let nanos: u128 = match reading {
        Some(n) => n,
        None => 1_000_000_000,
    };
    let low = nanos as u32;
    if low == 0 {
        1
    } else {
        low
    }
}

/// One xorshift32 step.
pub open spec fn xorshift32(x: u32) -> u32 {
    let a = x ^ (x << 13u32);
    let b = a ^ (a >> 17u32);
    b ^ (b << 5u32)
}

/// The xorshift32 step maps a nonzero state to a nonzero state, so the generator never
/// sticks at zero.
pub proof fn lemma_xorshift_nonzero(x: u32)
    requires
        x != 0,
    ensures
        xorshift32(x) != 0,
{
    assert(x != 0 ==> ((x ^ (x << 13u32)) ^ ((x ^ (x << 13u32)) >> 17u32)) ^ (((x ^ (x << 13u32))
        ^ ((x ^ (x << 13u32)) >> 17u32)) << 5u32) != 0) by (bit_vector);
}

/// Lightweight xorshift32 generator for spawn randomization; its state is never zero.
#[derive(Debug)]
pub struct SpawnRng {
    state: u32,
}

impl SpawnRng {
    /// The state is never zero, so the generator never sticks.
    #[verifier::type_invariant]
    spec fn state_nonzero(self) -> bool {
        self.state != 0
    }

    /// Current generator state.
    pub closed spec fn state(&self) -> u32 {
        self.state
    }

    /// A generator seeded from the wall clock: the seed of the clock's current reading.
    pub fn new() -> (rng: Self)
        ensures
            exists|reading: Option<u128>| rng.state() == #[trigger] seed_of(reading_nanos(reading)),
            rng.state() != 0,
    {
        Self::from_reading(wall_clock_reading())
    }

    /// A generator seeded from the given wall-clock reading (`None` when the clock read before
    /// the epoch).
    pub fn from_reading(reading: Option<u128>) -> (rng: Self)
        ensures
            rng.state() == seed_of(reading_nanos(reading)),
    {
        SpawnRng { state: seed_from_reading(reading) }
    }

    /// A generator with the given nonzero state.
    pub fn with_state(state: u32) -> (rng: Self)
        requires
            state != 0,
        ensures
            rng.state() == state,
    {
        SpawnRng { state }
    }

    /// Advance the generator and return the new state.
    pub fn next_u32(&mut self) -> (x: u32)
        ensures
            x == xorshift32(old(self).state()),
            final(self).state() == x,
    {
        proof {
            use_type_invariant(&*self);
            lemma_xorshift_nonzero(self.state);
        }
        let mut x = self.state;
        x = x ^ (x << 13u32);
        x = x ^ (x >> 17u32);
        x = x ^ (x << 5u32);
        self.state = x;
        x
    }

    /// Pick an approach uniformly from the next generator output.
    pub fn pick_cardinal(&mut self) -> (approach: Cardinal)
        ensures
            final(self).state() == xorshift32(old(self).state()),
            approach == Cardinal::from_index((final(self).state() % 4) as int),
    {
        let x = self.next_u32();
        Cardinal::ALL[(x % 4) as usize]
    }

    /// Pick a route uniformly from the next generator output.
    pub fn pick_route(&mut self) -> (route: Route)
        ensures
            final(self).state() == xorshift32(old(self).state()),
            route == Route::from_index((final(self).state() % 3) as int),
    {
        let x = self.next_u32();
        Route::ALL[(x % 3) as usize]
    }
}


/// A nanosecond count held in 64 bits: counts beyond the 64-bit range read as the largest one.
pub open spec fn saturated_nanos(ns: u128) -> u64 {
    if ns > u64::MAX {
        u64::MAX
    } else {
        ns as u64
    }
}

/// A nanosecond count held in 64 bits, saturating at the largest one.
pub fn saturate_nanos(ns: u128) -> (n: u64)
    ensures
        n == saturated_nanos(ns),
{
    if ns > u64::MAX as u128 {
        u64::MAX
    } else {
        ns as u64
    }
}

/// Per-approach spawn throttle on a nanosecond clock that starts when the throttle is made.
#[derive(Debug)]
pub struct SpawnCooldown {
    period_ns: u64,
    last_spawn: HashMap<u32, u64>,
    origin: Instant,
}

/// A spawn at time `now` is allowed after a last spawn at `last` when at least `period`
/// nanoseconds have passed (never when `now` is before `last`).
pub open spec fn cooled_down(last: Option<u64>, now: u64, period: u64) -> bool {
    match last {
        None => true,
        Some(t) => now - t >= period,
    }
}

impl SpawnCooldown {
    /// Minimum nanoseconds between spawns on one approach.
    pub closed spec fn period(&self) -> u64 {
        self.period_ns
    }

    /// Time of the last recorded spawn on `approach`, if any.
    pub closed spec fn last(&self, approach: Cardinal) -> Option<u64> {
        if self.last_spawn@.contains_key(approach.index()) {
            Some(self.last_spawn@[approach.index()])
        } else {
            None
        }
    }

    /// A throttle with the configured period and no spawn recorded.
    pub fn new() -> (cooldown: Self)
        ensures
            cooldown.period() == SPAWN_COOLDOWN_NS,
            forall|a: Cardinal| #[trigger] cooldown.last(a) == None::<u64>,
    {
        SpawnCooldown {
            period_ns: SPAWN_COOLDOWN_NS,
            last_spawn: HashMap::new(),
            origin: instant_now(),
        }
    }

    /// Nanoseconds on this throttle's clock now.
    pub fn now_ns(&self) -> (now: u64)
        ensures
            exists|elapsed: u128| now == #[trigger] saturated_nanos(elapsed),
    {
        let elapsed = instant_elapsed(&self.origin);
        let ns = duration_as_nanos(&elapsed);
        saturate_nanos(ns)
    }

    /// Whether a spawn on this approach is allowed right now: the cooldown rule applied at
    /// the throttle clock's current reading.
    pub fn allows(&self, approach: Cardinal) -> (allowed: bool)
        ensures
            exists|now: u64| allowed == #[trigger] cooled_down(self.last(approach), now, self.period()),
            self.last(approach) is None ==> allowed,
    {
        let now = self.now_ns();
        let allowed = self.allows_at(approach, now);
        assert(allowed == cooled_down(self.last(approach), now, self.period()));
        allowed
    }

    /// Record a successful spawn on this approach now.
    pub fn record(&mut self, approach: Cardinal)
        ensures
            final(self).last(approach) is Some,
            final(self).period() == old(self).period(),
            forall|a: Cardinal| a != approach ==> #[trigger] final(self).last(a) == old(self).last(a),
    {
        let now = self.now_ns();
        self.record_at(approach, now);
    }

    /// Whether a spawn on this approach is allowed at time `now`.
    pub fn allows_at(&self, approach: Cardinal, now: u64) -> (allowed: bool)
        ensures
            allowed == cooled_down(self.last(approach), now, self.period()),
    {
        broadcast use vstd::std_specs::hash::group_hash_axioms;

        match self.last_spawn.get(&approach.index()) {
            None => true,
            Some(last) => now >= *last && now - *last >= self.period_ns,
        }
    }

    /// Record a spawn on this approach at time `now`.
    pub fn record_at(&mut self, approach: Cardinal, now: u64)
        ensures
            final(self).last(approach) == Some(now),
            final(self).period() == old(self).period(),
            forall|a: Cardinal| a != approach ==> #[trigger] final(self).last(a) == old(self).last(a),
    {
        broadcast use vstd::std_specs::hash::group_hash_axioms;

        self.last_spawn.insert(approach.index(), now);
    }

    /// Forget the last spawn on this approach, so that the next spawn there is allowed.
    pub fn clear(&mut self, approach: Cardinal)
        ensures
            final(self).last(approach) == None::<u64>,
            final(self).period() == old(self).period(),
            forall|a: Cardinal| a != approach ==> #[trigger] final(self).last(a) == old(self).last(a),
    {
        broadcast use vstd::std_specs::hash::group_hash_axioms;

        self.last_spawn.remove(&approach.index());
    }
}

impl Default for SpawnCooldown {
    fn default() -> (cooldown: Self)
        ensures
            cooldown.period() == SPAWN_COOLDOWN_NS,
            forall|a: Cardinal| #[trigger] cooldown.last(a) == None::<u64>,
    {
        Self::new()
    }
}

/// The cooldown is per approach: a spawn recorded on one approach at `now` blocks that
/// approach until the period has passed and leaves every other approach as it was.
pub proof fn lemma_cooldown_per_direction(before: SpawnCooldown, after: SpawnCooldown, approach: Cardinal, now: u64, later: u64)
    requires
        after.last(approach) == Some(now),
        after.period() == before.period() == SPAWN_COOLDOWN_NS,
        forall|a: Cardinal| a != approach ==> #[trigger] after.last(a) == before.last(a),
    ensures
        !cooled_down(after.last(approach), now, after.period()),
        cooled_down(after.last(approach), later, after.period()) <==> later >= now + SPAWN_COOLDOWN_NS,
        forall|a: Cardinal, t: u64|
            a != approach ==> #[trigger] cooled_down(after.last(a), t, after.period()) == cooled_down(
                before.last(a),
                t,
                before.period(),
            ),
{
}

/// Request to create a vehicle on an approach and route.
#[derive(Debug, Clone, Copy, PartialEq, Eq, Structural)]
pub struct SpawnRequest {
    pub approach: Cardinal,
    pub route: Route,
    pub lane_id: LaneId,
}

impl SpawnRequest {
    /// Build a spawn request for an approach and route, on that lane.
    pub fn new(approach: Cardinal, route: Route) -> (req: Self)
        ensures
            req.approach == approach,
            req.route == route,
            req.lane_id.0 == lane_number(approach, route),
    {
        SpawnRequest { approach, route, lane_id: lane_id(approach, route) }
    }
}

/// Per-approach route rotation for keyboard spawns: right, straight, left, right, ...
/// Counters are kept by approach index; an approach with no entry has counted nothing.
#[derive(Debug)]
pub struct RouteCycle {
    counters: HashMap<u32, u8>,
}

impl RouteCycle {
    /// Spawns counted so far on `approach` (modulo 256).
    pub closed spec fn count(&self, approach: Cardinal) -> u8 {
        if self.counters@.contains_key(approach.index()) {
            self.counters@[approach.index()]
        } else {
            0
        }
    }

    /// No spawns counted.
    pub fn new() -> (cycle: Self)
        ensures
            forall|a: Cardinal| #[trigger] cycle.count(a) == 0,
    {
        RouteCycle { counters: HashMap::new() }
    }

    /// Spawns counted so far on `approach`.
    fn count_for(&self, approach: Cardinal) -> (count: u8)
        ensures
            count == self.count(approach),
    {
        broadcast use vstd::std_specs::hash::group_hash_axioms;

        match self.counters.get(&approach.index()) {
            Some(c) => *c,
            None => 0,
        }
    }

    /// The route the next keyboard spawn on `approach` takes.
    pub fn route_for_approach(&self, approach: Cardinal) -> (route: Route)
        ensures
            route == Route::from_index((self.count(approach) % 3) as int),
    {
        let count = self.count_for(approach);
        Route::ALL[(count % 3) as usize]
    }

    /// Count a successful spawn on `approach` (wrapping at 256).
    pub fn advance_route_for_approach(&mut self, approach: Cardinal)
        ensures
            final(self).count(approach) == (old(self).count(approach) + 1) % 256,
            forall|a: Cardinal| a != approach ==> #[trigger] final(self).count(a) == old(self).count(a),
    {
        broadcast use vstd::std_specs::hash::group_hash_axioms;

        let count = self.count_for(approach);
        self.counters.insert(approach.index(), count.wrapping_add(1));
    }
}

/// Number of vehicles on `lane` that are still in the simulation.
pub open spec fn lane_queue(vehicles: Seq<Occupant>, lane: LaneId) -> int
    decreases vehicles.len(),
{
    if vehicles.len() == 0 {
        0
    } else {
        let last = vehicles.last();
        lane_queue(vehicles.drop_last(), lane) + if last.lane_id == lane && last.state
            != VehicleState::Done {
            1int
        } else {
            0int
        }
    }
}

/// The lane queue counts every vehicle on the lane that is not done, whatever its state
/// (approaching, managed or exiting): adding such a vehicle raises the count by one, and adding
/// a done vehicle or one on another lane leaves it unchanged.
pub proof fn lemma_lane_queue_push(vehicles: Seq<Occupant>, o: Occupant, lane: LaneId)
    ensures
        o.lane_id == lane && o.state != VehicleState::Done ==> lane_queue(vehicles.push(o), lane)
            == lane_queue(vehicles, lane) + 1,
        o.lane_id != lane || o.state == VehicleState::Done ==> lane_queue(vehicles.push(o), lane)
            == lane_queue(vehicles, lane),
{
    assert(vehicles.push(o).drop_last() =~= vehicles);
}

/// The lane queue is exactly the number of vehicles on the lane that are not done.
pub proof fn lemma_lane_queue_counts_live_vehicles(vehicles: Seq<Occupant>, lane: LaneId)
    ensures
        lane_queue(vehicles, lane) == vehicles.filter(
            |o: Occupant| o.lane_id == lane && o.state != VehicleState::Done,
        ).len(),
    decreases vehicles.len(),
{
    reveal(Seq::filter);
    if vehicles.len() > 0 {
        lemma_lane_queue_counts_live_vehicles(vehicles.drop_last(), lane);
        let rest = vehicles.drop_last().filter(
            |o: Occupant| o.lane_id == lane && o.state != VehicleState::Done,
        );
        let all = vehicles.filter(|o: Occupant| o.lane_id == lane && o.state != VehicleState::Done);
        if vehicles.last().lane_id == lane && vehicles.last().state != VehicleState::Done {
            assert(all == rest.push(vehicles.last()));
        } else {
            assert(all == rest);
        }
    }
}

/// A new vehicle fits on `lane`: fewer than [`LANE_CAPACITY`] vehicles still queue there.
pub fn lane_has_room(vehicles: &[Occupant], lane: LaneId) -> (room: bool)
    ensures
        room == (lane_queue(vehicles@, lane) < LANE_CAPACITY),
{
    let mut queued: usize = 0;
    let mut i: usize = 0;
    while i < vehicles.len()
        invariant
            i <= vehicles@.len(),
            queued == lane_queue(vehicles@.take(i as int), lane),
            queued <= i,
        decreases vehicles@.len() - i,
    {
        assert(vehicles@.take(i + 1).drop_last() == vehicles@.take(i as int));
        if vehicles[i].lane_id == lane && vehicles[i].state != VehicleState::Done {
            queued = queued + 1;
        }
        i = i + 1;
    }
    assert(vehicles@.take(vehicles@.len() as int) == vehicles@);
    queued < LANE_CAPACITY
}

/// Spawn bookkeeping: vehicle numbering, per-approach cooldown, route rotation for keyboard
/// spawns and random picks for the random stream.
#[derive(Debug)]
pub struct SpawnControl {
    next_id: u64,
    routes: RouteCycle,
    cooldown: SpawnCooldown,
    rng: SpawnRng,
}

/// A spawn request on an approach is admitted at time `now`: the approach has cooled down, the
/// lane has room and no vehicle on the lane is too close to the spawn position.
pub open spec fn spawn_admitted(last: Option<u64>, now: u64, period: u64, room: bool, too_close: bool) -> bool {
    cooled_down(last, now, period) && room && !too_close
}

impl SpawnControl {
    /// Number given to the next spawned vehicle.
    pub closed spec fn next_id(&self) -> u64 {
        self.next_id
    }

    /// The per-approach spawn throttle.
    pub closed spec fn cooldown(&self) -> SpawnCooldown {
        self.cooldown
    }

    /// The keyboard route rotation.
    pub closed spec fn routes(&self) -> RouteCycle {
        self.routes
    }

    /// State of the random generator.
    pub closed spec fn rng_state(&self) -> u32 {
        self.rng.state()
    }

    /// Numbering from 1, no spawn recorded, every approach at its first route, a seeded
    /// generator.
    pub fn new() -> (control: Self)
        ensures
            control.next_id() == 1,
            control.cooldown().period() == SPAWN_COOLDOWN_NS,
            forall|a: Cardinal| #[trigger] control.cooldown().last(a) == None::<u64>,
            forall|a: Cardinal| #[trigger] control.routes().count(a) == 0,
            control.rng_state() != 0,
    {
        SpawnControl {
            next_id: 1,
            routes: RouteCycle::new(),
            cooldown: SpawnCooldown::new(),
            rng: SpawnRng::new(),
        }
    }

    /// Nanoseconds on the spawn clock now.
    pub fn now_ns(&self) -> (now: u64)
        ensures
            exists|elapsed: u128| now == #[trigger] saturated_nanos(elapsed),
    {
        self.cooldown.now_ns()
    }

    /// Number the next spawned vehicle gets.
    pub fn next_vehicle_number(&self) -> (n: u64)
        ensures
            n == self.next_id(),
    {
        self.next_id
    }

    /// Decide a spawn request at time `now`, given whether its lane has room and whether a
    /// vehicle on the lane is too close to the spawn position. An admitted spawn takes the
    /// next vehicle number and is recorded on its approach.
    pub fn try_spawn_at(&mut self, req: SpawnRequest, now: u64, room: bool, too_close: bool) -> (id: Option<VehicleId>)
        requires
            old(self).next_id() < u64::MAX,
        ensures
            ({
                let admitted = spawn_admitted(
                    old(self).cooldown().last(req.approach),
                    now,
                    old(self).cooldown().period(),
                    room,
                    too_close,
                );
                &&& admitted ==> id == Some(VehicleId(old(self).next_id()))
                    && final(self).next_id() == old(self).next_id() + 1
                    && final(self).cooldown().last(req.approach) == Some(now)
                &&& !admitted ==> id == None::<VehicleId> && final(self).next_id() == old(self).next_id()
                    && final(self).cooldown().last(req.approach) == old(self).cooldown().last(req.approach)
            }),
            final(self).cooldown().period() == old(self).cooldown().period(),
            forall|a: Cardinal|
                a != req.approach ==> #[trigger] final(self).cooldown().last(a) == old(self).cooldown().last(a),
            final(self).routes() == old(self).routes(),
            final(self).rng_state() == old(self).rng_state(),
    {
        if !self.cooldown.allows_at(req.approach, now) {
            return None;
        }
        if !room || too_close {
            return None;
        }
        let id = VehicleId(self.next_id);
        self.next_id = self.next_id + 1;
        self.cooldown.record_at(req.approach, now);
        Some(id)
    }

    /// Decide a spawn request now, on the spawn clock.
    pub fn try_spawn(&mut self, req: SpawnRequest, room: bool, too_close: bool) -> (id: Option<VehicleId>)
        requires
            old(self).next_id() < u64::MAX,
        ensures
            id is Some ==> room && !too_close && id == Some(VehicleId(old(self).next_id()))
                && final(self).next_id() == old(self).next_id() + 1
                && final(self).cooldown().last(req.approach) is Some,
            id is None ==> final(self).next_id() == old(self).next_id()
                && final(self).cooldown().last(req.approach) == old(self).cooldown().last(req.approach),
            old(self).cooldown().last(req.approach) is None && room && !too_close ==> id is Some,
            exists|now: u64|
                {
                    &&& #[trigger] spawn_admitted(
                        old(self).cooldown().last(req.approach),
                        now,
                        old(self).cooldown().period(),
                        room,
                        too_close,
                    ) ==> id is Some && final(self).cooldown().last(req.approach) == Some(now)
                    &&& !spawn_admitted(
                        old(self).cooldown().last(req.approach),
                        now,
                        old(self).cooldown().period(),
                        room,
                        too_close,
                    ) ==> id is None
                },
            final(self).cooldown().period() == old(self).cooldown().period(),
            forall|a: Cardinal|
                a != req.approach ==> #[trigger] final(self).cooldown().last(a) == old(self).cooldown().last(a),
            final(self).routes() == old(self).routes(),
            final(self).rng_state() == old(self).rng_state(),
    {
        let now = self.now_ns();
        let id = self.try_spawn_at(req, now, room, too_close);
        assert(spawn_admitted(old(self).cooldown().last(req.approach), now, old(self).cooldown().period(), room, too_close)
            ==> self.cooldown().last(req.approach) == Some(now));
        id
    }

    /// The route the next keyboard spawn on `approach` takes.
    pub fn route_for_approach(&self, approach: Cardinal) -> (route: Route)
        ensures
            route == Route::from_index((self.routes().count(approach) % 3) as int),
    {
        self.routes.route_for_approach(approach)
    }

    /// Decide a keyboard spawn on `approach` at time `now`, on the lane of the approach's next
    /// route (`room` and `too_close` describe that lane). The rotation advances only when the
    /// spawn is admitted.
    pub fn spawn_on_approach_at(&mut self, approach: Cardinal, now: u64, room: bool, too_close: bool) -> (id: Option<VehicleId>)
        requires
            old(self).next_id() < u64::MAX,
        ensures
            ({
                let admitted = spawn_admitted(
                    old(self).cooldown().last(approach),
                    now,
                    old(self).cooldown().period(),
                    room,
                    too_close,
                );
                &&& admitted ==> id == Some(VehicleId(old(self).next_id()))
                    && final(self).next_id() == old(self).next_id() + 1
                    && final(self).cooldown().last(approach) == Some(now)
                    && final(self).routes().count(approach) == (old(self).routes().count(approach) + 1)
                    % 256
                &&& !admitted ==> id == None::<VehicleId> && final(self).next_id() == old(self).next_id()
                    && final(self).cooldown().last(approach) == old(self).cooldown().last(approach)
                    && final(self).routes() == old(self).routes()
            }),
            final(self).cooldown().period() == old(self).cooldown().period(),
            forall|a: Cardinal|
                a != approach ==> #[trigger] final(self).cooldown().last(a) == old(self).cooldown().last(a),
            forall|a: Cardinal|
                a != approach ==> #[trigger] final(self).routes().count(a) == old(self).routes().count(a),
            final(self).rng_state() == old(self).rng_state(),
    {
        let route = self.routes.route_for_approach(approach);
        let id = self.try_spawn_at(SpawnRequest::new(approach, route), now, room, too_close);
        if id.is_some() {
            self.routes.advance_route_for_approach(approach);
        }
        id
    }

    /// Pick a random approach, then a random route, for the random spawn stream.
    pub fn pick_random_request(&mut self) -> (req: SpawnRequest)
        ensures
            ({
                let s1 = xorshift32(old(self).rng_state());
                let s2 = xorshift32(s1);
                &&& req.approach == Cardinal::from_index((s1 % 4) as int)
                &&& req.route == Route::from_index((s2 % 3) as int)
                &&& req.lane_id.0 == lane_number(req.approach, req.route)
                &&& final(self).rng_state() == s2
            }),
            final(self).next_id() == old(self).next_id(),
            final(self).cooldown() == old(self).cooldown(),
            final(self).routes() == old(self).routes(),
    {
        let approach = self.rng.pick_cardinal();
        let route = self.rng.pick_route();
        SpawnRequest::new(approach, route)
    }

    /// Clear the spawn record of every approach, so that the next spawn anywhere is not held
    /// back by the cooldown.
    pub fn force_cooldowns_expired(&mut self)
        ensures
            forall|a: Cardinal| #[trigger] final(self).cooldown().last(a) == None::<u64>,
            final(self).cooldown().period() == old(self).cooldown().period(),
            final(self).next_id() == old(self).next_id(),
            final(self).routes() == old(self).routes(),
            final(self).rng_state() == old(self).rng_state(),
    {
        let mut k: usize = 0;
        while k < 4
            invariant
                k <= 4,
                forall|j: int| 0 <= j < k ==> #[trigger] self.cooldown.last(Cardinal::from_index(j)) == None::<u64>,
                self.cooldown.period() == old(self).cooldown().period(),
                self.next_id == old(self).next_id(),
                self.routes == old(self).routes(),
                self.rng.state() == old(self).rng_state(),
            decreases 4 - k,
        {
            self.cooldown.clear(Cardinal::ALL[k]);
            k = k + 1;
        }
        assert forall|a: Cardinal| #[trigger] self.cooldown.last(a) == None::<u64> by {
            assert(a == Cardinal::from_index(a.index() as int));
        }
    }
}

impl Default for SpawnControl {
    fn default() -> (control: Self)
        ensures
            control.next_id() == 1,
            control.cooldown().period() == SPAWN_COOLDOWN_NS,
            forall|a: Cardinal| #[trigger] control.cooldown().last(a) == None::<u64>,
            forall|a: Cardinal| #[trigger] control.routes().count(a) == 0,
            control.rng_state() != 0,
    {
        Self::new()
    }
}

/// Keyboard spawns on an approach rotate through all three routes: three successive admitted
/// spawns from rotation count `c` take three different routes, as long as the 8-bit count does
/// not wrap in between.
pub proof fn lemma_route_rotation(c: u8)
    requires
        c <= 253,
    ensures
        ({
            let r0 = Route::from_index((c % 3) as int);
            let r1 = Route::from_index((((c + 1) % 256) as u8 % 3) as int);
            let r2 = Route::from_index((((c + 2) % 256) as u8 % 3) as int);
            r0 != r1 && r1 != r2 && r0 != r2
        }),
{
}

} // verus!
