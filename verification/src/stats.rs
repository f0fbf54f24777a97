//! Session statistics: counters, per-vehicle dedup of zone entries and close calls, and
//! bounds of velocities and crossing times.
//!
//! Velocities and crossing times are held as order keys: the bit pattern of a nonnegative
//! `f32` value, which orders as the value does. The sum of crossing times and the derived
//! average are real-valued and are kept beside these statistics by the caller.

use std::collections::{HashMap, HashSet};

use vstd::prelude::*;

use crate::vehicle::{VehicleId, VehicleState};

verus! {

/// Order key of `f32::MAX`: the value of a minimum bound before any sample.
pub const UNSET_MIN_KEY: u32 = 0x7f7f_ffff;

/// Session metrics displayed on exit.
#[derive(Debug, Clone, Copy, PartialEq, Eq, Structural)]
pub struct Stats {
    pub vehicles_passed: u32,
    /// Highest count of vehicles that completed a crossing.
    pub max_vehicles_passed: u32,
    /// Order key of the largest velocity sample (0 before any sample).
    pub max_velocity: u32,
    /// Order key of the smallest velocity sample ([`UNSET_MIN_KEY`] before any sample).
    pub min_velocity: u32,
    /// Order key of the longest crossing time (0 before any crossing).
    pub max_crossing_time: u32,
    /// Order key of the shortest crossing time ([`UNSET_MIN_KEY`] before any crossing).
    pub min_crossing_time: u32,
    pub close_calls: u32,
    /// Peak simultaneous vehicles in the managed/exiting zone.
    pub peak_concurrent_in_zone: u32,
    /// Distinct vehicles that entered the smart intersection zone.
    pub vehicles_entered_zone: u32,
}

/// Statistics of a session in which nothing happened yet.
pub open spec fn initial_stats() -> Stats {
    Stats {
        vehicles_passed: 0,
        max_vehicles_passed: 0,
        max_velocity: 0,
        min_velocity: UNSET_MIN_KEY,
        max_crossing_time: 0,
        min_crossing_time: UNSET_MIN_KEY,
        close_calls: 0,
        peak_concurrent_in_zone: 0,
        vehicles_entered_zone: 0,
    }
}

impl Stats {
    /// Empty statistics.
    pub fn new() -> (stats: Self)
        ensures
            stats == initial_stats(),
    {
        Stats {
            vehicles_passed: 0,
            max_vehicles_passed: 0,
            max_velocity: 0,
            min_velocity: UNSET_MIN_KEY,
            max_crossing_time: 0,
            min_crossing_time: UNSET_MIN_KEY,
            close_calls: 0,
            peak_concurrent_in_zone: 0,
            vehicles_entered_zone: 0,
        }
    }
}

impl Default for Stats {
    fn default() -> (stats: Self)
        ensures
            stats == initial_stats(),
    {
        Stats::new()
    }
}

/// Events fed into the statistics from the simulation loop. A value given as an order key is
/// `None` where it does not count toward the bounds: a negative or NaN velocity, a crossing
/// time that is not above zero or is NaN.
#[derive(Debug, Clone, Copy)]
pub enum StatsEvent {
    VehicleManaged { id: VehicleId },
    VehicleExited { id: VehicleId, crossing_time: Option<u32>, peak_velocity: Option<u32> },
    CloseCall { ids: (VehicleId, VehicleId) },
    VelocitySample { id: VehicleId, v: Option<u32> },
}

/// An upper bound after a sample: raised to the sample where the sample is larger.
pub open spec fn raised(bound: u32, sample: Option<u32>) -> u32 {
    match sample {
        Some(k) => if k > bound {
            k
        } else {
            bound
        },
        None => bound,
    }
}

/// A lower bound after a sample: lowered to the sample where the sample is smaller.
pub open spec fn lowered(bound: u32, sample: Option<u32>) -> u32 {
    match sample {
        Some(k) => if k < bound {
            k
        } else {
            bound
        },
        None => bound,
    }
}

/// The counter that the event increments has room.
pub open spec fn event_fits(s: Stats, event: StatsEvent) -> bool {
    match event {
        StatsEvent::VehicleManaged { .. } => s.vehicles_entered_zone < u32::MAX,
        StatsEvent::VehicleExited { .. } => s.vehicles_passed < u32::MAX,
        StatsEvent::CloseCall { .. } => s.close_calls < u32::MAX,
        StatsEvent::VelocitySample { .. } => true,
    }
}

/// The statistics after one event.
pub open spec fn after_event(s: Stats, event: StatsEvent) -> Stats {
    match event {
        StatsEvent::VehicleManaged { .. } => Stats {
            vehicles_entered_zone: (s.vehicles_entered_zone + 1) as u32,
            ..s
        },
        StatsEvent::VehicleExited { crossing_time, peak_velocity, .. } => {
            let passed = (s.vehicles_passed + 1) as u32;
            Stats {
                vehicles_passed: passed,
                max_vehicles_passed: if passed > s.max_vehicles_passed {
                    passed
                } else {
                    s.max_vehicles_passed
                },
                max_velocity: raised(s.max_velocity, peak_velocity),
                min_velocity: lowered(s.min_velocity, peak_velocity),
                max_crossing_time: raised(s.max_crossing_time, crossing_time),
                min_crossing_time: lowered(s.min_crossing_time, crossing_time),
                ..s
            }
        },
        StatsEvent::CloseCall { .. } => Stats { close_calls: (s.close_calls + 1) as u32, ..s },
        StatsEvent::VelocitySample { v, .. } => Stats {
            max_velocity: raised(s.max_velocity, v),
            min_velocity: lowered(s.min_velocity, v),
            ..s
        },
    }
}

fn raise(bound: u32, sample: Option<u32>) -> (b: u32)
    ensures
        b == raised(bound, sample),
{
    match sample {
        Some(k) => if k > bound {
            k
        } else {
            bound
        },
        None => bound,
    }
}

fn lower(bound: u32, sample: Option<u32>) -> (b: u32)
    ensures
        b == lowered(bound, sample),
{
    match sample {
        Some(k) => if k < bound {
            k
        } else {
            bound
        },
        None => bound,
    }
}

/// Apply a single statistics event.
pub fn apply_event(stats: &mut Stats, event: StatsEvent)
    requires
        event_fits(*old(stats), event),
    ensures
        *final(stats) == after_event(*old(stats), event),
{
    match event {
        StatsEvent::VehicleManaged { .. } => {
            stats.vehicles_entered_zone = stats.vehicles_entered_zone + 1;
        },
        StatsEvent::VehicleExited { crossing_time, peak_velocity, .. } => {
            stats.vehicles_passed = stats.vehicles_passed + 1;
            if stats.vehicles_passed > stats.max_vehicles_passed {
                stats.max_vehicles_passed = stats.vehicles_passed;
            }
            stats.max_velocity = raise(stats.max_velocity, peak_velocity);
            stats.min_velocity = lower(stats.min_velocity, peak_velocity);
            stats.max_crossing_time = raise(stats.max_crossing_time, crossing_time);
            stats.min_crossing_time = lower(stats.min_crossing_time, crossing_time);
        },
        StatsEvent::CloseCall { .. } => {
            stats.close_calls = stats.close_calls + 1;
        },
        StatsEvent::VelocitySample { v, .. } => {
            stats.max_velocity = raise(stats.max_velocity, v);
            stats.min_velocity = lower(stats.min_velocity, v);
        },
    }
}

/// What the statistics read of one vehicle in a frame.
#[derive(Debug, Clone, Copy, PartialEq, Eq, Structural)]
pub struct VehicleSample {
    pub id: VehicleId,
    pub state: VehicleState,
    /// Order key of the velocity, `None` where the velocity is negative or NaN.
    pub velocity: Option<u32>,
}

/// The vehicle occupies the zone area: managed or exiting.
pub open spec fn occupies_zone(v: VehicleSample) -> bool {
    v.state == VehicleState::Managed || v.state == VehicleState::Exiting
}

/// Number of samples of vehicles that occupy the zone area.
pub open spec fn zone_count(vs: Seq<VehicleSample>) -> nat
    decreases vs.len(),
{
    if vs.len() == 0 {
        0
    } else {
        zone_count(vs.drop_last()) + if occupies_zone(vs.last()) {
            1nat
        } else {
            0nat
        }
    }
}

/// The set of vehicles counted as having entered the zone, after samples `vs`.
pub open spec fn managed_after(managed: Set<u64>, vs: Seq<VehicleSample>) -> Set<u64>
    decreases vs.len(),
{
    if vs.len() == 0 {
        managed
    } else {
        let prev = managed_after(managed, vs.drop_last());
        if vs.last().state == VehicleState::Managed {
            prev.insert(vs.last().id.0)
        } else {
            prev
        }
    }
}

/// Number of vehicles counted as newly entering the zone while samples `vs` are observed.
pub open spec fn zone_entries(managed: Set<u64>, vs: Seq<VehicleSample>) -> nat
    decreases vs.len(),
{
    if vs.len() == 0 {
        0
    } else {
        zone_entries(managed, vs.drop_last()) + if vs.last().state == VehicleState::Managed
            && !managed_after(managed, vs.drop_last()).contains(vs.last().id.0) {
            1nat
        } else {
            0nat
        }
    }
}

/// Peak velocity of a vehicle after a sample: the larger of the previous peak (0 when there
/// is none) and the sample.
pub open spec fn peak_after(peaks: Map<u64, u32>, v: VehicleSample) -> u32 {
    let prev = if peaks.contains_key(v.id.0) {
        peaks[v.id.0]
    } else {
        0u32
    };
    raised(prev, v.velocity)
}

/// Statistics, peak velocities and counted zone entries after observing one sample. Vehicles
/// that are done are skipped.
pub open spec fn observe_one(st: (Stats, Map<u64, u32>, Set<u64>), v: VehicleSample) -> (
    Stats,
    Map<u64, u32>,
    Set<u64>,
) {
    if v.state == VehicleState::Done {
        st
    } else {
        let stats = after_event(st.0, StatsEvent::VelocitySample { id: v.id, v: v.velocity });
        let peaks = st.1.insert(v.id.0, peak_after(st.1, v));
        if v.state == VehicleState::Managed && !st.2.contains(v.id.0) {
            (after_event(stats, StatsEvent::VehicleManaged { id: v.id }), peaks, st.2.insert(v.id.0))
        } else {
            (stats, peaks, st.2)
        }
    }
}

/// Observing the samples `vs` in order.
pub open spec fn observe_all(st: (Stats, Map<u64, u32>, Set<u64>), vs: Seq<VehicleSample>) -> (
    Stats,
    Map<u64, u32>,
    Set<u64>,
)
    decreases vs.len(),
{
    if vs.len() == 0 {
        st
    } else {
        observe_one(observe_all(st, vs.drop_last()), vs.last())
    }
}

/// Observing one more sample never narrows what was observed before: the velocity bounds only
/// widen and every recorded peak stays recorded and only grows.
proof fn lemma_observe_one_widens(st: (Stats, Map<u64, u32>, Set<u64>), v: VehicleSample)
    ensures
        observe_one(st, v).0.max_velocity >= st.0.max_velocity,
        observe_one(st, v).0.min_velocity <= st.0.min_velocity,
        forall|id: u64|
            st.1.contains_key(id) ==> #[trigger] observe_one(st, v).1.contains_key(id)
                && observe_one(st, v).1[id] >= st.1[id],
{
}

/// Every sample of a vehicle that is not done counts toward the velocity bounds and its
/// vehicle's peak: after observing samples in which vehicle `vs[i]` (approaching, managed or
/// exiting) was seen at velocity key `k`, the largest velocity is at least `k`, the smallest at
/// most `k`, and that vehicle's recorded peak at least `k`.
pub proof fn lemma_observed_sample_within_bounds(
    st: (Stats, Map<u64, u32>, Set<u64>),
    vs: Seq<VehicleSample>,
    i: int,
)
    requires
        0 <= i < vs.len(),
        vs[i].state != VehicleState::Done,
        vs[i].velocity is Some,
    ensures
        ({
            let end = observe_all(st, vs);
            let k = vs[i].velocity->0;
            &&& end.0.max_velocity >= k
            &&& end.0.min_velocity <= k
            &&& end.1.contains_key(vs[i].id.0)
            &&& end.1[vs[i].id.0] >= k
        }),
    decreases vs.len(),
{
    let prev = observe_all(st, vs.drop_last());
    if i == vs.len() - 1 {
        assert(vs.last() == vs[i]);
    } else {
        lemma_observed_sample_within_bounds(st, vs.drop_last(), i);
        assert(vs.drop_last()[i] == vs[i]);
        lemma_observe_one_widens(prev, vs.last());
    }
}

/// A sample of a vehicle that is done changes nothing.
pub proof fn lemma_done_sample_ignored(st: (Stats, Map<u64, u32>, Set<u64>), vs: Seq<VehicleSample>, v: VehicleSample)
    requires
        v.state == VehicleState::Done,
    ensures
        observe_all(st, vs.push(v)) == observe_all(st, vs),
{
    assert(vs.push(v).drop_last() =~= vs);
}

/// Code of an unordered vehicle pair: the smaller number in the high 64 bits.
pub open spec fn pair_code(a: VehicleId, b: VehicleId) -> u128 {
    let (lo, hi) = if a.0 <= b.0 {
        (a.0, b.0)
    } else {
        (b.0, a.0)
    };
    (lo as u128 * 0x1_0000_0000_0000_0000 + hi as u128) as u128
}

/// Tracks per-vehicle peaks and deduplicates zone entries and close calls over a session.
#[derive(Debug)]
pub struct StatsSession {
    pub stats: Stats,
    peak_velocity: HashMap<u64, u32>,
    managed_ids: HashSet<u64>,
    close_call_pairs: HashSet<u128>,
}

impl StatsSession {
    /// The session's statistics.
    pub closed spec fn totals(&self) -> Stats {
        self.stats
    }

    /// Peak velocity key of each vehicle seen and not yet exited, by vehicle number.
    pub closed spec fn peaks(&self) -> Map<u64, u32> {
        self.peak_velocity@
    }

    /// Vehicles counted as having entered the zone and not yet exited.
    pub closed spec fn managed(&self) -> Set<u64> {
        self.managed_ids@
    }

    /// Codes of the vehicle pairs whose close call was counted.
    pub closed spec fn close_call_log(&self) -> Set<u128> {
        self.close_call_pairs@
    }

    /// A session in which nothing happened yet.
    pub fn new() -> (session: Self)
        ensures
            session.totals() == initial_stats(),
            session.peaks() == Map::<u64, u32>::empty(),
            session.managed() == Set::<u64>::empty(),
            session.close_call_log() == Set::<u128>::empty(),
    {
        StatsSession {
            stats: Stats::new(),
            peak_velocity: HashMap::new(),
            managed_ids: HashSet::new(),
            close_call_pairs: HashSet::new(),
        }
    }

    /// Sample the active vehicles of a frame: the peak of vehicles in the zone area, velocity
    /// bounds, per-vehicle peak velocity, and the first sighting of each managed vehicle.
    pub fn observe_vehicles(&mut self, vehicles: &[VehicleSample])
        requires
            vehicles@.len() <= u32::MAX,
            old(self).totals().vehicles_entered_zone + zone_entries(old(self).managed(), vehicles@)
                <= u32::MAX,
        ensures
            ({
                let count = zone_count(vehicles@);
                let peak = if count > old(self).totals().peak_concurrent_in_zone {
                    count as u32
                } else {
                    old(self).totals().peak_concurrent_in_zone
                };
                let start = (
                    Stats { peak_concurrent_in_zone: peak, ..old(self).totals() },
                    old(self).peaks(),
                    old(self).managed(),
                );
                let end = observe_all(start, vehicles@);
                &&& final(self).totals() == end.0
                &&& final(self).peaks() == end.1
                &&& final(self).managed() == end.2
            }),
            final(self).close_call_log() == old(self).close_call_log(),
    {
        broadcast use vstd::std_specs::hash::group_hash_axioms;

        let count = zone_occupancy(vehicles);
        if count > self.stats.peak_concurrent_in_zone {
            self.stats.peak_concurrent_in_zone = count;
        }
        let ghost start = (self.stats, self.peaks(), self.managed());
        let ghost m0 = self.managed();
        let ghost entered0 = self.stats.vehicles_entered_zone;
        let mut i: usize = 0;
        while i < vehicles.len()
            invariant
                i <= vehicles@.len(),
                m0 == start.2,
                entered0 == start.0.vehicles_entered_zone,
                entered0 + zone_entries(m0, vehicles@) <= u32::MAX,
                ({
                    let cur = observe_all(start, vehicles@.take(i as int));
                    &&& self.stats == cur.0
                    &&& self.peaks() == cur.1
                    &&& self.managed() == cur.2
                }),
                self.managed() == managed_after(m0, vehicles@.take(i as int)),
                self.stats.vehicles_entered_zone == entered0 + zone_entries(m0, vehicles@.take(i as int)),
                self.close_call_log() == old(self).close_call_log(),
            decreases vehicles@.len() - i,
        {
            let v = vehicles[i];
            proof {
                assert(vehicles@.take(i + 1).drop_last() =~= vehicles@.take(i as int));
                assert(vehicles@.take(i + 1).last() == v);
                lemma_zone_entries_prefix(m0, vehicles@, i + 1);
            }
            if v.state != VehicleState::Done {
                apply_event(&mut self.stats, StatsEvent::VelocitySample { id: v.id, v: v.velocity });
                let prev = match self.peak_velocity.get(&v.id.0) {
                    Some(p) => *p,
                    None => 0,
                };
                let peak = raise(prev, v.velocity);
                self.peak_velocity.insert(v.id.0, peak);
                if v.state == VehicleState::Managed && self.managed_ids.insert(v.id.0) {
                    apply_event(&mut self.stats, StatsEvent::VehicleManaged { id: v.id });
                }
            }
            i = i + 1;
        }
        proof {
            assert(vehicles@.take(vehicles@.len() as int) =~= vehicles@);
        }
    }

    /// Record a vehicle that left the canvas after entering the managed zone: it counts as
    /// passed with its peak velocity (0 when none was sampled) and its crossing time.
    pub fn record_exit(&mut self, id: VehicleId, crossing_time: Option<u32>)
        requires
            old(self).totals().vehicles_passed < u32::MAX,
        ensures
            ({
                let peak = if old(self).peaks().contains_key(id.0) {
                    old(self).peaks()[id.0]
                } else {
                    0u32
                };
                final(self).totals() == after_event(
                    old(self).totals(),
                    StatsEvent::VehicleExited { id, crossing_time, peak_velocity: Some(peak) },
                )
            }),
            final(self).peaks() == old(self).peaks().remove(id.0),
            final(self).managed() == old(self).managed().remove(id.0),
            final(self).close_call_log() == old(self).close_call_log(),
    {
        broadcast use vstd::std_specs::hash::group_hash_axioms;

        let peak = match self.peak_velocity.remove(&id.0) {
            Some(p) => p,
            None => 0,
        };
        apply_event(
            &mut self.stats,
            StatsEvent::VehicleExited { id, crossing_time, peak_velocity: Some(peak) },
        );
        self.managed_ids.remove(&id.0);
    }

    /// Record a close call between two vehicles; it is counted once per vehicle pair per
    /// session, whichever way round the pair is given.
    pub fn record_close_call(&mut self, a: VehicleId, b: VehicleId)
        requires
            !old(self).close_call_log().contains(pair_code(a, b)) ==> old(self).totals().close_calls
                < u32::MAX,
        ensures
            old(self).close_call_log().contains(pair_code(a, b)) ==> final(self).totals() == old(self).totals() && final(self).close_call_log() == old(self).close_call_log(),
            !old(self).close_call_log().contains(pair_code(a, b)) ==> final(self).totals()
                == after_event(old(self).totals(), StatsEvent::CloseCall { ids: (a, b) })
                && final(self).close_call_log() == old(self).close_call_log().insert(
                pair_code(a, b),
            ),
            final(self).peaks() == old(self).peaks(),
            final(self).managed() == old(self).managed(),
    {
        broadcast use vstd::std_specs::hash::group_hash_axioms;

        let code = vehicle_pair_code(a, b);
        if !self.close_call_pairs.insert(code) {
            return;
        }
        apply_event(&mut self.stats, StatsEvent::CloseCall { ids: (a, b) });
    }
}

impl Default for StatsSession {
    fn default() -> (session: Self)
        ensures
            session.totals() == initial_stats(),
            session.peaks() == Map::<u64, u32>::empty(),
            session.managed() == Set::<u64>::empty(),
            session.close_call_log() == Set::<u128>::empty(),
    {
        StatsSession::new()
    }
}

fn vehicle_pair_code(a: VehicleId, b: VehicleId) -> (code: u128)
    ensures
        code == pair_code(a, b),
{
    let (lo, hi) = if a.0 <= b.0 {
        (a.0, b.0)
    } else {
        (b.0, a.0)
    };
    assert(lo as u128 * 0x1_0000_0000_0000_0000 + hi as u128 <= u128::MAX) by (nonlinear_arith)
        requires
            lo <= u64::MAX,
            hi <= u64::MAX,
    ;
    (lo as u128) * 0x1_0000_0000_0000_0000u128 + (hi as u128)
}

/// Number of samples of vehicles in the zone area.
fn zone_occupancy(vehicles: &[VehicleSample]) -> (count: u32)
    requires
        vehicles@.len() <= u32::MAX,
    ensures
        count == zone_count(vehicles@),
{
    let mut count: u32 = 0;
    let mut i: usize = 0;
    while i < vehicles.len()
        invariant
            i <= vehicles@.len() <= u32::MAX,
            count == zone_count(vehicles@.take(i as int)),
            count <= i,
        decreases vehicles@.len() - i,
    {
        assert(vehicles@.take(i + 1).drop_last() =~= vehicles@.take(i as int));
        if vehicles[i].state == VehicleState::Managed || vehicles[i].state == VehicleState::Exiting {
            count = count + 1;
        }
        i = i + 1;
    }
    assert(vehicles@.take(vehicles@.len() as int) =~= vehicles@);
    count
}

proof fn lemma_zone_entries_prefix(managed: Set<u64>, vs: Seq<VehicleSample>, i: int)
    requires
        0 <= i <= vs.len(),
    ensures
        zone_entries(managed, vs.take(i)) <= zone_entries(managed, vs),
    decreases vs.len(),
{
    if i < vs.len() {
        assert(vs.drop_last().take(i) =~= vs.take(i));
        lemma_zone_entries_prefix(managed, vs.drop_last(), i);
    } else {
        assert(vs.take(i) =~= vs);
    }
}

/// A close call is logged once per unordered pair: the pair code ignores the order of the two
/// vehicles, and two pairs share a code only when they hold the same two vehicles.
pub proof fn lemma_pair_code_unordered(a: VehicleId, b: VehicleId, c: VehicleId, d: VehicleId)
    ensures
        pair_code(a, b) == pair_code(b, a),
        pair_code(a, b) == pair_code(c, d) <==> (a == c && b == d) || (a == d && b == c),
{
    let (lo1, hi1) = if a.0 <= b.0 {
        (a.0, b.0)
    } else {
        (b.0, a.0)
    };
    let (lo2, hi2) = if c.0 <= d.0 {
        (c.0, d.0)
    } else {
        (d.0, c.0)
    };
    assert(lo1 as u128 * 0x1_0000_0000_0000_0000 + hi1 as u128 <= u128::MAX) by (nonlinear_arith)
        requires
            lo1 <= u64::MAX,
            hi1 <= u64::MAX,
    ;
    assert(lo2 as u128 * 0x1_0000_0000_0000_0000 + hi2 as u128 <= u128::MAX) by (nonlinear_arith)
        requires
            lo2 <= u64::MAX,
            hi2 <= u64::MAX,
    ;
    if pair_code(a, b) == pair_code(c, d) {
        assert(lo1 == lo2 && hi1 == hi2) by (nonlinear_arith)
            requires
                lo1 * 0x1_0000_0000_0000_0000int + hi1 == lo2 * 0x1_0000_0000_0000_0000int + hi2,
                0 <= hi1 < 0x1_0000_0000_0000_0000int,
                0 <= hi2 < 0x1_0000_0000_0000_0000int,
                0 <= lo1,
                0 <= lo2,
        ;
    }
}

proof fn lemma_managed_after_grows(managed: Set<u64>, vs: Seq<VehicleSample>)
    ensures
        managed.subset_of(managed_after(managed, vs)),
        forall|k: int|
            0 <= k < vs.len() && (#[trigger] vs[k]).state == VehicleState::Managed ==> managed_after(
                managed,
                vs,
            ).contains(vs[k].id.0),
    decreases vs.len(),
{
    if vs.len() > 0 {
        lemma_managed_after_grows(managed, vs.drop_last());
        assert forall|k: int|
            0 <= k < vs.len() && (#[trigger] vs[k]).state == VehicleState::Managed implies managed_after(
                managed,
                vs,
            ).contains(vs[k].id.0) by {
            if k < vs.len() - 1 {
                assert(vs.drop_last()[k] == vs[k]);
            }
        }
    }
}

proof fn lemma_no_entries_when_counted(managed: Set<u64>, vs: Seq<VehicleSample>)
    requires
        forall|k: int|
            0 <= k < vs.len() && (#[trigger] vs[k]).state == VehicleState::Managed ==> managed.contains(
                vs[k].id.0,
            ),
    ensures
        zone_entries(managed, vs) == 0,
    decreases vs.len(),
{
    if vs.len() > 0 {
        let prefix = vs.drop_last();
        assert forall|k: int|
            0 <= k < prefix.len() && (#[trigger] prefix[k]).state == VehicleState::Managed implies managed.contains(
                prefix[k].id.0,
            ) by {
            assert(prefix[k] == vs[k]);
        }
        lemma_no_entries_when_counted(managed, prefix);
        lemma_managed_after_grows(managed, prefix);
        if vs.last().state == VehicleState::Managed {
            assert(vs[vs.len() - 1] == vs.last());
        }
    }
}

/// Each vehicle counts once as entering the zone: observing the same frame again after it was
/// observed counts no new zone entry.
pub proof fn lemma_zone_entry_counted_once(managed: Set<u64>, vs: Seq<VehicleSample>)
    ensures
        zone_entries(managed_after(managed, vs), vs) == 0,
{
    lemma_managed_after_grows(managed, vs);
    lemma_no_entries_when_counted(managed_after(managed, vs), vs);
}

/// The maximum count of passed vehicles follows the passed count: where the two agree, they
/// still agree after any event.
pub proof fn lemma_max_passed_tracks_passed(s: Stats, event: StatsEvent)
    requires
        s.max_vehicles_passed == s.vehicles_passed,
        event_fits(s, event),
    ensures
        after_event(s, event).max_vehicles_passed == after_event(s, event).vehicles_passed,
{
}

/// A counted sample lies within the bounds after it is recorded: a velocity sample between
/// the velocity bounds, an exit's crossing time between the crossing-time bounds.
pub proof fn lemma_sample_within_bounds(s: Stats, id: VehicleId, v: u32, t: u32, peak: Option<u32>)
    ensures
        after_event(s, StatsEvent::VelocitySample { id, v: Some(v) }).min_velocity <= v,
        v <= after_event(s, StatsEvent::VelocitySample { id, v: Some(v) }).max_velocity,
        after_event(
            s,
            StatsEvent::VehicleExited { id, crossing_time: Some(t), peak_velocity: peak },
        ).min_crossing_time <= t,
        t <= after_event(
            s,
            StatsEvent::VehicleExited { id, crossing_time: Some(t), peak_velocity: peak },
        ).max_crossing_time,
{
}

/// The statistics after the events, in order, starting from empty statistics.
pub open spec fn stats_after(events: Seq<StatsEvent>) -> Stats
    decreases events.len(),
{
    if events.len() == 0 {
        initial_stats()
    } else {
        after_event(stats_after(events.drop_last()), events.last())
    }
}

/// Number of vehicle exits among the events.
pub open spec fn exit_count(events: Seq<StatsEvent>) -> nat
    decreases events.len(),
{
    if events.len() == 0 {
        0
    } else {
        exit_count(events.drop_last()) + if events.last() is VehicleExited {
            1nat
        } else {
            0nat
        }
    }
}

/// Number of close calls among the events.
pub open spec fn close_call_count(events: Seq<StatsEvent>) -> nat
    decreases events.len(),
{
    if events.len() == 0 {
        0
    } else {
        close_call_count(events.drop_last()) + if events.last() is CloseCall {
            1nat
        } else {
            0nat
        }
    }
}

/// Number of zone entries among the events.
pub open spec fn entry_count(events: Seq<StatsEvent>) -> nat
    decreases events.len(),
{
    if events.len() == 0 {
        0
    } else {
        entry_count(events.drop_last()) + if events.last() is VehicleManaged {
            1nat
        } else {
            0nat
        }
    }
}

/// The velocity sample an event carries toward the velocity bounds.
pub open spec fn velocity_of(event: StatsEvent) -> Option<u32> {
    match event {
        StatsEvent::VelocitySample { v, .. } => v,
        StatsEvent::VehicleExited { peak_velocity, .. } => peak_velocity,
        _ => None,
    }
}

/// The crossing-time sample an event carries toward the crossing-time bounds.
pub open spec fn crossing_of(event: StatsEvent) -> Option<u32> {
    match event {
        StatsEvent::VehicleExited { crossing_time, .. } => crossing_time,
        _ => None,
    }
}

/// The velocity samples of the events, in order.
pub open spec fn velocity_samples(events: Seq<StatsEvent>) -> Seq<Option<u32>> {
    Seq::new(events.len(), |j: int| velocity_of(events[j]))
}

/// The crossing-time samples of the events, in order.
pub open spec fn crossing_samples(events: Seq<StatsEvent>) -> Seq<Option<u32>> {
    Seq::new(events.len(), |j: int| crossing_of(events[j]))
}

/// Every counted sample is a finite value (its key is at most that of `f32::MAX`).
pub open spec fn finite_samples(samples: Seq<Option<u32>>) -> bool {
    forall|j: int| 0 <= j < samples.len() && (#[trigger] samples[j]) is Some ==> samples[j]->0 <= UNSET_MIN_KEY
}

/// `lo` and `hi` are the smallest and largest counted samples; with no counted sample they are
/// the unset minimum and zero.
pub open spec fn extremes(samples: Seq<Option<u32>>, lo: u32, hi: u32) -> bool {
    &&& forall|j: int|
        0 <= j < samples.len() && (#[trigger] samples[j]) is Some ==> lo <= samples[j]->0 <= hi
    &&& (forall|j: int| 0 <= j < samples.len() ==> (#[trigger] samples[j]) is None) ==> hi == 0 && lo
        == UNSET_MIN_KEY
    &&& (exists|j: int| 0 <= j < samples.len() && (#[trigger] samples[j]) is Some) ==> (exists|j: int|
        0 <= j < samples.len() && #[trigger] samples[j] == Some(hi)) && (exists|j: int|
        0 <= j < samples.len() && #[trigger] samples[j] == Some(lo))
}

/// The upper bound after the samples, in order, starting from zero.
pub open spec fn upper_bound_of(samples: Seq<Option<u32>>) -> u32
    decreases samples.len(),
{
    if samples.len() == 0 {
        0
    } else {
        raised(upper_bound_of(samples.drop_last()), samples.last())
    }
}

/// The lower bound after the samples, in order, starting from the unset minimum.
pub open spec fn lower_bound_of(samples: Seq<Option<u32>>) -> u32
    decreases samples.len(),
{
    if samples.len() == 0 {
        UNSET_MIN_KEY
    } else {
        lowered(lower_bound_of(samples.drop_last()), samples.last())
    }
}

/// The bounds kept over finite samples are their extremes.
pub proof fn lemma_bounds_are_extremes(samples: Seq<Option<u32>>)
    requires
        finite_samples(samples),
    ensures
        extremes(samples, lower_bound_of(samples), upper_bound_of(samples)),
    decreases samples.len(),
{
    if samples.len() > 0 {
        let n = samples.len() as int;
        let p = samples.drop_last();
        assert forall|j: int| 0 <= j < p.len() && (#[trigger] p[j]) is Some implies p[j]->0
            <= UNSET_MIN_KEY by {
            assert(p[j] == samples[j]);
        }
        lemma_bounds_are_extremes(p);
        let (lo_p, hi_p) = (lower_bound_of(p), upper_bound_of(p));
        let (lo, hi) = (lower_bound_of(samples), upper_bound_of(samples));
        assert(samples[n - 1] == samples.last());
        assert forall|j: int| 0 <= j < n - 1 implies #[trigger] samples[j] == p[j] by {}
        assert forall|j: int| 0 <= j < n && (#[trigger] samples[j]) is Some implies lo <= samples[j]->0
            <= hi by {
            if j < n - 1 {
                assert(p[j] == samples[j]);
            }
        }
        if samples.last() is Some {
            let k = samples.last()->0;
            if exists|j: int| 0 <= j < p.len() && (#[trigger] p[j]) is Some {
                let wh = choose|j: int| 0 <= j < p.len() && #[trigger] p[j] == Some(hi_p);
                let wl = choose|j: int| 0 <= j < p.len() && #[trigger] p[j] == Some(lo_p);
                if k > hi_p {
                    assert(samples[n - 1] == Some(hi));
                } else {
                    assert(samples[wh] == Some(hi));
                }
                if k < lo_p {
                    assert(samples[n - 1] == Some(lo));
                } else {
                    assert(samples[wl] == Some(lo));
                }
            } else {
                assert forall|j: int| 0 <= j < p.len() implies (#[trigger] p[j]) is None by {}
                assert(samples[n - 1] == Some(hi));
                assert(samples[n - 1] == Some(lo));
            }
        } else {
            if exists|j: int| 0 <= j < n && (#[trigger] samples[j]) is Some {
                let w = choose|j: int| 0 <= j < n && (#[trigger] samples[j]) is Some;
                assert(p[w] is Some);
                let wh = choose|j: int| 0 <= j < p.len() && #[trigger] p[j] == Some(hi_p);
                let wl = choose|j: int| 0 <= j < p.len() && #[trigger] p[j] == Some(lo_p);
                assert(samples[wh] == Some(hi));
                assert(samples[wl] == Some(lo));
            } else {
                assert forall|j: int| 0 <= j < p.len() implies (#[trigger] p[j]) is None by {
                    assert(samples[j] is None);
                }
            }
        }
    }
}

proof fn lemma_stats_after_unfolds(events: Seq<StatsEvent>)
    requires
        exit_count(events) <= u32::MAX,
        close_call_count(events) <= u32::MAX,
        entry_count(events) <= u32::MAX,
    ensures
        ({
            let s = stats_after(events);
            &&& s.vehicles_passed == exit_count(events)
            &&& s.max_vehicles_passed == s.vehicles_passed
            &&& s.close_calls == close_call_count(events)
            &&& s.vehicles_entered_zone == entry_count(events)
            &&& s.peak_concurrent_in_zone == 0
            &&& s.max_velocity == upper_bound_of(velocity_samples(events))
            &&& s.min_velocity == lower_bound_of(velocity_samples(events))
            &&& s.max_crossing_time == upper_bound_of(crossing_samples(events))
            &&& s.min_crossing_time == lower_bound_of(crossing_samples(events))
        }),
    decreases events.len(),
{
    if events.len() > 0 {
        lemma_stats_after_unfolds(events.drop_last());
        assert(velocity_samples(events).drop_last() =~= velocity_samples(events.drop_last()));
        assert(crossing_samples(events).drop_last() =~= crossing_samples(events.drop_last()));
        assert(velocity_samples(events).last() == velocity_of(events.last()));
        assert(crossing_samples(events).last() == crossing_of(events.last()));
    }
}

/// Statistics over a sequence of events: the passed count (and its maximum) is the number of
/// exits, the close-call count the number of close calls, the zone-entry count the number of
/// entries; the velocity bounds are the smallest and largest velocity sample and the
/// crossing-time bounds the shortest and longest crossing time (the unset minimum and zero when
/// there is none), as long as every sample is finite and no count exceeds 32 bits.
pub proof fn lemma_stats_over_events(events: Seq<StatsEvent>)
    requires
        exit_count(events) <= u32::MAX,
        close_call_count(events) <= u32::MAX,
        entry_count(events) <= u32::MAX,
        finite_samples(velocity_samples(events)),
        finite_samples(crossing_samples(events)),
    ensures
        ({
            let s = stats_after(events);
            &&& s.vehicles_passed == exit_count(events)
            &&& s.max_vehicles_passed == s.vehicles_passed
            &&& s.close_calls == close_call_count(events)
            &&& s.vehicles_entered_zone == entry_count(events)
            &&& extremes(velocity_samples(events), s.min_velocity, s.max_velocity)
            &&& extremes(crossing_samples(events), s.min_crossing_time, s.max_crossing_time)
        }),
{
    lemma_stats_after_unfolds(events);
    lemma_bounds_are_extremes(velocity_samples(events));
    lemma_bounds_are_extremes(crossing_samples(events));
}

/// Recording a close call raises the close-call count by one exactly when the unordered pair is
/// new to the session's log, and changes no other statistic; so a pair recorded twice, in
/// either order, counts once.
pub proof fn lemma_close_call_counting(s: Stats, log: Set<u128>, a: VehicleId, b: VehicleId)
    requires
        s.close_calls < u32::MAX,
    ensures
        ({
            let fresh = !log.contains(pair_code(a, b));
            let next = if fresh {
                after_event(s, StatsEvent::CloseCall { ids: (a, b) })
            } else {
                s
            };
            let log2 = if fresh {
                log.insert(pair_code(a, b))
            } else {
                log
            };
            let again = if log2.contains(pair_code(b, a)) {
                next
            } else {
                after_event(next, StatsEvent::CloseCall { ids: (b, a) })
            };
            &&& next.close_calls == s.close_calls + if fresh {
                1int
            } else {
                0int
            }
            &&& Stats { close_calls: s.close_calls, ..next } == s
            &&& again == next
        }),
{
    lemma_pair_code_unordered(a, b, b, a);
}

} // verus!
