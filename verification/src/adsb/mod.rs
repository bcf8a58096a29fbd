//! The tracked population and its reconciliation with a snapshot.

use std::collections::VecDeque;
use vstd::prelude::*;
use crate::adsb::clickhouse::{PlaneData, PlaneDataView};
use crate::adsb::math::{above_zero, is_above_zero, Coordinate, Degrees, Point3, Projection};
use crate::adsb::task_pool::{has_row, record_of, DataFetch};

pub mod clickhouse;
pub mod laws;
pub mod math;
pub mod task_pool;
pub mod text;

verus! {

/// How many past states an aircraft keeps.
pub const HISTORY_CAPACITY: usize = 10;

/// The largest number of aircraft tracked at once.
pub const POPULATION_CAP: u32 = 5_000;

/// Seconds without a relevant change after which an aircraft is evicted.
pub const STALE_AFTER: i64 = 600;

/// The altitude given to a new aircraft: 0.01, just above the ground.
pub const INITIAL_ALTITUDE: u32 = 0x3C23_D70A;

/// The ground speed given to a new aircraft: 0.1.
pub const INITIAL_GROUND_SPEED: u32 = 0x3DCC_CCCD;

/// Seconds by which the clock moves with each completed fetch.
pub const TARGET_DELTA: i64 = 10;

/// The moment at which the simulated clock starts.
pub const START_TIME: &'static str = "2025-12-28T00:00:00Z";

/// What is known of an aircraft at one moment.
#[derive(Clone, Copy, Debug, PartialEq, Eq, Structural)]
pub struct AircraftState {
    pub coordinate: Coordinate,
    pub heading: Degrees,
    pub ground_speed: u32,
    pub altitude: u32,
    /// Simulated time, in seconds, of the last change that counted: the
    /// aircraft was airborne and its drawn position moved.
    pub last_relevant_time: i64,
}

/// A tracked aircraft: its identity, its current state, its past states with
/// the newest first, and the point at which it was last drawn.
#[derive(Debug)]
pub struct Aircraft {
    pub icao: String,
    pub state: AircraftState,
    pub history: VecDeque<AircraftState>,
    pub translation: Point3,
}

/// A tracked aircraft as a mathematical value.
#[verifier::ext_equal]
pub struct AircraftView {
    pub icao: Seq<char>,
    pub state: AircraftState,
    pub history: Seq<AircraftState>,
    pub translation: Point3,
}

impl View for Aircraft {
    type V = AircraftView;

    open spec fn view(&self) -> AircraftView {
        AircraftView {
            icao: self.icao@,
            state: self.state,
            history: self.history@,
            translation: self.translation,
        }
    }
}

/// The point at which a new aircraft is drawn until its first report is
/// projected: (0, 0.5, 0).
pub open spec fn initial_translation() -> Point3 {
    Point3 { x: 0, y: 0x3F00_0000, z: 0 }
}

/// The state has had no relevant change for more than the staleness threshold.
pub open spec fn stale(state: AircraftState, now: i64) -> bool {
    now - state.last_relevant_time > STALE_AFTER
}

/// The history after one more state is put in front: the oldest state drops
/// out once the capacity is passed.
pub open spec fn pushed_history(history: Seq<AircraftState>, state: AircraftState) -> Seq<
    AircraftState,
> {
    let grown = seq![state] + history;
    if grown.len() > HISTORY_CAPACITY {
        grown.drop_last()
    } else {
        grown
    }
}

/// The aircraft after a report was merged at time `now`. The heading comes
/// from the report, coordinate and drawn position from the projection, and the
/// state before the merge goes to the front of the history. The staleness clock
/// restarts only if the aircraft is airborne and its drawn position moved.
pub open spec fn updated(
    aircraft: AircraftView,
    record: PlaneDataView,
    projection: Projection,
    now: i64,
) -> AircraftView {
    AircraftView {
        icao: aircraft.icao,
        state: AircraftState {
            coordinate: projection.coordinate,
            heading: record.track_degrees,
            ground_speed: aircraft.state.ground_speed,
            altitude: aircraft.state.altitude,
            last_relevant_time: if is_above_zero(aircraft.state.altitude)
                && !aircraft.translation.same_place(projection.translation) {
                now
            } else {
                aircraft.state.last_relevant_time
            },
        },
        history: pushed_history(aircraft.history, aircraft.state),
        translation: projection.translation,
    }
}

/// The aircraft that a first report creates at time `now`.
pub open spec fn spawned(record: PlaneDataView, now: i64) -> AircraftView {
    AircraftView {
        icao: record.icao,
        state: AircraftState {
            coordinate: Coordinate { longitude: record.lon, latitude: record.lat },
            heading: record.track_degrees,
            ground_speed: INITIAL_GROUND_SPEED,
            altitude: INITIAL_ALTITUDE,
            last_relevant_time: now,
        },
        history: Seq::empty(),
        translation: initial_translation(),
    }
}

impl Aircraft {
    /// The history holds no more states than its capacity.
    pub open spec fn wf(&self) -> bool {
        self.history@.len() <= HISTORY_CAPACITY
    }

    /// Creates the aircraft for a first report.
    pub fn spawn(record: &PlaneData, now: i64) -> (r: Aircraft)
        ensures
            r@ == spawned(record@, now),
            r.wf(),
    {
        Aircraft {
            icao: record.icao.clone(),
            state: AircraftState {
                coordinate: Coordinate { longitude: record.lon, latitude: record.lat },
                heading: record.track_degrees,
                ground_speed: INITIAL_GROUND_SPEED,
                altitude: INITIAL_ALTITUDE,
                last_relevant_time: now,
            },
            history: VecDeque::new(),
            translation: Point3 { x: 0, y: 0x3F00_0000, z: 0 },
        }
    }

    /// Whether the aircraft is due for eviction at time `now`.
    pub fn is_stale(&self, now: i64) -> (r: bool)
        ensures
            r == stale(self.state, now),
    {
        (now as i128) - (self.state.last_relevant_time as i128) > (STALE_AFTER as i128)
    }

    /// Merges a report into the aircraft.
    pub fn update(&mut self, record: &PlaneData, projection: Projection, now: i64)
        ensures
            final(self)@ == updated(old(self)@, record@, projection, now),
            old(self).wf() ==> final(self).wf(),
    {
        let previous: AircraftState = self.state;
        let moved: bool = !self.translation.coincides(&projection.translation);
        self.state.heading = record.track_degrees;
        self.state.coordinate = projection.coordinate;
        self.translation = projection.translation;
        self.history.push_front(previous);
        if self.history.len() > HISTORY_CAPACITY {
            self.history.pop_back();
        }
        if above_zero(self.state.altitude) && moved {
            self.state.last_relevant_time = now;
        }
    }
}

/// The tracker's state: the simulated clock and the population.
#[derive(Debug)]
pub struct ADSBManager {
    /// Simulated time in seconds since the Unix epoch.
    pub time: i64,
    /// How many times the population was brought up to date.
    pub ticks: u32,
    /// Seconds by which the clock moves with each completed fetch.
    pub target_delta: i64,
    /// The number of tracked aircraft.
    pub planes: u32,
    /// The tracked aircraft.
    pub aircraft: Vec<Aircraft>,
}

/// The aircraft of a vector as mathematical values.
pub open spec fn fleet_of(aircraft: Seq<Aircraft>) -> Seq<AircraftView> {
    Seq::new(aircraft.len(), |i: int| aircraft[i]@)
}

/// Some aircraft of the fleet carries the identifier.
pub open spec fn known(fleet: Seq<AircraftView>, icao: Seq<char>) -> bool {
    exists|i: int| 0 <= i < fleet.len() && (#[trigger] fleet[i]).icao == icao
}

/// No two aircraft of the fleet carry the same identifier.
pub open spec fn distinct_fleet(fleet: Seq<AircraftView>) -> bool {
    forall|i: int, j: int|
        0 <= i < j < fleet.len() ==> (#[trigger] fleet[i]).icao != (#[trigger] fleet[j]).icao
}

/// Every aircraft that the snapshot reports has a projection.
pub open spec fn covered(
    fleet: Seq<AircraftView>,
    rows: Seq<PlaneDataView>,
    projections: Seq<Option<Projection>>,
) -> bool {
    &&& projections.len() == fleet.len()
    &&& forall|i: int|
        0 <= i < fleet.len() && has_row(rows, (#[trigger] fleet[i]).icao)
            ==> projections[i].is_some()
}

/// One aircraft after the snapshot was merged: updated from its row if the
/// snapshot has one, and otherwise as it was.
pub open spec fn refreshed_one(
    aircraft: AircraftView,
    rows: Seq<PlaneDataView>,
    projection: Option<Projection>,
    now: i64,
) -> AircraftView {
    match record_of(rows, aircraft.icao) {
        Some(record) => updated(aircraft, record, projection.unwrap(), now),
        None => aircraft,
    }
}

/// The fleet after the snapshot was merged into each aircraft.
pub open spec fn refreshed(
    fleet: Seq<AircraftView>,
    rows: Seq<PlaneDataView>,
    projections: Seq<Option<Projection>>,
    now: i64,
) -> Seq<AircraftView> {
    Seq::new(fleet.len(), |i: int| refreshed_one(fleet[i], rows, projections[i], now))
}

/// The aircraft of the fleet that are not stale, in their order.
pub open spec fn survivors(fleet: Seq<AircraftView>, now: i64) -> Seq<AircraftView>
    decreases fleet.len(),
{
    if fleet.len() == 0 {
        Seq::empty()
    } else {
        let before = survivors(fleet.drop_last(), now);
        if stale(fleet.last().state, now) {
            before
        } else {
            before.push(fleet.last())
        }
    }
}

/// The aircraft created from the rows, in row order, beside `kept` aircraft
/// that stay: a row creates one if the fleet did not track its identifier and
/// the population is still under its cap.
pub open spec fn admitted(
    rows: Seq<PlaneDataView>,
    fleet: Seq<AircraftView>,
    now: i64,
    kept: nat,
) -> Seq<AircraftView>
    decreases rows.len(),
{
    if rows.len() == 0 {
        Seq::empty()
    } else {
        let before = admitted(rows.drop_last(), fleet, now, kept);
        if !known(fleet, rows.last().icao) && kept + before.len() < POPULATION_CAP {
            before.push(spawned(rows.last(), now))
        } else {
            before
        }
    }
}

/// The fleet after one reconciliation at time `now`: the merged aircraft that
/// are not stale, followed by the aircraft that the snapshot brings in.
pub open spec fn reconciled(
    fleet: Seq<AircraftView>,
    rows: Seq<PlaneDataView>,
    projections: Seq<Option<Projection>>,
    now: i64,
) -> Seq<AircraftView> {
    let kept = survivors(refreshed(fleet, rows, projections, now), now);
    kept + admitted(rows, fleet, now, kept.len())
}

/// The vector with its items in the opposite order.
fn reversed(items: Vec<Aircraft>) -> (r: Vec<Aircraft>)
    ensures
        r@.len() == items@.len(),
        forall|k: int| 0 <= k < r@.len() ==> #[trigger] r@[k] == items@[items@.len() - 1 - k],
{
    let ghost start = items@;
    let mut source: Vec<Aircraft> = items;
    let mut r: Vec<Aircraft> = Vec::new();
    while source.len() > 0
        invariant
            source@.len() + r@.len() == start.len(),
            forall|k: int| 0 <= k < source@.len() ==> #[trigger] source@[k] == start[k],
            forall|k: int| 0 <= k < r@.len() ==> #[trigger] r@[k] == start[start.len() - 1 - k],
        decreases source@.len(),
    {
        let item: Aircraft = source.pop().unwrap();
        r.push(item);
    }
    r
}

/// Whether some aircraft carries the identifier.
fn tracks(aircraft: &Vec<Aircraft>, icao: &String) -> (r: bool)
    ensures
        r == known(fleet_of(aircraft@), icao@),
{
    let n: usize = aircraft.len();
    let mut i: usize = 0;
    while i < n
        invariant
            i <= n,
            n == aircraft@.len(),
            forall|k: int| 0 <= k < i ==> (#[trigger] fleet_of(aircraft@)[k]).icao != icao@,
        decreases n - i,
    {
        if aircraft[i].icao == *icao {
            assert(fleet_of(aircraft@)[i as int].icao == icao@);
            return true;
        }
        i += 1;
    }
    false
}

/// The moment that an RFC 3339 date and time stands for, in whole seconds
/// since the Unix epoch, or nothing where the text is no such date and time.
pub uninterp spec fn rfc3339_timestamp(text: Seq<char>) -> Option<int>;

/// Reads an RFC 3339 date and time with `chrono::DateTime::parse_from_rfc3339`
/// and gives its `timestamp`. The contract only names the result: a number
/// exactly where the text is accepted, and then the moment it stands for.
#[verifier::external_body]
fn parse_rfc3339(text: &str) -> (r: Option<i64>)
    ensures
        match r {
            Some(seconds) => rfc3339_timestamp(text@) == Some(seconds as int),
            None => rfc3339_timestamp(text@).is_none(),
        },
{
    match chrono::DateTime::parse_from_rfc3339(text) {
        Ok(moment) => Some(moment.timestamp()),
        Err(_) => None,
    }
}

impl ADSBManager {
    /// The population as mathematical values.
    pub open spec fn fleet(&self) -> Seq<AircraftView> {
        fleet_of(self.aircraft@)
    }

    /// The count matches the population, the population is within its cap, no
    /// identifier is tracked twice, and every history is within its capacity.
    pub open spec fn wf(&self) -> bool {
        &&& self.planes == self.aircraft@.len()
        &&& self.planes <= POPULATION_CAP
        &&& distinct_fleet(self.fleet())
        &&& forall|i: int| 0 <= i < self.aircraft@.len() ==> (#[trigger] self.aircraft@[i]).wf()
    }

    /// A tracker with no aircraft, its clock at `time`.
    pub fn starting_at(time: i64, target_delta: i64) -> (r: ADSBManager)
        ensures
            r.time == time,
            r.ticks == 0,
            r.target_delta == target_delta,
            r.planes == 0,
            r.fleet() == Seq::<AircraftView>::empty(),
            r.wf(),
    {
        ADSBManager { time, ticks: 0, target_delta, planes: 0, aircraft: Vec::new() }
    }
}

/// Brings the population up to date with a snapshot, given the projection of
/// each reported aircraft. Every tracked aircraft that the snapshot reports is
/// updated; every aircraft that is stale afterwards is evicted, reported or
/// not; every row whose identifier was not tracked creates an aircraft while
/// the population is under its cap, and is dropped otherwise.
pub fn reconcile(adsb: &mut ADSBManager, data: &DataFetch, projections: &Vec<Option<Projection>>)
    requires
        old(adsb).wf(),
        data.wf(),
        covered(old(adsb).fleet(), data@, projections@),
    ensures
        final(adsb).fleet() == reconciled(
            old(adsb).fleet(),
            data@,
            projections@,
            old(adsb).time,
        ),
        final(adsb).time == old(adsb).time,
        final(adsb).ticks == old(adsb).ticks,
        final(adsb).target_delta == old(adsb).target_delta,
        final(adsb).wf(),
{
    let now: i64 = adsb.time;
    let ghost fleet0 = adsb.fleet();
    let ghost rows = data@;
    let ghost merged = refreshed(fleet0, rows, projections@, now);
    let n: usize = adsb.aircraft.len();
    let m: usize = data.len();

    // Which rows bring an identifier that is not tracked yet.
    let mut fresh: Vec<bool> = Vec::new();
    let mut j: usize = 0;
    while j < m
        invariant
            j <= m,
            m == rows.len(),
            rows == data@,
            fleet0 == fleet_of(adsb.aircraft@),
            fresh@.len() == j,
            forall|k: int| 0 <= k < j ==> #[trigger] fresh@[k] == !known(fleet0, rows[k].icao),
        decreases m - j,
    {
        let known: bool = tracks(&adsb.aircraft, &data.0[j].icao);
        assert(data@[j as int].icao == data.0@[j as int].icao@);
        fresh.push(!known);
        j += 1;
    }

    // Merge and evict.
    let mut taken: Vec<Aircraft> = Vec::new();
    std::mem::swap(&mut adsb.aircraft, &mut taken);
    let ghost taken0 = taken@;
    let mut stack: Vec<Aircraft> = reversed(taken);
    let mut kept: Vec<Aircraft> = Vec::new();
    let mut i: usize = 0;
    assert(merged.take(0) =~= Seq::<AircraftView>::empty());
    while i < n
        invariant
            i <= n,
            n == fleet0.len(),
            n <= POPULATION_CAP,
            rows == data@,
            data.wf(),
            distinct_fleet(fleet0),
            covered(fleet0, rows, projections@),
            merged == refreshed(fleet0, rows, projections@, now),
            stack@.len() == n - i,
            forall|k: int| 0 <= k < n - i ==> (#[trigger] stack@[k])@ == fleet0[n - 1 - k],
            forall|k: int| 0 <= k < n - i ==> (#[trigger] stack@[k]).wf(),
            fleet_of(kept@) == survivors(merged.take(i as int), now),
            kept@.len() <= i,
            forall|k: int| 0 <= k < kept@.len() ==> (#[trigger] kept@[k]).wf(),
            forall|k: int|
                0 <= k < kept@.len() ==> exists|o: int|
                    0 <= o < i && (#[trigger] fleet0[o]).icao == (#[trigger] kept@[k])@.icao,
            distinct_fleet(fleet_of(kept@)),
        decreases n - i,
    {
        let mut aircraft: Aircraft = stack.pop().unwrap();
        assert(aircraft@ == fleet0[i as int]);
        match data.get(&aircraft.icao) {
            Some(record) => {
                assert(has_row(rows, fleet0[i as int].icao));
                let projection: Option<Projection> = projections[i];
                aircraft.update(record, projection.unwrap(), now);
            },
            None => {},
        }
        assert(aircraft@ == merged[i as int]);
        assert(aircraft@.icao == fleet0[i as int].icao);
        proof {
            assert(merged.take(i + 1).drop_last() =~= merged.take(i as int));
            assert(merged.take(i + 1).last() == merged[i as int]);
        }
        let ghost kept_before = kept@;
        if !aircraft.is_stale(now) {
            kept.push(aircraft);
            proof {
                assert(fleet_of(kept@) =~= fleet_of(kept_before).push(merged[i as int]));
                assert forall|a: int, b: int| 0 <= a < b < kept@.len() implies (
                #[trigger] fleet_of(kept@)[a]).icao != (#[trigger] fleet_of(kept@)[b]).icao by {
                    if b < kept_before.len() {
                        assert(fleet_of(kept_before)[a].icao != fleet_of(kept_before)[b].icao);
                    } else {
                        let o = choose|o: int|
                            0 <= o < i && (#[trigger] fleet0[o]).icao == (
                            #[trigger] kept_before[a])@.icao;
                        assert(fleet0[o].icao != fleet0[i as int].icao);
                    }
                }
                assert forall|k: int| 0 <= k < kept@.len() implies exists|o: int|
                    0 <= o < i + 1 && (#[trigger] fleet0[o]).icao == (#[trigger] kept@[k])@.icao by {
                    if k < kept_before.len() {
                        let o = choose|o: int|
                            0 <= o < i && (#[trigger] fleet0[o]).icao == (
                            #[trigger] kept_before[k])@.icao;
                        assert(fleet0[o].icao == kept@[k]@.icao);
                    } else {
                        assert(fleet0[i as int].icao == kept@[k]@.icao);
                    }
                }
            }
        } else {
            proof {
                assert forall|k: int| 0 <= k < kept@.len() implies exists|o: int|
                    0 <= o < i + 1 && (#[trigger] fleet0[o]).icao == (#[trigger] kept@[k])@.icao by {
                    let o = choose|o: int|
                        0 <= o < i && (#[trigger] fleet0[o]).icao == (#[trigger] kept_before[k])@.icao;
                    assert(fleet0[o].icao == kept@[k]@.icao);
                }
            }
        }
        i += 1;
    }
    assert(merged.take(n as int) =~= merged);
    let ghost base = fleet_of(kept@);
    assert(base == survivors(merged, now));

    // Admit new arrivals while there is room.
    let mut j: usize = 0;
    assert(rows.take(0) =~= Seq::<PlaneDataView>::empty());
    assert(fleet_of(kept@) =~= base + admitted(rows.take(0), fleet0, now, base.len()));
    while j < m
        invariant
            j <= m,
            m == rows.len(),
            rows == data@,
            data.wf(),
            fresh@.len() == m,
            forall|k: int| 0 <= k < m ==> #[trigger] fresh@[k] == !known(fleet0, rows[k].icao),
            base.len() <= POPULATION_CAP,
            fleet_of(kept@) == base + admitted(rows.take(j as int), fleet0, now, base.len()),
            kept@.len() <= POPULATION_CAP,
            forall|k: int| 0 <= k < kept@.len() ==> (#[trigger] kept@[k]).wf(),
            forall|k: int|
                0 <= k < kept@.len() ==> known(fleet0, (#[trigger] kept@[k])@.icao) || exists|
                    o: int,
                | 0 <= o < j && (#[trigger] rows[o]).icao == kept@[k]@.icao,
            distinct_fleet(fleet_of(kept@)),
        decreases m - j,
    {
        proof {
            assert(rows.take(j + 1).drop_last() =~= rows.take(j as int));
            assert(rows.take(j + 1).last() == rows[j as int]);
        }
        let ghost kept_before = kept@;
        let ghost before = admitted(rows.take(j as int), fleet0, now, base.len());
        assert(kept_before.len() == base.len() + before.len()) by {
            assert(fleet_of(kept_before).len() == kept_before.len());
            assert((base + before).len() == base.len() + before.len());
        }
        if fresh[j] && kept.len() < 5_000 {
            let record: &PlaneData = &data.0[j];
            assert(record@ == rows[j as int]);
            let aircraft: Aircraft = Aircraft::spawn(record, now);
            kept.push(aircraft);
            proof {
                assert(fleet_of(kept@) =~= fleet_of(kept_before).push(spawned(rows[j as int], now)));
                assert(fleet_of(kept@) =~= base + before.push(spawned(rows[j as int], now)));
                assert forall|a: int, b: int| 0 <= a < b < kept@.len() implies (
                #[trigger] fleet_of(kept@)[a]).icao != (#[trigger] fleet_of(kept@)[b]).icao by {
                    if b < kept_before.len() {
                        assert(fleet_of(kept_before)[a].icao != fleet_of(kept_before)[b].icao);
                    } else {
                        assert(fleet_of(kept@)[b].icao == rows[j as int].icao);
                        if known(fleet0, kept_before[a]@.icao) {
                        } else {
                            let o = choose|o: int|
                                0 <= o < j && (#[trigger] rows[o]).icao == kept_before[a]@.icao;
                            assert(rows[o].icao != rows[j as int].icao);
                        }
                    }
                }
                assert forall|k: int| 0 <= k < kept@.len() implies known(
                    fleet0,
                    (#[trigger] kept@[k])@.icao,
                ) || exists|o: int|
                    0 <= o < j + 1 && (#[trigger] rows[o]).icao == kept@[k]@.icao by {
                    if k < kept_before.len() {
                        if !known(fleet0, kept_before[k]@.icao) {
                            let o = choose|o: int|
                                0 <= o < j && (#[trigger] rows[o]).icao == kept_before[k]@.icao;
                            assert(rows[o].icao == kept@[k]@.icao);
                        }
                    } else {
                        assert(rows[j as int].icao == kept@[k]@.icao);
                    }
                }
            }
        } else {
            proof {
                assert forall|k: int| 0 <= k < kept@.len() implies known(
                    fleet0,
                    (#[trigger] kept@[k])@.icao,
                ) || exists|o: int|
                    0 <= o < j + 1 && (#[trigger] rows[o]).icao == kept@[k]@.icao by {
                    if !known(fleet0, kept_before[k]@.icao) {
                        let o = choose|o: int|
                            0 <= o < j && (#[trigger] rows[o]).icao == kept_before[k]@.icao;
                        assert(rows[o].icao == kept@[k]@.icao);
                    }
                }
            }
        }
        j += 1;
    }
    assert(rows.take(m as int) =~= rows);
    adsb.planes = kept.len() as u32;
    adsb.aircraft = kept;
}

/// The projections are those that `project` gave: one for each aircraft that
/// the snapshot reports, made from the reported coordinate and the aircraft's
/// altitude, and none for the others.
pub open spec fn projected_by<P: Fn(Coordinate, u32) -> Projection>(
    project: &P,
    fleet: Seq<AircraftView>,
    rows: Seq<PlaneDataView>,
    projections: Seq<Option<Projection>>,
) -> bool {
    &&& projections.len() == fleet.len()
    &&& forall|i: int|
        0 <= i < fleet.len() ==> match record_of(rows, (#[trigger] fleet[i]).icao) {
            Some(record) => projections[i].is_some() && project.ensures(
                (
                    Coordinate { longitude: record.lon, latitude: record.lat },
                    fleet[i].state.altitude,
                ),
                projections[i].unwrap(),
            ),
            None => projections[i].is_none(),
        }
}

/// `after` is the fleet that one reconciliation at time `now` makes of
/// `before`, with the projections that `project` gave.
pub open spec fn reconciled_by<P: Fn(Coordinate, u32) -> Projection>(
    project: &P,
    before: Seq<AircraftView>,
    rows: Seq<PlaneDataView>,
    now: i64,
    after: Seq<AircraftView>,
) -> bool {
    exists|projections: Seq<Option<Projection>>|
        #[trigger] projected_by(project, before, rows, projections) && after == reconciled(
            before,
            rows,
            projections,
            now,
        )
}

/// One cycle of the tracker: counts the cycle, asks `project` where each
/// reported aircraft now stands, and reconciles the population with the
/// snapshot. `project` takes the reported coordinate and the aircraft's
/// altitude.
pub fn move_aircraft<P: Fn(Coordinate, u32) -> Projection>(
    adsb: &mut ADSBManager,
    data: &DataFetch,
    project: &P,
)
    requires
        old(adsb).wf(),
        data.wf(),
        old(adsb).ticks < u32::MAX,
        forall|coordinate: Coordinate, altitude: u32| project.requires((coordinate, altitude)),
    ensures
        reconciled_by(project, old(adsb).fleet(), data@, old(adsb).time, final(adsb).fleet()),
        final(adsb).ticks == old(adsb).ticks + 1,
        final(adsb).time == old(adsb).time,
        final(adsb).target_delta == old(adsb).target_delta,
        final(adsb).wf(),
{
    let ghost fleet0 = adsb.fleet();
    let n: usize = adsb.aircraft.len();
    let mut projections: Vec<Option<Projection>> = Vec::new();
    let mut i: usize = 0;
    while i < n
        invariant
            i <= n,
            n == adsb.aircraft@.len(),
            fleet0 == fleet_of(adsb.aircraft@),
            data.wf(),
            forall|coordinate: Coordinate, altitude: u32|
                project.requires((coordinate, altitude)),
            projections@.len() == i,
            forall|k: int|
                0 <= k < i ==> match record_of(data@, (#[trigger] fleet0[k]).icao) {
                    Some(record) => projections@[k].is_some() && project.ensures(
                        (
                            Coordinate { longitude: record.lon, latitude: record.lat },
                            fleet0[k].state.altitude,
                        ),
                        projections@[k].unwrap(),
                    ),
                    None => projections@[k].is_none(),
                },
        decreases n - i,
    {
        let aircraft: &Aircraft = &adsb.aircraft[i];
        assert(aircraft@ == fleet0[i as int]);
        let projection: Option<Projection> = match data.get(&aircraft.icao) {
            Some(record) => Some(
                project(
                    Coordinate { longitude: record.lon, latitude: record.lat },
                    aircraft.state.altitude,
                ),
            ),
            None => None,
        };
        projections.push(projection);
        i += 1;
    }
    assert(projected_by(project, fleet0, data@, projections@));
    adsb.ticks = adsb.ticks + 1;
    reconcile(adsb, data, &projections);
}

/// A tracker with no aircraft whose clock starts at the given RFC 3339 date
/// and time, or nothing where the text is no such date and time.
pub fn starting_from(moment: &str, target_delta: i64) -> (r: Option<ADSBManager>)
    ensures
        match rfc3339_timestamp(moment@) {
            Some(seconds) => r matches Some(adsb) && adsb.time == seconds && adsb.ticks == 0
                && adsb.target_delta == target_delta && adsb.planes == 0 && adsb.fleet()
                == Seq::<AircraftView>::empty() && adsb.wf(),
            None => r.is_none(),
        },
{
    match parse_rfc3339(moment) {
        Some(seconds) => Some(ADSBManager::starting_at(seconds, target_delta)),
        None => None,
    }
}

/// The tracker as it starts: no aircraft, the clock at the start time, and a
/// step of ten seconds for each fetch.
pub fn init_adsb() -> (r: Option<ADSBManager>)
    ensures
        match rfc3339_timestamp(START_TIME@) {
            Some(seconds) => r matches Some(adsb) && adsb.time == seconds && adsb.ticks == 0
                && adsb.target_delta == TARGET_DELTA && adsb.planes == 0 && adsb.fleet()
                == Seq::<AircraftView>::empty() && adsb.wf(),
            None => r.is_none(),
        },
{
    starting_from(START_TIME, TARGET_DELTA)
}

/// Applies the snapshot that waits in the slot, if one does, and leaves the
/// slot empty: a published snapshot is applied at most once, and without a new
/// one nothing changes.
pub fn drain_slot<P: Fn(Coordinate, u32) -> Projection>(
    adsb: &mut ADSBManager,
    slot: &mut Option<DataFetch>,
    project: &P,
) -> (applied: bool)
    requires
        old(adsb).wf(),
        *old(slot) matches Some(data) ==> data.wf() && old(adsb).ticks < u32::MAX,
        forall|coordinate: Coordinate, altitude: u32| project.requires((coordinate, altitude)),
    ensures
        final(slot).is_none(),
        applied == old(slot).is_some(),
        match *old(slot) {
            Some(data) => reconciled_by(
                project,
                old(adsb).fleet(),
                data@,
                old(adsb).time,
                final(adsb).fleet(),
            ) && final(adsb).ticks == old(adsb).ticks + 1,
            None => *final(adsb) == *old(adsb),
        },
        final(adsb).time == old(adsb).time,
        final(adsb).target_delta == old(adsb).target_delta,
        final(adsb).wf(),
{
    match slot.take() {
        Some(data) => {
            move_aircraft(adsb, &data, project);
            true
        },
        None => false,
    }
}

} // verus!
