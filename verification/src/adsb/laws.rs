//! What holds of every reconciliation, proved from the definitions.

use vstd::prelude::*;
use crate::adsb::clickhouse::PlaneDataView;
use crate::adsb::math::Projection;
use crate::adsb::task_pool::{distinct_rows, has_row};
use crate::adsb::{
    admitted, distinct_fleet, known, reconciled, refreshed, refreshed_one, stale, survivors,
    updated, AircraftState, AircraftView, HISTORY_CAPACITY, POPULATION_CAP, STALE_AFTER,
};

verus! {

/// One report as it reaches an aircraft: the row, its projection, and the time
/// of the cycle.
pub struct Report {
    pub record: PlaneDataView,
    pub projection: Projection,
    pub now: i64,
}

/// The aircraft after the reports were merged into it one after another.
pub open spec fn after_reports(aircraft: AircraftView, reports: Seq<Report>) -> AircraftView
    decreases reports.len(),
{
    if reports.len() == 0 {
        aircraft
    } else {
        let report = reports.last();
        updated(
            after_reports(aircraft, reports.drop_last()),
            report.record,
            report.projection,
            report.now,
        )
    }
}

/// The survivors of a fleet are the aircraft of the fleet that are not stale.
pub proof fn lemma_survivors(fleet: Seq<AircraftView>, now: i64)
    ensures
        survivors(fleet, now).len() <= fleet.len(),
        forall|x: AircraftView| #[trigger]
            survivors(fleet, now).contains(x) <==> fleet.contains(x) && !stale(x.state, now),
    decreases fleet.len(),
{
    if fleet.len() > 0 {
        let front = fleet.drop_last();
        let last = fleet.last();
        lemma_survivors(front, now);
        let before = survivors(front, now);
        assert forall|x: AircraftView| #[trigger]
            survivors(fleet, now).contains(x) <==> fleet.contains(x) && !stale(
                x.state,
                now,
            ) by {
            if fleet.contains(x) {
                let k = choose|k: int| 0 <= k < fleet.len() && fleet[k] == x;
                if k < front.len() {
                    assert(front[k] == x);
                }
            }
            if front.contains(x) {
                let k = choose|k: int| 0 <= k < front.len() && front[k] == x;
                assert(fleet[k] == x);
            }
            assert(fleet[fleet.len() - 1] == last);
            if !stale(last.state, now) {
                let grown = before.push(last);
                if grown.contains(x) {
                    let k = choose|k: int| 0 <= k < grown.len() && grown[k] == x;
                    if k < before.len() {
                        assert(before[k] == x);
                    }
                }
                if before.contains(x) {
                    let k = choose|k: int| 0 <= k < before.len() && before[k] == x;
                    assert(grown[k] == x);
                }
                assert(grown[before.len() as int] == last);
            }
        }
    }
}

/// Every admitted aircraft comes from a row whose identifier the fleet did
/// not know, and admission stops at the cap.
pub proof fn lemma_admitted(
    rows: Seq<PlaneDataView>,
    fleet: Seq<AircraftView>,
    now: i64,
    kept: nat,
)
    ensures
        admitted(rows, fleet, now, kept).len() <= rows.len(),
        kept <= POPULATION_CAP ==> kept + admitted(rows, fleet, now, kept).len()
            <= POPULATION_CAP,
        forall|k: int|
            0 <= k < admitted(rows, fleet, now, kept).len() ==> !known(
                fleet,
                (#[trigger] admitted(rows, fleet, now, kept)[k]).icao,
            ),
    decreases rows.len(),
{
    if rows.len() > 0 {
        lemma_admitted(rows.drop_last(), fleet, now, kept);
    }
}

/// How many of the rows bring an identifier that the fleet does not know.
pub open spec fn arrivals(rows: Seq<PlaneDataView>, fleet: Seq<AircraftView>) -> nat
    decreases rows.len(),
{
    if rows.len() == 0 {
        0
    } else {
        arrivals(rows.drop_last(), fleet) + if known(fleet, rows.last().icao) {
            0nat
        } else {
            1nat
        }
    }
}

/// Capacity: a snapshot admits every arrival while there is room under the
/// cap and drops the rest: as many aircraft are created as there are
/// arrivals, or as there is room, whichever is less.
pub proof fn law_admitted_count(
    rows: Seq<PlaneDataView>,
    fleet: Seq<AircraftView>,
    now: i64,
    kept: nat,
)
    requires
        kept <= POPULATION_CAP,
    ensures
        admitted(rows, fleet, now, kept).len() == if arrivals(rows, fleet) <= POPULATION_CAP
            - kept {
            arrivals(rows, fleet)
        } else {
            (POPULATION_CAP - kept) as nat
        },
    decreases rows.len(),
{
    if rows.len() > 0 {
        law_admitted_count(rows.drop_last(), fleet, now, kept);
    }
}

/// With no aircraft known beforehand, a snapshot admits one aircraft for each
/// row until the cap is reached.
pub proof fn lemma_admitted_from_empty(rows: Seq<PlaneDataView>, now: i64)
    ensures
        admitted(rows, Seq::empty(), now, 0).len() == if rows.len() <= POPULATION_CAP {
            rows.len()
        } else {
            POPULATION_CAP as nat
        },
    decreases rows.len(),
{
    if rows.len() > 0 {
        lemma_admitted_from_empty(rows.drop_last(), now);
        assert(!known(Seq::<AircraftView>::empty(), rows.last().icao));
    }
}

/// Population cap: a snapshot of more rows than the cap, with distinct
/// identifiers, reconciled into an empty population leaves exactly as many
/// aircraft as the cap allows.
pub proof fn law_population_cap(
    rows: Seq<PlaneDataView>,
    projections: Seq<Option<Projection>>,
    now: i64,
)
    requires
        distinct_rows(rows),
        rows.len() > POPULATION_CAP,
    ensures
        reconciled(Seq::empty(), rows, projections, now).len() == POPULATION_CAP,
{
    let none = Seq::<AircraftView>::empty();
    assert(refreshed(none, rows, projections, now) =~= none);
    assert(survivors(none, now) =~= none);
    lemma_admitted_from_empty(rows, now);
}

/// A reconciliation never leaves more aircraft than the cap, if it started
/// with no more.
pub proof fn law_population_bounded(
    fleet: Seq<AircraftView>,
    rows: Seq<PlaneDataView>,
    projections: Seq<Option<Projection>>,
    now: i64,
)
    requires
        fleet.len() <= POPULATION_CAP,
    ensures
        reconciled(fleet, rows, projections, now).len() <= POPULATION_CAP,
{
    let merged = refreshed(fleet, rows, projections, now);
    lemma_survivors(merged, now);
    lemma_admitted(rows, fleet, now, survivors(merged, now).len());
}

/// History bound: after any number of reports the history holds one state
/// for each report on top of what it held, up to its capacity, and never more.
pub proof fn law_history_bound(aircraft: AircraftView, reports: Seq<Report>)
    requires
        aircraft.history.len() <= HISTORY_CAPACITY,
    ensures
        after_reports(aircraft, reports).history.len() == if aircraft.history.len()
            + reports.len() <= HISTORY_CAPACITY {
            aircraft.history.len() + reports.len()
        } else {
            HISTORY_CAPACITY as nat
        },
        reports.len() > 0 ==> after_reports(aircraft, reports).history[0] == after_reports(
            aircraft,
            reports.drop_last(),
        ).state,
    decreases reports.len(),
{
    if reports.len() > 0 {
        law_history_bound(aircraft, reports.drop_last());
    }
}

/// Staleness threshold: an aircraft whose last relevant change was at time T
/// is not stale 9 minutes 59 seconds later, and is stale 10 minutes 1 second
/// later.
pub proof fn law_staleness_threshold(state: AircraftState, now: i64)
    ensures
        now - state.last_relevant_time == STALE_AFTER - 1 ==> !stale(state, now),
        now - state.last_relevant_time == STALE_AFTER + 1 ==> stale(state, now),
        stale(state, now) <==> now - state.last_relevant_time > 600,
{
}

/// A merge restarts the staleness clock exactly when the aircraft is airborne
/// and its drawn position moved; otherwise the clock stays where it was.
pub proof fn law_clock_restart(
    aircraft: AircraftView,
    record: PlaneDataView,
    projection: Projection,
    now: i64,
)
    ensures
        ({
            let after = updated(aircraft, record, projection, now).state.last_relevant_time;
            let relevant = crate::adsb::math::is_above_zero(aircraft.state.altitude)
                && !aircraft.translation.same_place(projection.translation);
            after == if relevant {
                now
            } else {
                aircraft.state.last_relevant_time
            }
        }),
{
}

/// Staleness eviction: an aircraft of the fleet is in the reconciled fleet
/// exactly when it is not stale after the snapshot was merged into it, and
/// then it is there as merged.
pub proof fn law_eviction(
    fleet: Seq<AircraftView>,
    rows: Seq<PlaneDataView>,
    projections: Seq<Option<Projection>>,
    now: i64,
    i: int,
)
    requires
        distinct_fleet(fleet),
        0 <= i < fleet.len(),
    ensures
        ({
            let after = refreshed_one(fleet[i], rows, projections[i], now);
            let result = reconciled(fleet, rows, projections, now);
            &&& known(result, fleet[i].icao) <==> !stale(after.state, now)
            &&& !stale(after.state, now) ==> result.contains(after)
        }),
{
    let merged = refreshed(fleet, rows, projections, now);
    let kept = survivors(merged, now);
    let fresh = admitted(rows, fleet, now, kept.len());
    let result = kept + fresh;
    let after = merged[i];
    let icao = fleet[i].icao;
    lemma_survivors(merged, now);
    lemma_admitted(rows, fleet, now, kept.len());
    assert(after.icao == icao);
    assert(merged.contains(after));
    if !stale(after.state, now) {
        assert(kept.contains(after));
        let k = choose|k: int| 0 <= k < kept.len() && kept[k] == after;
        assert(result[k] == after);
        assert(result.contains(after));
        assert(known(result, icao));
    }
    if known(result, icao) {
        let k = choose|k: int| 0 <= k < result.len() && (#[trigger] result[k]).icao == icao;
        if k < kept.len() {
            assert(kept[k] == result[k]);
            assert(kept.contains(kept[k]));
            assert(merged.contains(kept[k]));
            let q = choose|q: int| 0 <= q < merged.len() && merged[q] == kept[k];
            assert(merged[q].icao == fleet[q].icao);
            if q < i {
                assert(fleet[q].icao != fleet[i].icao);
            } else if i < q {
                assert(fleet[i].icao != fleet[q].icao);
            }
            assert(q == i);
        } else {
            assert(fresh[k - kept.len()] == result[k]);
            assert(!known(fleet, fresh[k - kept.len()].icao));
            assert(fleet[i].icao == icao);
            assert(false);
        }
    }
}

/// An aircraft that the snapshot does not report is left as it was: no state
/// changes and nothing is added to its history. It stays in the population
/// unless it is stale.
pub proof fn law_absent_untouched(
    fleet: Seq<AircraftView>,
    rows: Seq<PlaneDataView>,
    projections: Seq<Option<Projection>>,
    now: i64,
    i: int,
)
    requires
        distinct_fleet(fleet),
        0 <= i < fleet.len(),
        !has_row(rows, fleet[i].icao),
    ensures
        refreshed_one(fleet[i], rows, projections[i], now) == fleet[i],
        !stale(fleet[i].state, now) ==> reconciled(fleet, rows, projections, now).contains(
            fleet[i],
        ),
        stale(fleet[i].state, now) ==> !known(
            reconciled(fleet, rows, projections, now),
            fleet[i].icao,
        ),
{
    law_eviction(fleet, rows, projections, now, i);
}

/// Where no aircraft is stale, all of them survive.
pub proof fn lemma_survivors_all(fleet: Seq<AircraftView>, now: i64)
    requires
        forall|i: int| 0 <= i < fleet.len() ==> !stale((#[trigger] fleet[i]).state, now),
    ensures
        survivors(fleet, now) == fleet,
    decreases fleet.len(),
{
    if fleet.len() > 0 {
        let front = fleet.drop_last();
        assert forall|i: int| 0 <= i < front.len() implies !stale(
            (#[trigger] front[i]).state,
            now,
        ) by {
            assert(front[i] == fleet[i]);
        }
        lemma_survivors_all(front, now);
        assert(fleet.last() == fleet[fleet.len() - 1]);
        assert(front.push(fleet.last()) =~= fleet);
    } else {
        assert(survivors(fleet, now) =~= fleet);
    }
}

/// An empty snapshot changes nothing while no aircraft is stale: the
/// population keeps its identifiers, states and histories.
pub proof fn law_empty_snapshot(
    fleet: Seq<AircraftView>,
    projections: Seq<Option<Projection>>,
    now: i64,
)
    requires
        forall|i: int| 0 <= i < fleet.len() ==> !stale((#[trigger] fleet[i]).state, now),
    ensures
        reconciled(fleet, Seq::empty(), projections, now) == fleet,
{
    let rows = Seq::<PlaneDataView>::empty();
    assert forall|icao: Seq<char>| !has_row(rows, icao) by {}
    assert(refreshed(fleet, rows, projections, now) =~= fleet);
    lemma_survivors_all(fleet, now);
    assert(fleet + Seq::<AircraftView>::empty() =~= fleet);
}

} // verus!
