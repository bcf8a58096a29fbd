//! The snapshot that a fetch publishes, and the single-slot schedule that
//! allows one fetch at a time.

use vstd::prelude::*;
use crate::adsb::clickhouse::{PlaneData, PlaneDataView};
use crate::adsb::ADSBManager;

verus! {

/// One fetched snapshot: at most one row for each identifier. Rows keep the
/// order in which their identifiers first arrived.
#[derive(Debug)]
pub struct DataFetch(pub Vec<PlaneData>);

impl View for DataFetch {
    type V = Seq<PlaneDataView>;

    open spec fn view(&self) -> Seq<PlaneDataView> {
        Seq::new(self.0@.len(), |i: int| self.0@[i]@)
    }
}

/// Some row carries the identifier.
pub open spec fn has_row(rows: Seq<PlaneDataView>, icao: Seq<char>) -> bool {
    exists|i: int| 0 <= i < rows.len() && (#[trigger] rows[i]).icao == icao
}

/// The place of a row that carries the identifier.
pub open spec fn row_index(rows: Seq<PlaneDataView>, icao: Seq<char>) -> int {
    choose|i: int| 0 <= i < rows.len() && (#[trigger] rows[i]).icao == icao
}

/// The row that carries the identifier, if there is one.
pub open spec fn record_of(rows: Seq<PlaneDataView>, icao: Seq<char>) -> Option<PlaneDataView> {
    if has_row(rows, icao) {
        Some(rows[row_index(rows, icao)])
    } else {
        None
    }
}

/// No two rows carry the same identifier.
pub open spec fn distinct_rows(rows: Seq<PlaneDataView>) -> bool {
    forall|i: int, j: int|
        0 <= i < j < rows.len() ==> (#[trigger] rows[i]).icao != (#[trigger] rows[j]).icao
}

/// The rows after one more arrives: it takes the place of the row with its
/// identifier, or goes to the end if no row has it.
pub open spec fn inserted(rows: Seq<PlaneDataView>, record: PlaneDataView) -> Seq<PlaneDataView> {
    if has_row(rows, record.icao) {
        rows.update(row_index(rows, record.icao), record)
    } else {
        rows.push(record)
    }
}

/// Among distinct rows, a row found under an identifier is the row of that
/// identifier.
pub proof fn lemma_record_found(rows: Seq<PlaneDataView>, icao: Seq<char>, i: int)
    requires
        distinct_rows(rows),
        0 <= i < rows.len(),
        rows[i].icao == icao,
    ensures
        has_row(rows, icao),
        row_index(rows, icao) == i,
        record_of(rows, icao) == Some(rows[i]),
{
    let j = row_index(rows, icao);
    if i < j {
        assert(rows[i].icao != rows[j].icao);
    } else if j < i {
        assert(rows[j].icao != rows[i].icao);
    }
}

impl DataFetch {
    /// No two rows carry the same identifier.
    pub open spec fn wf(&self) -> bool {
        distinct_rows(self@)
    }

    /// The empty snapshot.
    pub fn new() -> (r: DataFetch)
        ensures
            r@ == Seq::<PlaneDataView>::empty(),
            r.wf(),
    {
        DataFetch(Vec::new())
    }

    /// The number of rows.
    pub fn len(&self) -> (n: usize)
        ensures
            n == self@.len(),
    {
        self.0.len()
    }

    /// Where the first row with the identifier stands, if there is one.
    pub fn position(&self, icao: &String) -> (r: Option<usize>)
        ensures
            match r {
                Some(i) => {
                    &&& i < self@.len()
                    &&& self@[i as int].icao == icao@
                    &&& forall|j: int| 0 <= j < i ==> (#[trigger] self@[j]).icao != icao@
                },
                None => !has_row(self@, icao@),
            },
            self.wf() ==> r.is_some() == has_row(self@, icao@),
            self.wf() && r.is_some() ==> r.unwrap() == row_index(self@, icao@),
    {
        let n: usize = self.0.len();
        let mut i: usize = 0;
        while i < n
            invariant
                i <= n,
                n == self.0@.len(),
                forall|j: int| 0 <= j < i ==> (#[trigger] self@[j]).icao != icao@,
            decreases n - i,
        {
            if self.0[i].icao == *icao {
                proof {
                    assert(self@[i as int].icao == icao@);
                    if self.wf() {
                        lemma_record_found(self@, icao@, i as int);
                    }
                }
                return Some(i);
            }
            i += 1;
        }
        None
    }

    /// The row with the identifier, if there is one.
    pub fn get(&self, icao: &String) -> (r: Option<&PlaneData>)
        requires
            self.wf(),
        ensures
            match r {
                Some(record) => record_of(self@, icao@) == Some(record@),
                None => record_of(self@, icao@).is_none(),
            },
    {
        match self.position(icao) {
            Some(i) => {
                proof {
                    lemma_record_found(self@, icao@, i as int);
                }
                Some(&self.0[i])
            },
            None => None,
        }
    }

    /// Puts a row into the snapshot; a row already there under the same
    /// identifier is overwritten.
    pub fn insert(&mut self, record: PlaneData)
        requires
            old(self).wf(),
        ensures
            final(self)@ == inserted(old(self)@, record@),
            final(self).wf(),
    {
        let ghost before = self@;
        match self.position(&record.icao) {
            Some(i) => {
                self.0[i] = record;
                proof {
                    assert(self@ =~= before.update(i as int, record@));
                    assert forall|a: int, b: int| 0 <= a < b < self@.len() implies (
                    #[trigger] self@[a]).icao != (#[trigger] self@[b]).icao by {
                        assert(before[a].icao != before[b].icao);
                    }
                }
            },
            None => {
                self.0.push(record);
                proof {
                    assert(self@ =~= before.push(record@));
                    assert forall|a: int, b: int| 0 <= a < b < self@.len() implies (
                    #[trigger] self@[a]).icao != (#[trigger] self@[b]).icao by {
                        if b < before.len() {
                            assert(before[a].icao != before[b].icao);
                        } else {
                            assert(before[a].icao != record@.icao);
                        }
                    }
                }
            },
        }
    }
}

/// Whether a fetch is under way. At most one is at any time.
#[derive(Clone, Copy, Debug, PartialEq, Eq, Structural)]
pub enum FetchState {
    Idle,
    InFlight,
}

/// The time window of one fetch, in seconds since the Unix epoch: rows later
/// than `start` and earlier than `end`.
#[derive(Clone, Copy, Debug, PartialEq, Eq, Structural)]
pub struct FetchWindow {
    pub start: i64,
    pub end: i64,
}

/// Why a fetch gave no snapshot.
#[derive(Clone, Copy, Debug, PartialEq, Eq, Structural)]
pub enum FetchError {
    /// The source could not be reached, did not answer in time, or answered
    /// with a failure.
    Transport,
}

/// The window of the next fetch: one step of the clock, from its current time.
pub open spec fn next_window(adsb: ADSBManager) -> FetchWindow {
    FetchWindow { start: adsb.time, end: (adsb.time + adsb.target_delta) as i64 }
}

/// The snapshot that a finished fetch publishes: what it fetched, or nothing
/// at all if it failed.
pub open spec fn published(outcome: Result<DataFetch, FetchError>) -> Seq<PlaneDataView> {
    match outcome {
        Ok(snapshot) => snapshot@,
        Err(_) => Seq::empty(),
    }
}

/// Starts the next fetch if none is under way: gives its window and marks it
/// as in flight. While a fetch is in flight nothing is started.
pub fn spawn_task(state: &mut FetchState, adsb: &ADSBManager) -> (r: Option<FetchWindow>)
    requires
        i64::MIN <= adsb.time + adsb.target_delta <= i64::MAX,
    ensures
        *old(state) == FetchState::Idle ==> r == Some(next_window(*adsb)) && *final(state)
            == FetchState::InFlight,
        *old(state) == FetchState::InFlight ==> r.is_none() && *final(state)
            == FetchState::InFlight,
{
    match *state {
        FetchState::Idle => {
            *state = FetchState::InFlight;
            Some(FetchWindow { start: adsb.time, end: adsb.time + adsb.target_delta })
        },
        FetchState::InFlight => None,
    }
}

/// Takes in the outcome of the fetch in flight, if it has one yet. A finished
/// fetch publishes its snapshot into the slot, empty if the fetch failed,
/// moves the clock on by one step and leaves the schedule idle. Without an
/// outcome, or without a fetch in flight, nothing changes. The population is
/// never touched.
pub fn handle_tasks(
    state: &mut FetchState,
    adsb: &mut ADSBManager,
    slot: &mut Option<DataFetch>,
    outcome: Option<Result<DataFetch, FetchError>>,
)
    requires
        i64::MIN <= old(adsb).time + old(adsb).target_delta <= i64::MAX,
        outcome matches Some(Ok(snapshot)) ==> snapshot.wf(),
        *old(slot) matches Some(snapshot) ==> snapshot.wf(),
    ensures
        final(adsb).ticks == old(adsb).ticks,
        final(adsb).target_delta == old(adsb).target_delta,
        final(adsb).planes == old(adsb).planes,
        final(adsb).aircraft == old(adsb).aircraft,
        *final(slot) matches Some(snapshot) ==> snapshot.wf(),
        *old(state) == FetchState::InFlight && outcome.is_some() ==> {
            &&& *final(state) == FetchState::Idle
            &&& final(adsb).time == old(adsb).time + old(adsb).target_delta
            &&& *final(slot) matches Some(snapshot) && snapshot@ == published(outcome.unwrap())
        },
        !(*old(state) == FetchState::InFlight && outcome.is_some()) ==> {
            &&& *final(state) == *old(state)
            &&& final(adsb).time == old(adsb).time
            &&& *final(slot) == *old(slot)
        },
{
    match *state {
        FetchState::Idle => {},
        FetchState::InFlight => {
            match outcome {
                None => {},
                Some(result) => {
                    let snapshot: DataFetch = match result {
                        Ok(snapshot) => snapshot,
                        Err(_) => DataFetch::new(),
                    };
                    *slot = Some(snapshot);
                    adsb.time = adsb.time + adsb.target_delta;
                    *state = FetchState::Idle;
                },
            }
        },
    }
}

} // verus!
