use adsb_globe::adsb::clickhouse::PlaneData;
use adsb_globe::adsb::math::{Coordinate, Degrees, Point3, Projection};
use adsb_globe::adsb::task_pool::DataFetch;
use adsb_globe::adsb::{
    move_aircraft, reconcile, ADSBManager, Aircraft, HISTORY_CAPACITY, INITIAL_ALTITUDE,
    INITIAL_GROUND_SPEED, POPULATION_CAP, STALE_AFTER,
};

const EARTH_RADIUS: f32 = 5.0;
const START: i64 = 1_766_880_000;

fn radians(degrees: f32) -> f32 {
    std::hint::black_box(degrees) / 180.0 * std::f32::consts::PI
}

fn degrees(radians: f32) -> f32 {
    radians / std::f32::consts::PI * 180.0
}

fn point(latitude: f32, longitude: f32, radius: f32) -> [f32; 3] {
    let y = std::hint::black_box(radians(latitude)).sin();
    let r = std::hint::black_box(radians(latitude)).cos();
    let x = std::hint::black_box(radians(longitude)).sin() * r;
    let z = -std::hint::black_box(radians(longitude)).cos() * r;
    [x * radius, y * radius, z * radius]
}

fn project(coordinate: Coordinate, altitude: u32) -> Projection {
    let radius = EARTH_RADIUS + f32::from_bits(altitude);
    let p = point(
        f32::from_bits(coordinate.latitude.0),
        f32::from_bits(coordinate.longitude.0),
        radius,
    );
    let length = (p[0] * p[0] + p[1] * p[1] + p[2] * p[2]).sqrt();
    let unit = [p[0] / length, p[1] / length, p[2] / length];
    let unit = std::hint::black_box(unit);
    let longitude = degrees(unit[0].atan2(-unit[2]));
    let latitude = degrees(unit[1].asin());
    let q = point(latitude, longitude, radius);
    Projection {
        coordinate: Coordinate {
            longitude: Degrees(longitude.to_bits()),
            latitude: Degrees(latitude.to_bits()),
        },
        translation: Point3 { x: q[0].to_bits(), y: q[1].to_bits(), z: q[2].to_bits() },
    }
}

fn row(icao: &str, lat: f32, lon: f32, track: f32) -> PlaneData {
    PlaneData {
        icao: icao.to_string(),
        lat: Degrees(lat.to_bits()),
        lon: Degrees(lon.to_bits()),
        ac_type: "B738".to_string(),
        registration: "N12345".to_string(),
        track_degrees: Degrees(track.to_bits()),
    }
}

fn snapshot(rows: Vec<PlaneData>) -> DataFetch {
    let mut data = DataFetch::new();
    for r in rows {
        data.insert(r);
    }
    data
}

#[test]
fn first_report_spawns_the_aircraft() {
    let mut adsb = ADSBManager::starting_at(START, 10);
    let data = snapshot(vec![row("ABC123", 10.0, 20.0, 90.0)]);
    move_aircraft(&mut adsb, &data, &project);
    assert_eq!(adsb.planes, 1);
    assert_eq!(adsb.aircraft.len(), 1);
    assert_eq!(adsb.ticks, 1);
    let a = &adsb.aircraft[0];
    assert_eq!(a.icao, "ABC123");
    assert_eq!(f32::from_bits(a.state.altitude), 0.01);
    assert_eq!(f32::from_bits(a.state.ground_speed), 0.1);
    assert_eq!(a.state.altitude, INITIAL_ALTITUDE);
    assert_eq!(a.state.ground_speed, INITIAL_GROUND_SPEED);
    assert_eq!(f32::from_bits(a.state.coordinate.latitude.0), 10.0);
    assert_eq!(f32::from_bits(a.state.coordinate.longitude.0), 20.0);
    assert_eq!(f32::from_bits(a.state.heading.0), 90.0);
    assert_eq!(a.state.last_relevant_time, START);
    assert_eq!(a.history.len(), 0);
    assert_eq!(f32::from_bits(a.translation.x), 0.0);
    assert_eq!(f32::from_bits(a.translation.y), 0.5);
    assert_eq!(f32::from_bits(a.translation.z), 0.0);
}

#[test]
fn second_report_updates_and_keeps_history() {
    let mut adsb = ADSBManager::starting_at(START, 10);
    let first = snapshot(vec![row("ABC123", 10.0, 20.0, 90.0)]);
    move_aircraft(&mut adsb, &first, &project);
    let cycle_one = adsb.aircraft[0].state;

    adsb.time += 10;
    let second = snapshot(vec![row("ABC123", 10.01, 20.0, 95.0)]);
    move_aircraft(&mut adsb, &second, &project);

    assert_eq!(adsb.planes, 1);
    assert_eq!(adsb.aircraft.len(), 1);
    let a = &adsb.aircraft[0];
    assert_eq!(a.icao, "ABC123");
    assert_eq!(a.history.len(), 1);
    assert_eq!(a.history[0], cycle_one);
    assert_eq!(f32::from_bits(a.state.heading.0), 95.0);
    assert_eq!(a.state.last_relevant_time, START + 10);
    let latitude = f32::from_bits(a.state.coordinate.latitude.0);
    let longitude = f32::from_bits(a.state.coordinate.longitude.0);
    assert!((latitude - 10.01).abs() < 1e-3);
    assert!((longitude - 20.0).abs() < 1e-3);
    let expected = project(
        Coordinate { longitude: Degrees(20.0f32.to_bits()), latitude: Degrees(10.01f32.to_bits()) },
        INITIAL_ALTITUDE,
    );
    assert_eq!(a.state.coordinate, expected.coordinate);
    assert_eq!(a.translation, expected.translation);
}

#[test]
fn population_stops_at_the_cap() {
    let mut adsb = ADSBManager::starting_at(START, 10);
    let mut rows = Vec::new();
    for i in 0..5_001u32 {
        rows.push(row(&format!("ID{:05}", i), 1.0, 2.0, 3.0));
    }
    let data = DataFetch(rows);
    assert_eq!(data.len(), 5_001);
    move_aircraft(&mut adsb, &data, &project);
    assert_eq!(POPULATION_CAP, 5_000);
    assert_eq!(adsb.planes, 5_000);
    assert_eq!(adsb.aircraft.len(), 5_000);
    assert_eq!(adsb.aircraft[0].icao, "ID00000");
    assert_eq!(adsb.aircraft[4_999].icao, "ID04999");

    // The arrival that was dropped is not queued: with the population full it
    // is dropped again.
    move_aircraft(&mut adsb, &data, &project);
    assert_eq!(adsb.planes, 5_000);
    assert!(adsb.aircraft.iter().all(|a| a.icao != "ID05000"));
}

#[test]
fn dropped_arrival_enters_once_there_is_room() {
    let mut adsb = ADSBManager::starting_at(START, 10);
    let mut rows = Vec::new();
    for i in 0..5_000u32 {
        rows.push(row(&format!("ID{:05}", i), 1.0, 2.0, 3.0));
    }
    move_aircraft(&mut adsb, &DataFetch(rows), &project);
    assert_eq!(adsb.planes, 5_000);

    // Nothing reports for more than ten minutes: all are evicted, and the
    // newcomer of that cycle finds room.
    adsb.time += STALE_AFTER + 1;
    let late = snapshot(vec![row("LATE01", 4.0, 5.0, 6.0)]);
    move_aircraft(&mut adsb, &late, &project);
    assert_eq!(adsb.planes, 1);
    assert_eq!(adsb.aircraft[0].icao, "LATE01");
}

#[test]
fn history_holds_ten_states_newest_first() {
    assert_eq!(HISTORY_CAPACITY, 10);
    let mut adsb = ADSBManager::starting_at(START, 10);
    move_aircraft(&mut adsb, &snapshot(vec![row("ABC123", 0.0, 0.0, 0.0)]), &project);
    let mut states = vec![adsb.aircraft[0].state];
    for cycle in 1..=15usize {
        adsb.time += 10;
        let data = snapshot(vec![row("ABC123", cycle as f32, 0.0, cycle as f32)]);
        move_aircraft(&mut adsb, &data, &project);
        let a = &adsb.aircraft[0];
        assert_eq!(a.history.len(), cycle.min(10));
        for k in 0..a.history.len() {
            assert_eq!(a.history[k], states[states.len() - 1 - k]);
        }
        states.push(a.state);
    }
    assert_eq!(adsb.aircraft[0].history.len(), 10);
}

#[test]
fn history_is_ten_after_the_eleventh_update() {
    let mut adsb = ADSBManager::starting_at(START, 10);
    move_aircraft(&mut adsb, &snapshot(vec![row("ABC123", 0.0, 0.0, 0.0)]), &project);
    for cycle in 1..=11u32 {
        let data = snapshot(vec![row("ABC123", cycle as f32, 0.0, 0.0)]);
        move_aircraft(&mut adsb, &data, &project);
    }
    assert_eq!(adsb.aircraft[0].history.len(), 10);
}

#[test]
fn silent_aircraft_stays_until_the_threshold() {
    let mut adsb = ADSBManager::starting_at(START, 10);
    move_aircraft(&mut adsb, &snapshot(vec![row("ABC123", 10.0, 20.0, 90.0)]), &project);
    let before = adsb.aircraft[0].state;

    adsb.time = START + 9 * 60 + 59;
    move_aircraft(&mut adsb, &DataFetch::new(), &project);
    assert_eq!(adsb.planes, 1);
    assert_eq!(adsb.aircraft[0].state, before);
    assert_eq!(adsb.aircraft[0].history.len(), 0);

    adsb.time = START + 10 * 60;
    move_aircraft(&mut adsb, &DataFetch::new(), &project);
    assert_eq!(adsb.planes, 1);

    adsb.time = START + 10 * 60 + 1;
    move_aircraft(&mut adsb, &DataFetch::new(), &project);
    assert_eq!(adsb.planes, 0);
    assert_eq!(adsb.aircraft.len(), 0);
}

#[test]
fn is_stale_is_strict_at_ten_minutes() {
    let a = Aircraft::spawn(&row("ABC123", 1.0, 2.0, 3.0), START);
    assert!(!a.is_stale(START));
    assert!(!a.is_stale(START + 599));
    assert!(!a.is_stale(START + 600));
    assert!(a.is_stale(START + 601));
    assert!(!a.is_stale(i64::MIN));
    let far = Aircraft::spawn(&row("ABC123", 1.0, 2.0, 3.0), i64::MIN);
    assert!(far.is_stale(i64::MAX));
}

#[test]
fn grounded_aircraft_is_evicted_though_it_reports() {
    let mut adsb = ADSBManager::starting_at(START, 10);
    move_aircraft(&mut adsb, &snapshot(vec![row("PARKED", 10.0, 20.0, 90.0)]), &project);
    adsb.aircraft[0].state.altitude = 0.0f32.to_bits();

    adsb.time = START + 300;
    move_aircraft(&mut adsb, &snapshot(vec![row("PARKED", 11.0, 21.0, 91.0)]), &project);
    assert_eq!(adsb.planes, 1);
    assert_eq!(adsb.aircraft[0].state.last_relevant_time, START);
    assert_eq!(adsb.aircraft[0].history.len(), 1);
    assert_eq!(f32::from_bits(adsb.aircraft[0].state.heading.0), 91.0);

    adsb.time = START + 601;
    move_aircraft(&mut adsb, &snapshot(vec![row("PARKED", 12.0, 22.0, 92.0)]), &project);
    assert_eq!(adsb.planes, 0);

    // It was consumed in the cycle that evicted it, and comes back as new in
    // the next.
    move_aircraft(&mut adsb, &snapshot(vec![row("PARKED", 12.0, 22.0, 92.0)]), &project);
    assert_eq!(adsb.planes, 1);
    assert_eq!(adsb.aircraft[0].history.len(), 0);
    assert_eq!(adsb.aircraft[0].state.last_relevant_time, START + 601);
}

#[test]
fn unmoved_aircraft_keeps_its_clock() {
    let mut adsb = ADSBManager::starting_at(START, 10);
    let data = snapshot(vec![row("ABC123", 10.0, 20.0, 90.0)]);
    move_aircraft(&mut adsb, &data, &project);
    adsb.time = START + 10;
    move_aircraft(&mut adsb, &data, &project);
    assert_eq!(adsb.aircraft[0].state.last_relevant_time, START + 10);
    adsb.time = START + 20;
    move_aircraft(&mut adsb, &data, &project);
    assert_eq!(adsb.aircraft[0].state.last_relevant_time, START + 10);
    assert_eq!(adsb.aircraft[0].history.len(), 2);
}

#[test]
fn absent_aircraft_is_left_alone() {
    let mut adsb = ADSBManager::starting_at(START, 10);
    let both = snapshot(vec![row("AAA111", 1.0, 2.0, 3.0), row("BBB222", 4.0, 5.0, 6.0)]);
    move_aircraft(&mut adsb, &both, &project);
    assert_eq!(adsb.planes, 2);
    let a_state = adsb.aircraft[0].state;
    let a_place = adsb.aircraft[0].translation;

    adsb.time += 10;
    move_aircraft(&mut adsb, &snapshot(vec![row("BBB222", 4.5, 5.5, 6.5)]), &project);
    assert_eq!(adsb.planes, 2);
    assert_eq!(adsb.aircraft[0].icao, "AAA111");
    assert_eq!(adsb.aircraft[0].state, a_state);
    assert_eq!(adsb.aircraft[0].translation, a_place);
    assert_eq!(adsb.aircraft[0].history.len(), 0);
    assert_eq!(adsb.aircraft[1].icao, "BBB222");
    assert_eq!(adsb.aircraft[1].history.len(), 1);
}

#[test]
fn empty_snapshot_changes_nothing() {
    let mut adsb = ADSBManager::starting_at(START, 10);
    let both = snapshot(vec![row("AAA111", 1.0, 2.0, 3.0), row("BBB222", 4.0, 5.0, 6.0)]);
    move_aircraft(&mut adsb, &both, &project);
    let states: Vec<_> = adsb.aircraft.iter().map(|a| (a.icao.clone(), a.state)).collect();
    move_aircraft(&mut adsb, &DataFetch::new(), &project);
    move_aircraft(&mut adsb, &DataFetch::new(), &project);
    let after: Vec<_> = adsb.aircraft.iter().map(|a| (a.icao.clone(), a.state)).collect();
    assert_eq!(states, after);
    assert!(adsb.aircraft.iter().all(|a| a.history.is_empty()));
    assert_eq!(adsb.ticks, 3);
}

#[test]
fn reconcile_takes_projections_as_given() {
    let mut adsb = ADSBManager::starting_at(START, 10);
    let both = snapshot(vec![row("AAA111", 1.0, 2.0, 3.0), row("BBB222", 4.0, 5.0, 6.0)]);
    reconcile(&mut adsb, &both, &vec![]);
    assert_eq!(adsb.planes, 2);
    assert_eq!(adsb.ticks, 0);

    let given = Projection {
        coordinate: Coordinate { longitude: Degrees(7), latitude: Degrees(8) },
        translation: Point3 { x: 1.0f32.to_bits(), y: 2.0f32.to_bits(), z: 3.0f32.to_bits() },
    };
    adsb.time += 10;
    let one = snapshot(vec![row("BBB222", 9.0, 9.0, 9.0)]);
    reconcile(&mut adsb, &one, &vec![None, Some(given)]);
    assert_eq!(adsb.aircraft[1].state.coordinate, given.coordinate);
    assert_eq!(adsb.aircraft[1].translation, given.translation);
    assert_eq!(adsb.aircraft[1].state.last_relevant_time, START + 10);
    assert_eq!(adsb.aircraft[0].state.last_relevant_time, START);

    // The same drawn position again: the clock stays.
    adsb.time += 10;
    reconcile(&mut adsb, &one, &vec![None, Some(given)]);
    assert_eq!(adsb.aircraft[1].state.last_relevant_time, START + 10);
}

#[test]
fn update_pushes_the_previous_state() {
    let mut a = Aircraft::spawn(&row("ABC123", 1.0, 2.0, 3.0), START);
    let before = a.state;
    let given = Projection {
        coordinate: Coordinate { longitude: Degrees(70), latitude: Degrees(80) },
        translation: Point3 { x: 0, y: 0.5f32.to_bits(), z: 0x8000_0000 },
    };
    a.update(&row("ABC123", 5.0, 6.0, 7.0), given, START + 5);
    assert_eq!(a.history.len(), 1);
    assert_eq!(a.history[0], before);
    assert_eq!(a.state.coordinate, given.coordinate);
    assert_eq!(f32::from_bits(a.state.heading.0), 7.0);
    assert_eq!(a.state.altitude, before.altitude);
    assert_eq!(a.state.ground_speed, before.ground_speed);
    // (0, 0.5, -0) equals (0, 0.5, 0) as numbers: not a move.
    assert_eq!(a.state.last_relevant_time, START);
    assert_eq!(a.translation, given.translation);
}
