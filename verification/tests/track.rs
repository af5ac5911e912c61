use interceptions::{
    aircraft_is_on_ground, alt_number, Ac, AltitudeOrGround, Class, Error, Position, Snapshot,
};

const NOW: i64 = 1_614_109_133_600;

fn report(hex: &str, lon: i32, lat: i32, knots_thousandths: i64, feet: i32) -> Snapshot {
    Snapshot {
        hex: hex.to_string(),
        lon: Some(lon),
        lat: Some(lat),
        ground_speed: Some(knots_thousandths),
        geometric_altitude: Some(feet),
        barometric_altitude: Some(AltitudeOrGround::Altitude(feet)),
        seen_pos: Some(1_500),
        seen: 200,
    }
}

fn track(speed: i64, on_ground: bool, fast_count: u32, seen_fast: Option<i64>) -> Ac {
    Ac {
        hex: "a1b2c3".to_string(),
        coords: vec![(NOW, Position { lon: 0, lat: 0 })],
        max_speed: speed.max(400_000),
        cur_speed: speed,
        cur_alt: 20_000,
        is_on_ground: on_ground,
        time_seen_fast: seen_fast,
        fast_count,
        seen: NOW,
    }
}

fn missing_text(made: Result<Ac, Error>) -> String {
    match made {
        Err(Error::AircraftMissingData(text)) => text,
        other => panic!("expected missing data, got {:?}", other),
    }
}

#[test]
fn alt_number_takes_ground_as_zero() {
    assert_eq!(alt_number(AltitudeOrGround::OnGround), 0);
    assert_eq!(alt_number(AltitudeOrGround::Altitude(12_345)), 12_345);
    assert_eq!(alt_number(AltitudeOrGround::Altitude(-300)), -300);
}

#[test]
fn new_starts_a_track_dated_back() {
    let ac = Ac::new(NOW, &report("a1b2c3", -118_100_000, 34_100_000, 420_500, 31_000)).unwrap();
    assert_eq!(ac.hex, "a1b2c3");
    assert_eq!(
        ac.coords,
        vec![(NOW - 1_500, Position { lon: -118_100_000, lat: 34_100_000 })]
    );
    assert_eq!(ac.max_speed, 420_500);
    assert_eq!(ac.cur_speed, 420_500);
    assert_eq!(ac.cur_alt, 31_000);
    assert!(!ac.is_on_ground);
    assert_eq!(ac.time_seen_fast, Some(NOW - 1_500));
    assert_eq!(ac.fast_count, 1);
    assert_eq!(ac.seen, NOW - 200);
}

#[test]
fn new_of_a_slow_aircraft_counts_nothing_fast() {
    let ac = Ac::new(NOW, &report("a1b2c3", 1, 2, 350_000, 400)).unwrap();
    assert_eq!(ac.time_seen_fast, None);
    assert_eq!(ac.fast_count, 0);
    assert!(ac.is_on_ground);
    assert_eq!(ac.cur_alt, 400);
}

#[test]
fn new_just_above_the_threshold_counts_fast() {
    let ac = Ac::new(NOW, &report("a1b2c3", 1, 2, 350_001, 9_000)).unwrap();
    assert_eq!(ac.fast_count, 1);
    assert_eq!(ac.time_seen_fast, Some(NOW - 1_500));
}

#[test]
fn new_without_position_fails() {
    let mut snapshot = report("abc123", 1, 2, 100_000, 5_000);
    snapshot.lon = None;
    assert_eq!(
        missing_text(Ac::new(NOW, &snapshot)),
        "Aircraft abc123 is missing position data"
    );
    let mut snapshot = report("abc123", 1, 2, 100_000, 5_000);
    snapshot.lat = None;
    assert_eq!(
        missing_text(Ac::new(NOW, &snapshot)),
        "Aircraft abc123 is missing position data"
    );
}

#[test]
fn new_without_ground_speed_fails() {
    let mut snapshot = report("abc123", 1, 2, 100_000, 5_000);
    snapshot.ground_speed = None;
    let made = Ac::new(NOW, &snapshot);
    assert!(matches!(made, Err(Error::AircraftMissingData(_))));
    assert_eq!(missing_text(made), "Aircraft abc123 is missing ground speed data");
}

#[test]
fn new_without_geometric_altitude_fails() {
    let mut snapshot = report("abc123", 1, 2, 100_000, 5_000);
    snapshot.geometric_altitude = None;
    assert_eq!(
        missing_text(Ac::new(NOW, &snapshot)),
        "Aircraft abc123 is missing geometric altitude"
    );
}

#[test]
fn new_without_seen_pos_fails() {
    let mut snapshot = report("abc123", 1, 2, 100_000, 5_000);
    snapshot.seen_pos = None;
    assert_eq!(missing_text(Ac::new(NOW, &snapshot)), "Aircraft abc123 is missing seen_pos");
}

#[test]
fn new_names_the_first_missing_field() {
    let snapshot = Snapshot {
        hex: "~2f00aa".to_string(),
        lon: Some(3),
        lat: Some(4),
        ground_speed: None,
        geometric_altitude: None,
        barometric_altitude: None,
        seen_pos: None,
        seen: 0,
    };
    assert_eq!(
        missing_text(Ac::new(NOW, &snapshot)),
        "Aircraft ~2f00aa is missing ground speed data"
    );
}

#[test]
fn new_dates_back_over_the_whole_range() {
    let mut snapshot = report("abc123", 1, 2, 100_000, 5_000);
    snapshot.seen_pos = Some(u64::MAX);
    snapshot.seen = u64::MAX;
    let ac = Ac::new(i64::MAX, &snapshot).unwrap();
    assert_eq!(ac.seen, i64::MIN);
    assert_eq!(ac.coords[0].0, i64::MIN);
}

#[test]
fn update_takes_speed_altitude_and_contact() {
    let mut ac = Ac::new(NOW, &report("a1b2c3", 10, 20, 300_000, 30_000)).unwrap();
    ac.update(NOW + 5_000, &report("a1b2c3", 11, 21, 360_000, 31_000));
    assert_eq!(ac.hex, "a1b2c3");
    assert_eq!(ac.cur_speed, 360_000);
    assert_eq!(ac.max_speed, 360_000);
    assert_eq!(ac.cur_alt, 31_000);
    assert_eq!(ac.time_seen_fast, Some(NOW + 5_000));
    assert_eq!(ac.fast_count, 1);
    assert_eq!(ac.seen, NOW + 5_000);
    assert_eq!(
        ac.coords,
        vec![
            (NOW - 1_500, Position { lon: 10, lat: 20 }),
            (NOW + 5_000, Position { lon: 11, lat: 21 }),
        ]
    );
    ac.update(NOW + 10_000, &report("a1b2c3", 12, 22, 200_000, 29_000));
    assert_eq!(ac.cur_speed, 200_000);
    assert_eq!(ac.max_speed, 360_000);
    assert_eq!(ac.time_seen_fast, Some(NOW + 5_000));
    assert_eq!(ac.fast_count, 1);
    assert_eq!(ac.seen, NOW + 10_000);
}

#[test]
fn update_without_speed_keeps_the_speeds() {
    let mut ac = Ac::new(NOW, &report("a1b2c3", 10, 20, 360_000, 30_000)).unwrap();
    let mut snapshot = report("a1b2c3", 11, 21, 0, 30_500);
    snapshot.ground_speed = None;
    ac.update(NOW + 1_000, &snapshot);
    assert_eq!(ac.cur_speed, 360_000);
    assert_eq!(ac.max_speed, 360_000);
    assert_eq!(ac.fast_count, 1);
    assert_eq!(ac.time_seen_fast, Some(NOW - 1_500));
    assert_eq!(ac.cur_alt, 30_500);
}

#[test]
fn update_falls_back_on_the_barometric_altitude() {
    let mut ac = Ac::new(NOW, &report("a1b2c3", 10, 20, 100_000, 30_000)).unwrap();
    let mut snapshot = report("a1b2c3", 11, 21, 100_000, 0);
    snapshot.geometric_altitude = None;
    snapshot.barometric_altitude = Some(AltitudeOrGround::Altitude(7_700));
    ac.update(NOW + 1_000, &snapshot);
    assert_eq!(ac.cur_alt, 7_700);
    assert!(!ac.is_on_ground);
    snapshot.barometric_altitude = Some(AltitudeOrGround::OnGround);
    ac.update(NOW + 2_000, &snapshot);
    assert_eq!(ac.cur_alt, 0);
    assert!(ac.is_on_ground);
    snapshot.barometric_altitude = None;
    ac.update(NOW + 3_000, &snapshot);
    assert_eq!(ac.cur_alt, 0);
    assert!(!ac.is_on_ground);
}

#[test]
fn history_keeps_the_last_forty_in_order() {
    let mut ac = Ac::new(NOW, &report("a1b2c3", 0, 0, 100_000, 30_000)).unwrap();
    for step in 1..=45 {
        ac.update(NOW + step as i64, &report("a1b2c3", step, -step, 100_000, 30_000));
        assert!(ac.coords.len() <= 40);
        assert!(!ac.coords.is_empty());
    }
    let expected: Vec<(i64, Position)> = (6..=45)
        .map(|step| (NOW + step as i64, Position { lon: step, lat: -step }))
        .collect();
    assert_eq!(ac.coords, expected);
    assert_eq!(*ac.oldest_coords(), (NOW + 6, Position { lon: 6, lat: -6 }));
    assert_eq!(*ac.cur_coords(), (NOW + 45, Position { lon: 45, lat: -45 }));
}

#[test]
fn history_below_capacity_loses_nothing() {
    let mut ac = Ac::new(NOW, &report("a1b2c3", 0, 0, 100_000, 30_000)).unwrap();
    for step in 1..=39 {
        ac.update(NOW + step as i64, &report("a1b2c3", step, step, 100_000, 30_000));
    }
    assert_eq!(ac.coords.len(), 40);
    assert_eq!(*ac.oldest_coords(), (NOW - 1_500, Position { lon: 0, lat: 0 }));
    ac.update(NOW + 40, &report("a1b2c3", 40, 40, 100_000, 30_000));
    assert_eq!(ac.coords.len(), 40);
    assert_eq!(*ac.oldest_coords(), (NOW + 1, Position { lon: 1, lat: 1 }));
}

#[test]
fn max_speed_never_falls() {
    let speeds = [120_000, 90_000, 400_000, 10_000, 399_999, 400_001, 0, -5];
    let mut ac = Ac::new(NOW, &report("a1b2c3", 0, 0, 100_000, 30_000)).unwrap();
    let mut highest = 100_000;
    for (step, speed) in speeds.iter().enumerate() {
        let before = ac.max_speed;
        ac.update(NOW + step as i64, &report("a1b2c3", 1, 1, *speed, 30_000));
        highest = highest.max(*speed);
        assert!(ac.max_speed >= before);
        assert!(ac.max_speed >= ac.cur_speed);
        assert_eq!(ac.max_speed, highest);
        assert_eq!(ac.cur_speed, *speed);
    }
    assert_eq!(ac.max_speed, 400_001);
}

#[test]
fn fast_count_rises_by_one_for_each_fast_report() {
    let mut ac = Ac::new(NOW, &report("a1b2c3", 0, 0, 100_000, 30_000)).unwrap();
    let steps = [(350_000, 0), (350_001, 1), (349_999, 1), (900_000, 2), (350_001, 3), (0, 3)];
    for (step, (speed, expected)) in steps.iter().enumerate() {
        ac.update(NOW + step as i64, &report("a1b2c3", 1, 1, *speed, 30_000));
        assert_eq!(ac.fast_count, *expected);
        assert_eq!(ac.fast_count > 0, ac.time_seen_fast.is_some());
    }
    assert_eq!(ac.time_seen_fast, Some(NOW + 4));
}

#[test]
fn ground_marker_decides_whatever_the_altitude() {
    let mut snapshot = report("a1b2c3", 0, 0, 100_000, 35_000);
    snapshot.barometric_altitude = Some(AltitudeOrGround::OnGround);
    assert!(aircraft_is_on_ground(&snapshot));
    snapshot.geometric_altitude = None;
    assert!(aircraft_is_on_ground(&snapshot));
}

#[test]
fn ground_is_below_five_hundred_feet() {
    let mut snapshot = report("a1b2c3", 0, 0, 100_000, 499);
    snapshot.barometric_altitude = None;
    assert!(aircraft_is_on_ground(&snapshot));
    snapshot.geometric_altitude = Some(500);
    assert!(!aircraft_is_on_ground(&snapshot));
    snapshot.geometric_altitude = Some(501);
    assert!(!aircraft_is_on_ground(&snapshot));
    snapshot.geometric_altitude = Some(-20);
    assert!(aircraft_is_on_ground(&snapshot));
    snapshot.geometric_altitude = None;
    assert!(!aircraft_is_on_ground(&snapshot));
    snapshot.barometric_altitude = Some(AltitudeOrGround::Altitude(100));
    assert!(!aircraft_is_on_ground(&snapshot));
}

#[test]
fn fast_mover_lasts_three_minutes() {
    let seen_fast = NOW - (2 * 60 + 59) * 1_000;
    let ac = track(200_000, false, 11, Some(seen_fast));
    assert!(ac.is_fast_mover(NOW));
    assert_eq!(ac.class(NOW), Class::Interceptor);
    let seen_fast = NOW - (3 * 60 + 1) * 1_000;
    let ac = track(200_000, false, 11, Some(seen_fast));
    assert!(!ac.is_fast_mover(NOW));
    assert_ne!(ac.class(NOW), Class::Interceptor);
    let ac = track(200_000, false, 11, Some(NOW - 180_000));
    assert!(!ac.is_fast_mover(NOW));
    let ac = track(200_000, false, 11, Some(NOW - 179_999));
    assert!(ac.is_fast_mover(NOW));
}

#[test]
fn fast_mover_needs_more_than_ten_fast_reports() {
    assert!(!track(400_000, false, 10, Some(NOW)).is_fast_mover(NOW));
    assert!(track(400_000, false, 11, Some(NOW)).is_fast_mover(NOW));
    assert!(!track(400_000, true, 11, Some(NOW)).is_fast_mover(NOW));
    assert!(!track(400_000, false, 0, None).is_fast_mover(NOW));
}

#[test]
fn fast_mover_seen_fast_after_now_still_counts() {
    let ac = track(400_000, false, 11, Some(NOW + 1_000_000));
    assert!(ac.is_fast_mover(NOW));
    let ac = track(400_000, false, 11, Some(i64::MIN));
    assert!(!ac.is_fast_mover(i64::MAX));
    let ac = track(400_000, false, 11, Some(i64::MAX));
    assert!(ac.is_fast_mover(i64::MIN));
}

#[test]
fn fast_mover_after_eleven_fast_reports() {
    let mut ac = Ac::new(NOW, &report("a1b2c3", 0, 0, 500_000, 30_000)).unwrap();
    for step in 1..=9 {
        ac.update(NOW + step, &report("a1b2c3", 1, 1, 500_000, 30_000));
    }
    assert_eq!(ac.fast_count, 10);
    assert!(!ac.is_fast_mover(NOW + 9));
    ac.update(NOW + 10, &report("a1b2c3", 1, 1, 500_000, 30_000));
    assert_eq!(ac.fast_count, 11);
    assert!(ac.is_fast_mover(NOW + 10));
    ac.update(NOW + 60_000, &report("a1b2c3", 1, 1, 200_000, 30_000));
    assert!(ac.is_fast_mover(NOW + 60_000));
    assert_eq!(ac.class(NOW + 60_000), Class::Interceptor);
    assert!(!ac.is_fast_mover(NOW + 10 + 180_000));
    assert_eq!(ac.class(NOW + 10 + 180_000), Class::Target);
}

#[test]
fn target_band_is_open_at_both_ends() {
    assert!(!track(80_000, false, 0, None).is_potential_toi());
    assert!(track(80_010, false, 0, None).is_potential_toi());
    assert!(track(80_001, false, 0, None).is_potential_toi());
    assert!(!track(250_000, false, 0, None).is_potential_toi());
    assert!(track(249_999, false, 0, None).is_potential_toi());
    assert!(!track(80_010, true, 0, None).is_potential_toi());
    assert!(!track(400_000, false, 0, None).is_potential_toi());
}

#[test]
fn class_follows_the_two_rules() {
    assert_eq!(track(100_000, false, 0, None).class(NOW), Class::Target);
    assert_eq!(track(100_000, true, 0, None).class(NOW), Class::Other);
    assert_eq!(track(300_000, false, 0, None).class(NOW), Class::Other);
    assert_eq!(track(400_000, false, 11, Some(NOW)).class(NOW), Class::Interceptor);
    assert_eq!(track(400_000, true, 11, Some(NOW)).class(NOW), Class::Other);
    assert_eq!(track(400_000, false, 3, Some(NOW)).class(NOW), Class::Other);
}

#[test]
fn clone_copies_every_field() {
    let mut ac = Ac::new(NOW, &report("a1b2c3", 5, 6, 360_000, 30_000)).unwrap();
    ac.update(NOW + 1, &report("a1b2c3", 7, 8, 100_000, 20_000));
    let copy = ac.clone();
    assert_eq!(copy.hex, ac.hex);
    assert_eq!(copy.coords, ac.coords);
    assert_eq!(copy.max_speed, ac.max_speed);
    assert_eq!(copy.cur_speed, ac.cur_speed);
    assert_eq!(copy.cur_alt, ac.cur_alt);
    assert_eq!(copy.is_on_ground, ac.is_on_ground);
    assert_eq!(copy.time_seen_fast, ac.time_seen_fast);
    assert_eq!(copy.fast_count, ac.fast_count);
    assert_eq!(copy.seen, ac.seen);
}
