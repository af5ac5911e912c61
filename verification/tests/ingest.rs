use interceptions::ingest::ends_with;
use interceptions::{is_bzip2_path, missing_data, next_step, Error, MissingField, Step};

#[test]
fn bzip2_sources_are_told_by_their_names() {
    assert!(is_bzip2_path("2021-02-23/1614109133.json.bz2"));
    assert!(is_bzip2_path(".bz2"));
    assert!(!is_bzip2_path("2021-02-23/1614109133.json"));
    assert!(!is_bzip2_path("1614109133.json.bz2.tmp"));
    assert!(!is_bzip2_path("bz2"));
    assert!(!is_bzip2_path(""));
    assert!(!is_bzip2_path("x.BZ2"));
}

#[test]
fn ends_with_compares_the_tail() {
    assert!(ends_with("héllo", "llo"));
    assert!(ends_with("héllo", "éllo"));
    assert!(ends_with("hello", ""));
    assert!(ends_with("", ""));
    assert!(!ends_with("lo", "llo"));
    assert!(!ends_with("hello", "hell"));
}

#[test]
fn a_failed_source_ends_the_run_unless_skipped() {
    assert_eq!(next_step(false, true), Step::Deliver);
    assert_eq!(next_step(true, true), Step::Deliver);
    assert_eq!(next_step(true, false), Step::Skip);
    assert_eq!(next_step(false, false), Step::Abort);
}

#[test]
fn missing_data_names_aircraft_and_field() {
    assert_eq!(
        missing_data("abc123", MissingField::Position),
        Error::AircraftMissingData("Aircraft abc123 is missing position data".to_string())
    );
    assert_eq!(
        missing_data("abc123", MissingField::GroundSpeed),
        Error::AircraftMissingData("Aircraft abc123 is missing ground speed data".to_string())
    );
    assert_eq!(
        missing_data("", MissingField::GeometricAltitude),
        Error::AircraftMissingData("Aircraft  is missing geometric altitude".to_string())
    );
    assert_eq!(
        missing_data("abc123", MissingField::SeenPos),
        Error::AircraftMissingData("Aircraft abc123 is missing seen_pos".to_string())
    );
}
