use birbs::parse::{
    EntryError, check_confidence, parse_date, parse_entry, parse_time, resolve_text, split_fields,
};
use birbs::time::{CivilDate, CivilTime, TimeError};

#[test]
fn parses_iso_date() {
    assert_eq!(parse_date("2023-04-01"), Some(CivilDate { year: 2023, month: 4, day: 1 }));
}

#[test]
fn rejects_malformed_dates() {
    assert_eq!(parse_date("2023-4-1"), None);
    assert_eq!(parse_date("2023/04/01"), None);
    assert_eq!(parse_date("2023-13-01"), None);
    assert_eq!(parse_date("2023-00-10"), None);
    assert_eq!(parse_date("2023-02-29"), None);
    assert_eq!(parse_date("0000-01-01"), None);
    assert_eq!(parse_date(""), None);
    assert_eq!(parse_date("2023-04-011"), None);
}

#[test]
fn accepts_leap_day_in_leap_years_only() {
    assert_eq!(parse_date("2024-02-29"), Some(CivilDate { year: 2024, month: 2, day: 29 }));
    assert_eq!(parse_date("1900-02-29"), None);
    assert_eq!(parse_date("2000-02-29"), Some(CivilDate { year: 2000, month: 2, day: 29 }));
}

#[test]
fn parses_24_hour_time() {
    assert_eq!(parse_time("06:15:00"), Some(CivilTime { hour: 6, minute: 15, second: 0 }));
    assert_eq!(parse_time("23:59:59"), Some(CivilTime { hour: 23, minute: 59, second: 59 }));
}

#[test]
fn rejects_malformed_times() {
    assert_eq!(parse_time("24:00:00"), None);
    assert_eq!(parse_time("12:60:00"), None);
    assert_eq!(parse_time("12:00:60"), None);
    assert_eq!(parse_time("6:15:00"), None);
    assert_eq!(parse_time("06-15-00"), None);
    assert_eq!(parse_time(""), None);
}

#[test]
fn confidence_is_plain_decimal_text() {
    assert!(check_confidence("0.87"));
    assert!(check_confidence("87"));
    assert!(check_confidence("0"));
    assert!(check_confidence("12.345"));
    assert!(!check_confidence(""));
    assert!(!check_confidence(".5"));
    assert!(!check_confidence("5."));
    assert!(!check_confidence("1.2.3"));
    assert!(!check_confidence("abc"));
    assert!(!check_confidence("-0.5"));
    assert!(!check_confidence("0. 5"));
}

#[test]
fn splits_on_semicolons() {
    let fields = split_fields("a;b;;d");
    assert_eq!(fields, vec!["a", "b", "", "d"]);
    assert_eq!(split_fields(""), vec![""]);
    assert_eq!(split_fields(";"), vec!["", ""]);
    assert_eq!(split_fields("plain"), vec!["plain"]);
}

#[test]
fn parses_one_log_line_into_a_record() {
    let e = parse_entry("2023-04-01;06:15:00;Corvus brachyrhynchos;American Crow;0.87").unwrap();
    assert_eq!(e.common_name, "American Crow");
    assert_eq!(e.scientific_name, "Corvus brachyrhynchos");
    assert_eq!(e.confidence, "0.87");
    // 06:15:00 civil time in the fixed zone on that date, as a UTC instant.
    assert_eq!(e.when.utc_secs, 1680354900);
}

#[test]
fn rejects_wrong_field_count() {
    assert_eq!(
        parse_entry("2023-04-01;06:15:00;Corvus;Crow"),
        Err(EntryError::WrongFieldCount)
    );
    assert_eq!(
        parse_entry("2023-04-01;06:15:00;Corvus;Crow;0.87;extra"),
        Err(EntryError::WrongFieldCount)
    );
    assert_eq!(parse_entry(""), Err(EntryError::WrongFieldCount));
}

#[test]
fn reports_the_first_bad_field() {
    assert_eq!(
        parse_entry("2023-99-01;06:15:00;a;b;0.87"),
        Err(EntryError::BadDate)
    );
    assert_eq!(
        parse_entry("2023-04-01;29:15:00;a;b;0.87"),
        Err(EntryError::BadTime)
    );
    assert_eq!(
        parse_entry("2023-04-01;06:15:00;a;b;high"),
        Err(EntryError::BadConfidence)
    );
    // A bad date outranks a bad confidence.
    assert_eq!(
        parse_entry("2023-99-01;06:15:00;a;b;high"),
        Err(EntryError::BadDate)
    );
}

#[test]
fn propagates_gap_failure_from_the_resolver() {
    assert_eq!(
        parse_entry("2023-03-12;02:30:00;a;b;0.5"),
        Err(EntryError::InvalidLocalTime)
    );
}

#[test]
fn error_names_the_offending_field() {
    assert_eq!(EntryError::BadDate.field_index(), Some(0));
    assert_eq!(EntryError::BadTime.field_index(), Some(1));
    assert_eq!(EntryError::BadConfidence.field_index(), Some(4));
    assert_eq!(EntryError::WrongFieldCount.field_index(), None);
}

#[test]
fn resolve_text_distinguishes_malformed_from_nonexistent() {
    assert_eq!(
        resolve_text("2023-04-99", "06:15:00").unwrap_err(),
        TimeError::MalformedTimestamp
    );
    assert_eq!(
        resolve_text("2023-04-01", "06:15"),
        Err(TimeError::MalformedTimestamp)
    );
    assert_eq!(
        resolve_text("2023-03-12", "02:30:00"),
        Err(TimeError::InvalidLocalTime)
    );
    assert_eq!(resolve_text("2023-04-01", "06:15:00").unwrap().utc_secs, 1680354900);
}
