use birbs::parse::{EntryError, parse_entry};
use birbs::publish::{BirdLog, fmt_i128, parse_batch, to_point};

#[test]
fn bird_log_keeps_its_path() {
    let log = BirdLog::new(String::from("/var/log/birds.txt"));
    assert_eq!(log.path, "/var/log/birds.txt");
}

#[test]
fn entry_becomes_one_point() {
    let e = parse_entry("2023-04-01;06:15:00;Corvus brachyrhynchos;American Crow;0.87").unwrap();
    let p = to_point(&e);
    assert_eq!(p.common_name, "American Crow");
    assert_eq!(p.confidence, "0.87");
    assert_eq!(p.timestamp_nanos, 1680354900000000000i128);
}

#[test]
fn line_protocol_escapes_spaces_in_the_field_key() {
    let e = parse_entry("2023-04-01;06:15:00;Corvus brachyrhynchos;American Crow;0.87").unwrap();
    let line = e.to_line_protocol();
    assert_eq!(
        line.0,
        "birds,station=backyard American\\ Crow=0.87 1680354900000000000"
    );
}

#[test]
fn signed_decimal_formatting() {
    assert_eq!(fmt_i128(0), "0");
    assert_eq!(fmt_i128(42), "42");
    assert_eq!(fmt_i128(-42), "-42");
    assert_eq!(fmt_i128(1680354900000000000), "1680354900000000000");
}

#[test]
fn batch_skips_the_header_and_parses_the_rest() {
    let lines = vec![
        String::from("Date;Time;Sci_Name;Com_Name;Confidence"),
        String::from("2023-04-01;06:15:00;Corvus brachyrhynchos;American Crow;0.87"),
        String::from("2023-04-01;06:20:00;Poecile atricapillus;Black-capped Chickadee;0.91"),
    ];
    let entries = parse_batch(&lines).unwrap();
    assert_eq!(entries.len(), 2);
    assert_eq!(entries[0].common_name, "American Crow");
    assert_eq!(entries[1].common_name, "Black-capped Chickadee");
}

#[test]
fn batch_fails_fast_on_the_first_bad_line() {
    let lines = vec![
        String::from("header"),
        String::from("2023-04-01;06:15:00;a;b;0.87"),
        String::from("not a line"),
        String::from("also;not;a;line"),
    ];
    assert_eq!(parse_batch(&lines), Err(EntryError::WrongFieldCount));
}

#[test]
fn empty_batch_is_fine() {
    assert_eq!(parse_batch(&Vec::new()).unwrap().len(), 0);
    // A header alone publishes nothing.
    assert_eq!(parse_batch(&vec![String::from("header")]).unwrap().len(), 0);
}
