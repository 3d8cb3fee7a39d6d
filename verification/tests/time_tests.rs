use birbs::time::{CivilDate, CivilTime, TimeError, resolve, resolve_date_only};

fn date(year: u32, month: u32, day: u32) -> CivilDate {
    CivilDate { year, month, day }
}

fn time(hour: u32, minute: u32, second: u32) -> CivilTime {
    CivilTime { hour, minute, second }
}

#[test]
fn resolves_ordinary_moment_to_utc_instant() {
    // 2023-04-01 06:15:00 is Pacific daylight time, UTC-7.
    let ri = resolve(date(2023, 4, 1), time(6, 15, 0)).unwrap();
    assert_eq!(ri.utc_secs, 1680354900);
    assert_eq!(ri.offset_secs, -25200);
}

#[test]
fn resolves_ordinary_winter_moment_to_utc_instant() {
    // 2023-01-15 12:00:00 is Pacific standard time, UTC-8.
    let ri = resolve(date(2023, 1, 15), time(12, 0, 0)).unwrap();
    assert_eq!(ri.offset_secs, -28800);
    // 2023-01-15 is epoch day 19372; noon local is 20:00 UTC.
    assert_eq!(ri.utc_secs, 19372 * 86400 + 20 * 3600);
}

#[test]
fn round_trip_preserves_civil_fields() {
    let d = date(2023, 4, 1);
    let t = time(6, 15, 0);
    let ri = resolve(d, t).unwrap();
    assert_eq!(ri.date, d);
    assert_eq!(ri.time, t);
    // The invariant: utc + offset reads back as the local civil moment.
    assert_eq!(ri.utc_secs + ri.offset_secs, 1680354900 - 25200);
}

#[test]
fn fall_back_ambiguity_resolves_to_earlier_instant() {
    // 2023-11-05 01:30:00 occurs twice; the earlier reading is still
    // daylight time (UTC-7), i.e. 08:30 UTC.
    let ri = resolve(date(2023, 11, 5), time(1, 30, 0)).unwrap();
    assert_eq!(ri.utc_secs, 1699173000);
    assert_eq!(ri.offset_secs, -25200);
    // And not the later (standard-time) reading an hour after.
    assert_ne!(ri.utc_secs, 1699176600);
}

#[test]
fn spring_forward_gap_fails_with_invalid_local_time() {
    // 2023-03-12 02:30:00 never occurs in the Pacific zone.
    let r = resolve(date(2023, 3, 12), time(2, 30, 0));
    assert_eq!(r, Err(TimeError::InvalidLocalTime));
}

#[test]
fn moments_around_the_gap_still_resolve() {
    assert!(resolve(date(2023, 3, 12), time(1, 59, 59)).is_ok());
    assert!(resolve(date(2023, 3, 12), time(3, 0, 0)).is_ok());
}

#[test]
fn date_only_resolves_at_local_midnight() {
    let ri = resolve_date_only(date(2023, 4, 1)).unwrap();
    // Midnight PDT is 07:00 UTC.
    assert_eq!(ri.utc_secs, 19448 * 86400 + 7 * 3600);
    assert_eq!(ri.time, time(0, 0, 0));
}

#[test]
fn timestamp_nanos_scales_the_instant() {
    let ri = resolve(date(2023, 4, 1), time(6, 15, 0)).unwrap();
    assert_eq!(ri.timestamp_nanos(), 1680354900000000000i128);
}
