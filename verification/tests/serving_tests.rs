use birbs::serving::{
    CONCURRENT_REQUESTS, FilesFor, ProbeRun, check_files_available, check_recentlies_available,
    files_for_row, format_date, probes_available, recently_row, spectrogram_url, urlify,
};
use birbs::serving::{by_common_name_row, by_day_and_common_name_row, daily_row, hourly_row};
use birbs::time::{CivilDate, TimeError};

#[test]
fn derives_the_documented_urls() {
    let f = files_for_row(
        "2023-04-01",
        "06:15:00",
        "x.wav",
        "0.91",
        "Black-capped Chickadee",
    )
    .unwrap();
    assert_eq!(
        f.audio_url,
        "http://192.168.0.164/By_Date/2023-04-01/Black-capped_Chickadee/x.wav"
    );
    assert_eq!(
        f.spectrogram_url,
        "http://192.168.0.164/By_Date/2023-04-01/Black-capped_Chickadee/x.wav.png"
    );
    assert_eq!(f.available, None);
    assert_eq!(f.confidence, "0.91");
}

#[test]
fn only_the_common_name_gets_space_substitution() {
    let f = files_for_row(
        "2023-04-01",
        "06:15:00",
        "a b.wav",
        "0.5",
        "Black-capped Chickadee",
    )
    .unwrap();
    // The file name keeps its space; only the name segment is underscored.
    assert_eq!(
        f.audio_url,
        "http://192.168.0.164/By_Date/2023-04-01/Black-capped_Chickadee/a b.wav"
    );
}

#[test]
fn urlify_touches_only_spaces() {
    assert_eq!(urlify("Black-capped Chickadee"), "Black-capped_Chickadee");
    assert_eq!(urlify("NoSpaces"), "NoSpaces");
    assert_eq!(urlify("  "), "__");
    assert_eq!(urlify(""), "");
}

#[test]
fn formats_dates_zero_padded() {
    assert_eq!(format_date(&CivilDate { year: 2023, month: 4, day: 1 }), "2023-04-01");
    assert_eq!(format_date(&CivilDate { year: 987, month: 12, day: 31 }), "0987-12-31");
}

#[test]
fn formatting_then_parsing_a_date_is_identity() {
    let d = CivilDate { year: 2024, month: 2, day: 29 };
    assert_eq!(birbs::parse::parse_date(&format_date(&d)), Some(d));
    let d = CivilDate { year: 987, month: 12, day: 3 };
    assert_eq!(birbs::parse::parse_date(&format_date(&d)), Some(d));
}

#[test]
fn bad_row_text_is_malformed_timestamp() {
    let r = files_for_row("2023-4-1", "06:15:00", "x.wav", "0.5", "Crow");
    assert_eq!(r.unwrap_err(), TimeError::MalformedTimestamp);
    let r = recently_row("2023-03-12", "02:30:00", "Crow", "x.wav", "0.5");
    assert_eq!(r.unwrap_err(), TimeError::InvalidLocalTime);
}

fn seven_candidates() -> Vec<FilesFor> {
    let mut v = Vec::new();
    for i in 0..7u32 {
        let name = format!("f{i}.wav");
        v.push(
            files_for_row("2023-04-01", "06:15:00", &name, "0.9", "American Crow").unwrap(),
        );
    }
    v
}

#[test]
fn check_all_preserves_length_and_order_under_the_bound() {
    // Seven candidates, bound five: the first five dispatch at once, the
    // rest queue behind the bound.
    let files = seven_candidates();
    let mut run = ProbeRun::new(7, CONCURRENT_REQUESTS);
    let mut dispatched = Vec::new();
    while run.can_dispatch() {
        dispatched.push(run.dispatch());
    }
    assert_eq!(dispatched, vec![0, 1, 2, 3, 4]);
    // Probes finish out of order.
    for &i in &[3usize, 1, 4] {
        assert!(run.is_pending(i));
        run.complete(i, probes_available(true, i != 1));
    }
    while run.can_dispatch() {
        dispatched.push(run.dispatch());
    }
    assert_eq!(dispatched, vec![0, 1, 2, 3, 4, 5, 6]);
    for &i in &[6usize, 0, 2, 5] {
        run.complete(i, probes_available(true, true));
    }
    assert!(run.all_complete());
    let out = check_files_available(files, &run);
    assert_eq!(out.len(), 7);
    for (i, f) in out.iter().enumerate() {
        // Input order survives: candidate i still carries file name f{i}.
        assert_eq!(f.file_name, format!("f{i}.wav"));
        assert_eq!(f.available, Some(i != 1));
    }
}

#[test]
fn completion_order_never_reaches_the_output() {
    let flags = [true, false, true, true, false, true, true];
    let mut run1 = ProbeRun::new(7, CONCURRENT_REQUESTS);
    let mut run2 = ProbeRun::new(7, CONCURRENT_REQUESTS);
    for _ in 0..5 {
        run1.dispatch();
        run2.dispatch();
    }
    // Two very different schedules with the same per-index outcomes.
    for &i in &[0usize, 1, 2, 3, 4] {
        run1.complete(i, flags[i]);
        run1.dispatch();
    }
    run1.complete(5, flags[5]);
    run1.complete(6, flags[6]);
    for &i in &[4usize, 3] {
        run2.complete(i, flags[i]);
        run2.dispatch();
    }
    for &i in &[6usize, 5, 0, 1, 2] {
        run2.complete(i, flags[i]);
    }
    assert!(run1.all_complete() && run2.all_complete());
    let out1 = check_files_available(seven_candidates(), &run1);
    let out2 = check_files_available(seven_candidates(), &run2);
    for i in 0..7 {
        assert_eq!(out1[i].available, Some(flags[i]));
        assert_eq!(out1[i].available, out2[i].available);
        assert_eq!(out1[i].file_name, out2[i].file_name);
    }
}

#[test]
fn recently_listing_is_annotated_in_order() {
    let mut v = Vec::new();
    for i in 0..3u32 {
        let name = format!("r{i}.wav");
        v.push(
            recently_row("2023-04-01", "06:15:00", "American Crow", &name, "0.8").unwrap(),
        );
    }
    let mut run = ProbeRun::new(3, CONCURRENT_REQUESTS);
    for _ in 0..3 {
        run.dispatch();
    }
    run.complete(2, false);
    run.complete(0, true);
    run.complete(1, true);
    let out = check_recentlies_available(v, &run);
    assert_eq!(out.len(), 3);
    assert_eq!(out[0].file_name, "r0.wav");
    assert_eq!(out[0].available, Some(true));
    assert_eq!(out[1].available, Some(true));
    assert_eq!(out[2].available, Some(false));
}

#[test]
fn availability_needs_both_probes() {
    assert!(probes_available(true, true));
    assert!(!probes_available(true, false));
    assert!(!probes_available(false, true));
    assert!(!probes_available(false, false));
}

#[test]
fn aggregate_rows_resolve_their_instants() {
    let d = daily_row("2023-04-01", 12).unwrap();
    assert_eq!(d.detections, 12);
    assert_eq!(d.date.utc_secs, 19448 * 86400 + 7 * 3600);

    let h = hourly_row("06:00:00", 4).unwrap();
    assert_eq!(h.number, 6);
    assert_eq!(h.detections, 4);
    assert_eq!(hourly_row("6:00:00", 1).unwrap_err(), TimeError::MalformedTimestamp);

    let b = by_common_name_row("American Crow", 31, "0.74", "2023-04-01", "06:15:00").unwrap();
    assert_eq!(b.common_name, "American Crow");
    assert_eq!(b.total, 31);
    assert_eq!(b.average_confidence, "0.74");
    assert_eq!(b.last_detection.utc_secs, 1680354900);

    let t = by_day_and_common_name_row("2023-04-01", "American Crow", 9, "0.6").unwrap();
    assert_eq!(t.when.utc_secs, 19448 * 86400 + 7 * 3600);
    assert_eq!(t.total, 9);
}

#[test]
fn into_with_available_sets_only_the_flag() {
    let f = files_for_row("2023-04-01", "06:15:00", "x.wav", "0.9", "Crow").unwrap();
    let audio = f.audio_url.clone();
    let g = f.into_with_available(true);
    assert_eq!(g.available, Some(true));
    assert_eq!(g.audio_url, audio);
}

#[test]
fn spectrogram_is_audio_with_png_appended() {
    let d = CivilDate { year: 2023, month: 4, day: 1 };
    let s = spectrogram_url(&d, "American Crow", "x.wav");
    assert_eq!(s, "http://192.168.0.164/By_Date/2023-04-01/American_Crow/x.wav.png");
}
