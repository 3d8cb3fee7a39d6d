use birbs::tailer::{TailError, WatchCursor, tail_step};

#[test]
fn appended_lines_are_emitted_once_each() {
    let mut cursor = WatchCursor { position: 0 };
    // The file grows by "line-A\n".
    let r1 = tail_step(&mut cursor, 7, &b"line-A\n".to_vec()).unwrap();
    assert_eq!(r1, vec![b"line-A".to_vec()]);
    assert_eq!(cursor.position, 7);
    // Later it grows by "line-B\n"; only the new bytes are read.
    let r2 = tail_step(&mut cursor, 14, &b"line-B\n".to_vec()).unwrap();
    assert_eq!(r2, vec![b"line-B".to_vec()]);
    assert_eq!(cursor.position, 14);
}

#[test]
fn partial_line_emits_nothing_until_completed() {
    let mut cursor = WatchCursor { position: 0 };
    let r1 = tail_step(&mut cursor, 4, &b"part".to_vec()).unwrap();
    assert_eq!(r1, Vec::<Vec<u8>>::new());
    // Nothing was committed, so the fragment is read again with the rest.
    assert_eq!(cursor.position, 0);
    let r2 = tail_step(&mut cursor, 8, &b"partial\n".to_vec()).unwrap();
    assert_eq!(r2, vec![b"partial".to_vec()]);
    assert_eq!(cursor.position, 8);
}

#[test]
fn several_lines_in_one_read_stay_in_order() {
    let mut cursor = WatchCursor { position: 0 };
    let r = tail_step(&mut cursor, 10, &b"a\nbb\nccc\nd".to_vec()).unwrap();
    assert_eq!(r, vec![b"a".to_vec(), b"bb".to_vec(), b"ccc".to_vec()]);
    // The cursor stops after the last newline; "d" stays uncommitted.
    assert_eq!(cursor.position, 9);
}

#[test]
fn spurious_notification_changes_nothing() {
    let mut cursor = WatchCursor { position: 5 };
    let r = tail_step(&mut cursor, 5, &Vec::new()).unwrap();
    assert_eq!(r, Vec::<Vec<u8>>::new());
    assert_eq!(cursor.position, 5);
}

#[test]
fn shrunken_file_is_surfaced_not_reread() {
    let mut cursor = WatchCursor { position: 10 };
    let r = tail_step(&mut cursor, 3, &Vec::new());
    assert_eq!(r, Err(TailError::FileShrunk));
    assert_eq!(cursor.position, 10);
}

#[test]
fn empty_line_is_a_line() {
    let mut cursor = WatchCursor { position: 0 };
    let r = tail_step(&mut cursor, 3, &b"\nx\n".to_vec()).unwrap();
    assert_eq!(r, vec![b"".to_vec(), b"x".to_vec()]);
    assert_eq!(cursor.position, 3);
}
