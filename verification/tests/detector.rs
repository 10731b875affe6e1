//! Content-hash deduplication and the detector step.

use rusty_live_server::detect::{detector_step, strip_root, FileHashTable, FsEventKind};

#[test]
fn first_observation_emits() {
    let mut table = FileHashTable::new();
    assert!(table.observe(&b"/r/a.txt".to_vec(), &b"one".to_vec()));
}

#[test]
fn identical_rewrite_is_suppressed() {
    let mut table = FileHashTable::new();
    assert!(table.observe(&b"/r/a.txt".to_vec(), &b"one".to_vec()));
    assert!(!table.observe(&b"/r/a.txt".to_vec(), &b"one".to_vec()));
    assert!(!table.observe(&b"/r/a.txt".to_vec(), &b"one".to_vec()));
}

#[test]
fn changed_content_emits_exactly_once_per_change() {
    let mut table = FileHashTable::new();
    assert!(table.observe(&b"/r/a.txt".to_vec(), &b"one".to_vec()));
    assert!(table.observe(&b"/r/a.txt".to_vec(), &b"two".to_vec()));
    assert!(!table.observe(&b"/r/a.txt".to_vec(), &b"two".to_vec()));
    assert!(table.observe(&b"/r/a.txt".to_vec(), &b"one".to_vec()));
}

#[test]
fn paths_are_tracked_independently() {
    let mut table = FileHashTable::new();
    assert!(table.observe(&b"/r/a".to_vec(), &b"x".to_vec()));
    assert!(table.observe(&b"/r/b".to_vec(), &b"x".to_vec()));
    assert!(!table.observe(&b"/r/a".to_vec(), &b"x".to_vec()));
}

#[test]
fn strip_root_cases() {
    assert_eq!(
        strip_root(&b"/r".to_vec(), &b"/r/sub/f.css".to_vec()),
        Some(b"sub/f.css".to_vec())
    );
    assert_eq!(strip_root(&b"/r".to_vec(), &b"/other/f".to_vec()), None);
    assert_eq!(strip_root(&b"/r".to_vec(), &b"/r".to_vec()), None);
    assert_eq!(strip_root(&b"/r".to_vec(), &b"/rat/f".to_vec()), None);
}

#[test]
fn detector_step_emits_relative_path_once() {
    let mut table = FileHashTable::new();
    let root = b"/r".to_vec();
    let path = b"/r/style.css".to_vec();
    let first = detector_step(
        &mut table,
        FsEventKind::DataModified,
        &path,
        &root,
        Some(b"body{}".to_vec()),
    );
    assert_eq!(first, Some(b"style.css".to_vec()));
    let again = detector_step(
        &mut table,
        FsEventKind::DataModified,
        &path,
        &root,
        Some(b"body{}".to_vec()),
    );
    assert_eq!(again, None);
}

#[test]
fn irrelevant_kind_is_dropped() {
    let mut table = FileHashTable::new();
    let r = detector_step(
        &mut table,
        FsEventKind::Other,
        &b"/r/a".to_vec(),
        &b"/r".to_vec(),
        Some(b"x".to_vec()),
    );
    assert_eq!(r, None);
    // the drop left no trace: the same write still emits afterwards
    assert!(table.observe(&b"/r/a".to_vec(), &b"x".to_vec()));
}

#[test]
fn unreadable_file_is_dropped() {
    let mut table = FileHashTable::new();
    let r = detector_step(
        &mut table,
        FsEventKind::FileCreated,
        &b"/r/a".to_vec(),
        &b"/r".to_vec(),
        None,
    );
    assert_eq!(r, None);
}

#[test]
fn path_outside_root_is_dropped() {
    let mut table = FileHashTable::new();
    let r = detector_step(
        &mut table,
        FsEventKind::FileCreated,
        &b"/elsewhere/a".to_vec(),
        &b"/r".to_vec(),
        Some(b"x".to_vec()),
    );
    assert_eq!(r, None);
}
