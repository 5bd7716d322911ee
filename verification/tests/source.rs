use std::time::{Duration, SystemTime, UNIX_EPOCH};

use ql::source::{detect_languages, is_source_file, snapshots_equal, FileTime, Snapshot};

fn file_time(time: SystemTime) -> FileTime {
    match time.duration_since(UNIX_EPOCH) {
        Ok(after) => FileTime {
            before_epoch: false,
            secs: after.as_secs(),
            nanos: after.subsec_nanos(),
        },
        Err(error) => FileTime {
            before_epoch: true,
            secs: error.duration().as_secs(),
            nanos: error.duration().subsec_nanos(),
        },
    }
}

#[test]
fn detects_source_extensions() {
    assert!(is_source_file("main.go"));
    assert!(is_source_file("lib.rs"));
    assert!(is_source_file("app.ts"));
    assert!(is_source_file("app.tsx"));
    assert!(is_source_file("test.py"));
    assert!(!is_source_file("notes.txt"));
    assert!(!is_source_file("data.json"));
}

#[test]
fn detects_snapshot_changes() {
    let now = SystemTime::now();
    let later = now.checked_add(Duration::from_secs(1)).unwrap();

    let mut left = Snapshot::new();
    left.insert("lib.rs".to_string(), file_time(now));

    let mut right_same = Snapshot::new();
    right_same.insert("lib.rs".to_string(), file_time(now));

    let mut right_diff = Snapshot::new();
    right_diff.insert("lib.rs".to_string(), file_time(later));

    assert!(snapshots_equal(&left, &right_same));
    assert!(!snapshots_equal(&left, &right_diff));
}

#[test]
fn detects_different_file_count() {
    let now = SystemTime::now();

    let mut left = Snapshot::new();
    left.insert("lib.rs".to_string(), file_time(now));

    let mut right = Snapshot::new();
    right.insert("lib.rs".to_string(), file_time(now));
    right.insert("mod.rs".to_string(), file_time(now));

    assert!(!snapshots_equal(&left, &right));
}

#[test]
fn detects_languages_in_directory() {
    let paths: Vec<String> = ["main.go", "lib.rs", "app.ts", "script.py", "notes.txt"]
        .iter()
        .map(|p| p.to_string())
        .collect();

    let langs = detect_languages(&paths);
    assert!(langs.contains(&"go".to_string()));
    assert!(langs.contains(&"rust".to_string()));
    assert!(langs.contains(&"typescript".to_string()));
    assert!(langs.contains(&"python".to_string()));
    assert_eq!(langs.len(), 4);
}

#[test]
fn detects_no_languages_in_empty_dir() {
    let langs = detect_languages(&Vec::new());
    assert!(langs.is_empty());
}

#[test]
fn lists_languages_once_in_name_order() {
    let paths: Vec<String> = ["b.ts", "a.rs", "c.rs", "d.tsx"].iter().map(|p| p.to_string()).collect();
    assert_eq!(detect_languages(&paths), vec!["rust".to_string(), "typescript".to_string()]);
}

#[test]
fn snapshot_insert_replaces_a_path() {
    let now = SystemTime::now();
    let later = now.checked_add(Duration::from_secs(1)).unwrap();

    let mut left = Snapshot::new();
    left.insert("lib.rs".to_string(), file_time(now));
    left.insert("lib.rs".to_string(), file_time(later));
    assert_eq!(left.len(), 1);
    assert_eq!(left.get("lib.rs"), Some(file_time(later)));

    let mut right = Snapshot::new();
    right.insert("lib.rs".to_string(), file_time(later));
    assert!(snapshots_equal(&left, &right));
}

#[test]
fn default_ignored_directories_are_named() {
    assert!(ql::source::is_default_ignored("node_modules"));
    assert!(ql::source::is_default_ignored("__pycache__"));
    assert!(!ql::source::is_default_ignored("src"));
    assert!(!ql::source::is_default_ignored(""));
}
