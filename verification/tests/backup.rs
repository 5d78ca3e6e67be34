use std::collections::BTreeMap;

use aft::backup::BackupStore;
use aft::error::AftError;

/// Files by path, in the place of a file system.
type Files = BTreeMap<String, String>;

fn file(files: &mut Files, path: &str, content: &str) {
    files.insert(path.to_string(), content.to_string());
}

fn snapshot(
    store: &mut BackupStore,
    files: &Files,
    path: &str,
    description: &str,
) -> Result<String, AftError> {
    store.snapshot(path, path, files.get(path).cloned(), description, 1_700_000_000)
}

fn restore(store: &mut BackupStore, files: &mut Files, path: &str) -> aft::backup::BackupEntry {
    let entry = store.restore_latest(path, path).unwrap();
    files.insert(path.to_string(), entry.content.clone());
    entry
}

#[test]
fn snapshot_and_restore_round_trip() {
    let mut files = Files::new();
    let path = "/tmp/aft_backup_tests/round_trip.txt";
    file(&mut files, path, "original");
    let mut store = BackupStore::new();

    let id = snapshot(&mut store, &files, path, "before edit").unwrap();
    assert!(id.starts_with("backup-"));

    file(&mut files, path, "modified");
    assert_eq!(files[path], "modified");

    let entry = restore(&mut store, &mut files, path);
    assert_eq!(entry.content, "original");
    assert_eq!(files[path], "original");
}

#[test]
fn multiple_snapshots_preserve_order() {
    let mut files = Files::new();
    let path = "/tmp/aft_backup_tests/order.txt";
    let mut store = BackupStore::new();

    file(&mut files, path, "v1");
    snapshot(&mut store, &files, path, "first").unwrap();
    file(&mut files, path, "v2");
    snapshot(&mut store, &files, path, "second").unwrap();
    file(&mut files, path, "v3");
    snapshot(&mut store, &files, path, "third").unwrap();

    let history = store.history(path);
    assert_eq!(history.len(), 3);
    assert_eq!(history[0].description, "first");
    assert_eq!(history[1].description, "second");
    assert_eq!(history[2].description, "third");
    assert_eq!(history[0].content, "v1");
    assert_eq!(history[1].content, "v2");
    assert_eq!(history[2].content, "v3");
}

#[test]
fn restore_pops_from_stack() {
    let mut files = Files::new();
    let path = "/tmp/aft_backup_tests/pop.txt";
    let mut store = BackupStore::new();

    file(&mut files, path, "v1");
    snapshot(&mut store, &files, path, "first").unwrap();
    file(&mut files, path, "v2");
    snapshot(&mut store, &files, path, "second").unwrap();

    let entry = restore(&mut store, &mut files, path);
    assert_eq!(entry.description, "second");
    assert_eq!(entry.content, "v2");

    let history = store.history(path);
    assert_eq!(history.len(), 1);
    assert_eq!(history[0].description, "first");
}

#[test]
fn empty_history_returns_empty_vec() {
    let store = BackupStore::new();
    let history = store.history("/tmp/aft_backup_tests/nonexistent_history.txt");
    assert!(history.is_empty());
}

#[test]
fn snapshot_nonexistent_file_returns_error() {
    let files = Files::new();
    let mut store = BackupStore::new();
    let path = "/tmp/aft_backup_tests/absolutely_does_not_exist.txt";
    let result = snapshot(&mut store, &files, path, "test");
    assert!(result.is_err());
    match result {
        Err(AftError::FileNotFound { path: p }) => {
            assert!(p.contains("absolutely_does_not_exist"));
        }
        _ => panic!("expected FileNotFound"),
    }
    assert!(store.history(path).is_empty());
}

#[test]
fn tracked_files_lists_snapshotted_paths() {
    let mut files = Files::new();
    file(&mut files, "/tmp/aft_backup_tests/tracked1.txt", "a");
    file(&mut files, "/tmp/aft_backup_tests/tracked2.txt", "b");
    let mut store = BackupStore::new();

    assert!(store.tracked_files().is_empty());

    snapshot(&mut store, &files, "/tmp/aft_backup_tests/tracked1.txt", "snap1").unwrap();
    snapshot(&mut store, &files, "/tmp/aft_backup_tests/tracked2.txt", "snap2").unwrap();

    let listed = store.tracked_files();
    assert_eq!(listed.len(), 2);
}

#[test]
fn restore_without_backups_is_refused() {
    let mut store = BackupStore::new();
    match store.restore_latest("a.txt", "/w/a.txt") {
        Err(AftError::NoUndoHistory { path }) => assert_eq!(path, "a.txt"),
        _ => panic!("expected NoUndoHistory"),
    }
}

#[test]
fn backups_of_files_do_not_mix() {
    let mut files = Files::new();
    let mut store = BackupStore::new();
    file(&mut files, "/w/a", "a1");
    file(&mut files, "/w/b", "b1");
    let first = snapshot(&mut store, &files, "/w/a", "one").unwrap();
    let second = snapshot(&mut store, &files, "/w/b", "two").unwrap();
    assert_ne!(first, second);
    restore(&mut store, &mut files, "/w/a");
    assert!(store.history("/w/a").is_empty());
    assert_eq!(store.history("/w/b").len(), 1);
    assert_eq!(store.tracked_files(), vec!["/w/b".to_string()]);
}

#[test]
fn history_keeps_the_latest_backups() {
    let mut files = Files::new();
    let mut store = BackupStore::new();
    for i in 0..23 {
        file(&mut files, "/p/a.txt", &format!("a{i}"));
        snapshot(&mut store, &files, "/p/a.txt", "edit").unwrap();
        if i % 2 == 0 {
            file(&mut files, "/p/b.txt", &format!("b{i}"));
            snapshot(&mut store, &files, "/p/b.txt", "edit").unwrap();
        }
    }
    let kept: Vec<String> = store.history("/p/a.txt").into_iter().map(|e| e.content).collect();
    let latest: Vec<String> = (3..23).map(|i| format!("a{i}")).collect();
    assert_eq!(kept, latest);
    let other: Vec<String> = store.history("/p/b.txt").into_iter().map(|e| e.content).collect();
    let all: Vec<String> = (0..12).map(|i| format!("b{}", 2 * i)).collect();
    assert_eq!(other, all);
}
