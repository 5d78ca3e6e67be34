use std::collections::BTreeMap;

use aft::backup::BackupStore;
use aft::checkpoint::{checkpoint_files, CheckpointInfo, CheckpointStore, FileRead};
use aft::error::AftError;

const DEFAULT_SESSION_ID: &str = "default";
const NOW: u64 = 1_700_000_000;

/// Files by path, in the place of a file system.
type Files = BTreeMap<String, String>;

fn file(files: &mut Files, path: &str, content: &str) {
    files.insert(path.to_string(), content.to_string());
}

fn read(files: &Files, path: &str) -> FileRead {
    FileRead {
        path: path.to_string(),
        content: match files.get(path) {
            Some(text) => Ok(text.clone()),
            None => Err("No such file or directory (os error 2)".to_string()),
        },
    }
}

fn create(
    store: &mut CheckpointStore,
    files: &Files,
    session: &str,
    name: &str,
    asked: &[&str],
    backups: &BackupStore,
) -> Result<CheckpointInfo, AftError> {
    let list = checkpoint_files(
        asked.iter().map(|p| p.to_string()).collect(),
        backups.tracked_files(),
    );
    let reads = list.iter().map(|p| read(files, p)).collect();
    store.create(session, name, !asked.is_empty(), reads, NOW)
}

fn restore(
    store: &CheckpointStore,
    files: &mut Files,
    session: &str,
    name: &str,
) -> Result<CheckpointInfo, AftError> {
    let restored = store.restore(session, name)?;
    for entry in &restored.writes {
        files.insert(entry.key.clone(), entry.value.clone());
    }
    Ok(restored.info)
}

#[test]
fn create_and_restore_round_trip() {
    let mut files = Files::new();
    file(&mut files, "/t/cp_rt1.txt", "hello");
    file(&mut files, "/t/cp_rt2.txt", "world");
    let backups = BackupStore::new();
    let mut store = CheckpointStore::new();

    let info = create(
        &mut store,
        &files,
        DEFAULT_SESSION_ID,
        "snap1",
        &["/t/cp_rt1.txt", "/t/cp_rt2.txt"],
        &backups,
    )
    .unwrap();
    assert_eq!(info.name, "snap1");
    assert_eq!(info.file_count, 2);

    file(&mut files, "/t/cp_rt1.txt", "changed1");
    file(&mut files, "/t/cp_rt2.txt", "changed2");

    let info = restore(&store, &mut files, DEFAULT_SESSION_ID, "snap1").unwrap();
    assert_eq!(info.file_count, 2);
    assert_eq!(files["/t/cp_rt1.txt"], "hello");
    assert_eq!(files["/t/cp_rt2.txt"], "world");
}

#[test]
fn overwrite_existing_name() {
    let mut files = Files::new();
    let path = "/t/cp_overwrite.txt";
    file(&mut files, path, "v1");
    let backups = BackupStore::new();
    let mut store = CheckpointStore::new();

    create(&mut store, &files, DEFAULT_SESSION_ID, "dup", &[path], &backups).unwrap();
    file(&mut files, path, "v2");
    create(&mut store, &files, DEFAULT_SESSION_ID, "dup", &[path], &backups).unwrap();

    file(&mut files, path, "v3");
    restore(&store, &mut files, DEFAULT_SESSION_ID, "dup").unwrap();
    assert_eq!(files[path], "v2");
}

#[test]
fn list_returns_metadata_scoped_to_session() {
    let mut files = Files::new();
    let path = "/t/cp_list.txt";
    file(&mut files, path, "data");
    let backups = BackupStore::new();
    let mut store = CheckpointStore::new();

    create(&mut store, &files, DEFAULT_SESSION_ID, "a", &[path], &backups).unwrap();
    create(&mut store, &files, DEFAULT_SESSION_ID, "b", &[path], &backups).unwrap();
    create(&mut store, &files, "other_session", "c", &[path], &backups).unwrap();

    let default_list = store.list(DEFAULT_SESSION_ID);
    assert_eq!(default_list.len(), 2);
    let names: Vec<&str> = default_list.iter().map(|i| i.name.as_str()).collect();
    assert!(names.contains(&"a"));
    assert!(names.contains(&"b"));

    let other_list = store.list("other_session");
    assert_eq!(other_list.len(), 1);
    assert_eq!(other_list[0].name, "c");
}

#[test]
fn sessions_isolate_checkpoint_names() {
    let mut files = Files::new();
    let path_a = "/t/cp_isolated_a.txt";
    let path_b = "/t/cp_isolated_b.txt";
    file(&mut files, path_a, "a-original");
    file(&mut files, path_b, "b-original");
    let backups = BackupStore::new();
    let mut store = CheckpointStore::new();

    create(&mut store, &files, "session_a", "snap", &[path_a], &backups).unwrap();
    create(&mut store, &files, "session_b", "snap", &[path_b], &backups).unwrap();

    file(&mut files, path_a, "a-modified");
    file(&mut files, path_b, "b-modified");

    restore(&store, &mut files, "session_a", "snap").unwrap();
    assert_eq!(files[path_a], "a-original");
    assert_eq!(files[path_b], "b-modified");

    file(&mut files, path_a, "a-modified");
    restore(&store, &mut files, "session_b", "snap").unwrap();
    assert_eq!(files[path_a], "a-modified");
    assert_eq!(files[path_b], "b-original");
}

#[test]
fn cleanup_removes_expired_across_sessions() {
    let mut files = Files::new();
    let path = "/t/cp_cleanup.txt";
    file(&mut files, path, "data");
    let backups = BackupStore::new();
    let mut store = CheckpointStore::new();

    create(&mut store, &files, DEFAULT_SESSION_ID, "recent", &[path], &backups).unwrap();

    store.create("other", "old", false, vec![], 1000).unwrap();

    assert_eq!(store.total_count(), 2);
    store.cleanup(24, NOW);
    assert_eq!(store.total_count(), 1);
    assert_eq!(store.list(DEFAULT_SESSION_ID)[0].name, "recent");
    assert!(store.list("other").is_empty());
}

#[test]
fn restore_nonexistent_returns_error() {
    let store = CheckpointStore::new();
    let result = store.restore(DEFAULT_SESSION_ID, "nope");
    assert!(result.is_err());
    match result {
        Err(AftError::CheckpointNotFound { name }) => {
            assert_eq!(name, "nope");
        }
        _ => panic!("expected CheckpointNotFound"),
    }
}

#[test]
fn restore_nonexistent_in_other_session_returns_error() {
    let mut files = Files::new();
    file(&mut files, "/t/cp_cross_session.txt", "data");
    let backups = BackupStore::new();
    let mut store = CheckpointStore::new();
    create(
        &mut store,
        &files,
        "session_a",
        "only_a",
        &["/t/cp_cross_session.txt"],
        &backups,
    )
    .unwrap();
    assert!(store.restore("session_b", "only_a").is_err());
}

#[test]
fn create_skips_missing_files_from_backup_tracked_set() {
    let mut files = Files::new();
    let readable = "/t/cp_skip_readable.txt";
    let deleted = "/t/cp_skip_deleted.txt";
    file(&mut files, readable, "still_here");
    file(&mut files, deleted, "about_to_vanish");

    let mut backups = BackupStore::new();
    for path in [readable, deleted] {
        backups.snapshot(path, path, files.get(path).cloned(), "auto", NOW).unwrap();
    }

    files.remove(deleted);

    let mut store = CheckpointStore::new();
    let info = create(&mut store, &files, DEFAULT_SESSION_ID, "partial", &[], &backups)
        .ok()
        .expect("checkpoint should succeed despite one missing file");
    assert_eq!(info.file_count, 1);
    assert_eq!(info.skipped.len(), 1);
    assert_eq!(info.skipped[0].0, deleted);
    assert!(!info.skipped[0].1.is_empty());
}

#[test]
fn create_with_explicit_single_missing_file_errors() {
    let files = Files::new();
    let missing = "/t/cp_explicit_missing_does_not_exist.txt";
    let backups = BackupStore::new();
    let mut store = CheckpointStore::new();
    let result = create(&mut store, &files, DEFAULT_SESSION_ID, "explicit", &[missing], &backups);

    assert!(result.is_err());
    match result {
        Err(AftError::FileNotFound { path }) => {
            assert!(path.contains(missing));
        }
        _ => panic!("expected FileNotFound"),
    }
}

#[test]
fn create_with_explicit_mixed_files_keeps_readable_and_reports_skipped() {
    let mut files = Files::new();
    let good = "/t/cp_mixed_good.txt";
    let missing = "/t/cp_mixed_missing.txt";
    file(&mut files, good, "ok");

    let backups = BackupStore::new();
    let mut store = CheckpointStore::new();
    let info = create(
        &mut store,
        &files,
        DEFAULT_SESSION_ID,
        "mixed",
        &[good, missing],
        &backups,
    )
    .ok()
    .expect("mixed checkpoint should succeed when any file is readable");
    assert_eq!(info.file_count, 1);
    assert_eq!(info.skipped.len(), 1);
    assert_eq!(info.skipped[0].0, missing);
}

#[test]
fn create_with_empty_files_uses_backup_tracked() {
    let mut files = Files::new();
    let path = "/t/cp_tracked.txt";
    file(&mut files, path, "tracked_content");
    let mut backups = BackupStore::new();
    backups.snapshot(path, path, files.get(path).cloned(), "auto", NOW).unwrap();

    let mut store = CheckpointStore::new();
    let info =
        create(&mut store, &files, DEFAULT_SESSION_ID, "from_tracked", &[], &backups).unwrap();
    assert!(info.file_count >= 1);

    file(&mut files, path, "modified");
    restore(&store, &mut files, DEFAULT_SESSION_ID, "from_tracked").unwrap();
    assert_eq!(files[path], "tracked_content");
}

#[test]
fn restore_recreates_missing_parent_directories() {
    let mut files = Files::new();
    let path = "/d/nested/deeper/file.txt";
    file(&mut files, path, "original nested content");

    let backups = BackupStore::new();
    let mut store = CheckpointStore::new();
    create(&mut store, &files, DEFAULT_SESSION_ID, "nested", &[path], &backups).unwrap();

    files.remove(path);

    restore(&store, &mut files, DEFAULT_SESSION_ID, "nested").unwrap();
    assert_eq!(files[path], "original nested content");
}

#[test]
fn deleted_checkpoint_cannot_be_restored() {
    let mut files = Files::new();
    file(&mut files, "/t/a", "x");
    let backups = BackupStore::new();
    let mut store = CheckpointStore::new();
    create(&mut store, &files, "s", "one", &["/t/a"], &backups).unwrap();
    create(&mut store, &files, "s", "two", &["/t/a"], &backups).unwrap();
    assert!(store.delete("s", "one"));
    assert!(!store.delete("s", "one"));
    assert!(store.restore("s", "one").is_err());
    assert_eq!(store.file_paths("s", "two").unwrap(), vec!["/t/a".to_string()]);
}

#[test]
fn lists_add_up_to_the_count() {
    let mut files = Files::new();
    file(&mut files, "/t/a", "x");
    let backups = BackupStore::new();
    let mut store = CheckpointStore::new();
    for (session, name) in [("s", "one"), ("s", "two"), ("t", "one"), ("s", "one")] {
        create(&mut store, &files, session, name, &["/t/a"], &backups).unwrap();
    }
    assert_eq!(store.total_count(), 3);
    assert_eq!(store.list("s").len() + store.list("t").len(), 3);
    let names: Vec<String> = store.list("s").into_iter().map(|c| c.name).collect();
    assert_eq!(names, vec!["one".to_string(), "two".to_string()]);
    assert!(store.list("s").iter().all(|c| c.skipped.is_empty()));
    assert!(store.list("other").is_empty());
    assert!(store.delete("s", "two"));
    assert_eq!(store.total_count(), 2);
    assert!(!store.delete("s", "two"));
    assert_eq!(store.total_count(), 2);
}

#[test]
fn only_held_paths_are_restored() {
    let mut files = Files::new();
    file(&mut files, "/t/a", "x");
    file(&mut files, "/t/b", "y");
    let backups = BackupStore::new();
    let mut store = CheckpointStore::new();
    create(&mut store, &files, "s", "cp", &["/t/a", "/t/b"], &backups).unwrap();
    let (writes, answer) =
        store.restore_validated("s", "cp", &vec!["/t/b".to_string(), "/t/c".to_string()]);
    assert_eq!(writes.len(), 1);
    assert_eq!(writes[0].key, "/t/b");
    assert_eq!(writes[0].value, "y");
    match answer {
        Err(AftError::FileNotFound { path }) => assert_eq!(path, "/t/c"),
        _ => panic!("expected FileNotFound"),
    }
}

#[test]
fn cleanup_keeps_what_is_young() {
    let mut store = CheckpointStore::new();
    store.create("s", "old", false, vec![], NOW - 25 * 3600).unwrap();
    store.create("s", "young", false, vec![], NOW - 23 * 3600).unwrap();
    store.cleanup(24, NOW);
    let names: Vec<String> = store.list("s").into_iter().map(|i| i.name).collect();
    assert_eq!(names, vec!["young".to_string()]);
}
