use aft::bash_background::persistence::{
    session_tasks_dir, task_paths, update_task, ExitMarker, PersistedTask, TaskPaths,
};
use aft::bash_background::process::{
    after_attempt, terminate_step, wrapper_args, wrapper_extension, wrapper_script, ShellKind,
    SpawnNext, SpawnOutcome, TerminateStep, TERMINATE_GRACE_MS,
};
use aft::bash_background::registry::{
    effective_timeout, number_bytes, random_slug, running_metadata_is_stale, terminal_metadata_from_marker,
    write_slug, BgTask, BgTaskRegistry, KillStep, Preview, ReplayFacts, StoredTask, WatchdogStep,
    DEFAULT_BG_TIMEOUT_MS, STALE_RUNNING_AFTER_MS,
};
use aft::bash_background::BgTaskStatus;

const UNIX_NOW: u64 = 1_700_000_000_000;

fn paths(id: &str) -> TaskPaths {
    task_paths("/store", "hash", id)
}

fn metadata(id: &str, command: &str) -> PersistedTask {
    let mut task = PersistedTask::starting_at(
        id.to_string(),
        "session".to_string(),
        command.to_string(),
        "/work".to_string(),
        Some(30_000),
        UNIX_NOW,
    );
    task.mark_running(4321, 4321);
    task
}

fn running(id: &str, command: &str) -> BgTask {
    BgTask {
        metadata: metadata(id, command),
        paths: paths(id),
        started: 1000,
        last_reminder_at: None,
        terminal_at: None,
        has_child: true,
        detached: false,
        notify_on_completion: true,
        compressed: false,
    }
}

fn preview(text: &str) -> Preview {
    Preview { raw: text.to_string(), compressed: format!("<{text}>"), truncated: false }
}

#[test]
fn cleanup_finished_removes_terminal_tasks_older_than_threshold() {
    let mut registry = BgTaskRegistry::new();
    registry.insert(running("bgb-1", "true"));
    assert!(registry.mark_killed("bgb-1", "session", false, UNIX_NOW, 2000).is_some());

    registry.cleanup_finished(0, 2000);

    assert!(registry.task_names().is_empty());
}

#[test]
fn reap_child_marks_failed_when_child_exits_without_exit_marker() {
    let mut registry = BgTaskRegistry::new();
    registry.insert(running("bgb-1", "true"));
    assert!(registry.task_for_session("bgb-1", "session").unwrap().is_running());

    let stored = metadata("bgb-1", "true");
    assert!(registry.reap_child("bgb-1", "session", false, Some(stored), UNIX_NOW, 2000));

    let task = registry.task_for_session("bgb-1", "session").unwrap();
    assert!(task.metadata.status.is_terminal());
    assert_eq!(task.metadata.status, BgTaskStatus::Failed);
    assert_eq!(
        task.metadata.status_reason.as_deref(),
        Some("process exited without exit marker")
    );
    assert!(!task.has_child);
    assert!(task.detached);
}

#[test]
fn reap_child_preserves_running_when_exit_marker_exists() {
    let mut registry = BgTaskRegistry::new();
    registry.insert(running("bgb-1", "true"));

    let stored = metadata("bgb-1", "true");
    assert!(!registry.reap_child("bgb-1", "session", true, Some(stored), UNIX_NOW, 2000));

    let task = registry.task_for_session("bgb-1", "session").unwrap();
    assert!(!task.has_child);
    assert!(task.detached);
    assert_eq!(task.metadata.status, BgTaskStatus::Running);
}

#[test]
fn cleanup_finished_keeps_running_tasks() {
    let mut registry = BgTaskRegistry::new();
    registry.insert(running("bgb-1", "sleep 5"));

    registry.cleanup_finished(0, 5000);

    assert_eq!(
        registry.task_names(),
        vec![("bgb-1".to_string(), "session".to_string())]
    );
    assert!(registry.kill("bgb-1", "session").is_ok());
}

#[test]
fn tasks_are_told_to_their_session() {
    let mut registry = BgTaskRegistry::new();
    registry.insert(running("bgb-1", "true"));
    assert!(registry.task_for_session("bgb-1", "other").is_none());
    assert_eq!(
        registry.task_json_path("bgb-1", "session").unwrap(),
        "/store/bash-tasks/hash/bgb-1.json"
    );
    assert_eq!(
        registry.task_exit_path("bgb-1", "session").unwrap(),
        "/store/bash-tasks/hash/bgb-1.exit"
    );
    assert!(registry.task_exit_path("bgb-2", "session").is_none());
}

#[test]
fn a_task_is_killed_in_steps() {
    let mut registry = BgTaskRegistry::new();
    registry.insert(running("bgb-1", "sleep 5"));
    match registry.kill("bgb-1", "session") {
        Ok(KillStep::Terminate { metadata, pgid, child_pid }) => {
            assert_eq!(metadata.status, BgTaskStatus::Killing);
            assert_eq!(pgid, Some(4321));
            assert_eq!(child_pid, Some(4321));
        }
        _ => panic!("expected a process to end"),
    }
    registry.child_gone("bgb-1", "session");
    let ended = registry.mark_killed("bgb-1", "session", false, UNIX_NOW + 70, 1100).unwrap();
    assert_eq!(ended.status, BgTaskStatus::Killed);
    assert_eq!(ended.exit_code, None);
    assert_eq!(ended.duration_ms, Some(70));
    assert!(matches!(registry.kill("bgb-1", "session"), Ok(KillStep::Ended)));
    assert_eq!(
        registry.kill("bgb-9", "session").err().unwrap(),
        "background task not found: bgb-9"
    );
}

#[test]
fn a_timeout_has_an_exit_code() {
    let mut registry = BgTaskRegistry::new();
    registry.insert(running("bgb-1", "sleep 50"));
    assert!(matches!(registry.watch("bgb-1", "session", 1000 + 29_999), WatchdogStep::Reap));
    assert!(matches!(registry.watch("bgb-1", "session", 1000 + 30_000), WatchdogStep::TimedOut));
    let ended = registry.mark_killed("bgb-1", "session", true, UNIX_NOW + 9, 31_000).unwrap();
    assert_eq!(ended.status, BgTaskStatus::TimedOut);
    assert_eq!(ended.exit_code, Some(124));
    assert!(matches!(registry.watch("bgb-1", "session", 40_000), WatchdogStep::Skip));
}

#[test]
fn an_end_is_told_once() {
    let mut registry = BgTaskRegistry::new();
    registry.insert(running("bgb-1", "true"));
    let stored = metadata("bgb-1", "true");
    assert!(registry.finalize_from_marker(
        "bgb-1",
        "session",
        ExitMarker::Code(3),
        stored,
        UNIX_NOW + 5,
        2000
    ));
    let told = registry.enqueue_completion("bgb-1", "session", &preview("out")).unwrap();
    assert_eq!(told.status, BgTaskStatus::Failed);
    assert_eq!(told.exit_code, Some(3));
    assert_eq!(told.output_preview, "out");
    assert!(registry.enqueue_completion("bgb-1", "session", &preview("out")).is_none());
    assert_eq!(registry.pending_completions_for_session("session").len(), 1);
    assert!(registry.drain_completions_for_session(Some("other")).is_empty());
    assert_eq!(registry.drain_completions_for_session(Some("session")).len(), 1);
    assert!(registry.drain_completions().is_empty());
    let delivered = registry.task_for_session("bgb-1", "session").unwrap().metadata.copy();
    registry.set_completion_delivered("bgb-1", "session", delivered, true);
    assert!(registry.enqueue_completion("bgb-1", "session", &preview("out")).is_none());
}

#[test]
fn the_number_of_running_tasks_has_a_limit() {
    let mut registry = BgTaskRegistry::new();
    registry.insert(running("bgb-1", "a"));
    registry.insert(running("bgb-2", "b"));
    assert_eq!(registry.running_count(), 2);
    assert!(registry.check_limit(3).is_ok());
    assert_eq!(
        registry.check_limit(2).unwrap_err(),
        "background bash task limit exceeded: 2 running (max 2)"
    );
    assert_eq!(registry.running_tasks().len(), 2);
}

#[test]
fn stored_tasks_are_taken_up_again() {
    let facts = |marker, alive| ReplayFacts { marker, marker_exists: marker.is_some(), alive };
    let stored = |task: PersistedTask| StoredTask {
        metadata: task,
        notify_on_completion: true,
        compressed: true,
    };

    let mut registry = BgTaskRegistry::new();
    let writes = registry.replay_session(
        stored(metadata("bgb-1", "a")),
        paths("bgb-1"),
        "session",
        facts(None, true),
        UNIX_NOW + 10,
        1,
        &preview("p"),
    );
    assert!(writes.metadata.is_none() && !writes.kill_marker);
    assert!(registry.task_for_session("bgb-1", "session").unwrap().is_running());

    let writes = registry.replay_session(
        stored(metadata("bgb-2", "a")),
        paths("bgb-2"),
        "session",
        facts(None, false),
        UNIX_NOW + 10,
        1,
        &preview("p"),
    );
    let ended = writes.metadata.unwrap();
    assert_eq!(ended.status, BgTaskStatus::Failed);
    assert_eq!(
        ended.status_reason.as_deref(),
        Some("process exited without exit marker")
    );

    let writes = registry.replay_session(
        stored(metadata("bgb-3", "a")),
        paths("bgb-3"),
        "session",
        facts(Some(ExitMarker::Code(0)), false),
        UNIX_NOW + 10,
        1,
        &preview("p"),
    );
    assert_eq!(writes.metadata.unwrap().status, BgTaskStatus::Completed);

    let writes = registry.replay_session(
        stored(metadata("bgb-4", "a")),
        paths("bgb-4"),
        "session",
        facts(None, true),
        UNIX_NOW + STALE_RUNNING_AFTER_MS + 1,
        1,
        &preview("p"),
    );
    let lost = writes.metadata.unwrap();
    assert_eq!(lost.status, BgTaskStatus::Killed);
    assert_eq!(lost.status_reason.as_deref(), Some("orphaned (>24h)"));
    assert!(writes.kill_marker);

    let starting = PersistedTask::starting_at(
        "bgb-5".to_string(),
        "session".to_string(),
        "a".to_string(),
        "/work".to_string(),
        None,
        UNIX_NOW,
    );
    let writes = registry.replay_session(
        stored(starting),
        paths("bgb-5"),
        "session",
        facts(None, false),
        UNIX_NOW + 10,
        1,
        &preview("p"),
    );
    assert_eq!(writes.metadata.unwrap().status_reason.as_deref(), Some("spawn aborted"));

    let told = registry.drain_completions();
    assert_eq!(told.len(), 4);
    assert_eq!(told[0].output_preview, "<p>");
}

#[test]
fn long_running_tasks_are_told_of() {
    let mut registry = BgTaskRegistry::new();
    registry.insert(running("bgb-1", "sleep 500"));
    registry.configure_long_running_reminders(true, 100);
    assert!(registry.maybe_emit_long_running_reminder("bgb-1", "session", 1099).is_none());
    let told = registry.maybe_emit_long_running_reminder("bgb-1", "session", 1100).unwrap();
    assert_eq!(told.elapsed_ms, 100);
    assert_eq!(told.command, "sleep 500");
    assert!(registry.maybe_emit_long_running_reminder("bgb-1", "session", 1150).is_none());
    assert!(registry.maybe_emit_long_running_reminder("bgb-1", "session", 1200).is_some());
    registry.configure_long_running_reminders(false, 100);
    assert!(registry.maybe_emit_long_running_reminder("bgb-1", "session", 1400).is_none());
}

#[test]
fn a_promoted_task_tells_its_end() {
    let mut registry = BgTaskRegistry::new();
    let mut quiet = running("bgb-1", "a");
    quiet.notify_on_completion = false;
    registry.insert(quiet);
    assert_eq!(
        registry.promote("bgb-1", "session", Err("disk full".to_string())).unwrap_err(),
        "failed to promote background task: disk full"
    );
    assert_eq!(registry.promote("bgb-1", "session", Ok(metadata("bgb-1", "a"))), Ok(true));
    assert!(registry.task_for_session("bgb-1", "session").unwrap().notify_on_completion);
}

#[test]
fn the_state_of_a_task_is_told() {
    let mut registry = BgTaskRegistry::new();
    let mut task = running("bgb-1", "echo");
    task.compressed = true;
    registry.insert(task);
    let now = registry
        .status("bgb-1", "session", 1500, &preview("raw"), true, Some("/o"), "/e")
        .unwrap();
    assert_eq!(now.output_preview, "raw");
    assert_eq!(now.info.status, BgTaskStatus::Running);
    registry.mark_killed("bgb-1", "session", false, UNIX_NOW + 3, 1600);
    let then = registry
        .status("bgb-1", "session", 1700, &preview("raw"), true, Some("/o"), "/e")
        .unwrap();
    assert_eq!(then.output_preview, "<raw>");
    assert_eq!(then.output_path.as_deref(), Some("/o"));
    assert!(registry.status("bgb-1", "other", 1, &preview(""), true, None, "").is_none());
}

#[test]
fn names_are_random() {
    let a = random_slug(0);
    let b = random_slug(0);
    assert!(a.starts_with("bgb-") && a.len() == 20);
    assert!(a[4..].chars().all(|c| c.is_ascii_digit() || ('a'..='f').contains(&c)));
    assert_ne!(a, b);
    assert_eq!(write_slug(&[0, 255, 16, 1, 2, 3, 4, 171]), "bgb-00ff1001020304ab");
    assert_eq!(number_bytes(0x0807_0605_0403_0201), [1, 2, 3, 4, 5, 6, 7, 8]);
    let registry = BgTaskRegistry::new();
    let id = registry.generate_unique_task_id(0).unwrap();
    assert!(registry.is_free(&id));
}

#[test]
fn what_is_written_down_counts() {
    let mut registry = BgTaskRegistry::new();
    registry.insert(running("bgb-1", "true"));
    let other = metadata("bgb-2", "false");
    assert!(registry.reap_child("bgb-1", "session", false, Some(other), UNIX_NOW, 2000));
    let task = registry.task_for_session("bgb-1", "session").unwrap();
    assert_eq!(task.metadata.task_id, "bgb-2");
    assert_eq!(task.metadata.command, "false");
}

#[test]
fn the_first_free_name_is_taken() {
    let mut registry = BgTaskRegistry::new();
    registry.insert(running("bgb-1", "true"));
    let names = |list: &[&str]| list.iter().map(|s| s.to_string()).collect::<Vec<_>>();
    let taken = registry.first_free(&names(&["bgb-1", "bgb-2", "bgb-3"]));
    assert_eq!(taken.as_deref(), Some("bgb-2"));
    assert_eq!(registry.first_free(&names(&["bgb-1", "bgb-1"])), None);
    assert_eq!(registry.first_free(&names(&[])), None);
}

#[test]
fn written_tasks_keep_their_end() {
    let mut ended = metadata("bgb-1", "a");
    ended.mark_terminal_at(BgTaskStatus::Completed, Some(0), None, UNIX_NOW + 8);
    let kept = update_task(ended.copy(), metadata("bgb-1", "a"));
    assert_eq!(kept.status, BgTaskStatus::Completed);
    let next = update_task(metadata("bgb-1", "a"), ended);
    assert_eq!(next.status, BgTaskStatus::Completed);
    assert_eq!(next.duration_ms, Some(8));
}

#[test]
fn tasks_start_now() {
    let task = PersistedTask::starting(
        "bgb-1".to_string(),
        "s".to_string(),
        "c".to_string(),
        "/w".to_string(),
        None,
    );
    assert_eq!(task.status, BgTaskStatus::Starting);
    assert!(task.started_at > 1_600_000_000_000);
    let mut ended = task.copy();
    ended.mark_terminal(BgTaskStatus::Failed, Some(1), Some("why".to_string()));
    assert!(ended.finished_at.unwrap() >= ended.started_at);
    assert!(ended.is_terminal());
}

#[test]
fn markers_decide_the_end() {
    let ok = terminal_metadata_from_marker(
        metadata("bgb-1", "a"),
        ExitMarker::Code(0),
        None,
        UNIX_NOW,
    );
    assert_eq!((ok.status, ok.exit_code), (BgTaskStatus::Completed, Some(0)));
    let bad = terminal_metadata_from_marker(
        metadata("bgb-1", "a"),
        ExitMarker::Code(-2),
        None,
        UNIX_NOW,
    );
    assert_eq!((bad.status, bad.exit_code), (BgTaskStatus::Failed, Some(-2)));
    let killed = terminal_metadata_from_marker(
        metadata("bgb-1", "a"),
        ExitMarker::Killed,
        None,
        UNIX_NOW,
    );
    assert_eq!((killed.status, killed.exit_code), (BgTaskStatus::Killed, None));
}

#[test]
fn timeouts_have_a_default() {
    assert_eq!(effective_timeout(Some(7)), 7);
    assert_eq!(effective_timeout(None), DEFAULT_BG_TIMEOUT_MS);
    assert!(!running_metadata_is_stale(&metadata("a", "b"), UNIX_NOW + STALE_RUNNING_AFTER_MS));
    assert!(running_metadata_is_stale(&metadata("a", "b"), UNIX_NOW + STALE_RUNNING_AFTER_MS + 1));
    assert_eq!(session_tasks_dir("/s", "h"), "/s/bash-tasks/h");
}

#[test]
fn processes_end_within_a_grace_period() {
    assert!(matches!(terminate_step(0, true), TerminateStep::Done));
    assert!(matches!(terminate_step(0, false), TerminateStep::Wait(_)));
    assert!(matches!(terminate_step(TERMINATE_GRACE_MS, false), TerminateStep::Kill));
    assert!(wrapper_script().contains("code=$?"));
}

#[test]
fn shells_are_tried_in_turn() {
    let shells = vec!["pwsh.exe".to_string(), "cmd.exe".to_string()];
    assert!(matches!(
        after_attempt(&shells, 0, true, &SpawnOutcome::Spawned),
        SpawnNext::Done
    ));
    match after_attempt(&shells, 0, false, &SpawnOutcome::NotFound("missing".to_string())) {
        SpawnNext::Try { shell, breakaway, last_error } => {
            assert_eq!((shell, breakaway), (1, true));
            assert_eq!(last_error, "pwsh.exe: missing");
        }
        _ => panic!("expected another attempt"),
    }
    assert!(matches!(
        after_attempt(&shells, 1, true, &SpawnOutcome::NotFound("missing".to_string())),
        SpawnNext::Exhausted { .. }
    ));
    match after_attempt(&shells, 1, true, &SpawnOutcome::AccessDenied("denied".to_string())) {
        SpawnNext::Try { shell, breakaway, .. } => assert_eq!((shell, breakaway), (1, false)),
        _ => panic!("expected another attempt"),
    }
    match after_attempt(&shells, 1, false, &SpawnOutcome::AccessDenied("denied".to_string())) {
        SpawnNext::Fail { message } => assert_eq!(
            message,
            "failed to spawn background bash command via cmd.exe: denied"
        ),
        _ => panic!("expected a failure"),
    }
    assert_eq!(wrapper_extension(ShellKind::Cmd), "bat");
    assert_eq!(wrapper_args(ShellKind::Cmd), vec!["/V:ON", "/D", "/C"]);
    assert_eq!(wrapper_args(ShellKind::Pwsh).last(), Some(&"-File"));
    assert!(wrapper_args(ShellKind::Posix).is_empty());
}
