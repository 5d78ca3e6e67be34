//! Language servers, as far as they are known by their answers.
use aft::commands::lsp::{check_step, tell_place, LspPlace, LspRequest, LspStep};
use aft::commands::lsp_diagnostics::{
    build_response, compute_unchecked_files, filter_diagnostics, handle_lsp_diagnostics,
    is_complete, is_noisy, needs_push_wait, next_wait, parse_severity_filter,
    read_diagnostics_request, report_without_server, tell_workspace_pull,
    update_status_with_pull, waits_for_servers, DiagnosticSeverity, DiagnosticsFacts,
    DiagnosticsScope, LspDiagnosticsParams, PullFileOutcome, PullFileResult, ServerAttempt,
    ServerAttemptResult, ServerPull, ServerScope, ServerStatusEntry, SeverityFilter,
    StoredDiagnostic, WalkEntry, WorkspacePull,
};
use aft::commands::lsp_find_references::{
    check_find_references, handle_lsp_find_references, with_declaration,
};
use aft::commands::lsp_goto_definition::{
    check_goto_definition, handle_lsp_goto_definition, DefinitionReply,
};
use aft::commands::refusal::Refusal;

fn place(path: Option<&str>, line: u32) -> LspPlace {
    LspPlace {
        path: path.map(|p| p.to_string()),
        uri: "file:///w/a.rs".to_string(),
        line,
        column: 4,
        end_line: line,
        end_column: 9,
    }
}

fn message(r: Option<Refusal>) -> String {
    match r {
        Some(Refusal::Request { message, .. }) => message,
        _ => panic!("expected a refusal"),
    }
}

#[test]
fn positions_start_at_one() {
    let at = |line, character| Ok(LspRequest { file: "a.rs".to_string(), line, character });
    assert_eq!(
        message(check_goto_definition(&at(0, 1))),
        "lsp_goto_definition: 'line' must be >= 1"
    );
    assert_eq!(
        message(check_find_references(&at(0, 0))),
        "lsp_find_references: 'line' must be >= 1"
    );
    assert!(check_goto_definition(&at(1, 1)).is_none());
    assert_eq!(
        message(check_find_references(&Err("missing field".to_string()))),
        "lsp_find_references: invalid params: missing field"
    );
}

#[test]
fn places_are_told() {
    let told = tell_place(&place(Some("/w/a.rs"), 2));
    assert_eq!(told.file, "/w/a.rs");
    assert_eq!((told.line, told.column, told.end_line, told.end_column), (2, 4, 2, 9));
    assert_eq!(tell_place(&place(None, 2)).file, "file:///w/a.rs");
}

#[test]
fn answers_are_told() {
    let report =
        handle_lsp_find_references(&Some(vec![place(Some("/w/a"), 1), place(Some("/w/b"), 2)]));
    assert_eq!(report.total, 2);
    assert_eq!(handle_lsp_find_references(&None).total, 0);
    assert_eq!(
        handle_lsp_goto_definition(Some(DefinitionReply::Scalar(place(Some("/w/a"), 1)))).len(),
        1
    );
    assert!(handle_lsp_goto_definition(None).is_empty());
    assert!(with_declaration(None));
    assert!(!with_declaration(Some(false)));
}

#[test]
fn steps_can_end_a_request() {
    assert!(check_step("c", &LspStep::Opened(1)).is_none());
    assert!(check_step("c", &LspStep::Opened(0)).is_some());
    assert!(check_step("c", &LspStep::Client(true)).is_none());
    assert!(check_step("c", &LspStep::Client(false)).is_some());
    assert!(message(check_step("c", &LspStep::OpenFailed("why".to_string()))).contains("why"));
}

#[test]
fn severities_have_names() {
    assert!(matches!(parse_severity_filter(None), Ok(SeverityFilter::All)));
    assert!(matches!(
        parse_severity_filter(Some("error")),
        Ok(SeverityFilter::Only(DiagnosticSeverity::Error))
    ));
    assert!(parse_severity_filter(Some("loud")).is_err());
}

fn params(file: Option<&str>, directory: Option<&str>) -> LspDiagnosticsParams {
    LspDiagnosticsParams {
        file: file.map(|s| s.to_string()),
        directory: directory.map(|s| s.to_string()),
        severity: None,
        wait_ms: Some(500),
    }
}

#[test]
fn diagnostics_are_asked_for() {
    let ask = read_diagnostics_request(Ok(params(Some("a.rs"), None))).ok().unwrap();
    assert!(matches!(ask.scope, DiagnosticsScope::File(_)));
    assert_eq!(ask.wait_ms, 500);
    let ask = read_diagnostics_request(Ok(params(None, None))).ok().unwrap();
    assert!(matches!(ask.scope, DiagnosticsScope::All));
    assert!(read_diagnostics_request(Ok(params(Some("a"), Some("b")))).is_err());
    assert!(read_diagnostics_request(Err("bad".to_string())).is_err());
    let long = LspDiagnosticsParams { wait_ms: Some(u64::MAX), ..params(None, None) };
    assert!(read_diagnostics_request(Ok(long)).is_err());
}

fn status(id: &str, status: &str) -> ServerStatusEntry {
    ServerStatusEntry {
        server_id: id.to_string(),
        scope: ServerScope::File,
        status: status.to_string(),
    }
}

fn pulled(id: &str, outcome: PullFileOutcome) -> PullFileResult {
    PullFileResult { server_id: id.to_string(), outcome }
}

#[test]
fn servers_have_a_status() {
    let attempt = |result| ServerAttempt { server_id: "rust".to_string(), result };
    assert_eq!(
        ServerStatusEntry::from_attempt(&attempt(ServerAttemptResult::Running), ServerScope::File)
            .status,
        "ok"
    );
    assert_eq!(
        ServerStatusEntry::from_attempt(
            &attempt(ServerAttemptResult::BinaryNotInstalled { binary: "ra".to_string() }),
            ServerScope::File
        )
        .status,
        "binary_not_installed: ra"
    );
    let after = update_status_with_pull(
        vec![status("a", "ok"), status("b", "ok")],
        &vec![pulled("b", PullFileOutcome::Full)],
    );
    assert_eq!(after[1].status, "pull_ok");
    assert_eq!(after[0].status, "ok");
    assert!(!needs_push_wait(&vec![pulled("a", PullFileOutcome::Full)]));
    assert!(needs_push_wait(&vec![pulled("a", PullFileOutcome::PullNotSupported)]));
    assert!(is_complete(&vec![status("a", "pull_ok")], false, false));
    let (entry, _) = tell_workspace_pull("a", &WorkspacePull::Failed);
    assert_eq!(entry.status, "request_failed");
}

#[test]
fn waits_end_at_their_deadline() {
    assert_eq!(next_wait(100, 100), None);
    assert!(next_wait(100, 130).unwrap() <= 30);
}

fn diagnostic(file: &str, line: u32, severity: DiagnosticSeverity) -> StoredDiagnostic {
    StoredDiagnostic {
        file: file.to_string(),
        line,
        column: 1,
        end_line: line,
        end_column: 2,
        severity,
        message: "m".to_string(),
        code: None,
        source: None,
    }
}

#[test]
fn diagnostics_are_told_in_order() {
    let all = vec![
        diagnostic("/w/b", 2, DiagnosticSeverity::Error),
        diagnostic("/w/a", 9, DiagnosticSeverity::Warning),
        diagnostic("/w/b", 1, DiagnosticSeverity::Error),
    ];
    let report = build_response(all, vec![], true, vec![], false);
    let order: Vec<(&str, u32)> =
        report.diagnostics.iter().map(|d| (d.file.as_str(), d.line)).collect();
    assert_eq!(order, vec![("/w/a", 9), ("/w/b", 1), ("/w/b", 2)]);
    assert_eq!(report.total, 3);
    assert_eq!(report.files_with_errors, 1);
    let only = filter_diagnostics(
        report.diagnostics,
        SeverityFilter::Only(DiagnosticSeverity::Warning),
    );
    assert_eq!(only.len(), 1);
}

#[test]
fn unchecked_files_are_listed() {
    let entry = |path: &str, is_file, has_server| WalkEntry {
        path: path.to_string(),
        is_file,
        has_server,
    };
    let (files, truncated) = compute_unchecked_files(
        &vec![
            entry("/w/a.rs", true, true),
            entry("/w/b.rs", true, true),
            entry("/w/c.txt", true, false),
            entry("/w/dir", false, true),
        ],
        &vec!["/w/a.rs".to_string()],
    );
    assert_eq!(files, vec!["/w/b.rs".to_string()]);
    assert!(!truncated);
    assert!(is_noisy("node_modules"));
    assert!(!is_noisy("src"));
}

#[test]
fn files_without_a_server_are_told() {
    assert!(report_without_server("/w/a.zzz", vec![], false, false).is_ok());
    assert!(report_without_server("/w/a.rs", vec![status("a", "ok")], true, true).is_err());
}

fn nothing_found() -> DiagnosticsFacts {
    DiagnosticsFacts {
        refused: None,
        registered: false,
        attempts: vec![],
        running: false,
        pull_results: vec![],
        reported: false,
        pulls: vec![],
        entries: vec![],
        stored: vec![],
    }
}

fn one_server(outcome: PullFileOutcome, reported: bool) -> DiagnosticsFacts {
    DiagnosticsFacts {
        registered: true,
        attempts: vec![ServerAttempt {
            server_id: "rust".to_string(),
            result: ServerAttemptResult::Running,
        }],
        running: true,
        pull_results: vec![pulled("rust", outcome)],
        reported,
        stored: vec![
            diagnostic("/w/a.rs", 4, DiagnosticSeverity::Error),
            diagnostic("/w/a.rs", 2, DiagnosticSeverity::Hint),
        ],
        ..nothing_found()
    }
}

fn waiting(wait_ms: u64) -> LspDiagnosticsParams {
    LspDiagnosticsParams { wait_ms: Some(wait_ms), ..params(Some("/w/a.rs"), None) }
}

#[test]
fn a_file_is_checked_by_its_servers() {
    let facts = one_server(PullFileOutcome::Full, false);
    let report = handle_lsp_diagnostics(Ok(params(Some("/w/a.rs"), None)), facts).unwrap();
    let lines: Vec<u32> = report.diagnostics.iter().map(|d| d.line).collect();
    assert_eq!(lines, vec![2, 4]);
    assert_eq!((report.total, report.files_with_errors, report.complete), (2, 1, true));
    assert_eq!(report.lsp_servers_used[0].status, "pull_ok");
    assert_eq!(report.lsp_servers_used[0].scope, ServerScope::File);
    assert!(report.unchecked_files.is_none() && !report.walk_truncated && report.note.is_none());
}

#[test]
fn a_server_that_reports_by_itself_has_to_be_waited_for() {
    let push = |reported| one_server(PullFileOutcome::PullNotSupported, reported);
    let complete = |wait_ms, reported| {
        handle_lsp_diagnostics(Ok(waiting(wait_ms)), push(reported)).unwrap().complete
    };
    assert!(!complete(0, true));
    assert!(!complete(50, false));
    assert!(complete(50, true));
    assert!(waits_for_servers(&push(false).pull_results, 50));
    assert!(!waits_for_servers(&push(false).pull_results, 0));
    assert!(waits_for_servers(&vec![], 1));
}

#[test]
fn a_file_without_a_server_is_told_so() {
    let report =
        handle_lsp_diagnostics(Ok(params(Some("/w/a.zzz"), None)), nothing_found()).unwrap();
    assert!(report.complete && report.total == 0 && report.lsp_servers_used.is_empty());
    assert_eq!(report.note.as_deref(), Some("no LSP server is registered for '/w/a.zzz'"));
    let facts = DiagnosticsFacts {
        registered: true,
        attempts: vec![ServerAttempt {
            server_id: "rust".to_string(),
            result: ServerAttemptResult::BinaryNotInstalled {
                binary: "rust-analyzer".to_string(),
            },
        }],
        ..nothing_found()
    };
    let report = handle_lsp_diagnostics(Ok(params(Some("/w/a.rs"), None)), facts).unwrap();
    assert!(!report.complete && report.note.is_none());
    assert_eq!(report.lsp_servers_used[0].status, "binary_not_installed: rust-analyzer");
}

fn directory_facts(supports_workspace: bool) -> DiagnosticsFacts {
    let file = |path: &str| WalkEntry {
        path: path.to_string(),
        is_file: true,
        has_server: true,
    };
    DiagnosticsFacts {
        pulls: vec![ServerPull {
            server_id: "rust".to_string(),
            pull: WorkspacePull::Answered { supports_workspace, cancelled: false, complete: true },
        }],
        entries: vec![file("/w/a.rs"), file("/w/b.rs")],
        stored: vec![diagnostic("/w/a.rs", 1, DiagnosticSeverity::Hint)],
        ..nothing_found()
    }
}

#[test]
fn a_directory_is_complete_where_every_workspace_was_pulled() {
    let ask = || LspDiagnosticsParams {
        severity: Some("error".to_string()),
        ..params(None, Some("/w"))
    };
    let report = handle_lsp_diagnostics(Ok(ask()), directory_facts(true)).unwrap();
    assert_eq!((report.total, report.complete), (0, true));
    assert_eq!(report.unchecked_files, Some(vec!["/w/b.rs".to_string()]));
    assert_eq!(report.lsp_servers_used[0].status, "workspace_pull_ok");
    assert_eq!(report.lsp_servers_used[0].scope, ServerScope::Workspace);
    let report = handle_lsp_diagnostics(Ok(ask()), directory_facts(false)).unwrap();
    assert!(!report.complete);
    assert_eq!(report.lsp_servers_used[0].status, "workspace_pull_unsupported");
}

#[test]
fn large_directories_are_not_complete() {
    let mut facts = directory_facts(true);
    facts.entries = (0..201)
        .map(|i| WalkEntry { path: format!("/w/{i}.rs"), is_file: true, has_server: true })
        .collect();
    let report = handle_lsp_diagnostics(Ok(params(None, Some("/w"))), facts).unwrap();
    assert!(report.walk_truncated && !report.complete);
    assert_eq!(report.unchecked_files.unwrap().len(), 200);
}

#[test]
fn all_diagnostics_are_told_without_a_path() {
    let facts = one_server(PullFileOutcome::Full, false);
    let report = handle_lsp_diagnostics(Ok(params(None, None)), facts).unwrap();
    assert_eq!((report.total, report.complete), (2, true));
    assert!(report.lsp_servers_used.is_empty());
}

#[test]
fn a_path_out_of_bounds_is_refused() {
    let refused = || Some(Refusal::Request { code: "outside".into(), message: "m".into() });
    let facts = || DiagnosticsFacts { refused: refused(), ..nothing_found() };
    let code = |r: Refusal| match r {
        Refusal::Request { code, .. } => code,
        _ => String::new(),
    };
    let file = handle_lsp_diagnostics(Ok(params(Some("/x"), None)), facts());
    assert_eq!(file.err().map(code), Some("outside".to_string()));
    assert!(handle_lsp_diagnostics(Ok(params(None, None)), facts()).is_ok());
    let both = handle_lsp_diagnostics(Ok(params(Some("/x"), Some("/y"))), facts());
    assert_eq!(both.err().map(code), Some("invalid_request".to_string()));
}
