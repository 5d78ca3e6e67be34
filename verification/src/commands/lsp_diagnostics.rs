//! The diagnostics of language servers.
use vstd::prelude::*;

use crate::commands::refusal::{
    given_text, invalid, reject, verdict, Refusal, RefusalModel,
};
use crate::models::{group_models, models};
use crate::order::{
    add_distinct, distinct, lemma_distinct, lemma_sorted_permutes, sort_list, sorted, Ranked,
};
use crate::paths::{
    components, path_components, path_less, path_lt, render, rendered,
};
use crate::text::{
    contains_text, decimal, decimal_text, join, joined, less, owned, same, text2, text3, text5,
    text_lt, texts,
};

verus! {

/// How long a request can wait, in milliseconds.
pub const MAX_WAIT_MS: u64 = 10000;

/// How many files of a directory are looked at.
pub const DIRECTORY_FILE_CAP: usize = 200;

/// How long one wait for a server lasts, in milliseconds.
pub const WAIT_STEP_MS: u64 = 100;

/// How grave a diagnostic is.
#[derive(Clone, Copy, Debug, PartialEq, Eq, Structural)]
pub enum DiagnosticSeverity {
    Error,
    Warning,
    Information,
    Hint,
}

/// Which diagnostics are asked for.
#[derive(Clone, Copy, Debug, PartialEq, Eq, Structural)]
pub enum SeverityFilter {
    All,
    Only(DiagnosticSeverity),
}

impl SeverityFilter {
    /// Whether diagnostics of a severity are asked for.
    pub open spec fn admits(self, severity: DiagnosticSeverity) -> bool {
        match self {
            SeverityFilter::All => true,
            SeverityFilter::Only(s) => s == severity,
        }
    }

    /// Whether diagnostics of a severity are asked for.
    pub fn matches(self, severity: DiagnosticSeverity) -> (r: bool)
        ensures
            r == self.admits(severity),
    {
        match self {
            SeverityFilter::All => true,
            SeverityFilter::Only(s) => s == severity,
        }
    }
}

/// The filter that a request names.
pub open spec fn filter_named(value: Option<Seq<char>>) -> Result<SeverityFilter, Seq<char>> {
    match value {
        None => Ok(SeverityFilter::All),
        Some(s) => if s == "all"@ {
            Ok(SeverityFilter::All)
        } else if s == "error"@ {
            Ok(SeverityFilter::Only(DiagnosticSeverity::Error))
        } else if s == "warning"@ {
            Ok(SeverityFilter::Only(DiagnosticSeverity::Warning))
        } else if s == "information"@ {
            Ok(SeverityFilter::Only(DiagnosticSeverity::Information))
        } else if s == "hint"@ {
            Ok(SeverityFilter::Only(DiagnosticSeverity::Hint))
        } else {
            Err(
                "lsp_diagnostics: invalid severity '"@ + s
                    + "' (expected error, warning, information, hint, or all)"@,
            )
        },
    }
}

/// The filter that a request names.
pub fn parse_severity_filter(value: Option<&str>) -> (r: Result<SeverityFilter, String>)
    ensures
        match (r, filter_named(given_text(value))) {
            (Ok(a), Ok(b)) => a == b,
            (Err(e), Err(m)) => e@ == m,
            _ => false,
        },
{
    let s = match value {
        Some(s) => s,
        None => {
            return Ok(SeverityFilter::All);
        },
    };
    if same(s, "all") {
        Ok(SeverityFilter::All)
    } else if same(s, "error") {
        Ok(SeverityFilter::Only(DiagnosticSeverity::Error))
    } else if same(s, "warning") {
        Ok(SeverityFilter::Only(DiagnosticSeverity::Warning))
    } else if same(s, "information") {
        Ok(SeverityFilter::Only(DiagnosticSeverity::Information))
    } else if same(s, "hint") {
        Ok(SeverityFilter::Only(DiagnosticSeverity::Hint))
    } else {
        Err(
            text3(
                "lsp_diagnostics: invalid severity '",
                s,
                "' (expected error, warning, information, hint, or all)",
            ),
        )
    }
}

/// The parameters of a request.
pub struct LspDiagnosticsParams {
    pub file: Option<String>,
    pub directory: Option<String>,
    pub severity: Option<String>,
    pub wait_ms: Option<u64>,
}

/// What diagnostics are asked of.
pub enum DiagnosticsScope {
    File(String),
    Directory(String),
    All,
}

/// The model of a `DiagnosticsScope`.
pub ghost enum Scope {
    File(Seq<char>),
    Directory(Seq<char>),
    All,
}

/// A request for diagnostics.
pub struct DiagnosticsRequest {
    pub scope: DiagnosticsScope,
    pub filter: SeverityFilter,
    pub wait_ms: u64,
}

/// The model of a `DiagnosticsRequest`.
pub ghost struct DiagnosticsAsk {
    pub scope: Scope,
    pub filter: SeverityFilter,
    pub wait_ms: u64,
}

impl DeepView for DiagnosticsRequest {
    type V = DiagnosticsAsk;

    open spec fn deep_view(&self) -> DiagnosticsAsk {
        DiagnosticsAsk {
            scope: match self.scope {
                DiagnosticsScope::File(s) => Scope::File(s@),
                DiagnosticsScope::Directory(s) => Scope::Directory(s@),
                DiagnosticsScope::All => Scope::All,
            },
            filter: self.filter,
            wait_ms: self.wait_ms,
        }
    }
}

/// The request that parameters make, or why they make none.
pub open spec fn diagnostics_ask(params: Result<LspDiagnosticsParams, String>) -> Result<
    DiagnosticsAsk,
    RefusalModel,
> {
    match params {
        Err(e) => Err(invalid("lsp_diagnostics: invalid params: "@ + e@)),
        Ok(p) => {
            let wait_ms = match p.wait_ms {
                Some(n) => n,
                None => 0,
            };
            if p.file is Some && p.directory is Some {
                Err(invalid("lsp_diagnostics: provide either 'file' or 'directory', not both"@))
            } else if wait_ms > MAX_WAIT_MS {
                Err(invalid("lsp_diagnostics: wait_ms must be <= "@ + decimal(MAX_WAIT_MS as nat)))
            } else {
                match filter_named(p.severity.deep_view()) {
                    Err(m) => Err(invalid(m)),
                    Ok(filter) => Ok(
                        DiagnosticsAsk {
                            scope: match (p.file, p.directory) {
                                (Some(f), _) => Scope::File(f@),
                                (None, Some(d)) => Scope::Directory(d@),
                                (None, None) => Scope::All,
                            },
                            filter,
                            wait_ms,
                        },
                    ),
                }
            }
        },
    }
}

/// The request that parameters make.
pub fn read_diagnostics_request(params: Result<LspDiagnosticsParams, String>) -> (r: Result<
    DiagnosticsRequest,
    Refusal,
>)
    ensures
        verdict(r) == diagnostics_ask(params),
{
    let p = match params {
        Ok(p) => p,
        Err(e) => {
            return Err(reject(text2("lsp_diagnostics: invalid params: ", e.as_str()).as_str()));
        },
    };
    if p.file.is_some() && p.directory.is_some() {
        return Err(reject("lsp_diagnostics: provide either 'file' or 'directory', not both"));
    }
    let wait_ms: u64 = match p.wait_ms {
        Some(n) => n,
        None => 0,
    };
    if wait_ms > MAX_WAIT_MS {
        return Err(
            reject(
                text2(
                    "lsp_diagnostics: wait_ms must be <= ",
                    decimal_text(MAX_WAIT_MS).as_str(),
                ).as_str(),
            ),
        );
    }
    let severity = match &p.severity {
        Some(s) => Some(s.as_str()),
        None => None,
    };
    let filter = match parse_severity_filter(severity) {
        Ok(f) => f,
        Err(m) => {
            return Err(reject(m.as_str()));
        },
    };
    let scope = match (p.file, p.directory) {
        (Some(f), _) => DiagnosticsScope::File(f),
        (None, Some(d)) => DiagnosticsScope::Directory(d),
        (None, None) => DiagnosticsScope::All,
    };
    Ok(DiagnosticsRequest { scope, filter, wait_ms })
}

/// What a status speaks of.
#[derive(Clone, Copy, Debug, PartialEq, Eq, Structural)]
pub enum ServerScope {
    File,
    Workspace,
}

/// The status of a server.
pub struct ServerStatusEntry {
    pub server_id: String,
    pub scope: ServerScope,
    pub status: String,
}

/// The model of a `ServerStatusEntry`.
pub ghost struct ServerStatus {
    pub id: Seq<char>,
    pub scope: ServerScope,
    pub status: Seq<char>,
}

impl DeepView for ServerStatusEntry {
    type V = ServerStatus;

    open spec fn deep_view(&self) -> ServerStatus {
        ServerStatus { id: self.server_id@, scope: self.scope, status: self.status@ }
    }
}

/// What became of the start of a server.
pub enum ServerAttemptResult {
    Running,
    NoRootMarker { looked_for: Vec<String> },
    BinaryNotInstalled { binary: String },
    SpawnFailed { binary: String, reason: String },
}

/// A server that was to be started.
pub struct ServerAttempt {
    pub server_id: String,
    pub result: ServerAttemptResult,
}

/// The status that the start of a server gives.
pub open spec fn attempt_status(r: ServerAttemptResult) -> Seq<char> {
    match r {
        ServerAttemptResult::Running => "ok"@,
        ServerAttemptResult::NoRootMarker { looked_for } => "no_root_marker (looked for: "@
            + joined(texts(looked_for@), ", "@) + ")"@,
        ServerAttemptResult::BinaryNotInstalled { binary } => "binary_not_installed: "@ + binary@,
        ServerAttemptResult::SpawnFailed { binary, reason } => "spawn_failed: "@ + binary@ + " ("@
            + reason@ + ")"@,
    }
}

impl ServerStatusEntry {
    /// The status that the start of a server gives.
    pub fn from_attempt(attempt: &ServerAttempt, scope: ServerScope) -> (r: ServerStatusEntry)
        ensures
            r.deep_view() == (ServerStatus {
                id: attempt.server_id@,
                scope,
                status: attempt_status(attempt.result),
            }),
    {
        let status = match &attempt.result {
            ServerAttemptResult::Running => owned("ok"),
            ServerAttemptResult::NoRootMarker { looked_for } => text3(
                "no_root_marker (looked for: ",
                join(looked_for, ", ").as_str(),
                ")",
            ),
            ServerAttemptResult::BinaryNotInstalled { binary } => text2(
                "binary_not_installed: ",
                binary.as_str(),
            ),
            ServerAttemptResult::SpawnFailed { binary, reason } => text5(
                "spawn_failed: ",
                binary.as_str(),
                " (",
                reason.as_str(),
                ")",
            ),
        };
        ServerStatusEntry { server_id: owned(attempt.server_id.as_str()), scope, status }
    }
}

/// What a server answered when it was asked for the diagnostics of a file.
pub enum PullFileOutcome {
    Full,
    Unchanged,
    PullNotSupported,
    PartialNotSupported,
    RequestFailed { reason: String },
}

/// The answer of a server.
pub struct PullFileResult {
    pub server_id: String,
    pub outcome: PullFileOutcome,
}

/// The status that an answer gives.
pub open spec fn pull_status(o: PullFileOutcome) -> Seq<char> {
    match o {
        PullFileOutcome::Full => "pull_ok"@,
        PullFileOutcome::Unchanged => "pull_unchanged"@,
        PullFileOutcome::PullNotSupported => "push_only"@,
        PullFileOutcome::PartialNotSupported => "pull_partial_skipped"@,
        PullFileOutcome::RequestFailed { reason } => "pull_failed: "@ + reason@,
    }
}

fn tell_pull(o: &PullFileOutcome) -> (r: String)
    ensures
        r@ == pull_status(*o),
{
    match o {
        PullFileOutcome::Full => owned("pull_ok"),
        PullFileOutcome::Unchanged => owned("pull_unchanged"),
        PullFileOutcome::PullNotSupported => owned("push_only"),
        PullFileOutcome::PartialNotSupported => owned("pull_partial_skipped"),
        PullFileOutcome::RequestFailed { reason } => text2("pull_failed: ", reason.as_str()),
    }
}

/// Whether servers have to be waited for: where one cannot be asked, or none answered.
pub open spec fn waits_for_push(results: Seq<PullFileResult>) -> bool {
    results.len() == 0 || exists|i: int|
        0 <= i < results.len() && (#[trigger] results[i]).outcome is PullNotSupported
}

/// Whether servers have to be waited for.
pub fn needs_push_wait(results: &Vec<PullFileResult>) -> (r: bool)
    ensures
        r == waits_for_push(results@),
{
    if results.len() == 0 {
        return true;
    }
    let mut i: usize = 0;
    while i < results.len()
        invariant
            i <= results.len(),
            forall|k: int|
                0 <= k < i ==> !((#[trigger] results@[k]).outcome is PullNotSupported),
        decreases results.len() - i,
    {
        match &results[i].outcome {
            PullFileOutcome::PullNotSupported => {
                assert(results@[i as int].outcome is PullNotSupported);
                return true;
            },
            _ => {},
        }
        i = i + 1;
    }
    false
}

/// The last answer among the first `n` that a server gave.
pub open spec fn last_answer(results: Seq<PullFileResult>, id: Seq<char>, n: int) -> Option<
    PullFileOutcome,
>
    decreases n,
{
    if n <= 0 || n > results.len() {
        None
    } else if results[n - 1].server_id@ == id {
        Some(results[n - 1].outcome)
    } else {
        last_answer(results, id, n - 1)
    }
}

/// The status of a server after it was asked: only one that runs gets a new one.
pub open spec fn status_after(s: ServerStatus, results: Seq<PullFileResult>) -> ServerStatus {
    if s.status != "ok"@ {
        s
    } else {
        match last_answer(results, s.id, results.len() as int) {
            Some(o) => ServerStatus { status: pull_status(o), ..s },
            None => s,
        }
    }
}

fn find_answer<'a>(results: &'a Vec<PullFileResult>, id: &str) -> (r: Option<&'a PullFileOutcome>)
    ensures
        match (r, last_answer(results@, id@, results@.len() as int)) {
            (Some(a), Some(b)) => *a == b,
            (None, None) => true,
            _ => false,
        },
{
    let mut n: usize = results.len();
    while n > 0
        invariant
            n <= results.len(),
            last_answer(results@, id@, results@.len() as int) == last_answer(
                results@,
                id@,
                n as int,
            ),
        decreases n,
    {
        if same(results[n - 1].server_id.as_str(), id) {
            return Some(&results[n - 1].outcome);
        }
        n = n - 1;
    }
    None
}

/// The status of every server after it was asked.
pub fn update_status_with_pull(
    server_status: Vec<ServerStatusEntry>,
    pull_results: &Vec<PullFileResult>,
) -> (r: Vec<ServerStatusEntry>)
    ensures
        models(r@) == models(server_status@).map_values(
            |s: ServerStatus| status_after(s, pull_results@),
        ),
{
    broadcast use group_models;

    let ghost all = models(server_status@);
    let ghost want = all.map_values(|s: ServerStatus| status_after(s, pull_results@));
    let mut out: Vec<ServerStatusEntry> = Vec::new();
    let mut i: usize = 0;
    while i < server_status.len()
        invariant
            i <= server_status.len(),
            all == models(server_status@),
            want == all.map_values(|s: ServerStatus| status_after(s, pull_results@)),
            models(out@) == want.take(i as int),
        decreases server_status.len() - i,
    {
        let s = &server_status[i];
        assert(all[i as int] == s.deep_view());
        let mut status = owned(s.status.as_str());
        if same(s.status.as_str(), "ok") {
            match find_answer(pull_results, s.server_id.as_str()) {
                Some(o) => {
                    status = tell_pull(o);
                },
                None => {},
            }
        }
        let e = ServerStatusEntry {
            server_id: owned(s.server_id.as_str()),
            scope: s.scope,
            status,
        };
        let ghost before = models(out@);
        let ghost m = e.deep_view();
        out.push(e);
        assert(models(out@) == before.push(m));
        assert(want.take(i + 1) =~= want.take(i as int).push(m));
        i = i + 1;
    }
    assert(want.take(i as int) =~= want);
    out
}

/// Whether a status says that the diagnostics of a server are fresh. A server that cannot be
/// asked is fresh only where it was waited for and reported.
pub open spec fn fresh(status: Seq<char>, reported: bool) -> bool {
    status == "pull_ok"@ || status == "pull_unchanged"@ || (status == "push_only"@ && reported)
}

/// Whether the diagnostics of all servers are fresh.
pub open spec fn all_fresh(list: Seq<ServerStatus>, reported: bool) -> bool {
    forall|i: int| 0 <= i < list.len() ==> fresh((#[trigger] list[i]).status, reported)
}

/// Whether the diagnostics of all servers are fresh: `waited` says whether servers were waited
/// for, and `reported` whether anything was reported for the file.
pub fn is_complete(list: &Vec<ServerStatusEntry>, waited: bool, reported: bool) -> (r: bool)
    ensures
        r == all_fresh(models(list@), waited && reported),
{
    let ghost all = models(list@);
    let mut i: usize = 0;
    while i < list.len()
        invariant
            i <= list.len(),
            all == models(list@),
            forall|k: int| 0 <= k < i ==> fresh((#[trigger] all[k]).status, waited && reported),
        decreases list.len() - i,
    {
        let s = list[i].status.as_str();
        assert(all[i as int] == list@[i as int].deep_view());
        if !(same(s, "pull_ok") || same(s, "pull_unchanged") || (same(s, "push_only") && waited
            && reported)) {
            return false;
        }
        i = i + 1;
    }
    true
}

/// What a server answered when it was asked for the diagnostics of its workspace.
pub enum WorkspacePull {
    Answered { supports_workspace: bool, cancelled: bool, complete: bool },
    Failed,
}

/// The status that an answer for a workspace gives.
pub open spec fn workspace_status(p: WorkspacePull) -> Seq<char> {
    match p {
        WorkspacePull::Failed => "request_failed"@,
        WorkspacePull::Answered { supports_workspace, cancelled, complete } => if
            !supports_workspace {
            "workspace_pull_unsupported"@
        } else if cancelled {
            "workspace_pull_timed_out"@
        } else if complete {
            "workspace_pull_ok"@
        } else {
            "workspace_pull_partial"@
        },
    }
}

/// Whether an answer leaves nothing open: the server can be asked for its workspace, and
/// answered in full.
pub open spec fn workspace_done(p: WorkspacePull) -> bool {
    match p {
        WorkspacePull::Failed => false,
        WorkspacePull::Answered { supports_workspace, cancelled, complete } => supports_workspace
            && !cancelled && complete,
    }
}

/// The status that an answer for a workspace gives, and whether it leaves nothing open.
pub fn tell_workspace_pull(server_id: &str, p: &WorkspacePull) -> (r: (ServerStatusEntry, bool))
    ensures
        r.0.deep_view() == (ServerStatus {
            id: server_id@,
            scope: ServerScope::Workspace,
            status: workspace_status(*p),
        }),
        r.1 == workspace_done(*p),
{
    let (status, done) = match p {
        WorkspacePull::Failed => ("request_failed", false),
        WorkspacePull::Answered { supports_workspace, cancelled, complete } => {
            if !*supports_workspace {
                ("workspace_pull_unsupported", false)
            } else if *cancelled {
                ("workspace_pull_timed_out", false)
            } else if *complete {
                ("workspace_pull_ok", true)
            } else {
                ("workspace_pull_partial", false)
            }
        },
    };
    (
        ServerStatusEntry {
            server_id: owned(server_id),
            scope: ServerScope::Workspace,
            status: owned(status),
        },
        done,
    )
}

/// How long to wait next, where the wait is not over.
pub fn next_wait(now_ms: u64, deadline_ms: u64) -> (r: Option<u64>)
    ensures
        r == (if now_ms >= deadline_ms {
            None::<u64>
        } else if deadline_ms - now_ms < WAIT_STEP_MS {
            Some((deadline_ms - now_ms) as u64)
        } else {
            Some(WAIT_STEP_MS)
        }),
{
    if now_ms >= deadline_ms {
        None
    } else if deadline_ms - now_ms < WAIT_STEP_MS {
        Some(deadline_ms - now_ms)
    } else {
        Some(WAIT_STEP_MS)
    }
}

/// The names of directories and files that are not looked at.
pub open spec fn noisy(name: Seq<char>) -> bool {
    name == ".git"@ || name == "node_modules"@ || name == "target"@ || name == "dist"@ || name
        == "build"@ || name == ".next"@ || name == ".turbo"@
}

/// Whether a directory or file is not looked at, by its name.
pub fn is_noisy(name: &str) -> (r: bool)
    ensures
        r == noisy(name@),
{
    same(name, ".git") || same(name, "node_modules") || same(name, "target") || same(name, "dist")
        || same(name, "build") || same(name, ".next") || same(name, ".turbo")
}

/// What a walk through a directory came to.
pub struct WalkEntry {
    pub path: String,
    /// Whether it is a file, as far as that could be told.
    pub is_file: bool,
    /// Whether there is a server for it.
    pub has_server: bool,
}

/// What is known on the way through a directory.
pub ghost struct Unchecked {
    pub looked_at: int,
    pub files: Seq<Seq<char>>,
    pub truncated: bool,
}

/// What tells paths apart.
pub open spec fn path_key(p: Seq<char>) -> Seq<char> {
    rendered(path_components(p))
}

/// What is known after the first `n` entries: the files that have a server and no diagnostics,
/// up to the entry behind the last file that is looked at.
pub open spec fn unchecked_upto(entries: Seq<WalkEntry>, known: Seq<Seq<char>>, n: int) -> Unchecked
    decreases n,
{
    if n <= 0 || n > entries.len() {
        Unchecked { looked_at: 0, files: Seq::empty(), truncated: false }
    } else {
        let before = unchecked_upto(entries, known, n - 1);
        let e = entries[n - 1];
        if before.truncated {
            before
        } else if before.looked_at >= DIRECTORY_FILE_CAP {
            Unchecked { truncated: true, ..before }
        } else if !e.is_file {
            before
        } else {
            Unchecked {
                looked_at: before.looked_at + 1,
                files: if !known.contains(path_key(e.path@)) && e.has_server {
                    before.files.push(e.path@)
                } else {
                    before.files
                },
                truncated: false,
            }
        }
    }
}

proof fn lemma_truncated_stays(entries: Seq<WalkEntry>, known: Seq<Seq<char>>, n: int, m: int)
    requires
        0 <= n <= m <= entries.len(),
        unchecked_upto(entries, known, n).truncated,
    ensures
        unchecked_upto(entries, known, m) == unchecked_upto(entries, known, n),
    decreases m,
{
    if n < m {
        lemma_truncated_stays(entries, known, n, m - 1);
    }
}

/// The keys of paths.
pub open spec fn path_keys(paths: Seq<Seq<char>>) -> Seq<Seq<char>> {
    paths.map_values(|p: Seq<char>| path_key(p))
}

fn key_of(path: &str) -> (r: String)
    ensures
        r@ == path_key(path@),
{
    render(&components(path))
}

/// The files of a directory that have a server and no diagnostics, and whether the directory
/// was too large. `known` are the files with diagnostics.
pub fn compute_unchecked_files(entries: &Vec<WalkEntry>, known: &Vec<String>) -> (r: (
    Vec<String>,
    bool,
))
    ensures
        ({
            let want = unchecked_upto(
                entries@,
                path_keys(texts(known@)),
                entries@.len() as int,
            );
            texts(r.0@) == want.files && r.1 == want.truncated
        }),
{
    let ghost ks = path_keys(texts(known@));
    let mut keys: Vec<String> = Vec::new();
    let mut k: usize = 0;
    while k < known.len()
        invariant
            k <= known.len(),
            keys@.len() == k,
            forall|j: int| 0 <= j < k ==> (#[trigger] keys@[j])@ == path_key(known@[j]@),
        decreases known.len() - k,
    {
        keys.push(key_of(known[k].as_str()));
        k = k + 1;
    }
    assert(texts(keys@) =~= ks);
    let mut out: Vec<String> = Vec::new();
    let mut looked_at: usize = 0;
    let mut i: usize = 0;
    assert(texts(out@) =~= Seq::<Seq<char>>::empty());
    while i < entries.len()
        invariant
            i <= entries.len(),
            ks == path_keys(texts(known@)),
            texts(keys@) == ks,
            looked_at <= DIRECTORY_FILE_CAP,
            unchecked_upto(entries@, ks, i as int) == (Unchecked {
                looked_at: looked_at as int,
                files: texts(out@),
                truncated: false,
            }),
        decreases entries.len() - i,
    {
        if looked_at >= DIRECTORY_FILE_CAP {
            proof {
                lemma_truncated_stays(entries@, ks, i + 1, entries@.len() as int);
            }
            return (out, true);
        }
        let e = &entries[i];
        if e.is_file {
            looked_at = looked_at + 1;
            let key = key_of(e.path.as_str());
            if !contains_text(&keys, key.as_str()) && e.has_server {
                let ghost before = texts(out@);
                out.push(owned(e.path.as_str()));
                assert(texts(out@) =~= before.push(e.path@));
            }
        }
        i = i + 1;
    }
    (out, false)
}

/// A diagnostic.
pub struct StoredDiagnostic {
    pub file: String,
    pub line: u32,
    pub column: u32,
    pub end_line: u32,
    pub end_column: u32,
    pub severity: DiagnosticSeverity,
    pub message: String,
    pub code: Option<String>,
    pub source: Option<String>,
}

/// The model of a `StoredDiagnostic`.
pub ghost struct Diagnostic {
    pub file: Seq<char>,
    pub line: u32,
    pub column: u32,
    pub end_line: u32,
    pub end_column: u32,
    pub severity: DiagnosticSeverity,
    pub message: Seq<char>,
    pub code: Option<Seq<char>>,
    pub source: Option<Seq<char>>,
}

impl DeepView for StoredDiagnostic {
    type V = Diagnostic;

    open spec fn deep_view(&self) -> Diagnostic {
        Diagnostic {
            file: self.file@,
            line: self.line,
            column: self.column,
            end_line: self.end_line,
            end_column: self.end_column,
            severity: self.severity,
            message: self.message@,
            code: self.code.deep_view(),
            source: self.source.deep_view(),
        }
    }
}

/// Whether one diagnostic of a file stands before another: by its start, its end and its
/// message.
pub open spec fn spot_before(a: Diagnostic, b: Diagnostic) -> bool {
    if a.line != b.line {
        a.line < b.line
    } else if a.column != b.column {
        a.column < b.column
    } else if a.end_line != b.end_line {
        a.end_line < b.end_line
    } else if a.end_column != b.end_column {
        a.end_column < b.end_column
    } else {
        text_lt(a.message, b.message)
    }
}

impl Ranked for StoredDiagnostic {
    open spec fn before(a: Diagnostic, b: Diagnostic) -> bool {
        if path_lt(a.file, b.file) {
            true
        } else if path_lt(b.file, a.file) {
            false
        } else {
            spot_before(a, b)
        }
    }

    fn precedes(&self, other: &StoredDiagnostic) -> (r: bool) {
        if path_less(self.file.as_str(), other.file.as_str()) {
            true
        } else if path_less(other.file.as_str(), self.file.as_str()) {
            false
        } else if self.line != other.line {
            self.line < other.line
        } else if self.column != other.column {
            self.column < other.column
        } else if self.end_line != other.end_line {
            self.end_line < other.end_line
        } else if self.end_column != other.end_column {
            self.end_column < other.end_column
        } else {
            less(self.message.as_str(), other.message.as_str())
        }
    }
}

/// The diagnostics that a filter lets through.
pub open spec fn admitted(list: Seq<Diagnostic>, filter: SeverityFilter) -> Seq<Diagnostic>
    decreases list.len(),
{
    if list.len() == 0 {
        Seq::empty()
    } else if filter.admits(list.last().severity) {
        admitted(list.drop_last(), filter).push(list.last())
    } else {
        admitted(list.drop_last(), filter)
    }
}

/// The diagnostics that a filter lets through.
pub fn filter_diagnostics(list: Vec<StoredDiagnostic>, filter: SeverityFilter) -> (r: Vec<
    StoredDiagnostic,
>)
    ensures
        models(r@) == admitted(models(list@), filter),
{
    broadcast use group_models;

    let ghost all = models(list@);
    let ghost given = list@;
    let count = list.len();
    let mut rest = list;
    let mut out: Vec<StoredDiagnostic> = Vec::new();
    let mut i: usize = 0;
    assert(rest@ =~= given.skip(0));
    while i < count
        invariant
            i <= count,
            count == given.len(),
            all == models(given),
            rest@ == given.skip(i as int),
            models(out@) == admitted(all.take(i as int), filter),
        decreases count - i,
    {
        let d = rest.remove(0);
        assert(d == given[i as int]);
        assert(rest@ =~= given.skip(i + 1));
        assert(all.take(i + 1).drop_last() =~= all.take(i as int));
        assert(all[i as int] == d.deep_view());
        if filter.matches(d.severity) {
            let ghost before = models(out@);
            let ghost m = d.deep_view();
            out.push(d);
            assert(models(out@) == before.push(m));
        }
        i = i + 1;
    }
    assert(all.take(i as int) =~= all);
    out
}

/// The keys of the files with errors, one for each error.
pub open spec fn error_files(list: Seq<Diagnostic>) -> Seq<Seq<char>>
    decreases list.len(),
{
    if list.len() == 0 {
        Seq::empty()
    } else if list.last().severity == DiagnosticSeverity::Error {
        error_files(list.drop_last()).push(path_key(list.last().file))
    } else {
        error_files(list.drop_last())
    }
}

fn count_error_files(list: &Vec<StoredDiagnostic>) -> (r: usize)
    ensures
        r == distinct(error_files(models(list@))).len(),
{
    broadcast use group_models;

    let ghost all = models(list@);
    let mut files: Vec<String> = Vec::new();
    let mut i: usize = 0;
    assert(models(files@) =~= distinct(error_files(all.take(0))));
    while i < list.len()
        invariant
            i <= list.len(),
            all == models(list@),
            models(files@) == distinct(error_files(all.take(i as int))),
        decreases list.len() - i,
    {
        assert(all.take(i + 1).drop_last() =~= all.take(i as int));
        assert(all[i as int] == list@[i as int].deep_view());
        if list[i].severity == DiagnosticSeverity::Error {
            let ghost before = error_files(all.take(i as int));
            let key = key_of(list[i].file.as_str());
            assert(before.push(key@).drop_last() =~= before);
            add_distinct(&mut files, key);
        }
        i = i + 1;
    }
    assert(all.take(i as int) =~= all);
    assert(models(files@).len() == files@.len());
    files.len()
}

/// What is told of diagnostics.
pub struct DiagnosticsReport {
    pub diagnostics: Vec<StoredDiagnostic>,
    pub total: usize,
    pub files_with_errors: usize,
    pub complete: bool,
    pub lsp_servers_used: Vec<ServerStatusEntry>,
    /// The files without diagnostics, where there are any.
    pub unchecked_files: Option<Vec<String>>,
    /// Whether a directory was too large.
    pub walk_truncated: bool,
    pub note: Option<String>,
}

/// The model of a `DiagnosticsReport`.
pub ghost struct DiagnosticsAnswer {
    pub diagnostics: Seq<Diagnostic>,
    pub total: int,
    pub files_with_errors: int,
    pub complete: bool,
    pub servers: Seq<ServerStatus>,
    pub unchecked_files: Option<Seq<Seq<char>>>,
    pub walk_truncated: bool,
    pub note: Option<Seq<char>>,
}

impl DeepView for DiagnosticsReport {
    type V = DiagnosticsAnswer;

    open spec fn deep_view(&self) -> DiagnosticsAnswer {
        DiagnosticsAnswer {
            diagnostics: models(self.diagnostics@),
            total: self.total as int,
            files_with_errors: self.files_with_errors as int,
            complete: self.complete,
            servers: models(self.lsp_servers_used@),
            unchecked_files: match self.unchecked_files {
                Some(list) => Some(texts(list@)),
                None => None,
            },
            walk_truncated: self.walk_truncated,
            note: self.note.deep_view(),
        }
    }
}

/// What is told of diagnostics: in the order of their files and places, with the number of
/// files that have errors.
pub open spec fn answer_of(
    list: Seq<Diagnostic>,
    servers: Seq<ServerStatus>,
    complete: bool,
    unchecked: Seq<Seq<char>>,
    walk_truncated: bool,
) -> DiagnosticsAnswer {
    let ordered = sorted::<StoredDiagnostic>(list);
    DiagnosticsAnswer {
        diagnostics: ordered,
        total: list.len() as int,
        files_with_errors: distinct(error_files(ordered)).len() as int,
        complete,
        servers,
        unchecked_files: if unchecked.len() == 0 {
            None
        } else {
            Some(unchecked)
        },
        walk_truncated,
        note: None,
    }
}

/// Tells of diagnostics.
pub fn build_response(
    diagnostics: Vec<StoredDiagnostic>,
    server_status: Vec<ServerStatusEntry>,
    complete: bool,
    unchecked_files: Vec<String>,
    walk_truncated: bool,
) -> (r: DiagnosticsReport)
    ensures
        r.deep_view() == answer_of(
            models(diagnostics@),
            models(server_status@),
            complete,
            texts(unchecked_files@),
            walk_truncated,
        ),
{
    let ghost given = models(diagnostics@);
    let total = diagnostics.len();
    assert(given.len() == total);
    let list = sort_list(diagnostics);
    let files_with_errors = count_error_files(&list);
    assert(texts(unchecked_files@).len() == unchecked_files@.len());
    let unchecked = if unchecked_files.len() == 0 {
        None
    } else {
        Some(unchecked_files)
    };
    DiagnosticsReport {
        diagnostics: list,
        total,
        files_with_errors,
        complete,
        lsp_servers_used: server_status,
        unchecked_files: unchecked,
        walk_truncated,
        note: None,
    }
}

/// What is told where no server can be asked: that none is registered for a file, or that none
/// of those could be started.
pub open spec fn answer_without_server(
    file: Seq<char>,
    servers: Seq<ServerStatus>,
    registered: bool,
) -> DiagnosticsAnswer {
    DiagnosticsAnswer {
        diagnostics: Seq::empty(),
        total: 0,
        files_with_errors: 0,
        complete: !registered,
        servers: if registered {
            servers
        } else {
            Seq::empty()
        },
        unchecked_files: None,
        walk_truncated: false,
        note: if registered {
            None
        } else {
            Some("no LSP server is registered for '"@ + file + "'"@)
        },
    }
}

/// What is told of a file before any server is asked: that no server is registered for it, or
/// that none could be started; nothing where one runs.
pub fn report_without_server(
    file: &str,
    server_status: Vec<ServerStatusEntry>,
    registered: bool,
    running: bool,
) -> (r: Result<DiagnosticsReport, Vec<ServerStatusEntry>>)
    ensures
        match r {
            Err(list) => registered && running && list == server_status,
            Ok(report) => (!registered || !running) && report.deep_view() == answer_without_server(
                file@,
                models(server_status@),
                registered,
            ),
        },
{
    broadcast use group_models;

    if registered && running {
        return Err(server_status);
    }
    let note = if registered {
        None
    } else {
        Some(text3("no LSP server is registered for '", file, "'"))
    };
    let used = if registered {
        server_status
    } else {
        Vec::new()
    };
    Ok(
        DiagnosticsReport {
            diagnostics: Vec::new(),
            total: 0,
            files_with_errors: 0,
            complete: !registered,
            lsp_servers_used: used,
            unchecked_files: None,
            walk_truncated: false,
            note,
        },
    )
}

/// What was found out for a request.
pub struct DiagnosticsFacts {
    /// Why the file or directory is out of bounds, where it is.
    pub refused: Option<Refusal>,
    /// Whether a server is registered for the file.
    pub registered: bool,
    /// The servers for the file that were to be started.
    pub attempts: Vec<ServerAttempt>,
    /// Whether one of them runs.
    pub running: bool,
    /// What they answered.
    pub pull_results: Vec<PullFileResult>,
    /// Whether anything was reported for the file.
    pub reported: bool,
    /// What the running servers answered for their workspaces.
    pub pulls: Vec<ServerPull>,
    /// What a walk through the directory came to.
    pub entries: Vec<WalkEntry>,
    /// The diagnostics that are stored for what is asked of.
    pub stored: Vec<StoredDiagnostic>,
}

/// The answer of a server for its workspace.
pub struct ServerPull {
    pub server_id: String,
    pub pull: WorkspacePull,
}

/// The status of the servers that were to be started for a file.
pub open spec fn first_status(attempts: Seq<ServerAttempt>) -> Seq<ServerStatus> {
    Seq::new(
        attempts.len(),
        |i: int|
            ServerStatus {
                id: attempts[i].server_id@,
                scope: ServerScope::File,
                status: attempt_status(attempts[i].result),
            },
    )
}

fn attempt_statuses(attempts: &Vec<ServerAttempt>) -> (r: Vec<ServerStatusEntry>)
    ensures
        models(r@) == first_status(attempts@),
{
    broadcast use group_models;

    let ghost want = first_status(attempts@);
    let mut out: Vec<ServerStatusEntry> = Vec::new();
    let mut i: usize = 0;
    while i < attempts.len()
        invariant
            i <= attempts.len(),
            want == first_status(attempts@),
            models(out@) == want.take(i as int),
        decreases attempts.len() - i,
    {
        let e = ServerStatusEntry::from_attempt(&attempts[i], ServerScope::File);
        let ghost before = models(out@);
        let ghost m = e.deep_view();
        out.push(e);
        assert(models(out@) == before.push(m));
        assert(want.take(i + 1) =~= want.take(i as int).push(m));
        i = i + 1;
    }
    assert(want.take(i as int) =~= want);
    out
}

/// What is told of a file: what is stored of it once its servers were asked, complete where the
/// answers of all of them are fresh.
pub open spec fn file_answer(
    file: Seq<char>,
    f: DiagnosticsFacts,
    filter: SeverityFilter,
    wait_ms: u64,
) -> DiagnosticsAnswer {
    let first = first_status(f.attempts@);
    if !f.registered || !f.running {
        answer_without_server(file, first, f.registered)
    } else {
        let servers = first.map_values(|s: ServerStatus| status_after(s, f.pull_results@));
        answer_of(
            admitted(models(f.stored@), filter),
            servers,
            all_fresh(servers, wait_ms > 0 && f.reported),
            Seq::empty(),
            false,
        )
    }
}

/// Whether a file's servers are waited for before what is stored is read.
pub fn waits_for_servers(results: &Vec<PullFileResult>, wait_ms: u64) -> (r: bool)
    ensures
        r == (waits_for_push(results@) && wait_ms > 0),
{
    needs_push_wait(results) && wait_ms > 0
}

fn handle_file_mode(
    file: &str,
    facts: DiagnosticsFacts,
    filter: SeverityFilter,
    wait_ms: u64,
) -> (r: DiagnosticsReport)
    ensures
        r.deep_view() == file_answer(file@, facts, filter, wait_ms),
{
    let first = attempt_statuses(&facts.attempts);
    match report_without_server(file, first, facts.registered, facts.running) {
        Ok(report) => report,
        Err(list) => {
            let servers = update_status_with_pull(list, &facts.pull_results);
            let complete = is_complete(&servers, wait_ms > 0, facts.reported);
            let found = filter_diagnostics(facts.stored, filter);
            let unchecked: Vec<String> = Vec::new();
            assert(texts(unchecked@) =~= Seq::<Seq<char>>::empty());
            build_response(found, servers, complete, unchecked, false)
        },
    }
}

/// The status of the servers that were asked for their workspaces.
pub open spec fn workspace_statuses(pulls: Seq<ServerPull>) -> Seq<ServerStatus> {
    Seq::new(
        pulls.len(),
        |i: int|
            ServerStatus {
                id: pulls[i].server_id@,
                scope: ServerScope::Workspace,
                status: workspace_status(pulls[i].pull),
            },
    )
}

/// Whether the answers leave nothing open.
pub open spec fn workspaces_done(pulls: Seq<ServerPull>) -> bool {
    forall|i: int| 0 <= i < pulls.len() ==> workspace_done((#[trigger] pulls[i]).pull)
}

fn tell_workspace_pulls(pulls: &Vec<ServerPull>) -> (r: (Vec<ServerStatusEntry>, bool))
    ensures
        models(r.0@) == workspace_statuses(pulls@),
        r.1 == workspaces_done(pulls@),
{
    broadcast use group_models;

    let ghost want = workspace_statuses(pulls@);
    let mut out: Vec<ServerStatusEntry> = Vec::new();
    let mut complete = true;
    let mut i: usize = 0;
    while i < pulls.len()
        invariant
            i <= pulls.len(),
            want == workspace_statuses(pulls@),
            models(out@) == want.take(i as int),
            complete == (forall|k: int|
                0 <= k < i ==> workspace_done((#[trigger] pulls@[k]).pull)),
        decreases pulls.len() - i,
    {
        let (e, done) = tell_workspace_pull(pulls[i].server_id.as_str(), &pulls[i].pull);
        assert(done == workspace_done(pulls@[i as int].pull));
        if !done {
            complete = false;
        }
        let ghost before = models(out@);
        let ghost m = e.deep_view();
        out.push(e);
        assert(models(out@) == before.push(m));
        assert(want.take(i + 1) =~= want.take(i as int).push(m));
        i = i + 1;
    }
    assert(want.take(i as int) =~= want);
    (out, complete)
}

/// The files that diagnostics are of.
pub open spec fn files_of(list: Seq<Diagnostic>) -> Seq<Seq<char>> {
    list.map_values(|d: Diagnostic| d.file)
}

fn known_files(list: &Vec<StoredDiagnostic>) -> (r: Vec<String>)
    ensures
        texts(r@) == files_of(models(list@)),
{
    let ghost want = files_of(models(list@));
    let mut out: Vec<String> = Vec::new();
    let mut i: usize = 0;
    while i < list.len()
        invariant
            i <= list.len(),
            want == files_of(models(list@)),
            out@.len() == i,
            forall|k: int| 0 <= k < i ==> (#[trigger] out@[k])@ == want[k],
        decreases list.len() - i,
    {
        out.push(owned(list[i].file.as_str()));
        i = i + 1;
    }
    assert(texts(out@) =~= want);
    out
}

/// What is told of a directory: what is stored of it once the workspaces were asked for, and
/// the files of it that have a server and no diagnostics.
pub open spec fn directory_answer(f: DiagnosticsFacts, filter: SeverityFilter) -> DiagnosticsAnswer {
    let list = models(f.stored@);
    let unchecked = unchecked_upto(
        f.entries@,
        path_keys(files_of(list)),
        f.entries@.len() as int,
    );
    answer_of(
        admitted(list, filter),
        workspace_statuses(f.pulls@),
        workspaces_done(f.pulls@) && !unchecked.truncated,
        unchecked.files,
        unchecked.truncated,
    )
}

fn handle_directory_mode(facts: DiagnosticsFacts, filter: SeverityFilter) -> (r: DiagnosticsReport)
    ensures
        r.deep_view() == directory_answer(facts, filter),
{
    let (servers, done) = tell_workspace_pulls(&facts.pulls);
    let known = known_files(&facts.stored);
    let (unchecked, truncated) = compute_unchecked_files(&facts.entries, &known);
    let found = filter_diagnostics(facts.stored, filter);
    build_response(found, servers, done && !truncated, unchecked, truncated)
}

/// What is told of all files: what is stored.
pub open spec fn global_answer(f: DiagnosticsFacts, filter: SeverityFilter) -> DiagnosticsAnswer {
    answer_of(admitted(models(f.stored@), filter), Seq::empty(), true, Seq::empty(), false)
}

fn handle_global_mode(facts: DiagnosticsFacts, filter: SeverityFilter) -> (r: DiagnosticsReport)
    ensures
        r.deep_view() == global_answer(facts, filter),
{
    broadcast use group_models;

    let found = filter_diagnostics(facts.stored, filter);
    let servers: Vec<ServerStatusEntry> = Vec::new();
    let unchecked: Vec<String> = Vec::new();
    assert(texts(unchecked@) =~= Seq::<Seq<char>>::empty());
    build_response(found, servers, true, unchecked, false)
}

/// What is told on a request for diagnostics, or why it is refused: what is wrong with the
/// request comes first, and a file or directory that is out of bounds is refused as such.
pub open spec fn diagnostics_answer(
    params: Result<LspDiagnosticsParams, String>,
    f: DiagnosticsFacts,
) -> Result<DiagnosticsAnswer, RefusalModel> {
    match diagnostics_ask(params) {
        Err(e) => Err(e),
        Ok(ask) => match (ask.scope, f.refused) {
            (Scope::All, _) => Ok(global_answer(f, ask.filter)),
            (_, Some(e)) => Err(e.deep_view()),
            (Scope::File(file), None) => Ok(file_answer(file, f, ask.filter, ask.wait_ms)),
            (Scope::Directory(_), None) => Ok(directory_answer(f, ask.filter)),
        },
    }
}

/// Answers a request for diagnostics.
pub fn handle_lsp_diagnostics(
    params: Result<LspDiagnosticsParams, String>,
    facts: DiagnosticsFacts,
) -> (r: Result<DiagnosticsReport, Refusal>)
    ensures
        verdict(r) == diagnostics_answer(params, facts),
{
    let ask = match read_diagnostics_request(params) {
        Ok(ask) => ask,
        Err(e) => {
            return Err(e);
        },
    };
    let mut facts = facts;
    let refused = facts.refused.take();
    match (ask.scope, refused) {
        (DiagnosticsScope::All, _) => Ok(handle_global_mode(facts, ask.filter)),
        (_, Some(e)) => Err(e),
        (DiagnosticsScope::File(file), None) => Ok(
            handle_file_mode(file.as_str(), facts, ask.filter, ask.wait_ms),
        ),
        (DiagnosticsScope::Directory(_), None) => Ok(handle_directory_mode(facts, ask.filter)),
    }
}

/// A check of a file without a wait is never complete where one of its servers can only report
/// by itself.
pub proof fn push_needs_a_wait(
    file: Seq<char>,
    f: DiagnosticsFacts,
    filter: SeverityFilter,
    i: int,
)
    requires
        f.registered && f.running,
        0 <= i < f.attempts@.len(),
        status_after(first_status(f.attempts@)[i], f.pull_results@).status == "push_only"@,
    ensures
        !file_answer(file, f, filter, 0).complete,
{
    reveal_strlit("push_only");
    reveal_strlit("pull_ok");
    reveal_strlit("pull_unchanged");
    assert("push_only"@.len() == 9);
    assert("pull_ok"@.len() == 7);
    assert("pull_unchanged"@.len() == 14);
    let servers = first_status(f.attempts@).map_values(
        |s: ServerStatus| status_after(s, f.pull_results@),
    );
    assert(!fresh(servers[i].status, false));
}

/// A check of a directory is complete only where every server answered for its whole workspace
/// and the directory was looked through to its end.
pub proof fn complete_directory_was_checked(
    f: DiagnosticsFacts,
    filter: SeverityFilter,
    i: int,
)
    requires
        directory_answer(f, filter).complete,
        0 <= i < f.pulls@.len(),
    ensures
        directory_answer(f, filter).servers[i].status == "workspace_pull_ok"@,
        !directory_answer(f, filter).walk_truncated,
{
    assert(workspace_done(f.pulls@[i].pull));
}

/// Severities are asked for by their names; all are asked for where none is named, and any other
/// name is refused.
pub proof fn severities_are_asked_for_by_name(value: Option<Seq<char>>, severity: DiagnosticSeverity)
    ensures
        match filter_named(value) {
            Ok(SeverityFilter::All) => value is None || value == Some("all"@),
            Ok(SeverityFilter::Only(DiagnosticSeverity::Error)) => value == Some("error"@),
            Ok(SeverityFilter::Only(DiagnosticSeverity::Warning)) => value == Some("warning"@),
            Ok(SeverityFilter::Only(DiagnosticSeverity::Information)) => value == Some(
                "information"@,
            ),
            Ok(SeverityFilter::Only(DiagnosticSeverity::Hint)) => value == Some("hint"@),
            Err(_) => value is Some && value != Some("all"@) && value != Some("error"@) && value
                != Some("warning"@) && value != Some("information"@) && value != Some("hint"@),
        },
        SeverityFilter::All.admits(severity),
        forall|s: DiagnosticSeverity| #[trigger]
            SeverityFilter::Only(s).admits(severity) <==> s == severity,
{
}

/// A filter keeps the diagnostics of its severity, in order, and no others.
pub proof fn filters_keep_their_severity(
    list: Seq<Diagnostic>,
    d: Diagnostic,
    severity: DiagnosticSeverity,
)
    ensures
        admitted(list.push(d), SeverityFilter::All) == admitted(list, SeverityFilter::All).push(d),
        d.severity == severity ==> admitted(list.push(d), SeverityFilter::Only(severity))
            == admitted(list, SeverityFilter::Only(severity)).push(d),
        d.severity != severity ==> admitted(list.push(d), SeverityFilter::Only(severity))
            == admitted(list, SeverityFilter::Only(severity)),
{
    assert(list.push(d).drop_last() =~= list);
}

/// A request is about a file, a directory or everything, never about a file and a directory, and
/// waits for ten seconds at most and not at all where it does not say so.
pub proof fn requests_are_about_one_thing(p: LspDiagnosticsParams)
    ensures
        match diagnostics_ask(Ok(p)) {
            Ok(ask) => {
                &&& !(p.file is Some && p.directory is Some)
                &&& p.file is Some ==> ask.scope == Scope::File((p.file->0)@)
                &&& p.directory is Some ==> ask.scope == Scope::Directory((p.directory->0)@)
                &&& p.file is None && p.directory is None ==> ask.scope == Scope::All
                &&& p.wait_ms is None ==> ask.wait_ms == 0
                &&& p.wait_ms is Some ==> ask.wait_ms == p.wait_ms->0
                &&& ask.wait_ms <= 10000
                &&& filter_named(p.severity.deep_view()) == Ok::<SeverityFilter, Seq<char>>(
                    ask.filter,
                )
            },
            Err(_) => (p.file is Some && p.directory is Some) || (p.wait_ms is Some && p.wait_ms->0
                > 10000) || filter_named(p.severity.deep_view()) is Err,
        },
{
}

/// The diagnostics that are told are those that were kept, all of them and in the order of their
/// files and places, and are counted.
pub proof fn diagnostics_are_told_in_order(
    list: Seq<Diagnostic>,
    servers: Seq<ServerStatus>,
    complete: bool,
    unchecked: Seq<Seq<char>>,
    cut: bool,
)
    ensures
        ({
            let r = answer_of(list, servers, complete, unchecked, cut);
            &&& r.total == list.len()
            &&& r.diagnostics.to_multiset() == list.to_multiset()
            &&& r.diagnostics == sorted::<StoredDiagnostic>(list)
            &&& r.complete == complete
            &&& r.servers == servers
            &&& r.walk_truncated == cut
            &&& unchecked.len() == 0 ==> r.unchecked_files is None
            &&& unchecked.len() > 0 ==> r.unchecked_files == Some(unchecked)
        }),
{
    lemma_sorted_permutes::<StoredDiagnostic>(list);
}

/// Of two diagnostics the one in the earlier file comes first; in one file the one that starts
/// earlier, by line and by column.
pub proof fn diagnostics_go_by_file_and_place(a: Diagnostic, b: Diagnostic)
    ensures
        path_lt(a.file, b.file) ==> StoredDiagnostic::before(a, b),
        a.file == b.file && a.line < b.line ==> StoredDiagnostic::before(a, b) || path_lt(
            a.file,
            b.file,
        ),
        !path_lt(a.file, b.file) && !path_lt(b.file, a.file) && a.line == b.line && a.column
            < b.column ==> StoredDiagnostic::before(a, b) && !StoredDiagnostic::before(b, a),
        !path_lt(a.file, b.file) && !path_lt(b.file, a.file) && a.line < b.line
            ==> StoredDiagnostic::before(a, b) && !StoredDiagnostic::before(b, a),
{
}

proof fn lemma_error_files(list: Seq<Diagnostic>, key: Seq<char>)
    ensures
        error_files(list).contains(key) <==> exists|i: int|
            0 <= i < list.len() && (#[trigger] list[i]).severity == DiagnosticSeverity::Error
                && path_key(list[i].file) == key,
    decreases list.len(),
{
    if list.len() > 0 {
        let less = list.drop_last();
        let d = list.last();
        let rest = error_files(less);
        let now = error_files(list);
        lemma_error_files(less, key);
        assert(forall|i: int| 0 <= i < less.len() ==> less[i] == #[trigger] list[i]);
        assert(list[list.len() - 1] == d);
        if now.contains(key) {
            let k = choose|k: int| 0 <= k < now.len() && now[k] == key;
            if k < rest.len() {
                assert(rest[k] == key);
                let i = choose|i: int|
                    0 <= i < less.len() && (#[trigger] less[i]).severity
                        == DiagnosticSeverity::Error && path_key(less[i].file) == key;
                assert(list[i].severity == DiagnosticSeverity::Error);
            }
        }
        if exists|i: int|
            0 <= i < list.len() && (#[trigger] list[i]).severity == DiagnosticSeverity::Error
                && path_key(list[i].file) == key {
            let i = choose|i: int|
                0 <= i < list.len() && (#[trigger] list[i]).severity == DiagnosticSeverity::Error
                    && path_key(list[i].file) == key;
            if i < less.len() {
                assert(less[i].severity == DiagnosticSeverity::Error);
                let k = choose|k: int| 0 <= k < rest.len() && rest[k] == key;
                assert(now[k] == key);
            } else {
                assert(now[rest.len() as int] == key);
            }
        }
    }
}

/// The files that are counted as having errors are those with a diagnostic that is an error, each
/// once.
pub proof fn files_with_errors_are_counted_once(list: Seq<Diagnostic>, key: Seq<char>)
    ensures
        distinct(error_files(list)).no_duplicates(),
        distinct(error_files(list)).contains(key) <==> exists|i: int|
            0 <= i < list.len() && (#[trigger] list[i]).severity == DiagnosticSeverity::Error
                && path_key(list[i].file) == key,
{
    lemma_error_files(list, key);
    lemma_distinct(error_files(list));
}

/// The answers of servers are told by their names.
pub proof fn answers_are_told_by_name(o: PullFileOutcome, p: WorkspacePull)
    ensures
        match o {
            PullFileOutcome::Full => pull_status(o) == "pull_ok"@,
            PullFileOutcome::Unchanged => pull_status(o) == "pull_unchanged"@,
            PullFileOutcome::PullNotSupported => pull_status(o) == "push_only"@,
            PullFileOutcome::PartialNotSupported => pull_status(o) == "pull_partial_skipped"@,
            PullFileOutcome::RequestFailed { reason } => pull_status(o) == "pull_failed: "@
                + reason@,
        },
        match p {
            WorkspacePull::Failed => workspace_status(p) == "request_failed"@ && !workspace_done(p),
            WorkspacePull::Answered { supports_workspace, cancelled, complete } => {
                &&& !supports_workspace ==> workspace_status(p) == "workspace_pull_unsupported"@
                &&& supports_workspace && cancelled ==> workspace_status(p)
                    == "workspace_pull_timed_out"@
                &&& supports_workspace && !cancelled && complete ==> workspace_status(p)
                    == "workspace_pull_ok"@
                &&& supports_workspace && !cancelled && !complete ==> workspace_status(p)
                    == "workspace_pull_partial"@
                &&& workspace_done(p) <==> supports_workspace && !cancelled && complete
            },
        },
{
}

/// Of a directory the first two hundred files are looked at. Those of them that have a server and
/// are not known are told, and whether there were more entries behind them.
pub proof fn directories_are_looked_through_up_to_a_limit(
    entries: Seq<WalkEntry>,
    known: Seq<Seq<char>>,
    n: int,
)
    requires
        0 < n <= entries.len(),
    ensures
        ({
            let before = unchecked_upto(entries, known, n - 1);
            let now = unchecked_upto(entries, known, n);
            let e = entries[n - 1];
            &&& before.truncated ==> now == before
            &&& !before.truncated && before.looked_at >= 200 ==> now.truncated && now.files
                == before.files
            &&& !before.truncated && before.looked_at < 200 && e.is_file ==> now.looked_at
                == before.looked_at + 1 && !now.truncated && (e.has_server && !known.contains(
                path_key(e.path@),
            ) ==> now.files == before.files.push(e.path@)) && (!e.has_server || known.contains(
                path_key(e.path@),
            ) ==> now.files == before.files)
            &&& !before.truncated && before.looked_at < 200 && !e.is_file ==> now == before
        }),
        unchecked_upto(entries, known, 0).files.len() == 0,
        unchecked_upto(entries, known, 0).looked_at == 0,
        !unchecked_upto(entries, known, 0).truncated,
{
}

/// What is told of everything is what is stored and passes the filter; it is complete, and speaks of
/// no server.
pub proof fn requests_are_answered_by_their_scope(p: LspDiagnosticsParams, f: DiagnosticsFacts)
    requires
        diagnostics_ask(Ok(p)) is Ok,
    ensures
        ({
            let ask = diagnostics_ask(Ok(p))->Ok_0;
            let r = diagnostics_answer(Ok(p), f);
            &&& p.file is None && p.directory is None ==> r is Ok && r->Ok_0.complete
                && r->Ok_0.servers.len() == 0 && r->Ok_0.total == admitted(
                models(f.stored@),
                ask.filter,
            ).len() && r->Ok_0.unchecked_files is None
            &&& (p.file is Some || p.directory is Some) && f.refused is Some ==> r is Err
            &&& p.file is Some && f.refused is None ==> r == Ok::<DiagnosticsAnswer, RefusalModel>(
                file_answer((p.file->0)@, f, ask.filter, ask.wait_ms),
            )
            &&& p.directory is Some && f.refused is None ==> r == Ok::<
                DiagnosticsAnswer,
                RefusalModel,
            >(directory_answer(f, ask.filter))
        }),
{
    requests_are_about_one_thing(p);
}

/// What is fetched or made is not looked at. Servers are waited for where one cannot be asked, and
/// where none answered.
pub proof fn servers_that_cannot_be_asked_are_waited_for(
    name: Seq<char>,
    results: Seq<PullFileResult>,
    i: int,
)
    ensures
        noisy(name) <==> name == ".git"@ || name == "node_modules"@ || name == "target"@ || name
            == "dist"@ || name == "build"@ || name == ".next"@ || name == ".turbo"@,
        results.len() == 0 ==> waits_for_push(results),
        0 <= i < results.len() && results[i].outcome is PullNotSupported ==> waits_for_push(
            results,
        ),
        results.len() > 0 && (forall|k: int|
            0 <= k < results.len() ==> !((#[trigger] results[k]).outcome is PullNotSupported))
            ==> !waits_for_push(results),
{
}

} // verus!
