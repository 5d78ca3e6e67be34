//! What is written down of a background task, and how its state changes.
use vstd::prelude::*;

use crate::bash_background::BgTaskStatus;
use crate::paths::{join_path, path_join};
use crate::text::{owned, parse_i32, same, signed_value, text2, trim, trimmed};

verus! {

/// The version of the written form.
pub const SCHEMA_VERSION: u32 = 1;

/// Where the files of one task are.
#[derive(Debug, Clone)]
pub struct TaskPaths {
    pub dir: String,
    pub json: String,
    pub stdout: String,
    pub stderr: String,
    pub exit: String,
}

/// The model of a `TaskPaths`.
pub ghost struct TaskFiles {
    pub dir: Seq<char>,
    pub json: Seq<char>,
    pub stdout: Seq<char>,
    pub stderr: Seq<char>,
    pub exit: Seq<char>,
}

impl TaskPaths {
    /// The same paths once more.
    pub fn copy(&self) -> (r: Self)
        ensures
            r.deep_view() == self.deep_view(),
    {
        TaskPaths {
            dir: owned(self.dir.as_str()),
            json: owned(self.json.as_str()),
            stdout: owned(self.stdout.as_str()),
            stderr: owned(self.stderr.as_str()),
            exit: owned(self.exit.as_str()),
        }
    }
}

impl DeepView for TaskPaths {
    type V = TaskFiles;

    open spec fn deep_view(&self) -> TaskFiles {
        TaskFiles {
            dir: self.dir@,
            json: self.json@,
            stdout: self.stdout@,
            stderr: self.stderr@,
            exit: self.exit@,
        }
    }
}

/// What is written down of a task.
#[derive(Debug, Clone)]
pub struct PersistedTask {
    pub schema_version: u32,
    pub task_id: String,
    pub session_id: String,
    pub command: String,
    pub workdir: String,
    pub status: BgTaskStatus,
    pub started_at: u64,
    pub finished_at: Option<u64>,
    pub duration_ms: Option<u64>,
    pub timeout_ms: Option<u64>,
    pub exit_code: Option<i32>,
    pub child_pid: Option<u32>,
    pub pgid: Option<i32>,
    pub completion_delivered: bool,
    pub status_reason: Option<String>,
}

/// The model of a `PersistedTask`.
#[verifier::ext_equal]
pub ghost struct Task {
    pub schema_version: u32,
    pub task_id: Seq<char>,
    pub session_id: Seq<char>,
    pub command: Seq<char>,
    pub workdir: Seq<char>,
    pub status: BgTaskStatus,
    pub started_at: u64,
    pub finished_at: Option<u64>,
    pub duration_ms: Option<u64>,
    pub timeout_ms: Option<u64>,
    pub exit_code: Option<i32>,
    pub child_pid: Option<u32>,
    pub pgid: Option<i32>,
    pub completion_delivered: bool,
    pub status_reason: Option<Seq<char>>,
}

/// The model of an optional text.
pub open spec fn optional(s: Option<String>) -> Option<Seq<char>> {
    match s {
        Some(t) => Some(t@),
        None => None,
    }
}

impl DeepView for PersistedTask {
    type V = Task;

    open spec fn deep_view(&self) -> Task {
        Task {
            schema_version: self.schema_version,
            task_id: self.task_id@,
            session_id: self.session_id@,
            command: self.command@,
            workdir: self.workdir@,
            status: self.status,
            started_at: self.started_at,
            finished_at: self.finished_at,
            duration_ms: self.duration_ms,
            timeout_ms: self.timeout_ms,
            exit_code: self.exit_code,
            child_pid: self.child_pid,
            pgid: self.pgid,
            completion_delivered: self.completion_delivered,
            status_reason: optional(self.status_reason),
        }
    }
}

/// What the wrapper round a command left behind when the command ended.
#[derive(Debug, Clone, Copy, PartialEq, Eq, Structural)]
pub enum ExitMarker {
    Code(i32),
    Killed,
}

/// A task that is about to be started.
pub open spec fn started_task(
    task_id: Seq<char>,
    session_id: Seq<char>,
    command: Seq<char>,
    workdir: Seq<char>,
    timeout_ms: Option<u64>,
    now: u64,
) -> Task {
    Task {
        schema_version: SCHEMA_VERSION,
        task_id,
        session_id,
        command,
        workdir,
        status: BgTaskStatus::Starting,
        started_at: now,
        finished_at: None,
        duration_ms: None,
        timeout_ms,
        exit_code: None,
        child_pid: None,
        pgid: None,
        completion_delivered: true,
        status_reason: None,
    }
}

/// The task once it runs.
pub open spec fn running_task(t: Task, child_pid: u32, pgid: i32) -> Task {
    Task {
        status: BgTaskStatus::Running,
        child_pid: Some(child_pid),
        pgid: Some(pgid),
        ..t
    }
}

/// The milliseconds from one instant to another, none where the second comes first.
pub open spec fn elapsed(from: u64, to: u64) -> u64 {
    if to >= from {
        (to - from) as u64
    } else {
        0
    }
}

/// The task once it has ended. Its end is still to be told.
pub open spec fn ended_task(
    t: Task,
    status: BgTaskStatus,
    exit_code: Option<i32>,
    reason: Option<Seq<char>>,
    now: u64,
) -> Task {
    Task {
        status,
        exit_code,
        finished_at: Some(now),
        duration_ms: Some(elapsed(t.started_at, now)),
        child_pid: None,
        status_reason: reason,
        completion_delivered: false,
        ..t
    }
}

/// What is written where `updated` is to take the place of `stored`: of a task that has
/// ended only whether its end was told can change.
pub open spec fn update_of(stored: Task, updated: Task) -> Task {
    if stored.status.terminal() {
        Task { completion_delivered: updated.completion_delivered, ..stored }
    } else {
        updated
    }
}

impl PersistedTask {
    /// A task that is about to be started now.
    pub fn starting(
        task_id: String,
        session_id: String,
        command: String,
        workdir: String,
        timeout_ms: Option<u64>,
    ) -> (r: Self)
        ensures
            r.deep_view() == started_task(
                task_id@,
                session_id@,
                command@,
                workdir@,
                timeout_ms,
                r.started_at,
            ),
    {
        Self::starting_at(task_id, session_id, command, workdir, timeout_ms, unix_millis())
    }

    /// A task that is about to be started at an instant.
    pub fn starting_at(
        task_id: String,
        session_id: String,
        command: String,
        workdir: String,
        timeout_ms: Option<u64>,
        now: u64,
    ) -> (r: Self)
        ensures
            r.deep_view() == started_task(
                task_id@,
                session_id@,
                command@,
                workdir@,
                timeout_ms,
                now,
            ),
    {
        PersistedTask {
            schema_version: SCHEMA_VERSION,
            task_id,
            session_id,
            command,
            workdir,
            status: BgTaskStatus::Starting,
            started_at: now,
            finished_at: None,
            duration_ms: None,
            timeout_ms,
            exit_code: None,
            child_pid: None,
            pgid: None,
            completion_delivered: true,
            status_reason: None,
        }
    }

    /// The same task once more.
    pub fn copy(&self) -> (r: Self)
        ensures
            r.deep_view() == self.deep_view(),
    {
        PersistedTask {
            schema_version: self.schema_version,
            task_id: owned(self.task_id.as_str()),
            session_id: owned(self.session_id.as_str()),
            command: owned(self.command.as_str()),
            workdir: owned(self.workdir.as_str()),
            status: self.status,
            started_at: self.started_at,
            finished_at: self.finished_at,
            duration_ms: self.duration_ms,
            timeout_ms: self.timeout_ms,
            exit_code: self.exit_code,
            child_pid: self.child_pid,
            pgid: self.pgid,
            completion_delivered: self.completion_delivered,
            status_reason: match &self.status_reason {
                Some(s) => Some(owned(s.as_str())),
                None => None,
            },
        }
    }

    /// Whether nothing more happens to the task.
    pub fn is_terminal(&self) -> (r: bool)
        ensures
            r == self.deep_view().status.terminal(),
    {
        self.status.is_terminal()
    }

    /// Notes that the task runs.
    pub fn mark_running(&mut self, child_pid: u32, pgid: i32)
        ensures
            final(self).deep_view() == running_task(old(self).deep_view(), child_pid, pgid),
    {
        self.status = BgTaskStatus::Running;
        self.child_pid = Some(child_pid);
        self.pgid = Some(pgid);
    }

    /// Notes that the task has ended now.
    pub fn mark_terminal(
        &mut self,
        status: BgTaskStatus,
        exit_code: Option<i32>,
        reason: Option<String>,
    )
        ensures
            final(self).finished_at is Some,
            final(self).deep_view() == ended_task(
                old(self).deep_view(),
                status,
                exit_code,
                optional(reason),
                final(self).finished_at->0,
            ),
    {
        self.mark_terminal_at(status, exit_code, reason, unix_millis());
    }

    /// Notes that the task ended at an instant.
    pub fn mark_terminal_at(
        &mut self,
        status: BgTaskStatus,
        exit_code: Option<i32>,
        reason: Option<String>,
        now: u64,
    )
        ensures
            final(self).deep_view() == ended_task(
                old(self).deep_view(),
                status,
                exit_code,
                optional(reason),
                now,
            ),
    {
        self.status = status;
        self.exit_code = exit_code;
        self.finished_at = Some(now);
        self.duration_ms = Some(now.saturating_sub(self.started_at));
        self.child_pid = None;
        self.status_reason = reason;
        self.completion_delivered = false;
    }
}

/// The directory of a session's tasks. `session_hash` stands for the session in paths.
pub fn session_tasks_dir(storage_dir: &str, session_hash: &str) -> (r: String)
    ensures
        r@ == path_join(path_join(storage_dir@, "bash-tasks"@), session_hash@),
{
    join_path(join_path(storage_dir, "bash-tasks").as_str(), session_hash)
}

/// Where the files of a task are.
pub open spec fn files_of_task(
    storage_dir: Seq<char>,
    session_hash: Seq<char>,
    task_id: Seq<char>,
) -> TaskFiles {
    let dir = path_join(path_join(storage_dir, "bash-tasks"@), session_hash);
    TaskFiles {
        dir,
        json: path_join(dir, task_id + ".json"@),
        stdout: path_join(dir, task_id + ".stdout"@),
        stderr: path_join(dir, task_id + ".stderr"@),
        exit: path_join(dir, task_id + ".exit"@),
    }
}

/// Where the files of a task are.
pub fn task_paths(storage_dir: &str, session_hash: &str, task_id: &str) -> (r: TaskPaths)
    ensures
        r.deep_view() == files_of_task(storage_dir@, session_hash@, task_id@),
{
    let dir = session_tasks_dir(storage_dir, session_hash);
    TaskPaths {
        json: join_path(dir.as_str(), text2(task_id, ".json").as_str()),
        stdout: join_path(dir.as_str(), text2(task_id, ".stdout").as_str()),
        stderr: join_path(dir.as_str(), text2(task_id, ".stderr").as_str()),
        exit: join_path(dir.as_str(), text2(task_id, ".exit").as_str()),
        dir,
    }
}

/// What is to be written where `updated` came out of `stored`, the task as it is written
/// now: a task that has ended keeps everything but whether its end was told.
pub fn update_task(stored: PersistedTask, updated: PersistedTask) -> (r: PersistedTask)
    ensures
        r.deep_view() == update_of(stored.deep_view(), updated.deep_view()),
{
    if stored.is_terminal() {
        let mut task = stored;
        task.completion_delivered = updated.completion_delivered;
        task
    } else {
        updated
    }
}

/// What is to be written into a task's exit marker when the task is killed; nothing where
/// it already has one.
pub fn write_kill_marker_if_absent(exists: bool) -> (r: Option<&'static str>)
    ensures
        match r {
            Some(text) => !exists && text@ == "killed"@,
            None => exists,
        },
{
    if exists {
        None
    } else {
        Some("killed")
    }
}

/// What an exit marker's text says: white space round it does not count, and a text that
/// is neither `killed` nor a number says nothing.
pub open spec fn marker_of(content: Seq<char>) -> Option<ExitMarker> {
    let text = trimmed(content);
    if text == "killed"@ {
        Some(ExitMarker::Killed)
    } else {
        match signed_value(text) {
            Some(code) => if i32::MIN <= code <= i32::MAX {
                Some(ExitMarker::Code(code as i32))
            } else {
                None
            },
            None => None,
        }
    }
}

/// What an exit marker says; `None` where there is none.
pub fn read_exit_marker(content: Option<&str>) -> (r: Option<ExitMarker>)
    ensures
        r == match content {
            Some(text) => marker_of(text@),
            None => None,
        },
{
    let content = match content {
        Some(c) => c,
        None => {
            return None;
        },
    };
    let text = trim(content);
    if same(text.as_str(), "killed") {
        return Some(ExitMarker::Killed);
    }
    match parse_i32(text.as_str()) {
        Some(code) => Some(ExitMarker::Code(code)),
        None => None,
    }
}

/// `std::time::SystemTime::elapsed` since the Unix epoch, in milliseconds; `None` where the
/// clock stands before the epoch. Nothing is claimed of the result: it is the time.
#[verifier::external_body]
fn clock_millis() -> (r: Option<u128>)
{
    std::time::UNIX_EPOCH.elapsed().ok().map(|d| d.as_millis())
}

/// A count of milliseconds as it is stored: its lowest bits, and zero for none.
pub fn stored_millis(millis: Option<u128>) -> (r: u64)
    ensures
        r == match millis {
            Some(n) => n % 0x1_0000_0000_0000_0000,
            None => 0,
        },
{
    match millis {
        Some(n) => {
            assert(#[verifier::truncate] (n as u64) == n % 0x1_0000_0000_0000_0000) by (bit_vector);
            #[verifier::truncate] (n as u64)
        },
        None => 0,
    }
}

/// The milliseconds since the Unix epoch, now.
pub fn unix_millis() -> u64 {
    stored_millis(clock_millis())
}

/// A task that has ended stays as it ended, whatever is written later.
pub proof fn end_is_final(stored: Task, updated: Task)
    requires
        stored.status.terminal(),
    ensures
        update_of(stored, updated) == (Task {
            completion_delivered: updated.completion_delivered,
            ..stored
        }),
        update_of(stored, updated).status == stored.status,
        update_of(update_of(stored, updated), stored) == stored,
{
}

/// A task that is about to start has what it was asked for with and nothing of an end; one that runs
/// has its process, and is otherwise as it was.
pub proof fn tasks_start_as_they_were_asked_for(
    task_id: Seq<char>,
    session_id: Seq<char>,
    command: Seq<char>,
    workdir: Seq<char>,
    timeout_ms: Option<u64>,
    now: u64,
    pid: u32,
    pgid: i32,
)
    ensures
        ({
            let t = started_task(task_id, session_id, command, workdir, timeout_ms, now);
            let r = running_task(t, pid, pgid);
            &&& t.task_id == task_id && t.session_id == session_id && t.command == command
                && t.workdir == workdir && t.timeout_ms == timeout_ms && t.started_at == now
            &&& t.status is Starting && t.exit_code is None && t.finished_at is None
                && t.duration_ms is None && t.child_pid is None
            &&& r.status is Running && r.child_pid == Some(pid) && r.pgid == Some(pgid)
            &&& r.task_id == task_id && r.command == command && r.started_at == now
        }),
{
}

/// A task that has ended has its status, its exit code, when it ended and how long it took, and its
/// end is still to be told.
pub proof fn tasks_end_with_their_time(
    t: Task,
    status: BgTaskStatus,
    exit_code: Option<i32>,
    reason: Option<Seq<char>>,
    now: u64,
)
    ensures
        ({
            let r = ended_task(t, status, exit_code, reason, now);
            &&& r.status == status
            &&& r.exit_code == exit_code
            &&& r.status_reason == reason
            &&& r.finished_at == Some(now)
            &&& now >= t.started_at ==> r.duration_ms is Some && r.duration_ms->0 == now
                - t.started_at
            &&& now < t.started_at ==> r.duration_ms == Some(0u64)
            &&& !r.completion_delivered
            &&& r.child_pid is None
            &&& r.task_id == t.task_id && r.session_id == t.session_id && r.command == t.command
                && r.workdir == t.workdir && r.started_at == t.started_at
        }),
{
}

/// The files of a task stand together, under the task's name, each with an ending of its own.
pub proof fn files_of_tasks_stand_under_their_name(
    storage_dir: Seq<char>,
    session_hash: Seq<char>,
    task_id: Seq<char>,
)
    ensures
        ({
            let r = files_of_task(storage_dir, session_hash, task_id);
            &&& r.dir == path_join(path_join(storage_dir, "bash-tasks"@), session_hash)
            &&& r.json == path_join(r.dir, task_id + ".json"@)
            &&& r.stdout == path_join(r.dir, task_id + ".stdout"@)
            &&& r.stderr == path_join(r.dir, task_id + ".stderr"@)
            &&& r.exit == path_join(r.dir, task_id + ".exit"@)
        }),
{
}

/// A marker says that a task was killed, or its exit code; anything else says nothing.
pub proof fn markers_say_how_a_task_ended(content: Seq<char>)
    ensures
        match marker_of(content) {
            Some(ExitMarker::Killed) => trimmed(content) == "killed"@,
            Some(ExitMarker::Code(code)) => trimmed(content) != "killed"@ && signed_value(
                trimmed(content),
            ) == Some(code as int),
            None => trimmed(content) != "killed"@ && (signed_value(trimmed(content)) is None
                || signed_value(trimmed(content))->0 < i32::MIN || signed_value(
                trimmed(content),
            )->0 > i32::MAX),
        },
{
}

} // verus!
