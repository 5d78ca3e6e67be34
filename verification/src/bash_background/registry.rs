//! The background tasks that are known, and the ends that are still to be told.
use vstd::prelude::*;

use crate::bash_background::persistence::{
    elapsed, ended_task, optional, update_of, update_task, ExitMarker, PersistedTask, Task,
    TaskFiles, TaskPaths,
};
use crate::bash_background::{BgTaskInfo, BgTaskStatus, TaskInfo};
use crate::commands::refusal::given_text;
use crate::models::{
    get_entry, group_models, key_index, lemma_key_index, lemma_table_get_set,
    lemma_table_get_set_other, lemma_unique_keys, models, set_entry, table_get, table_set,
    unique_keys, Entry,
};
use crate::text::{decimal, decimal_text, owned, same, text2, text5, texts};

verus! {

/// How long a task can run where nothing else is said, in milliseconds.
pub const DEFAULT_BG_TIMEOUT_MS: u64 = 1800000;

/// After how long a task that is written down as running counts as lost, in milliseconds.
pub const STALE_RUNNING_AFTER_MS: u64 = 86400000;

/// How much of the output is told with the end of a task, in bytes.
pub const BG_COMPLETION_PREVIEW_BYTES: usize = 300;

/// How often reminders of running tasks come where nothing else is said, in milliseconds.
pub const DEFAULT_REMINDER_INTERVAL_MS: u64 = 600000;

/// The exit code of a task that ran for too long.
pub const TIMEOUT_EXIT_CODE: i32 = 124;

/// How many names are tried for a new task.
pub const ID_ATTEMPTS: usize = 32;

/// A task of the registry. Instants are counted in milliseconds of one clock.
pub struct BgTask {
    pub metadata: PersistedTask,
    pub paths: TaskPaths,
    pub started: u64,
    pub last_reminder_at: Option<u64>,
    pub terminal_at: Option<u64>,
    /// Whether the process is a child that can still be waited for.
    pub has_child: bool,
    pub detached: bool,
    pub notify_on_completion: bool,
    /// Whether the output is told in a compressed form once the task has ended.
    pub compressed: bool,
}

/// The model of a `BgTask`.
pub ghost struct TaskModel {
    pub task: Task,
    pub paths: TaskFiles,
    pub started: u64,
    pub last_reminder_at: Option<u64>,
    pub terminal_at: Option<u64>,
    pub has_child: bool,
    pub detached: bool,
    pub notify: bool,
    pub compressed: bool,
}

impl DeepView for BgTask {
    type V = TaskModel;

    open spec fn deep_view(&self) -> TaskModel {
        TaskModel {
            task: self.metadata.deep_view(),
            paths: self.paths.deep_view(),
            started: self.started,
            last_reminder_at: self.last_reminder_at,
            terminal_at: self.terminal_at,
            has_child: self.has_child,
            detached: self.detached,
            notify: self.notify_on_completion,
            compressed: self.compressed,
        }
    }
}

impl BgTask {
    /// The same task once more.
    pub fn copy(&self) -> (r: Self)
        ensures
            r.deep_view() == self.deep_view(),
    {
        BgTask {
            metadata: self.metadata.copy(),
            paths: self.paths.copy(),
            started: self.started,
            last_reminder_at: self.last_reminder_at,
            terminal_at: self.terminal_at,
            has_child: self.has_child,
            detached: self.detached,
            notify_on_completion: self.notify_on_completion,
            compressed: self.compressed,
        }
    }

    /// Whether the task runs.
    pub fn is_running(&self) -> (r: bool)
        ensures
            r == self.deep_view().task.status is Running,
    {
        matches!(self.metadata.status, BgTaskStatus::Running)
    }
}

/// The end of a task that is to be told.
pub struct BgCompletion {
    pub task_id: String,
    pub session_id: String,
    pub status: BgTaskStatus,
    pub exit_code: Option<i32>,
    pub command: String,
    pub output_preview: String,
    pub output_truncated: bool,
}

/// The model of a `BgCompletion`.
pub ghost struct Completion {
    pub task_id: Seq<char>,
    pub session_id: Seq<char>,
    pub status: BgTaskStatus,
    pub exit_code: Option<i32>,
    pub command: Seq<char>,
    pub preview: Seq<char>,
    pub truncated: bool,
}

impl DeepView for BgCompletion {
    type V = Completion;

    open spec fn deep_view(&self) -> Completion {
        Completion {
            task_id: self.task_id@,
            session_id: self.session_id@,
            status: self.status,
            exit_code: self.exit_code,
            command: self.command@,
            preview: self.output_preview@,
            truncated: self.output_truncated,
        }
    }
}

impl BgCompletion {
    /// The same end once more.
    pub fn copy(&self) -> (r: Self)
        ensures
            r.deep_view() == self.deep_view(),
    {
        BgCompletion {
            task_id: owned(self.task_id.as_str()),
            session_id: owned(self.session_id.as_str()),
            status: self.status,
            exit_code: self.exit_code,
            command: owned(self.command.as_str()),
            output_preview: owned(self.output_preview.as_str()),
            output_truncated: self.output_truncated,
        }
    }
}

/// What is told of a task.
pub struct BgTaskSnapshot {
    pub info: BgTaskInfo,
    pub exit_code: Option<i32>,
    pub child_pid: Option<u32>,
    pub workdir: String,
    pub output_preview: String,
    pub output_truncated: bool,
    pub output_path: Option<String>,
    pub stderr_path: Option<String>,
}

/// The model of a `BgTaskSnapshot`.
pub ghost struct Snapshot {
    pub info: TaskInfo,
    pub exit_code: Option<i32>,
    pub child_pid: Option<u32>,
    pub workdir: Seq<char>,
    pub preview: Seq<char>,
    pub truncated: bool,
    pub output_path: Option<Seq<char>>,
    pub stderr_path: Option<Seq<char>>,
}

impl DeepView for BgTaskSnapshot {
    type V = Snapshot;

    open spec fn deep_view(&self) -> Snapshot {
        Snapshot {
            info: self.info.deep_view(),
            exit_code: self.exit_code,
            child_pid: self.child_pid,
            workdir: self.workdir@,
            preview: self.output_preview@,
            truncated: self.output_truncated,
            output_path: self.output_path.deep_view(),
            stderr_path: self.stderr_path.deep_view(),
        }
    }
}

/// The end of a task's output, as it is and in its compressed form.
pub struct Preview {
    pub raw: String,
    pub compressed: String,
    pub truncated: bool,
}

/// The form of the output that is told.
pub open spec fn preview_text(p: Preview, compressed: bool) -> Seq<char> {
    if compressed {
        p.compressed@
    } else {
        p.raw@
    }
}

fn choose_preview(p: &Preview, compressed: bool) -> (r: String)
    ensures
        r@ == preview_text(*p, compressed),
{
    if compressed {
        owned(p.compressed.as_str())
    } else {
        owned(p.raw.as_str())
    }
}

/// The background tasks that are known, and the ends that are still to be told.
pub struct BgTaskRegistry {
    tasks: Vec<Entry<BgTask>>,
    completions: Vec<BgCompletion>,
    reminders_enabled: bool,
    reminder_interval_ms: u64,
    watchdog_started: bool,
    shutdown: bool,
}

/// The model of a `BgTaskRegistry`.
#[verifier::ext_equal]
pub ghost struct Registry {
    pub tasks: Seq<(Seq<char>, TaskModel)>,
    pub completions: Seq<Completion>,
    pub reminders: bool,
    pub interval: u64,
    pub watchdog: bool,
    pub shutdown: bool,
}

impl View for BgTaskRegistry {
    type V = Registry;

    closed spec fn view(&self) -> Registry {
        Registry {
            tasks: models(self.tasks@),
            completions: models(self.completions@),
            reminders: self.reminders_enabled,
            interval: self.reminder_interval_ms,
            watchdog: self.watchdog_started,
            shutdown: self.shutdown,
        }
    }
}

/// Whether the end of a task is among those that are still to be told.
pub open spec fn is_queued(completions: Seq<Completion>, task_id: Seq<char>) -> bool {
    exists|i: int| 0 <= i < completions.len() && (#[trigger] completions[i]).task_id == task_id
}

/// Whether every task has one name, and no end is to be told twice.
pub open spec fn sound(g: Registry) -> bool {
    &&& unique_keys(g.tasks)
    &&& forall|i: int|
        0 <= i < g.tasks.len() ==> (#[trigger] g.tasks[i]).1.task.task_id == g.tasks[i].0
    &&& forall|i: int, j: int|
        0 <= i < j < g.completions.len() ==> (#[trigger] g.completions[i]).task_id != (
        #[trigger] g.completions[j]).task_id
}

/// A task of a session.
pub open spec fn task_of(g: Registry, task_id: Seq<char>, session: Seq<char>) -> Option<TaskModel> {
    match table_get(g.tasks, task_id) {
        Some(t) => if t.task.session_id == session {
            Some(t)
        } else {
            None
        },
        None => None,
    }
}

/// How many tasks run.
pub open spec fn running(tasks: Seq<(Seq<char>, TaskModel)>) -> nat
    decreases tasks.len(),
{
    if tasks.len() == 0 {
        0
    } else {
        running(tasks.drop_last()) + (if tasks.last().1.task.status is Running {
            1nat
        } else {
            0nat
        })
    }
}

/// What is told of the end of a task.
pub open spec fn completion_of(t: Task, preview: Seq<char>, truncated: bool) -> Completion {
    Completion {
        task_id: t.task_id,
        session_id: t.session_id,
        status: t.status,
        exit_code: t.exit_code,
        command: t.command,
        preview,
        truncated,
    }
}

/// Whether the end of a task is to be told now.
pub open spec fn to_be_told(g: Registry, t: Task) -> bool {
    t.status.terminal() && !t.completion_delivered && !is_queued(g.completions, t.task_id)
}

/// The registry once the end of a task was put among those that are to be told.
pub open spec fn enqueued(g: Registry, t: Task, preview: Seq<char>, truncated: bool) -> Registry {
    if to_be_told(g, t) {
        Registry { completions: g.completions.push(completion_of(t, preview, truncated)), ..g }
    } else {
        g
    }
}

/// A task once its process ended and left a marker behind.
pub open spec fn marked_task(t: Task, marker: ExitMarker, reason: Option<Seq<char>>, now: u64) -> Task {
    match marker {
        ExitMarker::Code(code) => ended_task(
            t,
            if code == 0 {
                BgTaskStatus::Completed
            } else {
                BgTaskStatus::Failed
            },
            Some(code),
            reason,
            now,
        ),
        ExitMarker::Killed => ended_task(t, BgTaskStatus::Killed, None, reason, now),
    }
}

/// A task once its process ended and left a marker behind.
pub fn terminal_metadata_from_marker(
    metadata: PersistedTask,
    marker: ExitMarker,
    reason: Option<String>,
    now: u64,
) -> (r: PersistedTask)
    ensures
        r.deep_view() == marked_task(metadata.deep_view(), marker, optional(reason), now),
{
    let mut task = metadata;
    match marker {
        ExitMarker::Code(code) => {
            let status = if code == 0 {
                BgTaskStatus::Completed
            } else {
                BgTaskStatus::Failed
            };
            task.mark_terminal_at(status, Some(code), reason, now);
        },
        ExitMarker::Killed => {
            task.mark_terminal_at(BgTaskStatus::Killed, None, reason, now);
        },
    }
    task
}

/// A task of the registry that has ended at an instant, with what is written down of it.
pub open spec fn finished(t: TaskModel, task: Task, now: u64) -> TaskModel {
    TaskModel {
        task,
        terminal_at: match t.terminal_at {
            Some(at) => Some(at),
            None => Some(now),
        },
        ..t
    }
}

/// How many bytes the name of a task is made of.
pub const SLUG_BYTES: usize = 8;

/// Eight bytes as they stand in the name of a task.
pub open spec fn slug(b: Seq<u8>) -> Seq<char>
    recommends
        b.len() == SLUG_BYTES,
{
    "bgb-"@ + hex_text(b)
}

/// The lower-case hexadecimal digit of a number below sixteen.
pub open spec fn hex_digit(d: int) -> char {
    if d < 10 {
        ('0' as int + d) as char
    } else {
        ('a' as int + (d - 10)) as char
    }
}

/// Bytes in hexadecimal digits, two for each.
pub open spec fn hex_text(b: Seq<u8>) -> Seq<char>
    decreases b.len(),
{
    if b.len() == 0 {
        Seq::empty()
    } else {
        hex_text(b.drop_last()).push(hex_digit(b.last() as int / 16)).push(
            hex_digit(b.last() as int % 16),
        )
    }
}

fn digit_of(d: u8) -> (r: char)
    requires
        d < 16,
    ensures
        r == hex_digit(d as int),
{
    if d < 10 {
        (48u8 + d) as char
    } else {
        (97u8 + (d - 10)) as char
    }
}

/// The name of a task, from eight bytes.
pub fn write_slug(b: &[u8]) -> (r: String)
    ensures
        r@ == slug(b@),
{
    let mut out = owned("bgb-");
    let mut i: usize = 0;
    assert(b@.take(0) =~= Seq::<u8>::empty());
    assert("bgb-"@ + hex_text(b@.take(0)) =~= "bgb-"@);
    while i < b.len()
        invariant
            i <= b.len(),
            out@ == "bgb-"@ + hex_text(b@.take(i as int)),
        decreases b.len() - i,
    {
        assert(b@.take(i + 1).drop_last() =~= b@.take(i as int));
        assert(b@.take(i + 1).last() == b@[i as int]);
        out.push(digit_of(b[i] / 16));
        out.push(digit_of(b[i] % 16));
        assert(out@ =~= "bgb-"@ + hex_text(b@.take(i + 1)));
        i = i + 1;
    }
    assert(b@.take(i as int) =~= b@);
    out
}

/// Calls `getrandom::fill` for a number of bytes. Nothing is claimed of the bytes but how many
/// there are; there are none where the system has no entropy.
#[verifier::external_body]
fn random_bytes(n: usize) -> (r: Option<Vec<u8>>)
    ensures
        r is Some ==> (r->0)@.len() == n,
{
    let mut bytes = vec![0u8; n];
    getrandom::fill(&mut bytes).ok().map(|_| bytes)
}

/// Whether a text is made as the name of a task: two hexadecimal digits for each of eight bytes.
pub open spec fn is_slug(name: Seq<char>) -> bool {
    exists|b: Seq<u8>| b.len() == SLUG_BYTES && name == #[trigger] slug(b)
}

/// The bytes of a number, the lowest first.
pub fn number_bytes(n: u64) -> (r: [u8; 8])
    ensures
        r@ == Seq::new(8, |i: int| byte_of(n, i)),
{
    let r: [u8; 8] = [
        (n % 256) as u8,
        (n / 0x100 % 256) as u8,
        (n / 0x1_0000 % 256) as u8,
        (n / 0x100_0000 % 256) as u8,
        (n / 0x1_0000_0000 % 256) as u8,
        (n / 0x100_0000_0000 % 256) as u8,
        (n / 0x1_0000_0000_0000 % 256) as u8,
        (n / 0x100_0000_0000_0000) as u8,
    ];
    assert(r@ =~= Seq::new(8, |i: int| byte_of(n, i)));
    r
}

/// One of the eight bytes of a number, counted from the lowest.
pub open spec fn byte_of(n: u64, i: int) -> u8 {
    (if i <= 0 {
        n % 256
    } else if i == 1 {
        n / 0x100 % 256
    } else if i == 2 {
        n / 0x1_0000 % 256
    } else if i == 3 {
        n / 0x100_0000 % 256
    } else if i == 4 {
        n / 0x1_0000_0000 % 256
    } else if i == 5 {
        n / 0x100_0000_0000 % 256
    } else if i == 6 {
        n / 0x1_0000_0000_0000 % 256
    } else {
        n / 0x100_0000_0000_0000
    }) as u8
}

/// A new name for a task; the bytes of `fallback` are used where the system has no entropy.
pub fn random_slug(fallback: u64) -> (r: String)
    ensures
        is_slug(r@),
{
    match random_bytes(SLUG_BYTES) {
        Some(b) => {
            let ghost given = b@;
            let r = write_slug(b.as_slice());
            assert(r@ == slug(given));
            r
        },
        None => {
            let b = number_bytes(fallback);
            let ghost given = b@;
            let r = write_slug(&b);
            assert(r@ == slug(given));
            r
        },
    }
}

/// Whether a name is free: no task has it, and no end that is to be told.
pub open spec fn name_free(reg: Registry, name: Seq<char>) -> bool {
    table_get(reg.tasks, name) is None && !is_queued(reg.completions, name)
}

/// The first of some names that is free, where one is.
pub open spec fn first_free_name(reg: Registry, names: Seq<Seq<char>>) -> Option<Seq<char>>
    decreases names.len(),
{
    if names.len() == 0 {
        None
    } else if name_free(reg, names[0]) {
        Some(names[0])
    } else {
        first_free_name(reg, names.drop_first())
    }
}

proof fn lemma_first_free_is_free(reg: Registry, names: Seq<Seq<char>>)
    ensures
        match first_free_name(reg, names) {
            Some(id) => name_free(reg, id) && names.contains(id),
            None => forall|i: int| 0 <= i < names.len() ==> !name_free(reg, #[trigger] names[i]),
        },
    decreases names.len(),
{
    if names.len() > 0 {
        let rest = names.drop_first();
        lemma_first_free_is_free(reg, rest);
        assert(names.contains(names[0]));
        if !name_free(reg, names[0]) {
            match first_free_name(reg, rest) {
                Some(id) => {
                    let k = choose|k: int| 0 <= k < rest.len() && rest[k] == id;
                    assert(names[k + 1] == id);
                },
                None => {
                    assert forall|i: int| 0 <= i < names.len() implies !name_free(
                        reg,
                        #[trigger] names[i],
                    ) by {
                        if i > 0 {
                            assert(rest[i - 1] == names[i]);
                        }
                    }
                },
            }
        }
    }
}

/// The timeout of a task, in milliseconds.
pub fn effective_timeout(timeout_ms: Option<u64>) -> (r: u64)
    ensures
        r == (match timeout_ms {
            Some(n) => n,
            None => DEFAULT_BG_TIMEOUT_MS,
        }),
{
    match timeout_ms {
        Some(n) => n,
        None => DEFAULT_BG_TIMEOUT_MS,
    }
}

/// Whether a task that is written down as running counts as lost.
pub open spec fn stale(t: Task, now: u64) -> bool {
    elapsed(t.started_at, now) > STALE_RUNNING_AFTER_MS
}

/// Whether a task that is written down as running counts as lost.
pub fn running_metadata_is_stale(metadata: &PersistedTask, now: u64) -> (r: bool)
    ensures
        r == stale(metadata.deep_view(), now),
{
    now.saturating_sub(metadata.started_at) > STALE_RUNNING_AFTER_MS
}

/// What is written down of a task, and how its end is told.
pub struct StoredTask {
    pub metadata: PersistedTask,
    pub notify_on_completion: bool,
    pub compressed: bool,
}

/// What was found of a task that is written down.
pub struct ReplayFacts {
    /// What its exit marker says.
    pub marker: Option<ExitMarker>,
    /// Whether there is an exit marker.
    pub marker_exists: bool,
    /// Whether its process is alive.
    pub alive: bool,
}

/// A task that was taken up again.
pub open spec fn rehydrated(s: StoredTask, paths: TaskFiles, now: u64) -> TaskModel {
    TaskModel {
        task: s.metadata.deep_view(),
        paths,
        started: now,
        last_reminder_at: None,
        terminal_at: if s.metadata.status.terminal() {
            Some(now)
        } else {
            None
        },
        has_child: false,
        detached: true,
        notify: s.notify_on_completion,
        compressed: s.compressed,
    }
}

/// How a task that is written down ended in the meantime, where it did: one that was never
/// started, one that is lost, one that left a marker, and one whose process is gone.
pub open spec fn ended_meanwhile(t: Task, f: ReplayFacts, now: u64) -> Option<Task> {
    if t.status is Starting {
        Some(ended_task(t, BgTaskStatus::Failed, None, Some("spawn aborted"@), now))
    } else if !(t.status is Running) {
        None
    } else if stale(t, now) {
        Some(ended_task(t, BgTaskStatus::Killed, None, Some("orphaned (>24h)"@), now))
    } else if f.marker is Some {
        Some(marked_task(t, f.marker->0, None, now))
    } else if t.child_pid is Some && !f.alive {
        Some(
            ended_task(
                t,
                BgTaskStatus::Failed,
                None,
                Some("process exited without exit marker"@),
                now,
            ),
        )
    } else {
        None
    }
}

/// The registry once a task that is written down was taken up: one that has ended meanwhile is
/// to be told, and one that runs or has ended is known again.
pub open spec fn replayed(
    g: Registry,
    s: StoredTask,
    paths: TaskFiles,
    session: Seq<char>,
    f: ReplayFacts,
    unix_now: u64,
    now: u64,
    p: Preview,
) -> Registry {
    let t = s.metadata.deep_view();
    if t.session_id != session {
        g
    } else {
        match ended_meanwhile(t, f, unix_now) {
            Some(e) => enqueued(g, e, preview_text(p, s.compressed), p.truncated),
            None => if t.status is Running || t.status.terminal() {
                enqueued(
                    Registry {
                        tasks: table_set(g.tasks, t.task_id, rehydrated(s, paths, now)),
                        ..g
                    },
                    t,
                    preview_text(p, s.compressed),
                    p.truncated,
                )
            } else {
                g
            },
        }
    }
}

/// What is to be written when a task was taken up.
pub struct ReplayWrites {
    /// What is to be written down of the task.
    pub metadata: Option<PersistedTask>,
    /// Whether an exit marker is to be written.
    pub kill_marker: bool,
}

/// How a request to end a task goes on.
pub enum KillStep {
    /// The task has ended already.
    Ended,
    /// The task is to be ended: this is to be written down of it, and this is its process.
    Terminate { metadata: PersistedTask, pgid: Option<i32>, child_pid: Option<u32> },
}

/// The ends of tasks of a session, or of all.
pub open spec fn told_to(completions: Seq<Completion>, session: Option<Seq<char>>) -> Seq<Completion>
    decreases completions.len(),
{
    if completions.len() == 0 {
        Seq::empty()
    } else if session is None || completions.last().session_id == session->0 {
        told_to(completions.drop_last(), session).push(completions.last())
    } else {
        told_to(completions.drop_last(), session)
    }
}

/// The ends of tasks of all other sessions.
pub open spec fn kept_from(completions: Seq<Completion>, session: Option<Seq<char>>) -> Seq<
    Completion,
>
    decreases completions.len(),
{
    if completions.len() == 0 {
        Seq::empty()
    } else if session is None || completions.last().session_id == session->0 {
        kept_from(completions.drop_last(), session)
    } else {
        kept_from(completions.drop_last(), session).push(completions.last())
    }
}

/// Whether a task is kept: it runs, or has not ended long ago.
pub open spec fn kept(t: TaskModel, older_than_ms: u64, now: u64) -> bool {
    !t.task.status.terminal() || (match t.terminal_at {
        Some(at) => now >= older_than_ms && at > now - older_than_ms,
        None => true,
    })
}

/// The tasks that are kept.
pub open spec fn kept_tasks(tasks: Seq<(Seq<char>, TaskModel)>, older_than_ms: u64, now: u64) -> Seq<
    (Seq<char>, TaskModel),
>
    decreases tasks.len(),
{
    if tasks.len() == 0 {
        Seq::empty()
    } else if kept(tasks.last().1, older_than_ms, now) {
        kept_tasks(tasks.drop_last(), older_than_ms, now).push(tasks.last())
    } else {
        kept_tasks(tasks.drop_last(), older_than_ms, now)
    }
}

/// A reminder that a task still runs.
pub struct LongRunning {
    pub task_id: String,
    pub session_id: String,
    pub command: String,
    pub elapsed_ms: u64,
}

/// Whether a reminder of a task is due.
pub open spec fn reminder_due(g: Registry, t: TaskModel, now: u64) -> bool {
    g.reminders && g.interval != 0 && elapsed(
        match t.last_reminder_at {
            Some(at) => at,
            None => t.started,
        },
        now,
    ) >= g.interval
}

/// What is to be done about a running task.
#[derive(Debug, Clone, Copy, PartialEq, Eq, Structural)]
pub enum WatchdogStep {
    /// Nothing: it does not run.
    Skip,
    /// It is to be ended: it ran for too long.
    TimedOut,
    /// It is to be looked whether its process ended.
    Reap,
}

/// What is to be done about a task.
pub open spec fn watchdog_step(t: TaskModel, now: u64) -> WatchdogStep {
    if !(t.task.status is Running) {
        WatchdogStep::Skip
    } else if t.task.timeout_ms is Some && elapsed(t.started, now) >= t.task.timeout_ms->0 {
        WatchdogStep::TimedOut
    } else {
        WatchdogStep::Reap
    }
}

/// What is told of a task.
pub open spec fn snapshot_of(
    t: TaskModel,
    now: u64,
    p: Preview,
    compress: bool,
    output_path: Option<Seq<char>>,
    stderr_path: Seq<char>,
) -> Snapshot {
    Snapshot {
        info: TaskInfo {
            task_id: t.task.task_id,
            status: t.task.status,
            command: t.task.command,
            started_at: t.task.started_at,
            duration_ms: match t.task.duration_ms {
                Some(n) => Some(n),
                None => if t.task.status.terminal() {
                    Some(elapsed(t.started, now))
                } else {
                    None
                },
            },
        },
        exit_code: t.task.exit_code,
        child_pid: t.task.child_pid,
        workdir: t.task.workdir,
        preview: preview_text(p, compress && t.task.status.terminal() && t.compressed),
        truncated: p.truncated,
        output_path,
        stderr_path: Some(stderr_path),
    }
}

/// What is said of a task that is not known.
pub open spec fn not_found(task_id: Seq<char>) -> Seq<char> {
    "background task not found: "@ + task_id
}

impl BgTaskRegistry {
    /// A registry without tasks.
    pub fn new() -> (r: Self)
        ensures
            r@ == (Registry {
                tasks: Seq::empty(),
                completions: Seq::empty(),
                reminders: true,
                interval: DEFAULT_REMINDER_INTERVAL_MS,
                watchdog: false,
                shutdown: false,
            }),
            sound(r@),
    {
        broadcast use group_models;

        BgTaskRegistry {
            tasks: Vec::new(),
            completions: Vec::new(),
            reminders_enabled: true,
            reminder_interval_ms: DEFAULT_REMINDER_INTERVAL_MS,
            watchdog_started: false,
            shutdown: false,
        }
    }

    /// Sets whether and how often reminders of running tasks come.
    pub fn configure_long_running_reminders(&mut self, enabled: bool, interval_ms: u64)
        ensures
            final(self)@ == (Registry { reminders: enabled, interval: interval_ms, ..old(self)@ }),
    {
        self.reminders_enabled = enabled;
        self.reminder_interval_ms = interval_ms;
    }

    /// Notes that the watchdog runs; says whether it is to be started.
    pub fn start_watchdog(&mut self) -> (r: bool)
        ensures
            r == !old(self)@.watchdog,
            final(self)@ == (Registry { watchdog: true, ..old(self)@ }),
    {
        let r = !self.watchdog_started;
        self.watchdog_started = true;
        r
    }

    /// Whether the watchdog is to stop.
    pub fn is_shut_down(&self) -> (r: bool)
        ensures
            r == self@.shutdown,
    {
        self.shutdown
    }

    /// How many tasks run.
    pub fn running_count(&self) -> (r: usize)
        ensures
            r == running(self@.tasks),
    {
        let ghost all = models(self.tasks@);
        let mut n: usize = 0;
        let mut i: usize = 0;
        assert(all.take(0) =~= Seq::empty());
        while i < self.tasks.len()
            invariant
                i <= self.tasks.len(),
                all == models(self.tasks@),
                n == running(all.take(i as int)),
                n <= i,
            decreases self.tasks.len() - i,
        {
            assert(all.take(i + 1).drop_last() =~= all.take(i as int));
            assert(all[i as int] == self.tasks@[i as int].deep_view());
            if self.tasks[i].value.is_running() {
                n = n + 1;
            }
            i = i + 1;
        }
        assert(all.take(i as int) =~= all);
        n
    }

    /// Whether one more task can be started; why not, where it cannot.
    pub fn check_limit(&self, max_running: usize) -> (r: Result<(), String>)
        ensures
            match r {
                Ok(_) => running(self@.tasks) < max_running,
                Err(m) => running(self@.tasks) >= max_running && m@
                    == "background bash task limit exceeded: "@ + decimal(running(self@.tasks))
                    + " running (max "@ + decimal(max_running as nat) + ")"@,
            },
    {
        let running = self.running_count();
        if running >= max_running {
            return Err(
                text5(
                    "background bash task limit exceeded: ",
                    decimal_text(running as u64).as_str(),
                    " running (max ",
                    decimal_text(max_running as u64).as_str(),
                    ")",
                ),
            );
        }
        Ok(())
    }

    fn queued(&self, task_id: &str) -> (r: bool)
        ensures
            r == is_queued(self@.completions, task_id@),
    {
        let ghost all = models(self.completions@);
        let mut i: usize = 0;
        while i < self.completions.len()
            invariant
                i <= self.completions.len(),
                all == models(self.completions@),
                forall|k: int| 0 <= k < i ==> (#[trigger] all[k]).task_id != task_id@,
            decreases self.completions.len() - i,
        {
            assert(all[i as int] == self.completions@[i as int].deep_view());
            if same(self.completions[i].task_id.as_str(), task_id) {
                return true;
            }
            i = i + 1;
        }
        false
    }

    /// Whether a name is free: no task has it, and no end that is to be told.
    pub fn is_free(&self, task_id: &str) -> (r: bool)
        ensures
            r == name_free(self@, task_id@),
    {
        get_entry(&self.tasks, task_id).is_none() && !self.queued(task_id)
    }

    /// The first of some names that is free, where one is.
    pub fn first_free(&self, candidates: &Vec<String>) -> (r: Option<String>)
        ensures
            r.deep_view() == first_free_name(self@, texts(candidates@)),
    {
        let ghost all = texts(candidates@);
        let mut i: usize = 0;
        assert(all.skip(0) =~= all);
        while i < candidates.len()
            invariant
                i <= candidates.len(),
                all == texts(candidates@),
                first_free_name(self@, all) == first_free_name(self@, all.skip(i as int)),
            decreases candidates.len() - i,
        {
            assert(all.skip(i as int)[0] == candidates@[i as int]@);
            assert(all.skip(i as int).drop_first() =~= all.skip(i + 1));
            if self.is_free(candidates[i].as_str()) {
                return Some(owned(candidates[i].as_str()));
            }
            i = i + 1;
        }
        None
    }

    /// A free name for a new task: the first free one of 32 that are drawn. Where there is no
    /// task and no end that is to be told, every name is free.
    pub fn generate_unique_task_id(&self, fallback: u64) -> (r: Result<String, String>)
        ensures
            exists|names: Seq<Seq<char>>|
                #![trigger first_free_name(self@, names)]
                {
                    &&& names.len() == ID_ATTEMPTS
                    &&& forall|i: int| 0 <= i < names.len() ==> is_slug(#[trigger] names[i])
                    &&& match r {
                        Ok(id) => first_free_name(self@, names) == Some(id@),
                        Err(_) => first_free_name(self@, names) is None,
                    }
                },
            match r {
                Ok(id) => name_free(self@, id@) && is_slug(id@),
                Err(m) => m@
                    == "failed to allocate unique background task id after 32 attempts"@,
            },
            self@.tasks.len() == 0 && self@.completions.len() == 0 ==> r is Ok,
    {
        let mut drawn: Vec<String> = Vec::new();
        let mut i: usize = 0;
        while i < ID_ATTEMPTS
            invariant
                i <= ID_ATTEMPTS,
                drawn@.len() == i,
                forall|k: int| 0 <= k < i ==> is_slug((#[trigger] drawn@[k])@),
            decreases ID_ATTEMPTS - i,
        {
            drawn.push(random_slug(fallback));
            i = i + 1;
        }
        let ghost names = texts(drawn@);
        proof {
            lemma_first_free_is_free(self@, names);
            assert forall|k: int| 0 <= k < names.len() implies is_slug(#[trigger] names[k]) by {
                assert(is_slug(drawn@[k]@));
            }
            if self@.tasks.len() == 0 && self@.completions.len() == 0 {
                assert(name_free(self@, names[0]));
            }
        }
        match self.first_free(&drawn) {
            Some(id) => Ok(id),
            None => Err(owned("failed to allocate unique background task id after 32 attempts")),
        }
    }

    fn put(&mut self, task_id: &str, task: BgTask)
        ensures
            final(self)@ == (Registry {
                tasks: table_set(old(self)@.tasks, task_id@, task.deep_view()),
                ..old(self)@
            }),
    {
        set_entry(&mut self.tasks, owned(task_id), task);
    }

    /// Takes a task in that was started.
    pub fn insert(&mut self, task: BgTask)
        ensures
            final(self)@ == (Registry {
                tasks: table_set(
                    old(self)@.tasks,
                    task.deep_view().task.task_id,
                    task.deep_view(),
                ),
                ..old(self)@
            }),
            sound(old(self)@) ==> sound(final(self)@),
    {
        let id = owned(task.metadata.task_id.as_str());
        proof {
            lemma_put_sound(self@, task.deep_view().task.task_id, task.deep_view());
        }
        self.put(id.as_str(), task);
    }

    /// The names of the running tasks.
    pub fn running_tasks(&self) -> (r: Vec<String>)
        ensures
            models(r@) == running_names(self@.tasks),
    {
        broadcast use group_models;

        let ghost all = models(self.tasks@);
        let mut out: Vec<String> = Vec::new();
        let mut i: usize = 0;
        assert(all.take(0) =~= Seq::empty());
        while i < self.tasks.len()
            invariant
                i <= self.tasks.len(),
                all == models(self.tasks@),
                models(out@) == running_names(all.take(i as int)),
            decreases self.tasks.len() - i,
        {
            assert(all.take(i + 1).drop_last() =~= all.take(i as int));
            assert(all[i as int] == self.tasks@[i as int].deep_view());
            if self.tasks[i].value.is_running() {
                let ghost before = models(out@);
                let id = owned(self.tasks[i].key.as_str());
                let ghost m = id@;
                out.push(id);
                assert(models(out@) == before.push(m));
            }
            i = i + 1;
        }
        assert(all.take(i as int) =~= all);
        out
    }

    /// A task of a session.
    pub fn task_for_session(&self, task_id: &str, session_id: &str) -> (r: Option<&BgTask>)
        ensures
            match (r, task_of(self@, task_id@, session_id@)) {
                (Some(t), Some(m)) => t.deep_view() == m,
                (None, None) => true,
                _ => false,
            },
    {
        match get_entry(&self.tasks, task_id) {
            Some(t) => {
                if same(t.metadata.session_id.as_str(), session_id) {
                    Some(t)
                } else {
                    None
                }
            },
            None => None,
        }
    }

    /// Where what is kept of a task of a session is written.
    pub fn task_json_path(&self, task_id: &str, session_id: &str) -> (r: Option<String>)
        ensures
            r.deep_view() == (match task_of(self@, task_id@, session_id@) {
                Some(t) => Some(t.paths.json),
                None => None,
            }),
    {
        match self.task_for_session(task_id, session_id) {
            Some(t) => Some(t.paths.json.clone()),
            None => None,
        }
    }

    /// Where the exit code of a task of a session is written.
    pub fn task_exit_path(&self, task_id: &str, session_id: &str) -> (r: Option<String>)
        ensures
            r.deep_view() == (match task_of(self@, task_id@, session_id@) {
                Some(t) => Some(t.paths.exit),
                None => None,
            }),
    {
        match self.task_for_session(task_id, session_id) {
            Some(t) => Some(t.paths.exit.clone()),
            None => None,
        }
    }

    fn enqueue_task(&mut self, task: &PersistedTask, preview: String, truncated: bool) -> (r: Option<
        BgCompletion,
    >)
        ensures
            final(self)@ == enqueued(old(self)@, task.deep_view(), preview@, truncated),
            r.deep_view() == (if to_be_told(old(self)@, task.deep_view()) {
                Some(completion_of(task.deep_view(), preview@, truncated))
            } else {
                None
            }),
    {
        broadcast use group_models;

        if !task.is_terminal() || task.completion_delivered || self.queued(
            task.task_id.as_str(),
        ) {
            return None;
        }
        let c = BgCompletion {
            task_id: owned(task.task_id.as_str()),
            session_id: owned(task.session_id.as_str()),
            status: task.status,
            exit_code: task.exit_code,
            command: owned(task.command.as_str()),
            output_preview: preview,
            output_truncated: truncated,
        };
        let told = c.copy();
        let ghost before = models(self.completions@);
        let ghost m = c.deep_view();
        self.completions.push(c);
        assert(models(self.completions@) == before.push(m));
        Some(told)
    }

    /// Puts the end of a task among those that are to be told, unless it was told or is there
    /// already; gives what is told of it, where it is new.
    pub fn enqueue_completion(&mut self, task_id: &str, session_id: &str, p: &Preview) -> (r: Option<
        BgCompletion,
    >)
        ensures
            match task_of(old(self)@, task_id@, session_id@) {
                None => final(self)@ == old(self)@ && r is None,
                Some(t) => final(self)@ == enqueued(
                    old(self)@,
                    t.task,
                    preview_text(*p, t.compressed),
                    p.truncated,
                ) && r.deep_view() == (if to_be_told(old(self)@, t.task) {
                    Some(completion_of(t.task, preview_text(*p, t.compressed), p.truncated))
                } else {
                    None
                }),
            },
            sound(old(self)@) ==> sound(final(self)@),
    {
        let (task, compressed) = match self.task_for_session(task_id, session_id) {
            Some(t) => (t.metadata.copy(), t.compressed),
            None => {
                return None;
            },
        };
        proof {
            lemma_enqueue_sound(
                self@,
                task.deep_view(),
                preview_text(*p, compressed),
                p.truncated,
            );
        }
        let text = choose_preview(p, compressed);
        self.enqueue_task(&task, text, p.truncated)
    }

    /// Takes up a task that is written down, for a session.
    pub fn replay_session(
        &mut self,
        stored: StoredTask,
        paths: TaskPaths,
        session_id: &str,
        facts: ReplayFacts,
        unix_now: u64,
        now: u64,
        p: &Preview,
    ) -> (r: ReplayWrites)
        ensures
            final(self)@ == replayed(
                old(self)@,
                stored,
                paths.deep_view(),
                session_id@,
                facts,
                unix_now,
                now,
                *p,
            ),
            ({
                let t = stored.metadata.deep_view();
                let ended = if t.session_id == session_id@ {
                    ended_meanwhile(t, facts, unix_now)
                } else {
                    None
                };
                &&& match (r.metadata, ended) {
                    (Some(m), Some(e)) => m.deep_view() == e,
                    (None, None) => true,
                    _ => false,
                }
                &&& r.kill_marker == (ended is Some && t.status is Running && stale(t, unix_now)
                    && !facts.marker_exists)
            }),
            sound(old(self)@) ==> sound(final(self)@),
    {
        let ghost g = self@;
        let ghost t = stored.metadata.deep_view();
        if !same(stored.metadata.session_id.as_str(), session_id) {
            return ReplayWrites { metadata: None, kill_marker: false };
        }
        let text = choose_preview(p, stored.compressed);
        let mut kill_marker = false;
        let mut ended = false;
        let mut task = stored.metadata.copy();
        if matches!(task.status, BgTaskStatus::Starting) {
            task.mark_terminal_at(
                BgTaskStatus::Failed,
                None,
                Some(owned("spawn aborted")),
                unix_now,
            );
            ended = true;
        } else if matches!(task.status, BgTaskStatus::Running) {
            if running_metadata_is_stale(&task, unix_now) {
                task.mark_terminal_at(
                    BgTaskStatus::Killed,
                    None,
                    Some(owned("orphaned (>24h)")),
                    unix_now,
                );
                kill_marker = !facts.marker_exists;
                ended = true;
            } else if let Some(marker) = facts.marker {
                task = terminal_metadata_from_marker(task, marker, None, unix_now);
                ended = true;
            } else if task.child_pid.is_some() && !facts.alive {
                task.mark_terminal_at(
                    BgTaskStatus::Failed,
                    None,
                    Some(owned("process exited without exit marker")),
                    unix_now,
                );
                ended = true;
            }
        }
        if ended {
            assert(ended_meanwhile(t, facts, unix_now) == Some(task.deep_view()));
            proof {
                lemma_enqueue_sound(
                    g,
                    task.deep_view(),
                    preview_text(*p, stored.compressed),
                    p.truncated,
                );
            }
            self.enqueue_task(&task, text, p.truncated);
            return ReplayWrites { metadata: Some(task), kill_marker };
        }
        assert(ended_meanwhile(t, facts, unix_now) is None);
        if matches!(task.status, BgTaskStatus::Running) || task.is_terminal() {
            let ghost model = rehydrated(stored, paths.deep_view(), now);
            let terminal_at = if task.is_terminal() {
                Some(now)
            } else {
                None
            };
            let kept = BgTask {
                metadata: task.copy(),
                paths,
                started: now,
                last_reminder_at: None,
                terminal_at,
                has_child: false,
                detached: true,
                notify_on_completion: stored.notify_on_completion,
                compressed: stored.compressed,
            };
            assert(kept.deep_view() == model);
            proof {
                lemma_put_sound(g, t.task_id, model);
            }
            self.put(task.task_id.as_str(), kept);
            proof {
                lemma_enqueue_sound(
                    self@,
                    t,
                    preview_text(*p, stored.compressed),
                    p.truncated,
                );
            }
            self.enqueue_task(&task, text, p.truncated);
        }
        ReplayWrites { metadata: None, kill_marker: false }
    }

    /// Begins to end a task of a session.
    pub fn kill(&mut self, task_id: &str, session_id: &str) -> (r: Result<KillStep, String>)
        ensures
            match task_of(old(self)@, task_id@, session_id@) {
                None => {
                    &&& final(self)@ == old(self)@
                    &&& r is Err && (r->Err_0)@ == not_found(task_id@)
                },
                Some(t) => if t.task.status.terminal() {
                    final(self)@ == old(self)@ && r is Ok && r->Ok_0 is Ended
                } else {
                    let killing = Task { status: BgTaskStatus::Killing, ..t.task };
                    &&& final(self)@ == (Registry {
                        tasks: table_set(
                            old(self)@.tasks,
                            task_id@,
                            TaskModel { task: killing, ..t },
                        ),
                        ..old(self)@
                    })
                    &&& r is Ok && (r->Ok_0 matches KillStep::Terminate {
                        metadata,
                        pgid,
                        child_pid,
                    } && metadata.deep_view() == killing && pgid == t.task.pgid && child_pid
                        == t.task.child_pid)
                },
            },
            sound(old(self)@) ==> sound(final(self)@),
    {
        let mut task = match self.task_for_session(task_id, session_id) {
            Some(t) => t.copy(),
            None => {
                return Err(text2("background task not found: ", task_id));
            },
        };
        if task.metadata.is_terminal() {
            return Ok(KillStep::Ended);
        }
        task.metadata.status = BgTaskStatus::Killing;
        let step = KillStep::Terminate {
            metadata: task.metadata.copy(),
            pgid: task.metadata.pgid,
            child_pid: task.metadata.child_pid,
        };
        proof {
            lemma_known_name(self@, task_id@);
            lemma_put_sound(self@, task_id@, task.deep_view());
        }
        self.put(task_id, task);
        Ok(step)
    }

    /// Notes that the process of a task is no child any more.
    pub fn child_gone(&mut self, task_id: &str, session_id: &str)
        ensures
            match task_of(old(self)@, task_id@, session_id@) {
                None => final(self)@ == old(self)@,
                Some(t) => final(self)@ == (Registry {
                    tasks: table_set(
                        old(self)@.tasks,
                        task_id@,
                        TaskModel { has_child: false, detached: true, ..t },
                    ),
                    ..old(self)@
                }),
            },
            sound(old(self)@) ==> sound(final(self)@),
    {
        let mut task = match self.task_for_session(task_id, session_id) {
            Some(t) => t.copy(),
            None => {
                return;
            },
        };
        task.has_child = false;
        task.detached = true;
        proof {
            lemma_known_name(self@, task_id@);
            lemma_put_sound(self@, task_id@, task.deep_view());
        }
        self.put(task_id, task);
    }

    /// Notes that a task was ended: by a request, or because it ran for too long. Gives what is
    /// to be written down of it.
    pub fn mark_killed(
        &mut self,
        task_id: &str,
        session_id: &str,
        timed_out: bool,
        unix_now: u64,
        now: u64,
    ) -> (r: Option<PersistedTask>)
        ensures
            match task_of(old(self)@, task_id@, session_id@) {
                None => final(self)@ == old(self)@ && r is None,
                Some(t) => {
                    let ended = killed_task(t.task, timed_out, unix_now);
                    &&& final(self)@ == (Registry {
                        tasks: table_set(old(self)@.tasks, task_id@, finished(t, ended, now)),
                        ..old(self)@
                    })
                    &&& r is Some && (r->0).deep_view() == ended
                },
            },
            sound(old(self)@) ==> sound(final(self)@),
    {
        let mut task = match self.task_for_session(task_id, session_id) {
            Some(t) => t.copy(),
            None => {
                return None;
            },
        };
        if timed_out {
            task.metadata.mark_terminal_at(
                BgTaskStatus::TimedOut,
                Some(TIMEOUT_EXIT_CODE),
                None,
                unix_now,
            );
        } else {
            task.metadata.mark_terminal_at(BgTaskStatus::Killed, None, None, unix_now);
        }
        if task.terminal_at.is_none() {
            task.terminal_at = Some(now);
        }
        let written = task.metadata.copy();
        proof {
            lemma_known_name(self@, task_id@);
            lemma_put_sound(self@, task_id@, task.deep_view());
        }
        self.put(task_id, task);
        Some(written)
    }

    /// Notes that the process of a task ended and left a marker behind. `stored` is what is
    /// written down of the task. Says whether the end of the task is new.
    pub fn finalize_from_marker(
        &mut self,
        task_id: &str,
        session_id: &str,
        marker: ExitMarker,
        stored: PersistedTask,
        unix_now: u64,
        now: u64,
    ) -> (r: bool)
        ensures
            match task_of(old(self)@, task_id@, session_id@) {
                None => final(self)@ == old(self)@ && !r,
                Some(t) => if t.task.status.terminal() {
                    final(self)@ == old(self)@ && !r
                } else {
                    let ended = update_of(
                        stored.deep_view(),
                        marked_task(stored.deep_view(), marker, None, unix_now),
                    );
                    &&& r
                    &&& final(self)@ == (Registry {
                        tasks: table_set(
                            old(self)@.tasks,
                            task_id@,
                            TaskModel {
                                has_child: false,
                                detached: true,
                                ..finished(t, ended, now)
                            },
                        ),
                        ..old(self)@
                    })
                },
            },
            sound(old(self)@) && stored.deep_view().task_id == task_id@ ==> sound(
                final(self)@,
            ),
    {
        let mut task = match self.task_for_session(task_id, session_id) {
            Some(t) => t.copy(),
            None => {
                return false;
            },
        };
        if task.metadata.is_terminal() {
            return false;
        }
        let ended = terminal_metadata_from_marker(stored.copy(), marker, None, unix_now);
        task.metadata = update_task(stored, ended);
        if task.terminal_at.is_none() {
            task.terminal_at = Some(now);
        }
        task.has_child = false;
        task.detached = true;
        proof {
            lemma_put_sound(self@, task_id@, task.deep_view());
        }
        self.put(task_id, task);
        true
    }

    /// Notes that the child process of a task ended. One that left no marker behind has
    /// failed. `stored` is what is written down of the task, where it can be read. Says whether
    /// the end of the task is new.
    pub fn reap_child(
        &mut self,
        task_id: &str,
        session_id: &str,
        marker_found: bool,
        stored: Option<PersistedTask>,
        unix_now: u64,
        now: u64,
    ) -> (r: bool)
        ensures
            match task_of(old(self)@, task_id@, session_id@) {
                None => final(self)@ == old(self)@ && !r,
                Some(t) => if !t.has_child {
                    final(self)@ == old(self)@ && !r
                } else {
                    let gone = TaskModel { has_child: false, detached: true, ..t };
                    let failed = !t.task.status.terminal() && !marker_found && stored is Some;
                    let after = if failed {
                        finished(gone, lost_task((stored->0).deep_view(), unix_now), now)
                    } else {
                        gone
                    };
                    &&& r == failed
                    &&& final(self)@ == (Registry {
                        tasks: table_set(old(self)@.tasks, task_id@, after),
                        ..old(self)@
                    })
                },
            },
            sound(old(self)@) && (stored is Some ==> (stored->0).deep_view().task_id == task_id@) ==> sound(
                final(self)@,
            ),
    {
        let mut task = match self.task_for_session(task_id, session_id) {
            Some(t) => t.copy(),
            None => {
                return false;
            },
        };
        if !task.has_child {
            return false;
        }
        task.has_child = false;
        task.detached = true;
        let mut failed = false;
        if !task.metadata.is_terminal() && !marker_found {
            match stored {
                Some(stored) => {
                    let mut ended = stored.copy();
                    ended.mark_terminal_at(
                        BgTaskStatus::Failed,
                        None,
                        Some(owned("process exited without exit marker")),
                        unix_now,
                    );
                    task.metadata = update_task(stored, ended);
                    if task.terminal_at.is_none() {
                        task.terminal_at = Some(now);
                    }
                    failed = true;
                },
                None => {},
            }
        }
        proof {
            lemma_known_name(self@, task_id@);
            lemma_put_sound(self@, task_id@, task.deep_view());
        }
        self.put(task_id, task);
        failed
    }

    /// Notes whether the end of a task was told. `stored` is what is written down of the task.
    pub fn set_completion_delivered(
        &mut self,
        task_id: &str,
        session_id: &str,
        stored: PersistedTask,
        delivered: bool,
    )
        ensures
            match task_of(old(self)@, task_id@, session_id@) {
                None => final(self)@ == old(self)@,
                Some(t) => final(self)@ == (Registry {
                    tasks: table_set(
                        old(self)@.tasks,
                        task_id@,
                        TaskModel {
                            task: Task { completion_delivered: delivered, ..stored.deep_view() },
                            ..t
                        },
                    ),
                    ..old(self)@
                }),
            },
            sound(old(self)@) && stored.deep_view().task_id == task_id@ ==> sound(
                final(self)@,
            ),
    {
        let mut task = match self.task_for_session(task_id, session_id) {
            Some(t) => t.copy(),
            None => {
                return;
            },
        };
        let mut updated = stored.copy();
        updated.completion_delivered = delivered;
        task.metadata = update_task(stored, updated);
        proof {
            lemma_put_sound(self@, task_id@, task.deep_view());
        }
        self.put(task_id, task);
    }

    /// Has the end of a task told, though it may have been told before. `stored` is what is
    /// written down of the task, or why it cannot be read. Says yes where the task is known.
    pub fn promote(
        &mut self,
        task_id: &str,
        session_id: &str,
        stored: Result<PersistedTask, String>,
    ) -> (r: Result<bool, String>)
        ensures
            match task_of(old(self)@, task_id@, session_id@) {
                None => {
                    &&& final(self)@ == old(self)@
                    &&& r is Err && (r->Err_0)@ == not_found(task_id@)
                },
                Some(t) => match stored {
                    Err(e) => {
                        &&& final(self)@ == old(self)@
                        &&& r is Err && (r->Err_0)@ == "failed to promote background task: "@ + e@
                    },
                    Ok(s) => {
                        &&& r == Ok::<bool, String>(true)
                        &&& final(self)@ == (Registry {
                            tasks: table_set(
                                old(self)@.tasks,
                                task_id@,
                                TaskModel {
                                    task: Task { completion_delivered: false, ..s.deep_view() },
                                    notify: t.notify || !s.deep_view().status.terminal(),
                                    ..t
                                },
                            ),
                            ..old(self)@
                        })
                    },
                },
            },
            sound(old(self)@) && (stored is Ok ==> (stored->Ok_0).deep_view().task_id == task_id@) ==> sound(
                final(self)@,
            ),
    {
        let mut task = match self.task_for_session(task_id, session_id) {
            Some(t) => t.copy(),
            None => {
                return Err(text2("background task not found: ", task_id));
            },
        };
        let stored = match stored {
            Ok(s) => s,
            Err(e) => {
                return Err(text2("failed to promote background task: ", e.as_str()));
            },
        };
        let ended = stored.is_terminal();
        let mut updated = stored.copy();
        updated.completion_delivered = false;
        task.metadata = update_task(stored, updated);
        if !ended {
            task.notify_on_completion = true;
        }
        proof {
            lemma_put_sound(self@, task_id@, task.deep_view());
        }
        self.put(task_id, task);
        Ok(true)
    }

    /// Forgets the tasks that ended longer ago than a number of milliseconds.
    pub fn cleanup_finished(&mut self, older_than_ms: u64, now: u64)
        ensures
            final(self)@ == (Registry {
                tasks: kept_tasks(old(self)@.tasks, older_than_ms, now),
                ..old(self)@
            }),
            sound(old(self)@) ==> sound(final(self)@),
    {
        broadcast use group_models;

        let ghost all = models(self.tasks@);
        let mut out: Vec<Entry<BgTask>> = Vec::new();
        let mut i: usize = 0;
        assert(all.take(0) =~= Seq::empty());
        while i < self.tasks.len()
            invariant
                i <= self.tasks.len(),
                all == models(self.tasks@),
                self@ == old(self)@,
                models(out@) == kept_tasks(all.take(i as int), older_than_ms, now),
            decreases self.tasks.len() - i,
        {
            assert(all.take(i + 1).drop_last() =~= all.take(i as int));
            assert(all[i as int] == self.tasks@[i as int].deep_view());
            let t = &self.tasks[i].value;
            let keep = !t.metadata.is_terminal() || (match t.terminal_at {
                Some(at) => now >= older_than_ms && at > now - older_than_ms,
                None => true,
            });
            if keep {
                let e = Entry { key: owned(self.tasks[i].key.as_str()), value: t.copy() };
                let ghost before = models(out@);
                let ghost m = e.deep_view();
                assert(m == all[i as int]);
                out.push(e);
                assert(models(out@) == before.push(m));
            }
            i = i + 1;
        }
        assert(all.take(i as int) =~= all);
        proof {
            lemma_kept_tasks(all, older_than_ms, now);
        }
        self.tasks = out;
    }

    /// Takes out the ends that are to be told to a session, or all.
    pub fn drain_completions_for_session(&mut self, session_id: Option<&str>) -> (r: Vec<
        BgCompletion,
    >)
        ensures
            models(r@) == told_to(old(self)@.completions, given_text(session_id)),
            final(self)@ == (Registry {
                completions: kept_from(old(self)@.completions, given_text(session_id)),
                ..old(self)@
            }),
            sound(old(self)@) ==> sound(final(self)@),
    {
        broadcast use group_models;

        let ghost all = models(self.completions@);
        let ghost session = given_text(session_id);
        let mut matched: Vec<BgCompletion> = Vec::new();
        let mut retained: Vec<BgCompletion> = Vec::new();
        let mut i: usize = 0;
        assert(all.take(0) =~= Seq::empty());
        while i < self.completions.len()
            invariant
                i <= self.completions.len(),
                all == models(self.completions@),
                session == given_text(session_id),
                self@ == old(self)@,
                models(matched@) == told_to(all.take(i as int), session),
                models(retained@) == kept_from(all.take(i as int), session),
            decreases self.completions.len() - i,
        {
            assert(all.take(i + 1).drop_last() =~= all.take(i as int));
            assert(all[i as int] == self.completions@[i as int].deep_view());
            let c = self.completions[i].copy();
            let ghost m = c.deep_view();
            let wanted = match session_id {
                Some(s) => same(c.session_id.as_str(), s),
                None => true,
            };
            if wanted {
                let ghost before = models(matched@);
                matched.push(c);
                assert(models(matched@) == before.push(m));
            } else {
                let ghost before = models(retained@);
                retained.push(c);
                assert(models(retained@) == before.push(m));
            }
            i = i + 1;
        }
        assert(all.take(i as int) =~= all);
        proof {
            lemma_kept_from(all, session);
        }
        self.completions = retained;
        matched
    }

    /// Takes out all ends that are to be told.
    pub fn drain_completions(&mut self) -> (r: Vec<BgCompletion>)
        ensures
            models(r@) == old(self)@.completions,
            final(self)@ == (Registry { completions: Seq::empty(), ..old(self)@ }),
    {
        proof {
            lemma_told_to_all(self@.completions);
        }
        self.drain_completions_for_session(None)
    }

    /// The ends that are to be told to a session.
    pub fn pending_completions_for_session(&self, session_id: &str) -> (r: Vec<BgCompletion>)
        ensures
            models(r@) == told_to(self@.completions, Some(session_id@)),
    {
        broadcast use group_models;

        let ghost all = models(self.completions@);
        let mut out: Vec<BgCompletion> = Vec::new();
        let mut i: usize = 0;
        assert(all.take(0) =~= Seq::empty());
        while i < self.completions.len()
            invariant
                i <= self.completions.len(),
                all == models(self.completions@),
                models(out@) == told_to(all.take(i as int), Some(session_id@)),
            decreases self.completions.len() - i,
        {
            assert(all.take(i + 1).drop_last() =~= all.take(i as int));
            assert(all[i as int] == self.completions@[i as int].deep_view());
            if same(self.completions[i].session_id.as_str(), session_id) {
                let c = self.completions[i].copy();
                let ghost before = models(out@);
                let ghost m = c.deep_view();
                out.push(c);
                assert(models(out@) == before.push(m));
            }
            i = i + 1;
        }
        assert(all.take(i as int) =~= all);
        out
    }

    /// Lets all tasks go, and the watchdog stop.
    pub fn detach(&mut self)
        ensures
            final(self)@ == (Registry { tasks: Seq::empty(), shutdown: true, ..old(self)@ }),
            sound(old(self)@) ==> sound(final(self)@),
    {
        broadcast use group_models;

        self.tasks = Vec::new();
        self.shutdown = true;
    }

    /// The names and sessions of all tasks.
    pub fn task_names(&self) -> (r: Vec<(String, String)>)
        ensures
            models(r@) == names_of(self@.tasks),
    {
        broadcast use group_models;

        let ghost all = models(self.tasks@);
        let ghost want = names_of(all);
        let mut out: Vec<(String, String)> = Vec::new();
        let mut i: usize = 0;
        while i < self.tasks.len()
            invariant
                i <= self.tasks.len(),
                all == models(self.tasks@),
                want == names_of(all),
                models(out@) == want.take(i as int),
            decreases self.tasks.len() - i,
        {
            assert(all[i as int] == self.tasks@[i as int].deep_view());
            let e = (
                owned(self.tasks[i].key.as_str()),
                owned(self.tasks[i].value.metadata.session_id.as_str()),
            );
            let ghost before = models(out@);
            let ghost m = e.deep_view();
            out.push(e);
            assert(models(out@) == before.push(m));
            assert(want.take(i + 1) =~= want.take(i as int).push(m));
            i = i + 1;
        }
        assert(want.take(i as int) =~= want);
        out
    }

    /// The reminder of a task that is due, where one is.
    pub fn maybe_emit_long_running_reminder(&mut self, task_id: &str, session_id: &str, now: u64) -> (r:
        Option<LongRunning>)
        ensures
            match task_of(old(self)@, task_id@, session_id@) {
                None => final(self)@ == old(self)@ && r is None,
                Some(t) => if reminder_due(old(self)@, t, now) {
                    &&& final(self)@ == (Registry {
                        tasks: table_set(
                            old(self)@.tasks,
                            task_id@,
                            TaskModel { last_reminder_at: Some(now), ..t },
                        ),
                        ..old(self)@
                    })
                    &&& r is Some && (r->0).task_id@ == t.task.task_id && (r->0).session_id@
                        == t.task.session_id && (r->0).command@ == t.task.command && (
                    r->0).elapsed_ms == elapsed(t.started, now)
                } else {
                    final(self)@ == old(self)@ && r is None
                },
            },
            sound(old(self)@) ==> sound(final(self)@),
    {
        let mut task = match self.task_for_session(task_id, session_id) {
            Some(t) => t.copy(),
            None => {
                return None;
            },
        };
        if !self.reminders_enabled || self.reminder_interval_ms == 0 {
            return None;
        }
        let since = match task.last_reminder_at {
            Some(at) => at,
            None => task.started,
        };
        if now.saturating_sub(since) < self.reminder_interval_ms {
            return None;
        }
        task.last_reminder_at = Some(now);
        let reminder = LongRunning {
            task_id: owned(task.metadata.task_id.as_str()),
            session_id: owned(task.metadata.session_id.as_str()),
            command: owned(task.metadata.command.as_str()),
            elapsed_ms: now.saturating_sub(task.started),
        };
        proof {
            lemma_known_name(self@, task_id@);
            lemma_put_sound(self@, task_id@, task.deep_view());
        }
        self.put(task_id, task);
        Some(reminder)
    }

    /// What the watchdog does about a task.
    pub fn watch(&self, task_id: &str, session_id: &str, now: u64) -> (r: WatchdogStep)
        ensures
            r == (match task_of(self@, task_id@, session_id@) {
                Some(t) => watchdog_step(t, now),
                None => WatchdogStep::Skip,
            }),
    {
        match self.task_for_session(task_id, session_id) {
            Some(t) => {
                if !t.is_running() {
                    return WatchdogStep::Skip;
                }
                let expired = match t.metadata.timeout_ms {
                    Some(n) => now.saturating_sub(t.started) >= n,
                    None => false,
                };
                if expired {
                    WatchdogStep::TimedOut
                } else {
                    WatchdogStep::Reap
                }
            },
            None => WatchdogStep::Skip,
        }
    }

    /// What is told of a task of a session, where there is one. The output of a task that has
    /// ended is told in its compressed form, where `compress` allows it.
    pub fn status(
        &self,
        task_id: &str,
        session_id: &str,
        now: u64,
        p: &Preview,
        compress: bool,
        output_path: Option<&str>,
        stderr_path: &str,
    ) -> (r: Option<BgTaskSnapshot>)
        ensures
            match (r, task_of(self@, task_id@, session_id@)) {
                (Some(s), Some(t)) => s.deep_view() == snapshot_of(
                    t,
                    now,
                    *p,
                    compress,
                    given_text(output_path),
                    stderr_path@,
                ),
                (None, None) => true,
                _ => false,
            },
    {
        let t = match self.task_for_session(task_id, session_id) {
            Some(t) => t,
            None => {
                return None;
            },
        };
        let ended = t.metadata.is_terminal();
        let duration_ms = match t.metadata.duration_ms {
            Some(n) => Some(n),
            None => if ended {
                Some(now.saturating_sub(t.started))
            } else {
                None
            },
        };
        Some(
            BgTaskSnapshot {
                info: BgTaskInfo {
                    task_id: owned(t.metadata.task_id.as_str()),
                    status: t.metadata.status,
                    command: owned(t.metadata.command.as_str()),
                    started_at: t.metadata.started_at,
                    duration_ms,
                },
                exit_code: t.metadata.exit_code,
                child_pid: t.metadata.child_pid,
                workdir: owned(t.metadata.workdir.as_str()),
                output_preview: choose_preview(p, compress && ended && t.compressed),
                output_truncated: p.truncated,
                output_path: match output_path {
                    Some(s) => Some(owned(s)),
                    None => None,
                },
                stderr_path: Some(owned(stderr_path)),
            },
        )
    }
}

/// The names of running tasks.
pub open spec fn running_names(tasks: Seq<(Seq<char>, TaskModel)>) -> Seq<Seq<char>>
    decreases tasks.len(),
{
    if tasks.len() == 0 {
        Seq::empty()
    } else if tasks.last().1.task.status is Running {
        running_names(tasks.drop_last()).push(tasks.last().0)
    } else {
        running_names(tasks.drop_last())
    }
}

/// The names and sessions of tasks.
pub open spec fn names_of(tasks: Seq<(Seq<char>, TaskModel)>) -> Seq<(Seq<char>, Seq<char>)> {
    tasks.map_values(|e: (Seq<char>, TaskModel)| (e.0, e.1.task.session_id))
}

/// A task once it was ended: by a request, or because it ran for too long.
pub open spec fn killed_task(t: Task, timed_out: bool, now: u64) -> Task {
    if timed_out {
        ended_task(t, BgTaskStatus::TimedOut, Some(TIMEOUT_EXIT_CODE), None, now)
    } else {
        ended_task(t, BgTaskStatus::Killed, None, None, now)
    }
}

/// A task whose process ended without a marker, with what is written down of it.
pub open spec fn lost_task(stored: Task, now: u64) -> Task {
    update_of(
        stored,
        ended_task(
            stored,
            BgTaskStatus::Failed,
            None,
            Some("process exited without exit marker"@),
            now,
        ),
    )
}

proof fn lemma_put_sound(g: Registry, id: Seq<char>, t: TaskModel)
    ensures
        sound(g) && t.task.task_id == id ==> sound(
            Registry { tasks: table_set(g.tasks, id, t), ..g },
        ),
{
    if sound(g) && t.task.task_id == id {
        lemma_unique_keys(g.tasks, id, t);
        lemma_key_index(g.tasks, id);
        let after = table_set(g.tasks, id, t);
        assert forall|i: int| 0 <= i < after.len() implies (#[trigger] after[i]).1.task.task_id
            == after[i].0 by {
            let k = key_index(g.tasks, id);
            if k < g.tasks.len() && i != k {
                assert(after[i] == g.tasks[i]);
            } else if k >= g.tasks.len() && i < g.tasks.len() {
                assert(after[i] == g.tasks[i]);
            }
        }
    }
}

proof fn lemma_known_name(g: Registry, id: Seq<char>)
    requires
        table_get(g.tasks, id) is Some,
    ensures
        sound(g) ==> (table_get(g.tasks, id)->0).task.task_id == id,
{
    lemma_key_index(g.tasks, id);
}

proof fn lemma_enqueue_sound(g: Registry, t: Task, preview: Seq<char>, truncated: bool)
    ensures
        sound(g) ==> sound(enqueued(g, t, preview, truncated)),
{
    if sound(g) && to_be_told(g, t) {
        let after = enqueued(g, t, preview, truncated).completions;
        assert forall|i: int, j: int| 0 <= i < j < after.len() implies (
        #[trigger] after[i]).task_id != (#[trigger] after[j]).task_id by {
            assert(after[i] == g.completions[i]);
            if j < g.completions.len() {
                assert(after[j] == g.completions[j]);
            }
        }
    }
}

proof fn lemma_kept_tasks(tasks: Seq<(Seq<char>, TaskModel)>, older_than_ms: u64, now: u64)
    ensures
        ({
            let after = kept_tasks(tasks, older_than_ms, now);
            &&& forall|x: (Seq<char>, TaskModel)| #[trigger] after.contains(x) ==> tasks.contains(x)
                && kept(x.1, older_than_ms, now)
            &&& forall|x: (Seq<char>, TaskModel)| #[trigger]
                tasks.contains(x) && kept(x.1, older_than_ms, now) ==> after.contains(x)
            &&& unique_keys(tasks) ==> unique_keys(after)
            &&& (forall|i: int|
                0 <= i < tasks.len() ==> (#[trigger] tasks[i]).1.task.task_id == tasks[i].0) ==> (
            forall|i: int|
                0 <= i < after.len() ==> (#[trigger] after[i]).1.task.task_id == after[i].0)
        }),
    decreases tasks.len(),
{
    if tasks.len() > 0 {
        let front = tasks.drop_last();
        let x = tasks.last();
        lemma_kept_tasks(front, older_than_ms, now);
        let before = kept_tasks(front, older_than_ms, now);
        let after = kept_tasks(tasks, older_than_ms, now);
        assert forall|y: (Seq<char>, TaskModel)| #[trigger] after.contains(y) implies tasks.contains(
            y,
        ) && kept(y.1, older_than_ms, now) by {
            let k = choose|k: int| 0 <= k < after.len() && after[k] == y;
            if k < before.len() {
                assert(before[k] == y);
                assert(before.contains(y));
                let m = choose|m: int| 0 <= m < front.len() && front[m] == y;
                assert(tasks[m] == y);
            } else {
                assert(tasks[tasks.len() - 1] == y);
            }
        }
        assert forall|y: (Seq<char>, TaskModel)| #[trigger] tasks.contains(y) && kept(
            y.1,
            older_than_ms,
            now,
        ) implies after.contains(y) by {
            let k = choose|k: int| 0 <= k < tasks.len() && tasks[k] == y;
            if k < front.len() {
                assert(front[k] == y);
                assert(front.contains(y));
                let m = choose|m: int| 0 <= m < before.len() && before[m] == y;
                assert(after[m] == y);
            } else {
                assert(after[after.len() - 1] == y);
            }
        }
        if unique_keys(tasks) {
            assert(unique_keys(front)) by {
                assert forall|i: int, j: int| 0 <= i < j < front.len() implies front[i].0
                    != front[j].0 by {
                    assert(tasks[i].0 != tasks[j].0);
                }
            }
            assert forall|i: int, j: int| 0 <= i < j < after.len() implies after[i].0
                != after[j].0 by {
                if j < before.len() {
                    assert(before[i].0 != before[j].0);
                } else {
                    assert(before.contains(before[i]));
                    let m = choose|m: int| 0 <= m < front.len() && front[m] == before[i];
                    assert(tasks[m].0 != tasks[tasks.len() - 1].0);
                }
            }
        }
        if forall|i: int|
            0 <= i < tasks.len() ==> (#[trigger] tasks[i]).1.task.task_id == tasks[i].0 {
            assert forall|i: int| 0 <= i < front.len() implies (#[trigger] front[i]).1.task.task_id
                == front[i].0 by {
                assert(tasks[i].1.task.task_id == tasks[i].0);
            }
            assert forall|i: int| 0 <= i < after.len() implies (#[trigger] after[i]).1.task.task_id
                == after[i].0 by {
                if i < before.len() {
                    assert(after[i] == before[i]);
                } else {
                    assert(tasks[tasks.len() - 1].1.task.task_id == tasks[tasks.len() - 1].0);
                }
            }
        }
    }
}

proof fn lemma_kept_from(completions: Seq<Completion>, session: Option<Seq<char>>)
    ensures
        ({
            let after = kept_from(completions, session);
            &&& forall|x: Completion| #[trigger] after.contains(x) ==> completions.contains(x)
            &&& (forall|i: int, j: int|
                0 <= i < j < completions.len() ==> (#[trigger] completions[i]).task_id != (
                #[trigger] completions[j]).task_id) ==> (forall|i: int, j: int|
                0 <= i < j < after.len() ==> (#[trigger] after[i]).task_id != (
                #[trigger] after[j]).task_id)
        }),
    decreases completions.len(),
{
    if completions.len() > 0 {
        let front = completions.drop_last();
        lemma_kept_from(front, session);
        let before = kept_from(front, session);
        let after = kept_from(completions, session);
        assert forall|x: Completion| #[trigger] after.contains(x) implies completions.contains(
            x,
        ) by {
            let k = choose|k: int| 0 <= k < after.len() && after[k] == x;
            if k < before.len() {
                assert(before[k] == x);
                assert(before.contains(x));
                let m = choose|m: int| 0 <= m < front.len() && front[m] == x;
                assert(completions[m] == x);
            } else {
                assert(completions[completions.len() - 1] == x);
            }
        }
        if forall|i: int, j: int|
            0 <= i < j < completions.len() ==> (#[trigger] completions[i]).task_id != (
            #[trigger] completions[j]).task_id {
            assert forall|i: int, j: int| 0 <= i < j < front.len() implies (
            #[trigger] front[i]).task_id != (#[trigger] front[j]).task_id by {
                assert(completions[i].task_id != completions[j].task_id);
            }
            assert forall|i: int, j: int| 0 <= i < j < after.len() implies (
            #[trigger] after[i]).task_id != (#[trigger] after[j]).task_id by {
                assert(after[i] == before[i]);
                if j < before.len() {
                    assert(after[j] == before[j]);
                } else {
                    assert(before.contains(before[i]));
                    let m = choose|m: int| 0 <= m < front.len() && front[m] == before[i];
                    assert(completions[m].task_id != completions[completions.len() - 1].task_id);
                }
            }
        }
    }
}

proof fn lemma_told_to_all(completions: Seq<Completion>)
    ensures
        told_to(completions, None) == completions,
        kept_from(completions, None) == Seq::<Completion>::empty(),
    decreases completions.len(),
{
    if completions.len() > 0 {
        lemma_told_to_all(completions.drop_last());
        assert(told_to(completions, None) =~= completions);
    } else {
        assert(completions =~= Seq::<Completion>::empty());
    }
}

/// Forgetting old tasks keeps every task that has not ended.
pub proof fn cleanup_keeps_running_tasks(
    tasks: Seq<(Seq<char>, TaskModel)>,
    older_than_ms: u64,
    now: u64,
    x: (Seq<char>, TaskModel),
)
    requires
        tasks.contains(x),
        !x.1.task.status.terminal(),
    ensures
        kept_tasks(tasks, older_than_ms, now).contains(x),
{
    lemma_kept_tasks(tasks, older_than_ms, now);
}

/// Forgetting old tasks forgets every task that ended long enough ago, and nothing else.
pub proof fn cleanup_forgets_old_tasks(
    tasks: Seq<(Seq<char>, TaskModel)>,
    older_than_ms: u64,
    now: u64,
    x: (Seq<char>, TaskModel),
)
    ensures
        kept_tasks(tasks, older_than_ms, now).contains(x) <==> tasks.contains(x) && kept(
            x.1,
            older_than_ms,
            now,
        ),
{
    lemma_kept_tasks(tasks, older_than_ms, now);
}

/// Every end that is to be told is told to its session or kept, and none both.
pub proof fn drained_ends_are_told_once(completions: Seq<Completion>, session: Seq<char>)
    ensures
        told_to(completions, Some(session)).to_multiset().add(
            kept_from(completions, Some(session)).to_multiset(),
        ) == completions.to_multiset(),
        forall|i: int|
            0 <= i < told_to(completions, Some(session)).len() ==> (#[trigger] told_to(
                completions,
                Some(session),
            )[i]).session_id == session,
        forall|i: int|
            0 <= i < kept_from(completions, Some(session)).len() ==> (#[trigger] kept_from(
                completions,
                Some(session),
            )[i]).session_id != session,
    decreases completions.len(),
{
    let told = told_to(completions, Some(session));
    let rest = kept_from(completions, Some(session));
    told.to_multiset_ensures();
    rest.to_multiset_ensures();
    completions.to_multiset_ensures();
    if completions.len() > 0 {
        let front = completions.drop_last();
        let x = completions.last();
        drained_ends_are_told_once(front, session);
        let told0 = told_to(front, Some(session));
        let rest0 = kept_from(front, Some(session));
        told0.to_multiset_ensures();
        rest0.to_multiset_ensures();
        front.to_multiset_ensures();
        assert(completions =~= front.push(x));
        assert forall|i: int| 0 <= i < told.len() implies (#[trigger] told[i]).session_id
            == session by {
            if i < told0.len() {
                assert(told[i] == told0[i]);
            }
        }
        assert forall|i: int| 0 <= i < rest.len() implies (#[trigger] rest[i]).session_id
            != session by {
            if i < rest0.len() {
                assert(rest[i] == rest0[i]);
            }
        }
        assert(told.to_multiset().add(rest.to_multiset()) =~= completions.to_multiset());
    } else {
        assert(told.to_multiset().add(rest.to_multiset()) =~= completions.to_multiset());
    }
}

/// The end of a task that was told is not told again.
pub proof fn delivered_ends_are_not_told_again(
    g: Registry,
    t: Task,
    preview: Seq<char>,
    truncated: bool,
)
    requires
        t.completion_delivered || is_queued(g.completions, t.task_id),
    ensures
        enqueued(g, t, preview, truncated) == g,
{
}

/// A task that was ended for its time is told with the exit code for that.
pub proof fn timeouts_have_their_exit_code(t: Task, now: u64)
    ensures
        killed_task(t, true, now).status is TimedOut,
        killed_task(t, true, now).exit_code == Some(TIMEOUT_EXIT_CODE),
        killed_task(t, false, now).status is Killed,
        killed_task(t, false, now).exit_code is None,
        killed_task(t, true, now).status.terminal(),
        killed_task(t, false, now).status.terminal(),
{
}

/// Whatever was found of a task that is written down as never started or running, it is either
/// known as running afterwards, or has ended and is to be told.
pub proof fn replay_settles_every_task(
    g: Registry,
    s: StoredTask,
    paths: TaskFiles,
    f: ReplayFacts,
    unix_now: u64,
    now: u64,
    p: Preview,
)
    requires
        s.metadata.status is Starting || s.metadata.status is Running,
    ensures
        ({
            let t = s.metadata.deep_view();
            let after = replayed(g, s, paths, t.session_id, f, unix_now, now, p);
            match ended_meanwhile(t, f, unix_now) {
                Some(e) => e.status.terminal() && is_queued(after.completions, t.task_id),
                None => t.status is Running && table_get(after.tasks, t.task_id) == Some(
                    rehydrated(s, paths, now),
                ),
            }
        }),
{
    let t = s.metadata.deep_view();
    let after = replayed(g, s, paths, t.session_id, f, unix_now, now, p);
    match ended_meanwhile(t, f, unix_now) {
        Some(e) => {
            if !is_queued(g.completions, t.task_id) {
                assert(after.completions[g.completions.len() as int].task_id == t.task_id);
            }
        },
        None => {
            lemma_table_get_set(g.tasks, t.task_id, rehydrated(s, paths, now));
        },
    }
}

/// What happens to one task leaves every other as it is.
pub proof fn tasks_are_independent(g: Registry, id: Seq<char>, t: TaskModel, other: Seq<char>)
    requires
        other != id,
    ensures
        table_get(table_set(g.tasks, id, t), other) == table_get(g.tasks, other),
        table_get(table_set(g.tasks, id, t), id) == Some(t),
{
    lemma_table_get_set(g.tasks, id, t);
    lemma_table_get_set_other(g.tasks, id, t, other);
}

/// A task that left a marker has ended as the marker says: with its exit code, well where that is
/// zero and badly otherwise, or killed.
pub proof fn markers_tell_how_tasks_ended(
    t: Task,
    code: i32,
    reason: Option<Seq<char>>,
    now: u64,
)
    ensures
        ({
            let r = marked_task(t, ExitMarker::Code(code), reason, now);
            &&& code == 0 ==> r.status is Completed
            &&& code != 0 ==> r.status is Failed
            &&& r.exit_code == Some(code)
            &&& r.finished_at == Some(now)
            &&& r.task_id == t.task_id && r.session_id == t.session_id && r.command == t.command
            &&& !r.completion_delivered
        }),
        ({
            let r = marked_task(t, ExitMarker::Killed, reason, now);
            &&& r.status is Killed
            &&& r.exit_code is None
            &&& r.finished_at == Some(now)
        }),
{
}

/// What became of a task that is written down while nobody looked: one that was never started has
/// failed, one that has run for more than a day is lost, one with a marker has ended as it says, and
/// one whose process is gone has failed. Any other goes on as it is.
pub proof fn tasks_end_while_nobody_looks(t: Task, f: ReplayFacts, now: u64)
    ensures
        ({
            let r = ended_meanwhile(t, f, now);
            let age = if now >= t.started_at {
                now - t.started_at
            } else {
                0
            };
            let runs = t.status is Running;
            let lost = runs && age > 86400000;
            &&& t.status is Starting ==> r is Some && r->0.status is Failed && r->0.status_reason
                == Some("spawn aborted"@)
            &&& lost ==> r is Some && r->0.status is Killed && r->0.status_reason == Some(
                "orphaned (>24h)"@,
            )
            &&& runs && !lost && f.marker is Some ==> r == Some(
                marked_task(t, f.marker->0, None, now),
            )
            &&& runs && !lost && f.marker is None && t.child_pid is Some && !f.alive ==> r is Some
                && r->0.status is Failed && r->0.status_reason == Some(
                "process exited without exit marker"@,
            )
            &&& runs && !lost && f.marker is None && (t.child_pid is None || f.alive) ==> r is None
            &&& !runs && !(t.status is Starting) ==> r is None
            &&& r is Some ==> r->0.task_id == t.task_id && r->0.finished_at == Some(now)
        }),
{
}

/// What is told of the end of a task is the task's own: its name, its session, its status, its exit
/// code and its command. It is told once, and only where the task has ended and it was not told.
pub proof fn ends_are_told_of_their_task(
    g: Registry,
    t: Task,
    preview: Seq<char>,
    truncated: bool,
)
    ensures
        ({
            let r = enqueued(g, t, preview, truncated);
            let ended = t.status is Completed || t.status is Failed || t.status is Killed
                || t.status is TimedOut;
            let told = t.completion_delivered || exists|i: int|
                0 <= i < g.completions.len() && (#[trigger] g.completions[i]).task_id == t.task_id;
            &&& ended && !told ==> r.completions.len() == g.completions.len() + 1 && {
                let c = r.completions.last();
                &&& c.task_id == t.task_id
                &&& c.session_id == t.session_id
                &&& c.status == t.status
                &&& c.exit_code == t.exit_code
                &&& c.command == t.command
                &&& c.preview == preview
                &&& c.truncated == truncated
            }
            &&& !ended || told ==> r == g
            &&& r.tasks == g.tasks
        }),
{
}

/// A task is found by its name in its own session, and in no other.
pub proof fn tasks_are_found_in_their_session(
    g: Registry,
    task_id: Seq<char>,
    session: Seq<char>,
)
    ensures
        match task_of(g, task_id, session) {
            Some(t) => table_get(g.tasks, task_id) == Some(t) && t.task.session_id == session,
            None => table_get(g.tasks, task_id) is None || (table_get(
                g.tasks,
                task_id,
            )->0).task.session_id != session,
        },
{
}

/// The tasks that are counted as running, and told by their names, are those that run.
pub proof fn running_tasks_are_counted(
    tasks: Seq<(Seq<char>, TaskModel)>,
    e: (Seq<char>, TaskModel),
)
    ensures
        e.1.task.status is Running ==> running(tasks.push(e)) == running(tasks) + 1
            && running_names(tasks.push(e)) == running_names(tasks).push(e.0),
        !(e.1.task.status is Running) ==> running(tasks.push(e)) == running(tasks)
            && running_names(tasks.push(e)) == running_names(tasks),
{
    assert(tasks.push(e).drop_last() =~= tasks);
}

/// A running task is ended once it has run for as long as it may, and looked after until then; a
/// task that does not run is let be.
pub proof fn running_tasks_are_ended_after_their_time(t: TaskModel, now: u64)
    ensures
        ({
            let r = watchdog_step(t, now);
            let age = if now >= t.started {
                now - t.started
            } else {
                0
            };
            &&& !(t.task.status is Running) ==> r is Skip
            &&& t.task.status is Running && t.task.timeout_ms is None ==> r is Reap
            &&& t.task.status is Running && t.task.timeout_ms is Some && age >= t.task.timeout_ms->0
                ==> r is TimedOut
            &&& t.task.status is Running && t.task.timeout_ms is Some && age < t.task.timeout_ms->0
                ==> r is Reap
        }),
{
}

/// A reminder of a task is due once as much time has gone by since the last one, or since the start,
/// as lies between two; never where there are none.
pub proof fn reminders_are_due_in_turn(g: Registry, t: TaskModel, now: u64)
    ensures
        ({
            let since = if t.last_reminder_at is Some {
                t.last_reminder_at->0
            } else {
                t.started
            };
            &&& !g.reminders || g.interval == 0 ==> !reminder_due(g, t, now)
            &&& g.reminders && g.interval > 0 && now >= since ==> (reminder_due(g, t, now)
                <==> now - since >= g.interval)
            &&& g.interval > 0 && now < since ==> !reminder_due(g, t, now)
        }),
{
}

/// What is told of a task is the task's own. The short form of its output is told only where it has
/// ended and asks for it, and how long it took once it has ended.
pub proof fn tasks_are_told_as_they_are(
    t: TaskModel,
    now: u64,
    p: Preview,
    compress: bool,
    output_path: Option<Seq<char>>,
    stderr_path: Seq<char>,
)
    ensures
        ({
            let r = snapshot_of(t, now, p, compress, output_path, stderr_path);
            let ended = t.task.status is Completed || t.task.status is Failed
                || t.task.status is Killed || t.task.status is TimedOut;
            &&& r.info.task_id == t.task.task_id
            &&& r.info.status == t.task.status
            &&& r.info.command == t.task.command
            &&& r.info.started_at == t.task.started_at
            &&& t.task.duration_ms is Some ==> r.info.duration_ms == t.task.duration_ms
            &&& t.task.duration_ms is None && !ended ==> r.info.duration_ms is None
            &&& t.task.duration_ms is None && ended && now >= t.started ==> r.info.duration_ms
                is Some && r.info.duration_ms->0 == now - t.started
            &&& r.exit_code == t.task.exit_code
            &&& r.child_pid == t.task.child_pid
            &&& r.workdir == t.task.workdir
            &&& compress && ended && t.compressed ==> r.preview == p.compressed@
            &&& !(compress && ended && t.compressed) ==> r.preview == p.raw@
            &&& r.truncated == p.truncated
            &&& r.output_path == output_path
            &&& r.stderr_path == Some(stderr_path)
        }),
{
}

/// A name is free where no task and no end that is to be told has it, and the first free one is
/// taken.
pub proof fn first_free_names_are_taken(reg: Registry, names: Seq<Seq<char>>, k: int)
    requires
        0 <= k <= names.len(),
        forall|i: int| 0 <= i < k ==> !name_free(reg, #[trigger] names[i]),
        k < names.len() ==> table_get(reg.tasks, names[k]) is None && forall|i: int|
            0 <= i < reg.completions.len() ==> (#[trigger] reg.completions[i]).task_id != names[k],
    ensures
        k < names.len() ==> first_free_name(reg, names) == Some(names[k]),
        k == names.len() ==> first_free_name(reg, names) is None,
    decreases k,
{
    if k > 0 {
        assert(!name_free(reg, names[0]));
        let rest = names.drop_first();
        assert forall|i: int| 0 <= i < k - 1 implies !name_free(reg, #[trigger] rest[i]) by {
            assert(rest[i] == names[i + 1]);
        }
        first_free_names_are_taken(reg, rest, k - 1);
    }
}

/// A task is forgotten once it has ended for as long as tasks are kept, and not before.
pub proof fn ended_tasks_are_kept_for_a_while(t: TaskModel, older_than_ms: u64, now: u64, at: u64)
    requires
        t.task.status is Completed || t.task.status is Failed || t.task.status is Killed
            || t.task.status is TimedOut,
        t.terminal_at == Some(at),
        at <= now,
    ensures
        now >= older_than_ms ==> (kept(t, older_than_ms, now) <==> now - at < older_than_ms),
{
}

/// A task that ran for too long is told with the exit code 124.
pub proof fn timeouts_are_told_by_their_code(t: Task, now: u64)
    ensures
        killed_task(t, true, now).exit_code == Some(124i32),
        killed_task(t, true, now).finished_at == Some(now),
        killed_task(t, false, now).finished_at == Some(now),
        killed_task(t, true, now).task_id == t.task_id,
{
}

/// The name of a task is made of eight bytes, two digits for each, the higher one first.
pub proof fn names_of_tasks_are_hexadecimal(b: Seq<u8>, x: u8, d: int)
    ensures
        hex_text(b.push(x)) == hex_text(b) + seq![
            hex_digit(x as int / 16),
            hex_digit(x as int % 16),
        ],
        0 <= d < 10 ==> hex_digit(d) as int == 48 + d,
        10 <= d < 16 ==> hex_digit(d) as int == 87 + d,
        slug(b) == seq!['b', 'g', 'b', '-'] + hex_text(b),
{
    assert(b.push(x).drop_last() =~= b);
    assert(hex_text(b.push(x)) =~= hex_text(b) + seq![
        hex_digit(x as int / 16),
        hex_digit(x as int % 16),
    ]);
    reveal_strlit("bgb-");
    assert("bgb-"@ =~= seq!['b', 'g', 'b', '-']);
}

/// The bytes of a number are its digits to the base of 256, the lowest first.
pub proof fn bytes_are_digits_of_their_number(n: u64, i: int)
    requires
        0 <= i < 7,
    ensures
        byte_of(n, 0) == n % 256,
        byte_of(n, i + 1) == byte_of(n / 256, i),
{
    assert(n / 256 / 0x100 == n / 0x1_0000) by (bit_vector);
    assert(n / 256 / 0x1_0000 == n / 0x100_0000) by (bit_vector);
    assert(n / 256 / 0x100_0000 == n / 0x1_0000_0000) by (bit_vector);
    assert(n / 256 / 0x1_0000_0000 == n / 0x100_0000_0000) by (bit_vector);
    assert(n / 256 / 0x100_0000_0000 == n / 0x1_0000_0000_0000) by (bit_vector);
    assert(n / 256 / 0x1_0000_0000_0000 == n / 0x100_0000_0000_0000) by (bit_vector);
    assert(n / 0x100_0000_0000_0000 < 256) by (bit_vector);
}

/// A task that has ended keeps the instant of its end, and has the present one where it had none. A
/// task whose process is gone without a marker has failed, unless it had ended before.
pub proof fn ends_keep_their_instant(t: TaskModel, task: Task, now: u64)
    ensures
        t.terminal_at is Some ==> finished(t, task, now).terminal_at == t.terminal_at,
        t.terminal_at is None ==> finished(t, task, now).terminal_at == Some(now),
        finished(t, task, now).task == task,
        finished(t, task, now).started == t.started,
        task.status.terminal() ==> lost_task(task, now).status == task.status && lost_task(
            task,
            now,
        ).exit_code == task.exit_code,
        !task.status.terminal() ==> lost_task(task, now).status is Failed && lost_task(
            task,
            now,
        ).status_reason == Some("process exited without exit marker"@),
{
}

/// Tasks are told by their names with their sessions, in order; one that is not known is told by the
/// name that was asked for.
pub proof fn tasks_are_named_with_their_session(
    tasks: Seq<(Seq<char>, TaskModel)>,
    i: int,
    id: Seq<char>,
)
    ensures
        names_of(tasks).len() == tasks.len(),
        0 <= i < tasks.len() ==> names_of(tasks)[i] == (tasks[i].0, tasks[i].1.task.session_id),
        not_found(id) == "background task not found: "@ + id,
{
}

} // verus!
