//! Shell commands that run in the background: what is known of a task, how its state
//! changes, and what is told of it.
use vstd::prelude::*;

use crate::commands::refusal::{refuse, refused, Refusal, RefusalModel};
use crate::paths::{join_path, path_join};
use crate::text::{contains, occurs, owned};

pub mod buffer;
pub mod persistence;
pub mod process;
pub mod registry;

verus! {

/// Where a background task stands.
#[derive(Debug, Clone, Copy, PartialEq, Eq, Structural)]
pub enum BgTaskStatus {
    Starting,
    Running,
    Killing,
    Completed,
    Failed,
    Killed,
    TimedOut,
}

impl BgTaskStatus {
    /// Whether nothing more happens to a task.
    pub open spec fn terminal(self) -> bool {
        self is Completed || self is Failed || self is Killed || self is TimedOut
    }

    /// Whether nothing more happens to a task.
    pub fn is_terminal(&self) -> (r: bool)
        ensures
            r == self.terminal(),
    {
        matches!(
            self,
            BgTaskStatus::Completed
                | BgTaskStatus::Failed
                | BgTaskStatus::Killed
                | BgTaskStatus::TimedOut
        )
    }
}

/// What is told of a task in short.
#[derive(Debug, Clone)]
pub struct BgTaskInfo {
    pub task_id: String,
    pub status: BgTaskStatus,
    pub command: String,
    pub started_at: u64,
    pub duration_ms: Option<u64>,
}

/// The model of a `BgTaskInfo`.
pub ghost struct TaskInfo {
    pub task_id: Seq<char>,
    pub status: BgTaskStatus,
    pub command: Seq<char>,
    pub started_at: u64,
    pub duration_ms: Option<u64>,
}

impl DeepView for BgTaskInfo {
    type V = TaskInfo;

    open spec fn deep_view(&self) -> TaskInfo {
        TaskInfo {
            task_id: self.task_id@,
            status: self.status,
            command: self.command@,
            started_at: self.started_at,
            duration_ms: self.duration_ms,
        }
    }
}

/// What an attempt to start a task is answered with: the task's name, or why there is
/// none. A full registry is told apart from other failures.
pub open spec fn spawn_answer(
    enabled: bool,
    spawned: Result<Seq<char>, Seq<char>>,
) -> Result<Seq<char>, RefusalModel> {
    if !enabled {
        Err(
            refused(
                "feature_disabled"@,
                "background bash is disabled; set `experimental.bash.background: true` in aft.jsonc"@,
            ),
        )
    } else {
        match spawned {
            Ok(task_id) => Ok(task_id),
            Err(message) => Err(
                refused(
                    if occurs(message, "limit exceeded"@) {
                        "background_task_limit_exceeded"@
                    } else {
                        "execution_failed"@
                    },
                    message,
                ),
            ),
        }
    }
}

/// The answer to a request for a background task, where the registry gave `spawned`. A
/// task that was started is running.
pub fn spawn(enabled: bool, spawned: Result<String, String>) -> (r: Result<
    (String, BgTaskStatus),
    Refusal,
>)
    ensures
        match (
            r,
            spawn_answer(
                enabled,
                match spawned {
                    Ok(id) => Ok(id@),
                    Err(m) => Err(m@),
                },
            ),
        ) {
            (Ok(answer), Ok(id)) => answer.0@ == id && answer.1 is Running,
            (Err(e), Err(why)) => e.deep_view() == why,
            _ => false,
        },
{
    if !enabled {
        return Err(
            refuse(
                "feature_disabled",
                owned(
                    "background bash is disabled; set `experimental.bash.background: true` in aft.jsonc",
                ),
            ),
        );
    }
    match spawned {
        Ok(task_id) => Ok((task_id, BgTaskStatus::Running)),
        Err(message) => {
            if contains(message.as_str(), "limit exceeded") {
                Err(refuse("background_task_limit_exceeded", message))
            } else {
                Err(refuse("execution_failed", message))
            }
        },
    }
}

/// The directory that background tasks are stored under: the configured one, or else one
/// below the cache directory, or below the home directory.
pub open spec fn storage_root(
    configured: Option<Seq<char>>,
    cache: Option<Seq<char>>,
    home: Option<Seq<char>>,
) -> Seq<char> {
    match (configured, cache) {
        (Some(dir), _) => dir,
        (None, Some(dir)) => path_join(dir, "aft"@),
        (None, None) => path_join(
            path_join(
                match home {
                    Some(h) => h,
                    None => "."@,
                },
                ".cache"@,
            ),
            "aft"@,
        ),
    }
}

/// The directory that background tasks are stored under. `cache_dir` and `home` are the
/// values of the environment variables `AFT_CACHE_DIR` and `HOME`.
pub fn storage_dir(configured: Option<&str>, cache_dir: Option<&str>, home: Option<&str>) -> (r:
    String)
    ensures
        r@ == storage_root(
            match configured {
                Some(s) => Some(s@),
                None => None,
            },
            match cache_dir {
                Some(s) => Some(s@),
                None => None,
            },
            match home {
                Some(s) => Some(s@),
                None => None,
            },
        ),
{
    if let Some(dir) = configured {
        return owned(dir);
    }
    if let Some(dir) = cache_dir {
        return join_path(dir, "aft");
    }
    let base = match home {
        Some(h) => h,
        None => ".",
    };
    join_path(join_path(base, ".cache").as_str(), "aft")
}

/// A task that was started is told by its name. Where tasks are switched off, and where one could not
/// be started, it is refused, a full registry under a code of its own.
pub proof fn started_tasks_are_told_by_name(enabled: bool, spawned: Result<Seq<char>, Seq<char>>)
    ensures
        match spawn_answer(enabled, spawned) {
            Ok(id) => enabled && spawned == Ok::<Seq<char>, Seq<char>>(id),
            Err(RefusalModel::Request { code, message }) => {
                &&& !enabled || spawned is Err
                &&& !enabled ==> code == "feature_disabled"@
                &&& enabled ==> message == spawned->Err_0
                &&& enabled && occurs(spawned->Err_0, "limit exceeded"@) ==> code
                    == "background_task_limit_exceeded"@
                &&& enabled && !occurs(spawned->Err_0, "limit exceeded"@) ==> code
                    == "execution_failed"@
            },
            Err(_) => false,
        },
{
}

/// Tasks are stored in the directory that is set, else below the cache directory, else below the home
/// directory.
pub proof fn tasks_are_stored_where_it_is_set(
    configured: Option<Seq<char>>,
    cache: Option<Seq<char>>,
    home: Option<Seq<char>>,
)
    ensures
        configured is Some ==> storage_root(configured, cache, home) == configured->0,
        configured is None && cache is Some ==> storage_root(configured, cache, home) == path_join(
            cache->0,
            "aft"@,
        ),
        configured is None && cache is None && home is Some ==> storage_root(
            configured,
            cache,
            home,
        ) == path_join(path_join(home->0, ".cache"@), "aft"@),
{
}

} // verus!
