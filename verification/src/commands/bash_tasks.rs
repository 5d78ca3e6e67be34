//! Requests about background tasks.
use vstd::prelude::*;

use crate::bash_background::registry::{
    kept_from, not_found, told_to, BgCompletion, BgTaskRegistry, BgTaskSnapshot, Registry,
};
use crate::commands::refusal::{invalid, refuse, refused, reject, Refusal, RefusalModel};
use crate::models::models;
use crate::text::{contains, occurs, text2, text3};

verus! {

/// How much of the output is told with the status of a task, in bytes.
pub const PREVIEW_BYTES: usize = 5120;

/// The task that the parameters of a command name, or why they name none.
pub open spec fn asked_task(command: Seq<char>, params: Result<Option<String>, String>) -> Result<
    Seq<char>,
    RefusalModel,
> {
    match params {
        Err(e) => Err(invalid(command + ": invalid params: "@ + e@)),
        Ok(None) => Err(invalid(command + ": missing task_id"@)),
        Ok(Some(id)) => Ok(id@),
    }
}

/// The task that the parameters of a command name.
pub fn read_task_id(command: &str, params: Result<Option<String>, String>) -> (r: Result<
    String,
    Refusal,
>)
    ensures
        match (r, asked_task(command@, params)) {
            (Ok(a), Ok(b)) => a@ == b,
            (Err(e), Err(m)) => e.deep_view() == m,
            _ => false,
        },
{
    match params {
        Err(e) => Err(reject(text3(command, ": invalid params: ", e.as_str()).as_str())),
        Ok(None) => Err(reject(text2(command, ": missing task_id").as_str())),
        Ok(Some(id)) => Ok(id),
    }
}

/// The answer to a request to end a task, where ending it gave `killed`: a task that is not
/// known is told apart from other failures.
pub fn answer_kill(killed: Result<BgTaskSnapshot, String>) -> (r: Result<BgTaskSnapshot, Refusal>)
    ensures
        match (r, killed) {
            (Ok(a), Ok(b)) => a == b,
            (Err(e), Err(m)) => e.deep_view() == refused(
                if occurs(m@, "not found"@) {
                    "task_not_found"@
                } else {
                    "kill_failed"@
                },
                m@,
            ),
            _ => false,
        },
{
    match killed {
        Ok(snapshot) => Ok(snapshot),
        Err(message) => {
            if contains(message.as_str(), "not found") {
                Err(refuse("task_not_found", message))
            } else {
                Err(refuse("kill_failed", message))
            }
        },
    }
}

/// The answer to a request for the status of a task.
pub fn answer_status(task_id: &str, snapshot: Option<BgTaskSnapshot>) -> (r: Result<
    BgTaskSnapshot,
    Refusal,
>)
    ensures
        match (r, snapshot) {
            (Ok(a), Some(b)) => a == b,
            (Err(e), None) => e.deep_view() == refused("task_not_found"@, not_found(task_id@)),
            _ => false,
        },
{
    match snapshot {
        Some(s) => Ok(s),
        None => Err(refuse("task_not_found", text2("background task not found: ", task_id))),
    }
}

/// The ends of tasks that are told to a session; they are told once.
pub fn drain_completions(registry: &mut BgTaskRegistry, session: &str) -> (r: Vec<BgCompletion>)
    ensures
        models(r@) == told_to(old(registry)@.completions, Some(session@)),
        final(registry)@ == (Registry {
            completions: kept_from(old(registry)@.completions, Some(session@)),
            ..old(registry)@
        }),
{
    registry.drain_completions_for_session(Some(session))
}

/// A command about a task names the task, and is refused where it names none.
pub proof fn commands_name_their_task(
    command: Seq<char>,
    params: Result<Option<String>, String>,
)
    ensures
        match asked_task(command, params) {
            Ok(id) => params is Ok && params->Ok_0 is Some && id == (params->Ok_0->0)@,
            Err(_) => params is Err || params->Ok_0 is None,
        },
{
}

} // verus!
