//! How a process is ended.
use vstd::prelude::*;

use crate::text::{strs, text3, text4, texts};

verus! {

/// How long a process has to end by itself once it was asked to, in milliseconds.
pub const TERMINATE_GRACE_MS: u64 = 3000;

/// How long to wait before looking again, in milliseconds.
pub const TERMINATE_POLL_MS: u64 = 50;

/// What is to be done about a process that was asked to end.
#[derive(Clone, Copy, Debug, PartialEq, Eq, Structural)]
pub enum TerminateStep {
    /// Nothing: it has ended.
    Done,
    /// It is to be waited for, a number of milliseconds.
    Wait(u64),
    /// It is to be made to end.
    Kill,
}

/// What is to be done about a process that was asked to end some time ago. `exited` is looked
/// at only while the process has time to end by itself.
pub fn terminate_step(elapsed_ms: u64, exited: bool) -> (r: TerminateStep)
    ensures
        r == (if elapsed_ms >= TERMINATE_GRACE_MS {
            TerminateStep::Kill
        } else if exited {
            TerminateStep::Done
        } else {
            TerminateStep::Wait(TERMINATE_POLL_MS)
        }),
{
    if elapsed_ms >= TERMINATE_GRACE_MS {
        TerminateStep::Kill
    } else if exited {
        TerminateStep::Done
    } else {
        TerminateStep::Wait(TERMINATE_POLL_MS)
    }
}

/// The script that runs a command in a shell of its own and leaves its exit code behind, with
/// the shell, the command and the place for the code as its arguments.
pub fn wrapper_script() -> (r: &'static str)
    ensures
        r@
            == "\"$0\" -c \"$1\"; code=$?; printf \"%s\" \"$code\" > \"$2.tmp.$$\"; mv -f \"$2.tmp.$$\" \"$2\""@,
{
    "\"$0\" -c \"$1\"; code=$?; printf \"%s\" \"$code\" > \"$2.tmp.$$\"; mv -f \"$2.tmp.$$\" \"$2\""
}

/// A shell that can run a command where there is no POSIX shell by default.
#[derive(Clone, Copy, Debug, PartialEq, Eq, Structural)]
pub enum ShellKind {
    Pwsh,
    Powershell,
    Cmd,
    Posix,
}

/// The extension of the file that a script for a shell is written to.
pub fn wrapper_extension(shell: ShellKind) -> (r: &'static str)
    ensures
        r@ == (match shell {
            ShellKind::Pwsh | ShellKind::Powershell => "ps1"@,
            ShellKind::Cmd => "bat"@,
            ShellKind::Posix => "sh"@,
        }),
{
    match shell {
        ShellKind::Pwsh | ShellKind::Powershell => "ps1",
        ShellKind::Cmd => "bat",
        ShellKind::Posix => "sh",
    }
}

/// The arguments that a shell gets in front of the file with the script.
pub open spec fn shell_args(shell: ShellKind) -> Seq<Seq<char>> {
    match shell {
        ShellKind::Pwsh | ShellKind::Powershell => seq![
            "-NoLogo"@,
            "-NoProfile"@,
            "-NonInteractive"@,
            "-ExecutionPolicy"@,
            "Bypass"@,
            "-File"@,
        ],
        ShellKind::Cmd => seq!["/V:ON"@, "/D"@, "/C"@],
        ShellKind::Posix => Seq::empty(),
    }
}

/// The arguments that a shell gets in front of the file with the script.
pub fn wrapper_args(shell: ShellKind) -> (r: Vec<&'static str>)
    ensures
        strs(r@) == shell_args(shell),
{
    let r: Vec<&'static str> = match shell {
        ShellKind::Pwsh | ShellKind::Powershell => vec![
            "-NoLogo",
            "-NoProfile",
            "-NonInteractive",
            "-ExecutionPolicy",
            "Bypass",
            "-File",
        ],
        ShellKind::Cmd => vec!["/V:ON", "/D", "/C"],
        ShellKind::Posix => Vec::new(),
    };
    assert(strs(r@) =~= shell_args(shell));
    r
}

/// How an attempt to start a shell ended.
pub enum SpawnOutcome {
    Spawned,
    /// There is no such shell.
    NotFound(String),
    /// The process was not allowed to leave the group of its parent, or not at all.
    AccessDenied(String),
    Failed(String),
}

/// What follows an attempt to start a shell.
pub enum SpawnNext {
    Done,
    /// A shell is to be tried, inside or outside the group of its parent; so far, this went
    /// wrong last.
    Try { shell: usize, breakaway: bool, last_error: String },
    /// No shell is left; this went wrong last.
    Exhausted { last_error: String },
    Fail { message: String },
}

/// The model of a `SpawnNext`.
pub ghost enum NextSpawn {
    Done,
    Try { shell: int, breakaway: bool, last_error: Seq<char> },
    Exhausted { last_error: Seq<char> },
    Fail { message: Seq<char> },
}

impl DeepView for SpawnNext {
    type V = NextSpawn;

    open spec fn deep_view(&self) -> NextSpawn {
        match *self {
            SpawnNext::Done => NextSpawn::Done,
            SpawnNext::Try { shell, breakaway, last_error } => NextSpawn::Try {
                shell: shell as int,
                breakaway,
                last_error: last_error@,
            },
            SpawnNext::Exhausted { last_error } => NextSpawn::Exhausted {
                last_error: last_error@,
            },
            SpawnNext::Fail { message } => NextSpawn::Fail { message: message@ },
        }
    }
}

/// What follows an attempt to start one of some shells: the next one where it is not there, the
/// same one inside the group of its parent where it must not leave it, and nothing otherwise.
pub open spec fn next_spawn(
    shells: Seq<Seq<char>>,
    shell: int,
    breakaway: bool,
    outcome: SpawnOutcome,
) -> NextSpawn {
    match outcome {
        SpawnOutcome::Spawned => NextSpawn::Done,
        SpawnOutcome::NotFound(e) => if shell + 1 < shells.len() {
            NextSpawn::Try {
                shell: shell + 1,
                breakaway: true,
                last_error: shells[shell] + ": "@ + e@,
            }
        } else {
            NextSpawn::Exhausted { last_error: shells[shell] + ": "@ + e@ }
        },
        SpawnOutcome::AccessDenied(e) => if breakaway {
            NextSpawn::Try { shell, breakaway: false, last_error: shells[shell] + ": "@ + e@ }
        } else {
            NextSpawn::Fail {
                message: "failed to spawn background bash command via "@ + shells[shell] + ": "@
                    + e@,
            }
        },
        SpawnOutcome::Failed(e) => NextSpawn::Fail {
            message: "failed to spawn background bash command via "@ + shells[shell] + ": "@ + e@,
        },
    }
}

/// What follows an attempt to start one of some shells.
pub fn after_attempt(
    shells: &Vec<String>,
    shell: usize,
    breakaway: bool,
    outcome: &SpawnOutcome,
) -> (r: SpawnNext)
    requires
        shell < shells@.len(),
    ensures
        r.deep_view() == next_spawn(texts(shells@), shell as int, breakaway, *outcome),
{
    let ghost all = texts(shells@);
    assert(all[shell as int] == shells@[shell as int]@);
    assert(all.len() == shells@.len());
    let name = shells[shell].as_str();
    match outcome {
        SpawnOutcome::Spawned => SpawnNext::Done,
        SpawnOutcome::NotFound(e) => {
            let last_error = text3(name, ": ", e.as_str());
            if shell < shells.len() - 1 {
                SpawnNext::Try { shell: shell + 1, breakaway: true, last_error }
            } else {
                SpawnNext::Exhausted { last_error }
            }
        },
        SpawnOutcome::AccessDenied(e) => {
            if breakaway {
                SpawnNext::Try {
                    shell,
                    breakaway: false,
                    last_error: text3(name, ": ", e.as_str()),
                }
            } else {
                SpawnNext::Fail {
                    message: text4(
                        "failed to spawn background bash command via ",
                        name,
                        ": ",
                        e.as_str(),
                    ),
                }
            }
        },
        SpawnOutcome::Failed(e) => SpawnNext::Fail {
            message: text4(
                "failed to spawn background bash command via ",
                name,
                ": ",
                e.as_str(),
            ),
        },
    }
}

/// Every attempt that follows another is for a later shell, or for the same one where it is
/// allowed less: the attempts come to an end.
pub proof fn attempts_come_to_an_end(
    shells: Seq<Seq<char>>,
    shell: int,
    breakaway: bool,
    outcome: SpawnOutcome,
)
    requires
        0 <= shell < shells.len(),
    ensures
        match next_spawn(shells, shell, breakaway, outcome) {
            NextSpawn::Try { shell: next, breakaway: allowed, last_error } => shell <= next
                < shells.len() && (next == shell ==> breakaway && !allowed),
            _ => true,
        },
{
}

/// Where a shell is not there the next one is tried, where there is one; where it must not leave its
/// group it is tried once more inside it; any other failure ends the attempts.
pub proof fn shells_are_tried_in_turn(
    shells: Seq<Seq<char>>,
    shell: int,
    breakaway: bool,
    outcome: SpawnOutcome,
)
    requires
        0 <= shell < shells.len(),
    ensures
        ({
            let r = next_spawn(shells, shell, breakaway, outcome);
            &&& outcome is Spawned <==> r is Done
            &&& outcome is NotFound && shell + 1 < shells.len() ==> r is Try && r->shell == shell + 1
                && r->breakaway
            &&& outcome is NotFound && shell + 1 == shells.len() ==> r is Exhausted
            &&& outcome is AccessDenied && breakaway ==> r is Try && r->shell == shell
                && !r->breakaway
            &&& outcome is AccessDenied && !breakaway ==> r is Fail
            &&& outcome is Failed ==> r is Fail
        }),
{
}

/// Each kind of shell gets its own arguments before its script.
pub proof fn shells_get_their_own_arguments(shell: ShellKind)
    ensures
        match shell {
            ShellKind::Pwsh | ShellKind::Powershell => shell_args(shell) == seq![
                "-NoLogo"@,
                "-NoProfile"@,
                "-NonInteractive"@,
                "-ExecutionPolicy"@,
                "Bypass"@,
                "-File"@,
            ],
            ShellKind::Cmd => shell_args(shell) == seq!["/V:ON"@, "/D"@, "/C"@],
            ShellKind::Posix => shell_args(shell).len() == 0,
        },
{
}

} // verus!
