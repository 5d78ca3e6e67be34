//! What requests to language servers have in common.
use vstd::prelude::*;

use crate::commands::refusal::{invalid, refuse, refused, reject, Refusal, RefusalModel};
use crate::models::{group_models, models};
use crate::text::{owned, text2, text3};

verus! {

/// How far a request to a language server has come.
pub enum LspStep {
    /// The file could not be opened.
    OpenFailed(String),
    /// The file is open in a number of servers.
    Opened(usize),
    /// The path of the file could not be resolved.
    NotResolved(String),
    /// The position could not be expressed.
    NoPosition(String),
    /// Whether a server is there for the file.
    Client(bool),
    /// The server could not answer.
    RequestFailed(String),
}

/// Why a command ends at a step, where it does.
pub open spec fn step_refusal(command: Seq<char>, step: LspStep) -> Option<RefusalModel> {
    match step {
        LspStep::OpenFailed(e) => Some(
            refused("lsp_error"@, command + ": failed to open file: "@ + e@),
        ),
        LspStep::Opened(servers) => if servers == 0 {
            Some(refused("no_server"@, command + ": no LSP server available for this file"@))
        } else {
            None
        },
        LspStep::NotResolved(e) => Some(
            refused("lsp_error"@, command + ": cannot canonicalize path: "@ + e@),
        ),
        LspStep::NoPosition(e) => Some(
            refused("lsp_error"@, command + ": failed to build position: "@ + e@),
        ),
        LspStep::Client(there) => if there {
            None
        } else {
            Some(refused("no_server"@, command + ": no active LSP client for file"@))
        },
        LspStep::RequestFailed(e) => Some(
            refused("lsp_error"@, command + ": request failed: "@ + e@),
        ),
    }
}

/// Why a command ends at a step, where it does.
pub fn check_step(command: &str, step: &LspStep) -> (r: Option<Refusal>)
    ensures
        match (r, step_refusal(command@, *step)) {
            (Some(e), Some(m)) => e.deep_view() == m,
            (None, None) => true,
            _ => false,
        },
{
    match step {
        LspStep::OpenFailed(e) => Some(
            refuse("lsp_error", text3(command, ": failed to open file: ", e.as_str())),
        ),
        LspStep::Opened(servers) => {
            if *servers == 0 {
                Some(
                    refuse(
                        "no_server",
                        text2(command, ": no LSP server available for this file"),
                    ),
                )
            } else {
                None
            }
        },
        LspStep::NotResolved(e) => Some(
            refuse("lsp_error", text3(command, ": cannot canonicalize path: ", e.as_str())),
        ),
        LspStep::NoPosition(e) => Some(
            refuse("lsp_error", text3(command, ": failed to build position: ", e.as_str())),
        ),
        LspStep::Client(there) => {
            if *there {
                None
            } else {
                Some(refuse("no_server", text2(command, ": no active LSP client for file")))
            }
        },
        LspStep::RequestFailed(e) => Some(
            refuse("lsp_error", text3(command, ": request failed: ", e.as_str())),
        ),
    }
}

/// A position that a request names, or why the request cannot be read.
pub struct LspRequest {
    pub file: String,
    pub line: u32,
    pub character: u32,
}

/// Why a request for a position is refused before any server is asked.
pub open spec fn request_refusal(command: Seq<char>, request: Result<LspRequest, String>) -> Option<
    RefusalModel,
> {
    match request {
        Err(e) => Some(invalid(command + ": invalid params: "@ + e@)),
        Ok(r) => if r.line == 0 {
            Some(invalid(command + ": 'line' must be >= 1"@))
        } else {
            None
        },
    }
}

/// Why a request for a position is refused before any server is asked.
pub fn check_request(command: &str, request: &Result<LspRequest, String>) -> (r: Option<Refusal>)
    ensures
        match (r, request_refusal(command@, *request)) {
            (Some(e), Some(m)) => e.deep_view() == m,
            (None, None) => true,
            _ => false,
        },
{
    match request {
        Err(e) => Some(reject(text3(command, ": invalid params: ", e.as_str()).as_str())),
        Ok(r) => {
            if r.line == 0 {
                Some(reject(text2(command, ": 'line' must be >= 1").as_str()))
            } else {
                None
            }
        },
    }
}

/// A place that a server names: by its path, where the address is one, and the lines and
/// columns of its start and end.
pub struct LspPlace {
    pub path: Option<String>,
    pub uri: String,
    pub line: u32,
    pub column: u32,
    pub end_line: u32,
    pub end_column: u32,
}

/// A place as it is told.
pub struct LocationEntry {
    pub file: String,
    pub line: u32,
    pub column: u32,
    pub end_line: u32,
    pub end_column: u32,
}

/// The model of a place.
pub ghost struct Location {
    pub file: Seq<char>,
    pub line: u32,
    pub column: u32,
    pub end_line: u32,
    pub end_column: u32,
}

impl DeepView for LspPlace {
    type V = Location;

    /// A place by its path, or by its address where that is no path.
    open spec fn deep_view(&self) -> Location {
        Location {
            file: match self.path {
                Some(p) => p@,
                None => self.uri@,
            },
            line: self.line,
            column: self.column,
            end_line: self.end_line,
            end_column: self.end_column,
        }
    }
}

impl DeepView for LocationEntry {
    type V = Location;

    open spec fn deep_view(&self) -> Location {
        Location {
            file: self.file@,
            line: self.line,
            column: self.column,
            end_line: self.end_line,
            end_column: self.end_column,
        }
    }
}

/// A place as it is told.
pub fn tell_place(place: &LspPlace) -> (r: LocationEntry)
    ensures
        r.deep_view() == place.deep_view(),
{
    LocationEntry {
        file: match &place.path {
            Some(p) => owned(p.as_str()),
            None => owned(place.uri.as_str()),
        },
        line: place.line,
        column: place.column,
        end_line: place.end_line,
        end_column: place.end_column,
    }
}

/// The places of a reply as they are told; a reply without any is as good as none.
pub fn tell_places(reply: &Option<Vec<LspPlace>>) -> (r: Vec<LocationEntry>)
    ensures
        models(r@) == (match *reply {
            Some(places) => models(places@),
            None => Seq::empty(),
        }),
{
    broadcast use group_models;

    let mut out: Vec<LocationEntry> = Vec::new();
    match reply {
        Some(places) => {
            let ghost all = models(places@);
            let mut i: usize = 0;
            while i < places.len()
                invariant
                    i <= places.len(),
                    all == models(places@),
                    models(out@) == all.take(i as int),
                decreases places.len() - i,
            {
                assert(all[i as int] == places@[i as int].deep_view());
                let e = tell_place(&places[i]);
                let ghost before = models(out@);
                let ghost m = e.deep_view();
                out.push(e);
                assert(models(out@) == before.push(m));
                assert(all.take(i + 1) =~= all.take(i as int).push(m));
                i = i + 1;
            }
            assert(all.take(i as int) =~= all);
        },
        None => {},
    }
    out
}

/// A request for a place goes on until a step fails: a file that cannot be opened or resolved, a
/// position that cannot be built and a failed request are refused as errors, and a file without a
/// server as such. Lines are counted from one.
pub proof fn requests_end_at_the_step_that_fails(
    command: Seq<char>,
    step: LspStep,
    request: Result<LspRequest, String>,
)
    ensures
        match step_refusal(command, step) {
            None => match step {
                LspStep::Opened(servers) => servers > 0,
                LspStep::Client(there) => there,
                _ => false,
            },
            Some(RefusalModel::Request { code, .. }) => match step {
                LspStep::Opened(servers) => servers == 0 && code == "no_server"@,
                LspStep::Client(there) => !there && code == "no_server"@,
                _ => code == "lsp_error"@,
            },
            Some(_) => false,
        },
        request_refusal(command, request) is None <==> request is Ok && request->Ok_0.line >= 1,
{
}

} // verus!
