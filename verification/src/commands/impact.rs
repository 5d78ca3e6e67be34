//! What a change to a symbol affects.
use vstd::prelude::*;

use crate::callgraph::flow::{has_symbol, knows_symbol};
use crate::callgraph::graph::{build_outcome, built, canon, CallGraph, Graph};
use crate::callgraph::impact::{impact_call, impacts_are_answered_of_what_was_asked};
use crate::callgraph::model::{FileModel, ImpactModel, ImpactResult};
use crate::callgraph::worktree::{Disk, Worktree};
use crate::commands::refusal::{
    given_text, need, needed, refuse, refused, verdict, Refusal, RefusalModel,
};
use crate::json::Json;
use crate::models::table_get;
use crate::paths::{join_path, path_join, path_under, starts_with_path};
use crate::text::{owned, text4, text5};

verus! {

/// How deep callers are followed where a request does not say, and at most.
pub const DEFAULT_IMPACT_DEPTH: u64 = 5;

pub const MAX_IMPACT_DEPTH: u64 = 100;

/// The depth that a request asks for.
pub open spec fn impact_depth(params: Json) -> nat {
    let n = match params.unsigned_field("depth"@) {
        Some(n) => n,
        None => DEFAULT_IMPACT_DEPTH,
    };
    if n > MAX_IMPACT_DEPTH {
        MAX_IMPACT_DEPTH as nat
    } else {
        n as nat
    }
}

/// Why a path cannot be asked about, where it lies outside the project.
pub open spec fn outside_project(d: Disk, path: Seq<char>, root: Option<Seq<char>>) -> Option<
    RefusalModel,
> {
    match root {
        None => None,
        Some(root) => if path_under(
            d.canonical_or_self(path_join(root, path)),
            d.canonical_or_self(root),
        ) {
            None
        } else {
            Some(
                refused(
                    "path_outside_project_root"@,
                    "Callgraph operations require paths inside project_root. Got: "@ + path
                        + " (project_root: "@ + root + ")"@,
                ),
            )
        },
    }
}

/// Refuses a path that lies outside the project.
pub fn check_inside_project(w: &Worktree, path: &str, root: Option<&str>) -> (r: Option<Refusal>)
    ensures
        match (r, outside_project(w@, path@, given_text(root))) {
            (Some(e), Some(m)) => e.deep_view() == m,
            (None, None) => true,
            _ => false,
        },
{
    match root {
        None => None,
        Some(root) => {
            let base = w.canonicalize_or(root);
            let full = w.canonicalize_or(join_path(root, path).as_str());
            if starts_with_path(full.as_str(), base.as_str()) {
                None
            } else {
                Some(
                    refuse(
                        "path_outside_project_root",
                        text5(
                            "Callgraph operations require paths inside project_root. Got: ",
                            path,
                            " (project_root: ",
                            root,
                            ")",
                        ),
                    ),
                )
            }
        },
    }
}

/// What a graph becomes, and what a request about a file and a symbol is answered.
pub open spec fn impact_told(
    d: Disk,
    g: Graph,
    path: Seq<char>,
    file: Seq<char>,
    symbol: Seq<char>,
    depth: nat,
) -> (Graph, Result<ImpactModel, RefusalModel>) {
    let c = canon(d, g.root, path);
    let ready = Graph { data: built(d, g.data, c), ..g };
    match build_outcome(d, g.data, c) {
        Err(e) => (ready, Err(RefusalModel::Error(e))),
        Ok(m) => if !has_symbol(m, symbol) {
            (
                ready,
                Err(
                    refused(
                        "symbol_not_found"@,
                        "impact: symbol '"@ + symbol + "' not found in "@ + file,
                    ),
                ),
            )
        } else {
            let answer = impact_call(d, ready, path, symbol, depth);
            (
                answer.0,
                match answer.1 {
                    Ok(m) => Ok(m),
                    Err(e) => Err(RefusalModel::Error(e)),
                },
            )
        },
    }
}

/// What a graph becomes, and what a request is answered.
pub open spec fn impact_outcome(
    params: Json,
    d: Disk,
    g: Option<Graph>,
    validated: Result<String, Refusal>,
    root: Option<Seq<char>>,
) -> (Option<Graph>, Result<ImpactModel, RefusalModel>) {
    match (needed(params, "impact"@, "file"@), needed(params, "impact"@, "symbol"@)) {
        (Err(e), _) => (g, Err(e)),
        (_, Err(e)) => (g, Err(e)),
        (Ok(file), Ok(symbol)) => match g {
            None => (
                None,
                Err(
                    refused(
                        "not_configured"@,
                        "impact: project not configured — send 'configure' first"@,
                    ),
                ),
            ),
            Some(graph) => match validated {
                Err(e) => (g, Err(e.deep_view())),
                Ok(path) => match outside_project(d, path@, root) {
                    Some(e) => (g, Err(e)),
                    None => {
                        let told = impact_told(d, graph, path@, file, symbol, impact_depth(params));
                        (Some(told.0), told.1)
                    },
                },
            },
        },
    }
}

/// The model of a graph that there may be.
pub open spec fn graph_model(g: Option<CallGraph>) -> Option<Graph> {
    match g {
        Some(graph) => Some(graph@),
        None => None,
    }
}

fn tell_impact(
    graph: &mut CallGraph,
    w: &Worktree,
    path: &str,
    file: &str,
    symbol: &str,
    depth: usize,
) -> (r: Result<ImpactResult, Refusal>)
    ensures
        (final(graph)@, verdict(r)) == impact_told(
            w@,
            old(graph)@,
            path@,
            file@,
            symbol@,
            depth as nat,
        ),
{
    match graph.build_file(w, path) {
        Ok(data) => {
            if !knows_symbol(data, symbol) {
                return Err(
                    refuse(
                        "symbol_not_found",
                        text4("impact: symbol '", symbol, "' not found in ", file),
                    ),
                );
            }
        },
        Err(e) => {
            return Err(Refusal::Error(e));
        },
    }
    match graph.impact(w, path, symbol, depth) {
        Ok(result) => Ok(result),
        Err(e) => Err(Refusal::Error(e)),
    }
}

/// Answers what a change to a symbol affects. `validated` is what became of the path that the
/// request names.
pub fn handle_impact(
    params: &Json,
    w: &Worktree,
    graph: Option<CallGraph>,
    validated: Result<String, Refusal>,
    project_root: Option<&str>,
) -> (r: (Option<CallGraph>, Result<ImpactResult, Refusal>))
    ensures
        (graph_model(r.0), verdict(r.1)) == impact_outcome(
            *params,
            w@,
            graph_model(graph),
            validated,
            given_text(project_root),
        ),
{
    let file = match need(params, "impact", "file") {
        Ok(s) => s,
        Err(e) => {
            return (graph, Err(e));
        },
    };
    let symbol = match need(params, "impact", "symbol") {
        Ok(s) => s,
        Err(e) => {
            return (graph, Err(e));
        },
    };
    let asked: u64 = match params.get_unsigned("depth") {
        Some(n) => n,
        None => DEFAULT_IMPACT_DEPTH,
    };
    let depth: usize = if asked > MAX_IMPACT_DEPTH {
        MAX_IMPACT_DEPTH as usize
    } else {
        asked as usize
    };
    match graph {
        None => (
            None,
            Err(
                refuse(
                    "not_configured",
                    owned("impact: project not configured — send 'configure' first"),
                ),
            ),
        ),
        Some(g) => {
            let path = match validated {
                Ok(p) => p,
                Err(e) => {
                    return (Some(g), Err(e));
                },
            };
            match check_inside_project(w, path.as_str(), project_root) {
                Some(e) => (Some(g), Err(e)),
                None => {
                    let mut g = g;
                    let answer = tell_impact(&mut g, w, path.as_str(), file, symbol, depth);
                    (Some(g), answer)
                },
            }
        },
    }
}

/// A request without a depth asks for five calls, and none gets more than a hundred.
pub proof fn impact_depths_are_bounded(params: Json)
    ensures
        match params.unsigned_field("depth"@) {
            None => impact_depth(params) == 5,
            Some(n) => n <= 100 ==> impact_depth(params) == n,
        },
        impact_depth(params) <= 100,
{
}

/// A file outside the project is refused, and one inside it is not.
pub proof fn files_outside_the_project_are_refused(d: Disk, path: Seq<char>, root: Seq<char>)
    ensures
        outside_project(d, path, None) is None,
        outside_project(d, path, Some(root)) is None <==> path_under(
            d.canonical_or_self(path_join(root, path)),
            d.canonical_or_self(root),
        ),
{
}

/// A request is answered of the file and the symbol that it names. It is refused where one is missing,
/// where no project is set, where the path is refused or lies outside the project, and where the file
/// cannot be read or does not have the symbol.
pub proof fn impact_requests_are_answered_of_what_they_name(
    params: Json,
    d: Disk,
    g: Option<Graph>,
    validated: Result<String, Refusal>,
    root: Option<Seq<char>>,
)
    ensures
        match impact_outcome(params, d, g, validated, root).1 {
            Ok(m) => {
                &&& params.text_field("file"@) is Some
                &&& params.text_field("symbol"@) == Some(m.symbol)
                &&& g is Some
                &&& validated is Ok
                &&& outside_project(d, (validated->Ok_0)@, root) is None
                &&& ({
                    let c = canon(d, g->0.root, (validated->Ok_0)@);
                    build_outcome(d, g->0.data, c) is Ok && has_symbol(
                        build_outcome(d, g->0.data, c)->Ok_0,
                        m.symbol,
                    )
                })
            },
            Err(_) => true,
        },
        params.text_field("file"@) is None || params.text_field("symbol"@) is None || g is None
            || validated is Err || outside_project(d, (validated->Ok_0)@, root) is Some
            ==> impact_outcome(params, d, g, validated, root).1 is Err && impact_outcome(
            params,
            d,
            g,
            validated,
            root,
        ).0 == g,
{
    match (g, validated) {
        (Some(graph), Ok(path)) => {
            let ready = Graph {
                data: built(d, graph.data, canon(d, graph.root, path@)),
                ..graph
            };
            impacts_are_answered_of_what_was_asked(
                d,
                ready,
                path@,
                params.text_field("symbol"@)->0,
                impact_depth(params),
            );
        },
        _ => {},
    }
}

/// A file has a symbol where it calls from it, exports it or knows anything else of it.
pub proof fn symbols_are_known_where_their_file_has_them(m: FileModel, symbol: Seq<char>)
    ensures
        has_symbol(m, symbol) <==> table_get(m.calls, symbol) is Some || m.exported.contains(symbol)
            || table_get(m.metadata, symbol) is Some,
{
}

} // verus!
