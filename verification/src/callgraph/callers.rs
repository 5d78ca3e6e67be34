//! Who calls a symbol.
use vstd::prelude::*;

use crate::callgraph::forward::{was_visited, Visit};
use crate::callgraph::graph::{
    build_outcome, built, canon, edge_known, files_known, plain_graph, CallGraph, Graph,
};
use crate::callgraph::laws::{callers_ascend_by_file, plain_graphs_stay_plain};
use crate::callgraph::model::{
    CallSite, CallerEntry, CallerGroup, CallerModel, CallerSite, CallersModel, CallersResult,
    EdgeModel, EdgeResolution, FileCallData, FileModel, ImportModel, ReverseEdge, ReverseModel,
    SiteModel,
};
use crate::callgraph::worktree::{Disk, Worktree};
use crate::error::{outcome, AftError, Fault};
use crate::models::{copy_strings, find_key, group_models, models, table_get, table_set, Entry};
use crate::order::{sort_list, sorted, unreversed, Ranked};
use crate::paths::path_relative;
use crate::text::{less, owned, same, text_lt};

verus! {

/// The call of a site as seen from what it calls.
pub open spec fn reverse_edge(
    d: Disk,
    data: Seq<(Seq<char>, FileModel)>,
    caller: Seq<char>,
    symbol: Seq<char>,
    s: SiteModel,
    imports: Seq<ImportModel>,
) -> ReverseModel {
    let edge = edge_known(d, data, s.full_callee, s.callee_name, caller, imports);
    let site = CallerModel { file: caller, symbol, line: s.line, col: 0, resolved: edge is Resolved };
    match edge {
        EdgeModel::Resolved { file, symbol } => ReverseModel {
            target_file: file,
            target_symbol: symbol,
            site,
        },
        EdgeModel::Unresolved { callee_name } => ReverseModel {
            target_file: caller,
            target_symbol: callee_name,
            site,
        },
    }
}

/// The calls of a symbol's sites as seen from what they call.
pub open spec fn site_edges(
    d: Disk,
    data: Seq<(Seq<char>, FileModel)>,
    caller: Seq<char>,
    symbol: Seq<char>,
    sites: Seq<SiteModel>,
    imports: Seq<ImportModel>,
) -> Seq<ReverseModel> {
    sites.map_values(|s: SiteModel| reverse_edge(d, data, caller, symbol, s, imports))
}

/// The calls of a file's symbols as seen from what they call.
pub open spec fn symbol_edges(
    d: Disk,
    data: Seq<(Seq<char>, FileModel)>,
    caller: Seq<char>,
    calls: Seq<(Seq<char>, Seq<SiteModel>)>,
    imports: Seq<ImportModel>,
) -> Seq<ReverseModel>
    decreases calls.len(),
{
    if calls.len() == 0 {
        Seq::empty()
    } else {
        symbol_edges(d, data, caller, calls.drop_last(), imports) + site_edges(
            d,
            data,
            caller,
            calls.last().0,
            calls.last().1,
            imports,
        )
    }
}

/// What is known of a file under its path or its canonical path.
pub open spec fn known_file(d: Disk, data: Seq<(Seq<char>, FileModel)>, p: Seq<char>) -> Option<
    FileModel,
> {
    match table_get(data, p) {
        Some(m) => Some(m),
        None => table_get(data, d.canonical_or_self(p)),
    }
}

/// The calls of all files as seen from what they call.
pub open spec fn all_edges(
    d: Disk,
    data: Seq<(Seq<char>, FileModel)>,
    files: Seq<Seq<char>>,
) -> Seq<ReverseModel>
    decreases files.len(),
{
    if files.len() == 0 {
        Seq::empty()
    } else {
        let rest = all_edges(d, data, files.drop_last());
        match known_file(d, data, files.last()) {
            Some(m) => rest + symbol_edges(
                d,
                data,
                d.canonical_or_self(files.last()),
                m.calls,
                m.imports,
            ),
            None => rest,
        }
    }
}

/// What is known of files once all of `files` were asked for.
pub open spec fn built_all(
    d: Disk,
    root: Seq<char>,
    data: Seq<(Seq<char>, FileModel)>,
    files: Seq<Seq<char>>,
) -> Seq<(Seq<char>, FileModel)>
    decreases files.len(),
{
    if files.len() == 0 {
        data
    } else {
        built(d, built_all(d, root, data, files.drop_last()), canon(d, root, files.last()))
    }
}

/// The graph once the calls were looked at from what they call; a graph that did so
/// before stays as it is.
pub open spec fn indexed(d: Disk, g: Graph) -> Graph {
    if g.reverse is Some {
        g
    } else {
        let files = files_known(d, g);
        let data = built_all(d, g.root, g.data, files);
        Graph {
            data,
            root: g.root,
            project_files: Some(files),
            reverse: Some(all_edges(d, data, files)),
        }
    }
}

/// The sites that call a symbol of a file.
pub open spec fn sites_to(edges: Seq<ReverseModel>, file: Seq<char>, symbol: Seq<char>) -> Seq<
    CallerModel,
>
    decreases edges.len(),
{
    if edges.len() == 0 {
        Seq::empty()
    } else {
        let rest = sites_to(edges.drop_last(), file, symbol);
        let e = edges.last();
        if e.target_file == file && e.target_symbol == symbol {
            rest.push(e.site)
        } else {
            rest
        }
    }
}

/// The symbols that were visited, and the sites that were found, once the callers of a
/// symbol were collected, `left` calls deep. The callers of a symbol that was visited
/// are not collected again.
pub open spec fn collected(
    d: Disk,
    edges: Seq<ReverseModel>,
    visited: Seq<(Seq<char>, Seq<char>)>,
    file: Seq<char>,
    symbol: Seq<char>,
    left: nat,
) -> (Seq<(Seq<char>, Seq<char>)>, Seq<CallerModel>)
    decreases left, 0nat,
{
    let c = d.canonical_or_self(file);
    if left == 0 || visited.contains((c, symbol)) {
        (visited, Seq::empty())
    } else {
        collected_from(
            d,
            edges,
            visited.push((c, symbol)),
            sites_to(edges, c, symbol),
            0,
            (left - 1) as nat,
        )
    }
}

/// The sites from `from` on, each followed by what is found of its own callers.
pub open spec fn collected_from(
    d: Disk,
    edges: Seq<ReverseModel>,
    visited: Seq<(Seq<char>, Seq<char>)>,
    sites: Seq<CallerModel>,
    from: int,
    left: nat,
) -> (Seq<(Seq<char>, Seq<char>)>, Seq<CallerModel>)
    decreases left, (1 + sites.len() - from) as nat,
{
    if from < 0 || from >= sites.len() {
        (visited, Seq::empty())
    } else {
        let s = sites[from];
        let above = collected(d, edges, visited, s.file, s.symbol, left);
        let rest = collected_from(d, edges, above.0, sites, from + 1, left);
        (rest.0, seq![s] + above.1 + rest.1)
    }
}

/// The sites as entries under the files that they stand in, files in the order in which
/// they come first.
pub open spec fn grouped(sites: Seq<CallerModel>) -> Seq<(Seq<char>, Seq<(Seq<char>, int)>)>
    decreases sites.len(),
{
    if sites.len() == 0 {
        Seq::empty()
    } else {
        let rest = grouped(sites.drop_last());
        let s = sites.last();
        let there = match table_get(rest, s.file) {
            Some(v) => v,
            None => Seq::empty(),
        };
        table_set(rest, s.file, there.push((s.symbol, s.line)))
    }
}

impl Ranked for CallerGroup {
    open spec fn before(
        a: (Seq<char>, Seq<(Seq<char>, int)>),
        b: (Seq<char>, Seq<(Seq<char>, int)>),
    ) -> bool {
        text_lt(a.0, b.0)
    }

    fn precedes(&self, other: &CallerGroup) -> (r: bool) {
        less(self.file.as_str(), other.file.as_str())
    }
}

/// The groups under their files' paths seen from the project root, in the order of
/// these paths.
pub open spec fn caller_groups(root: Seq<char>, sites: Seq<CallerModel>) -> Seq<
    (Seq<char>, Seq<(Seq<char>, int)>),
> {
    sorted::<CallerGroup>(
        grouped(sites).map_values(
            |g: (Seq<char>, Seq<(Seq<char>, int)>)| (path_relative(g.0, root), g.1),
        ),
    )
}

/// Whether groups of callers ascend strictly by file.
pub open spec fn ascending(groups: Seq<(Seq<char>, Seq<(Seq<char>, int)>)>) -> bool {
    forall|i: int, j: int|
        0 <= i < j < groups.len() ==> text_lt((#[trigger] groups[i]).0, (#[trigger] groups[j]).0)
}

/// A depth of zero stands for one.
pub open spec fn at_least_one(depth: nat) -> nat {
    if depth == 0 {
        1
    } else {
        depth
    }
}

/// The answer to who calls a symbol of the file at the canonical path `c`, in a graph
/// that looked at the calls from what they call.
pub open spec fn callers_answer(d: Disk, g: Graph, c: Seq<char>, symbol: Seq<char>, depth: nat) -> CallersModel {
    let sites = collected(d, g.reverse->0, Seq::empty(), c, symbol, at_least_one(depth)).1;
    CallersModel {
        symbol,
        file: path_relative(c, g.root),
        callers: caller_groups(g.root, sites),
        total_callers: sites.len() as int,
        scanned_files: match g.project_files {
            Some(v) => v.len() as int,
            None => 0,
        },
    }
}

/// The entries of a group while it grows.
pub struct EntryList {
    pub entries: Vec<CallerEntry>,
}

impl DeepView for EntryList {
    type V = Seq<(Seq<char>, int)>;

    open spec fn deep_view(&self) -> Seq<(Seq<char>, int)> {
        models(self.entries@)
    }
}

fn group_sites(sites: &Vec<CallerSite>) -> (r: Vec<Entry<EntryList>>)
    ensures
        models(r@) == grouped(models(sites@)),
{
    broadcast use group_models;

    let ghost all = models(sites@);
    let mut out: Vec<Entry<EntryList>> = Vec::new();
    let mut i: usize = 0;
    assert(all.take(0) =~= Seq::empty());
    while i < sites.len()
        invariant
            i <= sites.len(),
            all == models(sites@),
            models(out@) == grouped(all.take(i as int)),
        decreases sites.len() - i,
    {
        let s = &sites[i];
        proof {
            assert(all.take(i + 1).drop_last() =~= all.take(i as int));
            assert(all.take(i + 1).last() == s.deep_view());
        }
        let entry = CallerEntry { symbol: s.caller_symbol.clone(), line: s.line };
        let ghost m = entry.deep_view();
        match find_key(&out, s.caller_file.as_str()) {
            Some(k) => {
                let ghost before = models(out@);
                let ghost there = models(out@[k as int].value.entries@);
                assert(before[k as int] == (s.caller_file@, there));
                out[k].value.entries.push(entry);
                proof {
                    assert(models(out@[k as int].value.entries@) == there.push(m));
                    assert(models(out@) =~= before.update(
                        k as int,
                        (s.caller_file@, there.push(m)),
                    ));
                }
            },
            None => {
                let mut entries: Vec<CallerEntry> = Vec::new();
                entries.push(entry);
                let ghost before = models(out@);
                let e = Entry { key: s.caller_file.clone(), value: EntryList { entries } };
                assert(e.deep_view() == (s.caller_file@, Seq::<(Seq<char>, int)>::empty().push(m)));
                out.push(e);
                assert(models(out@) =~= before.push(
                    (s.caller_file@, Seq::<(Seq<char>, int)>::empty().push(m)),
                ));
            },
        }
        i = i + 1;
    }
    assert(all.take(all.len() as int) =~= all);
    out
}

impl CallGraph {
    fn edge_from(
        &self,
        w: &Worktree,
        caller: &str,
        symbol: &str,
        f: &FileCallData,
        s: &CallSite,
    ) -> (r: ReverseEdge)
        ensures
            r.deep_view() == reverse_edge(
                w@,
                self@.data,
                caller@,
                symbol@,
                s.deep_view(),
                f.deep_view().imports,
            ),
    {
        let edge = self.resolve_known(
            w,
            s.full_callee.as_str(),
            s.callee_name.as_str(),
            caller,
            &f.import_block.imports,
        );
        match edge {
            EdgeResolution::Resolved { file, symbol: name } => ReverseEdge {
                target_file: file,
                target_symbol: name,
                site: CallerSite {
                    caller_file: owned(caller),
                    caller_symbol: owned(symbol),
                    line: s.line,
                    col: 0,
                    resolved: true,
                },
            },
            EdgeResolution::Unresolved { callee_name } => ReverseEdge {
                target_file: owned(caller),
                target_symbol: callee_name,
                site: CallerSite {
                    caller_file: owned(caller),
                    caller_symbol: owned(symbol),
                    line: s.line,
                    col: 0,
                    resolved: false,
                },
            },
        }
    }

    fn add_file_edges(
        &self,
        w: &Worktree,
        caller: &str,
        f: &FileCallData,
        out: &mut Vec<ReverseEdge>,
    )
        ensures
            models(final(out)@) == models(old(out)@) + symbol_edges(
                w@,
                self@.data,
                caller@,
                f.deep_view().calls,
                f.deep_view().imports,
            ),
    {
        broadcast use group_models;

        let ghost d = w@;
        let ghost data = self@.data;
        let ghost calls = f.deep_view().calls;
        let ghost imports = f.deep_view().imports;
        let ghost start = models(out@);
        let mut i: usize = 0;
        assert(calls.take(0) =~= Seq::empty());
        assert(start + Seq::<ReverseModel>::empty() =~= start);
        while i < f.calls_by_symbol.len()
            invariant
                i <= f.calls_by_symbol.len(),
                d == w@,
                data == self@.data,
                calls == models(f.calls_by_symbol@),
                calls == f.deep_view().calls,
                imports == f.deep_view().imports,
                models(out@) == start + symbol_edges(
                    d,
                    data,
                    caller@,
                    calls.take(i as int),
                    imports,
                ),
            decreases f.calls_by_symbol.len() - i,
        {
            let entry = &f.calls_by_symbol[i];
            let ghost sites = models(entry.value.sites@);
            proof {
                assert(calls.take(i + 1).drop_last() =~= calls.take(i as int));
                assert(calls.take(i + 1).last() == (entry.key@, sites));
            }
            let ghost edges = site_edges(d, data, caller@, entry.key@, sites, imports);
            let ghost before = models(out@);
            let mut k: usize = 0;
            assert(before + edges.take(0) =~= before);
            while k < entry.value.sites.len()
                invariant
                    k <= entry.value.sites.len(),
                    d == w@,
                    data == self@.data,
                    imports == f.deep_view().imports,
                    sites == models(entry.value.sites@),
                    edges == site_edges(d, data, caller@, entry.key@, sites, imports),
                    models(out@) == before + edges.take(k as int),
                decreases entry.value.sites.len() - k,
            {
                assert(sites[k as int] == entry.value.sites@[k as int].deep_view());
                let ghost now = models(out@);
                let e = self.edge_from(
                    w,
                    caller,
                    entry.key.as_str(),
                    f,
                    &entry.value.sites[k],
                );
                let ghost m = e.deep_view();
                out.push(e);
                proof {
                    assert(m == edges[k as int]);
                    assert(models(out@) == now.push(m));
                    assert(models(out@) =~= before + edges.take(k + 1));
                }
                k = k + 1;
            }
            proof {
                assert(edges.take(edges.len() as int) =~= edges);
                assert(models(out@) =~= start + symbol_edges(
                    d,
                    data,
                    caller@,
                    calls.take(i + 1),
                    imports,
                ));
            }
            i = i + 1;
        }
        assert(calls.take(calls.len() as int) =~= calls);
    }

    /// Looks at the calls of all project files from what they call, unless it was done.
    pub(crate) fn ensure_index(&mut self, w: &Worktree)
        ensures
            final(self)@ == indexed(w@, old(self)@),
    {
        broadcast use group_models;

        if self.reverse_index.is_some() {
            return;
        }
        let ghost d = w@;
        let ghost start = self@;
        let files = copy_strings(self.project_files(w));
        let ghost all = models(files@);
        let ghost found = self@;
        let mut i: usize = 0;
        assert(all.take(0) =~= Seq::empty());
        while i < files.len()
            invariant
                i <= files.len(),
                d == w@,
                all == models(files@),
                found == (Graph { project_files: Some(all), ..start }),
                self@ == (Graph { data: self@.data, ..found }),
                self@.data == built_all(d, start.root, start.data, all.take(i as int)),
            decreases files.len() - i,
        {
            proof {
                assert(all.take(i + 1).drop_last() =~= all.take(i as int));
                assert(all.take(i + 1).last() == files@[i as int]@);
            }
            let c = self.canonicalize(w, files[i].as_str());
            let _ = self.ensure_built(w, c.as_str());
            i = i + 1;
        }
        assert(all.take(all.len() as int) =~= all);
        let mut edges: Vec<ReverseEdge> = Vec::new();
        let ghost data = self@.data;
        let mut k: usize = 0;
        while k < files.len()
            invariant
                k <= files.len(),
                d == w@,
                all == models(files@),
                data == self@.data,
                models(edges@) == all_edges(d, data, all.take(k as int)),
            decreases files.len() - k,
        {
            proof {
                assert(all.take(k + 1).drop_last() =~= all.take(k as int));
                assert(all.take(k + 1).last() == files@[k as int]@);
            }
            let p = files[k].as_str();
            let c = w.canonicalize_or(p);
            let known = match self.known(p) {
                Some(f) => Some(f),
                None => self.known(c.as_str()),
            };
            match known {
                Some(f) => {
                    self.add_file_edges(w, c.as_str(), f, &mut edges);
                },
                None => {},
            }
            k = k + 1;
        }
        assert(all.take(all.len() as int) =~= all);
        self.reverse_index = Some(edges);
    }

    /// The sites that call a symbol of a file.
    pub(crate) fn reverse_sites(&self, file: &str, symbol: &str) -> (r: Vec<CallerSite>)
        requires
            self@.reverse is Some,
        ensures
            models(r@) == sites_to(self@.reverse->0, file@, symbol@),
    {
        broadcast use group_models;

        let mut out: Vec<CallerSite> = Vec::new();
        match &self.reverse_index {
            Some(edges) => {
                let ghost all = models(edges@);
                let mut i: usize = 0;
                assert(all.take(0) =~= Seq::empty());
                while i < edges.len()
                    invariant
                        i <= edges.len(),
                        all == models(edges@),
                        models(out@) == sites_to(all.take(i as int), file@, symbol@),
                    decreases edges.len() - i,
                {
                    let e = &edges[i];
                    proof {
                        assert(all.take(i + 1).drop_last() =~= all.take(i as int));
                        assert(all.take(i + 1).last() == e.deep_view());
                    }
                    if same(e.target_file.as_str(), file) && same(
                        e.target_symbol.as_str(),
                        symbol,
                    ) {
                        let ghost before = models(out@);
                        let s = e.site.copy();
                        let ghost m = s.deep_view();
                        out.push(s);
                        assert(models(out@) == before.push(m));
                    }
                    i = i + 1;
                }
                assert(all.take(all.len() as int) =~= all);
            },
            None => {},
        }
        out
    }

    /// Collects the callers of a symbol, `left` calls deep.
    pub(crate) fn collect_callers(
        &self,
        w: &Worktree,
        file: &str,
        symbol: &str,
        left: usize,
        visited: &mut Vec<Visit>,
        result: &mut Vec<CallerSite>,
    )
        requires
            self@.reverse is Some,
        ensures
            ({
                let found = collected(
                    w@,
                    self@.reverse->0,
                    models(old(visited)@),
                    file@,
                    symbol@,
                    left as nat,
                );
                &&& models(final(visited)@) == found.0
                &&& models(final(result)@) == models(old(result)@) + found.1
            }),
        decreases left,
    {
        broadcast use group_models;

        let ghost d = w@;
        let ghost edges = self@.reverse->0;
        let ghost start = models(result@);
        let c = w.canonicalize_or(file);
        if left == 0 || was_visited(visited, c.as_str(), symbol) {
            assert(start + Seq::<CallerModel>::empty() =~= start);
            return;
        }
        let ghost before = models(visited@);
        visited.push(Visit { file: c.clone(), symbol: owned(symbol) });
        assert(models(visited@) == before.push((c@, symbol@)));
        let sites = self.reverse_sites(c.as_str(), symbol);
        let ghost all = models(sites@);
        let ghost want = collected_from(d, edges, models(visited@), all, 0, (left - 1) as nat);
        let mut i: usize = 0;
        while i < sites.len()
            invariant
                i <= sites.len(),
                left > 0,
                d == w@,
                self@.reverse is Some,
                edges == self@.reverse->0,
                all == models(sites@),
                ({
                    let rest = collected_from(
                        d,
                        edges,
                        models(visited@),
                        all,
                        i as int,
                        (left - 1) as nat,
                    );
                    &&& want.0 == rest.0
                    &&& start + want.1 == models(result@) + rest.1
                }),
            decreases sites.len() - i,
        {
            let s = &sites[i];
            assert(all[i as int] == s.deep_view());
            let ghost m = s.deep_view();
            let ghost now = models(result@);
            let ghost seen = models(visited@);
            result.push(s.copy());
            assert(models(result@) == now.push(m));
            self.collect_callers(
                w,
                s.caller_file.as_str(),
                s.caller_symbol.as_str(),
                left - 1,
                visited,
                result,
            );
            proof {
                let above = collected(d, edges, seen, m.file, m.symbol, (left - 1) as nat);
                let rest = collected_from(
                    d,
                    edges,
                    models(visited@),
                    all,
                    i + 1,
                    (left - 1) as nat,
                );
                assert(now + (seq![m] + above.1 + rest.1) =~= (now.push(m) + above.1) + rest.1);
            }
            i = i + 1;
        }
        assert(models(result@) + Seq::<CallerModel>::empty() =~= models(result@));
    }

    /// The callers of a symbol, grouped by file, `depth` calls deep; a depth of zero
    /// stands for one. With plain paths there is one group per file.
    pub fn callers_of(&mut self, w: &Worktree, file: &str, symbol: &str, depth: usize) -> (r: Result<
        CallersResult,
        AftError,
    >)
        ensures
            ({
                let g = old(self)@;
                let c = canon(w@, g.root, file@);
                let ready = Graph {
                    data: built(w@, g.data, canon(w@, g.root, c)),
                    ..g
                };
                match build_outcome(w@, g.data, canon(w@, g.root, c)) {
                    Err(e) => outcome(r) == Err::<CallersModel, Fault>(e) && final(self)@ == ready,
                    Ok(m) => {
                        &&& final(self)@ == indexed(w@, ready)
                        &&& outcome(r) == Ok::<CallersModel, Fault>(
                            callers_answer(w@, indexed(w@, ready), c, symbol@, depth as nat),
                        )
                    },
                }
            }),
            w@.plain() && plain_graph(old(self)@) ==> plain_graph(final(self)@) && match r {
                Ok(a) => ascending(a.deep_view().callers),
                Err(_) => true,
            },
    {
        broadcast use group_models;

        let c = self.canonicalize(w, file);
        let cc = self.canonicalize(w, c.as_str());
        match self.ensure_built(w, cc.as_str()) {
            Ok(_) => {},
            Err(e) => {
                return Err(e);
            },
        }
        self.ensure_index(w);
        let scanned_files: usize = match &self.project_files {
            Some(v) => v.len(),
            None => 0,
        };
        let effective: usize = if depth == 0 {
            1
        } else {
            depth
        };
        let mut visited: Vec<Visit> = Vec::new();
        let mut sites: Vec<CallerSite> = Vec::new();
        self.collect_callers(w, c.as_str(), symbol, effective, &mut visited, &mut sites);
        let ghost found = collected(
            w@,
            self@.reverse->0,
            Seq::empty(),
            c@,
            symbol@,
            effective as nat,
        ).1;
        assert(models(sites@) =~= found);
        let total_callers: usize = sites.len();
        let mut groups = group_sites(&sites);
        let ghost raw = models(groups@);
        let ghost root = self@.root;
        let ghost seen = raw.map_values(
            |g: (Seq<char>, Seq<(Seq<char>, int)>)| (path_relative(g.0, root), g.1),
        );
        let mut back: Vec<CallerGroup> = Vec::new();
        while groups.len() > 0
            invariant
                root == self@.root,
                groups@.len() + back@.len() == raw.len(),
                models(groups@) == raw.take(groups@.len() as int),
                seen == raw.map_values(
                    |g: (Seq<char>, Seq<(Seq<char>, int)>)| (path_relative(g.0, root), g.1),
                ),
                models(back@) == seen.skip(groups@.len() as int).reverse(),
            decreases groups.len(),
        {
            let ghost n = groups@.len() as int;
            let ghost old_groups = groups@;
            let ghost old_back = models(back@);
            match groups.pop() {
                Some(e) => {
                    let rel = self.relative_path(e.key.as_str());
                    proof {
                        assert(models(old_groups)[n - 1] == e.deep_view());
                        assert(raw[n - 1] == e.deep_view());
                        assert(groups@ =~= old_groups.subrange(0, n - 1));
                        assert(models(groups@) == models(old_groups).subrange(0, n - 1));
                        assert(models(groups@) =~= raw.take(n - 1));
                    }
                    let g = CallerGroup { file: rel, callers: e.value.entries };
                    let ghost m = g.deep_view();
                    back.push(g);
                    proof {
                        assert(m == seen[n - 1]);
                        assert(models(back@) == old_back.push(m));
                        assert(models(back@) =~= seen.skip(n - 1).reverse());
                    }
                },
                None => {},
            }
        }
        let callers = unreversed(back);
        assert(seen.skip(0) =~= seen);
        assert(models(callers@) =~= seen);
        let callers = sort_list(callers);
        proof {
            let g = old(self)@;
            let ready = Graph { data: built(w@, g.data, canon(w@, g.root, c@)), ..g };
            if w@.plain() && plain_graph(g) {
                plain_graphs_stay_plain(w@, g, ready.data);
                plain_graphs_stay_plain(w@, ready, ready.data);
                callers_ascend_by_file(w@, ready, c@, symbol@, depth as nat);
            }
        }
        Ok(
            CallersResult {
                symbol: owned(symbol),
                file: self.relative_path(c.as_str()),
                callers,
                total_callers,
                scanned_files,
            },
        )
    }
}

/// A call is kept under what it leads to, and under its own name in its own file where it leads
/// nowhere, with the file, the symbol and the line that it stands in.
pub proof fn calls_are_kept_under_what_they_call(
    d: Disk,
    data: Seq<(Seq<char>, FileModel)>,
    caller: Seq<char>,
    symbol: Seq<char>,
    s: SiteModel,
    imports: Seq<ImportModel>,
)
    ensures
        ({
            let r = reverse_edge(d, data, caller, symbol, s, imports);
            &&& r.site.file == caller
            &&& r.site.symbol == symbol
            &&& r.site.line == s.line
            &&& match edge_known(d, data, s.full_callee, s.callee_name, caller, imports) {
                EdgeModel::Resolved { file, symbol: target } => r.target_file == file
                    && r.target_symbol == target && r.site.resolved,
                EdgeModel::Unresolved { callee_name } => r.target_file == caller && r.target_symbol
                    == callee_name && !r.site.resolved,
            }
        }),
{
}

/// The sites that are found for a symbol are those of the calls that lead to it, and no others.
pub proof fn sites_are_those_of_the_symbol(
    edges: Seq<ReverseModel>,
    file: Seq<char>,
    symbol: Seq<char>,
    site: CallerModel,
)
    ensures
        sites_to(edges, file, symbol).contains(site) <==> exists|i: int|
            0 <= i < edges.len() && (#[trigger] edges[i]).site == site && edges[i].target_file
                == file && edges[i].target_symbol == symbol,
    decreases edges.len(),
{
    if edges.len() > 0 {
        let less = edges.drop_last();
        let e = edges.last();
        let rest = sites_to(less, file, symbol);
        let now = sites_to(edges, file, symbol);
        sites_are_those_of_the_symbol(less, file, symbol, site);
        assert(forall|i: int| 0 <= i < less.len() ==> less[i] == #[trigger] edges[i]);
        assert(edges[edges.len() - 1] == e);
        if now.contains(site) {
            let k = choose|k: int| 0 <= k < now.len() && now[k] == site;
            if k < rest.len() {
                assert(rest[k] == site);
                let i = choose|i: int|
                    0 <= i < less.len() && (#[trigger] less[i]).site == site && less[i].target_file
                        == file && less[i].target_symbol == symbol;
                assert(edges[i].site == site);
            }
        }
        if exists|i: int|
            0 <= i < edges.len() && (#[trigger] edges[i]).site == site && edges[i].target_file
                == file && edges[i].target_symbol == symbol {
            let i = choose|i: int|
                0 <= i < edges.len() && (#[trigger] edges[i]).site == site && edges[i].target_file
                    == file && edges[i].target_symbol == symbol;
            if i < less.len() {
                assert(less[i].site == site);
                let k = choose|k: int| 0 <= k < rest.len() && rest[k] == site;
                assert(now[k] == site);
            } else {
                assert(now[rest.len() as int] == site);
            }
        }
    }
}

/// One call deep, the callers of a symbol are exactly the sites that call it, in order.
pub proof fn direct_callers_are_the_sites_of_the_symbol(
    d: Disk,
    edges: Seq<ReverseModel>,
    file: Seq<char>,
    symbol: Seq<char>,
)
    ensures
        collected(d, edges, Seq::empty(), file, symbol, 1).1 == sites_to(
            edges,
            d.canonical_or_self(file),
            symbol,
        ),
{
    let c = d.canonical_or_self(file);
    let sites = sites_to(edges, c, symbol);
    lemma_collected_flat(d, edges, Seq::<(Seq<char>, Seq<char>)>::empty().push((c, symbol)), sites, 0);
    assert(sites.skip(0) =~= sites);
}

proof fn lemma_collected_flat(
    d: Disk,
    edges: Seq<ReverseModel>,
    visited: Seq<(Seq<char>, Seq<char>)>,
    sites: Seq<CallerModel>,
    from: int,
)
    requires
        0 <= from <= sites.len(),
    ensures
        collected_from(d, edges, visited, sites, from, 0).1 == sites.skip(from),
    decreases sites.len() - from,
{
    if from < sites.len() {
        let s = sites[from];
        let above = collected(d, edges, visited, s.file, s.symbol, 0);
        assert(above.1 =~= Seq::<CallerModel>::empty());
        lemma_collected_flat(d, edges, above.0, sites, from + 1);
        assert(seq![s] + above.1 + sites.skip(from + 1) =~= sites.skip(from));
    } else {
        assert(sites.skip(from) =~= Seq::<CallerModel>::empty());
    }
}

/// Deeper, the callers of a caller come right behind it, up to the depth that was asked for, and
/// those of a symbol that was come to before come only once.
pub proof fn callers_of_callers_come_behind_them(
    d: Disk,
    edges: Seq<ReverseModel>,
    visited: Seq<(Seq<char>, Seq<char>)>,
    file: Seq<char>,
    symbol: Seq<char>,
    left: nat,
)
    ensures
        ({
            let c = d.canonical_or_self(file);
            let r = collected(d, edges, visited, file, symbol, left);
            let sites = sites_to(edges, c, symbol);
            &&& left == 0 || visited.contains((c, symbol)) ==> r.1.len() == 0 && r.0 == visited
            &&& left > 0 && !visited.contains((c, symbol)) && sites.len() == 0 ==> r.1.len() == 0
            &&& left > 0 && !visited.contains((c, symbol)) && sites.len() > 0 ==> r.1.len() > 0
                && r.1[0] == sites[0] && {
                let above = collected(
                    d,
                    edges,
                    visited.push((c, symbol)),
                    sites[0].file,
                    sites[0].symbol,
                    (left - 1) as nat,
                ).1;
                above.len() < r.1.len() && r.1.subrange(1, 1int + above.len()) == above
            }
        }),
{
    let c = d.canonical_or_self(file);
    let sites = sites_to(edges, c, symbol);
    if left > 0 && !visited.contains((c, symbol)) && sites.len() > 0 {
        let above = collected(
            d,
            edges,
            visited.push((c, symbol)),
            sites[0].file,
            sites[0].symbol,
            (left - 1) as nat,
        );
        let rest = collected_from(d, edges, above.0, sites, 1, (left - 1) as nat);
        let r = collected(d, edges, visited, file, symbol, left).1;
        assert(r =~= seq![sites[0]] + above.1 + rest.1);
        assert(r.subrange(1, 1int + above.1.len()) =~= above.1);
    }
}

/// Who calls a symbol is told one call deep where nothing else is asked for, with the symbol, its
/// file and how many callers and files there are.
pub proof fn callers_are_told_one_call_deep(
    d: Disk,
    g: Graph,
    c: Seq<char>,
    symbol: Seq<char>,
    depth: nat,
)
    ensures
        callers_answer(d, g, c, symbol, 0) == callers_answer(d, g, c, symbol, 1),
        callers_answer(d, g, c, symbol, depth).symbol == symbol,
        callers_answer(d, g, c, symbol, depth).file == path_relative(c, g.root),
        depth > 0 ==> callers_answer(d, g, c, symbol, depth).total_callers == collected(
            d,
            g.reverse->0,
            Seq::empty(),
            c,
            symbol,
            depth,
        ).1.len(),
        g.project_files is Some ==> callers_answer(d, g, c, symbol, depth).scanned_files
            == g.project_files->0.len(),
{
}

} // verus!
