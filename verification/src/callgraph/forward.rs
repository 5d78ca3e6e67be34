//! What a symbol calls, and what that calls, up to a depth.
use vstd::prelude::*;

use crate::callgraph::data::{build_file_data, file_data, get_symbol_meta, symbol_place};
use crate::callgraph::graph::{built, canon, exported_search, followed, CallGraph, Graph};
use crate::callgraph::model::{
    lemma_call_children, CallSite, CallTree, CallTreeNode, EdgeModel, EdgeResolution, FileModel,
    ImportModel, SiteModel,
};
use crate::callgraph::resolve::{import_dir, imported_files};
use crate::callgraph::worktree::{Disk, Worktree};
use crate::error::{outcome, AftError, Fault};
use crate::models::{get_entry, group_models, models, set_entry, table_get, table_set};
use crate::paths::{path_join, path_relative};
use crate::text::{owned, same};

verus! {

/// A symbol of a file on the way that is being walked.
pub struct Visit {
    pub file: String,
    pub symbol: String,
}

impl DeepView for Visit {
    type V = (Seq<char>, Seq<char>);

    open spec fn deep_view(&self) -> (Seq<char>, Seq<char>) {
        (self.file@, self.symbol@)
    }
}

/// `list` without every occurrence of `key`.
pub open spec fn without(list: Seq<(Seq<char>, Seq<char>)>, key: (Seq<char>, Seq<char>)) -> Seq<
    (Seq<char>, Seq<char>),
>
    decreases list.len(),
{
    if list.len() == 0 {
        Seq::empty()
    } else if list.last() == key {
        without(list.drop_last(), key)
    } else {
        without(list.drop_last(), key).push(list.last())
    }
}

/// Whether `visited` holds a symbol of a file.
pub fn was_visited(visited: &Vec<Visit>, file: &str, symbol: &str) -> (r: bool)
    ensures
        r == models(visited@).contains((file@, symbol@)),
{
    let ghost all = models(visited@);
    let mut i: usize = 0;
    while i < visited.len()
        invariant
            i <= visited.len(),
            all == models(visited@),
            forall|k: int| 0 <= k < i ==> all[k] != (file@, symbol@),
        decreases visited.len() - i,
    {
        assert(all[i as int] == visited@[i as int].deep_view());
        if same(visited[i].file.as_str(), file) && same(visited[i].symbol.as_str(), symbol) {
            return true;
        }
        i = i + 1;
    }
    false
}

fn leave(visited: &mut Vec<Visit>, file: &str, symbol: &str)
    ensures
        models(final(visited)@) == without(models(old(visited)@), (file@, symbol@)),
{
    broadcast use group_models;

    let ghost all = models(visited@);
    let mut kept: Vec<Visit> = Vec::new();
    let mut i: usize = 0;
    assert(all.take(0) =~= Seq::empty());
    while i < visited.len()
        invariant
            i <= visited.len(),
            all == models(visited@),
            models(kept@) == without(all.take(i as int), (file@, symbol@)),
        decreases visited.len() - i,
    {
        proof {
            assert(all.take(i + 1).drop_last() =~= all.take(i as int));
            assert(all.take(i + 1).last() == visited@[i as int].deep_view());
        }
        let ghost before = models(kept@);
        let v = &visited[i];
        if !(same(v.file.as_str(), file) && same(v.symbol.as_str(), symbol)) {
            let c = Visit { file: v.file.clone(), symbol: v.symbol.clone() };
            let ghost m = c.deep_view();
            kept.push(c);
            assert(models(kept@) == before.push(m));
        }
        i = i + 1;
    }
    assert(all.take(all.len() as int) =~= all);
    *visited = kept;
}

/// What is known of files, and which symbols are on the way, during a walk.
pub ghost struct Walk {
    pub data: Seq<(Seq<char>, FileModel)>,
    pub visited: Seq<(Seq<char>, Seq<char>)>,
}

/// A walk from a symbol of a file into what it calls, `left` calls deep. A symbol that
/// is on the way already is not entered again. What is known of each file that is
/// entered is learnt anew.
pub open spec fn forward(
    d: Disk,
    root: Seq<char>,
    st: Walk,
    file: Seq<char>,
    symbol: Seq<char>,
    left: nat,
) -> (Walk, Result<CallTree, Fault>)
    decreases left, 0nat,
{
    let c = canon(d, root, file);
    let place = symbol_place(d.symbols(c), symbol, 0);
    let node = CallTree {
        name: symbol,
        file: path_relative(c, root),
        line: place.0,
        signature: place.1,
        resolved: true,
        children: Seq::empty(),
    };
    if st.visited.contains((c, symbol)) {
        (st, Ok(node))
    } else {
        let visited = st.visited.push((c, symbol));
        match file_data(d, c) {
            Err(e) => (Walk { data: st.data, visited }, Err(e)),
            Ok(m) => {
                let entered = Walk { data: table_set(st.data, c, m), visited };
                let sites = match table_get(m.calls, symbol) {
                    Some(s) => s,
                    None => Seq::empty(),
                };
                let below = if left > 0 {
                    forward_sites(d, root, entered, c, m.imports, sites, 0, (left - 1) as nat)
                } else {
                    (entered, Seq::empty())
                };
                (
                    Walk { data: below.0.data, visited: without(below.0.visited, (c, symbol)) },
                    Ok(CallTree { children: below.1, ..node }),
                )
            },
        }
    }
}

/// The walk into the calls of a symbol from `from` on.
pub open spec fn forward_sites(
    d: Disk,
    root: Seq<char>,
    st: Walk,
    c: Seq<char>,
    imports: Seq<ImportModel>,
    sites: Seq<SiteModel>,
    from: int,
    left: nat,
) -> (Walk, Seq<CallTree>)
    decreases left, (1 + sites.len() - from) as nat,
{
    if from < 0 || from >= sites.len() {
        (st, Seq::empty())
    } else {
        let s = sites[from];
        let step = followed(d, root, st.data, s.full_callee, s.callee_name, c, imports);
        let known = Walk { data: step.0, visited: st.visited };
        let leaf = CallTree {
            name: s.callee_name,
            file: path_relative(c, root),
            line: s.line,
            signature: None,
            resolved: false,
            children: Seq::empty(),
        };
        let below = match step.1 {
            EdgeModel::Resolved { file, symbol } => {
                let r = forward(d, root, known, file, symbol, left);
                match r.1 {
                    Ok(t) => (r.0, t),
                    Err(e) => (r.0, (CallTree { file: path_relative(file, root), ..leaf })),
                }
            },
            EdgeModel::Unresolved { callee_name } => (
                known,
                (CallTree { name: callee_name, ..leaf }),
            ),
        };
        let rest = forward_sites(d, root, below.0, c, imports, sites, from + 1, left);
        (rest.0, seq![below.1] + rest.1)
    }
}

fn copy_sites(sites: &Vec<CallSite>) -> (r: Vec<CallSite>)
    ensures
        models(r@) == models(sites@),
{
    broadcast use group_models;

    let ghost all = models(sites@);
    let mut out: Vec<CallSite> = Vec::new();
    let mut i: usize = 0;
    while i < sites.len()
        invariant
            i <= sites.len(),
            all == models(sites@),
            models(out@) == all.take(i as int),
        decreases sites.len() - i,
    {
        let s = &sites[i];
        let ghost before = models(out@);
        let c = CallSite {
            callee_name: s.callee_name.clone(),
            full_callee: s.full_callee.clone(),
            line: s.line,
            byte_start: s.byte_start,
            byte_end: s.byte_end,
        };
        let ghost m = c.deep_view();
        out.push(c);
        proof {
            assert(m =~= all[i as int]);
            assert(models(out@) == before.push(m));
            assert(models(out@) =~= all.take(i + 1));
        }
        i = i + 1;
    }
    assert(models(out@) =~= all);
    out
}

impl CallGraph {
    /// What a symbol calls, and what that calls, `max_depth` calls deep.
    pub fn forward_tree(&mut self, w: &Worktree, file: &str, symbol: &str, max_depth: usize) -> (r:
        Result<CallTreeNode, AftError>)
        ensures
            ({
                let walk = forward(
                    w@,
                    old(self)@.root,
                    Walk { data: old(self)@.data, visited: Seq::empty() },
                    file@,
                    symbol@,
                    max_depth as nat,
                );
                &&& outcome(r) == walk.1
                &&& final(self)@ == (Graph { data: walk.0.data, ..old(self)@ })
            }),
    {
        broadcast use group_models;

        let mut visited: Vec<Visit> = Vec::new();
        self.forward_tree_inner(w, file, symbol, max_depth, &mut visited)
    }

    fn forward_tree_inner(
        &mut self,
        w: &Worktree,
        file: &str,
        symbol: &str,
        left: usize,
        visited: &mut Vec<Visit>,
    ) -> (r: Result<CallTreeNode, AftError>)
        ensures
            ({
                let walk = forward(
                    w@,
                    old(self)@.root,
                    Walk { data: old(self)@.data, visited: models(old(visited)@) },
                    file@,
                    symbol@,
                    left as nat,
                );
                &&& outcome(r) == walk.1
                &&& final(self)@ == (Graph { data: walk.0.data, ..old(self)@ })
                &&& models(final(visited)@) == walk.0.visited
            }),
        decreases left,
    {
        broadcast use {group_models, lemma_call_children};

        let ghost d = w@;
        let ghost start = self@;
        let c = self.canonicalize(w, file);
        let (line, signature) = get_symbol_meta(w, c.as_str(), symbol);
        if was_visited(visited, c.as_str(), symbol) {
            let node = CallTreeNode {
                name: owned(symbol),
                file: self.relative_path(c.as_str()),
                line,
                signature,
                resolved: true,
                children: Vec::new(),
            };
            assert(node.deep_view().children =~= Seq::<CallTree>::empty());
            return Ok(node);
        }
        let ghost before = models(visited@);
        visited.push(Visit { file: c.clone(), symbol: owned(symbol) });
        assert(models(visited@) == before.push((c@, symbol@)));
        let data = match build_file_data(w, c.as_str()) {
            Ok(f) => f,
            Err(e) => {
                return Err(e);
            },
        };
        let ghost m = data.deep_view();
        let imports = data.import_block.copy();
        let sites = match get_entry(&data.calls_by_symbol, symbol) {
            Some(list) => copy_sites(&list.sites),
            None => Vec::new(),
        };
        set_entry(&mut self.data, c.clone(), data);
        let mut children: Vec<CallTreeNode> = Vec::new();
        let ghost entered = Walk { data: self@.data, visited: models(visited@) };
        let ghost all = models(sites@);
        if left > 0 {
            let ghost want = forward_sites(
                d,
                start.root,
                entered,
                c@,
                m.imports,
                all,
                0,
                (left - 1) as nat,
            );
            let mut i: usize = 0;
            assert(models(children@) + want.1 =~= want.1);
            while i < sites.len()
                invariant
                    i <= sites.len(),
                    left > 0,
                    d == w@,
                    all == models(sites@),
                    m.imports == models(imports.imports@),
                    self@ == (Graph { data: self@.data, ..start }),
                    ({
                        let rest = forward_sites(
                            d,
                            start.root,
                            Walk { data: self@.data, visited: models(visited@) },
                            c@,
                            m.imports,
                            all,
                            i as int,
                            (left - 1) as nat,
                        );
                        &&& want.0 == rest.0
                        &&& want.1 == models(children@) + rest.1
                    }),
                decreases sites.len() - i,
            {
                let s = &sites[i];
                assert(all[i as int] == s.deep_view());
                let ghost acc = models(children@);
                let edge = self.resolve_cross_file_edge(
                    w,
                    s.full_callee.as_str(),
                    s.callee_name.as_str(),
                    c.as_str(),
                    &imports,
                );
                let child = match edge {
                    EdgeResolution::Resolved { file: target, symbol: name } => {
                        match self.forward_tree_inner(
                            w,
                            target.as_str(),
                            name.as_str(),
                            left - 1,
                            visited,
                        ) {
                            Ok(t) => t,
                            Err(_) => {
                                let leaf = CallTreeNode {
                                    name: s.callee_name.clone(),
                                    file: self.relative_path(target.as_str()),
                                    line: s.line,
                                    signature: None,
                                    resolved: false,
                                    children: Vec::new(),
                                };
                                assert(leaf.deep_view().children =~= Seq::<CallTree>::empty());
                                leaf
                            },
                        }
                    },
                    EdgeResolution::Unresolved { callee_name } => {
                        let leaf = CallTreeNode {
                            name: callee_name,
                            file: self.relative_path(c.as_str()),
                            line: s.line,
                            signature: None,
                            resolved: false,
                            children: Vec::new(),
                        };
                        assert(leaf.deep_view().children =~= Seq::<CallTree>::empty());
                        leaf
                    },
                };
                let ghost t = child.deep_view();
                children.push(child);
                proof {
                    assert(models(children@) == acc.push(t));
                    let rest = forward_sites(
                        d,
                        start.root,
                        Walk { data: self@.data, visited: models(visited@) },
                        c@,
                        m.imports,
                        all,
                        i + 1,
                        (left - 1) as nat,
                    );
                    assert(acc + (seq![t] + rest.1) =~= acc.push(t) + rest.1);
                }
                i = i + 1;
            }
            assert(models(children@) + Seq::<CallTree>::empty() =~= models(children@));
        }
        leave(visited, c.as_str(), symbol);
        Ok(
            CallTreeNode {
                name: owned(symbol),
                file: self.relative_path(c.as_str()),
                line,
                signature,
                resolved: true,
                children,
            },
        )
    }
}

/// A tree of calls starts with the symbol that was asked for, in its file as it is seen from the
/// root, at its place in the file. It has no branches where it may go no deeper, nor where the
/// symbol is on the way to it already.
pub proof fn trees_start_with_their_symbol(
    d: Disk,
    root: Seq<char>,
    st: Walk,
    file: Seq<char>,
    symbol: Seq<char>,
    left: nat,
)
    ensures
        match forward(d, root, st, file, symbol, left).1 {
            Ok(t) => {
                let c = d.canonical_or_self(path_join(root, file));
                &&& t.name == symbol
                &&& t.file == path_relative(c, root)
                &&& t.resolved
                &&& (t.line, t.signature) == symbol_place(d.symbols(c), symbol, 0)
                &&& left == 0 || st.visited.contains((c, symbol)) ==> t.children.len() == 0
            },
            Err(_) => true,
        },
{
}

/// Whether a tree is that of a call: the tree of the symbol that the call leads to, or a leaf with
/// the name and the line of the call where it leads nowhere or to what cannot be read.
pub open spec fn is_branch(
    d: Disk,
    root: Seq<char>,
    c: Seq<char>,
    imports: Seq<ImportModel>,
    s: SiteModel,
    t: CallTree,
) -> bool {
    ||| !t.resolved && t.line == s.line && t.children.len() == 0 && t.name == s.callee_name
    ||| t.resolved && exists|data: Seq<(Seq<char>, FileModel)>|
        match (#[trigger] followed(
            d,
            root,
            data,
            s.full_callee,
            s.callee_name,
            c,
            imports,
        )).1 {
            EdgeModel::Resolved { file, symbol } => t.name == symbol && t.file == path_relative(
                canon(d, root, file),
                root,
            ),
            EdgeModel::Unresolved { .. } => false,
        }
}

proof fn lemma_unresolved_name(
    d: Disk,
    root: Seq<char>,
    data: Seq<(Seq<char>, FileModel)>,
    files: Seq<Seq<char>>,
    name: Seq<char>,
    from: int,
)
    ensures
        match exported_search(d, root, data, files, name, from).1 {
            EdgeModel::Unresolved { callee_name } => callee_name == name,
            EdgeModel::Resolved { .. } => true,
        },
    decreases files.len() - from,
{
    if 0 <= from < files.len() {
        let cc = canon(d, root, files[from]);
        lemma_unresolved_name(d, root, built(d, data, cc), files, name, from + 1);
    }
}

/// A symbol has one branch for each of its calls, in order.
pub proof fn branches_are_the_calls_in_order(
    d: Disk,
    root: Seq<char>,
    st: Walk,
    c: Seq<char>,
    imports: Seq<ImportModel>,
    sites: Seq<SiteModel>,
    from: int,
    left: nat,
)
    requires
        0 <= from <= sites.len(),
    ensures
        ({
            let list = forward_sites(d, root, st, c, imports, sites, from, left).1;
            &&& list.len() == sites.len() - from
            &&& forall|i: int|
                0 <= i < list.len() ==> is_branch(
                    d,
                    root,
                    c,
                    imports,
                    sites[from + i],
                    #[trigger] list[i],
                )
        }),
    decreases sites.len() - from,
{
    if from < sites.len() {
        let s = sites[from];
        let step = followed(d, root, st.data, s.full_callee, s.callee_name, c, imports);
        let known = Walk { data: step.0, visited: st.visited };
        let leaf = CallTree {
            name: s.callee_name,
            file: path_relative(c, root),
            line: s.line,
            signature: None,
            resolved: false,
            children: Seq::empty(),
        };
        let below = match step.1 {
            EdgeModel::Resolved { file, symbol } => {
                let r = forward(d, root, known, file, symbol, left);
                match r.1 {
                    Ok(t) => (r.0, t),
                    Err(e) => (r.0, (CallTree { file: path_relative(file, root), ..leaf })),
                }
            },
            EdgeModel::Unresolved { callee_name } => (
                known,
                (CallTree { name: callee_name, ..leaf }),
            ),
        };
        match step.1 {
            EdgeModel::Resolved { file, symbol } => {
                trees_start_with_their_symbol(d, root, known, file, symbol, left);
                assert(followed(d, root, st.data, s.full_callee, s.callee_name, c, imports).1 == (
                EdgeModel::Resolved { file, symbol }));
            },
            EdgeModel::Unresolved { .. } => {
                lemma_unresolved_name(
                    d,
                    root,
                    st.data,
                    imported_files(d, import_dir(c), imports, 0),
                    s.callee_name,
                    0,
                );
            },
        }
        assert(is_branch(d, root, c, imports, s, below.1));
        branches_are_the_calls_in_order(
            d,
            root,
            below.0,
            c,
            imports,
            sites,
            from + 1,
            left,
        );
        let rest = forward_sites(d, root, below.0, c, imports, sites, from + 1, left).1;
        let list = forward_sites(d, root, st, c, imports, sites, from, left).1;
        assert(list =~= seq![below.1] + rest);
        assert forall|i: int| 0 <= i < list.len() implies is_branch(
            d,
            root,
            c,
            imports,
            sites[from + i],
            #[trigger] list[i],
        ) by {
            if i > 0 {
                assert(list[i] == rest[i - 1]);
            }
        }
    }
}

/// The branches of a symbol are those of the calls that its file has for it, where the tree may go
/// deeper and the symbol is not on the way to it.
pub proof fn trees_have_a_branch_for_each_call(
    d: Disk,
    root: Seq<char>,
    st: Walk,
    file: Seq<char>,
    symbol: Seq<char>,
    left: nat,
)
    requires
        left > 0,
        !st.visited.contains((canon(d, root, file), symbol)),
        file_data(d, canon(d, root, file)) is Ok,
    ensures
        ({
            let c = canon(d, root, file);
            let m = file_data(d, c)->Ok_0;
            let r = forward(d, root, st, file, symbol, left).1;
            &&& r is Ok
            &&& match table_get(m.calls, symbol) {
                Some(sites) => r->Ok_0.children.len() == sites.len() && forall|i: int|
                    0 <= i < sites.len() ==> is_branch(
                        d,
                        root,
                        c,
                        m.imports,
                        sites[i],
                        #[trigger] r->Ok_0.children[i],
                    ),
                None => r->Ok_0.children.len() == 0,
            }
        }),
{
    let c = canon(d, root, file);
    let m = file_data(d, c)->Ok_0;
    let visited = st.visited.push((c, symbol));
    let entered = Walk { data: table_set(st.data, c, m), visited };
    let sites = match table_get(m.calls, symbol) {
        Some(s) => s,
        None => Seq::empty(),
    };
    branches_are_the_calls_in_order(
        d,
        root,
        entered,
        c,
        m.imports,
        sites,
        0,
        (left - 1) as nat,
    );
}

} // verus!
