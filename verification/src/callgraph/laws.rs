//! What holds of call trees, callers, ways and impacts, whatever the project.
use vstd::prelude::*;

use crate::callgraph::callers::{
    all_edges, ascending, at_least_one, built_all, callers_answer, collected, collected_from,
    grouped, indexed, known_file, site_edges, sites_to, symbol_edges,
};
use crate::callgraph::data::file_data;
use crate::callgraph::forward::{forward, forward_sites, Walk};
use crate::callgraph::graph::{
    build_outcome, built, canon, entry_known, files_known, followed, plain_graph, Graph,
};
use crate::callgraph::impact::{
    all_affected, distinct_places, has_place, impact_answer, same_place,
};
use crate::callgraph::model::{
    AffectedModel, CallTree, CallerGroup, CallerModel, EdgeModel, FileModel, HopModel,
    ImpactCaller, ImportModel, ReverseModel, SiteModel, TracePath,
};
use crate::callgraph::trace::{
    depth_or_ten, entry_ways, fresh_callers, hops_of, passes, search, search_above, step_to,
    trace_answer, ways_to, StepModel,
};
use crate::callgraph::worktree::Disk;
use crate::error::Fault;
use crate::models::{
    key_index, lemma_key_index, lemma_table_get_remove, lemma_table_get_remove_other,
    lemma_unique_keys, table_get, table_remove, table_set, unique_keys,
};
use crate::order::{
    in_order, inserted, lemma_sorted_in_order, lemma_sorted_permutes, sorted, Ranked,
};
use crate::paths::{
    normalized, path_components, path_relative, plain_path, plain_paths_are_told_apart, rendered,
};
use crate::text::{lemma_text_lt_transitive, lemma_text_order, text_lt};

verus! {

/// Whether no way from the root of a tree down is longer than `depth` calls, and nothing hangs
/// under a call that could not be followed.
pub open spec fn well_grown(t: CallTree, depth: nat) -> bool
    decreases depth,
{
    &&& !t.resolved ==> t.children.len() == 0
    &&& if depth == 0 {
        t.children.len() == 0
    } else {
        forall|i: int|
            0 <= i < t.children.len() ==> well_grown(#[trigger] t.children[i], (depth - 1) as nat)
    }
}

proof fn lemma_leaf(t: CallTree, depth: nat)
    requires
        t.children.len() == 0,
    ensures
        well_grown(t, depth),
{
}

/// A call tree is as deep as was asked for at most, nothing hangs under a call that could not
/// be followed, and its root is the symbol that was asked for.
pub proof fn trees_stay_within_their_depth(
    d: Disk,
    root: Seq<char>,
    st: Walk,
    file: Seq<char>,
    symbol: Seq<char>,
    left: nat,
)
    ensures
        match forward(d, root, st, file, symbol, left).1 {
            Ok(t) => t.name == symbol && t.resolved && well_grown(t, left),
            Err(e) => true,
        },
    decreases left, 0nat,
{
    let c = canon(d, root, file);
    if !st.visited.contains((c, symbol)) {
        match file_data(d, c) {
            Err(e) => {},
            Ok(m) => {
                if left > 0 {
                    let entered = Walk {
                        data: table_set(st.data, c, m),
                        visited: st.visited.push((c, symbol)),
                    };
                    let sites = match table_get(m.calls, symbol) {
                        Some(s) => s,
                        None => Seq::empty(),
                    };
                    lemma_sites_grown(
                        d,
                        root,
                        entered,
                        c,
                        m.imports,
                        sites,
                        0,
                        (left - 1) as nat,
                    );
                }
            },
        }
    }
}

proof fn lemma_sites_grown(
    d: Disk,
    root: Seq<char>,
    st: Walk,
    c: Seq<char>,
    imports: Seq<ImportModel>,
    sites: Seq<SiteModel>,
    from: int,
    left: nat,
)
    ensures
        forall|i: int|
            0 <= i < forward_sites(d, root, st, c, imports, sites, from, left).1.len()
                ==> well_grown(
                #[trigger] forward_sites(d, root, st, c, imports, sites, from, left).1[i],
                left,
            ),
        0 <= from <= sites.len() ==> forward_sites(
            d,
            root,
            st,
            c,
            imports,
            sites,
            from,
            left,
        ).1.len() == sites.len() - from,
    decreases left, (1 + sites.len() - from) as nat,
{
    if 0 <= from < sites.len() {
        let s = sites[from];
        let step = followed(d, root, st.data, s.full_callee, s.callee_name, c, imports);
        let known = Walk { data: step.0, visited: st.visited };
        let leaf = CallTree {
            name: s.callee_name,
            file: path_relative(c, root),
            line: s.line,
            signature: None,
            resolved: false,
            children: Seq::empty(),
        };
        let below = match step.1 {
            EdgeModel::Resolved { file, symbol } => {
                let r = forward(d, root, known, file, symbol, left);
                match r.1 {
                    Ok(t) => (r.0, t),
                    Err(e) => (r.0, (CallTree { file: path_relative(file, root), ..leaf })),
                }
            },
            EdgeModel::Unresolved { callee_name } => (
                known,
                (CallTree { name: callee_name, ..leaf }),
            ),
        };
        match step.1 {
            EdgeModel::Resolved { file, symbol } => {
                trees_stay_within_their_depth(d, root, known, file, symbol, left);
                match forward(d, root, known, file, symbol, left).1 {
                    Ok(t) => {},
                    Err(e) => {
                        lemma_leaf(below.1, left);
                    },
                }
            },
            EdgeModel::Unresolved { callee_name } => {
                lemma_leaf(below.1, left);
            },
        }
        assert(well_grown(below.1, left));
        lemma_sites_grown(d, root, below.0, c, imports, sites, from + 1, left);
        let rest = forward_sites(d, root, below.0, c, imports, sites, from + 1, left);
        let all = forward_sites(d, root, st, c, imports, sites, from, left).1;
        assert(all == seq![below.1] + rest.1);
        assert forall|i: int| 0 <= i < all.len() implies well_grown(#[trigger] all[i], left) by {
            if i > 0 {
                assert(all[i] == rest.1[i - 1]);
            }
        }
    }
}

/// Whether the site of a step calls what another step stands for.
pub open spec fn calls_step(edges: Seq<ReverseModel>, upper: StepModel, lower: StepModel) -> bool {
    exists|k: int|
        0 <= k < edges.len() && #[trigger] edges[k].target_file == lower.file
            && edges[k].target_symbol == lower.symbol && edges[k].site.file == upper.file
            && edges[k].site.symbol == upper.symbol
}

/// Whether a way goes through no symbol of a file twice.
pub open spec fn simple(way: Seq<StepModel>) -> bool {
    forall|i: int, j: int|
        0 <= i < j < way.len() ==> #[trigger] way[i].file != #[trigger] way[j].file
            || way[i].symbol != way[j].symbol
}

/// Whether each step of a way, the first aside, calls the one before it.
pub open spec fn chained(edges: Seq<ReverseModel>, way: Seq<StepModel>) -> bool {
    forall|i: int| 0 < i < way.len() ==> calls_step(edges, #[trigger] way[i], way[i - 1])
}

/// Whether a found way goes on from a given one, over calls, through no symbol twice, and ends
/// in an entry point, `left` calls further at most.
pub open spec fn leads_on(
    d: Disk,
    data: Seq<(Seq<char>, FileModel)>,
    edges: Seq<ReverseModel>,
    way: Seq<StepModel>,
    found: Seq<StepModel>,
    left: nat,
) -> bool {
    &&& way.len() < found.len() <= way.len() + left
    &&& found.take(way.len() as int) == way
    &&& simple(found)
    &&& chained(edges, found)
    &&& entry_known(d, data, found.last().file, found.last().symbol)
}

proof fn lemma_fresh(sites: Seq<CallerModel>, way: Seq<StepModel>)
    ensures
        forall|i: int|
            0 <= i < fresh_callers(sites, way).len() ==> sites.contains(
                #[trigger] fresh_callers(sites, way)[i],
            ) && !passes(
                way,
                fresh_callers(sites, way)[i].file,
                fresh_callers(sites, way)[i].symbol,
            ),
    decreases sites.len(),
{
    if sites.len() > 0 {
        let t = sites.drop_last();
        lemma_fresh(t, way);
        let f = fresh_callers(sites, way);
        let g = fresh_callers(t, way);
        assert forall|i: int| 0 <= i < f.len() implies sites.contains(#[trigger] f[i]) && !passes(
            way,
            f[i].file,
            f[i].symbol,
        ) by {
            if i < g.len() {
                assert(f[i] == g[i]);
                let k = choose|k: int| 0 <= k < t.len() && t[k] == g[i];
                assert(sites[k] == f[i]);
            } else {
                assert(sites[sites.len() - 1] == f[i]);
            }
        }
    }
}

proof fn lemma_sites_to(edges: Seq<ReverseModel>, file: Seq<char>, symbol: Seq<char>, s: CallerModel)
    requires
        sites_to(edges, file, symbol).contains(s),
    ensures
        exists|k: int|
            0 <= k < edges.len() && #[trigger] edges[k].target_file == file
                && edges[k].target_symbol == symbol && edges[k].site == s,
    decreases edges.len(),
{
    if edges.len() > 0 {
        let t = edges.drop_last();
        let e = edges.last();
        let rest = sites_to(t, file, symbol);
        if e.target_file == file && e.target_symbol == symbol && e.site == s {
            assert(edges[edges.len() - 1].target_file == file);
        } else {
            let all = sites_to(edges, file, symbol);
            let i = choose|i: int| 0 <= i < all.len() && all[i] == s;
            if i < rest.len() {
                assert(rest[i] == s);
            }
            assert(rest.contains(s));
            lemma_sites_to(t, file, symbol, s);
            let k = choose|k: int|
                0 <= k < t.len() && #[trigger] t[k].target_file == file && t[k].target_symbol
                    == symbol && t[k].site == s;
            assert(edges[k] == t[k]);
        }
    }
}

/// A way that goes on with a fresh caller is as good as it was.
proof fn lemma_go_on(d: Disk, edges: Seq<ReverseModel>, way: Seq<StepModel>, s: CallerModel)
    requires
        way.len() > 0,
        simple(way),
        chained(edges, way),
        sites_to(edges, way.last().file, way.last().symbol).contains(s),
        !passes(way, s.file, s.symbol),
    ensures
        simple(way.push(step_to(d, s.file, s.symbol))),
        chained(edges, way.push(step_to(d, s.file, s.symbol))),
{
    let step = step_to(d, s.file, s.symbol);
    let on = way.push(step);
    lemma_sites_to(edges, way.last().file, way.last().symbol, s);
    let k = choose|k: int|
        0 <= k < edges.len() && #[trigger] edges[k].target_file == way.last().file
            && edges[k].target_symbol == way.last().symbol && edges[k].site == s;
    assert(edges[k].target_file == way.last().file);
    assert(calls_step(edges, step, way.last()));
    assert forall|i: int, j: int| 0 <= i < j < on.len() implies #[trigger] on[i].file
        != #[trigger] on[j].file || on[i].symbol != on[j].symbol by {
        if j < way.len() {
            assert(on[i] == way[i] && on[j] == way[j]);
        } else {
            assert(on[i] == way[i]);
            if way[i].file == s.file && way[i].symbol == s.symbol {
                assert(passes(way, s.file, s.symbol));
            }
        }
    }
    assert forall|i: int| 0 < i < on.len() implies calls_step(
        edges,
        #[trigger] on[i],
        on[i - 1],
    ) by {
        if i < way.len() {
            assert(on[i] == way[i] && on[i - 1] == way[i - 1]);
        } else {
            assert(on[i] == step && on[i - 1] == way.last());
        }
    }
}

proof fn lemma_entry_ways(
    d: Disk,
    data: Seq<(Seq<char>, FileModel)>,
    edges: Seq<ReverseModel>,
    way: Seq<StepModel>,
    callers: Seq<CallerModel>,
    left: nat,
)
    requires
        way.len() > 0,
        left > 0,
        simple(way),
        chained(edges, way),
        forall|i: int|
            0 <= i < callers.len() ==> sites_to(edges, way.last().file, way.last().symbol).contains(
                #[trigger] callers[i],
            ) && !passes(way, callers[i].file, callers[i].symbol),
    ensures
        forall|i: int|
            0 <= i < entry_ways(d, data, way, callers).len() ==> leads_on(
                d,
                data,
                edges,
                way,
                #[trigger] entry_ways(d, data, way, callers)[i],
                left,
            ),
    decreases callers.len(),
{
    if callers.len() > 0 {
        let t = callers.drop_last();
        assert forall|i: int| 0 <= i < t.len() implies sites_to(
            edges,
            way.last().file,
            way.last().symbol,
        ).contains(#[trigger] t[i]) && !passes(way, t[i].file, t[i].symbol) by {
            assert(t[i] == callers[i]);
        }
        lemma_entry_ways(d, data, edges, way, t, left);
        let s = callers.last();
        assert(s == callers[callers.len() - 1]);
        lemma_go_on(d, edges, way, s);
        let on = way.push(step_to(d, s.file, s.symbol));
        assert(on.take(way.len() as int) =~= way);
        let all = entry_ways(d, data, way, callers);
        let rest = entry_ways(d, data, way, t);
        assert forall|i: int| 0 <= i < all.len() implies leads_on(
            d,
            data,
            edges,
            way,
            #[trigger] all[i],
            left,
        ) by {
            if i < rest.len() {
                assert(all[i] == rest[i]);
            } else {
                assert(all[i] == on);
            }
        }
    }
}

proof fn lemma_search(
    d: Disk,
    data: Seq<(Seq<char>, FileModel)>,
    edges: Seq<ReverseModel>,
    way: Seq<StepModel>,
    left: nat,
)
    requires
        way.len() > 0,
        simple(way),
        chained(edges, way),
    ensures
        forall|i: int|
            0 <= i < search(d, data, edges, way, left).ways.len() ==> leads_on(
                d,
                data,
                edges,
                way,
                #[trigger] search(d, data, edges, way, left).ways[i],
                left,
            ),
    decreases left, 0nat,
{
    if left > 0 {
        let sites = sites_to(edges, way.last().file, way.last().symbol);
        let fresh = fresh_callers(sites, way);
        lemma_fresh(sites, way);
        lemma_entry_ways(d, data, edges, way, fresh, left);
        lemma_search_above(d, data, edges, way, fresh, fresh.len() as int, (left - 1) as nat);
        let direct = entry_ways(d, data, way, fresh);
        let above = search_above(
            d,
            data,
            edges,
            way,
            fresh,
            fresh.len() as int,
            (left - 1) as nat,
        ).ways;
        let all = search(d, data, edges, way, left).ways;
        assert(all == direct + above);
        assert forall|i: int| 0 <= i < all.len() implies leads_on(
            d,
            data,
            edges,
            way,
            #[trigger] all[i],
            left,
        ) by {
            if i < direct.len() {
                assert(all[i] == direct[i]);
            } else {
                assert(all[i] == above[i - direct.len()]);
            }
        }
    }
}

proof fn lemma_search_above(
    d: Disk,
    data: Seq<(Seq<char>, FileModel)>,
    edges: Seq<ReverseModel>,
    way: Seq<StepModel>,
    callers: Seq<CallerModel>,
    n: int,
    left: nat,
)
    requires
        way.len() > 0,
        simple(way),
        chained(edges, way),
        forall|i: int|
            0 <= i < callers.len() ==> sites_to(edges, way.last().file, way.last().symbol).contains(
                #[trigger] callers[i],
            ) && !passes(way, callers[i].file, callers[i].symbol),
    ensures
        forall|i: int|
            0 <= i < search_above(d, data, edges, way, callers, n, left).ways.len() ==> leads_on(
                d,
                data,
                edges,
                way,
                #[trigger] search_above(d, data, edges, way, callers, n, left).ways[i],
                left + 1,
            ),
    decreases left, (if n < 0 { 0 } else { n + 1 }) as nat,
{
    if 0 < n <= callers.len() {
        let s = callers[n - 1];
        let on = way.push(step_to(d, s.file, s.symbol));
        lemma_go_on(d, edges, way, s);
        lemma_search(d, data, edges, on, left);
        lemma_search_above(d, data, edges, way, callers, n - 1, left);
        let first = search(d, data, edges, on, left).ways;
        let rest = search_above(d, data, edges, way, callers, n - 1, left).ways;
        let all = search_above(d, data, edges, way, callers, n, left).ways;
        assert(all == first + rest);
        assert forall|i: int| 0 <= i < all.len() implies leads_on(
            d,
            data,
            edges,
            way,
            #[trigger] all[i],
            left + 1,
        ) by {
            if i < first.len() {
                let f = first[i];
                assert(all[i] == f);
                assert(leads_on(d, data, edges, on, f, left));
                assert(f.take(way.len() as int) =~= way) by {
                    assert forall|k: int| 0 <= k < way.len() implies f[k] == way[k] by {
                        assert(f.take(on.len() as int)[k] == on[k]);
                    }
                }
            } else {
                assert(all[i] == rest[i - first.len()]);
            }
        }
    }
}

/// Every way that is found to a symbol starts at the symbol, goes up from each step to one that
/// calls it, passes no symbol of a file twice, ends in an entry point, and is not longer than
/// the depth allows.
pub proof fn ways_lead_to_entry_points(
    d: Disk,
    g: Graph,
    c: Seq<char>,
    symbol: Seq<char>,
    depth: nat,
)
    ensures
        forall|i: int|
            #![trigger ways_to(d, g, c, symbol, depth).ways[i]]
            0 <= i < ways_to(d, g, c, symbol, depth).ways.len() ==> {
                let w = ways_to(d, g, c, symbol, depth).ways[i];
                &&& 0 < w.len() <= depth_or_ten(depth) + 1
                &&& w[0] == step_to(d, c, symbol)
                &&& simple(w)
                &&& chained(g.reverse->0, w)
                &&& entry_known(d, g.data, w.last().file, w.last().symbol)
            },
{
    let target = seq![step_to(d, c, symbol)];
    let edges = g.reverse->0;
    lemma_search(d, g.data, edges, target, depth_or_ten(depth));
    let found = search(d, g.data, edges, target, depth_or_ten(depth)).ways;
    let all = ways_to(d, g, c, symbol, depth).ways;
    assert forall|i: int| #![trigger all[i]] 0 <= i < all.len() implies {
        let w = all[i];
        &&& 0 < w.len() <= depth_or_ten(depth) + 1
        &&& w[0] == step_to(d, c, symbol)
        &&& simple(w)
        &&& chained(edges, w)
        &&& entry_known(d, g.data, w.last().file, w.last().symbol)
    } by {
        let entry = entry_known(d, g.data, c, symbol);
        if entry && i == 0 {
            assert(all[i] == target);
        } else {
            let k = if entry {
                i - 1
            } else {
                i
            };
            assert(all[i] == found[k]);
            assert(leads_on(d, g.data, edges, target, found[k], depth_or_ten(depth)));
            assert(found[k].take(1)[0] == target[0]);
        }
    }
}

/// Whether a site is the site of one of the calls.
pub open spec fn from_edge(edges: Seq<ReverseModel>, s: CallerModel) -> bool {
    exists|k: int| 0 <= k < edges.len() && (#[trigger] edges[k]).site == s
}

/// Every caller that is collected is the site of a call, and with a depth of one the callers
/// are those that call the symbol itself, all of them.
pub proof fn callers_call(
    d: Disk,
    edges: Seq<ReverseModel>,
    visited: Seq<(Seq<char>, Seq<char>)>,
    file: Seq<char>,
    symbol: Seq<char>,
    left: nat,
)
    ensures
        forall|i: int|
            0 <= i < collected(d, edges, visited, file, symbol, left).1.len() ==> from_edge(
                edges,
                #[trigger] collected(d, edges, visited, file, symbol, left).1[i],
            ),
        left == 1 && !visited.contains((d.canonical_or_self(file), symbol)) ==> collected(
            d,
            edges,
            visited,
            file,
            symbol,
            left,
        ).1 == sites_to(edges, d.canonical_or_self(file), symbol),
    decreases left, 0nat,
{
    let c = d.canonical_or_self(file);
    if left > 0 && !visited.contains((c, symbol)) {
        let sites = sites_to(edges, c, symbol);
        assert forall|i: int| 0 <= i < sites.len() implies from_edge(
            edges,
            #[trigger] sites[i],
        ) by {
            lemma_sites_to(edges, c, symbol, sites[i]);
            let k = choose|k: int|
                0 <= k < edges.len() && #[trigger] edges[k].target_file == c
                    && edges[k].target_symbol == symbol && edges[k].site == sites[i];
            assert(edges[k].site == sites[i]);
        }
        lemma_collected_from(
            d,
            edges,
            visited.push((c, symbol)),
            sites,
            0,
            (left - 1) as nat,
        );
        assert(sites.skip(0) =~= sites);
        let all = collected_from(
            d,
            edges,
            visited.push((c, symbol)),
            sites,
            0,
            (left - 1) as nat,
        );
        assert(collected(d, edges, visited, file, symbol, left) == all);
    }
}

proof fn lemma_collected_from(
    d: Disk,
    edges: Seq<ReverseModel>,
    visited: Seq<(Seq<char>, Seq<char>)>,
    sites: Seq<CallerModel>,
    from: int,
    left: nat,
)
    requires
        0 <= from <= sites.len(),
        forall|i: int| 0 <= i < sites.len() ==> from_edge(edges, #[trigger] sites[i]),
    ensures
        forall|i: int|
            0 <= i < collected_from(d, edges, visited, sites, from, left).1.len() ==> from_edge(
                edges,
                #[trigger] collected_from(d, edges, visited, sites, from, left).1[i],
            ),
        left == 0 ==> collected_from(d, edges, visited, sites, from, left).1 == sites.skip(from),
    decreases left, (1 + sites.len() - from) as nat,
{
    if from < sites.len() {
        let s = sites[from];
        callers_call(d, edges, visited, s.file, s.symbol, left);
        let above = collected(d, edges, visited, s.file, s.symbol, left);
        lemma_collected_from(d, edges, above.0, sites, from + 1, left);
        let rest = collected_from(d, edges, above.0, sites, from + 1, left);
        let all = collected_from(d, edges, visited, sites, from, left).1;
        assert(all == seq![s] + above.1 + rest.1);
        assert forall|i: int| 0 <= i < all.len() implies from_edge(edges, #[trigger] all[i]) by {
            if i == 0 {
            } else if i < 1 + above.1.len() {
                assert(all[i] == above.1[i - 1]);
            } else {
                assert(all[i] == rest.1[i - 1 - above.1.len()]);
            }
        }
        if left == 0 {
            assert(all =~= sites.skip(from));
        }
    } else {
        assert(sites.skip(from) =~= Seq::empty());
    }
}

/// The number of entries in all groups.
pub open spec fn entries_in(groups: Seq<(Seq<char>, Seq<(Seq<char>, int)>)>) -> nat
    decreases groups.len(),
{
    if groups.len() == 0 {
        0
    } else {
        entries_in(groups.drop_last()) + groups.last().1.len()
    }
}

proof fn lemma_entries_update(
    groups: Seq<(Seq<char>, Seq<(Seq<char>, int)>)>,
    i: int,
    x: (Seq<char>, Seq<(Seq<char>, int)>),
)
    requires
        0 <= i < groups.len(),
    ensures
        entries_in(groups.update(i, x)) == entries_in(groups) + x.1.len() - groups[i].1.len(),
    decreases groups.len(),
{
    let t = groups.drop_last();
    let u = groups.update(i, x);
    if i == groups.len() - 1 {
        assert(u.drop_last() =~= t);
    } else {
        lemma_entries_update(t, i, x);
        assert(u.drop_last() =~= t.update(i, x));
    }
}

proof fn lemma_entries_inserted(
    groups: Seq<(Seq<char>, Seq<(Seq<char>, int)>)>,
    x: (Seq<char>, Seq<(Seq<char>, int)>),
)
    ensures
        entries_in(inserted::<CallerGroup>(groups, x)) == entries_in(groups) + x.1.len(),
    decreases groups.len(),
{
    if groups.len() > 0 && CallerGroup::before(x, groups.last()) {
        let t = groups.drop_last();
        lemma_entries_inserted(t, x);
        let r = inserted::<CallerGroup>(t, x);
        assert(r.push(groups.last()).drop_last() =~= r);
    } else {
        assert(groups.push(x).drop_last() =~= groups);
    }
}

proof fn lemma_entries_sorted(groups: Seq<(Seq<char>, Seq<(Seq<char>, int)>)>)
    ensures
        entries_in(sorted::<CallerGroup>(groups)) == entries_in(groups),
    decreases groups.len(),
{
    if groups.len() > 0 {
        lemma_entries_sorted(groups.drop_last());
        lemma_entries_inserted(sorted::<CallerGroup>(groups.drop_last()), groups.last());
    }
}

proof fn lemma_entries_renamed(
    groups: Seq<(Seq<char>, Seq<(Seq<char>, int)>)>,
    root: Seq<char>,
)
    ensures
        entries_in(
            groups.map_values(
                |g: (Seq<char>, Seq<(Seq<char>, int)>)| (path_relative(g.0, root), g.1),
            ),
        ) == entries_in(groups),
    decreases groups.len(),
{
    let f = |g: (Seq<char>, Seq<(Seq<char>, int)>)| (path_relative(g.0, root), g.1);
    if groups.len() > 0 {
        lemma_entries_renamed(groups.drop_last(), root);
        assert(groups.map_values(f).drop_last() =~= groups.drop_last().map_values(f));
    } else {
        assert(groups.map_values(f) =~= Seq::empty());
    }
}

proof fn lemma_grouped(sites: Seq<CallerModel>)
    ensures
        entries_in(grouped(sites)) == sites.len(),
    decreases sites.len(),
{
    if sites.len() > 0 {
        let rest = grouped(sites.drop_last());
        lemma_grouped(sites.drop_last());
        let s = sites.last();
        lemma_key_index(rest, s.file);
        let there = match table_get(rest, s.file) {
            Some(v) => v,
            None => Seq::empty(),
        };
        let x = (s.file, there.push((s.symbol, s.line)));
        let i = key_index(rest, s.file);
        if i < rest.len() {
            lemma_entries_update(rest, i, x);
        } else {
            assert(rest.push(x).drop_last() =~= rest);
        }
    }
}

/// The groups of callers stand in the order of their files, and their entries are as many as
/// the callers that are counted.
pub proof fn caller_counts_add_up(d: Disk, g: Graph, c: Seq<char>, symbol: Seq<char>, depth: nat)
    ensures
        in_order::<CallerGroup>(callers_answer(d, g, c, symbol, depth).callers),
        entries_in(callers_answer(d, g, c, symbol, depth).callers) == callers_answer(
            d,
            g,
            c,
            symbol,
            depth,
        ).total_callers,
{
    let sites = collected(
        d,
        g.reverse->0,
        Seq::empty(),
        c,
        symbol,
        at_least_one(depth),
    ).1;
    lemma_grouped(sites);
    lemma_entries_renamed(grouped(sites), g.root);
    let named = grouped(sites).map_values(
        |x: (Seq<char>, Seq<(Seq<char>, int)>)| (path_relative(x.0, g.root), x.1),
    );
    lemma_entries_sorted(named);
    assert forall|
        a: (Seq<char>, Seq<(Seq<char>, int)>),
        b: (Seq<char>, Seq<(Seq<char>, int)>),
    | #[trigger]
        CallerGroup::before(a, b) implies !CallerGroup::before(b, a) by {
        lemma_text_order(a.0, b.0);
    }
    assert forall|
        x: (Seq<char>, Seq<(Seq<char>, int)>),
        y: (Seq<char>, Seq<(Seq<char>, int)>),
        z: (Seq<char>, Seq<(Seq<char>, int)>),
    |
        !#[trigger] CallerGroup::before(x, y) && !#[trigger] CallerGroup::before(
            y,
            z,
        ) implies !CallerGroup::before(x, z) by {
        lemma_not_before(x.0, y.0, z.0);
    }
    lemma_sorted_in_order::<CallerGroup>(named);
}

proof fn lemma_not_before(a: Seq<char>, b: Seq<char>, c: Seq<char>)
    requires
        !text_lt(a, b),
        !text_lt(b, c),
    ensures
        !text_lt(a, c),
        a == c ==> a == b,
{
    lemma_text_order(a, b);
    lemma_text_order(b, c);
    lemma_text_order(a, c);
    if text_lt(a, c) && a != b {
        lemma_text_lt_transitive(b, a, c);
    }
    if a == c && a != b {
        lemma_text_lt_transitive(b, a, b);
        lemma_text_order(b, b);
    }
}

/// The places that are left when repetitions are dropped do not repeat, and none is lost.
pub proof fn places_do_not_repeat(sites: Seq<CallerModel>)
    ensures
        forall|i: int, j: int|
            0 <= i < j < distinct_places(sites).len() ==> !same_place(
                #[trigger] distinct_places(sites)[i],
                #[trigger] distinct_places(sites)[j],
            ),
        forall|i: int|
            0 <= i < sites.len() ==> has_place(distinct_places(sites), #[trigger] sites[i]),
    decreases sites.len(),
{
    if sites.len() > 0 {
        let t = sites.drop_last();
        places_do_not_repeat(t);
        let p = distinct_places(t);
        let q = distinct_places(sites);
        assert forall|i: int| 0 <= i < sites.len() implies has_place(q, #[trigger] sites[i]) by {
            if i < t.len() {
                assert(t[i] == sites[i]);
                assert(has_place(p, t[i]));
                let k = choose|k: int| 0 <= k < p.len() && same_place(#[trigger] p[k], t[i]);
                assert(q[k] == p[k]);
            } else if !has_place(p, sites.last()) {
                assert(same_place(q[q.len() - 1], sites.last()));
            }
        }
    }
}

proof fn lemma_affected_count(
    d: Disk,
    root: Seq<char>,
    data: Seq<(Seq<char>, FileModel)>,
    sites: Seq<CallerModel>,
)
    ensures
        all_affected(d, root, data, sites).1.len() == sites.len(),
    decreases sites.len(),
{
    if sites.len() > 0 {
        lemma_affected_count(d, root, data, sites.drop_last());
    }
}

/// What a change affects is told in the order of files and lines, once for each place that was
/// found, and as often as it is counted.
pub proof fn impact_is_counted_and_in_order(
    d: Disk,
    g: Graph,
    m: FileModel,
    c: Seq<char>,
    symbol: Seq<char>,
    depth: nat,
)
    ensures
        in_order::<ImpactCaller>(impact_answer(d, g, m, c, symbol, depth).1.callers),
        impact_answer(d, g, m, c, symbol, depth).1.callers.len() == impact_answer(
            d,
            g,
            m,
            c,
            symbol,
            depth,
        ).1.total_affected,
        impact_answer(d, g, m, c, symbol, depth).1.total_affected == distinct_places(
            collected(
                d,
                g.reverse->0,
                Seq::empty(),
                c,
                symbol,
                at_least_one(depth),
            ).1,
        ).len(),
{
    let sites = distinct_places(
        collected(
            d,
            g.reverse->0,
            Seq::empty(),
            c,
            symbol,
            at_least_one(depth),
        ).1,
    );
    let told = all_affected(d, g.root, g.data, sites).1;
    lemma_affected_count(d, g.root, g.data, sites);
    lemma_sorted_permutes::<ImpactCaller>(told);
    assert forall|a: AffectedModel, b: AffectedModel| #[trigger]
        ImpactCaller::before(a, b) implies !ImpactCaller::before(b, a) by {
        lemma_text_order(a.caller_file, b.caller_file);
    }
    assert forall|x: AffectedModel, y: AffectedModel, z: AffectedModel|
        !#[trigger] ImpactCaller::before(x, y) && !#[trigger] ImpactCaller::before(
            y,
            z,
        ) implies !ImpactCaller::before(x, z) by {
        lemma_not_before(x.caller_file, y.caller_file, z.caller_file);
    }
    lemma_sorted_in_order::<ImpactCaller>(told);
}

/// Learning about files keeps every known file listed once.
pub proof fn known_files_stay_unique(
    d: Disk,
    root: Seq<char>,
    data: Seq<(Seq<char>, FileModel)>,
    files: Seq<Seq<char>>,
)
    requires
        unique_keys(data),
    ensures
        unique_keys(built_all(d, root, data, files)),
    decreases files.len(),
{
    if files.len() > 0 {
        known_files_stay_unique(d, root, data, files.drop_last());
        let before = built_all(d, root, data, files.drop_last());
        let c = canon(d, root, files.last());
        match file_data(d, c) {
            Ok(m) => {
                lemma_unique_keys(before, c, m);
            },
            Err(e) => {},
        }
    }
}

/// A file that was invalidated is read anew when it is asked for, whatever was known of it; what
/// is known of other files stays.
pub proof fn invalidated_file_is_read_again(
    d: Disk,
    g: Graph,
    now: Disk,
    path: Seq<char>,
    other: Seq<char>,
)
    requires
        unique_keys(g.data),
    ensures
        ({
            let c = canon(d, g.root, path);
            let left = table_remove(table_remove(g.data, path), c);
            &&& build_outcome(now, left, c) == file_data(now, c)
            &&& other != c && other != path ==> build_outcome(now, left, other) == build_outcome(
                now,
                g.data,
                other,
            )
        }),
{
    let c = canon(d, g.root, path);
    let once = table_remove(g.data, path);
    if g.data.len() > 0 {
        lemma_unique_keys(g.data, path, g.data[0].1);
    } else {
        lemma_key_index(g.data, path);
    }
    lemma_table_get_remove(once, c);
    if other != c && other != path {
        lemma_table_get_remove_other(g.data, path, other);
        lemma_table_get_remove_other(once, c, other);
    }
}

/// What is known of a file is not read again, whatever the worktree holds by now.
pub proof fn known_file_is_kept(d: Disk, data: Seq<(Seq<char>, FileModel)>, c: Seq<char>)
    requires
        table_get(data, c) is Some,
    ensures
        built(d, data, c) == data,
        build_outcome(d, data, c) == Ok::<FileModel, Fault>(table_get(data, c)->0),
{
}

/// Looking at the calls from what they call is done once: after that nothing changes.
pub proof fn indexing_is_done_once(d: Disk, later: Disk, g: Graph)
    ensures
        indexed(later, indexed(d, g)) == indexed(d, g),
{
}

/// Whether everything in one list is in another, which is not shorter.
pub open spec fn all_in<A>(a: Seq<A>, b: Seq<A>) -> bool {
    &&& a.len() <= b.len()
    &&& forall|i: int| 0 <= i < a.len() ==> b.contains(#[trigger] a[i])
}

proof fn lemma_all_in_joined<A>(a: Seq<A>, b: Seq<A>, x: Seq<A>, y: Seq<A>)
    requires
        all_in(a, b),
        all_in(x, y),
    ensures
        all_in(a + x, b + y),
{
    assert forall|i: int| 0 <= i < (a + x).len() implies (b + y).contains(#[trigger] (a + x)[i]) by {
        if i < a.len() {
            let k = choose|k: int| 0 <= k < b.len() && b[k] == a[i];
            assert((b + y)[k] == a[i]);
        } else {
            let j = i - a.len();
            assert(y.contains(x[j]));
            let k = choose|k: int| 0 <= k < y.len() && y[k] == x[j];
            assert((b + y)[b.len() + k] == x[j]);
        }
    }
}

proof fn lemma_all_in_itself<A>(a: Seq<A>)
    ensures
        all_in(a, a),
{
    assert forall|i: int| 0 <= i < a.len() implies a.contains(#[trigger] a[i]) by {}
}

proof fn lemma_deeper_search(
    d: Disk,
    data: Seq<(Seq<char>, FileModel)>,
    edges: Seq<ReverseModel>,
    way: Seq<StepModel>,
    less: nat,
    more: nat,
)
    requires
        less <= more,
    ensures
        all_in(search(d, data, edges, way, less).ways, search(d, data, edges, way, more).ways),
    decreases less, 0nat,
{
    if less > 0 {
        let sites = sites_to(edges, way.last().file, way.last().symbol);
        let fresh = fresh_callers(sites, way);
        let n = fresh.len() as int;
        lemma_deeper_above(d, data, edges, way, fresh, n, (less - 1) as nat, (more - 1) as nat);
        lemma_all_in_itself(entry_ways(d, data, way, fresh));
        lemma_all_in_joined(
            entry_ways(d, data, way, fresh),
            entry_ways(d, data, way, fresh),
            search_above(d, data, edges, way, fresh, n, (less - 1) as nat).ways,
            search_above(d, data, edges, way, fresh, n, (more - 1) as nat).ways,
        );
    }
}

proof fn lemma_deeper_above(
    d: Disk,
    data: Seq<(Seq<char>, FileModel)>,
    edges: Seq<ReverseModel>,
    way: Seq<StepModel>,
    callers: Seq<CallerModel>,
    n: int,
    less: nat,
    more: nat,
)
    requires
        less <= more,
    ensures
        all_in(
            search_above(d, data, edges, way, callers, n, less).ways,
            search_above(d, data, edges, way, callers, n, more).ways,
        ),
    decreases less, (if n < 0 { 0 } else { n + 1 }) as nat,
{
    if 0 < n <= callers.len() {
        let s = callers[n - 1];
        let on = way.push(step_to(d, s.file, s.symbol));
        lemma_deeper_search(d, data, edges, on, less, more);
        lemma_deeper_above(d, data, edges, way, callers, n - 1, less, more);
        lemma_all_in_joined(
            search(d, data, edges, on, less).ways,
            search(d, data, edges, on, more).ways,
            search_above(d, data, edges, way, callers, n - 1, less).ways,
            search_above(d, data, edges, way, callers, n - 1, more).ways,
        );
    }
}

/// A search that goes deeper loses no way: every way to a symbol that is told for a depth is
/// told for a greater one too, and there are not fewer.
pub proof fn deeper_searches_lose_no_way(
    d: Disk,
    g: Graph,
    c: Seq<char>,
    symbol: Seq<char>,
    less: nat,
    more: nat,
)
    requires
        1 <= less <= more,
    ensures
        forall|p: Seq<HopModel>|
            trace_answer(d, g, c, symbol, less).paths.contains(p) ==> #[trigger] trace_answer(
                d,
                g,
                c,
                symbol,
                more,
            ).paths.contains(p),
        trace_answer(d, g, c, symbol, less).total_paths <= trace_answer(
            d,
            g,
            c,
            symbol,
            more,
        ).total_paths,
{
    let target = seq![step_to(d, c, symbol)];
    lemma_deeper_search(d, g.data, g.reverse->0, target, less, more);
    let a = ways_to(d, g, c, symbol, less).ways;
    let b = ways_to(d, g, c, symbol, more).ways;
    assert(all_in(a, b)) by {
        if entry_known(d, g.data, c, symbol) {
            lemma_all_in_itself(seq![target]);
            lemma_all_in_joined(
                seq![target],
                seq![target],
                search(d, g.data, g.reverse->0, target, less).ways,
                search(d, g.data, g.reverse->0, target, more).ways,
            );
        }
    }
    let f = |w: Seq<StepModel>| hops_of(d, g.data, g.root, w);
    let x = a.map_values(f);
    let y = b.map_values(f);
    lemma_sorted_permutes::<TracePath>(x);
    lemma_sorted_permutes::<TracePath>(y);
    let p = sorted::<TracePath>(x);
    let q = sorted::<TracePath>(y);
    x.to_multiset_ensures();
    y.to_multiset_ensures();
    p.to_multiset_ensures();
    q.to_multiset_ensures();
    assert forall|h: Seq<HopModel>| p.contains(h) implies #[trigger] q.contains(h) by {
        assert(p.to_multiset().count(h) > 0);
        assert(x.contains(h));
        let i = choose|i: int| 0 <= i < x.len() && x[i] == h;
        assert(b.contains(a[i]));
        let k = choose|k: int| 0 <= k < b.len() && b[k] == a[i];
        assert(y[k] == h);
        assert(y.contains(h));
        assert(y.to_multiset().count(h) > 0);
    }
}

/// Whether every way over calls from a symbol up that no fresh caller continues ends in an entry
/// point.
pub open spec fn ends_in_entries(
    d: Disk,
    data: Seq<(Seq<char>, FileModel)>,
    edges: Seq<ReverseModel>,
    target: StepModel,
) -> bool {
    forall|way: Seq<StepModel>|
        #![trigger simple(way)]
        way.len() > 1 && way[0] == target && simple(way) && chained(edges, way) && fresh_callers(
            sites_to(edges, way.last().file, way.last().symbol),
            way,
        ).len() == 0 ==> entry_known(d, data, way.last().file, way.last().symbol)
}

proof fn lemma_no_dead_end(
    d: Disk,
    data: Seq<(Seq<char>, FileModel)>,
    edges: Seq<ReverseModel>,
    target: StepModel,
    way: Seq<StepModel>,
    left: nat,
)
    requires
        ends_in_entries(d, data, edges, target),
        way.len() > 0,
        way[0] == target,
        simple(way),
        chained(edges, way),
    ensures
        search(d, data, edges, way, left).dead == 0,
    decreases left, 0nat,
{
    if left > 0 {
        let sites = sites_to(edges, way.last().file, way.last().symbol);
        let fresh = fresh_callers(sites, way);
        lemma_fresh(sites, way);
        let n = fresh.len() as int;
        lemma_no_dead_end_above(d, data, edges, target, way, fresh, n, (left - 1) as nat);
    }
}

proof fn lemma_no_dead_end_above(
    d: Disk,
    data: Seq<(Seq<char>, FileModel)>,
    edges: Seq<ReverseModel>,
    target: StepModel,
    way: Seq<StepModel>,
    callers: Seq<CallerModel>,
    n: int,
    left: nat,
)
    requires
        ends_in_entries(d, data, edges, target),
        way.len() > 0,
        way[0] == target,
        simple(way),
        chained(edges, way),
        forall|i: int|
            0 <= i < callers.len() ==> sites_to(edges, way.last().file, way.last().symbol).contains(
                #[trigger] callers[i],
            ) && !passes(way, callers[i].file, callers[i].symbol),
    ensures
        search_above(d, data, edges, way, callers, n, left).dead == 0,
    decreases left, (if n < 0 { 0 } else { n + 1 }) as nat,
{
    if 0 < n <= callers.len() {
        let s = callers[n - 1];
        lemma_go_on(d, edges, way, s);
        let on = way.push(step_to(d, s.file, s.symbol));
        lemma_no_dead_end(d, data, edges, target, on, left);
        lemma_no_dead_end_above(d, data, edges, target, way, callers, n - 1, left);
    }
}

/// An entry point is no dead end: where every way to a symbol that cannot be continued starts at
/// an entry point, no way counts as truncated.
pub proof fn entry_points_are_no_dead_ends(
    d: Disk,
    g: Graph,
    c: Seq<char>,
    symbol: Seq<char>,
    depth: nat,
)
    requires
        ends_in_entries(d, g.data, g.reverse->0, step_to(d, c, symbol)),
    ensures
        trace_answer(d, g, c, symbol, depth).truncated_paths == 0,
{
    let t = step_to(d, c, symbol);
    lemma_no_dead_end(d, g.data, g.reverse->0, t, seq![t], depth_or_ten(depth));
}

proof fn lemma_groups(sites: Seq<CallerModel>)
    ensures
        unique_keys(grouped(sites)),
        forall|i: int|
            0 <= i < grouped(sites).len() ==> (#[trigger] grouped(sites)[i]).1.len() > 0 && exists|
                k: int,
            |
                0 <= k < sites.len() && #[trigger] sites[k].file == grouped(sites)[i].0,
    decreases sites.len(),
{
    if sites.len() > 0 {
        let less = sites.drop_last();
        let rest = grouped(less);
        lemma_groups(less);
        let s = sites.last();
        let there = match table_get(rest, s.file) {
            Some(v) => v,
            None => Seq::empty(),
        };
        let list = there.push((s.symbol, s.line));
        lemma_unique_keys(rest, s.file, list);
        lemma_key_index(rest, s.file);
        let all = grouped(sites);
        assert forall|i: int| 0 <= i < all.len() implies (#[trigger] all[i]).1.len() > 0 && exists|
            k: int,
        |
            0 <= k < sites.len() && #[trigger] sites[k].file == all[i].0 by {
            if i == key_index(rest, s.file) {
                assert(all[i] == (s.file, list));
                assert(sites[sites.len() - 1].file == all[i].0);
            } else {
                assert(all[i] == rest[i]);
                let k = choose|k: int| 0 <= k < less.len() && #[trigger] less[k].file == rest[i].0;
                assert(sites[k].file == all[i].0);
            }
        }
    }
}

/// The sites of the callers of a symbol, `depth` calls deep.
pub open spec fn caller_sites(d: Disk, g: Graph, c: Seq<char>, symbol: Seq<char>, depth: nat) -> Seq<
    CallerModel,
> {
    collected(d, g.reverse->0, Seq::empty(), c, symbol, at_least_one(depth)).1
}

/// Whether the files of sites are told apart by what they are seen from `root`.
pub open spec fn told_apart(sites: Seq<CallerModel>, root: Seq<char>) -> bool {
    forall|i: int, j: int|
        0 <= i < sites.len() && 0 <= j < sites.len() && path_relative(
            (#[trigger] sites[i]).file,
            root,
        ) == path_relative((#[trigger] sites[j]).file, root) ==> sites[i].file == sites[j].file
}

proof fn lemma_groups_ascend(d: Disk, g: Graph, c: Seq<char>, symbol: Seq<char>, depth: nat)
    requires
        told_apart(caller_sites(d, g, c, symbol, depth), g.root),
    ensures
        ascending(callers_answer(d, g, c, symbol, depth).callers),
{
    let sites = caller_sites(d, g, c, symbol, depth);
    let groups = grouped(sites);
    lemma_groups(sites);
    let named = groups.map_values(
        |x: (Seq<char>, Seq<(Seq<char>, int)>)| (path_relative(x.0, g.root), x.1),
    );
    let told = callers_answer(d, g, c, symbol, depth).callers;
    assert(told == sorted::<CallerGroup>(named));
    caller_counts_add_up(d, g, c, symbol, depth);
    assert forall|i: int, j: int| 0 <= i < j < named.len() implies #[trigger] named[i].0
        != #[trigger] named[j].0 by {
        let k = choose|k: int| 0 <= k < sites.len() && #[trigger] sites[k].file == groups[i].0;
        let m = choose|m: int| 0 <= m < sites.len() && #[trigger] sites[m].file == groups[j].0;
        assert(groups[i].0 != groups[j].0);
        assert(sites[k].file != sites[m].file);
    }
    lemma_sorted_permutes::<CallerGroup>(named);
    named.to_multiset_ensures();
    told.to_multiset_ensures();
    assert(named.no_duplicates()) by {
        assert forall|i: int, j: int|
            0 <= i < named.len() && 0 <= j < named.len() && i != j implies named[i] != named[j] by {
            if i < j {
                assert(named[i].0 != named[j].0);
            } else {
                assert(named[j].0 != named[i].0);
            }
        }
    }
    named.lemma_multiset_has_no_duplicates();
    told.lemma_multiset_has_no_duplicates_conv();
    assert forall|i: int| 0 <= i < told.len() implies named.contains(#[trigger] told[i]) by {
        assert(told.contains(told[i]));
        assert(told.to_multiset().count(told[i]) > 0);
    }
    assert forall|i: int, j: int| 0 <= i < j < told.len() implies text_lt(
        (#[trigger] told[i]).0,
        (#[trigger] told[j]).0,
    ) by {
        assert(!CallerGroup::before(told[j], told[i]));
        let a = choose|a: int| 0 <= a < named.len() && named[a] == told[i];
        let b = choose|b: int| 0 <= b < named.len() && named[b] == told[j];
        if told[i].0 == told[j].0 {
            if a < b {
                assert(named[a].0 != named[b].0);
            } else if b < a {
                assert(named[b].0 != named[a].0);
            }
            assert(told[i] == told[j]);
        }
        lemma_text_order(told[i].0, told[j].0);
    }
}

proof fn lemma_groups_hold_callers(d: Disk, g: Graph, c: Seq<char>, symbol: Seq<char>, depth: nat)
    ensures
        forall|i: int|
            0 <= i < callers_answer(d, g, c, symbol, depth).callers.len() ==> (
            #[trigger] callers_answer(d, g, c, symbol, depth).callers[i]).1.len() > 0,
{
    let sites = caller_sites(d, g, c, symbol, depth);
    let groups = grouped(sites);
    lemma_groups(sites);
    let named = groups.map_values(
        |x: (Seq<char>, Seq<(Seq<char>, int)>)| (path_relative(x.0, g.root), x.1),
    );
    let told = callers_answer(d, g, c, symbol, depth).callers;
    lemma_sorted_permutes::<CallerGroup>(named);
    named.to_multiset_ensures();
    told.to_multiset_ensures();
    assert forall|i: int| 0 <= i < told.len() implies (#[trigger] told[i]).1.len() > 0 by {
        assert(told.contains(told[i]));
        assert(told.to_multiset().count(told[i]) > 0);
        let a = choose|a: int| 0 <= a < named.len() && named[a] == told[i];
        assert(groups[a].1.len() > 0);
    }
}

/// Whether the sites stand in files with plain paths.
spec fn plain_sites(sites: Seq<CallerModel>) -> bool {
    forall|i: int| 0 <= i < sites.len() ==> plain_path((#[trigger] sites[i]).file)
}

/// Whether the calls stand in files with plain paths.
spec fn plain_edges(edges: Seq<ReverseModel>) -> bool {
    forall|i: int| 0 <= i < edges.len() ==> plain_path((#[trigger] edges[i]).site.file)
}

proof fn lemma_plain_sites_add(a: Seq<CallerModel>, b: Seq<CallerModel>)
    requires
        plain_sites(a),
        plain_sites(b),
    ensures
        plain_sites(a + b),
{
    assert forall|i: int| 0 <= i < (a + b).len() implies plain_path((#[trigger] (a + b)[i]).file) by {
        assert((a + b)[i] == if i < a.len() { a[i] } else { b[i - a.len()] });
    }
}

proof fn lemma_plain_edges_add(a: Seq<ReverseModel>, b: Seq<ReverseModel>)
    requires
        plain_edges(a),
        plain_edges(b),
    ensures
        plain_edges(a + b),
{
    assert forall|i: int| 0 <= i < (a + b).len() implies plain_path(
        (#[trigger] (a + b)[i]).site.file,
    ) by {
        assert((a + b)[i] == if i < a.len() { a[i] } else { b[i - a.len()] });
    }
}

proof fn lemma_plain_canonical(d: Disk, p: Seq<char>)
    requires
        d.plain(),
        plain_path(p),
    ensures
        plain_path(d.canonical_or_self(p)),
{
    let n = rendered(normalized(path_components(p)));
    lemma_key_index(d.links, p);
    lemma_key_index(d.files, n);
}

proof fn lemma_plain_symbol_edges(
    d: Disk,
    data: Seq<(Seq<char>, FileModel)>,
    caller: Seq<char>,
    calls: Seq<(Seq<char>, Seq<SiteModel>)>,
    imports: Seq<ImportModel>,
)
    requires
        plain_path(caller),
    ensures
        plain_edges(symbol_edges(d, data, caller, calls, imports)),
    decreases calls.len(),
{
    if calls.len() > 0 {
        let less = calls.drop_last();
        let sites = site_edges(d, data, caller, calls.last().0, calls.last().1, imports);
        lemma_plain_symbol_edges(d, data, caller, less, imports);
        lemma_plain_edges_add(symbol_edges(d, data, caller, less, imports), sites);
    }
}

proof fn lemma_plain_edges(d: Disk, data: Seq<(Seq<char>, FileModel)>, files: Seq<Seq<char>>)
    requires
        d.plain(),
        forall|i: int| 0 <= i < files.len() ==> plain_path(#[trigger] files[i]),
    ensures
        plain_edges(all_edges(d, data, files)),
    decreases files.len(),
{
    if files.len() > 0 {
        let last = files.last();
        let c = d.canonical_or_self(last);
        lemma_plain_edges(d, data, files.drop_last());
        lemma_plain_canonical(d, last);
        match known_file(d, data, last) {
            Some(m) => {
                lemma_plain_symbol_edges(d, data, c, m.calls, m.imports);
                lemma_plain_edges_add(
                    all_edges(d, data, files.drop_last()),
                    symbol_edges(d, data, c, m.calls, m.imports),
                );
            },
            None => {},
        }
    }
}

proof fn lemma_plain_sites_to(edges: Seq<ReverseModel>, file: Seq<char>, symbol: Seq<char>)
    requires
        plain_edges(edges),
    ensures
        plain_sites(sites_to(edges, file, symbol)),
    decreases edges.len(),
{
    if edges.len() > 0 {
        assert(plain_path(edges[edges.len() - 1].site.file));
        lemma_plain_sites_to(edges.drop_last(), file, symbol);
    }
}

proof fn lemma_plain_collected(
    d: Disk,
    edges: Seq<ReverseModel>,
    visited: Seq<(Seq<char>, Seq<char>)>,
    file: Seq<char>,
    symbol: Seq<char>,
    left: nat,
)
    requires
        plain_edges(edges),
    ensures
        plain_sites(collected(d, edges, visited, file, symbol, left).1),
    decreases left, 0nat,
{
    let c = d.canonical_or_self(file);
    if left > 0 && !visited.contains((c, symbol)) {
        let sites = sites_to(edges, c, symbol);
        let after = visited.push((c, symbol));
        lemma_plain_sites_to(edges, c, symbol);
        lemma_plain_collected_from(d, edges, after, sites, 0, (left - 1) as nat);
    }
}

proof fn lemma_plain_collected_from(
    d: Disk,
    edges: Seq<ReverseModel>,
    visited: Seq<(Seq<char>, Seq<char>)>,
    sites: Seq<CallerModel>,
    from: int,
    left: nat,
)
    requires
        plain_edges(edges),
        plain_sites(sites),
    ensures
        plain_sites(collected_from(d, edges, visited, sites, from, left).1),
    decreases left, (1 + sites.len() - from) as nat,
{
    if 0 <= from < sites.len() {
        let s = sites[from];
        let above = collected(d, edges, visited, s.file, s.symbol, left);
        let rest = collected_from(d, edges, above.0, sites, from + 1, left);
        lemma_plain_collected(d, edges, visited, s.file, s.symbol, left);
        lemma_plain_collected_from(d, edges, above.0, sites, from + 1, left);
        lemma_plain_sites_add(seq![s], above.1);
        lemma_plain_sites_add(seq![s] + above.1, rest.1);
    }
}

/// A graph whose paths are plain keeps them so: when it learns about files, lists them, looks at
/// the calls from what they call, or forgets what it concluded.
pub proof fn plain_graphs_stay_plain(d: Disk, g: Graph, data: Seq<(Seq<char>, FileModel)>)
    requires
        d.plain(),
        plain_graph(g),
    ensures
        plain_graph(Graph { data, ..g }),
        plain_graph(Graph { project_files: Some(files_known(d, g)), ..g }),
        plain_graph(indexed(d, g)),
        plain_graph(Graph { data, project_files: None, reverse: None, ..g }),
{
    if g.reverse is None {
        let files = files_known(d, g);
        lemma_plain_edges(d, built_all(d, g.root, g.data, files), files);
    }
}

/// The callers of a symbol are told in groups, none of them empty, that ascend strictly by file
/// wherever the project's paths tell the files of the callers apart. A depth of zero is that of
/// direct callers.
pub proof fn callers_are_grouped_by_file(
    d: Disk,
    g: Graph,
    c: Seq<char>,
    symbol: Seq<char>,
    depth: nat,
)
    ensures
        told_apart(caller_sites(d, g, c, symbol, depth), g.root) ==> ascending(
            callers_answer(d, g, c, symbol, depth).callers,
        ),
        forall|i: int|
            0 <= i < callers_answer(d, g, c, symbol, depth).callers.len() ==> (
            #[trigger] callers_answer(d, g, c, symbol, depth).callers[i]).1.len() > 0,
        callers_answer(d, g, c, symbol, 0) == callers_answer(d, g, c, symbol, 1),
{
    lemma_groups_hold_callers(d, g, c, symbol, depth);
    if told_apart(caller_sites(d, g, c, symbol, depth), g.root) {
        lemma_groups_ascend(d, g, c, symbol, depth);
    }
}

/// With plain paths the callers of a symbol are told in groups that ascend strictly by file,
/// whatever the project's root is.
pub proof fn callers_ascend_by_file(d: Disk, g: Graph, c: Seq<char>, symbol: Seq<char>, depth: nat)
    requires
        d.plain(),
        plain_graph(g),
    ensures
        ascending(callers_answer(d, indexed(d, g), c, symbol, depth).callers),
{
    let h = indexed(d, g);
    plain_graphs_stay_plain(d, g, g.data);
    lemma_plain_collected(d, h.reverse->0, Seq::empty(), c, symbol, at_least_one(depth));
    let sites = caller_sites(d, h, c, symbol, depth);
    assert forall|i: int, j: int|
        0 <= i < sites.len() && 0 <= j < sites.len() && path_relative(
            (#[trigger] sites[i]).file,
            h.root,
        ) == path_relative((#[trigger] sites[j]).file, h.root) implies sites[i].file
        == sites[j].file by {
        plain_paths_are_told_apart(sites[i].file, sites[j].file, h.root);
    }
    lemma_groups_ascend(d, h, c, symbol, depth);
}

} // verus!
