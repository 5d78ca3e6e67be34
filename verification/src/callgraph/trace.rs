//! The ways from entry points to a symbol.
use vstd::prelude::*;

use crate::callgraph::callers::{indexed, sites_are_those_of_the_symbol, sites_to};
use crate::callgraph::data::{get_symbol_meta, symbol_place};
use crate::callgraph::graph::{build_outcome, built, canon, entry_known, CallGraph, Graph};
use crate::callgraph::model::{
    copy_opt, CallerModel, CallerSite, FileModel, HopModel, ReverseModel, TraceHop, TraceModel,
    TracePath, TraceToResult,
};
use crate::callgraph::worktree::{Disk, Worktree};
use crate::counts::capped;
use crate::error::{outcome, AftError, Fault};
use crate::models::{group_models, models};
use crate::order::{
    add_distinct, distinct, lemma_sorted_permutes, sort_list, sorted, Ranked,
};
use crate::paths::path_relative;
use crate::text::{less, owned, same, text_lt};

verus! {

/// A step of a way that is being searched.
pub struct Step {
    pub file: String,
    pub symbol: String,
    pub line: u32,
    pub signature: Option<String>,
}

/// The model of a `Step`.
#[verifier::ext_equal]
pub ghost struct StepModel {
    pub file: Seq<char>,
    pub symbol: Seq<char>,
    pub line: int,
    pub signature: Option<Seq<char>>,
}

impl DeepView for Step {
    type V = StepModel;

    open spec fn deep_view(&self) -> StepModel {
        StepModel {
            file: self.file@,
            symbol: self.symbol@,
            line: self.line as int,
            signature: self.signature.deep_view(),
        }
    }
}

/// A way that is being searched, from the target up.
pub struct Way {
    pub steps: Vec<Step>,
}

impl DeepView for Way {
    type V = Seq<StepModel>;

    open spec fn deep_view(&self) -> Seq<StepModel> {
        models(self.steps@)
    }
}

/// The step to a symbol of a file.
pub open spec fn step_to(d: Disk, file: Seq<char>, symbol: Seq<char>) -> StepModel {
    let place = symbol_place(d.symbols(file), symbol, 0);
    StepModel { file, symbol, line: place.0, signature: place.1 }
}

/// Whether a way goes through a symbol of a file.
pub open spec fn passes(way: Seq<StepModel>, file: Seq<char>, symbol: Seq<char>) -> bool {
    exists|i: int| 0 <= i < way.len() && #[trigger] way[i].file == file && way[i].symbol == symbol
}

/// The callers that a way does not go through yet.
pub open spec fn fresh_callers(sites: Seq<CallerModel>, way: Seq<StepModel>) -> Seq<CallerModel>
    decreases sites.len(),
{
    if sites.len() == 0 {
        Seq::empty()
    } else {
        let rest = fresh_callers(sites.drop_last(), way);
        if passes(way, sites.last().file, sites.last().symbol) {
            rest
        } else {
            rest.push(sites.last())
        }
    }
}

/// What a search finds: the ways that lead to an entry point, whether it stopped
/// because of its depth, and the number of dead ends: ways that have no further caller and do
/// not end at an entry point.
#[verifier::ext_equal]
pub ghost struct Found {
    pub ways: Seq<Seq<StepModel>>,
    pub deep: bool,
    pub dead: nat,
}

/// The ways that a caller which is an entry point ends.
pub open spec fn entry_ways(
    d: Disk,
    data: Seq<(Seq<char>, FileModel)>,
    way: Seq<StepModel>,
    callers: Seq<CallerModel>,
) -> Seq<Seq<StepModel>>
    decreases callers.len(),
{
    if callers.len() == 0 {
        Seq::empty()
    } else {
        let rest = entry_ways(d, data, way, callers.drop_last());
        let s = callers.last();
        if entry_known(d, data, s.file, s.symbol) {
            rest.push(way.push(step_to(d, s.file, s.symbol)))
        } else {
            rest
        }
    }
}

/// The search from the upper end of a way, `left` calls up. A caller that the way goes
/// through already is passed over.
pub open spec fn search(
    d: Disk,
    data: Seq<(Seq<char>, FileModel)>,
    edges: Seq<ReverseModel>,
    way: Seq<StepModel>,
    left: nat,
) -> Found
    decreases left, 0nat,
{
    if left == 0 {
        Found { ways: Seq::empty(), deep: true, dead: 0 }
    } else {
        let sites = sites_to(edges, way.last().file, way.last().symbol);
        let fresh = fresh_callers(sites, way);
        let above = search_above(d, data, edges, way, fresh, fresh.len() as int, (left - 1) as nat);
        Found {
            ways: entry_ways(d, data, way, fresh) + above.ways,
            deep: above.deep,
            dead: if fresh.len() == 0 && way.len() > 1 && !entry_known(
                d,
                data,
                way.last().file,
                way.last().symbol,
            ) {
                1
            } else {
                above.dead
            },
        }
    }
}

/// The searches above the first `n` of the callers, the last of them first.
pub open spec fn search_above(
    d: Disk,
    data: Seq<(Seq<char>, FileModel)>,
    edges: Seq<ReverseModel>,
    way: Seq<StepModel>,
    callers: Seq<CallerModel>,
    n: int,
    left: nat,
) -> Found
    decreases left, (if n < 0 { 0 } else { n + 1 }) as nat,
{
    if n <= 0 || n > callers.len() {
        Found { ways: Seq::empty(), deep: false, dead: 0 }
    } else {
        let s = callers[n - 1];
        let first = search(d, data, edges, way.push(step_to(d, s.file, s.symbol)), left);
        let rest = search_above(d, data, edges, way, callers, n - 1, left);
        Found {
            ways: first.ways + rest.ways,
            deep: first.deep || rest.deep,
            dead: first.dead + rest.dead,
        }
    }
}

/// The step `i` of a way, which is given from its entry point down.
pub open spec fn hop_of(
    d: Disk,
    data: Seq<(Seq<char>, FileModel)>,
    root: Seq<char>,
    down: Seq<StepModel>,
    i: int,
) -> HopModel {
    let s = down[i];
    HopModel {
        symbol: s.symbol,
        file: path_relative(s.file, root),
        line: s.line,
        signature: s.signature,
        is_entry_point: i == 0 && entry_known(d, data, s.file, s.symbol),
    }
}

/// The steps of a way from its entry point down.
pub open spec fn hops_of(
    d: Disk,
    data: Seq<(Seq<char>, FileModel)>,
    root: Seq<char>,
    way: Seq<StepModel>,
) -> Seq<HopModel> {
    Seq::new(way.len(), |i: int| hop_of(d, data, root, way.reverse(), i))
}

/// The name that a way starts with.
pub open spec fn start_name(hops: Seq<HopModel>) -> Seq<char> {
    if hops.len() > 0 {
        hops[0].symbol
    } else {
        Seq::empty()
    }
}

impl Ranked for TracePath {
    open spec fn before(a: Seq<HopModel>, b: Seq<HopModel>) -> bool {
        text_lt(start_name(a), start_name(b)) || (start_name(a) == start_name(b) && a.len()
            < b.len())
    }

    fn precedes(&self, other: &TracePath) -> (r: bool) {
        let empty = String::new();
        let a = if self.hops.len() > 0 {
            self.hops[0].symbol.as_str()
        } else {
            empty.as_str()
        };
        let b = if other.hops.len() > 0 {
            other.hops[0].symbol.as_str()
        } else {
            empty.as_str()
        };
        assert(a@ =~= start_name(self.deep_view()));
        assert(b@ =~= start_name(other.deep_view()));
        less(a, b) || (same(a, b) && self.hops.len() < other.hops.len())
    }
}

/// The names of the entry points that the ways start from.
pub open spec fn entry_names(paths: Seq<Seq<HopModel>>) -> Seq<Seq<char>>
    decreases paths.len(),
{
    if paths.len() == 0 {
        Seq::empty()
    } else {
        let rest = entry_names(paths.drop_last());
        let p = paths.last();
        if p.len() > 0 && p[0].is_entry_point {
            rest.push(p[0].symbol)
        } else {
            rest
        }
    }
}

/// A depth of zero stands for ten.
pub open spec fn depth_or_ten(depth: nat) -> nat {
    if depth == 0 {
        10
    } else {
        depth
    }
}

/// All that the search for the ways to a symbol finds.
pub open spec fn ways_to(d: Disk, g: Graph, c: Seq<char>, symbol: Seq<char>, depth: nat) -> Found {
    let target = seq![step_to(d, c, symbol)];
    let found = search(d, g.data, g.reverse->0, target, depth_or_ten(depth));
    if entry_known(d, g.data, c, symbol) {
        Found { ways: seq![target] + found.ways, ..found }
    } else {
        found
    }
}

/// The answer to which ways lead from entry points to a symbol of the file at the
/// canonical path `c`, in a graph that looked at the calls from what they call.
pub open spec fn trace_answer(d: Disk, g: Graph, c: Seq<char>, symbol: Seq<char>, depth: nat) -> TraceModel {
    let found = ways_to(d, g, c, symbol, depth);
    let paths = sorted::<TracePath>(
        found.ways.map_values(|w: Seq<StepModel>| hops_of(d, g.data, g.root, w)),
    );
    TraceModel {
        target_symbol: symbol,
        target_file: path_relative(c, g.root),
        paths,
        total_paths: paths.len() as int,
        entry_points_found: distinct(entry_names(paths)).len() as int,
        max_depth_reached: found.deep,
        truncated_paths: capped(found.dead as int),
    }
}

fn way_passes(way: &Vec<Step>, file: &str, symbol: &str) -> (r: bool)
    ensures
        r == passes(models(way@), file@, symbol@),
{
    let ghost all = models(way@);
    let mut i: usize = 0;
    while i < way.len()
        invariant
            i <= way.len(),
            all == models(way@),
            forall|k: int|
                0 <= k < i ==> !(#[trigger] all[k].file == file@ && all[k].symbol == symbol@),
        decreases way.len() - i,
    {
        assert(all[i as int] == way@[i as int].deep_view());
        if same(way[i].file.as_str(), file) && same(way[i].symbol.as_str(), symbol) {
            assert(all[i as int].file == file@);
            return true;
        }
        i = i + 1;
    }
    false
}

fn make_step(w: &Worktree, file: &str, symbol: &str) -> (r: Step)
    ensures
        r.deep_view() == step_to(w@, file@, symbol@),
{
    let (line, signature) = get_symbol_meta(w, file, symbol);
    Step { file: owned(file), symbol: owned(symbol), line, signature }
}

fn extend_way(way: &Vec<Step>, step: Step) -> (r: Vec<Step>)
    ensures
        models(r@) == models(way@).push(step.deep_view()),
        r@.len() == way@.len() + 1,
{
    broadcast use group_models;

    let ghost all = models(way@);
    let mut out: Vec<Step> = Vec::new();
    let mut i: usize = 0;
    while i < way.len()
        invariant
            i <= way.len(),
            all == models(way@),
            models(out@) == all.take(i as int),
        decreases way.len() - i,
    {
        let s = &way[i];
        let ghost before = models(out@);
        let c = Step {
            file: s.file.clone(),
            symbol: s.symbol.clone(),
            line: s.line,
            signature: copy_opt(&s.signature),
        };
        let ghost m = c.deep_view();
        out.push(c);
        proof {
            assert(m =~= all[i as int]);
            assert(models(out@) == before.push(m));
            assert(models(out@) =~= all.take(i + 1));
        }
        i = i + 1;
    }
    assert(models(out@) =~= all);
    let ghost m = step.deep_view();
    out.push(step);
    assert(models(out@) == all.push(m));
    out
}

fn keep_fresh(sites: Vec<CallerSite>, way: &Vec<Step>) -> (r: Vec<CallerSite>)
    ensures
        models(r@) == fresh_callers(models(sites@), models(way@)),
{
    broadcast use group_models;

    let ghost all = models(sites@);
    let mut out: Vec<CallerSite> = Vec::new();
    let mut i: usize = 0;
    assert(all.take(0) =~= Seq::empty());
    while i < sites.len()
        invariant
            i <= sites.len(),
            all == models(sites@),
            models(out@) == fresh_callers(all.take(i as int), models(way@)),
        decreases sites.len() - i,
    {
        let s = &sites[i];
        proof {
            assert(all.take(i + 1).drop_last() =~= all.take(i as int));
            assert(all.take(i + 1).last() == s.deep_view());
        }
        if !way_passes(way, s.caller_file.as_str(), s.caller_symbol.as_str()) {
            let ghost before = models(out@);
            let c = s.copy();
            let ghost m = c.deep_view();
            out.push(c);
            assert(models(out@) == before.push(m));
        }
        i = i + 1;
    }
    assert(all.take(all.len() as int) =~= all);
    out
}

/// `n` more dead ends.
fn add_dead(total: usize, more: usize) -> (r: usize)
    ensures
        forall|a: nat, b: nat|
            #![trigger capped(a as int), capped(b as int)]
            capped(a as int) == total && capped(b as int) == more ==> r == capped((a + b) as int),
{
    if total <= usize::MAX - more {
        total + more
    } else {
        usize::MAX
    }
}

impl CallGraph {
    fn search_ways(
        &self,
        w: &Worktree,
        way: &Vec<Step>,
        left: usize,
        ways: &mut Vec<Way>,
    ) -> (r: (bool, usize))
        requires
            self@.reverse is Some,
            way@.len() > 0,
        ensures
            ({
                let found = search(
                    w@,
                    self@.data,
                    self@.reverse->0,
                    models(way@),
                    left as nat,
                );
                &&& models(final(ways)@) == models(old(ways)@) + found.ways
                &&& r.0 == found.deep
                &&& r.1 == capped(found.dead as int)
            }),
        decreases left,
    {
        broadcast use group_models;

        let ghost d = w@;
        let ghost data = self@.data;
        let ghost edges = self@.reverse->0;
        let ghost here = models(way@);
        let ghost start = models(ways@);
        if left == 0 {
            assert(start + Seq::<Seq<StepModel>>::empty() =~= start);
            return (true, 0);
        }
        let top = &way[way.len() - 1];
        assert(here.last() == top.deep_view());
        let sites = self.reverse_sites(top.file.as_str(), top.symbol.as_str());
        let fresh = keep_fresh(sites, way);
        let ghost all = models(fresh@);
        let mut i: usize = 0;
        assert(all.take(0) =~= Seq::empty());
        assert(start + entry_ways(d, data, here, all.take(0)) =~= start);
        while i < fresh.len()
            invariant
                i <= fresh.len(),
                d == w@,
                data == self@.data,
                here == models(way@),
                all == models(fresh@),
                models(ways@) == start + entry_ways(d, data, here, all.take(i as int)),
            decreases fresh.len() - i,
        {
            let s = &fresh[i];
            proof {
                assert(all.take(i + 1).drop_last() =~= all.take(i as int));
                assert(all.take(i + 1).last() == s.deep_view());
            }
            if self.entry_known(w, s.caller_file.as_str(), s.caller_symbol.as_str()) {
                let step = make_step(w, s.caller_file.as_str(), s.caller_symbol.as_str());
                let ghost before = models(ways@);
                let longer = Way { steps: extend_way(way, step) };
                let ghost m = longer.deep_view();
                ways.push(longer);
                proof {
                    assert(models(ways@) == before.push(m));
                    assert(models(ways@) =~= start + entry_ways(d, data, here, all.take(i + 1)));
                }
            }
            i = i + 1;
        }
        assert(all.take(all.len() as int) =~= all);
        let ghost direct = start + entry_ways(d, data, here, all);
        let ghost want = search_above(
            d,
            data,
            edges,
            here,
            all,
            all.len() as int,
            (left - 1) as nat,
        );
        let mut deep = false;
        let mut dead: usize = 0;
        let ghost mut counted: nat = 0;
        let mut n: usize = fresh.len();
        while n > 0
            invariant
                n <= fresh.len(),
                left > 0,
                d == w@,
                data == self@.data,
                self@.reverse is Some,
                edges == self@.reverse->0,
                here == models(way@),
                all == models(fresh@),
                dead == capped(counted as int),
                ({
                    let rest = search_above(
                        d,
                        data,
                        edges,
                        here,
                        all,
                        n as int,
                        (left - 1) as nat,
                    );
                    &&& direct + want.ways == models(ways@) + rest.ways
                    &&& want.deep == (deep || rest.deep)
                    &&& want.dead == counted + rest.dead
                }),
            decreases n,
        {
            let s = &fresh[n - 1];
            assert(all[n - 1] == s.deep_view());
            let step = make_step(w, s.caller_file.as_str(), s.caller_symbol.as_str());
            let longer = extend_way(way, step);
            let ghost before = models(ways@);
            let (d1, n1) = self.search_ways(w, &longer, left - 1, ways);
            proof {
                let first = search(d, data, edges, models(longer@), (left - 1) as nat);
                let rest = search_above(
                    d,
                    data,
                    edges,
                    here,
                    all,
                    n - 1,
                    (left - 1) as nat,
                );
                assert(before + (first.ways + rest.ways) =~= (before + first.ways) + rest.ways);
                assert(capped(first.dead as int) == n1);
                assert(capped(counted as int) == dead);
                counted = counted + first.dead;
            }
            deep = deep || d1;
            dead = add_dead(dead, n1);
            n = n - 1;
        }
        proof {
            assert(models(ways@) + Seq::<Seq<StepModel>>::empty() =~= models(ways@));
            assert(start + (entry_ways(d, data, here, all) + want.ways) =~= direct + want.ways);
        }
        if fresh.len() == 0 && way.len() > 1 && !self.entry_known(
            w,
            top.file.as_str(),
            top.symbol.as_str(),
        ) {
            (deep, 1)
        } else {
            (deep, dead)
        }
    }

    fn path_of(&self, w: &Worktree, way: &Way) -> (r: TracePath)
        ensures
            r.deep_view() == hops_of(w@, self@.data, self@.root, way.deep_view()),
    {
        broadcast use group_models;

        let ghost all = models(way.steps@);
        let ghost want = hops_of(w@, self@.data, self@.root, all);
        let mut hops: Vec<TraceHop> = Vec::new();
        let n: usize = way.steps.len();
        let mut i: usize = 0;
        while i < n
            invariant
                i <= n,
                n == way.steps.len(),
                all == models(way.steps@),
                want == hops_of(w@, self@.data, self@.root, all),
                models(hops@) == want.take(i as int),
            decreases n - i,
        {
            let s = &way.steps[n - 1 - i];
            assert(all.reverse()[i as int] == s.deep_view());
            let is_entry_point = i == 0 && self.entry_known(w, s.file.as_str(), s.symbol.as_str());
            let hop = TraceHop {
                symbol: s.symbol.clone(),
                file: self.relative_path(s.file.as_str()),
                line: s.line,
                signature: copy_opt(&s.signature),
                is_entry_point,
            };
            let ghost before = models(hops@);
            let ghost m = hop.deep_view();
            hops.push(hop);
            proof {
                assert(m =~= want[i as int]);
                assert(models(hops@) == before.push(m));
                assert(models(hops@) =~= want.take(i + 1));
            }
            i = i + 1;
        }
        assert(models(hops@) =~= want);
        TracePath { hops }
    }

    /// The ways from entry points to a symbol, up to a depth; a depth of zero stands
    /// for ten.
    pub fn trace_to(&mut self, w: &Worktree, file: &str, symbol: &str, max_depth: usize) -> (r:
        Result<TraceToResult, AftError>)
        ensures
            ({
                let g = old(self)@;
                let c = canon(w@, g.root, file@);
                let ready = Graph {
                    data: built(w@, g.data, canon(w@, g.root, c)),
                    ..g
                };
                match build_outcome(w@, g.data, canon(w@, g.root, c)) {
                    Err(e) => outcome(r) == Err::<TraceModel, Fault>(e) && final(self)@ == ready,
                    Ok(m) => {
                        &&& final(self)@ == indexed(w@, ready)
                        &&& outcome(r) == Ok::<TraceModel, Fault>(
                            trace_answer(w@, indexed(w@, ready), c, symbol@, max_depth as nat),
                        )
                    },
                }
            }),
    {
        broadcast use group_models;

        let c = self.canonicalize(w, file);
        let cc = self.canonicalize(w, c.as_str());
        match self.ensure_built(w, cc.as_str()) {
            Ok(_) => {},
            Err(e) => {
                return Err(e);
            },
        }
        self.ensure_index(w);
        let ghost d = w@;
        let ghost g = self@;
        let effective: usize = if max_depth == 0 {
            10
        } else {
            max_depth
        };
        let mut ways: Vec<Way> = Vec::new();
        let mut target: Vec<Step> = Vec::new();
        let step = make_step(w, c.as_str(), symbol);
        let ghost sm = step.deep_view();
        target.push(step);
        assert(models(target@) =~= seq![sm]);
        if self.entry_known(w, c.as_str(), symbol) {
            let mut only: Vec<Step> = Vec::new();
            only.push(make_step(w, c.as_str(), symbol));
            let way = Way { steps: only };
            assert(way.deep_view() =~= seq![sm]);
            let ghost m = way.deep_view();
            let ghost before = models(ways@);
            ways.push(way);
            assert(models(ways@) == before.push(m));
            assert(models(ways@) =~= seq![seq![sm]]);
        }
        let ghost first = models(ways@);
        let (max_depth_reached, truncated_paths) = self.search_ways(w, &target, effective, &mut ways);
        let ghost found = ways_to(d, g, c@, symbol@, max_depth as nat);
        assert(models(ways@) =~= found.ways);
        let ghost all = found.ways;
        let ghost raw = all.map_values(|w: Seq<StepModel>| hops_of(d, g.data, g.root, w));
        let mut paths: Vec<TracePath> = Vec::new();
        let mut i: usize = 0;
        while i < ways.len()
            invariant
                i <= ways.len(),
                d == w@,
                g == self@,
                all == models(ways@),
                raw == all.map_values(|w: Seq<StepModel>| hops_of(d, g.data, g.root, w)),
                models(paths@) == raw.take(i as int),
            decreases ways.len() - i,
        {
            assert(all[i as int] == ways@[i as int].deep_view());
            let p = self.path_of(w, &ways[i]);
            let ghost before = models(paths@);
            let ghost m = p.deep_view();
            paths.push(p);
            proof {
                assert(m == raw[i as int]);
                assert(models(paths@) == before.push(m));
                assert(models(paths@) =~= raw.take(i + 1));
            }
            i = i + 1;
        }
        assert(models(paths@) =~= raw);
        let paths = sort_list(paths);
        let ghost done = models(paths@);
        let mut names: Vec<String> = Vec::new();
        let mut k: usize = 0;
        assert(done.take(0) =~= Seq::empty());
        while k < paths.len()
            invariant
                k <= paths.len(),
                done == models(paths@),
                models(names@) == distinct(entry_names(done.take(k as int))),
            decreases paths.len() - k,
        {
            let p = &paths[k];
            proof {
                assert(done.take(k + 1).drop_last() =~= done.take(k as int));
                assert(done.take(k + 1).last() == p.deep_view());
                assert(p.hops@.len() > 0 ==> p.deep_view()[0] == p.hops@[0].deep_view());
                let before = entry_names(done.take(k as int));
                assert(before.push(p.deep_view()[0].symbol).drop_last() =~= before);
            }
            if p.hops.len() > 0 && p.hops[0].is_entry_point {
                let _ = add_distinct(&mut names, p.hops[0].symbol.clone());
            }
            k = k + 1;
        }
        assert(done.take(done.len() as int) =~= done);
        let total_paths: usize = paths.len();
        Ok(
            TraceToResult {
                target_symbol: owned(symbol),
                target_file: self.relative_path(c.as_str()),
                paths,
                total_paths,
                entry_points_found: names.len(),
                max_depth_reached,
                truncated_paths,
            },
        )
    }
}

/// A way is told from its entry point down to the symbol that was asked for, each step with its
/// symbol and its place; only its first step can be told as an entry point.
pub proof fn ways_are_told_from_their_start(
    d: Disk,
    data: Seq<(Seq<char>, FileModel)>,
    root: Seq<char>,
    way: Seq<StepModel>,
    i: int,
)
    requires
        0 <= i < way.len(),
    ensures
        ({
            let hops = hops_of(d, data, root, way);
            let s = way[way.len() - 1 - i];
            &&& hops.len() == way.len()
            &&& hops[i].symbol == s.symbol
            &&& hops[i].file == path_relative(s.file, root)
            &&& hops[i].line == s.line
            &&& hops[i].signature == s.signature
            &&& i > 0 ==> !hops[i].is_entry_point
            &&& i == 0 ==> (hops[i].is_entry_point <==> entry_known(d, data, s.file, s.symbol))
        }),
{
}

/// A search without a depth goes ten calls up.
pub proof fn searches_go_ten_calls_up(d: Disk, g: Graph, c: Seq<char>, symbol: Seq<char>)
    ensures
        trace_answer(d, g, c, symbol, 0) == trace_answer(d, g, c, symbol, 10),
{
}

/// A search that may go no higher finds no way and says so. One that may finds each way that ends
/// with a caller which is an entry point and which the way does not go through yet.
pub proof fn searches_end_at_entry_points(
    d: Disk,
    data: Seq<(Seq<char>, FileModel)>,
    edges: Seq<ReverseModel>,
    way: Seq<StepModel>,
    left: nat,
    e: ReverseModel,
)
    requires
        way.len() > 0,
        edges.contains(e),
        e.target_file == way.last().file,
        e.target_symbol == way.last().symbol,
        !passes(way, e.site.file, e.site.symbol),
        entry_known(d, data, e.site.file, e.site.symbol),
    ensures
        left == 0 ==> search(d, data, edges, way, left).deep && search(
            d,
            data,
            edges,
            way,
            left,
        ).ways.len() == 0,
        left > 0 ==> search(d, data, edges, way, left).ways.contains(
            way.push(step_to(d, e.site.file, e.site.symbol)),
        ),
{
    if left > 0 {
        let sites = sites_to(edges, way.last().file, way.last().symbol);
        let fresh = fresh_callers(sites, way);
        sites_are_those_of_the_symbol(edges, way.last().file, way.last().symbol, e.site);
        lemma_fresh(sites, way, e.site);
        lemma_entry_way(d, data, way, fresh, e.site);
        let found = entry_ways(d, data, way, fresh);
        let above = search_above(d, data, edges, way, fresh, fresh.len() as int, (left - 1) as nat);
        let x = way.push(step_to(d, e.site.file, e.site.symbol));
        let i = choose|i: int| 0 <= i < found.len() && found[i] == x;
        assert((found + above.ways)[i] == x);
    }
}

proof fn lemma_fresh(sites: Seq<CallerModel>, way: Seq<StepModel>, s: CallerModel)
    requires
        sites.contains(s),
        !passes(way, s.file, s.symbol),
    ensures
        fresh_callers(sites, way).contains(s),
    decreases sites.len(),
{
    let less = sites.drop_last();
    let rest = fresh_callers(less, way);
    let i = choose|i: int| 0 <= i < sites.len() && sites[i] == s;
    if i < less.len() {
        assert(less[i] == s);
        lemma_fresh(less, way, s);
        let k = choose|k: int| 0 <= k < rest.len() && rest[k] == s;
        assert(rest.push(sites.last())[k] == s);
    } else {
        assert(rest.push(s)[rest.len() as int] == s);
    }
}

proof fn lemma_entry_way(
    d: Disk,
    data: Seq<(Seq<char>, FileModel)>,
    way: Seq<StepModel>,
    callers: Seq<CallerModel>,
    s: CallerModel,
)
    requires
        callers.contains(s),
        entry_known(d, data, s.file, s.symbol),
    ensures
        entry_ways(d, data, way, callers).contains(way.push(step_to(d, s.file, s.symbol))),
    decreases callers.len(),
{
    let less = callers.drop_last();
    let rest = entry_ways(d, data, way, less);
    let x = way.push(step_to(d, s.file, s.symbol));
    let i = choose|i: int| 0 <= i < callers.len() && callers[i] == s;
    if i < less.len() {
        assert(less[i] == s);
        lemma_entry_way(d, data, way, less, s);
        let k = choose|k: int| 0 <= k < rest.len() && rest[k] == x;
        let t = callers.last();
        assert(rest.push(way.push(step_to(d, t.file, t.symbol)))[k] == x);
    } else {
        assert(rest.push(x)[rest.len() as int] == x);
    }
}

/// A symbol that is an entry point itself has the way of that one step, before all others.
pub proof fn entry_points_reach_themselves(
    d: Disk,
    g: Graph,
    c: Seq<char>,
    symbol: Seq<char>,
    depth: nat,
)
    requires
        entry_known(d, g.data, c, symbol),
    ensures
        ways_to(d, g, c, symbol, depth).ways.len() > 0,
        ways_to(d, g, c, symbol, depth).ways[0].len() == 1,
        ways_to(d, g, c, symbol, depth).ways[0][0].file == c,
        ways_to(d, g, c, symbol, depth).ways[0][0].symbol == symbol,
{
}

/// What a trace is told: the symbol and its file, as many ways as are listed, and whether the
/// search stopped for its depth.
pub proof fn traces_are_counted(d: Disk, g: Graph, c: Seq<char>, symbol: Seq<char>, depth: nat)
    ensures
        ({
            let r = trace_answer(d, g, c, symbol, depth);
            let found = ways_to(d, g, c, symbol, depth);
            &&& r.target_symbol == symbol
            &&& r.target_file == path_relative(c, g.root)
            &&& r.total_paths == r.paths.len()
            &&& r.paths.len() == found.ways.len()
            &&& r.max_depth_reached == found.deep
        }),
{
    let found = ways_to(d, g, c, symbol, depth);
    let told = found.ways.map_values(|w: Seq<StepModel>| hops_of(d, g.data, g.root, w));
    lemma_sorted_permutes::<TracePath>(told);
    told.to_multiset_ensures();
    sorted::<TracePath>(told).to_multiset_ensures();
}

} // verus!
