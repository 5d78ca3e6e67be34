//! What a change to a symbol affects.
use vstd::prelude::*;

use crate::callgraph::callers::{at_least_one, collected, indexed};
use crate::callgraph::entry::{entry_point, is_entry_point};
use crate::callgraph::forward::Visit;
use crate::callgraph::graph::{build_outcome, built, canon, lookup, CallGraph, Graph};
use crate::callgraph::model::{
    copy_opt, AffectedModel, CallerModel, CallerSite, FileModel, ImpactCaller, ImpactModel,
    ImpactResult,
};
use crate::callgraph::params::{extract_parameters, parameters};
use crate::callgraph::worktree::{Disk, Worktree};
use crate::error::{outcome, AftError, Fault};
use crate::lang::{lowercase, LangId};
use crate::models::{get_entry, group_models, models, table_get};
use crate::order::{add_distinct, distinct, sort_list, sorted, Ranked};
use crate::paths::path_relative;
use crate::symbols::SymbolKind;
use crate::text::{less, lines, lines_of, owned, same, text_lt, texts, trim, trimmed};

verus! {

/// Whether two sites are the same line of the same symbol.
pub open spec fn same_place(a: CallerModel, b: CallerModel) -> bool {
    a.file == b.file && a.symbol == b.symbol && a.line == b.line
}

/// Whether one of the sites is the same line of the same symbol as `s`.
pub open spec fn has_place(sites: Seq<CallerModel>, s: CallerModel) -> bool {
    exists|i: int| 0 <= i < sites.len() && same_place(#[trigger] sites[i], s)
}

/// The sites without those that repeat the place of an earlier one.
pub open spec fn distinct_places(sites: Seq<CallerModel>) -> Seq<CallerModel>
    decreases sites.len(),
{
    if sites.len() == 0 {
        Seq::empty()
    } else {
        let rest = distinct_places(sites.drop_last());
        if has_place(rest, sites.last()) {
            rest
        } else {
            rest.push(sites.last())
        }
    }
}

fn place_known(sites: &Vec<CallerSite>, s: &CallerSite) -> (r: bool)
    ensures
        r == has_place(models(sites@), s.deep_view()),
{
    let ghost all = models(sites@);
    let mut i: usize = 0;
    while i < sites.len()
        invariant
            i <= sites.len(),
            all == models(sites@),
            forall|k: int| 0 <= k < i ==> !same_place(#[trigger] all[k], s.deep_view()),
        decreases sites.len() - i,
    {
        let t = &sites[i];
        assert(all[i as int] == t.deep_view());
        if t.line == s.line && same(t.caller_file.as_str(), s.caller_file.as_str()) && same(
            t.caller_symbol.as_str(),
            s.caller_symbol.as_str(),
        ) {
            assert(same_place(all[i as int], s.deep_view()));
            return true;
        }
        i = i + 1;
    }
    false
}

fn keep_distinct(sites: &Vec<CallerSite>) -> (r: Vec<CallerSite>)
    ensures
        models(r@) == distinct_places(models(sites@)),
{
    broadcast use group_models;

    let ghost all = models(sites@);
    let mut out: Vec<CallerSite> = Vec::new();
    let mut i: usize = 0;
    assert(all.take(0) =~= Seq::empty());
    while i < sites.len()
        invariant
            i <= sites.len(),
            all == models(sites@),
            models(out@) == distinct_places(all.take(i as int)),
        decreases sites.len() - i,
    {
        let s = &sites[i];
        proof {
            assert(all.take(i + 1).drop_last() =~= all.take(i as int));
            assert(all.take(i + 1).last() == s.deep_view());
        }
        if !place_known(&out, s) {
            let ghost before = models(out@);
            let c = s.copy();
            let ghost m = c.deep_view();
            out.push(c);
            assert(models(out@) == before.push(m));
        }
        i = i + 1;
    }
    assert(all.take(all.len() as int) =~= all);
    out
}

/// A line of a file, counted from one, without white space around it.
pub open spec fn source_line(d: Disk, path: Seq<char>, line: int) -> Option<Seq<char>> {
    match d.content(path) {
        Ok(s) => {
            let all = lines_of(s);
            let i = if line > 0 {
                line - 1
            } else {
                0
            };
            if i < all.len() {
                Some(trimmed(all[i]))
            } else {
                None
            }
        },
        Err(e) => None,
    }
}

fn read_source_line(w: &Worktree, path: &str, line: u32) -> (r: Option<String>)
    ensures
        r.deep_view() == source_line(w@, path@, line as int),
{
    let f = match w.file(path) {
        Some(f) => f,
        None => {
            return None;
        },
    };
    match &f.content {
        Ok(s) => {
            let all = lines(s.as_str());
            let i: usize = if line > 0 {
                (line - 1) as usize
            } else {
                0
            };
            assert(texts(all@).len() == all@.len());
            if i < all.len() {
                assert(texts(all@)[i as int] == all@[i as int]@);
                Some(trim(all[i].as_str()))
            } else {
                None
            }
        },
        Err(_) => None,
    }
}

/// The parameters of a signature, where there is one.
pub open spec fn signature_parameters(sig: Option<Seq<char>>, lang: LangId) -> Seq<Seq<char>> {
    match sig {
        Some(s) => parameters(s, lang),
        None => Seq::empty(),
    }
}

/// The parameters of a signature, where there is one.
pub fn parameters_of(sig: &Option<String>, lang: LangId) -> (r: Vec<String>)
    ensures
        models(r@) == signature_parameters(sig.deep_view(), lang),
{
    broadcast use group_models;

    match sig {
        Some(s) => {
            let r = extract_parameters(s.as_str(), lang);
            assert(models(r@) =~= texts(r@));
            r
        },
        None => Vec::new(),
    }
}

/// What is told of a site that calls what changes.
pub open spec fn affected(
    d: Disk,
    root: Seq<char>,
    data: Seq<(Seq<char>, FileModel)>,
    s: CallerModel,
) -> AffectedModel {
    let plain = AffectedModel {
        caller_symbol: s.symbol,
        caller_file: path_relative(s.file, root),
        line: s.line,
        signature: None,
        is_entry_point: false,
        call_expression: source_line(d, s.file, s.line),
        parameters: Seq::empty(),
    };
    match lookup(d, data, s.file) {
        None => plain,
        Some(m) => match table_get(m.metadata, s.symbol) {
            None => AffectedModel {
                is_entry_point: entry_point(
                    s.symbol,
                    lowercase(s.symbol),
                    SymbolKind::Function,
                    false,
                    m.lang,
                ),
                ..plain
            },
            Some(meta) => AffectedModel {
                signature: meta.signature,
                is_entry_point: entry_point(
                    s.symbol,
                    lowercase(s.symbol),
                    meta.kind,
                    meta.exported,
                    m.lang,
                ),
                parameters: signature_parameters(meta.signature, m.lang),
                ..plain
            },
        },
    }
}

/// What is known of files, and what is told of the sites, once those of `sites` were
/// looked at one after the other.
pub open spec fn all_affected(
    d: Disk,
    root: Seq<char>,
    data: Seq<(Seq<char>, FileModel)>,
    sites: Seq<CallerModel>,
) -> (Seq<(Seq<char>, FileModel)>, Seq<AffectedModel>)
    decreases sites.len(),
{
    if sites.len() == 0 {
        (data, Seq::empty())
    } else {
        let rest = all_affected(d, root, data, sites.drop_last());
        let s = sites.last();
        let now = built(d, rest.0, canon(d, root, s.file));
        (now, rest.1.push(affected(d, root, now, s)))
    }
}

/// The files that the callers stand in.
pub open spec fn affected_files(callers: Seq<AffectedModel>) -> Seq<Seq<char>> {
    callers.map_values(|a: AffectedModel| a.caller_file)
}

impl Ranked for ImpactCaller {
    open spec fn before(a: AffectedModel, b: AffectedModel) -> bool {
        text_lt(a.caller_file, b.caller_file) || (a.caller_file == b.caller_file && a.line
            < b.line)
    }

    fn precedes(&self, other: &ImpactCaller) -> (r: bool) {
        less(self.caller_file.as_str(), other.caller_file.as_str()) || (same(
            self.caller_file.as_str(),
            other.caller_file.as_str(),
        ) && self.line < other.line)
    }
}

/// What is known of files, and the answer to what a change to a symbol of the file at
/// the canonical path `c` affects, in a graph that looked at the calls from what they
/// call and knows the file.
pub open spec fn impact_answer(
    d: Disk,
    g: Graph,
    m: FileModel,
    c: Seq<char>,
    symbol: Seq<char>,
    depth: nat,
) -> (Seq<(Seq<char>, FileModel)>, ImpactModel) {
    let sites = distinct_places(
        collected(d, g.reverse->0, Seq::empty(), c, symbol, at_least_one(depth)).1,
    );
    let told = all_affected(d, g.root, g.data, sites);
    let sig = match table_get(m.metadata, symbol) {
        Some(meta) => meta.signature,
        None => None,
    };
    (
        told.0,
        ImpactModel {
            symbol,
            file: path_relative(c, g.root),
            signature: sig,
            parameters: signature_parameters(sig, m.lang),
            total_affected: told.1.len() as int,
            affected_files: distinct(affected_files(told.1)).len() as int,
            callers: sorted::<ImpactCaller>(told.1),
        },
    )
}

/// What a graph becomes, and what it answers, when it is asked what a change to a symbol
/// affects.
pub open spec fn impact_call(
    d: Disk,
    g: Graph,
    file: Seq<char>,
    symbol: Seq<char>,
    depth: nat,
) -> (Graph, Result<ImpactModel, Fault>) {
    let c = canon(d, g.root, file);
    let cc = canon(d, g.root, c);
    let ready = Graph { data: built(d, g.data, cc), ..g };
    let seen = indexed(d, ready);
    match build_outcome(d, g.data, cc) {
        Err(e) => (ready, Err(e)),
        Ok(_) => match table_get(seen.data, c) {
            None => (
                seen,
                Err(Fault::InvalidRequest { message: "file data missing after build"@ }),
            ),
            Some(m) => {
                let answer = impact_answer(d, seen, m, c, symbol, depth);
                (Graph { data: answer.0, ..seen }, Ok(answer.1))
            },
        },
    }
}

impl CallGraph {
    fn describe(&self, w: &Worktree, s: &CallerSite) -> (r: ImpactCaller)
        ensures
            r.deep_view() == affected(w@, self@.root, self@.data, s.deep_view()),
    {
        broadcast use group_models;

        let mut signature: Option<String> = None;
        let mut entry = false;
        let mut params: Vec<String> = Vec::new();
        match self.lookup_file_data(w, s.caller_file.as_str()) {
            Some(f) => match get_entry(&f.symbol_metadata, s.caller_symbol.as_str()) {
                Some(meta) => {
                    signature = copy_opt(&meta.signature);
                    entry = is_entry_point(
                        s.caller_symbol.as_str(),
                        &meta.kind,
                        meta.exported,
                        f.lang,
                    );
                    params = parameters_of(&signature, f.lang);
                },
                None => {
                    entry = is_entry_point(
                        s.caller_symbol.as_str(),
                        &SymbolKind::Function,
                        false,
                        f.lang,
                    );
                },
            },
            None => {},
        }
        ImpactCaller {
            caller_symbol: s.caller_symbol.clone(),
            caller_file: self.relative_path(s.caller_file.as_str()),
            line: s.line,
            signature,
            is_entry_point: entry,
            call_expression: read_source_line(w, s.caller_file.as_str(), s.line),
            parameters: params,
        }
    }

    /// The calls that a change to a symbol affects, `depth` calls deep; a depth of zero
    /// stands for one.
    pub fn impact(&mut self, w: &Worktree, file: &str, symbol: &str, depth: usize) -> (r: Result<
        ImpactResult,
        AftError,
    >)
        ensures
            (final(self)@, outcome(r)) == impact_call(
                w@,
                old(self)@,
                file@,
                symbol@,
                depth as nat,
            ),
    {
        broadcast use group_models;

        let c = self.canonicalize(w, file);
        let cc = self.canonicalize(w, c.as_str());
        match self.ensure_built(w, cc.as_str()) {
            Ok(_) => {},
            Err(e) => {
                return Err(e);
            },
        }
        self.ensure_index(w);
        let ghost d = w@;
        let ghost seen = self@;
        let effective: usize = if depth == 0 {
            1
        } else {
            depth
        };
        let mut signature: Option<String> = None;
        let mut params: Vec<String> = Vec::new();
        match self.known(c.as_str()) {
            Some(f) => {
                match get_entry(&f.symbol_metadata, symbol) {
                    Some(meta) => {
                        signature = copy_opt(&meta.signature);
                    },
                    None => {},
                }
                params = parameters_of(&signature, f.lang);
            },
            None => {
                return Err(
                    AftError::InvalidRequest {
                        message: "file data missing after build".to_owned(),
                    },
                );
            },
        }
        let mut visited: Vec<Visit> = Vec::new();
        let mut found: Vec<CallerSite> = Vec::new();
        self.collect_callers(w, c.as_str(), symbol, effective, &mut visited, &mut found);
        assert(models(found@) =~= collected(
            d,
            seen.reverse->0,
            Seq::empty(),
            c@,
            symbol@,
            effective as nat,
        ).1);
        let sites = keep_distinct(&found);
        let ghost all = models(sites@);
        let mut callers: Vec<ImpactCaller> = Vec::new();
        let mut files: Vec<String> = Vec::new();
        let mut i: usize = 0;
        assert(all.take(0) =~= Seq::empty());
        assert(affected_files(Seq::empty()) =~= Seq::<Seq<char>>::empty());
        while i < sites.len()
            invariant
                i <= sites.len(),
                d == w@,
                all == models(sites@),
                self@ == (Graph { data: self@.data, ..seen }),
                self@.data == all_affected(d, seen.root, seen.data, all.take(i as int)).0,
                models(callers@) == all_affected(d, seen.root, seen.data, all.take(i as int)).1,
                models(files@) == distinct(affected_files(models(callers@))),
            decreases sites.len() - i,
        {
            let s = &sites[i];
            proof {
                assert(all.take(i + 1).drop_last() =~= all.take(i as int));
                assert(all.take(i + 1).last() == s.deep_view());
            }
            let sc = self.canonicalize(w, s.caller_file.as_str());
            let _ = self.ensure_built(w, sc.as_str());
            let told = self.describe(w, s);
            let ghost before = models(callers@);
            let ghost m = told.deep_view();
            let _ = add_distinct(&mut files, told.caller_file.clone());
            callers.push(told);
            proof {
                assert(models(callers@) == before.push(m));
                assert(affected_files(before.push(m)).drop_last() =~= affected_files(before));
                assert(affected_files(before.push(m)).last() == m.caller_file);
            }
            i = i + 1;
        }
        assert(all.take(all.len() as int) =~= all);
        let total_affected: usize = callers.len();
        Ok(
            ImpactResult {
                symbol: owned(symbol),
                file: self.relative_path(c.as_str()),
                signature,
                parameters: params,
                total_affected,
                affected_files: files.len(),
                callers: sort_list(callers),
            },
        )
    }
}

/// A caller is told by its symbol, its file as it is seen from the root and its line, with the text
/// of that line, the lines counted from one, without white space around it.
pub proof fn affected_callers_are_told_where_they_stand(
    d: Disk,
    root: Seq<char>,
    data: Seq<(Seq<char>, FileModel)>,
    s: CallerModel,
    source: Seq<char>,
)
    requires
        d.content(s.file) == Ok::<Seq<char>, Seq<char>>(source),
        s.line >= 1,
    ensures
        ({
            let a = affected(d, root, data, s);
            &&& a.caller_symbol == s.symbol
            &&& a.caller_file == path_relative(s.file, root)
            &&& a.line == s.line
            &&& s.line <= lines_of(source).len() ==> a.call_expression == Some(
                trimmed(lines_of(source)[s.line - 1]),
            )
            &&& s.line > lines_of(source).len() ==> a.call_expression is None
        }),
{
}

/// What is known of a caller's symbol is told of it: its signature with its parameters, and whether
/// it is an entry point.
pub proof fn affected_callers_are_told_what_is_known(
    d: Disk,
    root: Seq<char>,
    data: Seq<(Seq<char>, FileModel)>,
    s: CallerModel,
    m: FileModel,
)
    requires
        lookup(d, data, s.file) == Some(m),
    ensures
        match table_get(m.metadata, s.symbol) {
            Some(meta) => {
                let a = affected(d, root, data, s);
                &&& a.signature == meta.signature
                &&& meta.signature is None ==> a.parameters.len() == 0
                &&& meta.signature is Some ==> a.parameters == parameters(meta.signature->0, m.lang)
                &&& a.is_entry_point <==> entry_point(
                    s.symbol,
                    lowercase(s.symbol),
                    meta.kind,
                    meta.exported,
                    m.lang,
                )
            },
            None => affected(d, root, data, s).signature is None && affected(
                d,
                root,
                data,
                s,
            ).parameters.len() == 0,
        },
{
}

/// What changes with a symbol is told of the symbol in its file with its signature and the
/// parameters in it, one call deep where nothing else is asked for.
pub proof fn impacts_are_told_of_their_symbol(
    d: Disk,
    g: Graph,
    m: FileModel,
    c: Seq<char>,
    symbol: Seq<char>,
    depth: nat,
)
    ensures
        ({
            let r = impact_answer(d, g, m, c, symbol, depth).1;
            &&& r.symbol == symbol
            &&& r.file == path_relative(c, g.root)
            &&& match table_get(m.metadata, symbol) {
                Some(meta) => r.signature == meta.signature && (meta.signature is Some
                    ==> r.parameters == parameters(meta.signature->0, m.lang)),
                None => r.signature is None && r.parameters.len() == 0,
            }
        }),
        impact_answer(d, g, m, c, symbol, 0) == impact_answer(d, g, m, c, symbol, 1),
{
}

/// What is asked of a symbol of a file is answered of that symbol in that file as it is seen from the
/// root, once the file could be read.
pub proof fn impacts_are_answered_of_what_was_asked(
    d: Disk,
    g: Graph,
    file: Seq<char>,
    symbol: Seq<char>,
    depth: nat,
)
    ensures
        ({
            let c = canon(d, g.root, file);
            let r = impact_call(d, g, file, symbol, depth).1;
            &&& build_outcome(d, g.data, canon(d, g.root, c)) is Err ==> r is Err
            &&& r is Ok ==> r->Ok_0.symbol == symbol && r->Ok_0.file == path_relative(c, g.root)
        }),
{
}

} // verus!
