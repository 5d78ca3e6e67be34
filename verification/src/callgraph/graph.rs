//! The call graph and its edges.
use vstd::prelude::*;

use crate::callgraph::data::{build_file_data, file_data};
use crate::callgraph::entry::{entry_point, is_entry_point};
use crate::callgraph::model::{
    EdgeModel, EdgeResolution, FileCallData, FileModel, ImportBlock, ImportModel, ImportStatement,
    ReverseEdge, ReverseModel,
};
use crate::callgraph::resolve::{
    direct_edge, edge_model, exported_edge, import_dir, imported_files, list_imported_files,
    resolve_direct,
};
use crate::callgraph::worktree::{Disk, Worktree};
use crate::error::{AftError, Fault};
use crate::lang::lowercase;
use crate::models::{
    copy_strings, find_key, get_entry, group_models, lemma_table_get_set, models, remove_entry,
    set_entry, table_get, table_remove, table_set, Entry,
};
use crate::paths::{join_path, path_join, path_relative, plain_path, relative_to};
use crate::text::{contains_text, owned, same};

verus! {

/// The call graph of a project. What it learns from a file it keeps until the file is
/// invalidated.
pub struct CallGraph {
    /// What is known of files, by canonical path.
    pub data: Vec<Entry<FileCallData>>,
    pub project_root: String,
    /// The project's source files, once they were asked for.
    pub project_files: Option<Vec<String>>,
    /// The calls as seen from what they call, once they were asked for.
    pub reverse_index: Option<Vec<ReverseEdge>>,
}

/// The model of a `CallGraph`.
#[verifier::ext_equal]
pub ghost struct Graph {
    pub data: Seq<(Seq<char>, FileModel)>,
    pub root: Seq<char>,
    pub project_files: Option<Seq<Seq<char>>>,
    pub reverse: Option<Seq<ReverseModel>>,
}

impl View for CallGraph {
    type V = Graph;

    open spec fn view(&self) -> Graph {
        Graph {
            data: models(self.data@),
            root: self.project_root@,
            project_files: match self.project_files {
                Some(v) => Some(models(v@)),
                None => None,
            },
            reverse: match self.reverse_index {
                Some(v) => Some(models(v@)),
                None => None,
            },
        }
    }
}

/// Whether the paths of the project's files and of the callers, as far as they were asked for,
/// are plain.
pub open spec fn plain_graph(g: Graph) -> bool {
    &&& match g.project_files {
        Some(v) => forall|i: int| 0 <= i < v.len() ==> plain_path(#[trigger] v[i]),
        None => true,
    }
    &&& match g.reverse {
        Some(v) => forall|i: int| 0 <= i < v.len() ==> plain_path((#[trigger] v[i]).site.file),
        None => true,
    }
}

/// The canonical path behind a path seen from the project root.
pub open spec fn canon(d: Disk, root: Seq<char>, p: Seq<char>) -> Seq<char> {
    d.canonical_or_self(path_join(root, p))
}

/// What is known of the file at a canonical path once it was asked for, or why nothing
/// can be known.
pub open spec fn build_outcome(d: Disk, data: Seq<(Seq<char>, FileModel)>, c: Seq<char>) -> Result<
    FileModel,
    Fault,
> {
    match table_get(data, c) {
        Some(m) => Ok(m),
        None => file_data(d, c),
    }
}

/// What is known of files once the file at a canonical path was asked for.
pub open spec fn built(d: Disk, data: Seq<(Seq<char>, FileModel)>, c: Seq<char>) -> Seq<
    (Seq<char>, FileModel),
> {
    match table_get(data, c) {
        Some(m) => data,
        None => match file_data(d, c) {
            Ok(m) => table_set(data, c, m),
            Err(e) => data,
        },
    }
}

/// The first of the known files from `from` on whose canonical path is `c`.
pub open spec fn known_as(
    d: Disk,
    data: Seq<(Seq<char>, FileModel)>,
    c: Seq<char>,
    from: int,
) -> Option<FileModel>
    decreases data.len() - from,
{
    if from < 0 || from >= data.len() {
        None
    } else if d.canonical(data[from].0) == Some(c) {
        Some(data[from].1)
    } else {
        known_as(d, data, c, from + 1)
    }
}

/// What is known of the file at a path, under this path or any other that leads to the
/// same file.
pub open spec fn lookup(d: Disk, data: Seq<(Seq<char>, FileModel)>, p: Seq<char>) -> Option<
    FileModel,
> {
    match table_get(data, p) {
        Some(m) => Some(m),
        None => match d.canonical(p) {
            None => None,
            Some(c) => match table_get(data, c) {
                Some(m) => Some(m),
                None => known_as(d, data, c, 0),
            },
        },
    }
}

/// Whether a file, as far as it is known, exports a name.
pub open spec fn exports_known(
    d: Disk,
    data: Seq<(Seq<char>, FileModel)>,
    p: Seq<char>,
    name: Seq<char>,
) -> bool {
    match lookup(d, data, p) {
        Some(m) => m.exported.contains(name),
        None => false,
    }
}

/// Whether a symbol of a file, as far as it is known, is an entry point.
pub open spec fn entry_known(
    d: Disk,
    data: Seq<(Seq<char>, FileModel)>,
    p: Seq<char>,
    name: Seq<char>,
) -> bool {
    match lookup(d, data, p) {
        Some(m) => match table_get(m.metadata, name) {
            Some(meta) => entry_point(name, lowercase(name), meta.kind, meta.exported, m.lang),
            None => false,
        },
        None => false,
    }
}

/// What is known of files, and where a call leads, once the files from `from` on were
/// asked, one after the other up to the first that does, whether they export the name.
pub open spec fn exported_search(
    d: Disk,
    root: Seq<char>,
    data: Seq<(Seq<char>, FileModel)>,
    files: Seq<Seq<char>>,
    name: Seq<char>,
    from: int,
) -> (Seq<(Seq<char>, FileModel)>, EdgeModel)
    decreases files.len() - from,
{
    if from < 0 || from >= files.len() {
        (data, EdgeModel::Unresolved { callee_name: name })
    } else {
        let c = canon(d, root, files[from]);
        let now = built(d, data, c);
        let exports = match build_outcome(d, data, c) {
            Ok(m) => m.exported.contains(name),
            Err(e) => false,
        };
        if exports {
            (now, EdgeModel::Resolved { file: files[from], symbol: name })
        } else {
            exported_search(d, root, now, files, name, from + 1)
        }
    }
}

/// What is known of files, and where a call leads, once it was followed.
pub open spec fn followed(
    d: Disk,
    root: Seq<char>,
    data: Seq<(Seq<char>, FileModel)>,
    full: Seq<char>,
    name: Seq<char>,
    caller_file: Seq<char>,
    imports: Seq<ImportModel>,
) -> (Seq<(Seq<char>, FileModel)>, EdgeModel) {
    match direct_edge(d, full, name, caller_file, imports) {
        Some(p) => (data, EdgeModel::Resolved { file: p.0, symbol: p.1 }),
        None => exported_search(
            d,
            root,
            data,
            imported_files(d, import_dir(caller_file), imports, 0),
            name,
            0,
        ),
    }
}

/// Where a call leads by what is known of files.
pub open spec fn edge_known(
    d: Disk,
    data: Seq<(Seq<char>, FileModel)>,
    full: Seq<char>,
    name: Seq<char>,
    caller_file: Seq<char>,
    imports: Seq<ImportModel>,
) -> EdgeModel {
    edge_model(
        direct_edge(d, full, name, caller_file, imports),
        exported_edge(
            imported_files(d, import_dir(caller_file), imports, 0),
            |p: Seq<char>| exports_known(d, data, p, name),
            name,
            0,
        ),
    )
}

impl CallGraph {
    /// The graph of a project of which nothing is known yet.
    pub fn new(project_root: String) -> (r: CallGraph)
        ensures
            r@ == (Graph {
                data: Seq::empty(),
                root: project_root@,
                project_files: None,
                reverse: None,
            }),
    {
        broadcast use group_models;

        CallGraph { data: Vec::new(), project_root, project_files: None, reverse_index: None }
    }

    /// The root directory of the project.
    pub fn project_root(&self) -> (r: &str)
        ensures
            r@ == self@.root,
    {
        self.project_root.as_str()
    }

    pub(crate) fn canonicalize(&self, w: &Worktree, p: &str) -> (r: String)
        ensures
            r@ == canon(w@, self@.root, p@),
    {
        let full = join_path(self.project_root.as_str(), p);
        w.canonicalize_or(full.as_str())
    }

    pub(crate) fn relative_path(&self, p: &str) -> (r: String)
        ensures
            r@ == path_relative(p@, self@.root),
    {
        relative_to(p, self.project_root.as_str())
    }

    /// What is known of the file at a canonical path.
    pub(crate) fn known(&self, c: &str) -> (r: Option<&FileCallData>)
        ensures
            match r {
                Some(f) => table_get(self@.data, c@) == Some(f.deep_view()),
                None => table_get(self@.data, c@) is None,
            },
    {
        get_entry(&self.data, c)
    }

    /// Learns about the file at a canonical path, unless it is known.
    pub(crate) fn ensure_built(&mut self, w: &Worktree, c: &str) -> (r: Result<(), AftError>)
        ensures
            final(self)@ == (Graph { data: built(w@, old(self)@.data, c@), ..old(self)@ }),
            match r {
                Ok(_) => build_outcome(w@, old(self)@.data, c@) is Ok && table_get(
                    final(self)@.data,
                    c@,
                ) == Some(build_outcome(w@, old(self)@.data, c@)->Ok_0),
                Err(e) => build_outcome(w@, old(self)@.data, c@) == Err::<FileModel, Fault>(
                    e.deep_view(),
                ),
            },
    {
        if get_entry(&self.data, c).is_some() {
            return Ok(());
        }
        match build_file_data(w, c) {
            Ok(f) => {
                proof {
                    lemma_table_get_set(self@.data, c@, f.deep_view());
                }
                set_entry(&mut self.data, owned(c), f);
                Ok(())
            },
            Err(e) => Err(e),
        }
    }

    /// What the graph knows of a file; it learns it where it does not know it yet.
    pub fn build_file(&mut self, w: &Worktree, path: &str) -> (r: Result<&FileCallData, AftError>)
        ensures
            final(self)@ == (Graph {
                data: built(w@, old(self)@.data, canon(w@, old(self)@.root, path@)),
                ..old(self)@
            }),
            match r {
                Ok(f) => build_outcome(
                    w@,
                    old(self)@.data,
                    canon(w@, old(self)@.root, path@),
                ) == Ok::<FileModel, Fault>(f.deep_view()),
                Err(e) => build_outcome(
                    w@,
                    old(self)@.data,
                    canon(w@, old(self)@.root, path@),
                ) == Err::<FileModel, Fault>(e.deep_view()),
            },
    {
        let c = self.canonicalize(w, path);
        match self.ensure_built(w, c.as_str()) {
            Ok(_) => {},
            Err(e) => {
                return Err(e);
            },
        }
        match find_key(&self.data, c.as_str()) {
            Some(i) => {
                assert(self@.data[i as int].1 == self.data@[i as int].value.deep_view());
                Ok(&self.data[i].value)
            },
            None => Err(AftError::InvalidRequest { message: String::new() }),
        }
    }

    /// What is known of the file at a path.
    pub(crate) fn lookup_file_data(&self, w: &Worktree, p: &str) -> (r: Option<&FileCallData>)
        ensures
            match r {
                Some(f) => lookup(w@, self@.data, p@) == Some(f.deep_view()),
                None => lookup(w@, self@.data, p@) is None,
            },
    {
        let direct = get_entry(&self.data, p);
        if direct.is_some() {
            return direct;
        }
        let c = match w.canonicalize(p) {
            Some(c) => c,
            None => {
                return None;
            },
        };
        let canonical = get_entry(&self.data, c.as_str());
        if canonical.is_some() {
            return canonical;
        }
        let ghost all = models(self.data@);
        let mut i: usize = 0;
        while i < self.data.len()
            invariant
                i <= self.data.len(),
                all == models(self.data@),
                known_as(w@, all, c@, 0) == known_as(w@, all, c@, i as int),
                lookup(w@, self@.data, p@) == known_as(w@, all, c@, 0),
            decreases self.data.len() - i,
        {
            assert(all[i as int] == self.data@[i as int].deep_view());
            let here = match w.canonicalize(self.data[i].key.as_str()) {
                Some(k) => same(k.as_str(), c.as_str()),
                None => false,
            };
            if here {
                return Some(&self.data[i].value);
            }
            i = i + 1;
        }
        None
    }

    /// Whether a symbol of a file, as far as it is known, is an entry point.
    pub(crate) fn entry_known(&self, w: &Worktree, p: &str, name: &str) -> (r: bool)
        ensures
            r == entry_known(w@, self@.data, p@, name@),
    {
        match self.lookup_file_data(w, p) {
            Some(f) => match get_entry(&f.symbol_metadata, name) {
                Some(meta) => is_entry_point(name, &meta.kind, meta.exported, f.lang),
                None => false,
            },
            None => false,
        }
    }

    /// Where a call leads. The files that the graph has to look into for that become
    /// known.
    pub fn resolve_cross_file_edge(
        &mut self,
        w: &Worktree,
        full_callee: &str,
        short_name: &str,
        caller_file: &str,
        import_block: &ImportBlock,
    ) -> (r: EdgeResolution)
        ensures
            ({
                let after = followed(
                    w@,
                    old(self)@.root,
                    old(self)@.data,
                    full_callee@,
                    short_name@,
                    caller_file@,
                    models(import_block.imports@),
                );
                &&& r.deep_view() == after.1
                &&& final(self)@ == (Graph { data: after.0, ..old(self)@ })
            }),
    {
        match resolve_direct(w, full_callee, short_name, caller_file, &import_block.imports) {
            Some((file, symbol)) => {
                return EdgeResolution::Resolved { file, symbol };
            },
            None => {},
        }
        let files = list_imported_files(w, caller_file, &import_block.imports);
        let ghost all = models(files@);
        let ghost want = exported_search(w@, self@.root, self@.data, all, short_name@, 0);
        let ghost start = self@;
        let mut i: usize = 0;
        while i < files.len()
            invariant
                i <= files.len(),
                all == models(files@),
                start == old(self)@,
                self@ == (Graph { data: self@.data, ..start }),
                want == exported_search(
                    w@,
                    start.root,
                    self@.data,
                    all,
                    short_name@,
                    i as int,
                ),
                want == followed(
                    w@,
                    start.root,
                    start.data,
                    full_callee@,
                    short_name@,
                    caller_file@,
                    models(import_block.imports@),
                ),
            decreases files.len() - i,
        {
            assert(all[i as int] == files@[i as int]@);
            let exports = match self.build_file(w, files[i].as_str()) {
                Ok(f) => contains_text(&f.exported_symbols, short_name),
                Err(_) => false,
            };
            if exports {
                return EdgeResolution::Resolved {
                    file: files[i].clone(),
                    symbol: owned(short_name),
                };
            }
            i = i + 1;
        }
        EdgeResolution::Unresolved { callee_name: owned(short_name) }
    }

    fn exports_known(&self, w: &Worktree, p: &str, name: &str) -> (r: bool)
        ensures
            r == exports_known(w@, self@.data, p@, name@),
    {
        match self.lookup_file_data(w, p) {
            Some(f) => contains_text(&f.exported_symbols, name),
            None => false,
        }
    }

    /// Where a call leads by what is known of files.
    pub(crate) fn resolve_known(
        &self,
        w: &Worktree,
        full_callee: &str,
        short_name: &str,
        caller_file: &str,
        imports: &Vec<ImportStatement>,
    ) -> (r: EdgeResolution)
        ensures
            r.deep_view() == edge_known(
                w@,
                self@.data,
                full_callee@,
                short_name@,
                caller_file@,
                models(imports@),
            ),
    {
        match resolve_direct(w, full_callee, short_name, caller_file, imports) {
            Some((file, symbol)) => {
                return EdgeResolution::Resolved { file, symbol };
            },
            None => {},
        }
        let files = list_imported_files(w, caller_file, imports);
        let ghost all = models(files@);
        let ghost d = w@;
        let ghost data = self@.data;
        let ghost exports = |p: Seq<char>| exports_known(d, data, p, short_name@);
        let ghost want = exported_edge(all, exports, short_name@, 0);
        let mut i: usize = 0;
        while i < files.len()
            invariant
                i <= files.len(),
                all == models(files@),
                d == w@,
                data == self@.data,
                exports == (|p: Seq<char>| exports_known(d, data, p, short_name@)),
                want == exported_edge(all, exports, short_name@, i as int),
                want == edge_known(
                    w@,
                    self@.data,
                    full_callee@,
                    short_name@,
                    caller_file@,
                    models(imports@),
                ),
            decreases files.len() - i,
        {
            assert(all[i as int] == files@[i as int]@);
            if self.exports_known(w, files[i].as_str(), short_name) {
                assert(exports(all[i as int]));
                return EdgeResolution::Resolved {
                    file: files[i].clone(),
                    symbol: owned(short_name),
                };
            }
            assert(!exports(all[i as int]));
            i = i + 1;
        }
        EdgeResolution::Unresolved { callee_name: owned(short_name) }
    }

    /// Forgets what is known of a file, and everything that was concluded from it.
    pub fn invalidate_file(&mut self, w: &Worktree, path: &str)
        ensures
            final(self)@ == (Graph {
                data: table_remove(
                    table_remove(old(self)@.data, path@),
                    canon(w@, old(self)@.root, path@),
                ),
                root: old(self)@.root,
                project_files: None,
                reverse: None,
            }),
    {
        let _ = remove_entry(&mut self.data, path);
        let c = self.canonicalize(w, path);
        let _ = remove_entry(&mut self.data, c.as_str());
        self.reverse_index = None;
        self.project_files = None;
    }

    /// The project's source files.
    pub fn project_files(&mut self, w: &Worktree) -> (r: &Vec<String>)
        ensures
            models(r@) == files_known(w@, old(self)@),
            final(self)@ == (Graph {
                project_files: Some(files_known(w@, old(self)@)),
                ..old(self)@
            }),
    {
        if self.project_files.is_none() {
            self.project_files = Some(copy_strings(&w.project_files));
        }
        self.project_files.as_ref().unwrap()
    }
}

/// The project's source files: those that were found before, or those that are there.
pub open spec fn files_known(d: Disk, g: Graph) -> Seq<Seq<char>> {
    match g.project_files {
        Some(v) => v,
        None => d.project_files,
    }
}

/// What is known of a file is found under its path, else under its canonical path, else under any
/// path that leads to the same file.
pub proof fn files_are_found_under_all_their_paths(
    d: Disk,
    data: Seq<(Seq<char>, FileModel)>,
    p: Seq<char>,
    k: int,
)
    ensures
        table_get(data, p) is Some ==> lookup(d, data, p) == table_get(data, p),
        table_get(data, p) is None && d.canonical(p) is Some && table_get(
            data,
            d.canonical(p)->0,
        ) is Some ==> lookup(d, data, p) == table_get(data, d.canonical(p)->0),
        table_get(data, p) is None && d.canonical(p) is None ==> lookup(d, data, p) is None,
        table_get(data, p) is None && d.canonical(p) is Some && table_get(
            data,
            d.canonical(p)->0,
        ) is None && 0 <= k < data.len() && d.canonical(data[k].0) == d.canonical(p) && (forall|
            i: int,
        |
            0 <= i < k ==> d.canonical((#[trigger] data[i]).0) != d.canonical(p)) ==> lookup(
            d,
            data,
            p,
        ) == Some(data[k].1),
{
    if d.canonical(p) is Some && 0 <= k < data.len() && d.canonical(data[k].0) == d.canonical(p) && (
    forall|i: int| 0 <= i < k ==> d.canonical((#[trigger] data[i]).0) != d.canonical(p)) {
        lemma_known_as(d, data, d.canonical(p)->0, 0, k);
    }
}

proof fn lemma_known_as(
    d: Disk,
    data: Seq<(Seq<char>, FileModel)>,
    c: Seq<char>,
    from: int,
    k: int,
)
    requires
        0 <= from <= k < data.len(),
        d.canonical(data[k].0) == Some(c),
        forall|i: int| 0 <= i < k ==> d.canonical((#[trigger] data[i]).0) != Some(c),
    ensures
        known_as(d, data, c, from) == Some(data[k].1),
    decreases k - from,
{
    if from < k {
        assert(d.canonical(data[from].0) != Some(c));
        lemma_known_as(d, data, c, from + 1, k);
    }
}

/// A name is exported by a file where what is known of the file says so, and is an entry point where
/// what is known of the symbol makes it one.
pub proof fn exports_are_those_that_are_known(
    d: Disk,
    data: Seq<(Seq<char>, FileModel)>,
    p: Seq<char>,
    name: Seq<char>,
)
    ensures
        match lookup(d, data, p) {
            Some(m) => (exports_known(d, data, p, name) <==> m.exported.contains(name)) && (
            entry_known(d, data, p, name) <==> table_get(m.metadata, name) is Some && ({
                let meta = table_get(m.metadata, name)->0;
                entry_point(name, lowercase(name), meta.kind, meta.exported, m.lang)
            })),
            None => !exports_known(d, data, p, name) && !entry_known(d, data, p, name),
        },
{
}

/// The files that a call may lead to are asked one after another: the first that exports the name is
/// where it leads, under that name, and none is asked behind it. Where none does it leads nowhere.
pub proof fn files_are_asked_for_exports_in_turn(
    d: Disk,
    root: Seq<char>,
    data: Seq<(Seq<char>, FileModel)>,
    files: Seq<Seq<char>>,
    name: Seq<char>,
    from: int,
)
    requires
        0 <= from < files.len(),
    ensures
        ({
            let c = canon(d, root, files[from]);
            let m = build_outcome(d, data, c);
            let r = exported_search(d, root, data, files, name, from);
            &&& m is Ok && m->Ok_0.exported.contains(name) ==> r.1 == (EdgeModel::Resolved {
                file: files[from],
                symbol: name,
            }) && r.0 == built(d, data, c)
            &&& m is Err || !m->Ok_0.exported.contains(name) ==> r == exported_search(
                d,
                root,
                built(d, data, c),
                files,
                name,
                from + 1,
            )
        }),
        exported_search(d, root, data, files, name, files.len() as int) == (
            data,
            EdgeModel::Unresolved { callee_name: name },
        ),
{
}

} // verus!
