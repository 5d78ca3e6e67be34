//! The files in which structural patterns are looked for.
use vstd::prelude::*;

use crate::commands::refusal::{refuse, refused, Refusal};
use crate::models::{group_models, models};
use crate::order::{sort_list, sorted};
use crate::paths::{
    join_path, path_join, path_relative, path_under, relative_to, starts_with_path,
};
use crate::text::{chars_of, owned, same, text2, text3, texts};

verus! {

/// Where files are looked for: a path, and the name that a request gave it.
pub struct SearchRoot {
    pub path: String,
    pub label: Option<String>,
}

/// The model of a `SearchRoot`.
pub ghost struct Root {
    pub path: Seq<char>,
    pub label: Option<Seq<char>>,
}

impl DeepView for SearchRoot {
    type V = Root;

    open spec fn deep_view(&self) -> Root {
        Root { path: self.path@, label: self.label.deep_view() }
    }
}

/// Where files are looked for: in the paths of a request, below the project where they are
/// not absolute, or in the whole project.
pub open spec fn roots_of(project: Seq<char>, paths: Seq<Seq<char>>) -> Seq<Root> {
    if paths.len() == 0 {
        seq![Root { path: project, label: None }]
    } else {
        Seq::new(
            paths.len(),
            |i: int| Root { path: path_join(project, paths[i]), label: Some(paths[i]) },
        )
    }
}

/// Where files are looked for.
pub fn resolve_roots(project_root: &str, paths: &Vec<String>) -> (r: Vec<SearchRoot>)
    ensures
        models(r@) == roots_of(project_root@, texts(paths@)),
{
    broadcast use group_models;

    let mut out: Vec<SearchRoot> = Vec::new();
    assert(texts(paths@).len() == paths@.len());
    if paths.len() == 0 {
        out.push(SearchRoot { path: owned(project_root), label: None });
        assert(models(out@) =~= roots_of(project_root@, texts(paths@)));
        return out;
    }
    let ghost want = roots_of(project_root@, texts(paths@));
    let mut i: usize = 0;
    while i < paths.len()
        invariant
            i <= paths.len(),
            paths@.len() > 0,
            want == roots_of(project_root@, texts(paths@)),
            models(out@) == want.take(i as int),
        decreases paths.len() - i,
    {
        let root = SearchRoot {
            path: join_path(project_root, paths[i].as_str()),
            label: Some(owned(paths[i].as_str())),
        };
        let ghost before = models(out@);
        let ghost m = root.deep_view();
        out.push(root);
        assert(models(out@) == before.push(m));
        assert(texts(paths@)[i as int] == paths@[i as int]@);
        assert(want.take(i + 1) =~= want.take(i as int).push(m));
        i = i + 1;
    }
    assert(want.take(i as int) =~= want);
    out
}

/// What was found below a root.
pub struct WalkedRoot {
    pub exists: bool,
    /// The files of the language that the filters let through.
    pub files: Vec<String>,
    /// Whether there is a file of the language, whatever the filters say.
    pub any: bool,
}

/// The model of a `WalkedRoot`.
pub ghost struct Walked {
    pub exists: bool,
    pub files: Seq<Seq<char>>,
    pub any: bool,
}

impl DeepView for WalkedRoot {
    type V = Walked;

    open spec fn deep_view(&self) -> Walked {
        Walked { exists: self.exists, files: texts(self.files@), any: self.any }
    }
}

/// The files of the first `n` roots.
pub open spec fn all_files(walked: Seq<Walked>, n: int) -> Seq<Seq<char>>
    decreases n,
{
    if n <= 0 || n > walked.len() {
        Seq::empty()
    } else {
        all_files(walked, n - 1) + walked[n - 1].files
    }
}

/// Whether a filter lets a path through.
pub uninterp spec fn glob_admits(glob: Seq<char>, path: Seq<char>) -> bool;

/// Calls `ignore::overrides::OverrideBuilder` and `ignore::overrides::Override::matched` for a
/// single glob and a relative path. Whether the glob names the path is a function of the two
/// alone, named `glob_admits`.
#[verifier::external_body]
fn glob_matches(glob: &str, relative_path: &str) -> (r: bool)
    ensures
        r == glob_admits(glob@, relative_path@),
{
    let mut builder = ignore::overrides::OverrideBuilder::new("");
    if builder.add(glob).is_err() {
        return false;
    }
    builder.build().map(|o| o.matched(relative_path, false).is_whitelist()).unwrap_or(false)
}

/// Whether a filter excludes what it names.
pub open spec fn excludes(glob: Seq<char>) -> bool {
    glob.len() > 0 && glob[0] == '!'
}

/// Whether a filter excludes what it names.
pub fn is_exclusion(glob: &str) -> (r: bool)
    ensures
        r == excludes(glob@),
{
    let c = chars_of(glob);
    c.len() > 0 && c[0] == '!'
}

/// Whether one of some filters is no exclusion.
pub open spec fn some_include(globs: Seq<Seq<char>>) -> bool {
    exists|i: int| 0 <= i < globs.len() && !excludes(#[trigger] globs[i])
}

/// Whether one of `files` lies below a path.
pub open spec fn some_below(files: Seq<Seq<char>>, path: Seq<char>) -> bool {
    exists|i: int| 0 <= i < files.len() && path_under(#[trigger] files[i], path)
}

fn has_below(files: &Vec<String>, path: &str) -> (r: bool)
    ensures
        r == some_below(texts(files@), path@),
{
    let ghost all = texts(files@);
    let mut i: usize = 0;
    while i < files.len()
        invariant
            i <= files.len(),
            all == texts(files@),
            forall|k: int| 0 <= k < i ==> !path_under(#[trigger] all[k], path@),
        decreases files.len() - i,
    {
        assert(all[i as int] == files@[i as int]@);
        if starts_with_path(files[i].as_str(), path) {
            return true;
        }
        i = i + 1;
    }
    false
}

fn has_include(globs: &Vec<String>) -> (r: bool)
    ensures
        r == some_include(texts(globs@)),
{
    let ghost all = texts(globs@);
    let mut i: usize = 0;
    while i < globs.len()
        invariant
            i <= globs.len(),
            all == texts(globs@),
            forall|k: int| 0 <= k < i ==> excludes(#[trigger] all[k]),
        decreases globs.len() - i,
    {
        assert(all[i as int] == globs@[i as int]@);
        if !is_exclusion(globs[i].as_str()) {
            return true;
        }
        i = i + 1;
    }
    false
}

/// The root that holds a file, as it is seen by filters: the project for a root inside it.
pub open spec fn filter_root(project: Seq<char>, roots: Seq<Root>, file: Seq<char>, from: int) -> Seq<
    char,
>
    decreases roots.len() - from,
{
    if from < 0 || from >= roots.len() {
        project
    } else if path_under(file, roots[from].path) {
        if path_under(roots[from].path, project) {
            project
        } else {
            roots[from].path
        }
    } else {
        filter_root(project, roots, file, from + 1)
    }
}

/// A file's path as filters see it.
pub open spec fn filter_path(project: Seq<char>, roots: Seq<Root>, file: Seq<char>) -> Seq<char> {
    let root = filter_root(project, roots, file, 0);
    if path_under(file, root) {
        path_relative(file, root)
    } else {
        file
    }
}

fn relative_path_for_globs(project_root: &str, roots: &Vec<SearchRoot>, file: &str) -> (r: String)
    ensures
        r@ == filter_path(project_root@, models(roots@), file@),
{
    let ghost all = models(roots@);
    let mut root: &str = project_root;
    let mut i: usize = 0;
    let mut found = false;
    while i < roots.len() && !found
        invariant
            i <= roots.len(),
            all == models(roots@),
            !found ==> root@ == project_root@ && filter_root(project_root@, all, file@, 0)
                == filter_root(project_root@, all, file@, i as int),
            found ==> root@ == filter_root(project_root@, all, file@, 0),
        decreases roots.len() - i + (if found {
            0int
        } else {
            1int
        }),
    {
        assert(all[i as int] == roots@[i as int].deep_view());
        if starts_with_path(file, roots[i].path.as_str()) {
            if !starts_with_path(roots[i].path.as_str(), project_root) {
                root = roots[i].path.as_str();
            }
            found = true;
        } else {
            i = i + 1;
        }
    }
    if starts_with_path(file, root) {
        relative_to(file, root)
    } else {
        owned(file)
    }
}

/// The paths of files as filters see them.
pub open spec fn filter_paths(project: Seq<char>, roots: Seq<Root>, files: Seq<Seq<char>>) -> Seq<
    Seq<char>,
> {
    files.map_values(|f: Seq<char>| filter_path(project, roots, f))
}

/// Whether a filter lets one of some paths through.
pub open spec fn admits_some(glob: Seq<char>, paths: Seq<Seq<char>>) -> bool {
    exists|i: int| 0 <= i < paths.len() && glob_admits(glob, #[trigger] paths[i])
}

fn admits_any(glob: &str, paths: &Vec<String>) -> (r: bool)
    ensures
        r == admits_some(glob@, texts(paths@)),
{
    let ghost all = texts(paths@);
    let mut i: usize = 0;
    while i < paths.len()
        invariant
            i <= paths.len(),
            all == texts(paths@),
            forall|k: int| 0 <= k < i ==> !glob_admits(glob@, #[trigger] all[k]),
        decreases paths.len() - i,
    {
        assert(all[i as int] == paths@[i as int]@);
        if glob_matches(glob, paths[i].as_str()) {
            return true;
        }
        i = i + 1;
    }
    false
}

/// What is said of a path or a filter that leads to no file.
pub open spec fn no_files(name: Seq<char>) -> Seq<char> {
    name + " → no files"@
}

/// The named roots among the first `n` below which there is no file. Where a filter includes
/// files, a root counts as empty only if it has no file whatever the filters say.
pub open spec fn empty_roots(
    roots: Seq<Root>,
    walked: Seq<Walked>,
    globs: Seq<Seq<char>>,
    files: Seq<Seq<char>>,
    n: int,
) -> Seq<Seq<char>>
    decreases n,
{
    if n <= 0 || n > roots.len() {
        Seq::empty()
    } else {
        let before = empty_roots(roots, walked, globs, files, n - 1);
        match roots[n - 1].label {
            None => before,
            Some(label) => if some_below(files, roots[n - 1].path) || (some_include(globs)
                && walked[n - 1].any) {
                before
            } else {
                before.push(no_files(label))
            },
        }
    }
}

/// The first `n` filters that include files and let none of some paths through.
pub open spec fn idle_globs(globs: Seq<Seq<char>>, paths: Seq<Seq<char>>, n: int) -> Seq<Seq<char>>
    decreases n,
{
    if n <= 0 || n > globs.len() {
        Seq::empty()
    } else {
        let before = idle_globs(globs, paths, n - 1);
        if excludes(globs[n - 1]) || admits_some(globs[n - 1], paths) {
            before
        } else {
            before.push(no_files(globs[n - 1]))
        }
    }
}

/// `s` without the items that equal the one before them.
pub open spec fn deduped(s: Seq<Seq<char>>) -> Seq<Seq<char>>
    decreases s.len(),
{
    if s.len() == 0 {
        Seq::empty()
    } else {
        let rest = deduped(s.drop_last());
        if rest.len() > 0 && rest.last() == s.last() {
            rest
        } else {
            rest.push(s.last())
        }
    }
}

fn dedup(list: Vec<String>) -> (r: Vec<String>)
    ensures
        models(r@) == deduped(models(list@)),
{
    broadcast use group_models;

    let ghost all = models(list@);
    let mut out: Vec<String> = Vec::new();
    let mut i: usize = 0;
    while i < list.len()
        invariant
            i <= list.len(),
            all == models(list@),
            models(out@) == deduped(all.take(i as int)),
        decreases list.len() - i,
    {
        assert(all.take(i + 1).drop_last() =~= all.take(i as int));
        assert(all[i as int] == list@[i as int]@);
        let ghost before = models(out@);
        assert(out@.len() > 0 ==> before.last() == out@[out@.len() - 1]@);
        if out.len() == 0 || !same(out[out.len() - 1].as_str(), list[i].as_str()) {
            out.push(owned(list[i].as_str()));
        }
        i = i + 1;
    }
    assert(all.take(i as int) =~= all);
    out
}

/// What is said of the paths and filters of a request that lead to no file, in order and each
/// once.
pub open spec fn warnings_of(
    project: Seq<char>,
    roots: Seq<Root>,
    walked: Seq<Walked>,
    globs: Seq<Seq<char>>,
) -> Seq<Seq<char>> {
    let files = all_files(walked, walked.len() as int);
    deduped(
        sorted::<String>(
            empty_roots(roots, walked, globs, files, roots.len() as int) + idle_globs(
                globs,
                filter_paths(project, roots, files),
                globs.len() as int,
            ),
        ),
    )
}

fn scope_warnings(
    project_root: &str,
    roots: &Vec<SearchRoot>,
    walked: &Vec<WalkedRoot>,
    globs: &Vec<String>,
    files: &Vec<String>,
) -> (r: Vec<String>)
    requires
        walked@.len() == roots@.len(),
        texts(files@) == all_files(models(walked@), walked@.len() as int),
    ensures
        models(r@) == warnings_of(
            project_root@,
            models(roots@),
            models(walked@),
            texts(globs@),
        ),
{
    broadcast use group_models;

    let ghost rs = models(roots@);
    let ghost ws = models(walked@);
    let ghost gs = texts(globs@);
    let ghost fs = texts(files@);
    let mut out: Vec<String> = Vec::new();
    let including = has_include(globs);
    let mut i: usize = 0;
    while i < roots.len()
        invariant
            i <= roots.len(),
            walked@.len() == roots@.len(),
            rs == models(roots@),
            ws == models(walked@),
            fs == texts(files@),
            including == some_include(gs),
            models(out@) == empty_roots(rs, ws, gs, fs, i as int),
        decreases roots.len() - i,
    {
        assert(rs[i as int] == roots@[i as int].deep_view());
        assert(ws[i as int] == walked@[i as int].deep_view());
        match &roots[i].label {
            Some(label) => {
                if !(has_below(files, roots[i].path.as_str()) || (including && walked[i].any)) {
                    let w = text2(label.as_str(), " → no files");
                    let ghost before = models(out@);
                    let ghost m = w@;
                    out.push(w);
                    assert(models(out@) == before.push(m));
                }
            },
            None => {},
        }
        i = i + 1;
    }
    let mut paths: Vec<String> = Vec::new();
    let mut k: usize = 0;
    while k < files.len()
        invariant
            k <= files.len(),
            fs == texts(files@),
            rs == models(roots@),
            paths@.len() == k,
            forall|j: int|
                0 <= j < k ==> (#[trigger] paths@[j])@ == filter_path(project_root@, rs, fs[j]),
        decreases files.len() - k,
    {
        assert(fs[k as int] == files@[k as int]@);
        paths.push(relative_path_for_globs(project_root, roots, files[k].as_str()));
        k = k + 1;
    }
    let ghost ps = filter_paths(project_root@, rs, fs);
    assert(texts(paths@) =~= ps);
    let ghost start = models(out@);
    let mut g: usize = 0;
    assert(start + idle_globs(gs, ps, 0) =~= start);
    while g < globs.len()
        invariant
            g <= globs.len(),
            gs == texts(globs@),
            ps == texts(paths@),
            models(out@) == start + idle_globs(gs, ps, g as int),
        decreases globs.len() - g,
    {
        assert(gs[g as int] == globs@[g as int]@);
        if !is_exclusion(globs[g].as_str()) && !admits_any(globs[g].as_str(), &paths) {
            let w = text2(globs[g].as_str(), " → no files");
            let ghost before = models(out@);
            let ghost m = w@;
            out.push(w);
            assert(models(out@) == before.push(m));
            assert(models(out@) =~= start + idle_globs(gs, ps, g + 1));
        }
        g = g + 1;
    }
    dedup(sort_list(out))
}

/// The files in which a pattern is looked for.
pub struct AstScope {
    pub files: Vec<String>,
    pub scope_warnings: Vec<String>,
    pub no_files_matched_scope: bool,
}

/// The first root from `from` on that is not there.
pub open spec fn missing_root(roots: Seq<Root>, walked: Seq<Walked>, from: int) -> Option<Seq<char>>
    decreases roots.len() - from,
{
    if from < 0 || from >= roots.len() {
        None
    } else if !walked[from].exists {
        Some(roots[from].path)
    } else {
        missing_root(roots, walked, from + 1)
    }
}

/// The files in which a pattern is looked for, root by root; a root that is not there is
/// refused. `walked` is what was found below each root.
pub fn collect_ast_files(
    command: &str,
    project_root: &str,
    roots: &Vec<SearchRoot>,
    walked: &Vec<WalkedRoot>,
    globs: &Vec<String>,
) -> (r: Result<AstScope, Refusal>)
    requires
        walked@.len() == roots@.len(),
    ensures
        match missing_root(models(roots@), models(walked@), 0) {
            Some(path) => r is Err && (r->Err_0).deep_view() == refused(
                "path_not_found"@,
                command@ + ": search path does not exist: "@ + path,
            ),
            None => r is Ok && texts((r->Ok_0).files@) == all_files(
                models(walked@),
                walked@.len() as int,
            ) && models((r->Ok_0).scope_warnings@) == warnings_of(
                project_root@,
                models(roots@),
                models(walked@),
                texts(globs@),
            ) && (r->Ok_0).no_files_matched_scope == ((r->Ok_0).files@.len() == 0),
        },
{
    let ghost rs = models(roots@);
    let ghost ws = models(walked@);
    let mut i: usize = 0;
    while i < roots.len()
        invariant
            i <= roots.len(),
            walked@.len() == roots@.len(),
            rs == models(roots@),
            ws == models(walked@),
            missing_root(rs, ws, 0) == missing_root(rs, ws, i as int),
        decreases roots.len() - i,
    {
        assert(rs[i as int] == roots@[i as int].deep_view());
        assert(ws[i as int] == walked@[i as int].deep_view());
        if !walked[i].exists {
            return Err(
                refuse(
                    "path_not_found",
                    text3(command, ": search path does not exist: ", roots[i].path.as_str()),
                ),
            );
        }
        i = i + 1;
    }
    let mut files: Vec<String> = Vec::new();
    let mut k: usize = 0;
    assert(texts(files@) =~= Seq::<Seq<char>>::empty());
    while k < walked.len()
        invariant
            k <= walked.len(),
            ws == models(walked@),
            texts(files@) == all_files(ws, k as int),
        decreases walked.len() - k,
    {
        let ghost start = texts(files@);
        let found = &walked[k].files;
        assert(ws[k as int] == walked@[k as int].deep_view());
        let mut j: usize = 0;
        assert(start + texts(found@).take(0) =~= start);
        while j < found.len()
            invariant
                j <= found.len(),
                texts(files@) == start + texts(found@).take(j as int),
            decreases found.len() - j,
        {
            let ghost before = texts(files@);
            files.push(owned(found[j].as_str()));
            assert(texts(files@) =~= before.push(found@[j as int]@));
            assert(texts(files@) =~= start + texts(found@).take(j + 1));
            j = j + 1;
        }
        assert(texts(found@).take(j as int) =~= texts(found@));
        k = k + 1;
    }
    let scope_warnings = scope_warnings(project_root, roots, walked, globs, &files);
    let none = files.len() == 0;
    Ok(AstScope { files, scope_warnings, no_files_matched_scope: none })
}

/// When repetitions are dropped from a list in which the same stand together, no two neighbours
/// are the same, nothing is lost and nothing is added.
pub proof fn warnings_do_not_repeat(s: Seq<Seq<char>>)
    ensures
        forall|i: int|
            0 < i < deduped(s).len() ==> (#[trigger] deduped(s)[i]) != deduped(s)[i - 1],
        forall|x: Seq<char>| #[trigger] deduped(s).contains(x) ==> s.contains(x),
        forall|x: Seq<char>| #[trigger] s.contains(x) ==> deduped(s).contains(x),
    decreases s.len(),
{
    if s.len() > 0 {
        let t = s.drop_last();
        let rest = deduped(t);
        let r = deduped(s);
        warnings_do_not_repeat(t);
        assert forall|i: int| 0 < i < r.len() implies (#[trigger] r[i]) != r[i - 1] by {
            if i < rest.len() {
                assert(rest[i] != rest[i - 1]);
            } else {
                assert(r[i - 1] == rest.last());
            }
        }
        assert forall|x: Seq<char>| #[trigger] r.contains(x) implies s.contains(x) by {
            let k = choose|k: int| 0 <= k < r.len() && r[k] == x;
            if k < rest.len() {
                assert(rest[k] == x);
                assert(rest.contains(x));
                let m = choose|m: int| 0 <= m < t.len() && t[m] == x;
                assert(s[m] == x);
            } else {
                assert(s[s.len() - 1] == x);
            }
        }
        assert forall|x: Seq<char>| #[trigger] s.contains(x) implies r.contains(x) by {
            let k = choose|k: int| 0 <= k < s.len() && s[k] == x;
            if k < t.len() {
                assert(t[k] == x);
                assert(t.contains(x));
                let m = choose|m: int| 0 <= m < rest.len() && rest[m] == x;
                assert(r[m] == x);
            } else {
                assert(r[r.len() - 1] == x);
            }
        }
    }
}

/// Files are looked for in the whole project where a request names no path, and otherwise in each
/// path that it names, in order: in an absolute one as it is, in another below the project.
pub proof fn paths_are_looked_for_below_the_project(
    project: Seq<char>,
    paths: Seq<Seq<char>>,
    i: int,
)
    ensures
        paths.len() == 0 ==> roots_of(project, paths).len() == 1 && roots_of(
            project,
            paths,
        )[0].path == project && roots_of(project, paths)[0].label is None,
        paths.len() > 0 ==> roots_of(project, paths).len() == paths.len(),
        0 <= i < paths.len() ==> roots_of(project, paths)[i].label == Some(paths[i]) && roots_of(
            project,
            paths,
        )[i].path == path_join(project, paths[i]),
        0 <= i < paths.len() && paths[i].len() > 0 && paths[i][0] == '/' ==> roots_of(
            project,
            paths,
        )[i].path == paths[i],
{
}

/// The first path that is not there is told; where all are there, none is.
pub proof fn first_missing_path_is_told(roots: Seq<Root>, walked: Seq<Walked>, from: int, k: int)
    requires
        0 <= from <= k <= roots.len(),
        roots.len() <= walked.len(),
        forall|i: int| from <= i < k ==> (#[trigger] walked[i]).exists,
        k < roots.len() ==> !walked[k].exists,
    ensures
        k < roots.len() ==> missing_root(roots, walked, from) == Some(roots[k].path),
        k == roots.len() ==> missing_root(roots, walked, from) is None,
    decreases k - from,
{
    if from < k {
        assert(walked[from].exists);
        first_missing_path_is_told(roots, walked, from + 1, k);
    }
}

/// A filter that does not exclude and lets no file through is told; no other is.
pub proof fn idle_filters_are_told(globs: Seq<Seq<char>>, paths: Seq<Seq<char>>, n: int)
    requires
        0 < n <= globs.len(),
    ensures
        ({
            let g = globs[n - 1];
            let marked = g.len() > 0 && g[0] == '!';
            let used = exists|i: int|
                0 <= i < paths.len() && glob_admits(g, #[trigger] paths[i]);
            &&& marked || used ==> idle_globs(globs, paths, n) == idle_globs(globs, paths, n - 1)
            &&& !marked && !used ==> idle_globs(globs, paths, n) == idle_globs(
                globs,
                paths,
                n - 1,
            ).push(g + " → no files"@)
        }),
{
}

} // verus!
