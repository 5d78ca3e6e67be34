//! Where a call leads: module paths, import aliases, re-exports.
use vstd::prelude::*;
use vstd::slice::slice_subrange;

use crate::callgraph::model::{EdgeModel, ImportModel, ImportStatement};
use crate::callgraph::worktree::{Disk, Worktree};
use crate::models::{group_models, models};
use crate::paths::{
    join_path, parent, path_join, path_parent, path_with_extension, with_extension,
};
use crate::text::{
    chars_of, find_char, find_char_from, find_chars, find_from, is_white_space, lemma_char_behind,
    lemma_char_found, lemma_find_from, occurs, owned, same, string_of, white_space,
};

verus! {

/// The index file in a directory: the first that is there.
pub open spec fn index_file(d: Disk, dir: Seq<char>) -> Option<Seq<char>> {
    if d.is_file(path_join(dir, "index.ts"@)) {
        Some(d.canonical_or_self(path_join(dir, "index.ts"@)))
    } else if d.is_file(path_join(dir, "index.tsx"@)) {
        Some(d.canonical_or_self(path_join(dir, "index.tsx"@)))
    } else if d.is_file(path_join(dir, "index.js"@)) {
        Some(d.canonical_or_self(path_join(dir, "index.js"@)))
    } else if d.is_file(path_join(dir, "index.jsx"@)) {
        Some(d.canonical_or_self(path_join(dir, "index.jsx"@)))
    } else {
        None
    }
}

fn file_in(w: &Worktree, dir: &str, name: &str) -> (r: Option<String>)
    ensures
        r.deep_view() == (if w@.is_file(path_join(dir@, name@)) {
            Some(w@.canonical_or_self(path_join(dir@, name@)))
        } else {
            None::<Seq<char>>
        }),
{
    let p = join_path(dir, name);
    if w.is_file(p.as_str()) {
        Some(w.canonicalize_or(p.as_str()))
    } else {
        None
    }
}

/// The index file in a directory.
pub fn find_index_file(w: &Worktree, dir: &str) -> (r: Option<String>)
    ensures
        r.deep_view() == index_file(w@, dir@),
{
    let a = file_in(w, dir, "index.ts");
    if a.is_some() {
        return a;
    }
    let b = file_in(w, dir, "index.tsx");
    if b.is_some() {
        return b;
    }
    let c = file_in(w, dir, "index.js");
    if c.is_some() {
        return c;
    }
    file_in(w, dir, "index.jsx")
}

/// The file with another extension, where it is there.
pub open spec fn with_ext_file(d: Disk, base: Seq<char>, ext: Seq<char>) -> Option<Seq<char>> {
    let p = path_with_extension(base, ext);
    if d.is_file(p) {
        Some(d.canonical_or_self(p))
    } else {
        None
    }
}

/// The file that a relative module path, seen from a directory, leads to: the path
/// itself, the path with the extension of a script, or the index file of a directory.
pub open spec fn module_file(d: Disk, from_dir: Seq<char>, module: Seq<char>) -> Option<
    Seq<char>,
> {
    if !(module.len() > 0 && module[0] == '.') {
        None
    } else {
        let base = path_join(from_dir, module);
        if d.is_file(base) {
            Some(d.canonical_or_self(base))
        } else if with_ext_file(d, base, "ts"@) is Some {
            with_ext_file(d, base, "ts"@)
        } else if with_ext_file(d, base, "tsx"@) is Some {
            with_ext_file(d, base, "tsx"@)
        } else if with_ext_file(d, base, "js"@) is Some {
            with_ext_file(d, base, "js"@)
        } else if with_ext_file(d, base, "jsx"@) is Some {
            with_ext_file(d, base, "jsx"@)
        } else if d.is_dir(base) {
            index_file(d, base)
        } else {
            None
        }
    }
}

fn ext_file(w: &Worktree, base: &str, ext: &str) -> (r: Option<String>)
    ensures
        r.deep_view() == with_ext_file(w@, base@, ext@),
{
    let p = with_extension(base, ext);
    if w.is_file(p.as_str()) {
        Some(w.canonicalize_or(p.as_str()))
    } else {
        None
    }
}

/// The file that a relative module path, seen from a directory, leads to.
pub fn resolve_module(w: &Worktree, from_dir: &str, module: &str) -> (r: Option<String>)
    ensures
        r.deep_view() == module_file(w@, from_dir@, module@),
{
    let m = chars_of(module);
    if !(m.len() > 0 && m[0] == '.') {
        return None;
    }
    let base = join_path(from_dir, module);
    let base = base.as_str();
    if w.is_file(base) {
        return Some(w.canonicalize_or(base));
    }
    let a = ext_file(w, base, "ts");
    if a.is_some() {
        return a;
    }
    let b = ext_file(w, base, "tsx");
    if b.is_some() {
        return b;
    }
    let c = ext_file(w, base, "js");
    if c.is_some() {
        return c;
    }
    let e = ext_file(w, base, "jsx");
    if e.is_some() {
        return e;
    }
    if w.is_dir(base) {
        return find_index_file(w, base);
    }
    None
}

/// Whether `c` stands between names in an import list.
pub open spec fn name_separator(c: char) -> bool {
    c == '{' || c == ',' || white_space(c)
}

/// `s` without the separators at its end.
pub open spec fn without_separators(s: Seq<char>) -> Seq<char>
    decreases s.len(),
{
    if s.len() > 0 && name_separator(s.last()) {
        without_separators(s.drop_last())
    } else {
        s
    }
}

/// The characters behind the last separator of `s`.
pub open spec fn behind_separators(s: Seq<char>) -> Seq<char>
    decreases s.len(),
{
    if s.len() == 0 || name_separator(s.last()) {
        Seq::empty()
    } else {
        behind_separators(s.drop_last()).push(s.last())
    }
}

/// The name in front of the first ` as ` with the local name in an import statement.
pub open spec fn alias_original(raw: Seq<char>, local: Seq<char>) -> Option<Seq<char>> {
    match find_from(raw, " as "@ + local, 0) {
        None => None,
        Some(pos) => {
            let head = without_separators(raw.take(pos));
            if head.len() == 0 {
                None
            } else {
                Some(behind_separators(head))
            }
        },
    }
}

fn is_separator(c: char) -> (r: bool)
    ensures
        r == name_separator(c),
{
    c == '{' || c == ',' || is_white_space(c)
}

/// The name that an import statement gives another name to.
pub fn find_alias_original(raw_import: &str, local_name: &str) -> (r: Option<String>)
    ensures
        r.deep_view() == alias_original(raw_import@, local_name@),
{
    let raw = chars_of(raw_import);
    let mut search = " as ".to_owned();
    search.append(local_name);
    let needle = chars_of(search.as_str());
    let pos = match find_chars(raw.as_slice(), needle.as_slice(), 0) {
        Some(i) => i,
        None => {
            return None;
        },
    };
    let mut n: usize = pos;
    while n > 0 && is_separator(raw[n - 1])
        invariant
            n <= pos <= raw.len(),
            without_separators(raw@.take(pos as int)) == without_separators(raw@.take(n as int)),
        decreases n,
    {
        assert(raw@.take(n as int).drop_last() =~= raw@.take(n - 1));
        assert(raw@.take(n as int).last() == raw@[n - 1]);
        n = n - 1;
    }
    if n == 0 {
        assert(raw@.take(0).len() == 0);
        return None;
    }
    let ghost head = raw@.take(n as int);
    assert(head.last() == raw@[n - 1]);
    assert(without_separators(raw@.take(pos as int)) == head);
    let mut k: usize = n;
    assert(behind_separators(head) =~= behind_separators(head) + raw@.subrange(n as int, n as int));
    while k > 0 && !is_separator(raw[k - 1])
        invariant
            k <= n <= raw.len(),
            head == raw@.take(n as int),
            behind_separators(head) == behind_separators(raw@.take(k as int)) + raw@.subrange(
                k as int,
                n as int,
            ),
        decreases k,
    {
        proof {
            let now = raw@.take(k as int);
            assert(now.drop_last() =~= raw@.take(k - 1));
            assert(now.last() == raw@[k - 1]);
            assert(behind_separators(raw@.take(k - 1)).push(raw@[k - 1]) + raw@.subrange(
                k as int,
                n as int,
            ) =~= behind_separators(raw@.take(k - 1)) + raw@.subrange(k - 1, n as int));
        }
        k = k - 1;
    }
    proof {
        let now = raw@.take(k as int);
        assert(k > 0 ==> now.last() == raw@[k - 1]);
        assert(behind_separators(now) =~= Seq::<char>::empty());
        assert(behind_separators(head) =~= raw@.subrange(k as int, n as int));
    }
    Some(string_of(slice_subrange(raw.as_slice(), k, n)))
}

/// The directory that a file's imports are seen from.
pub open spec fn import_dir(caller_file: Seq<char>) -> Seq<char> {
    match path_parent(caller_file) {
        Some(d) => d,
        None => "."@,
    }
}

fn dir_of(caller_file: &str) -> (r: String)
    ensures
        r@ == import_dir(caller_file@),
{
    match parent(caller_file) {
        Some(d) => d,
        None => ".".to_owned(),
    }
}

/// The first of the imports from `from` on that gives its module the name
/// `namespace` and whose module is there: the file of the module.
pub open spec fn namespace_file(
    d: Disk,
    dir: Seq<char>,
    imports: Seq<ImportModel>,
    namespace: Seq<char>,
    from: int,
) -> Option<Seq<char>>
    decreases imports.len() - from,
{
    if from < 0 || from >= imports.len() {
        None
    } else if imports[from].namespace_import == Some(namespace) && module_file(
        d,
        dir,
        imports[from].module,
    ) is Some {
        module_file(d, dir, imports[from].module)
    } else {
        namespace_file(d, dir, imports, namespace, from + 1)
    }
}

/// The first of the imports from `from` on that imports a name, directly or as its
/// default, and whose module is there: the file of the module and the symbol in it.
pub open spec fn named_import(
    d: Disk,
    dir: Seq<char>,
    imports: Seq<ImportModel>,
    name: Seq<char>,
    from: int,
) -> Option<(Seq<char>, Seq<char>)>
    decreases imports.len() - from,
{
    if from < 0 || from >= imports.len() {
        None
    } else {
        match module_file(d, dir, imports[from].module) {
            Some(f) => if imports[from].names.contains(name) {
                Some((f, name))
            } else if imports[from].default_import == Some(name) {
                Some((f, "default"@))
            } else {
                named_import(d, dir, imports, name, from + 1)
            },
            None => named_import(d, dir, imports, name, from + 1),
        }
    }
}

/// The first of the imports from `from` on that gives something the name `name` and
/// whose module is there: the file of the module and the symbol in it.
pub open spec fn aliased_import(
    d: Disk,
    dir: Seq<char>,
    imports: Seq<ImportModel>,
    name: Seq<char>,
    from: int,
) -> Option<(Seq<char>, Seq<char>)>
    decreases imports.len() - from,
{
    if from < 0 || from >= imports.len() {
        None
    } else {
        match (alias_original(imports[from].raw_text, name), module_file(
            d,
            dir,
            imports[from].module,
        )) {
            (Some(original), Some(f)) => Some((f, original)),
            _ => aliased_import(d, dir, imports, name, from + 1),
        }
    }
}

/// Where a call leads by the file's own imports: through the name of a module, by an
/// imported name, by a default import or by an alias, in this order.
pub open spec fn direct_edge(
    d: Disk,
    full: Seq<char>,
    name: Seq<char>,
    caller_file: Seq<char>,
    imports: Seq<ImportModel>,
) -> Option<(Seq<char>, Seq<char>)> {
    let dir = import_dir(caller_file);
    let through_module = match find_char_from(full, '.', 0) {
        Some(dot) => match namespace_file(d, dir, imports, full.take(dot), 0) {
            Some(f) => Some((f, full.skip(dot + 1))),
            None => None,
        },
        None => None,
    };
    if through_module is Some {
        through_module
    } else if named_import(d, dir, imports, name, 0) is Some {
        named_import(d, dir, imports, name, 0)
    } else {
        aliased_import(d, dir, imports, name, 0)
    }
}

fn names_hold(imp: &ImportStatement, name: &str) -> (r: bool)
    ensures
        r == imp.deep_view().names.contains(name@),
{
    let ghost all = models(imp.names@);
    let mut i: usize = 0;
    while i < imp.names.len()
        invariant
            i <= imp.names.len(),
            all == models(imp.names@),
            forall|k: int| 0 <= k < i ==> all[k] != name@,
        decreases imp.names.len() - i,
    {
        assert(all[i as int] == imp.names@[i as int]@);
        if same(imp.names[i].as_str(), name) {
            return true;
        }
        i = i + 1;
    }
    false
}

fn opt_is(s: &Option<String>, t: &str) -> (r: bool)
    ensures
        r == (s.deep_view() == Some(t@)),
{
    match s {
        Some(x) => same(x.as_str(), t),
        None => false,
    }
}

/// The model of an optional pair of strings.
pub open spec fn pair_model(r: Option<(String, String)>) -> Option<(Seq<char>, Seq<char>)> {
    match r {
        Some(p) => Some((p.0@, p.1@)),
        None => None,
    }
}

fn find_namespace(
    w: &Worktree,
    dir: &str,
    imports: &Vec<ImportStatement>,
    namespace: &str,
) -> (r: Option<String>)
    ensures
        r.deep_view() == namespace_file(w@, dir@, models(imports@), namespace@, 0),
{
    let ghost all = models(imports@);
    let mut i: usize = 0;
    while i < imports.len()
        invariant
            i <= imports.len(),
            all == models(imports@),
            namespace_file(w@, dir@, all, namespace@, 0) == namespace_file(
                w@,
                dir@,
                all,
                namespace@,
                i as int,
            ),
        decreases imports.len() - i,
    {
        let imp = &imports[i];
        assert(all[i as int] == imp.deep_view());
        if opt_is(&imp.namespace_import, namespace) {
            let f = resolve_module(w, dir, imp.module.as_str());
            if f.is_some() {
                return f;
            }
        }
        i = i + 1;
    }
    None
}

fn find_named(w: &Worktree, dir: &str, imports: &Vec<ImportStatement>, name: &str) -> (r: Option<
    (String, String),
>)
    ensures
        pair_model(r) == named_import(w@, dir@, models(imports@), name@, 0),
{
    let ghost all = models(imports@);
    let mut i: usize = 0;
    while i < imports.len()
        invariant
            i <= imports.len(),
            all == models(imports@),
            named_import(w@, dir@, all, name@, 0) == named_import(w@, dir@, all, name@, i as int),
        decreases imports.len() - i,
    {
        let imp = &imports[i];
        assert(all[i as int] == imp.deep_view());
        match resolve_module(w, dir, imp.module.as_str()) {
            Some(f) => {
                if names_hold(imp, name) {
                    return Some((f, owned(name)));
                }
                if opt_is(&imp.default_import, name) {
                    return Some((f, "default".to_owned()));
                }
            },
            None => {},
        }
        i = i + 1;
    }
    None
}

fn find_aliased(w: &Worktree, dir: &str, imports: &Vec<ImportStatement>, name: &str) -> (r: Option<
    (String, String),
>)
    ensures
        pair_model(r) == aliased_import(w@, dir@, models(imports@), name@, 0),
{
    let ghost all = models(imports@);
    let mut i: usize = 0;
    while i < imports.len()
        invariant
            i <= imports.len(),
            all == models(imports@),
            aliased_import(w@, dir@, all, name@, 0) == aliased_import(
                w@,
                dir@,
                all,
                name@,
                i as int,
            ),
        decreases imports.len() - i,
    {
        let imp = &imports[i];
        assert(all[i as int] == imp.deep_view());
        match (find_alias_original(imp.raw_text.as_str(), name), resolve_module(
            w,
            dir,
            imp.module.as_str(),
        )) {
            (Some(original), Some(f)) => {
                return Some((f, original));
            },
            _ => {},
        }
        i = i + 1;
    }
    None
}

/// Where a call leads by the file's own imports: a file and a symbol in it.
pub fn resolve_direct(
    w: &Worktree,
    full_callee: &str,
    short_name: &str,
    caller_file: &str,
    imports: &Vec<ImportStatement>,
) -> (r: Option<(String, String)>)
    ensures
        pair_model(r) == direct_edge(
            w@,
            full_callee@,
            short_name@,
            caller_file@,
            models(imports@),
        ),
{
    let dir = dir_of(caller_file);
    let full = chars_of(full_callee);
    match find_char(full.as_slice(), '.', 0) {
        Some(dot) => {
            let head = string_of(slice_subrange(full.as_slice(), 0, dot));
            assert(head@ =~= full_callee@.take(dot as int));
            match find_namespace(w, dir.as_str(), imports, head.as_str()) {
                Some(f) => {
                    let member = slice_subrange(full.as_slice(), dot + 1, full.len());
                    assert(member@ =~= full_callee@.skip(dot + 1));
                    return Some((f, string_of(member)));
                },
                None => {},
            }
        },
        None => {},
    }
    let named = find_named(w, dir.as_str(), imports, short_name);
    if named.is_some() {
        return named;
    }
    find_aliased(w, dir.as_str(), imports, short_name)
}

/// The files of the imported modules from `from` on, in order, with the index file in
/// the place of a directory.
pub open spec fn imported_files(
    d: Disk,
    dir: Seq<char>,
    imports: Seq<ImportModel>,
    from: int,
) -> Seq<Seq<char>>
    decreases imports.len() - from,
{
    if from < 0 || from >= imports.len() {
        Seq::empty()
    } else {
        let rest = imported_files(d, dir, imports, from + 1);
        match module_file(d, dir, imports[from].module) {
            Some(f) => if d.is_dir(f) {
                match index_file(d, f) {
                    Some(ix) => seq![ix] + rest,
                    None => rest,
                }
            } else {
                seq![f] + rest
            },
            None => rest,
        }
    }
}

/// The files of a file's imported modules, in order.
pub fn list_imported_files(
    w: &Worktree,
    caller_file: &str,
    imports: &Vec<ImportStatement>,
) -> (r: Vec<String>)
    ensures
        models(r@) == imported_files(w@, import_dir(caller_file@), models(imports@), 0),
{
    broadcast use group_models;

    let dir = dir_of(caller_file);
    let ghost all = models(imports@);
    let ghost want = imported_files(w@, dir@, all, 0);
    let mut out: Vec<String> = Vec::new();
    let mut i: usize = 0;
    assert(models(out@) + want =~= want);
    while i < imports.len()
        invariant
            i <= imports.len(),
            all == models(imports@),
            models(out@) + imported_files(w@, dir@, all, i as int) == want,
        decreases imports.len() - i,
    {
        let imp = &imports[i];
        assert(all[i as int] == imp.deep_view());
        let ghost before = models(out@);
        let ghost rest = imported_files(w@, dir@, all, i + 1);
        match resolve_module(w, dir.as_str(), imp.module.as_str()) {
            Some(f) => {
                if w.is_dir(f.as_str()) {
                    match find_index_file(w, f.as_str()) {
                        Some(ix) => {
                            let ghost m = ix@;
                            out.push(ix);
                            assert(models(out@) == before.push(m));
                            assert(before + (seq![m] + rest) =~= before.push(m) + rest);
                        },
                        None => {},
                    }
                } else {
                    let ghost m = f@;
                    out.push(f);
                    assert(models(out@) == before.push(m));
                    assert(before + (seq![m] + rest) =~= before.push(m) + rest);
                }
            },
            None => {},
        }
        i = i + 1;
    }
    assert(models(out@) + Seq::<Seq<char>>::empty() =~= models(out@));
    out
}

/// Where a call leads that no import of its own leads from: to the first of `files`
/// from `from` on that exports the name.
pub open spec fn exported_edge(
    files: Seq<Seq<char>>,
    exports: spec_fn(Seq<char>) -> bool,
    name: Seq<char>,
    from: int,
) -> EdgeModel
    decreases files.len() - from,
{
    if from < 0 || from >= files.len() {
        EdgeModel::Unresolved { callee_name: name }
    } else if exports(files[from]) {
        EdgeModel::Resolved { file: files[from], symbol: name }
    } else {
        exported_edge(files, exports, name, from + 1)
    }
}

/// The model of where a call leads, given where its own imports lead and where the
/// exports of the imported files do.
pub open spec fn edge_model(direct: Option<(Seq<char>, Seq<char>)>, exported: EdgeModel) -> EdgeModel {
    match direct {
        Some(p) => EdgeModel::Resolved { file: p.0, symbol: p.1 },
        None => exported,
    }
}

/// What a script module may be named by, in the order in which the names are tried: its path as it
/// is, and with the extensions of scripts.
pub open spec fn script_path(base: Seq<char>, i: int) -> Seq<char> {
    if i == 0 {
        base
    } else if i == 1 {
        path_with_extension(base, "ts"@)
    } else if i == 2 {
        path_with_extension(base, "tsx"@)
    } else if i == 3 {
        path_with_extension(base, "js"@)
    } else {
        path_with_extension(base, "jsx"@)
    }
}

/// The files that may stand for a directory, in the order in which they are tried.
pub open spec fn index_path(dir: Seq<char>, i: int) -> Seq<char> {
    if i == 0 {
        path_join(dir, "index.ts"@)
    } else if i == 1 {
        path_join(dir, "index.tsx"@)
    } else if i == 2 {
        path_join(dir, "index.js"@)
    } else {
        path_join(dir, "index.jsx"@)
    }
}

/// A module leads to the first of its paths at which a file is; to the index file of its
/// directory where there is none; and nowhere where its path does not start with a dot.
pub proof fn modules_lead_to_the_first_file(
    d: Disk,
    from_dir: Seq<char>,
    module: Seq<char>,
    i: int,
)
    ensures
        module.len() == 0 || module[0] != '.' ==> module_file(d, from_dir, module) is None,
        module.len() > 0 && module[0] == '.' ==> {
            let base = path_join(from_dir, module);
            let r = module_file(d, from_dir, module);
            let no_file = forall|k: int| 0 <= k < 5 ==> !d.is_file(#[trigger] script_path(base, k));
            let no_index = forall|k: int| 0 <= k < 4 ==> !d.is_file(#[trigger] index_path(base, k));
            &&& 0 <= i < 5 && d.is_file(script_path(base, i)) && (forall|k: int|
                0 <= k < i ==> !d.is_file(#[trigger] script_path(base, k))) ==> r == Some(
                d.canonical_or_self(script_path(base, i)),
            )
            &&& no_file && d.is_dir(base) && 0 <= i < 4 && d.is_file(index_path(base, i)) && (
            forall|k: int| 0 <= k < i ==> !d.is_file(#[trigger] index_path(base, k))) ==> r == Some(
                d.canonical_or_self(index_path(base, i)),
            )
            &&& no_file && (!d.is_dir(base) || no_index) ==> r is None
        },
{
    if module.len() > 0 && module[0] == '.' {
        let base = path_join(from_dir, module);
        assert(script_path(base, 0) == base);
        assert(script_path(base, 1) == path_with_extension(base, "ts"@));
        assert(script_path(base, 2) == path_with_extension(base, "tsx"@));
        assert(script_path(base, 3) == path_with_extension(base, "js"@));
        assert(script_path(base, 4) == path_with_extension(base, "jsx"@));
        assert(index_path(base, 0) == path_join(base, "index.ts"@));
        assert(index_path(base, 1) == path_join(base, "index.tsx"@));
        assert(index_path(base, 2) == path_join(base, "index.js"@));
        assert(index_path(base, 3) == path_join(base, "index.jsx"@));
    }
}

proof fn lemma_namespace_file(
    d: Disk,
    dir: Seq<char>,
    imports: Seq<ImportModel>,
    namespace: Seq<char>,
    from: int,
    k: int,
)
    requires
        0 <= from <= k <= imports.len(),
        forall|i: int|
            from <= i < k ==> (#[trigger] imports[i]).namespace_import != Some(namespace)
                || module_file(d, dir, imports[i].module) is None,
        k < imports.len() ==> imports[k].namespace_import == Some(namespace) && module_file(
            d,
            dir,
            imports[k].module,
        ) is Some,
    ensures
        namespace_file(d, dir, imports, namespace, from) == if k < imports.len() {
            module_file(d, dir, imports[k].module)
        } else {
            None
        },
    decreases k - from,
{
    if from < k {
        assert(imports[from].namespace_import != Some(namespace) || module_file(
            d,
            dir,
            imports[from].module,
        ) is None);
        lemma_namespace_file(d, dir, imports, namespace, from + 1, k);
    }
}

/// A call of a member of a module that was imported under a name leads to the member in the file
/// of the module: of the first import with the name whose module is there.
pub proof fn members_are_found_in_their_module(
    d: Disk,
    namespace: Seq<char>,
    member: Seq<char>,
    name: Seq<char>,
    caller_file: Seq<char>,
    imports: Seq<ImportModel>,
    k: int,
    dir: Seq<char>,
    f: Seq<char>,
)
    requires
        !namespace.contains('.'),
        path_parent(caller_file) == Some(dir),
        0 <= k < imports.len(),
        imports[k].namespace_import == Some(namespace),
        module_file(d, dir, imports[k].module) == Some(f),
        forall|i: int|
            0 <= i < k ==> (#[trigger] imports[i]).namespace_import != Some(namespace)
                || module_file(d, dir, imports[i].module) is None,
    ensures
        direct_edge(d, namespace.push('.') + member, name, caller_file, imports) == Some(
            (f, member),
        ),
{
    let full = namespace.push('.') + member;
    assert(full =~= namespace + (seq!['.'] + member));
    lemma_char_behind(namespace, '.', seq!['.'] + member);
    assert(full.take(namespace.len() as int) =~= namespace);
    assert(full.skip(namespace.len() as int + 1) =~= member);
    lemma_namespace_file(d, dir, imports, namespace, 0, k);
}

/// Whether the first name of a call, before its dot, is one under which a module that is there
/// was imported.
pub open spec fn leads_into_a_module(
    d: Disk,
    dir: Seq<char>,
    full: Seq<char>,
    imports: Seq<ImportModel>,
) -> bool {
    exists|namespace: Seq<char>, i: int|
        0 <= i < imports.len() && (#[trigger] imports[i]).namespace_import == Some(namespace)
            && module_file(d, dir, imports[i].module) is Some && #[trigger] namespace.push(
            '.',
        ).is_prefix_of(full) && !namespace.contains('.')
}

proof fn lemma_no_module(d: Disk, dir: Seq<char>, full: Seq<char>, imports: Seq<ImportModel>)
    requires
        !leads_into_a_module(d, dir, full, imports),
    ensures
        match find_char_from(full, '.', 0) {
            Some(dot) => namespace_file(d, dir, imports, full.take(dot), 0) is None,
            None => true,
        },
{
    lemma_char_found(full, '.', 0);
    match find_char_from(full, '.', 0) {
        Some(dot) => {
            let namespace = full.take(dot);
            assert(!namespace.contains('.'));
            assert(namespace.push('.') =~= full.take(dot + 1));
            assert(namespace.push('.').is_prefix_of(full));
            assert forall|i: int| 0 <= i < imports.len() implies (
            #[trigger] imports[i]).namespace_import != Some(namespace) || module_file(
                d,
                dir,
                imports[i].module,
            ) is None by {}
            lemma_namespace_file(d, dir, imports, namespace, 0, imports.len() as int);
        },
        None => {},
    }
}

/// Whether an import, whose module is there, brings a name: by itself or as the module's default.
pub open spec fn brings(d: Disk, dir: Seq<char>, i: ImportModel, name: Seq<char>) -> bool {
    module_file(d, dir, i.module) is Some && (i.names.contains(name) || i.default_import == Some(
        name,
    ))
}

proof fn lemma_named_import(
    d: Disk,
    dir: Seq<char>,
    imports: Seq<ImportModel>,
    name: Seq<char>,
    from: int,
    k: int,
)
    requires
        0 <= from <= k <= imports.len(),
        forall|i: int| from <= i < k ==> !brings(d, dir, #[trigger] imports[i], name),
        k < imports.len() ==> brings(d, dir, imports[k], name),
    ensures
        k == imports.len() ==> named_import(d, dir, imports, name, from) is None,
        k < imports.len() ==> named_import(d, dir, imports, name, from) == Some(
            (
                module_file(d, dir, imports[k].module)->0,
                if imports[k].names.contains(name) {
                    name
                } else {
                    "default"@
                },
            ),
        ),
    decreases k - from,
{
    if from < k {
        assert(!brings(d, dir, imports[from], name));
        lemma_named_import(d, dir, imports, name, from + 1, k);
    }
}

/// A call of an imported name leads to the symbol of that name in the file of the first import
/// that brings it, and to the default of that file where the import brings it as the default.
pub proof fn imported_names_are_found_in_their_file(
    d: Disk,
    full: Seq<char>,
    name: Seq<char>,
    caller_file: Seq<char>,
    imports: Seq<ImportModel>,
    k: int,
    dir: Seq<char>,
)
    requires
        path_parent(caller_file) == Some(dir),
        !leads_into_a_module(d, dir, full, imports),
        0 <= k < imports.len(),
        brings(d, dir, imports[k], name),
        forall|i: int| 0 <= i < k ==> !brings(d, dir, #[trigger] imports[i], name),
    ensures
        ({
            let f = module_file(d, dir, imports[k].module)->0;
            let r = direct_edge(d, full, name, caller_file, imports);
            &&& imports[k].names.contains(name) ==> r == Some((f, name))
            &&& !imports[k].names.contains(name) ==> r == Some((f, "default"@))
        }),
{
    lemma_no_module(d, dir, full, imports);
    lemma_named_import(d, dir, imports, name, 0, k);
}

/// Whether an import gives something the name `name`: its text has `original as name`, and the
/// place is the first one with ` as name`.
pub open spec fn renames(raw: Seq<char>, original: Seq<char>, name: Seq<char>, at: int) -> bool {
    &&& 0 <= at <= raw.len() - (4 + name.len())
    &&& raw.subrange(at, at + 4 + name.len()) == " as "@ + name
    &&& forall|k: int|
        0 <= k < at ==> #[trigger] raw.subrange(k, k + 4 + name.len()) != " as "@ + name
    &&& 0 < original.len() <= at
    &&& raw.subrange(at - original.len(), at) == original
    &&& forall|k: int|
        0 <= k < original.len() ==> (#[trigger] original[k]) != '{' && original[k] != ','
            && !white_space(original[k])
    &&& at - original.len() > 0 ==> {
        let c = raw[at - original.len() - 1];
        c == '{' || c == ',' || white_space(c)
    }
}

proof fn lemma_behind(head: Seq<char>, word: Seq<char>)
    requires
        forall|k: int| 0 <= k < word.len() ==> !name_separator(#[trigger] word[k]),
        head.len() > 0 ==> name_separator(head.last()),
    ensures
        behind_separators(head + word) == word,
    decreases word.len(),
{
    if word.len() == 0 {
        assert(head + word =~= head);
        assert(behind_separators(head) =~= word);
    } else {
        assert((head + word).drop_last() =~= head + word.drop_last());
        assert((head + word).last() == word.last());
        assert(word[word.len() - 1] == word.last());
        assert forall|k: int| 0 <= k < word.len() - 1 implies !name_separator(
            #[trigger] word.drop_last()[k],
        ) by {
            assert(word.drop_last()[k] == word[k]);
        }
        lemma_behind(head, word.drop_last());
        assert(word.drop_last().push(word.last()) =~= word);
    }
}

proof fn lemma_alias(raw: Seq<char>, original: Seq<char>, name: Seq<char>, at: int)
    requires
        renames(raw, original, name, at),
    ensures
        alias_original(raw, name) == Some(original),
{
    reveal_strlit(" as ");
    let needle = " as "@ + name;
    assert(needle.len() == 4 + name.len());
    lemma_find_from(raw, needle, 0);
    let pos = find_from(raw, needle, 0);
    assert(raw.subrange(at, at + needle.len()) == needle);
    match pos {
        Some(p) => {
            if p < at {
                assert(raw.subrange(p, p + 4 + name.len()) == needle);
            }
            assert(p == at);
        },
        None => {},
    }
    let head = raw.take(at - original.len());
    assert(raw.take(at) =~= head + original) by {
        assert(raw.subrange(at - original.len(), at) =~= original);
    }
    assert(raw.take(at).last() == original.last());
    assert(original[original.len() - 1] == original.last());
    assert(without_separators(raw.take(at)) == raw.take(at));
    assert forall|k: int| 0 <= k < original.len() implies !name_separator(
        #[trigger] original[k],
    ) by {}
    if head.len() > 0 {
        assert(head.last() == raw[at - original.len() - 1]);
    }
    lemma_behind(head, original);
}

/// A call of a name that an import gives to something else leads to that something in the file of
/// the first import that does so.
pub proof fn renamed_imports_are_found_under_their_own_name(
    d: Disk,
    full: Seq<char>,
    name: Seq<char>,
    caller_file: Seq<char>,
    imports: Seq<ImportModel>,
    k: int,
    dir: Seq<char>,
    f: Seq<char>,
    original: Seq<char>,
    at: int,
)
    requires
        path_parent(caller_file) == Some(dir),
        !leads_into_a_module(d, dir, full, imports),
        forall|i: int| 0 <= i < imports.len() ==> !brings(d, dir, #[trigger] imports[i], name),
        0 <= k < imports.len(),
        module_file(d, dir, imports[k].module) == Some(f),
        renames(imports[k].raw_text, original, name, at),
        forall|i: int|
            0 <= i < k ==> module_file(d, dir, (#[trigger] imports[i]).module) is None || !occurs(
                imports[i].raw_text,
                " as "@ + name,
            ),
    ensures
        direct_edge(d, full, name, caller_file, imports) == Some((f, original)),
{
    lemma_no_module(d, dir, full, imports);
    lemma_named_import(d, dir, imports, name, 0, imports.len() as int);
    lemma_alias(imports[k].raw_text, original, name, at);
    lemma_aliased_import(d, dir, imports, name, 0, k);
}

proof fn lemma_aliased_import(
    d: Disk,
    dir: Seq<char>,
    imports: Seq<ImportModel>,
    name: Seq<char>,
    from: int,
    k: int,
)
    requires
        0 <= from <= k < imports.len(),
        alias_original(imports[k].raw_text, name) is Some,
        module_file(d, dir, imports[k].module) is Some,
        forall|i: int|
            0 <= i < k ==> module_file(d, dir, (#[trigger] imports[i]).module) is None || !occurs(
                imports[i].raw_text,
                " as "@ + name,
            ),
    ensures
        aliased_import(d, dir, imports, name, from) == Some(
            (
                module_file(d, dir, imports[k].module)->0,
                alias_original(imports[k].raw_text, name)->0,
            ),
        ),
    decreases k - from,
{
    if from < k {
        assert(module_file(d, dir, imports[from].module) is None || !occurs(
            imports[from].raw_text,
            " as "@ + name,
        ));
        lemma_aliased_import(d, dir, imports, name, from + 1, k);
    }
}

/// A call that no import of its own leads from leads to the first of the files that exports the
/// name, under that name, and nowhere where none does.
pub proof fn exported_names_are_found_in_the_first_file(
    files: Seq<Seq<char>>,
    exports: spec_fn(Seq<char>) -> bool,
    name: Seq<char>,
    from: int,
    k: int,
)
    requires
        0 <= from <= k <= files.len(),
        forall|i: int| from <= i < k ==> !exports(#[trigger] files[i]),
        k < files.len() ==> exports(files[k]),
    ensures
        k < files.len() ==> exported_edge(files, exports, name, from) == (EdgeModel::Resolved {
            file: files[k],
            symbol: name,
        }),
        k == files.len() ==> exported_edge(files, exports, name, from) == (EdgeModel::Unresolved {
            callee_name: name,
        }),
    decreases k - from,
{
    if from < k {
        assert(!exports(files[from]));
        exported_names_are_found_in_the_first_file(files, exports, name, from + 1, k);
    }
}

} // verus!
