//! The filters for the output of commands.
use vstd::prelude::*;

use crate::models::{group_models, models};
use crate::order::{sort_list, sorted, Ranked};
use crate::paths::{
    extension, extension_of, file_name, file_stem, name_of, name_stem, path_less, path_lt,
};
use crate::text::{owned, same, texts};

verus! {

/// A filter as its definition was read.
pub struct FilterDefinition {
    pub name: String,
    pub matches: Vec<String>,
    pub description: Option<String>,
}

/// Where a filter comes from.
#[derive(Clone, Copy, Debug, PartialEq, Eq, Structural)]
pub enum FilterOrigin {
    Builtin,
    User,
    Project,
}

impl FilterOrigin {
    /// The name of the origin.
    pub open spec fn label(self) -> Seq<char> {
        match self {
            FilterOrigin::Builtin => "builtin"@,
            FilterOrigin::User => "user"@,
            FilterOrigin::Project => "project"@,
        }
    }

    /// The name of the origin of a filter that cannot be read.
    pub open spec fn invalid_label(self) -> Seq<char> {
        match self {
            FilterOrigin::Builtin => "builtin_invalid"@,
            FilterOrigin::User => "user_invalid"@,
            FilterOrigin::Project => "project_invalid"@,
        }
    }
}

fn origin_label(origin: FilterOrigin, valid: bool) -> (r: &'static str)
    ensures
        r@ == (if valid {
            origin.label()
        } else {
            origin.invalid_label()
        }),
{
    match (origin, valid) {
        (FilterOrigin::Builtin, true) => "builtin",
        (FilterOrigin::User, true) => "user",
        (FilterOrigin::Project, true) => "project",
        (FilterOrigin::Builtin, false) => "builtin_invalid",
        (FilterOrigin::User, false) => "user_invalid",
        (FilterOrigin::Project, false) => "project_invalid",
    }
}

/// What is told of a filter.
pub struct FilterEntry {
    pub name: String,
    pub source: String,
    pub source_path: Option<String>,
    pub matches: Vec<String>,
    pub description: Option<String>,
    pub content: String,
    pub trusted: Option<bool>,
    pub error: Option<String>,
}

/// The model of a `FilterEntry`.
#[verifier::ext_equal]
pub ghost struct Filter {
    pub name: Seq<char>,
    pub source: Seq<char>,
    pub path: Option<Seq<char>>,
    pub matches: Seq<Seq<char>>,
    pub description: Option<Seq<char>>,
    pub content: Seq<char>,
    pub trusted: Option<bool>,
    pub error: Option<Seq<char>>,
}

impl DeepView for FilterEntry {
    type V = Filter;

    open spec fn deep_view(&self) -> Filter {
        Filter {
            name: self.name@,
            source: self.source@,
            path: self.source_path.deep_view(),
            matches: texts(self.matches@),
            description: self.description.deep_view(),
            content: self.content@,
            trusted: self.trusted,
            error: self.error.deep_view(),
        }
    }
}

/// What is told of a filter that was read; only one of a project can be trusted or not.
pub open spec fn told_filter(
    f: FilterDefinition,
    origin: FilterOrigin,
    path: Seq<char>,
    content: Seq<char>,
    trusted: Option<bool>,
) -> Filter {
    Filter {
        name: f.name@,
        source: origin.label(),
        path: if origin is Builtin {
            None
        } else {
            Some(path)
        },
        matches: texts(f.matches@),
        description: f.description.deep_view(),
        content,
        trusted: if origin is Project {
            trusted
        } else {
            None
        },
        error: None,
    }
}

/// What is told of a filter that was read.
pub fn entry_from_filter(
    filter: FilterDefinition,
    origin: FilterOrigin,
    path: &str,
    content: &str,
    trusted: Option<bool>,
) -> (r: FilterEntry)
    ensures
        r.deep_view() == told_filter(filter, origin, path@, content@, trusted),
{
    let source_path = match origin {
        FilterOrigin::Builtin => None,
        _ => Some(owned(path)),
    };
    let trusted = match origin {
        FilterOrigin::Project => trusted,
        _ => None,
    };
    FilterEntry {
        name: filter.name,
        source: owned(origin_label(origin, true)),
        source_path,
        matches: filter.matches,
        description: filter.description,
        content: owned(content),
        trusted,
        error: None,
    }
}

/// What is told of a filter that cannot be read.
pub open spec fn told_invalid(
    name: Seq<char>,
    origin: FilterOrigin,
    path: Seq<char>,
    content: Seq<char>,
    error: Seq<char>,
    trusted: Option<bool>,
) -> Filter {
    Filter {
        name,
        source: origin.invalid_label(),
        path: Some(path),
        matches: Seq::empty(),
        description: None,
        content,
        trusted,
        error: Some(error),
    }
}

/// What is told of a filter that cannot be read.
pub fn invalid_entry(
    name: String,
    origin: FilterOrigin,
    path: &str,
    content: &str,
    error: &str,
    trusted: Option<bool>,
) -> (r: FilterEntry)
    ensures
        r.deep_view() == told_invalid(name@, origin, path@, content@, error@, trusted),
{
    let r = FilterEntry {
        name,
        source: owned(origin_label(origin, false)),
        source_path: Some(owned(path)),
        matches: Vec::new(),
        description: None,
        content: owned(content),
        trusted,
        error: Some(owned(error)),
    };
    assert(texts(r.matches@) =~= Seq::<Seq<char>>::empty());
    r
}

/// What is told of a built-in filter, by its name, its text and what reading it gave.
pub fn builtin_entry(name: &str, content: &str, parsed: Result<FilterDefinition, String>) -> (r:
    FilterEntry)
    ensures
        match parsed {
            Ok(f) => r.deep_view() == told_filter(f, FilterOrigin::Builtin, ""@, content@, None),
            Err(e) => r.deep_view() == (Filter {
                name: name@,
                source: "builtin_invalid"@,
                path: None,
                matches: seq![name@],
                description: None,
                content: content@,
                trusted: None,
                error: Some(e@),
            }),
        },
{
    match parsed {
        Ok(f) => entry_from_filter(f, FilterOrigin::Builtin, "", content, None),
        Err(e) => {
            let mut matches: Vec<String> = Vec::new();
            matches.push(owned(name));
            assert(texts(matches@) =~= seq![name@]);
            FilterEntry {
                name: owned(name),
                source: owned("builtin_invalid"),
                source_path: None,
                matches,
                description: None,
                content: owned(content),
                trusted: None,
                error: Some(e),
            }
        },
    }
}

/// A file in a directory of filters: its text, or why it cannot be read, and what reading its
/// definition gave.
pub struct FilterFile {
    pub path: String,
    pub content: Result<String, String>,
    pub parsed: Result<FilterDefinition, String>,
}

impl DeepView for FilterFile {
    type V = FilterFile;

    open spec fn deep_view(&self) -> FilterFile {
        *self
    }
}

impl Ranked for FilterFile {
    open spec fn before(a: FilterFile, b: FilterFile) -> bool {
        path_lt(a.path@, b.path@)
    }

    fn precedes(&self, other: &FilterFile) -> (r: bool) {
        path_less(self.path.as_str(), other.path.as_str())
    }
}

/// The name of a filter, by its file.
pub open spec fn filter_name(path: Seq<char>) -> Seq<char> {
    match name_of(path) {
        Some(name) => name_stem(name),
        None => "<unknown>"@,
    }
}

/// What is told of a file in a directory of filters.
pub open spec fn told_file(f: FilterFile, origin: FilterOrigin, trusted: Option<bool>) -> Filter {
    match f.content {
        Err(e) => told_invalid(filter_name(f.path@), origin, f.path@, ""@, e@, trusted),
        Ok(content) => match f.parsed {
            Ok(def) => told_filter(def, origin, f.path@, content@, trusted),
            Err(e) => told_invalid(filter_name(f.path@), origin, f.path@, content@, e@, trusted),
        },
    }
}

/// The files of a directory that can hold filters.
pub open spec fn toml_files(list: Seq<FilterFile>) -> Seq<FilterFile>
    decreases list.len(),
{
    if list.len() == 0 {
        Seq::empty()
    } else if extension_of(list.last().path@) == Some("toml"@) {
        toml_files(list.drop_last()).push(list.last())
    } else {
        toml_files(list.drop_last())
    }
}

/// What is told of the filters in a directory, in the order of their paths.
pub open spec fn told_files(list: Seq<FilterFile>, origin: FilterOrigin, trusted: Option<bool>) -> Seq<
    Filter,
> {
    sorted::<FilterFile>(toml_files(list)).map_values(
        |f: FilterFile| told_file(f, origin, trusted),
    )
}

fn keep_toml(list: Vec<FilterFile>) -> (r: Vec<FilterFile>)
    ensures
        models(r@) == toml_files(models(list@)),
{
    broadcast use group_models;

    let ghost given = list@;
    let ghost all = models(given);
    let count = list.len();
    let mut rest = list;
    let mut out: Vec<FilterFile> = Vec::new();
    let mut i: usize = 0;
    assert(rest@ =~= given.skip(0));
    while i < count
        invariant
            i <= count,
            count == given.len(),
            all == models(given),
            rest@ == given.skip(i as int),
            models(out@) == toml_files(all.take(i as int)),
        decreases count - i,
    {
        let f = rest.remove(0);
        assert(f == given[i as int]);
        assert(rest@ =~= given.skip(i + 1));
        assert(all.take(i + 1).drop_last() =~= all.take(i as int));
        assert(all[i as int] == f.deep_view());
        let is_toml = match extension(f.path.as_str()) {
            Some(ext) => same(ext.as_str(), "toml"),
            None => false,
        };
        if is_toml {
            let ghost before = models(out@);
            let ghost m = f.deep_view();
            out.push(f);
            assert(models(out@) == before.push(m));
        }
        i = i + 1;
    }
    assert(all.take(i as int) =~= all);
    out
}

fn tell_file(f: FilterFile, origin: FilterOrigin, trusted: Option<bool>) -> (r: FilterEntry)
    ensures
        r.deep_view() == told_file(f, origin, trusted),
{
    let name = match file_name(f.path.as_str()) {
        Some(n) => file_stem(n.as_str()),
        None => owned("<unknown>"),
    };
    match f.content {
        Err(e) => invalid_entry(name, origin, f.path.as_str(), "", e.as_str(), trusted),
        Ok(content) => match f.parsed {
            Ok(def) => entry_from_filter(def, origin, f.path.as_str(), content.as_str(), trusted),
            Err(e) => invalid_entry(
                name,
                origin,
                f.path.as_str(),
                content.as_str(),
                e.as_str(),
                trusted,
            ),
        },
    }
}

/// What is told of the filters in a directory.
pub fn read_filter_dir(files: Vec<FilterFile>, origin: FilterOrigin, trusted: Option<bool>) -> (r:
    Vec<FilterEntry>)
    ensures
        models(r@) == told_files(models(files@), origin, trusted),
{
    broadcast use group_models;

    let list = sort_list(keep_toml(files));
    let ghost given = list@;
    let ghost want = told_files(models(files@), origin, trusted);
    let count = list.len();
    let mut rest = list;
    let mut out: Vec<FilterEntry> = Vec::new();
    let mut i: usize = 0;
    assert(rest@ =~= given.skip(0));
    assert(models(given).len() == given.len());
    while i < count
        invariant
            i <= count,
            count == given.len(),
            count == want.len(),
            rest@ == given.skip(i as int),
            want == models(given).map_values(|f: FilterFile| told_file(f, origin, trusted)),
            models(out@) == want.take(i as int),
        decreases count - i,
    {
        let f = rest.remove(0);
        assert(f == given[i as int]);
        assert(rest@ =~= given.skip(i + 1));
        assert(models(given)[i as int] == f.deep_view());
        let e = tell_file(f, origin, trusted);
        let ghost before = models(out@);
        let ghost m = e.deep_view();
        out.push(e);
        assert(models(out@) == before.push(m));
        assert(want.take(i + 1) =~= want.take(i as int).push(m));
        i = i + 1;
    }
    assert(want.take(i as int) =~= want);
    out
}

/// What is told of all filters: the built-in ones first, then those of the user and those of
/// the project.
pub fn handle_list_filters(
    builtin: Vec<FilterEntry>,
    user: Vec<FilterFile>,
    project: Vec<FilterFile>,
    project_trusted: bool,
) -> (r: Vec<FilterEntry>)
    ensures
        models(r@) == models(builtin@) + told_files(models(user@), FilterOrigin::User, None)
            + told_files(models(project@), FilterOrigin::Project, Some(project_trusted)),
{
    broadcast use group_models;

    let mut out = builtin;
    let mut from_user = read_filter_dir(user, FilterOrigin::User, None);
    out.append(&mut from_user);
    let mut from_project = read_filter_dir(project, FilterOrigin::Project, Some(project_trusted));
    out.append(&mut from_project);
    out
}

/// A filter is told by its name, its origin and its content; one of the program has no path, and
/// only one of a project can be trusted or not. One that cannot be read is told with why.
pub proof fn filters_are_told_with_their_origin(
    f: FilterDefinition,
    origin: FilterOrigin,
    path: Seq<char>,
    content: Seq<char>,
    trusted: Option<bool>,
    why: Seq<char>,
    name: Seq<char>,
)
    ensures
        ({
            let r = told_filter(f, origin, path, content, trusted);
            &&& r.name == f.name@
            &&& r.content == content
            &&& r.matches == texts(f.matches@)
            &&& r.description == f.description.deep_view()
            &&& r.error is None
            &&& origin is Builtin ==> r.source == "builtin"@ && r.path is None && r.trusted is None
            &&& origin is User ==> r.source == "user"@ && r.path == Some(path) && r.trusted is None
            &&& origin is Project ==> r.source == "project"@ && r.path == Some(path) && r.trusted
                == trusted
        }),
        ({
            let r = told_invalid(name, origin, path, content, why, trusted);
            &&& r.name == name
            &&& r.error == Some(why)
            &&& r.path == Some(path)
            &&& r.matches.len() == 0
            &&& r.trusted == trusted
            &&& origin is User ==> r.source == "user_invalid"@
            &&& origin is Project ==> r.source == "project_invalid"@
        }),
{
}

/// Filters are read from the files with the extension `toml`, and from no others.
pub proof fn filters_stand_in_toml_files(list: Seq<FilterFile>, f: FilterFile)
    ensures
        extension_of(f.path@) == Some("toml"@) ==> toml_files(list.push(f)) == toml_files(
            list,
        ).push(f),
        extension_of(f.path@) != Some("toml"@) ==> toml_files(list.push(f)) == toml_files(list),
{
    assert(list.push(f).drop_last() =~= list);
}

/// A file of filters that can be read is told by what it defines. One that cannot is told by its own
/// name without its ending, with why.
pub proof fn files_of_filters_are_told(f: FilterFile, origin: FilterOrigin, trusted: Option<bool>)
    ensures
        ({
            let r = told_file(f, origin, trusted);
            &&& f.content is Ok && f.parsed is Ok ==> r == told_filter(
                f.parsed->Ok_0,
                origin,
                f.path@,
                (f.content->Ok_0)@,
                trusted,
            )
            &&& f.content is Ok && f.parsed is Err ==> r.error == Some((f.parsed->Err_0)@)
                && r.content == (f.content->Ok_0)@ && r.path == Some(f.path@)
            &&& f.content is Err ==> r.error == Some((f.content->Err_0)@) && r.path == Some(f.path@)
            &&& (f.content is Err || f.parsed is Err) && name_of(f.path@) is Some ==> r.name
                == name_stem(name_of(f.path@)->0)
        }),
{
}

/// The filters of a directory are told in the order of their paths, one for each file that can hold
/// one.
pub proof fn filters_are_told_in_the_order_of_their_paths(
    list: Seq<FilterFile>,
    origin: FilterOrigin,
    trusted: Option<bool>,
    i: int,
)
    ensures
        ({
            let files = sorted::<FilterFile>(toml_files(list));
            let r = told_files(list, origin, trusted);
            &&& r.len() == files.len()
            &&& 0 <= i < files.len() ==> r[i] == told_file(files[i], origin, trusted)
        }),
        forall|a: FilterFile, b: FilterFile| #[trigger]
            FilterFile::before(a, b) <==> path_lt(a.path@, b.path@),
{
}

} // verus!
