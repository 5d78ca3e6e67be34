//! Lists of the files that a pattern names.
use vstd::prelude::*;

use crate::commands::grep::{
    display_path, read_searched_path, searched_path, shown_path,
};
use crate::commands::refusal::{
    given_text, invalid, need, needed, reject, Refusal, RefusalModel,
};
use crate::groups::{
    count_under, groups_hold_every_item, indices_under, ints, keys_of, ordered_keys, under,
};
use crate::json::Json;
use crate::paths::{file_name, name_of, parent, path_parent};
use crate::text::{
    decimal, decimal_text, join, joined, owned, same, text2, text3, text4, text5, texts,
};

verus! {

/// How many files are given.
pub const MAX_GLOB_RESULTS: usize = 100;

/// How many files are shown one by one.
pub const MAX_FLAT_FILES: usize = 20;

/// How many files of a directory are shown before they are cut.
pub const MAX_FILES_PER_DIRECTORY: usize = 7;

/// How many files of a directory are shown where they are cut.
pub const MAX_DISPLAY_FILES_PER_DIRECTORY: usize = 5;

/// How many directories are shown before they are cut.
pub const MAX_DIRECTORY_SECTIONS: usize = 8;

/// How many directories are shown where they are cut.
pub const MAX_DISPLAY_DIRECTORIES: usize = 6;

/// What is said where files are left out.
pub const GLOB_TRUNCATED_MESSAGE: &'static str =
    "(Results are truncated: showing first 100 results. Consider using a more specific path or pattern.)";

/// A word for a number of things.
pub open spec fn plural(n: int, one: Seq<char>, many: Seq<char>) -> Seq<char> {
    if n == 1 {
        one
    } else {
        many
    }
}

fn pick<'a>(n: usize, one: &'a str, many: &'a str) -> (r: &'a str)
    ensures
        r@ == plural(n as int, one@, many@),
{
    if n == 1 {
        one
    } else {
        many
    }
}

/// The name of a directory as it is shown.
pub open spec fn directory_label(directory: Option<Seq<char>>) -> Seq<char> {
    match directory {
        Some(path) => if path.len() > 0 && path != "."@ {
            path + "/"@
        } else {
            "./"@
        },
        None => "./"@,
    }
}

/// The name of a directory as it is shown.
pub fn format_directory_label(directory: Option<&str>) -> (r: String)
    ensures
        r@ == directory_label(given_text(directory)),
{
    match directory {
        Some(path) => {
            if !path.is_empty() && !same(path, ".") {
                text2(path, "/")
            } else {
                owned("./")
            }
        },
        None => owned("./"),
    }
}

/// The directories of files as they are shown, one for each file.
pub open spec fn directories(files: Seq<Seq<char>>) -> Seq<Seq<char>> {
    files.map_values(|f: Seq<char>| directory_label(path_parent(f)))
}

/// The name of a file in its directory.
pub open spec fn short_name(file: Seq<char>) -> Seq<char> {
    match name_of(file) {
        Some(name) => name,
        None => file,
    }
}

/// The names of the first `n` of some files.
pub open spec fn names_at(files: Seq<Seq<char>>, list: Seq<int>) -> Seq<Seq<char>> {
    list.map_values(|i: int| short_name(files[i]))
}

/// A directory and the names of files in it.
pub ghost struct Group {
    pub directory: Seq<char>,
    pub names: Seq<Seq<char>>,
}

/// The files under their directories, in the order of the directories.
pub open spec fn grouped(files: Seq<Seq<char>>) -> Seq<Group> {
    let dirs = directories(files);
    keys_of(dirs).map_values(
        |d: Seq<char>|
            Group { directory: d, names: names_at(files, under(dirs, d, dirs.len() as int)) },
    )
}

/// The models of groups of files.
pub open spec fn group_list(v: Seq<(String, Vec<String>)>) -> Seq<Group> {
    v.map_values(|g: (String, Vec<String>)| Group { directory: g.0@, names: texts(g.1@) })
}

/// The files under their directories, in the order of the directories.
pub fn group_files_by_directory(files: &Vec<String>) -> (r: Vec<(String, Vec<String>)>)
    ensures
        group_list(r@) == grouped(texts(files@)),
{
    let ghost fs = texts(files@);
    let ghost dirs = directories(fs);
    let mut keys: Vec<String> = Vec::new();
    let mut i: usize = 0;
    while i < files.len()
        invariant
            i <= files.len(),
            fs == texts(files@),
            keys@.len() == i,
            forall|k: int|
                0 <= k < i ==> (#[trigger] keys@[k])@ == directory_label(path_parent(fs[k])),
        decreases files.len() - i,
    {
        assert(fs[i as int] == files@[i as int]@);
        let dir = match parent(files[i].as_str()) {
            Some(p) => format_directory_label(Some(p.as_str())),
            None => format_directory_label(None),
        };
        keys.push(dir);
        i = i + 1;
    }
    assert(texts(keys@) =~= dirs);
    let order = ordered_keys(&keys);
    let ghost want = grouped(fs);
    let mut out: Vec<(String, Vec<String>)> = Vec::new();
    let mut k: usize = 0;
    assert(texts(order@).len() == order@.len());
    while k < order.len()
        invariant
            k <= order.len(),
            fs == texts(files@),
            dirs == directories(fs),
            texts(keys@) == dirs,
            keys@.len() == files@.len(),
            texts(order@) == keys_of(dirs),
            want == grouped(fs),
            want.len() == order@.len(),
            group_list(out@) == want.take(k as int),
        decreases order.len() - k,
    {
        let list = indices_under(&keys, order[k].as_str());
        let ghost all = ints(list@);
        assert(texts(order@)[k as int] == order@[k as int]@);
        assert(dirs.len() == keys@.len());
        let mut names: Vec<String> = Vec::new();
        let mut j: usize = 0;
        while j < list.len()
            invariant
                j <= list.len(),
                fs == texts(files@),
                keys@.len() == files@.len(),
                all == ints(list@),
                forall|m: int| 0 <= m < list@.len() ==> (#[trigger] list@[m]) < keys@.len(),
                names@.len() == j,
                forall|m: int| 0 <= m < j ==> (#[trigger] names@[m])@ == short_name(fs[all[m]]),
            decreases list.len() - j,
        {
            assert(all[j as int] == list@[j as int]);
            let file = files[list[j]].as_str();
            assert(fs[all[j as int]] == file@);
            let name = match file_name(file) {
                Some(n) => n,
                None => owned(file),
            };
            names.push(name);
            j = j + 1;
        }
        assert(texts(names@) =~= names_at(fs, all));
        let ghost before = group_list(out@);
        let ghost g = Group { directory: order@[k as int]@, names: texts(names@) };
        out.push((owned(order[k].as_str()), names));
        assert(group_list(out@) =~= before.push(g));
        assert(want.take(k + 1) =~= want.take(k as int).push(g));
        k = k + 1;
    }
    assert(want.take(k as int) =~= want);
    out
}

/// The names of the files of a directory as they are shown: only some where there are many.
pub open spec fn shown_names(names: Seq<Seq<char>>) -> Seq<char> {
    if names.len() > MAX_FILES_PER_DIRECTORY {
        joined(names.take(MAX_DISPLAY_FILES_PER_DIRECTORY as int), ", "@) + ", ..."@
    } else {
        joined(names, ", "@)
    }
}

/// What is shown of a directory.
pub open spec fn shown_group(g: Group) -> Seq<char> {
    (g.directory + " ("@ + decimal(g.names.len()) + " "@ + plural(
        g.names.len() as int,
        "file"@,
        "files"@,
    )) + ")\n  "@ + shown_names(g.names)
}

/// How many files are in the groups from `from` on.
pub open spec fn files_from(groups: Seq<Group>, from: int) -> int
    decreases groups.len() - from,
{
    if from < 0 || from >= groups.len() {
        0
    } else {
        groups[from].names.len() + files_from(groups, from + 1)
    }
}

/// What is said of groups that are not shown.
pub open spec fn hidden_groups(groups: Seq<Group>, shown: int) -> Seq<char> {
    let files = files_from(groups, shown);
    let count = groups.len() - shown;
    ("\n\n... and "@ + decimal(files as nat) + " more "@ + plural(files, "file"@, "files"@)
        + " in "@) + decimal(count as nat) + " "@ + plural(count, "directory"@, "directories"@)
}

/// What is shown of files under their directories: only some directories where there are many.
pub open spec fn shown_groups(groups: Seq<Group>) -> Seq<char> {
    if groups.len() > MAX_DIRECTORY_SECTIONS {
        joined(
            groups.take(MAX_DISPLAY_DIRECTORIES as int).map_values(|g: Group| shown_group(g)),
            "\n\n"@,
        ) + hidden_groups(groups, MAX_DISPLAY_DIRECTORIES as int)
    } else {
        joined(groups.map_values(|g: Group| shown_group(g)), "\n\n"@)
    }
}

/// The files of a project by their paths in it.
pub open spec fn local_paths(files: Seq<Seq<char>>, root: Seq<char>) -> Seq<Seq<char>> {
    files.map_values(|f: Seq<char>| shown_path(f, root))
}

/// The text that shows the files that a pattern names.
pub open spec fn glob_text(
    files: Seq<Seq<char>>,
    pattern: Seq<char>,
    root: Seq<char>,
    truncated: bool,
) -> Seq<char> {
    let list = local_paths(files, root);
    let header = decimal(list.len()) + " "@ + plural(list.len() as int, "file"@, "files"@)
        + " matching "@ + pattern;
    let text = if list.len() == 0 {
        header
    } else if list.len() <= MAX_FLAT_FILES {
        header + "\n\n"@ + joined(list, "\n"@)
    } else {
        header + "\n\n"@ + shown_groups(grouped(list))
    };
    if truncated {
        text + "\n\n"@ + GLOB_TRUNCATED_MESSAGE@
    } else {
        text
    }
}

fn show_names(names: &Vec<String>) -> (r: String)
    ensures
        r@ == shown_names(texts(names@)),
{
    if names.len() > MAX_FILES_PER_DIRECTORY {
        let mut some: Vec<String> = Vec::new();
        let ghost want = texts(names@).take(MAX_DISPLAY_FILES_PER_DIRECTORY as int);
        let mut i: usize = 0;
        while i < MAX_DISPLAY_FILES_PER_DIRECTORY
            invariant
                i <= MAX_DISPLAY_FILES_PER_DIRECTORY < names@.len(),
                some@.len() == i,
                forall|k: int| 0 <= k < i ==> (#[trigger] some@[k])@ == names@[k]@,
            decreases MAX_DISPLAY_FILES_PER_DIRECTORY - i,
        {
            some.push(owned(names[i].as_str()));
            i = i + 1;
        }
        assert(texts(some@) =~= want);
        text2(join(&some, ", ").as_str(), ", ...")
    } else {
        join(names, ", ")
    }
}

fn show_group(g: &(String, Vec<String>)) -> (r: String)
    ensures
        r@ == shown_group(Group { directory: g.0@, names: texts(g.1@) }),
{
    assert(texts(g.1@).len() == g.1@.len());
    let head = text5(
        g.0.as_str(),
        " (",
        decimal_text(g.1.len() as u64).as_str(),
        " ",
        pick(g.1.len(), "file", "files"),
    );
    text3(head.as_str(), ")\n  ", show_names(&g.1).as_str())
}

/// How many files there are in a list of groups is no larger than the number of files.
proof fn lemma_files_from(groups: Seq<Group>, from: int)
    requires
        0 <= from <= groups.len(),
    ensures
        files_from(groups, from) >= 0,
    decreases groups.len() - from,
{
    if from < groups.len() {
        lemma_files_from(groups, from + 1);
    }
}

fn count_from(groups: &Vec<(String, Vec<String>)>, from: usize) -> (r: usize)
    requires
        from <= groups@.len(),
        files_from(group_list(groups@), from as int) <= usize::MAX,
    ensures
        r == files_from(group_list(groups@), from as int),
{
    let ghost all = group_list(groups@);
    let mut n: usize = 0;
    let mut i: usize = from;
    while i < groups.len()
        invariant
            from <= i <= groups.len(),
            all == group_list(groups@),
            n + files_from(all, i as int) == files_from(all, from as int),
            files_from(all, from as int) <= usize::MAX,
        decreases groups.len() - i,
    {
        proof {
            lemma_files_from(all, i as int + 1);
            assert(all[i as int].names == texts(groups@[i as int].1@));
        }
        n = n + groups[i].1.len();
        i = i + 1;
    }
    n
}

fn show_groups(groups: &Vec<(String, Vec<String>)>) -> (r: String)
    requires
        files_from(group_list(groups@), 0) <= usize::MAX,
    ensures
        r@ == shown_groups(group_list(groups@)),
{
    let ghost all = group_list(groups@);
    let shown: usize = if groups.len() > MAX_DIRECTORY_SECTIONS {
        MAX_DISPLAY_DIRECTORIES
    } else {
        groups.len()
    };
    let mut sections: Vec<String> = Vec::new();
    let mut i: usize = 0;
    while i < shown
        invariant
            i <= shown <= groups@.len(),
            all == group_list(groups@),
            sections@.len() == i,
            forall|k: int| 0 <= k < i ==> (#[trigger] sections@[k])@ == shown_group(all[k]),
        decreases shown - i,
    {
        assert(all[i as int] == (Group {
            directory: groups@[i as int].0@,
            names: texts(groups@[i as int].1@),
        }));
        sections.push(show_group(&groups[i]));
        i = i + 1;
    }
    let mut body = join(&sections, "\n\n");
    if groups.len() > MAX_DIRECTORY_SECTIONS {
        assert(texts(sections@) =~= all.take(shown as int).map_values(|g: Group| shown_group(g)));
        proof {
            lemma_files_upto(all, 0, shown as int);
        }
        let files = count_from(groups, shown);
        let count = groups.len() - shown;
        let head = text5(
            "\n\n... and ",
            decimal_text(files as u64).as_str(),
            " more ",
            pick(files, "file", "files"),
            " in ",
        );
        let tail = text4(
            head.as_str(),
            decimal_text(count as u64).as_str(),
            " ",
            pick(count, "directory", "directories"),
        );
        body.append(tail.as_str());
    } else {
        assert(texts(sections@) =~= all.map_values(|g: Group| shown_group(g)));
    }
    body
}

proof fn lemma_files_upto(groups: Seq<Group>, from: int, to: int)
    requires
        0 <= from <= to <= groups.len(),
    ensures
        files_from(groups, to) <= files_from(groups, from),
    decreases to - from,
{
    if from < to {
        lemma_files_upto(groups, from + 1, to);
    }
}

/// The text that shows the files that a pattern names.
pub fn format_glob_text(
    files: &Vec<String>,
    pattern: &str,
    project_root: &str,
    truncated: bool,
) -> (r: String)
    ensures
        r@ == glob_text(texts(files@), pattern@, project_root@, truncated),
{
    let ghost fs = texts(files@);
    let mut list: Vec<String> = Vec::new();
    let mut i: usize = 0;
    while i < files.len()
        invariant
            i <= files.len(),
            fs == texts(files@),
            list@.len() == i,
            forall|k: int| 0 <= k < i ==> (#[trigger] list@[k])@ == shown_path(fs[k], project_root@),
        decreases files.len() - i,
    {
        assert(fs[i as int] == files@[i as int]@);
        list.push(display_path(files[i].as_str(), project_root));
        i = i + 1;
    }
    assert(texts(list@) =~= local_paths(fs, project_root@));
    let mut text = text5(
        decimal_text(list.len() as u64).as_str(),
        " ",
        pick(list.len(), "file", "files"),
        " matching ",
        pattern,
    );
    if list.len() == 0 {
    } else if list.len() <= MAX_FLAT_FILES {
        text = text3(text.as_str(), "\n\n", join(&list, "\n").as_str());
    } else {
        let groups = group_files_by_directory(&list);
        proof {
            grouping_keeps_every_file(texts(list@));
            assert(texts(list@).len() == list@.len());
        }
        text = text3(text.as_str(), "\n\n", show_groups(&groups).as_str());
    }
    if truncated {
        text3(text.as_str(), "\n\n", GLOB_TRUNCATED_MESSAGE)
    } else {
        text
    }
}

proof fn lemma_files_are_counted(groups: Seq<Group>, files: Seq<Seq<char>>, m: int)
    requires
        groups == grouped(files),
        0 <= m <= groups.len(),
    ensures
        files_from(groups, 0) == count_under(
            directories(files),
            keys_of(directories(files)),
            files.len() as int,
            m,
        ) + files_from(groups, m),
    decreases m,
{
    if m > 0 {
        lemma_files_are_counted(groups, files, m - 1);
        let dirs = directories(files);
        let d = keys_of(dirs)[m - 1];
        assert(groups[m - 1].names == names_at(files, under(dirs, d, dirs.len() as int)));
    }
}

/// The groups of files hold every file once.
pub proof fn grouping_keeps_every_file(files: Seq<Seq<char>>)
    ensures
        files_from(grouped(files), 0) == files.len(),
{
    let groups = grouped(files);
    lemma_files_are_counted(groups, files, groups.len() as int);
    groups_hold_every_item(directories(files), files.len() as int);
}

/// A request for files.
pub struct GlobRequest {
    pub pattern: String,
    /// The path to look below, as it was validated.
    pub path: Option<String>,
}

/// The request that the parameters make. `validated` is what became of the path that they
/// name, and `filter_fault` says what is wrong with the pattern.
pub open spec fn glob_ask(
    params: Json,
    validated: Result<String, Refusal>,
    filter_fault: Option<Seq<char>>,
) -> Result<(Seq<char>, Option<Seq<char>>), RefusalModel> {
    match needed(params, "glob"@, "pattern"@) {
        Err(e) => Err(e),
        Ok(pattern) => match filter_fault {
            Some(why) => Err(invalid("glob: invalid pattern: "@ + why)),
            None => match searched_path(params, validated) {
                Err(e) => Err(e),
                Ok(path) => Ok((pattern, path)),
            },
        },
    }
}

/// The request that the parameters make.
pub fn read_glob_request(
    params: &Json,
    validated: Result<String, Refusal>,
    filter_fault: Option<&str>,
) -> (r: Result<GlobRequest, Refusal>)
    ensures
        match (r, glob_ask(*params, validated, given_text(filter_fault))) {
            (Ok(a), Ok(b)) => a.pattern@ == b.0 && a.path.deep_view() == b.1,
            (Err(e), Err(m)) => e.deep_view() == m,
            _ => false,
        },
{
    let pattern = match need(params, "glob", "pattern") {
        Ok(s) => s,
        Err(e) => {
            return Err(e);
        },
    };
    match filter_fault {
        Some(why) => {
            return Err(reject(text2("glob: invalid pattern: ", why).as_str()));
        },
        None => {},
    }
    match read_searched_path(params, validated) {
        Ok(path) => Ok(GlobRequest { pattern: owned(pattern), path }),
        Err(e) => Err(e),
    }
}

/// The files that are given, and the text that shows them.
pub struct GlobReport {
    pub text: String,
    pub files: Vec<String>,
    pub total: usize,
    pub truncated: bool,
}

/// Tells of the files that a pattern names: the first of them, where there are many.
pub fn handle_glob(files: Vec<String>, pattern: &str, project_root: &str) -> (r: GlobReport)
    ensures
        r.total == files@.len(),
        r.truncated == (files@.len() > MAX_GLOB_RESULTS),
        texts(r.files@) == (if files@.len() > MAX_GLOB_RESULTS {
            texts(files@).take(MAX_GLOB_RESULTS as int)
        } else {
            texts(files@)
        }),
        r.text@ == glob_text(texts(r.files@), pattern@, project_root@, r.truncated),
{
    let total = files.len();
    let truncated = total > MAX_GLOB_RESULTS;
    let mut list = files;
    if truncated {
        list.truncate(MAX_GLOB_RESULTS);
        assert(texts(list@) =~= texts(files@).take(MAX_GLOB_RESULTS as int));
    }
    GlobReport {
        text: format_glob_text(&list, pattern, project_root, truncated),
        files: list,
        total,
        truncated,
    }
}

/// Up to twenty files are shown one by one, by their paths in the project, and more of them under
/// their directories; how many there are and the pattern come first.
pub proof fn few_files_are_shown_one_by_one(
    files: Seq<Seq<char>>,
    pattern: Seq<char>,
    root: Seq<char>,
)
    ensures
        ({
            let local = files.map_values(|f: Seq<char>| shown_path(f, root));
            let one = files.len() == 1;
            let header = decimal(files.len()) + " "@ + (if one {
                "file"@
            } else {
                "files"@
            }) + " matching "@ + pattern;
            let r = glob_text(files, pattern, root, false);
            &&& files.len() == 0 ==> r == header
            &&& 0 < files.len() <= 20 ==> r == header + "\n\n"@ + joined(local, "\n"@)
            &&& files.len() > 20 ==> r == header + "\n\n"@ + shown_groups(grouped(local))
            &&& r.is_prefix_of(glob_text(files, pattern, root, true))
        }),
{
    let r = glob_text(files, pattern, root, false);
    let t = glob_text(files, pattern, root, true);
    assert(t =~= r + ("\n\n"@ + GLOB_TRUNCATED_MESSAGE@));
    assert(t.subrange(0, r.len() as int) =~= r);
}

/// Of a directory with more than seven files five are shown, and of all others every file; of more
/// than eight directories six are shown, and the others are counted.
pub proof fn many_files_are_shown_in_part(names: Seq<Seq<char>>, groups: Seq<Group>)
    ensures
        names.len() <= 7 ==> shown_names(names) == joined(names, ", "@),
        names.len() > 7 ==> shown_names(names) == joined(names.take(5), ", "@) + ", ..."@,
        groups.len() <= 8 ==> shown_groups(groups) == joined(
            groups.map_values(|g: Group| shown_group(g)),
            "\n\n"@,
        ),
        groups.len() > 8 ==> shown_groups(groups) == joined(
            groups.take(6).map_values(|g: Group| shown_group(g)),
            "\n\n"@,
        ) + ("\n\n... and "@ + decimal(files_from(groups, 6) as nat) + " more "@ + (if files_from(
            groups,
            6,
        ) == 1 {
            "file"@
        } else {
            "files"@
        }) + " in "@) + decimal((groups.len() - 6) as nat) + " "@ + (if groups.len() == 7 {
            "directory"@
        } else {
            "directories"@
        }),
{
    if groups.len() > 8 {
        let files = files_from(groups, 6);
        let head = joined(groups.take(6).map_values(|g: Group| shown_group(g)), "\n\n"@);
        let said = "\n\n... and "@ + decimal(files as nat) + " more "@ + (if files == 1 {
            "file"@
        } else {
            "files"@
        }) + " in "@;
        let count = decimal((groups.len() - 6) as nat);
        assert(head + (said + count + " "@ + "directories"@) =~= head + said + count + " "@
            + "directories"@);
    }
}

/// A request names a pattern and is refused without one, with a bad one, and with a path that is
/// refused; it searches below its path, or everywhere where it names none.
pub proof fn glob_requests_are_taken_as_written(
    params: Json,
    validated: Result<String, Refusal>,
    fault: Option<Seq<char>>,
)
    ensures
        match glob_ask(params, validated, fault) {
            Ok(r) => params.text_field("pattern"@) == Some(r.0) && fault is None && (
            params.text_field("path"@) is None ==> r.1 is None) && (params.text_field(
                "path"@,
            ) is Some ==> validated is Ok && r.1 == Some((validated->Ok_0)@)),
            Err(_) => params.text_field("pattern"@) is None || fault is Some || (params.text_field(
                "path"@,
            ) is Some && validated is Err),
        },
{
}

} // verus!
