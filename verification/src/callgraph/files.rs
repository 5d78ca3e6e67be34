//! Which files of a project are its source files.
use vstd::prelude::*;

use crate::lang::{detect_language, path_lang};
use crate::models::{group_models, models};
use crate::paths::{comps, components, path_components, path_relative, relative_to, Comp, Component};
use crate::text::{owned, same};

verus! {

/// The names of directories that are never looked into.
pub open spec fn skipped_dir(name: Seq<char>) -> bool {
    name == "node_modules"@ || name == "target"@ || name == "venv"@ || name == ".venv"@ || name
        == ".git"@ || name == "__pycache__"@ || name == ".tox"@ || name == "dist"@ || name
        == "build"@
}

/// Whether a directory is never looked into, by its name.
pub fn is_skipped_dir(name: &str) -> (r: bool)
    ensures
        r == skipped_dir(name@),
{
    same(name, "node_modules") || same(name, "target") || same(name, "venv") || same(name, ".venv")
        || same(name, ".git") || same(name, "__pycache__") || same(name, ".tox") || same(
        name,
        "dist",
    ) || same(name, "build")
}

/// Whether a directory that a path goes through is never looked into.
pub open spec fn through_skipped(list: Seq<Comp>) -> bool {
    exists|i: int|
        0 <= i < list.len() - 1 && match #[trigger] list[i] {
            Comp::Name(name) => skipped_dir(name),
            _ => false,
        }
}

/// Whether a file that was found below a root is a source file of the project: its language is
/// known, and no directory below the root that leads to it is left out.
pub open spec fn is_project_file(root: Seq<char>, path: Seq<char>) -> bool {
    path_lang(path) is Some && !through_skipped(path_components(path_relative(path, root)))
}

fn goes_through_skipped(list: &Vec<Component>) -> (r: bool)
    ensures
        r == through_skipped(comps(list@)),
{
    let ghost all = comps(list@);
    let mut i: usize = 0;
    while i < list.len()
        invariant
            i <= list.len(),
            all == comps(list@),
            forall|k: int|
                0 <= k < i && k < all.len() - 1 ==> !match #[trigger] all[k] {
                    Comp::Name(name) => skipped_dir(name),
                    _ => false,
                },
        decreases list.len() - i,
    {
        assert(all[i as int] == list@[i as int]@);
        if i < list.len() - 1 {
            let skipped = match &list[i] {
                Component::Normal(name) => is_skipped_dir(name.as_str()),
                _ => false,
            };
            if skipped {
                return true;
            }
        }
        i = i + 1;
    }
    false
}

/// The project files among the files that were found.
pub open spec fn project_files_of(root: Seq<char>, found: Seq<Seq<char>>) -> Seq<Seq<char>> {
    found.filter(|p: Seq<char>| is_project_file(root, p))
}

/// The source files of a project, among the files that a walk below its root found, in the
/// order in which they were found.
pub fn walk_project_files(root: &str, found: &Vec<String>) -> (r: Vec<String>)
    ensures
        models(r@) == project_files_of(root@, models(found@)),
{
    broadcast use group_models;

    let ghost all = models(found@);
    let ghost keep = |p: Seq<char>| is_project_file(root@, p);
    let mut out: Vec<String> = Vec::new();
    let mut i: usize = 0;
    assert(all.take(0) =~= Seq::empty());
    proof {
        reveal(Seq::filter);
    }
    while i < found.len()
        invariant
            i <= found.len(),
            all == models(found@),
            keep == (|p: Seq<char>| is_project_file(root@, p)),
            models(out@) == all.take(i as int).filter(keep),
        decreases found.len() - i,
    {
        let path = found[i].as_str();
        proof {
            reveal(Seq::filter);
            assert(all.take(i + 1).drop_last() =~= all.take(i as int));
            assert(all.take(i + 1).last() == found@[i as int]@);
        }
        let seen = relative_to(path, root);
        let list = components(seen.as_str());
        if detect_language(path).is_some() && !goes_through_skipped(&list) {
            let ghost before = models(out@);
            let kept = owned(path);
            let ghost m = kept.deep_view();
            out.push(kept);
            assert(models(out@) == before.push(m));
        }
        i = i + 1;
    }
    assert(all.take(all.len() as int) =~= all);
    out
}

/// A file of a known language is one of the project's files unless a directory between the root
/// and the file is one that holds what was fetched or made.
pub proof fn fetched_and_made_files_are_left_out(root: Seq<char>, path: Seq<char>, i: int)
    requires
        path_lang(path) is Some,
    ensures
        ({
            let steps = path_components(path_relative(path, root));
            let left_out = |name: Seq<char>|
                name == "node_modules"@ || name == "target"@ || name == "venv"@ || name == ".venv"@
                    || name == ".git"@ || name == "__pycache__"@ || name == ".tox"@ || name
                    == "dist"@ || name == "build"@;
            &&& 0 <= i < steps.len() - 1 && steps[i] is Name && left_out(steps[i]->Name_0)
                ==> !is_project_file(root, path)
            &&& (forall|k: int|
                0 <= k < steps.len() - 1 && (#[trigger] steps[k]) is Name ==> !left_out(
                    steps[k]->Name_0,
                )) ==> is_project_file(root, path)
        }),
{
}

/// The files of a project are those that were found and belong to it, in the order in which they were
/// found.
pub proof fn project_files_are_those_that_were_found(
    root: Seq<char>,
    found: Seq<Seq<char>>,
    p: Seq<char>,
)
    ensures
        is_project_file(root, p) ==> project_files_of(root, found.push(p)) == project_files_of(
            root,
            found,
        ).push(p),
        !is_project_file(root, p) ==> project_files_of(root, found.push(p)) == project_files_of(
            root,
            found,
        ),
{
    reveal(Seq::filter);
    assert(found.push(p).drop_last() =~= found);
}

} // verus!
