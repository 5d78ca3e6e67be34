//! What a project's files are, as plain data.
use vstd::prelude::*;

use crate::callgraph::model::{ImportBlock, ImportModel};
use crate::models::{get_entry, models, table_get, Entry};
use crate::paths::{
    normalize_components, normalized, path_components, plain_path, render, rendered,
};
use crate::symbols::SymbolKind;
use crate::text::{contains_text, owned};

verus! {

/// A symbol of a file.
#[derive(Debug)]
pub struct Symbol {
    pub name: String,
    pub kind: SymbolKind,
    /// The lines, counted from zero, and the columns between which the symbol stands.
    pub start_line: u32,
    pub start_col: u32,
    pub end_line: u32,
    pub end_col: u32,
    pub exported: bool,
    pub signature: Option<String>,
}

/// The model of a `Symbol`.
#[verifier::ext_equal]
pub ghost struct SymbolModel {
    pub name: Seq<char>,
    pub kind: SymbolKind,
    pub start_line: nat,
    pub start_col: nat,
    pub end_line: nat,
    pub end_col: nat,
    pub exported: bool,
    pub signature: Option<Seq<char>>,
}

impl DeepView for Symbol {
    type V = SymbolModel;

    open spec fn deep_view(&self) -> SymbolModel {
        SymbolModel {
            name: self.name@,
            kind: self.kind,
            start_line: self.start_line as nat,
            start_col: self.start_col as nat,
            end_line: self.end_line as nat,
            end_col: self.end_col as nat,
            exported: self.exported,
            signature: self.signature.deep_view(),
        }
    }
}

/// A file of the project.
pub struct SourceFile {
    /// The source text, or why it cannot be read.
    pub content: Result<String, String>,
    /// The symbols; none where they cannot be listed.
    pub symbols: Vec<Symbol>,
    /// The import statements.
    pub imports: ImportBlock,
}

/// The model of a `SourceFile`.
pub ghost struct SourceModel {
    pub content: Result<Seq<char>, Seq<char>>,
    pub symbols: Seq<SymbolModel>,
    pub imports: Seq<ImportModel>,
}

impl DeepView for SourceFile {
    type V = SourceModel;

    open spec fn deep_view(&self) -> SourceModel {
        SourceModel {
            content: match self.content {
                Ok(s) => Ok(s@),
                Err(e) => Err(e@),
            },
            symbols: models(self.symbols@),
            imports: models(self.imports.imports@),
        }
    }
}

/// The files and directories that the call graph can see.
pub struct Worktree {
    /// The files, by their canonical paths.
    pub files: Vec<Entry<SourceFile>>,
    /// The canonical paths of the directories.
    pub dirs: Vec<String>,
    /// The canonical paths behind other names.
    pub links: Vec<Entry<String>>,
    /// The project's source files, in the order in which they are found.
    pub project_files: Vec<String>,
}

/// The model of a `Worktree`.
pub ghost struct Disk {
    pub files: Seq<(Seq<char>, SourceModel)>,
    pub dirs: Seq<Seq<char>>,
    pub links: Seq<(Seq<char>, Seq<char>)>,
    pub project_files: Seq<Seq<char>>,
}

impl View for Worktree {
    type V = Disk;

    open spec fn view(&self) -> Disk {
        Disk {
            files: models(self.files@),
            dirs: models(self.dirs@),
            links: models(self.links@),
            project_files: models(self.project_files@),
        }
    }
}

/// The text of the error about a file that is not there.
pub open spec fn no_such_file() -> Seq<char> {
    "No such file or directory (os error 2)"@
}

impl Disk {
    /// The canonical path behind a path: what a link leads to, or the path itself
    /// without `.` and `..`; `None` where nothing is there.
    pub open spec fn canonical(self, p: Seq<char>) -> Option<Seq<char>> {
        match table_get(self.links, p) {
            Some(t) => Some(t),
            None => {
                let n = rendered(normalized(path_components(p)));
                if table_get(self.files, n) is Some || self.dirs.contains(n) {
                    Some(n)
                } else {
                    None
                }
            },
        }
    }

    /// Whether the paths that are kept as canonical ones, and those of the project's files, are
    /// plain.
    pub open spec fn plain(self) -> bool {
        &&& forall|i: int| 0 <= i < self.files.len() ==> plain_path((#[trigger] self.files[i]).0)
        &&& forall|i: int| 0 <= i < self.dirs.len() ==> plain_path(#[trigger] self.dirs[i])
        &&& forall|i: int| 0 <= i < self.links.len() ==> plain_path((#[trigger] self.links[i]).1)
        &&& forall|i: int|
            0 <= i < self.project_files.len() ==> plain_path(#[trigger] self.project_files[i])
    }

    /// The file at a path.
    pub open spec fn file_at(self, p: Seq<char>) -> Option<SourceModel> {
        match self.canonical(p) {
            Some(c) => table_get(self.files, c),
            None => None,
        }
    }

    /// Whether a path leads to a file.
    pub open spec fn is_file(self, p: Seq<char>) -> bool {
        self.file_at(p) is Some
    }

    /// Whether a path leads to a directory.
    pub open spec fn is_dir(self, p: Seq<char>) -> bool {
        match self.canonical(p) {
            Some(c) => self.dirs.contains(c),
            None => false,
        }
    }

    /// The source text at a path, or why it cannot be read.
    pub open spec fn content(self, p: Seq<char>) -> Result<Seq<char>, Seq<char>> {
        match self.file_at(p) {
            Some(f) => f.content,
            None => Err(no_such_file()),
        }
    }

    /// The symbols of the file at a path.
    pub open spec fn symbols(self, p: Seq<char>) -> Seq<SymbolModel> {
        match self.file_at(p) {
            Some(f) => f.symbols,
            None => Seq::empty(),
        }
    }

    /// The import statements of the file at a path.
    pub open spec fn imports(self, p: Seq<char>) -> Seq<ImportModel> {
        match self.file_at(p) {
            Some(f) => f.imports,
            None => Seq::empty(),
        }
    }

    /// The canonical path behind a path, or the path where nothing is there.
    pub open spec fn canonical_or_self(self, p: Seq<char>) -> Seq<char> {
        match self.canonical(p) {
            Some(c) => c,
            None => p,
        }
    }
}

impl Worktree {
    /// The canonical path behind a path.
    pub fn canonicalize(&self, p: &str) -> (r: Option<String>)
        ensures
            r.deep_view() == self@.canonical(p@),
    {
        match get_entry(&self.links, p) {
            Some(t) => {
                return Some(t.clone());
            },
            None => {},
        }
        let list = normalize_components(p);
        let n = render(&list);
        if get_entry(&self.files, n.as_str()).is_some() || contains_text(&self.dirs, n.as_str()) {
            Some(n)
        } else {
            None
        }
    }

    /// The canonical path behind a path, or the path where nothing is there.
    pub fn canonicalize_or(&self, p: &str) -> (r: String)
        ensures
            r@ == self@.canonical_or_self(p@),
    {
        match self.canonicalize(p) {
            Some(c) => c,
            None => owned(p),
        }
    }

    /// The file at a path.
    pub fn file(&self, p: &str) -> (r: Option<&SourceFile>)
        ensures
            match r {
                Some(f) => self@.file_at(p@) == Some(f.deep_view()),
                None => self@.file_at(p@) is None,
            },
    {
        match self.canonicalize(p) {
            Some(c) => get_entry(&self.files, c.as_str()),
            None => None,
        }
    }

    /// Whether a path leads to a file.
    pub fn is_file(&self, p: &str) -> (r: bool)
        ensures
            r == self@.is_file(p@),
    {
        self.file(p).is_some()
    }

    /// Whether a path leads to a directory.
    pub fn is_dir(&self, p: &str) -> (r: bool)
        ensures
            r == self@.is_dir(p@),
    {
        match self.canonicalize(p) {
            Some(c) => contains_text(&self.dirs, c.as_str()),
            None => false,
        }
    }
}

} // verus!
