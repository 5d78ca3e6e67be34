//! The languages that source files are written in.
use vstd::prelude::*;

use crate::paths::{extension, extension_of};
use crate::text::{ascii_lowered, same};

verus! {

/// The language of a source file.
#[derive(Clone, Copy, Debug, PartialEq, Eq, Structural)]
pub enum LangId {
    TypeScript,
    Tsx,
    JavaScript,
    Python,
    Rust,
    Go,
    C,
    Cpp,
    Zig,
    CSharp,
    Bash,
    Html,
    Markdown,
}

impl LangId {
    /// The name of the language as it stands in messages.
    pub open spec fn label(self) -> Seq<char> {
        match self {
            LangId::TypeScript => "TypeScript"@,
            LangId::Tsx => "Tsx"@,
            LangId::JavaScript => "JavaScript"@,
            LangId::Python => "Python"@,
            LangId::Rust => "Rust"@,
            LangId::Go => "Go"@,
            LangId::C => "C"@,
            LangId::Cpp => "Cpp"@,
            LangId::Zig => "Zig"@,
            LangId::CSharp => "CSharp"@,
            LangId::Bash => "Bash"@,
            LangId::Html => "Html"@,
            LangId::Markdown => "Markdown"@,
        }
    }

    /// The name of the language as it stands in messages.
    pub fn name(self) -> (r: &'static str)
        ensures
            r@ == self.label(),
    {
        match self {
            LangId::TypeScript => "TypeScript",
            LangId::Tsx => "Tsx",
            LangId::JavaScript => "JavaScript",
            LangId::Python => "Python",
            LangId::Rust => "Rust",
            LangId::Go => "Go",
            LangId::C => "C",
            LangId::Cpp => "Cpp",
            LangId::Zig => "Zig",
            LangId::CSharp => "CSharp",
            LangId::Bash => "Bash",
            LangId::Html => "Html",
            LangId::Markdown => "Markdown",
        }
    }

    /// TypeScript, TSX and JavaScript.
    pub open spec fn script(self) -> bool {
        self is TypeScript || self is Tsx || self is JavaScript
    }

    /// Whether the language is TypeScript, TSX or JavaScript.
    pub fn is_script(self) -> (r: bool)
        ensures
            r == self.script(),
    {
        match self {
            LangId::TypeScript | LangId::Tsx | LangId::JavaScript => true,
            _ => false,
        }
    }
}

/// The language that a file extension stands for.
pub open spec fn extension_lang(ext: Seq<char>) -> Option<LangId> {
    if ext == "ts"@ || ext == "mts"@ || ext == "cts"@ {
        Some(LangId::TypeScript)
    } else if ext == "tsx"@ {
        Some(LangId::Tsx)
    } else if ext == "js"@ || ext == "mjs"@ || ext == "cjs"@ || ext == "jsx"@ {
        Some(LangId::JavaScript)
    } else if ext == "py"@ || ext == "pyi"@ {
        Some(LangId::Python)
    } else if ext == "rs"@ {
        Some(LangId::Rust)
    } else if ext == "go"@ {
        Some(LangId::Go)
    } else if ext == "c"@ || ext == "h"@ {
        Some(LangId::C)
    } else if ext == "cc"@ || ext == "cpp"@ || ext == "cxx"@ || ext == "hpp"@ {
        Some(LangId::Cpp)
    } else if ext == "zig"@ {
        Some(LangId::Zig)
    } else if ext == "cs"@ {
        Some(LangId::CSharp)
    } else if ext == "sh"@ || ext == "bash"@ {
        Some(LangId::Bash)
    } else if ext == "html"@ || ext == "htm"@ {
        Some(LangId::Html)
    } else if ext == "md"@ || ext == "markdown"@ {
        Some(LangId::Markdown)
    } else {
        None
    }
}

/// The language of the file at a path, told by its extension.
pub open spec fn path_lang(p: Seq<char>) -> Option<LangId> {
    match extension_of(p) {
        Some(ext) => extension_lang(ext),
        None => None,
    }
}

/// The language of the file at a path.
pub fn detect_language(path: &str) -> (r: Option<LangId>)
    ensures
        r == path_lang(path@),
{
    let ext = match extension(path) {
        Some(e) => e,
        None => {
            return None;
        },
    };
    let ext = ext.as_str();
    if same(ext, "ts") || same(ext, "mts") || same(ext, "cts") {
        Some(LangId::TypeScript)
    } else if same(ext, "tsx") {
        Some(LangId::Tsx)
    } else if same(ext, "js") || same(ext, "mjs") || same(ext, "cjs") || same(ext, "jsx") {
        Some(LangId::JavaScript)
    } else if same(ext, "py") || same(ext, "pyi") {
        Some(LangId::Python)
    } else if same(ext, "rs") {
        Some(LangId::Rust)
    } else if same(ext, "go") {
        Some(LangId::Go)
    } else if same(ext, "c") || same(ext, "h") {
        Some(LangId::C)
    } else if same(ext, "cc") || same(ext, "cpp") || same(ext, "cxx") || same(ext, "hpp") {
        Some(LangId::Cpp)
    } else if same(ext, "zig") {
        Some(LangId::Zig)
    } else if same(ext, "cs") {
        Some(LangId::CSharp)
    } else if same(ext, "sh") || same(ext, "bash") {
        Some(LangId::Bash)
    } else if same(ext, "html") || same(ext, "htm") {
        Some(LangId::Html)
    } else if same(ext, "md") || same(ext, "markdown") {
        Some(LangId::Markdown)
    } else {
        None
    }
}

/// What `str::to_lowercase` makes of a text.
pub uninterp spec fn lowercase(s: Seq<char>) -> Seq<char>;

/// Whether a text has only ASCII characters.
pub open spec fn ascii(s: Seq<char>) -> bool {
    forall|i: int| 0 <= i < s.len() ==> #[trigger] s[i] < '\u{80}'
}

/// Calls `str::to_lowercase`. The result is a function of the text alone, named `lowercase`; in
/// a text of ASCII characters every letter from `A` to `Z` becomes its lower-case letter, and
/// the rest stays.
#[verifier::external_body]
pub(crate) fn to_lowercase(s: &str) -> (r: String)
    ensures
        r@ == lowercase(s@),
        ascii(s@) ==> r@ == ascii_lowered(s@),
{
    s.to_lowercase()
}

/// A file is in the language that its extension stands for; a file with no extension, or with one
/// that stands for none, is in no language.
pub proof fn extensions_stand_for_languages(p: Seq<char>, ext: Seq<char>)
    ensures
        extension_of(p) is None ==> path_lang(p) is None,
        extension_of(p) == Some(ext) ==> match path_lang(p) {
            Some(LangId::TypeScript) => ext == "ts"@ || ext == "mts"@ || ext == "cts"@,
            Some(LangId::Tsx) => ext == "tsx"@,
            Some(LangId::JavaScript) => ext == "js"@ || ext == "mjs"@ || ext == "cjs"@ || ext
                == "jsx"@,
            Some(LangId::Python) => ext == "py"@ || ext == "pyi"@,
            Some(LangId::Rust) => ext == "rs"@,
            Some(LangId::Go) => ext == "go"@,
            Some(LangId::C) => ext == "c"@ || ext == "h"@,
            Some(LangId::Cpp) => ext == "cc"@ || ext == "cpp"@ || ext == "cxx"@ || ext == "hpp"@,
            Some(LangId::Zig) => ext == "zig"@,
            Some(LangId::CSharp) => ext == "cs"@,
            Some(LangId::Bash) => ext == "sh"@ || ext == "bash"@,
            Some(LangId::Html) => ext == "html"@ || ext == "htm"@,
            Some(LangId::Markdown) => ext == "md"@ || ext == "markdown"@,
            None => !(ext == "ts"@ || ext == "mts"@ || ext == "cts"@ || ext == "tsx"@ || ext
                == "js"@ || ext == "mjs"@ || ext == "cjs"@ || ext == "jsx"@ || ext == "py"@ || ext
                == "pyi"@ || ext == "rs"@ || ext == "go"@ || ext == "c"@ || ext == "h"@ || ext
                == "cc"@ || ext == "cpp"@ || ext == "cxx"@ || ext == "hpp"@ || ext == "zig"@ || ext
                == "cs"@ || ext == "sh"@ || ext == "bash"@ || ext == "html"@ || ext == "htm"@ || ext
                == "md"@ || ext == "markdown"@),
        },
{
}

} // verus!
