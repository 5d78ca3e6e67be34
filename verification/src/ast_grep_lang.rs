//! The languages that patterns can be matched in.
use vstd::prelude::*;

use crate::lang::{ascii, lowercase, to_lowercase, LangId};
use crate::paths::{extension, extension_of};
use crate::text::{ascii_lowered, chars_of, contains_str, same, string_of, strs};

verus! {

/// A language of structural patterns.
#[derive(Clone, Copy, Debug, PartialEq, Eq, Structural)]
pub enum AstGrepLang {
    TypeScript,
    Tsx,
    JavaScript,
    Python,
    Rust,
    Go,
    C,
    Cpp,
    Zig,
    CSharp,
}

/// The pattern language that a lower-case name stands for.
pub open spec fn lang_named(name: Seq<char>) -> Option<AstGrepLang> {
    if name == "typescript"@ || name == "ts"@ {
        Some(AstGrepLang::TypeScript)
    } else if name == "tsx"@ {
        Some(AstGrepLang::Tsx)
    } else if name == "javascript"@ || name == "js"@ {
        Some(AstGrepLang::JavaScript)
    } else if name == "python"@ || name == "py"@ {
        Some(AstGrepLang::Python)
    } else if name == "rust"@ || name == "rs"@ {
        Some(AstGrepLang::Rust)
    } else if name == "go"@ || name == "golang"@ {
        Some(AstGrepLang::Go)
    } else if name == "c"@ {
        Some(AstGrepLang::C)
    } else if name == "cpp"@ {
        Some(AstGrepLang::Cpp)
    } else if name == "zig"@ {
        Some(AstGrepLang::Zig)
    } else if name == "csharp"@ {
        Some(AstGrepLang::CSharp)
    } else {
        None
    }
}

/// The file extensions of a pattern language.
pub open spec fn extensions_of(lang: AstGrepLang) -> Seq<Seq<char>> {
    match lang {
        AstGrepLang::TypeScript => seq!["ts"@, "mts"@, "cts"@],
        AstGrepLang::Tsx => seq!["tsx"@],
        AstGrepLang::JavaScript => seq!["js"@, "mjs"@, "cjs"@, "jsx"@],
        AstGrepLang::Python => seq!["py"@, "pyi"@],
        AstGrepLang::Rust => seq!["rs"@],
        AstGrepLang::Go => seq!["go"@],
        AstGrepLang::C => seq!["c"@, "h"@],
        AstGrepLang::Cpp => seq!["cc"@, "cpp"@, "cxx"@, "hpp"@],
        AstGrepLang::Zig => seq!["zig"@],
        AstGrepLang::CSharp => seq!["cs"@],
    }
}

impl AstGrepLang {
    /// The pattern language of a source language, where it has one.
    pub fn from_lang_id(lang_id: &LangId) -> (r: Option<AstGrepLang>)
        ensures
            r == (match *lang_id {
                LangId::TypeScript => Some(AstGrepLang::TypeScript),
                LangId::Tsx => Some(AstGrepLang::Tsx),
                LangId::JavaScript => Some(AstGrepLang::JavaScript),
                LangId::Python => Some(AstGrepLang::Python),
                LangId::Rust => Some(AstGrepLang::Rust),
                LangId::Go => Some(AstGrepLang::Go),
                LangId::C => Some(AstGrepLang::C),
                LangId::Cpp => Some(AstGrepLang::Cpp),
                LangId::Zig => Some(AstGrepLang::Zig),
                LangId::CSharp => Some(AstGrepLang::CSharp),
                _ => None,
            }),
    {
        match lang_id {
            LangId::TypeScript => Some(AstGrepLang::TypeScript),
            LangId::Tsx => Some(AstGrepLang::Tsx),
            LangId::JavaScript => Some(AstGrepLang::JavaScript),
            LangId::Python => Some(AstGrepLang::Python),
            LangId::Rust => Some(AstGrepLang::Rust),
            LangId::Go => Some(AstGrepLang::Go),
            LangId::C => Some(AstGrepLang::C),
            LangId::Cpp => Some(AstGrepLang::Cpp),
            LangId::Zig => Some(AstGrepLang::Zig),
            LangId::CSharp => Some(AstGrepLang::CSharp),
            _ => None,
        }
    }

    /// The pattern language that a lower-case name stands for.
    pub fn from_lowercase(name: &str) -> (r: Option<AstGrepLang>)
        ensures
            r == lang_named(name@),
    {
        if same(name, "typescript") || same(name, "ts") {
            Some(AstGrepLang::TypeScript)
        } else if same(name, "tsx") {
            Some(AstGrepLang::Tsx)
        } else if same(name, "javascript") || same(name, "js") {
            Some(AstGrepLang::JavaScript)
        } else if same(name, "python") || same(name, "py") {
            Some(AstGrepLang::Python)
        } else if same(name, "rust") || same(name, "rs") {
            Some(AstGrepLang::Rust)
        } else if same(name, "go") || same(name, "golang") {
            Some(AstGrepLang::Go)
        } else if same(name, "c") {
            Some(AstGrepLang::C)
        } else if same(name, "cpp") {
            Some(AstGrepLang::Cpp)
        } else if same(name, "zig") {
            Some(AstGrepLang::Zig)
        } else if same(name, "csharp") {
            Some(AstGrepLang::CSharp)
        } else {
            None
        }
    }

    /// The pattern language that a name stands for, whatever the case of its letters.
    pub fn from_str(s: &str) -> (r: Option<AstGrepLang>)
        ensures
            r == lang_named(lowercase(s@)),
            ascii(s@) ==> r == lang_named(ascii_lowered(s@)),
    {
        let name = to_lowercase(s);
        AstGrepLang::from_lowercase(name.as_str())
    }

    /// The file extensions of the language.
    pub fn extensions(&self) -> (r: Vec<&'static str>)
        ensures
            strs(r@) == extensions_of(*self),
    {
        let r: Vec<&'static str> = match self {
            AstGrepLang::TypeScript => vec!["ts", "mts", "cts"],
            AstGrepLang::Tsx => vec!["tsx"],
            AstGrepLang::JavaScript => vec!["js", "mjs", "cjs", "jsx"],
            AstGrepLang::Python => vec!["py", "pyi"],
            AstGrepLang::Rust => vec!["rs"],
            AstGrepLang::Go => vec!["go"],
            AstGrepLang::C => vec!["c", "h"],
            AstGrepLang::Cpp => vec!["cc", "cpp", "cxx", "hpp"],
            AstGrepLang::Zig => vec!["zig"],
            AstGrepLang::CSharp => vec!["cs"],
        };
        assert(strs(r@) =~= extensions_of(*self));
        r
    }

    /// Whether a file extension belongs to the language.
    pub fn matches_extension(&self, ext: &str) -> (r: bool)
        ensures
            r == extensions_of(*self).contains(ext@),
    {
        let list = self.extensions();
        contains_str(&list, ext)
    }

    /// Whether the file at a path is, by its extension, one of the language.
    pub fn matches_path(&self, path: &str) -> (r: bool)
        ensures
            r == (match extension_of(path@) {
                Some(ext) => extensions_of(*self).contains(ext),
                None => false,
            }),
    {
        match extension(path) {
            Some(ext) => self.matches_extension(ext.as_str()),
            None => false,
        }
    }

    /// The character that stands for `$` where patterns of the language are parsed.
    pub open spec fn expando(self) -> char {
        if self is Python || self is Rust || self is CSharp {
            '\u{00B5}'
        } else if self is Zig {
            '_'
        } else {
            '$'
        }
    }

    /// The character that stands for `$` where patterns of the language are parsed.
    pub fn expando_char(&self) -> (r: char)
        ensures
            r == self.expando(),
    {
        match self {
            AstGrepLang::Python | AstGrepLang::Rust | AstGrepLang::CSharp => '\u{00B5}',
            AstGrepLang::Zig => '_',
            _ => '$',
        }
    }

    /// The pattern with `$` replaced, in the places of meta-variables, by the
    /// character that the language's grammar accepts there.
    pub open spec fn processed(self, query: Seq<char>) -> Seq<char> {
        if self.expando() == '$' {
            query
        } else {
            preprocessed(query, 0, self.expando())
        }
    }

    /// The pattern with `$` replaced, in the places of meta-variables, by the
    /// character that the language's grammar accepts there.
    pub fn pre_process_pattern(&self, query: &str) -> (r: String)
        ensures
            r@ == self.processed(query@),
    {
        let expando = self.expando_char();
        let q = chars_of(query);
        if expando == '$' {
            return string_of(q.as_slice());
        }
        let mut out = String::new();
        let mut dollars: usize = 0;
        let mut i: usize = 0;
        assert(q@.skip(0) =~= q@);
        assert(Seq::<char>::empty() + preprocessed(q@, 0, expando) =~= preprocessed(q@, 0, expando));
        while i < q.len()
            invariant
                dollars <= i <= q.len(),
                q@ == query@,
                out@ + preprocessed(q@.skip(i as int), dollars as nat, expando) == preprocessed(
                    query@,
                    0,
                    expando,
                ),
            decreases q.len() - i,
        {
            let c = q[i];
            proof {
                let rest = q@.skip(i as int);
                assert(rest[0] == c);
                assert(rest.drop_first() =~= q@.skip(i + 1));
            }
            if c == '$' {
                dollars = dollars + 1;
            } else {
                let needs = ('A' <= c && c <= 'Z') || c == '_' || dollars == 3;
                let sigil = if needs {
                    expando
                } else {
                    '$'
                };
                let ghost before = out@;
                push_repeated(&mut out, sigil, dollars);
                out.push(c);
                proof {
                    let tail = preprocessed(q@.skip(i + 1), 0, expando);
                    let run = Seq::new(dollars as nat, |k: int| sigil);
                    assert(before + (run.push(c) + tail) =~= (before + run).push(c) + tail);
                }
                dollars = 0;
            }
            i = i + 1;
        }
        let sigil = if dollars == 3 {
            expando
        } else {
            '$'
        };
        push_repeated(&mut out, sigil, dollars);
        out
    }
}

/// The pattern text `s` behind `dollars` dollar signs, with the dollar signs in front
/// of an upper-case ASCII letter or an underscore, and every run of exactly three,
/// written as `expando`.
pub open spec fn preprocessed(s: Seq<char>, dollars: nat, expando: char) -> Seq<char>
    decreases s.len(),
{
    if s.len() == 0 {
        Seq::new(
            dollars,
            |k: int|
                if dollars == 3 {
                    expando
                } else {
                    '$'
                },
        )
    } else if s[0] == '$' {
        preprocessed(s.drop_first(), dollars + 1, expando)
    } else {
        let sigil = if 'A' <= s[0] <= 'Z' || s[0] == '_' || dollars == 3 {
            expando
        } else {
            '$'
        };
        Seq::new(dollars, |k: int| sigil).push(s[0]) + preprocessed(s.drop_first(), 0, expando)
    }
}

fn push_repeated(out: &mut String, c: char, n: usize)
    ensures
        final(out)@ == old(out)@ + Seq::new(n as nat, |k: int| c),
{
    let mut i: usize = 0;
    assert(out@ + Seq::new(0, |k: int| c) =~= out@);
    while i < n
        invariant
            i <= n,
            out@ == old(out)@ + Seq::new(i as nat, |k: int| c),
        decreases n - i,
    {
        out.push(c);
        assert(out@ =~= old(out)@ + Seq::new((i + 1) as nat, |k: int| c));
        i = i + 1;
    }
}

/// A run of dollar signs before an upper-case letter or an underscore, and a run of exactly three,
/// is written with the language's own sign; any other run stays. Everything else stays as it is.
pub proof fn variable_signs_are_written_anew(
    lang: AstGrepLang,
    n: nat,
    c: char,
    rest: Seq<char>,
)
    requires
        c != '$',
    ensures
        ({
            let signs = Seq::new(n, |k: int| '$');
            let own = if lang is Python || lang is Rust || lang is CSharp {
                '\u{00B5}'
            } else if lang is Zig {
                '_'
            } else {
                '$'
            };
            let used = if 'A' <= c <= 'Z' || c == '_' || n == 3 {
                own
            } else {
                '$'
            };
            let at_end = if n == 3 {
                own
            } else {
                '$'
            };
            &&& lang.processed(signs.push(c) + rest) == Seq::new(n, |k: int| used).push(c)
                + lang.processed(rest)
            &&& lang.processed(signs) == Seq::new(n, |k: int| at_end)
        }),
{
    let signs = Seq::new(n, |k: int| '$');
    let own = lang.expando();
    lemma_sign_run(n, 0, seq![c] + rest, own);
    assert(signs.push(c) + rest =~= signs + (seq![c] + rest));
    assert((seq![c] + rest).drop_first() =~= rest);
    lemma_sign_run(n, 0, Seq::empty(), own);
    assert(signs + Seq::<char>::empty() =~= signs);
    if own == '$' {
        assert(Seq::new(n, |k: int| '$').push(c) + rest =~= signs.push(c) + rest);
    }
}

proof fn lemma_sign_run(n: nat, before: nat, rest: Seq<char>, own: char)
    ensures
        preprocessed(Seq::new(n, |k: int| '$') + rest, before, own) == preprocessed(
            rest,
            before + n,
            own,
        ),
    decreases n,
{
    let s = Seq::new(n, |k: int| '$') + rest;
    if n == 0 {
        assert(s =~= rest);
    } else {
        assert(s[0] == '$');
        assert(s.drop_first() =~= Seq::new((n - 1) as nat, |k: int| '$') + rest);
        lemma_sign_run((n - 1) as nat, before + 1, rest, own);
    }
}

/// Every language is asked for by its name or by its short name, and by nothing else.
pub proof fn languages_are_asked_for_by_name(name: Seq<char>)
    ensures
        match lang_named(name) {
            Some(AstGrepLang::TypeScript) => name == "typescript"@ || name == "ts"@,
            Some(AstGrepLang::Tsx) => name == "tsx"@,
            Some(AstGrepLang::JavaScript) => name == "javascript"@ || name == "js"@,
            Some(AstGrepLang::Python) => name == "python"@ || name == "py"@,
            Some(AstGrepLang::Rust) => name == "rust"@ || name == "rs"@,
            Some(AstGrepLang::Go) => name == "go"@ || name == "golang"@,
            Some(AstGrepLang::C) => name == "c"@,
            Some(AstGrepLang::Cpp) => name == "cpp"@,
            Some(AstGrepLang::Zig) => name == "zig"@,
            Some(AstGrepLang::CSharp) => name == "csharp"@,
            None => name != "typescript"@ && name != "ts"@ && name != "tsx"@ && name
                != "javascript"@ && name != "js"@ && name != "python"@ && name != "py"@ && name
                != "rust"@ && name != "rs"@ && name != "go"@ && name != "golang"@ && name != "c"@
                && name != "cpp"@ && name != "zig"@ && name != "csharp"@,
        },
{
}

/// The files that a pattern language is looked for in are those whose extension stands for the
/// language.
pub proof fn patterns_are_for_files_of_their_language(lang: AstGrepLang, ext: Seq<char>)
    ensures
        extensions_of(lang).contains(ext) <==> match lang {
            AstGrepLang::TypeScript => ext == "ts"@ || ext == "mts"@ || ext == "cts"@,
            AstGrepLang::Tsx => ext == "tsx"@,
            AstGrepLang::JavaScript => ext == "js"@ || ext == "mjs"@ || ext == "cjs"@ || ext
                == "jsx"@,
            AstGrepLang::Python => ext == "py"@ || ext == "pyi"@,
            AstGrepLang::Rust => ext == "rs"@,
            AstGrepLang::Go => ext == "go"@,
            AstGrepLang::C => ext == "c"@ || ext == "h"@,
            AstGrepLang::Cpp => ext == "cc"@ || ext == "cpp"@ || ext == "cxx"@ || ext == "hpp"@,
            AstGrepLang::Zig => ext == "zig"@,
            AstGrepLang::CSharp => ext == "cs"@,
        },
{
    let list = extensions_of(lang);
    if list.len() > 0 {
        assert(list.contains(list[0]));
    }
    if list.len() > 1 {
        assert(list.contains(list[1]));
    }
    if list.len() > 2 {
        assert(list.contains(list[2]));
    }
    if list.len() > 3 {
        assert(list.contains(list[3]));
    }
}

} // verus!
