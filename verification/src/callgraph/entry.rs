//! Entry points: where callers from outside start.
use vstd::prelude::*;

use crate::lang::{ascii, lowercase, to_lowercase, LangId};
use crate::symbols::SymbolKind;
use crate::text::{ascii_lowered, same, starts_with};

verus! {

/// The lower-case names under which a program conventionally starts.
pub open spec fn main_name(lower: Seq<char>) -> bool {
    lower == "main"@ || lower == "init"@ || lower == "setup"@ || lower == "bootstrap"@ || lower
        == "run"@
}

/// Whether a name, given also in lower case, is that of a test in a language.
pub open spec fn test_name(name: Seq<char>, lower: Seq<char>, lang: LangId) -> bool {
    match lang {
        LangId::TypeScript | LangId::JavaScript | LangId::Tsx => lower == "describe"@ || lower
            == "it"@ || "test"@.is_prefix_of(lower) || "spec"@.is_prefix_of(lower),
        LangId::Python => "test_"@.is_prefix_of(lower) || name == "setUp"@ || name == "tearDown"@,
        LangId::Rust => "test_"@.is_prefix_of(lower),
        LangId::Go => "Test"@.is_prefix_of(name),
        _ => false,
    }
}

/// Whether a symbol, its name given also in lower case, is an entry point: an exported
/// function that is no method, a conventional start, or a test.
pub open spec fn entry_point(
    name: Seq<char>,
    lower: Seq<char>,
    kind: SymbolKind,
    exported: bool,
    lang: LangId,
) -> bool {
    (exported && kind is Function) || main_name(lower) || test_name(name, lower, lang)
}

/// Whether a symbol is an entry point, its name given also in lower case.
pub fn is_entry_point_named(
    name: &str,
    lower: &str,
    kind: &SymbolKind,
    exported: bool,
    lang: LangId,
) -> (r: bool)
    ensures
        r == entry_point(name@, lower@, *kind, exported, lang),
{
    if exported && *kind == SymbolKind::Function {
        return true;
    }
    if same(lower, "main") || same(lower, "init") || same(lower, "setup") || same(
        lower,
        "bootstrap",
    ) || same(lower, "run") {
        return true;
    }
    match lang {
        LangId::TypeScript | LangId::JavaScript | LangId::Tsx => same(lower, "describe") || same(
            lower,
            "it",
        ) || starts_with(lower, "test") || starts_with(lower, "spec"),
        LangId::Python => starts_with(lower, "test_") || same(name, "setUp") || same(
            name,
            "tearDown",
        ),
        LangId::Rust => starts_with(lower, "test_"),
        LangId::Go => starts_with(name, "Test"),
        _ => false,
    }
}

/// Whether a symbol is an entry point.
pub fn is_entry_point(name: &str, kind: &SymbolKind, exported: bool, lang: LangId) -> (r: bool)
    ensures
        r == entry_point(name@, lowercase(name@), *kind, exported, lang),
        ascii(name@) ==> r == entry_point(name@, ascii_lowered(name@), *kind, exported, lang),
{
    let lower = to_lowercase(name);
    is_entry_point_named(name, lower.as_str(), kind, exported, lang)
}

/// An exported function is an entry point in every language, and so is a symbol with a name that
/// programs start by; a test is one by the conventions of its language. Other symbols are none.
pub proof fn entry_points_are_exports_starts_and_tests(
    name: Seq<char>,
    lower: Seq<char>,
    kind: SymbolKind,
    exported: bool,
    lang: LangId,
)
    ensures
        ({
            let r = entry_point(name, lower, kind, exported, lang);
            let starts = lower == "main"@ || lower == "init"@ || lower == "setup"@ || lower
                == "bootstrap"@ || lower == "run"@;
            let script_test = lower == "describe"@ || lower == "it"@ || "test"@.is_prefix_of(lower)
                || "spec"@.is_prefix_of(lower);
            let python_test = "test_"@.is_prefix_of(lower) || name == "setUp"@ || name
                == "tearDown"@;
            &&& exported && kind is Function ==> r
            &&& starts ==> r
            &&& lang is TypeScript && script_test ==> r
            &&& lang is JavaScript && script_test ==> r
            &&& lang is Tsx && script_test ==> r
            &&& lang is Python && python_test ==> r
            &&& lang is Rust && "test_"@.is_prefix_of(lower) ==> r
            &&& lang is Go && "Test"@.is_prefix_of(name) ==> r
            &&& r && !starts && !(exported && kind is Function) ==> {
                ||| (lang is TypeScript || lang is JavaScript || lang is Tsx) && script_test
                ||| lang is Python && python_test
                ||| lang is Rust && "test_"@.is_prefix_of(lower)
                ||| lang is Go && "Test"@.is_prefix_of(name)
            }
        }),
{
}

} // verus!
