//! Languages of structural patterns, and patterns run by ast-grep itself.
use aft::ast_grep_lang::AstGrepLang;
use aft::lang::LangId;
use aft::structural::Grammar;
use ast_grep_core::language::Language;
use ast_grep_core::tree_sitter::LanguageExt;

/// The text of the first match of a pattern in a source, as the library runs it.
fn first_match(lang: AstGrepLang, source: &str, pattern: &str) -> Option<String> {
    let grep = Grammar { lang }.ast_grep(source);
    let root = grep.root();
    let pattern = lang.pre_process_pattern(pattern);
    let found = root.find(pattern.as_str());
    found.map(|node| node.text().to_string())
}

#[test]
fn test_from_str() {
    assert_eq!(
        AstGrepLang::from_str("typescript"),
        Some(AstGrepLang::TypeScript)
    );
    assert_eq!(AstGrepLang::from_str("tsx"), Some(AstGrepLang::Tsx));
    assert_eq!(
        AstGrepLang::from_str("javascript"),
        Some(AstGrepLang::JavaScript)
    );
    assert_eq!(AstGrepLang::from_str("python"), Some(AstGrepLang::Python));
    assert_eq!(AstGrepLang::from_str("rust"), Some(AstGrepLang::Rust));
    assert_eq!(AstGrepLang::from_str("go"), Some(AstGrepLang::Go));
    assert_eq!(AstGrepLang::from_str("markdown"), None);
}

#[test]
fn from_str_ignores_case() {
    assert_eq!(AstGrepLang::from_str("GoLang"), Some(AstGrepLang::Go));
    assert_eq!(AstGrepLang::from_str("RS"), Some(AstGrepLang::Rust));
    assert_eq!(AstGrepLang::from_lowercase("RS"), None);
}

#[test]
fn test_ast_grep_basic() {
    assert!(first_match(AstGrepLang::TypeScript, "const x = 1;", "const $X = $Y").is_some());
}

#[test]
fn test_python_function_pattern() {
    let source = "def add(a, b):\n    return a + b\n";
    let found = first_match(AstGrepLang::Python, source, "def $FUNC($$$):\n    return $X");
    assert!(found.is_some(), "Python function pattern should match");
    assert_eq!(found.unwrap(), "def add(a, b):\n    return a + b");
}

#[test]
fn test_python_expression_pattern() {
    let found = first_match(AstGrepLang::Python, "x = self.value + 1\n", "self.$ATTR + $X");
    assert!(found.is_some(), "Python expression pattern should match");
}

#[test]
fn test_rust_function_pattern() {
    let source = "fn add(a: i32, b: i32) -> i32 { a + b }";
    let found = first_match(AstGrepLang::Rust, source, "fn $NAME($$$) -> $RET { $$$BODY }");
    assert!(found.is_some(), "Rust function pattern should match");
}

#[test]
fn patterns_match_in_every_language() {
    let returned = |lang| first_match(lang, "int f(void) { return 1; }", "return $A;");
    assert_eq!(returned(AstGrepLang::C).as_deref(), Some("return 1;"));
    assert_eq!(returned(AstGrepLang::Cpp).as_deref(), Some("return 1;"));
    let zig = first_match(AstGrepLang::Zig, "const x = f(1);", "const x = f($A);");
    assert_eq!(zig.as_deref(), Some("const x = f(1);"));
    let sharp = first_match(AstGrepLang::CSharp, "class A { int x = f(1); }", "f($A)");
    assert_eq!(sharp.as_deref(), Some("f(1)"));
}

#[test]
fn grammars_are_those_of_their_languages() {
    let c = Grammar { lang: AstGrepLang::C };
    assert_ne!(c.kind_to_id("function_definition"), 0);
    assert_eq!(c.kind_to_id("fn_item"), 0);
    assert!(c.field_to_id("declarator").is_some());
    assert!(c.field_to_id("no_such_field").is_none());
    assert_eq!(AstGrepLang::from_str("CSharp"), Some(AstGrepLang::CSharp));
    assert_eq!(AstGrepLang::from_str("cpp"), Some(AstGrepLang::Cpp));
    assert_eq!(AstGrepLang::from_str("zig"), Some(AstGrepLang::Zig));
    assert_eq!(AstGrepLang::from_str("c"), Some(AstGrepLang::C));
    assert_eq!(AstGrepLang::from_lang_id(&LangId::Cpp), Some(AstGrepLang::Cpp));
    assert!(AstGrepLang::C.matches_path("a.h"));
}

#[test]
fn test_expando_char() {
    assert_eq!(AstGrepLang::Python.expando_char(), '\u{00B5}');
    assert_eq!(AstGrepLang::Rust.expando_char(), '\u{00B5}');
    assert_eq!(AstGrepLang::TypeScript.expando_char(), '$');
    assert_eq!(AstGrepLang::JavaScript.expando_char(), '$');
    assert_eq!(AstGrepLang::Go.expando_char(), '$');
}

#[test]
fn test_pre_process_pattern_python() {
    let lang = AstGrepLang::Python;
    let result = lang.pre_process_pattern("def $FUNC($$$):");
    assert!(
        result.contains('\u{00B5}'),
        "Should contain \u{00B5} expando char"
    );
    assert!(
        !result.contains('$'),
        "Should not contain $ after preprocessing"
    );
}

#[test]
fn pre_process_pattern_exactly() {
    assert_eq!(
        AstGrepLang::Rust.pre_process_pattern("$A $a $$$ $$$B $$_"),
        "\u{b5}A $a \u{b5}\u{b5}\u{b5} \u{b5}\u{b5}\u{b5}B \u{b5}\u{b5}_"
    );
    assert_eq!(AstGrepLang::Rust.pre_process_pattern("x$$"), "x$$");
    assert_eq!(AstGrepLang::Go.pre_process_pattern("$A $$$"), "$A $$$");
}

#[test]
fn languages_and_extensions() {
    assert_eq!(
        AstGrepLang::from_lang_id(&LangId::Tsx),
        Some(AstGrepLang::Tsx)
    );
    assert_eq!(AstGrepLang::from_lang_id(&LangId::Markdown), None);
    assert_eq!(
        AstGrepLang::JavaScript.extensions(),
        vec!["js", "mjs", "cjs", "jsx"]
    );
    assert!(AstGrepLang::Python.matches_path("pkg/mod.pyi"));
    assert!(!AstGrepLang::Python.matches_path("pkg/py"));
    assert!(AstGrepLang::TypeScript.matches_extension("cts"));
    assert!(!AstGrepLang::TypeScript.matches_extension("tsx"));
}
