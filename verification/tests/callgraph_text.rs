//! Names that make a function an entry point, parameters of signatures, and aliases of
//! imports.
use aft::callgraph::entry::is_entry_point;
use aft::callgraph::params::extract_parameters;
use aft::callgraph::resolve::find_alias_original;
use aft::lang::LangId;
use aft::symbols::SymbolKind;

#[test]
fn callgraph_find_alias_original_simple() {
    let raw = "import { foo as bar } from './utils';";
    assert_eq!(find_alias_original(raw, "bar"), Some("foo".to_string()));
}

#[test]
fn callgraph_find_alias_original_multiple() {
    let raw = "import { foo as bar, baz as qux } from './utils';";
    assert_eq!(find_alias_original(raw, "bar"), Some("foo".to_string()));
    assert_eq!(find_alias_original(raw, "qux"), Some("baz".to_string()));
}

#[test]
fn callgraph_find_alias_no_match() {
    let raw = "import { foo } from './utils';";
    assert_eq!(find_alias_original(raw, "foo"), None);
}

// --- is_entry_point ---

#[test]
fn is_entry_point_exported_function() {
    assert!(is_entry_point(
        "handleRequest",
        &SymbolKind::Function,
        true,
        LangId::TypeScript
    ));
}

#[test]
fn is_entry_point_exported_method_is_not_entry() {
    // Methods are class members, not standalone entry points
    assert!(!is_entry_point(
        "handleRequest",
        &SymbolKind::Method,
        true,
        LangId::TypeScript
    ));
}

#[test]
fn is_entry_point_main_init_patterns() {
    for name in &["main", "Main", "MAIN", "init", "setup", "bootstrap", "run"] {
        assert!(
            is_entry_point(name, &SymbolKind::Function, false, LangId::TypeScript),
            "{} should be an entry point",
            name
        );
    }
}

#[test]
fn is_entry_point_test_patterns_ts() {
    assert!(is_entry_point(
        "describe",
        &SymbolKind::Function,
        false,
        LangId::TypeScript
    ));
    assert!(is_entry_point(
        "it",
        &SymbolKind::Function,
        false,
        LangId::TypeScript
    ));
    assert!(is_entry_point(
        "test",
        &SymbolKind::Function,
        false,
        LangId::TypeScript
    ));
    assert!(is_entry_point(
        "testValidation",
        &SymbolKind::Function,
        false,
        LangId::TypeScript
    ));
    assert!(is_entry_point(
        "specHelper",
        &SymbolKind::Function,
        false,
        LangId::TypeScript
    ));
}

#[test]
fn is_entry_point_test_patterns_python() {
    assert!(is_entry_point(
        "test_login",
        &SymbolKind::Function,
        false,
        LangId::Python
    ));
    assert!(is_entry_point(
        "setUp",
        &SymbolKind::Function,
        false,
        LangId::Python
    ));
    assert!(is_entry_point(
        "tearDown",
        &SymbolKind::Function,
        false,
        LangId::Python
    ));
    // "testSomething" should NOT match Python (needs test_ prefix)
    assert!(!is_entry_point(
        "testSomething",
        &SymbolKind::Function,
        false,
        LangId::Python
    ));
}

#[test]
fn is_entry_point_test_patterns_rust() {
    assert!(is_entry_point(
        "test_parse",
        &SymbolKind::Function,
        false,
        LangId::Rust
    ));
    assert!(!is_entry_point(
        "TestSomething",
        &SymbolKind::Function,
        false,
        LangId::Rust
    ));
}

#[test]
fn is_entry_point_test_patterns_go() {
    assert!(is_entry_point(
        "TestParsing",
        &SymbolKind::Function,
        false,
        LangId::Go
    ));
    // lowercase test should NOT match Go (needs uppercase Test prefix)
    assert!(!is_entry_point(
        "testParsing",
        &SymbolKind::Function,
        false,
        LangId::Go
    ));
}

#[test]
fn is_entry_point_non_exported_non_main_is_not_entry() {
    assert!(!is_entry_point(
        "helperUtil",
        &SymbolKind::Function,
        false,
        LangId::TypeScript
    ));
}

// --- extract_parameters ---

#[test]
fn extract_parameters_typescript() {
    let params = extract_parameters(
        "function processData(input: string, count: number): void",
        LangId::TypeScript,
    );
    assert_eq!(params, vec!["input", "count"]);
}

#[test]
fn extract_parameters_typescript_optional() {
    let params = extract_parameters(
        "function fetch(url: string, options?: RequestInit): Promise<Response>",
        LangId::TypeScript,
    );
    assert_eq!(params, vec!["url", "options"]);
}

#[test]
fn extract_parameters_typescript_defaults() {
    let params = extract_parameters(
        "function greet(name: string, greeting: string = \"hello\"): string",
        LangId::TypeScript,
    );
    assert_eq!(params, vec!["name", "greeting"]);
}

#[test]
fn extract_parameters_typescript_rest() {
    let params = extract_parameters(
        "function sum(...numbers: number[]): number",
        LangId::TypeScript,
    );
    assert_eq!(params, vec!["numbers"]);
}

#[test]
fn extract_parameters_python_self_skipped() {
    let params = extract_parameters(
        "def process(self, data: str, count: int) -> bool",
        LangId::Python,
    );
    assert_eq!(params, vec!["data", "count"]);
}

#[test]
fn extract_parameters_python_no_self() {
    let params = extract_parameters("def validate(input: str) -> bool", LangId::Python);
    assert_eq!(params, vec!["input"]);
}

#[test]
fn extract_parameters_python_star_args() {
    let params = extract_parameters("def func(*args, **kwargs)", LangId::Python);
    assert_eq!(params, vec!["args", "kwargs"]);
}

#[test]
fn extract_parameters_rust_self_skipped() {
    let params = extract_parameters(
        "fn process(&self, data: &str, count: usize) -> bool",
        LangId::Rust,
    );
    assert_eq!(params, vec!["data", "count"]);
}

#[test]
fn extract_parameters_rust_mut_self_skipped() {
    let params = extract_parameters("fn update(&mut self, value: i32)", LangId::Rust);
    assert_eq!(params, vec!["value"]);
}

#[test]
fn extract_parameters_rust_no_self() {
    let params = extract_parameters("fn validate(input: &str) -> bool", LangId::Rust);
    assert_eq!(params, vec!["input"]);
}

#[test]
fn extract_parameters_rust_mut_param() {
    let params = extract_parameters("fn process(mut buf: Vec<u8>, len: usize)", LangId::Rust);
    assert_eq!(params, vec!["buf", "len"]);
}

#[test]
fn extract_parameters_go() {
    let params = extract_parameters(
        "func ProcessData(input string, count int) error",
        LangId::Go,
    );
    assert_eq!(params, vec!["input", "count"]);
}

#[test]
fn extract_parameters_empty() {
    let params = extract_parameters("function noArgs(): void", LangId::TypeScript);
    assert!(
        params.is_empty(),
        "no-arg function should return empty params"
    );
}

#[test]
fn extract_parameters_no_parens() {
    let params = extract_parameters("const x = 42", LangId::TypeScript);
    assert!(params.is_empty(), "no parens should return empty params");
}

#[test]
fn extract_parameters_javascript() {
    let params = extract_parameters("function handleClick(event, target)", LangId::JavaScript);
    assert_eq!(params, vec!["event", "target"]);
}

