//! Commands that edit source files.
use aft::commands::add_decorator::handle_add_decorator;
use aft::commands::add_derive::handle_add_derive;
use aft::commands::add_import::{
    handle_add_import, write_import, ImportFacts, ImportOutcome, ImportPlace,
};
use aft::commands::add_member::{handle_add_member, indent_code};
use aft::commands::add_struct_tags::handle_add_struct_tags;
use aft::commands::batch::{
    apply_batch, edit_target, handle_batch, Match, MatchList, ResolvedEdit,
};
use aft::commands::delete_file::{check_delete, handle_delete_file};
use aft::commands::edit_match::{
    end_glob_edit, full_pattern, glob_checkpoint_name, handle_edit_match, handle_glob_edit_match,
    is_glob_pattern, total_replacements, GlobEvent, GlobFile, MatchOutcome,
};
use aft::commands::edit_symbol::{
    edit_context, handle_edit_symbol, narrow_matches, EditOutcome, SymbolMatch,
};
use aft::commands::extract_function::{
    apply_extraction, build_new_source, handle_extract_function, Extraction, ReturnKind,
};
use aft::commands::preview::{
    plan_edit, plan_glob_edits, validate_syntax, writes, EditEffect,
};
use aft::commands::refusal::Refusal;
use aft::commands::target::Target;
use aft::diff::dry_run_diff;
use aft::edit::{line_col_to_byte, replace_byte_range};
use aft::error::AftError;
use aft::json::{Json, JsonNumber, Member};
use aft::symbols::{Range, SymbolKind};

fn text(s: &str) -> Json {
    Json::Text(s.to_string())
}

fn number(n: u64) -> Json {
    Json::Number(JsonNumber::Unsigned(n))
}

fn object(members: Vec<(&str, Json)>) -> Json {
    Json::Object(
        members
            .into_iter()
            .map(|(key, value)| Member { key: key.to_string(), value })
            .collect(),
    )
}

fn file(content: &str) -> Target {
    Target { exists: true, is_dir: false, content: Ok(content.to_string()) }
}

fn missing() -> Target {
    Target { exists: false, is_dir: false, content: Err("missing".to_string()) }
}

fn code<T>(r: Result<T, Refusal>) -> (String, String) {
    match r {
        Err(Refusal::Request { code, message }) => (code, message),
        Err(Refusal::Pattern { code, message, .. }) => (code, message),
        _ => panic!("expected a refusal"),
    }
}

#[test]
fn extract_function_missing_file() {
    let (code, message) = code(handle_extract_function(&object(vec![]), &missing()));
    assert_eq!(code, "invalid_request");
    assert!(message.contains("file"));
}

#[test]
fn extract_function_missing_name() {
    let ask = object(vec![("file", text("/tmp/test.ts"))]);
    let (code, message) = code(handle_extract_function(&ask, &missing()));
    assert_eq!(code, "invalid_request");
    assert!(message.contains("name"));
}

#[test]
fn extract_function_missing_start_line() {
    let ask = object(vec![("file", text("/tmp/test.ts")), ("name", text("foo"))]);
    let (code, _) = code(handle_extract_function(&ask, &missing()));
    assert_eq!(code, "invalid_request");
}

fn lines(path: &str, name: &str, start: u64, end: u64) -> Json {
    object(vec![
        ("file", text(path)),
        ("name", text(name)),
        ("start_line", number(start)),
        ("end_line", number(end)),
    ])
}

#[test]
fn extract_function_unsupported_language() {
    let ask = lines("/tmp/aft_test_extract/test.rs", "foo", 1, 2);
    let (code, _) = code(handle_extract_function(&ask, &file("fn main() {}")));
    assert_eq!(code, "unsupported_language");
}

#[test]
fn extract_function_invalid_line_range() {
    let ask = lines("/tmp/aft_test_extract_range/test.ts", "foo", 6, 4);
    let (code, _) = code(handle_extract_function(&ask, &file("const x = 1;\n")));
    assert_eq!(code, "invalid_request");
}

const CLASS: &str = "class UserService {\n    constructor(private users: Map<string, string>) {}\n\n    rename(id: string) {\n        const user = this.users.get(id);\n        if (user) {\n            this.users.set(id, user.trim());\n        }\n        return user;\n    }\n}\n";

#[test]
fn extract_function_this_reference_error() {
    let ask = lines("/tmp/sample_this.ts", "extracted", 5, 8);
    let plan = handle_extract_function(&ask, &file(CLASS)).ok().unwrap();
    let found = Extraction {
        has_this_or_self: true,
        parameters: vec!["id".to_string()],
        return_kind: ReturnKind::Void,
        function: String::new(),
        call_site: String::new(),
    };
    let (code, message) = code(apply_extraction(CLASS, &plan, found));
    assert_eq!(code, "this_reference_in_range");
    assert!(message.contains("'this'"));
}

const SAMPLE: &str = "import { log } from './log';

interface Item {
    ok: boolean;
}

// Items that count.
const LIMIT = 10;

function size(items: Item[]) {
    return items.length;
}

function process(items: Item[]) {
    const filtered = items.filter(Boolean);
    const total = size(filtered);
    log(total, LIMIT);
    return total;
}
";

fn dry_run_lines() -> Json {
    object(vec![
        ("file", text("/tmp/sample.ts")),
        ("name", text("computeResult")),
        ("start_line", number(15)),
        ("end_line", number(17)),
        ("dry_run", Json::Bool(true)),
    ])
}

fn extraction() -> Extraction {
    Extraction {
        has_this_or_self: false,
        parameters: vec!["items".to_string()],
        return_kind: ReturnKind::Variable,
        function: "function computeResult(items) {\n    return 0;\n}".to_string(),
        call_site: "    const total = computeResult(items);".to_string(),
    }
}

#[test]
fn extract_function_dry_run_returns_diff() {
    let ask = dry_run_lines();
    let plan = handle_extract_function(&ask, &file(SAMPLE)).ok().unwrap();
    assert_eq!(plan.name, "computeResult");
    assert_eq!(plan.range_indent, "    ");
    let done = apply_extraction(SAMPLE, &plan, extraction()).ok().unwrap();
    assert_eq!(done.parameters, vec!["items".to_string()]);
    assert_eq!(done.return_type, "variable");
    assert!(!writes(&ask));
    let effect =
        plan_edit(&ask, "/tmp/sample.ts", SAMPLE, &done.new_source, &done.description);
    match effect {
        EditEffect::Preview { diff, syntax_valid } => {
            assert_eq!(
                diff,
                "--- a//tmp/sample.ts\n+++ b//tmp/sample.ts\n@@ -14,3 +14,6 @@\n\
                 -function process(items: Item[]) {\n\
                 -    const filtered = items.filter(Boolean);\n\
                 -    const total = size(filtered);\n\
                 +function computeResult(items) {\n\
                 +    return 0;\n\
                 +}\n\
                 +\n\
                 +function process(items: Item[]) {\n\
                 +    const total = computeResult(items);\n"
            );
            assert_eq!(syntax_valid, Some(true));
        }
        EditEffect::Write { .. } => panic!("a preview writes nothing"),
    }
}

#[test]
fn extraction_tells_where_it_stands() {
    let plan = handle_extract_function(&dry_run_lines(), &file(SAMPLE)).ok().unwrap();
    let done = apply_extraction(SAMPLE, &plan, extraction()).ok().unwrap();
    let moved = done.extracted_range;
    assert_eq!(
        &SAMPLE[moved.start..moved.end],
        "    const filtered = items.filter(Boolean);\n    const total = size(filtered);\n"
    );
    let call = done.call_site_range;
    assert_eq!(&done.new_source[call.start..call.end], "    const total = computeResult(items);");
}

#[test]
fn lines_have_numbers_that_fit() {
    let (code, message) = code(handle_extract_function(
        &lines("/tmp/sample.ts", "f", 1, 4_294_967_297),
        &file(SAMPLE),
    ));
    assert_eq!(code, "invalid_request");
    assert_eq!(message, "extract_function: 'end_line' is out of range");
}

#[test]
fn previews_write_nothing() {
    let preview = object(vec![("dry_run", Json::Bool(true))]);
    assert!(writes(&object(vec![])));
    assert!(writes(&object(vec![("dry_run", Json::Bool(false))])));
    assert!(writes(&object(vec![("dry_run", text("true"))])));
    match plan_edit(&object(vec![]), "/w/a.rs", "fn a() {}", "fn b() {}", "d") {
        EditEffect::Write { path, content, description } => {
            assert_eq!((path, content, description), ("/w/a.rs".into(), "fn b() {}".into(), "d".into()));
        }
        EditEffect::Preview { .. } => panic!("expected a write"),
    }
    match plan_edit(&preview, "/w/a.rs", "fn a() {}", "fn a( {}", "d") {
        EditEffect::Preview { syntax_valid, .. } => assert_eq!(syntax_valid, Some(false)),
        EditEffect::Write { .. } => panic!("expected a preview"),
    }
    assert_eq!(validate_syntax("/w/a.unknown", "x"), None);
    assert_eq!(validate_syntax("/w/a.py", "x = 1\n"), Some(true));
}

#[test]
fn differences_are_told_by_line() {
    assert_eq!(dry_run_diff("a", "x\ny\n", "x\ny\n"), "");
    assert_eq!(
        dry_run_diff("a", "x\ny\nz\n", "x\nY\nz\n"),
        "--- a/a\n+++ b/a\n@@ -2,1 +2,1 @@\n-y\n+Y\n"
    );
    assert_eq!(
        dry_run_diff("a", "x\nz\n", "x\ny\nz\n"),
        "--- a/a\n+++ b/a\n@@ -1,0 +2,1 @@\n+y\n"
    );
}

#[test]
fn extraction_keeps_what_is_around() {
    let source = "a\nb\nc\n";
    let moved = build_new_source(source, 0, 2, 4, "f", "call()").ok().unwrap();
    assert_eq!(moved, "f\n\na\ncall()\nc\n");
}

fn found(name: &str, start_line: u32, end_line: u32, scope: &[&str]) -> SymbolMatch {
    SymbolMatch {
        name: name.to_string(),
        kind: SymbolKind::Function,
        range: Range { start_line, start_col: 0, end_line, end_col: 1 },
        scope_chain: scope.iter().map(|s| s.to_string()).collect(),
        parent: None,
    }
}

const TWO: &str = "fn a() {\n    1\n}\n\nfn b() {\n}\n";

fn edit(operation: &str, content: Option<&str>) -> Json {
    let mut members = vec![
        ("file", text("/w/two.rs")),
        ("symbol", text("a")),
        ("operation", text(operation)),
    ];
    if let Some(c) = content {
        members.push(("content", text(c)));
    }
    object(members)
}

fn edited(operation: &str, content: Option<&str>) -> String {
    let outcome = handle_edit_symbol(
        &edit(operation, content),
        &file(TWO),
        Ok(vec![found("a", 0, 2, &[])]),
        None,
    );
    match outcome {
        Ok(EditOutcome::Edited(e)) => e.new_source,
        _ => panic!("expected an edit"),
    }
}

#[test]
fn symbols_are_edited() {
    assert_eq!(edited("replace", Some("fn a() {}")), "fn a() {}\n\nfn b() {\n}\n");
    assert!(!edited("delete", None).contains("fn a()"));
    assert!(edited("delete", None).contains("fn b() {\n}\n"));
    let before = edited("insert_before", Some("// note"));
    assert!(before.starts_with("// note\n") && before.ends_with(TWO));
    let after = edited("insert_after", Some("fn c() {}"));
    assert!(after.starts_with("fn a() {\n    1\n}\n") && after.contains("fn c() {}"));
}

#[test]
fn symbol_edits_are_refused() {
    let (c, _) = code(handle_edit_symbol(&object(vec![]), &file(TWO), Ok(vec![]), None));
    assert_eq!(c, "invalid_request");
    let (c, m) = code(handle_edit_symbol(&edit("delete", None), &missing(), Ok(vec![]), None));
    assert_eq!((c.as_str(), m.as_str()), ("file_not_found", "file not found: /w/two.rs"));
    let (c, _) = code(handle_edit_symbol(
        &edit("explode", None),
        &file(TWO),
        Ok(vec![found("a", 0, 2, &[])]),
        None,
    ));
    assert_eq!(c, "invalid_request");
    let error = handle_edit_symbol(
        &edit("delete", None),
        &file(TWO),
        Err(AftError::InvalidRequest { message: "no parser".to_string() }),
        None,
    );
    assert!(matches!(error, Err(Refusal::Error(AftError::InvalidRequest { .. }))));
}

#[test]
fn several_symbols_are_told() {
    let outcome = handle_edit_symbol(
        &edit("delete", None),
        &file(TWO),
        Ok(vec![found("a", 0, 2, &[]), found("a", 4, 5, &["Outer"])]),
        None,
    );
    match outcome {
        Ok(EditOutcome::Ambiguous(list)) => {
            assert_eq!(list.len(), 2);
            assert_eq!(list[1].qualified, "Outer::a");
        }
        _ => panic!("expected several"),
    }
    let left = narrow_matches(
        vec![found("a", 0, 2, &[]), found("a", 4, 5, &["Outer"])],
        Some("Outer"),
    );
    assert_eq!(left.len(), 1);
}

#[test]
fn edits_have_a_context() {
    let content = "0\n1\n2\n3\n4\n5\n6\n7\n";
    let range = Range { start_line: 4, start_col: 0, end_line: 4, end_col: 1 };
    let context = edit_context(content, &range, &None);
    assert_eq!(context.before, vec!["1", "2", "3"]);
    assert_eq!(context.after, vec!["5", "6", "7"]);
}

fn match_params(extra: Vec<(&str, Json)>) -> Json {
    let mut members = vec![
        ("file", text("/w/a.txt")),
        ("match", text("x")),
        ("replacement", text("yy")),
    ];
    members.extend(extra);
    object(members)
}

fn matches(offsets: &[usize]) -> Vec<Match> {
    offsets.iter().map(|&byte_start| Match { byte_start, byte_len: 1 }).collect()
}

#[test]
fn matches_are_replaced() {
    let source = "x a\nx b\nc x\n";
    let all = matches(&[0, 4, 10]);
    match handle_edit_match(&match_params(vec![]), &file(source), &all) {
        Ok(MatchOutcome::Ambiguous { occurrences, .. }) => {
            assert_eq!(occurrences.len(), 3);
            assert_eq!(occurrences[2].line, 3);
        }
        _ => panic!("expected several"),
    }
    let every = match_params(vec![("replace_all", Json::Bool(true))]);
    match handle_edit_match(&every, &file(source), &all) {
        Ok(MatchOutcome::Edited { new_source, replacements, .. }) => {
            assert_eq!(new_source, "yy a\nyy b\nc yy\n");
            assert_eq!(replacements, 3);
        }
        _ => panic!("expected an edit"),
    }
    let second = match_params(vec![("occurrence", number(1))]);
    match handle_edit_match(&second, &file(source), &all) {
        Ok(MatchOutcome::Edited { new_source, .. }) => {
            assert_eq!(new_source, "x a\nyy b\nc x\n");
        }
        _ => panic!("expected an edit"),
    }
    let far = match_params(vec![("occurrence", number(3))]);
    assert!(handle_edit_match(&far, &file(source), &all).is_err());
    let negative =
        match_params(vec![("occurrence", Json::Number(JsonNumber::Negative(-1)))]);
    let (c, m) = code(handle_edit_match(&negative, &file(source), &all));
    assert_eq!(c, "invalid_request");
    assert!(m.starts_with("edit_match: occurrence 18446744073709551615 out of range"));
    let (c, _) = code(handle_edit_match(&match_params(vec![]), &file(source), &vec![]));
    assert_eq!(c, "match_not_found");
}

fn glob_files(second: Result<&str, &str>) -> Vec<GlobFile> {
    let named = |path: &str, content: Option<&str>, validated: Result<&str, &str>| GlobFile {
        path: path.to_string(),
        content: content.map(|c| c.to_string()),
        validated: match validated {
            Ok(p) => Ok(p.to_string()),
            Err(e) => Err(Refusal::Request { code: e.to_string(), message: String::new() }),
        },
    };
    vec![
        named("/w/a", Some("one two one"), Ok("/real/a")),
        named("/w/b", Some("none"), second),
        named("/w/c", None, Err("outside")),
    ]
}

#[test]
fn files_out_of_bounds_are_not_written() {
    let (c, _) =
        code(handle_glob_edit_match(glob_files(Err("outside")), "*", "one", "1", true));
    assert_eq!(c, "outside");
    let shown =
        handle_glob_edit_match(glob_files(Err("outside")), "*", "one", "1", false).ok().unwrap();
    assert_eq!(shown[1].path, "/w/b");
    let preview = object(vec![("dry_run", Json::Bool(true))]);
    let effects = plan_glob_edits(&preview, &shown, "one");
    assert_eq!(effects.len(), 2);
    assert!(effects.iter().all(|e| matches!(e, EditEffect::Preview { .. })));
    match &plan_glob_edits(&object(vec![]), &shown, "one")[0] {
        EditEffect::Write { description, .. } => assert_eq!(description, "glob_edit_match: one"),
        EditEffect::Preview { .. } => panic!("expected a write"),
    }
    let (c, m) = code(handle_glob_edit_match(glob_files(Ok("/b")), "*.x", "absent", "1", true));
    assert_eq!(c, "match_not_found");
    assert_eq!(m, "edit_match: 'absent' not found in any files matching '*.x'");
}

#[test]
fn many_files_are_edited_at_once() {
    assert!(is_glob_pattern("src/*.rs"));
    assert!(!is_glob_pattern("src/a.rs"));
    assert_eq!(full_pattern("*.rs", "/w"), "/w/*.rs");
    assert_eq!(full_pattern("/abs/*.rs", "/w"), "/abs/*.rs");
    let pending =
        handle_glob_edit_match(glob_files(Ok("/real/b")), "*", "one", "1", true).ok().unwrap();
    assert_eq!(pending.len(), 2);
    assert_eq!(pending[0].new_source, "1 two 1");
    assert_eq!(pending[1].new_source, "n1");
    assert_eq!((pending[1].path.as_str(), pending[1].file.as_str()), ("/real/b", "/w/b"));
    assert_eq!(total_replacements(&pending), 3);
    let end = end_glob_edit(
        &pending,
        GlobEvent::WriteFailed { index: 1, error: "full".to_string() },
    );
    assert!(end.delete_checkpoint);
    assert_eq!(
        code(Err::<(), _>(end.refusal.unwrap())),
        ("write_error".to_string(), "failed to write /w/b: full".to_string()),
    );
    assert_eq!(end.restore, vec!["/real/a".to_string()]);
    let end = end_glob_edit(&pending, GlobEvent::Finished);
    assert!(end.refusal.is_none() && end.restore.is_empty());
    assert_eq!(glob_checkpoint_name(17), "__edit_match_glob_17__");
}

#[test]
fn batches_are_applied() {
    let source = "one\ntwo\nthree\n";
    let edits = Json::List(vec![
        object(vec![("match", text("two")), ("replacement", text("2"))]),
        object(vec![
            ("line_start", number(1)),
            ("line_end", number(1)),
            ("content", text("1")),
        ]),
    ]);
    let params = object(vec![("file", text("/w/a.txt")), ("edits", edits)]);
    let found = vec![
        MatchList { matches: vec![Match { byte_start: 4, byte_len: 3 }] },
        MatchList { matches: vec![] },
    ];
    let resolved = handle_batch(&params, &file(source), &found).ok().unwrap();
    assert_eq!(apply_batch(source, resolved).ok().unwrap(), "1\n2\nthree\n");
    assert_eq!(
        edit_target(&object(vec![("match", text("m"))])),
        Some("m")
    );
    let none = vec![MatchList { matches: vec![] }, MatchList { matches: vec![] }];
    assert!(handle_batch(&params, &file(source), &none).is_err());
}

#[test]
fn overlapping_batches_are_refused() {
    let overlap = vec![
        ResolvedEdit { byte_start: 0, byte_end: 3, replacement: String::new() },
        ResolvedEdit { byte_start: 2, byte_end: 4, replacement: String::new() },
    ];
    assert!(apply_batch("abcdef", overlap).is_err());
}

const CLASS_TS: &str = "class A {\n    one() {}\n    two() {}\n}\n";

fn member(scope: &str, position: &str) -> Json {
    object(vec![
        ("file", text("/w/a.ts")),
        ("scope", text(scope)),
        ("code", text("three() {}")),
        ("position", text(position)),
    ])
}

#[test]
fn members_are_added() {
    assert_eq!(
        handle_add_member(&member("A", "last"), &file(CLASS_TS), "  ").ok().unwrap(),
        "class A {\n    one() {}\n    two() {}\n    three() {}\n}\n"
    );
    assert_eq!(
        handle_add_member(&member("A", "first"), &file(CLASS_TS), "  ").ok().unwrap(),
        "class A {\n    three() {}\n    one() {}\n    two() {}\n}\n"
    );
    assert_eq!(
        handle_add_member(&member("A", "after:one"), &file(CLASS_TS), "  ").ok().unwrap(),
        "class A {\n    one() {}\n    three() {}\n    two() {}\n}\n"
    );
    assert!(handle_add_member(&member("B", "last"), &file(CLASS_TS), "  ").is_err());
    assert!(handle_add_member(&member("A", "after:x"), &file(CLASS_TS), "  ").is_err());
    assert_eq!(indent_code("a\n\nb", "  "), "  a\n\n  b\n");
}

#[test]
fn struct_tags_are_added() {
    let source = "package p\n\ntype User struct {\n\tName string `json:\"name\"`\n\tAge int\n}\n";
    let ask = |field: &str| {
        object(vec![
            ("file", text("/w/a.go")),
            ("target", text("User")),
            ("field", text(field)),
            ("tag", text("xml")),
            ("value", text("v")),
        ])
    };
    let done = handle_add_struct_tags(&ask("Name"), &file(source)).ok().unwrap();
    assert!(done.new_source.contains("Name string `json:\"name\" xml:\"v\"`"));
    let done = handle_add_struct_tags(&ask("Age"), &file(source)).ok().unwrap();
    assert!(done.new_source.contains("Age int `xml:\"v\"`"));
    assert!(handle_add_struct_tags(&ask("Gone"), &file(source)).is_err());
}

#[test]
fn decorators_are_added() {
    let source = "class A:\n    @old\n    def f(self):\n        pass\n";
    let ask = |target: &str, position: &str| {
        object(vec![
            ("file", text("/w/a.py")),
            ("target", text(target)),
            ("decorator", text("new")),
            ("position", text(position)),
        ])
    };
    assert_eq!(
        handle_add_decorator(&ask("f", "first"), &file(source)).ok().unwrap(),
        "class A:\n    @new\n    @old\n    def f(self):\n        pass\n"
    );
    assert_eq!(
        handle_add_decorator(&ask("f", "last"), &file(source)).ok().unwrap(),
        "class A:\n    @old\n    @new\n    def f(self):\n        pass\n"
    );
    assert!(handle_add_decorator(&ask("g", "first"), &file(source)).is_err());
}

#[test]
fn derives_are_added() {
    let ask = |target: &str, derives: &[&str]| {
        object(vec![
            ("file", text("/w/a.rs")),
            ("target", text(target)),
            ("derives", Json::List(derives.iter().map(|d| text(d)).collect())),
        ])
    };
    let source = "#[derive(Debug)]\nstruct A;\n\nstruct B;\n";
    let done = handle_add_derive(&ask("A", &["Clone", "Debug"]), &file(source)).ok().unwrap();
    assert_eq!(done.derives, vec!["Debug".to_string(), "Clone".to_string()]);
    assert_eq!(done.new_source, "#[derive(Debug, Clone)]\nstruct A;\n\nstruct B;\n");
    let done = handle_add_derive(&ask("B", &["Clone"]), &file(source)).ok().unwrap();
    assert_eq!(
        done.new_source,
        "#[derive(Debug)]\nstruct A;\n\n#[derive(Clone)]\nstruct B;\n"
    );
    assert!(handle_add_derive(&ask("C", &["Clone"]), &file(source)).is_err());
    assert!(handle_add_derive(&ask("A", &[]), &file(source)).is_err());
}

fn place() -> ImportPlace {
    ImportPlace {
        offset: 4,
        blank_before: false,
        blank_after: true,
        line: "import b from 'b';".to_string(),
        group: "outside".to_string(),
    }
}

#[test]
fn imports_are_added() {
    let ask = object(vec![("file", text("/w/a.ts")), ("module", text("b"))]);
    assert_eq!(write_import(&place()), "import b from 'b';\n\n");
    let facts = ImportFacts { source: "abc\ndef\n".to_string(), place: Some(place()) };
    match handle_add_import(&ask, true, true, Ok(facts)) {
        Ok(ImportOutcome::Added { new_source, module, .. }) => {
            assert_eq!(new_source, "abc\nimport b from 'b';\n\ndef\n");
            assert_eq!(module, "b");
        }
        _ => panic!("expected an import"),
    }
    let facts = ImportFacts { source: "abc\n".to_string(), place: None };
    assert!(matches!(
        handle_add_import(&ask, true, true, Ok(facts)),
        Ok(ImportOutcome::Present { .. })
    ));
    let facts = ImportFacts { source: String::new(), place: None };
    assert!(handle_add_import(&ask, false, true, Ok(facts)).is_err());
}

#[test]
fn files_are_deleted() {
    let ask = object(vec![("file", text("a.txt"))]);
    let path = || Ok("/w/a.txt".to_string());
    let (file, allowed) = check_delete(&ask, path(), true, false).ok().unwrap();
    assert_eq!((file.as_str(), allowed.as_str()), ("a.txt", "/w/a.txt"));
    let delete = |exists, is_dir, backup, removed| {
        handle_delete_file(&ask, path(), exists, is_dir, backup, removed)
    };
    let done = delete(true, false, Ok(Some("b1".to_string())), Ok(())).ok().unwrap();
    assert_eq!((done.file.as_str(), done.backup_id.as_deref()), ("a.txt", Some("b1")));
    let pair = |code: &str, message: &str| (code.to_string(), message.to_string());
    assert_eq!(
        code(delete(false, false, Ok(None), Ok(()))),
        pair("file_not_found", "delete_file: file not found: a.txt"),
    );
    assert_eq!(
        code(delete(true, true, Ok(None), Ok(()))),
        pair("invalid_request", "delete_file: 'a.txt' is a directory, not a file"),
    );
    assert_eq!(
        code(delete(true, false, Ok(None), Err("denied".to_string()))),
        pair("io_error", "delete_file: failed to delete: denied"),
    );
    let missing = check_delete(&object(vec![]), path(), true, false);
    assert_eq!(
        code(missing),
        pair("invalid_request", "delete_file: missing required param 'file'"),
    );
}

#[test]
fn offsets_are_counted_in_bytes() {
    assert_eq!(line_col_to_byte("aé\nbc\n", 1, 1), 5);
    assert_eq!(replace_byte_range("abc", 1, 2, "XY").ok().unwrap(), "aXYc");
    assert!(replace_byte_range("é", 1, 2, "x").is_err());
}
