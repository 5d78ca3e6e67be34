//! Structural search and replacement, with the grammars of the languages.
use aft::ast_grep_lang::AstGrepLang;
use aft::commands::ast_replace::{
    apply_edits, handle_ast_replace, report_replacements, ReplaceEntry, WriteOutcome,
};
use aft::commands::ast_scope::{
    collect_ast_files, is_exclusion, resolve_roots, SearchRoot, WalkedRoot,
};
use aft::commands::ast_search::{
    collect_files, handle_ast_search, search_file, walk_rules, SourceFile,
};
use aft::commands::refusal::Refusal;
use aft::json::{Json, Member};
use aft::structural::GrepEdit;

fn text(s: &str) -> Json {
    Json::Text(s.to_string())
}

fn list(items: &[&str]) -> Json {
    Json::List(items.iter().map(|i| text(i)).collect())
}

fn object(members: Vec<(&str, Json)>) -> Json {
    Json::Object(
        members
            .into_iter()
            .map(|(key, value)| Member { key: key.to_string(), value })
            .collect(),
    )
}

fn source(path: &str, content: &str) -> SourceFile {
    SourceFile { path: path.to_string(), content: Some(content.to_string()) }
}

const SCRIPT: &str = "let a = 1;\nconsole.log(a);\nfoo(1, 2);\nconsole.log(b);\n";

#[test]
fn patterns_are_found_with_their_variables() {
    let found = search_file(SCRIPT, "/w/a.ts", "console.log($X)", &AstGrepLang::TypeScript, 0);
    assert_eq!(found.len(), 2);
    assert_eq!((found[0].line, found[0].column), (2, 0));
    assert_eq!(found[0].text, "console.log(a)");
    let captures = &found[0].meta_variables.list;
    assert_eq!(captures.len(), 1);
    assert_eq!(captures[0].texts, vec!["a".to_string()]);
    assert!(captures[0].name.contains('X'));
    assert!(found[0].context.is_none());
    let found = search_file(SCRIPT, "/w/a.ts", "foo($$$ARGS)", &AstGrepLang::TypeScript, 1);
    assert_eq!(found.len(), 1);
    assert!(found[0].meta_variables.list[0].many);
    let lines: Vec<usize> =
        found[0].context.as_ref().unwrap().iter().map(|l| l.line).collect();
    assert_eq!(lines, vec![2, 3, 4]);
    let matched: Vec<bool> =
        found[0].context.as_ref().unwrap().iter().map(|l| l.is_match).collect();
    assert_eq!(matched, vec![false, true, false]);
}

#[test]
fn files_are_searched() {
    let ask = object(vec![("pattern", text("console.log($X)")), ("lang", text("typescript"))]);
    let files = vec![
        source("/w/a.ts", SCRIPT),
        source("/w/b.ts", "nothing();\n"),
        SourceFile { path: "/w/c.ts".to_string(), content: None },
    ];
    let report = handle_ast_search(&ask, &files).ok().unwrap();
    assert_eq!(report.total_matches, 2);
    assert_eq!(report.files_with_matches, 1);
    assert_eq!(report.matches[1].file, "/w/a.ts");
}

#[test]
fn searches_are_refused() {
    let refused = |ask: Json| match handle_ast_search(&ask, &vec![]) {
        Err(Refusal::Request { code, .. }) => code,
        Err(Refusal::Pattern { code, .. }) => code,
        _ => panic!("expected a refusal"),
    };
    assert_eq!(refused(object(vec![])), "invalid_request");
    assert_eq!(
        refused(object(vec![("pattern", text("x")), ("lang", text("cobol"))])),
        "invalid_request"
    );
    assert_eq!(
        refused(object(vec![("pattern", text("")), ("lang", text("rust"))])),
        "invalid_pattern"
    );
}

#[test]
fn python_patterns_are_found() {
    let code = "def f(x):\n    return x\n";
    let found = search_file(code, "/w/a.py", "return $X", &AstGrepLang::Python, 0);
    assert_eq!(found.len(), 1);
    assert_eq!(found[0].meta_variables.list[0].texts, vec!["x".to_string()]);
}

fn walked(files: &[&str]) -> WalkedRoot {
    WalkedRoot {
        exists: true,
        files: files.iter().map(|f| f.to_string()).collect(),
        any: !files.is_empty(),
    }
}

fn replace(dry_run: bool) -> Json {
    object(vec![
        ("pattern", text("console.log($X)")),
        ("rewrite", text("log($X)")),
        ("lang", text("typescript")),
        ("dry_run", Json::Bool(dry_run)),
    ])
}

#[test]
fn patterns_are_replaced() {
    let plan = handle_ast_replace(
        &replace(false),
        "/w",
        &vec![walked(&["/w/a.ts", "/w/b.ts"])],
        &vec![Some(SCRIPT.to_string()), Some("nothing();\n".to_string())],
    )
    .ok()
    .unwrap();
    assert_eq!(plan.changes.len(), 1);
    assert_eq!(plan.changes[0].new_content, "let a = 1;\nlog(a);\nfoo(1, 2);\nlog(b);\n");
    assert_eq!(plan.changes[0].replacement_count, 2);
    assert_eq!(plan.files_searched, 2);
    let report = report_replacements(
        plan,
        vec![WriteOutcome::Tried { backup_id: Some("b1".to_string()), error: None }],
    )
    .ok()
    .unwrap();
    assert!(report.ok);
    assert_eq!(report.total_replacements, 2);
    assert!(matches!(report.files[0], ReplaceEntry::Written { .. }));
}

#[test]
fn replacements_end_at_a_refused_path() {
    let plan = handle_ast_replace(
        &replace(false),
        "/w",
        &vec![walked(&["/w/a.ts", "/w/b.ts"])],
        &vec![Some(SCRIPT.to_string()), Some(SCRIPT.to_string())],
    )
    .ok()
    .unwrap();
    assert_eq!(plan.changes.len(), 2);
    let refused = Refusal::Request { code: "outside".to_string(), message: "m".to_string() };
    let report = report_replacements(plan, vec![WriteOutcome::Refused(refused)]);
    assert!(matches!(report, Err(Refusal::Request { code, .. }) if code == "outside"));
}

#[test]
fn replacements_can_be_previewed() {
    let plan = handle_ast_replace(
        &replace(true),
        "/w",
        &vec![walked(&["/w/a.ts"])],
        &vec![Some(SCRIPT.to_string())],
    )
    .ok()
    .unwrap();
    assert!(plan.dry_run);
    let report = report_replacements(plan, vec![]).ok().unwrap();
    assert!(report.ok && report.dry_run);
    match &report.files[0] {
        ReplaceEntry::Preview { file, diff, replacements } => {
            assert_eq!((file.as_str(), *replacements), ("/w/a.ts", 2));
            assert!(diff.contains("-console.log(a);\n") && diff.contains("+log(a);\n"));
        }
        _ => panic!("expected a preview"),
    }
    let ask = object(vec![
        ("pattern", text("return $X;")),
        ("rewrite", text("return -$X;")),
        ("lang", text("c")),
    ]);
    let source = "int f(void) { return 1; }\n";
    let plan = handle_ast_replace(
        &ask,
        "/w",
        &vec![walked(&["/w/a.c"])],
        &vec![Some(source.to_string())],
    )
    .ok()
    .unwrap();
    assert!(plan.dry_run);
    assert_eq!(plan.changes[0].new_content, "int f(void) { return -1; }\n");
}

#[test]
fn edits_are_made_from_the_end() {
    let edits = vec![
        GrepEdit { position: 0, deleted_length: 1, inserted_text: b"XX".to_vec() },
        GrepEdit { position: 2, deleted_length: 1, inserted_text: b"".to_vec() },
    ];
    assert_eq!(apply_edits("abcd", edits), "XXbd");
}

#[test]
fn roots_are_resolved() {
    let roots = resolve_roots("/w", &vec!["src".to_string(), "/abs".to_string()]);
    assert_eq!(roots[0].path, "/w/src");
    assert_eq!(roots[1].path, "/abs");
    assert_eq!(resolve_roots("/w", &vec![])[0].path, "/w");
    assert!(is_exclusion("!*.ts"));
    assert!(!is_exclusion("*.ts"));
    assert_eq!(walk_rules(&vec!["a.ts".to_string()]).len(), 1);
    assert_eq!(
        collect_files(&vec!["/w/a.ts".to_string(), "/w/a.rs".to_string()], &vec!["ts"]),
        vec!["/w/a.ts".to_string()]
    );
}

fn root(path: &str, label: Option<&str>) -> SearchRoot {
    SearchRoot { path: path.to_string(), label: label.map(|l| l.to_string()) }
}

#[test]
fn scopes_are_told() {
    let globs = vec!["**/*.ts".to_string(), "never/**".to_string()];
    let scope = collect_ast_files(
        "ast_search",
        "/w",
        &vec![root("/w", None)],
        &vec![walked(&["/w/a.ts", "/w/src/b.ts"])],
        &globs,
    )
    .ok()
    .unwrap();
    assert_eq!(scope.files.len(), 2);
    assert!(!scope.no_files_matched_scope);
    assert_eq!(scope.scope_warnings.len(), 1);
    assert!(scope.scope_warnings[0].contains("never/**"));
    let gone = WalkedRoot { exists: false, files: vec![], any: false };
    let refused =
        collect_ast_files("ast_search", "/w", &vec![root("/w/x", Some("x"))], &vec![gone], &vec![]);
    assert!(refused.is_err());
    let empty = collect_ast_files(
        "ast_search",
        "/w",
        &vec![root("/w", None)],
        &vec![walked(&[])],
        &vec![],
    )
    .ok()
    .unwrap();
    assert!(empty.no_files_matched_scope);
}
