//! The call graph of small projects.
use aft::callgraph::files::{is_skipped_dir, walk_project_files};
use aft::callgraph::graph::CallGraph;
use aft::callgraph::model::{CallTreeNode, EdgeResolution, ImportBlock, ImportStatement};
use aft::callgraph::worktree::{SourceFile, Symbol, Worktree};
use aft::commands::impact::handle_impact;
use aft::commands::refusal::Refusal;
use aft::error::AftError;
use aft::json::{Json, JsonNumber, Member};
use aft::models::Entry;
use aft::symbols::SymbolKind;

fn symbol(name: &str, lines: (u32, u32), exported: bool) -> Symbol {
    Symbol {
        name: name.to_string(),
        kind: SymbolKind::Function,
        start_line: lines.0,
        start_col: 0,
        end_line: lines.1,
        end_col: 1,
        exported,
        signature: None,
    }
}

fn names(module: &str, names: &[&str], raw: &str) -> ImportStatement {
    ImportStatement {
        module: module.to_string(),
        names: names.iter().map(|n| n.to_string()).collect(),
        default_import: None,
        namespace_import: None,
        raw_text: raw.to_string(),
    }
}

struct Project {
    worktree: Worktree,
}

impl Project {
    fn new() -> Project {
        Project {
            worktree: Worktree {
                files: vec![],
                dirs: vec!["/p".to_string()],
                links: vec![],
                project_files: vec![],
            },
        }
    }

    fn file(
        mut self,
        name: &str,
        content: &str,
        symbols: Vec<Symbol>,
        imports: Vec<ImportStatement>,
    ) -> Project {
        let path = format!("/p/{name}");
        self.worktree.files.push(Entry {
            key: path.clone(),
            value: SourceFile {
                content: Ok(content.to_string()),
                symbols,
                imports: ImportBlock { imports },
            },
        });
        self.worktree.project_files.push(path);
        self
    }
}

fn setup_ts_project() -> Worktree {
    let mut math = names("./math", &[], "import * as math from './math';");
    math.namespace_import = Some("math".to_string());
    Project::new()
        .file(
            "main.ts",
            r#"import { helper, compute } from './utils';
import * as math from './math';

export function main() {
    const a = helper(1);
    const b = compute(a, 2);
    const c = math.add(a, b);
    return c;
}
"#,
            vec![symbol("main", (3, 8), true)],
            vec![
                names(
                    "./utils",
                    &["helper", "compute"],
                    "import { helper, compute } from './utils';",
                ),
                math,
            ],
        )
        .file(
            "utils.ts",
            r#"import { double } from './helpers';

export function helper(x: number): number {
    return double(x);
}

export function compute(a: number, b: number): number {
    return a + b;
}
"#,
            vec![symbol("helper", (2, 4), true), symbol("compute", (6, 8), true)],
            vec![names("./helpers", &["double"], "import { double } from './helpers';")],
        )
        .file(
            "helpers.ts",
            r#"export function double(x: number): number {
    return x * 2;
}

export function triple(x: number): number {
    return x * 3;
}
"#,
            vec![symbol("double", (0, 2), true), symbol("triple", (4, 6), true)],
            vec![],
        )
        .file(
            "math.ts",
            r#"export function add(a: number, b: number): number {
    return a + b;
}

export function subtract(a: number, b: number): number {
    return a - b;
}
"#,
            vec![symbol("add", (0, 2), true), symbol("subtract", (4, 6), true)],
            vec![],
        )
        .worktree
}

fn setup_alias_project() -> Worktree {
    Project::new()
        .file(
            "main.ts",
            r#"import { helper as h } from './utils';

export function main() {
    return h(42);
}
"#,
            vec![symbol("main", (2, 4), true)],
            vec![names("./utils", &["helper"], "import { helper as h } from './utils';")],
        )
        .file(
            "utils.ts",
            r#"export function helper(x: number): number {
    return x + 1;
}
"#,
            vec![symbol("helper", (0, 2), true)],
            vec![],
        )
        .worktree
}

fn setup_cycle_project() -> Worktree {
    Project::new()
        .file(
            "a.ts",
            r#"import { funcB } from './b';

export function funcA() {
    return funcB();
}
"#,
            vec![symbol("funcA", (2, 4), true)],
            vec![names("./b", &["funcB"], "import { funcB } from './b';")],
        )
        .file(
            "b.ts",
            r#"import { funcA } from './a';

export function funcB() {
    return funcA();
}
"#,
            vec![symbol("funcB", (2, 4), true)],
            vec![names("./a", &["funcA"], "import { funcA } from './a';")],
        )
        .worktree
}

fn setup_trace_project() -> Worktree {
    Project::new()
        .file(
            "main.ts",
            r#"import { processData } from './utils';

export function main() {
    const result = processData("hello");
    return result;
}
"#,
            vec![symbol("main", (2, 5), true)],
            vec![names("./utils", &["processData"], "import { processData } from './utils';")],
        )
        .file(
            "service.ts",
            r#"import { processData } from './utils';

export function handleRequest(input: string): string {
    return processData(input);
}
"#,
            vec![symbol("handleRequest", (2, 4), true)],
            vec![names("./utils", &["processData"], "import { processData } from './utils';")],
        )
        .file(
            "utils.ts",
            r#"import { validate } from './helpers';

export function processData(input: string): string {
    const valid = validate(input);
    if (!valid) {
        throw new Error("invalid input");
    }
    return input.toUpperCase();
}
"#,
            vec![symbol("processData", (2, 8), true)],
            vec![names("./helpers", &["validate"], "import { validate } from './helpers';")],
        )
        .file(
            "helpers.ts",
            r#"export function validate(input: string): boolean {
    return checkFormat(input);
}

function checkFormat(input: string): boolean {
    return input.length > 0 && /^[a-zA-Z]+$/.test(input);
}
"#,
            vec![symbol("validate", (0, 2), true), symbol("checkFormat", (4, 6), false)],
            vec![],
        )
        .file(
            "test_helpers.ts",
            r#"import { validate } from './helpers';

function testValidation() {
    const result = validate("hello");
    console.log(result);
}
"#,
            vec![symbol("testValidation", (2, 5), false)],
            vec![names("./helpers", &["validate"], "import { validate } from './helpers';")],
        )
        .worktree
}

fn graph() -> CallGraph {
    CallGraph::new("/p".to_string())
}

fn import_block(graph: &mut CallGraph, w: &Worktree) -> ImportBlock {
    let data = graph.build_file(w, "/p/main.ts").ok().unwrap();
    ImportBlock {
        imports: data
            .import_block
            .imports
            .iter()
            .map(|i| ImportStatement {
                module: i.module.clone(),
                names: i.names.clone(),
                default_import: i.default_import.clone(),
                namespace_import: i.namespace_import.clone(),
                raw_text: i.raw_text.clone(),
            })
            .collect(),
    }
}

#[test]
fn callgraph_single_file_call_extraction() {
    let w = setup_ts_project();
    let mut graph = graph();

    let data = graph.build_file(&w, "/p/main.ts").ok().unwrap();
    let main_calls = &data.calls_by_symbol.iter().find(|e| e.key == "main").unwrap().value.sites;

    let callee_names: Vec<&str> = main_calls.iter().map(|c| c.callee_name.as_str()).collect();
    assert!(callee_names.contains(&"helper"));
    assert!(callee_names.contains(&"compute"));
    assert!(callee_names.contains(&"add"));
    assert!(main_calls.iter().any(|c| c.full_callee == "math.add" && c.line == 7));
}

#[test]
fn callgraph_file_data_has_exports() {
    let w = setup_ts_project();
    let mut graph = graph();

    let data = graph.build_file(&w, "/p/utils.ts").ok().unwrap();
    assert!(data.exported_symbols.contains(&"helper".to_string()));
    assert!(data.exported_symbols.contains(&"compute".to_string()));
}

#[test]
fn callgraph_resolve_direct_import() {
    let w = setup_ts_project();
    let mut graph = graph();
    let imports = import_block(&mut graph, &w);

    match graph.resolve_cross_file_edge(&w, "helper", "helper", "/p/main.ts", &imports) {
        EdgeResolution::Resolved { file, symbol } => {
            assert!(file.ends_with("utils.ts"));
            assert_eq!(symbol, "helper");
        }
        EdgeResolution::Unresolved { callee_name } => {
            panic!("Expected resolved, got unresolved: {}", callee_name);
        }
    }
}

#[test]
fn callgraph_resolve_namespace_import() {
    let w = setup_ts_project();
    let mut graph = graph();
    let imports = import_block(&mut graph, &w);

    match graph.resolve_cross_file_edge(&w, "math.add", "add", "/p/main.ts", &imports) {
        EdgeResolution::Resolved { file, symbol } => {
            assert!(file.ends_with("math.ts"));
            assert_eq!(symbol, "add");
        }
        EdgeResolution::Unresolved { callee_name } => {
            panic!("Expected resolved, got unresolved: {}", callee_name);
        }
    }
}

#[test]
fn callgraph_resolve_aliased_import() {
    let w = setup_alias_project();
    let mut graph = graph();
    let imports = import_block(&mut graph, &w);

    match graph.resolve_cross_file_edge(&w, "h", "h", "/p/main.ts", &imports) {
        EdgeResolution::Resolved { file, symbol } => {
            assert!(file.ends_with("utils.ts"));
            assert_eq!(symbol, "helper");
        }
        EdgeResolution::Unresolved { callee_name } => {
            panic!("Expected resolved, got unresolved: {}", callee_name);
        }
    }
}

#[test]
fn callgraph_unresolved_edge_marked() {
    let w = setup_ts_project();
    let mut graph = graph();
    let imports = import_block(&mut graph, &w);

    match graph.resolve_cross_file_edge(&w, "unknownFunc", "unknownFunc", "/p/main.ts", &imports) {
        EdgeResolution::Unresolved { callee_name } => assert_eq!(callee_name, "unknownFunc"),
        EdgeResolution::Resolved { .. } => panic!("Unknown callee should be unresolved"),
    }
}

fn count_depth(node: &CallTreeNode) -> usize {
    if node.children.is_empty() {
        1
    } else {
        1 + node.children.iter().map(count_depth).max().unwrap_or(0)
    }
}

#[test]
fn callgraph_cycle_detection_stops() {
    let w = setup_cycle_project();
    let mut graph = graph();

    let tree = graph.forward_tree(&w, "/p/a.ts", "funcA", 10).ok().unwrap();

    assert_eq!(tree.name, "funcA");
    assert!(tree.resolved);
    assert!(count_depth(&tree) <= 4);
}

#[test]
fn callgraph_depth_limit_truncates() {
    let w = setup_ts_project();
    let mut graph = graph();

    let tree = graph.forward_tree(&w, "/p/main.ts", "main", 1).ok().unwrap();

    assert_eq!(tree.name, "main");
    assert!(!tree.children.is_empty());
    for child in &tree.children {
        assert!(child.children.is_empty());
    }
}

#[test]
fn callgraph_depth_zero_no_children() {
    let w = setup_ts_project();
    let mut graph = graph();

    let tree = graph.forward_tree(&w, "/p/main.ts", "main", 0).ok().unwrap();

    assert_eq!(tree.name, "main");
    assert!(tree.children.is_empty());
}

#[test]
fn callgraph_forward_tree_cross_file() {
    let w = setup_ts_project();
    let mut graph = graph();

    let tree = graph.forward_tree(&w, "/p/main.ts", "main", 5).ok().unwrap();

    assert_eq!(tree.name, "main");
    assert!(tree.resolved);

    let helper = tree.children.iter().find(|c| c.name == "helper").unwrap();
    assert!(helper.file.ends_with("utils.ts") || helper.file == "utils.ts");

    let double = helper.children.iter().find(|c| c.name == "double").unwrap();
    assert!(double.file.ends_with("helpers.ts") || double.file == "helpers.ts");
}

fn file_names(files: &[String]) -> Vec<String> {
    files.iter().map(|f| f.rsplit('/').next().unwrap().to_string()).collect()
}

#[test]
fn callgraph_walker_only_source_files() {
    let found = vec![
        "/p/main.ts".to_string(),
        "/p/readme.md".to_string(),
        "/p/data.json".to_string(),
    ];

    let names = file_names(&walk_project_files("/p", &found));

    assert!(names.contains(&"main.ts".to_string()));
    assert!(names.contains(&"readme.md".to_string()));
    assert!(!names.contains(&"data.json".to_string()));
}

#[test]
fn walker_leaves_directories_out() {
    let found = vec![
        "/w/build/p/main.ts".to_string(),
        "/w/build/p/node_modules/dep.ts".to_string(),
        "/w/build/p/src/dist/out.ts".to_string(),
        "/w/build/p/src/target".to_string(),
        "/w/build/p/src/target.rs".to_string(),
    ];
    assert_eq!(
        file_names(&walk_project_files("/w/build/p", &found)),
        vec!["main.ts".to_string(), "target.rs".to_string()]
    );
    assert!(is_skipped_dir(".git"));
    assert!(!is_skipped_dir("src"));
}

#[test]
fn callgraph_callers_of_direct() {
    let w = setup_ts_project();
    let mut graph = graph();

    let result = graph.callers_of(&w, "/p/helpers.ts", "double", 1).ok().unwrap();

    assert_eq!(result.symbol, "double");
    assert!(result.total_callers > 0);
    assert!(result.scanned_files > 0);

    let group = result.callers.iter().find(|g| g.file.contains("utils.ts")).unwrap();
    assert!(group.callers.iter().any(|c| c.symbol == "helper"));
}

#[test]
fn callgraph_callers_of_no_callers() {
    let w = setup_ts_project();
    let mut graph = graph();

    let result = graph.callers_of(&w, "/p/main.ts", "main", 1).ok().unwrap();

    assert_eq!(result.symbol, "main");
    assert_eq!(result.total_callers, 0);
    assert!(result.callers.is_empty());
}

#[test]
fn callgraph_callers_recursive_depth() {
    let w = setup_ts_project();
    let mut graph = graph();

    let result = graph.callers_of(&w, "/p/helpers.ts", "double", 2).ok().unwrap();

    assert!(result.total_callers >= 2);
    assert!(result.callers.iter().any(|g| g.file.contains("main.ts")));
    let listed: usize = result.callers.iter().map(|g| g.callers.len()).sum();
    assert_eq!(listed, result.total_callers);
}

#[test]
fn callers_stand_in_one_group_per_file() {
    let w = Project::new()
        .file(
            "z.ts",
            "export function leaf() {\n    return 1;\n}\nfunction own() {\n    return leaf();\n}\n",
            vec![symbol("leaf", (0, 2), true), symbol("own", (3, 5), false)],
            vec![],
        )
        .file(
            "b/x.ts",
            "import { leaf } from '../z';\nfunction one() {\n    leaf();\n}\nfunction two() {\n    leaf();\n}\n",
            vec![symbol("one", (1, 3), false), symbol("two", (4, 6), false)],
            vec![names("../z", &["leaf"], "import { leaf } from '../z';")],
        )
        .file(
            "a.ts",
            "import { leaf } from './z';\nfunction far() {\n    leaf();\n}\n",
            vec![symbol("far", (1, 3), false)],
            vec![names("./z", &["leaf"], "import { leaf } from './z';")],
        )
        .worktree;
    let told = |depth: usize| {
        let r = graph().callers_of(&w, "/p/z.ts", "leaf", depth).ok().unwrap();
        let groups: Vec<(String, Vec<String>)> = r
            .callers
            .iter()
            .map(|g| (g.file.clone(), g.callers.iter().map(|c| c.symbol.clone()).collect()))
            .collect();
        (groups, r.total_callers)
    };
    let (groups, total) = told(1);
    let files: Vec<&str> = groups.iter().map(|g| g.0.as_str()).collect();
    assert_eq!(files, vec!["a.ts", "b/x.ts", "z.ts"]);
    assert_eq!(groups[1].1, vec!["one".to_string(), "two".to_string()]);
    assert_eq!(total, 4);
    assert_eq!(told(0), told(1));
}

#[test]
fn callgraph_invalidate_file_clears_reverse_index() {
    let w = setup_ts_project();
    let mut graph = graph();

    let _ = graph.callers_of(&w, "/p/helpers.ts", "double", 1).ok().unwrap();
    assert!(graph.reverse_index.is_some());

    graph.invalidate_file(&w, "/p/utils.ts");

    assert!(graph.reverse_index.is_none());
    assert!(!graph.data.iter().any(|e| e.key == "/p/utils.ts"));
    assert!(graph.data.iter().any(|e| e.key == "/p/helpers.ts"));
    assert!(graph.project_files.is_none());
}

#[test]
fn invalidated_files_are_read_again() {
    let mut w = setup_ts_project();
    let mut graph = graph();
    let before = graph.callers_of(&w, "/p/helpers.ts", "double", 1).ok().unwrap();
    assert_eq!(before.total_callers, 1);
    w.files[1].value.content = Ok("export function helper(x) {\n    return x;\n}\n".to_string());
    w.files[1].value.symbols = vec![symbol("helper", (0, 2), true)];
    let still = graph.callers_of(&w, "/p/helpers.ts", "double", 1).ok().unwrap();
    assert_eq!(still.total_callers, 1);
    graph.invalidate_file(&w, "utils.ts");
    let after = graph.callers_of(&w, "/p/helpers.ts", "double", 1).ok().unwrap();
    assert_eq!(after.total_callers, 0);
}

#[test]
fn callgraph_symbol_metadata_populated() {
    let w = setup_ts_project();
    let mut graph = graph();

    let data = graph.build_file(&w, "/p/utils.ts").ok().unwrap();
    let meta = &data.symbol_metadata.iter().find(|e| e.key == "helper").unwrap().value;
    assert!(matches!(meta.kind, SymbolKind::Function));
    assert!(meta.exported);
}

#[test]
fn trace_to_multi_path() {
    let w = setup_trace_project();
    let mut graph = graph();

    let result = graph.trace_to(&w, "/p/helpers.ts", "checkFormat", 10).ok().unwrap();

    assert_eq!(result.target_symbol, "checkFormat");
    assert!(result.total_paths >= 2);
    for path in &result.paths {
        assert!(path.hops.first().unwrap().is_entry_point);
        assert_eq!(path.hops.last().unwrap().symbol, "checkFormat");
    }
    assert!(result.entry_points_found >= 2);
    let ways: Vec<Vec<&str>> = result
        .paths
        .iter()
        .map(|p| p.hops.iter().map(|h| h.symbol.as_str()).collect())
        .collect();
    assert!(ways.contains(&vec!["main", "processData", "validate", "checkFormat"]));
    assert!(ways.contains(&vec!["testValidation", "validate", "checkFormat"]));
}

#[test]
fn entry_points_are_no_dead_ends() {
    let w = setup_trace_project();
    let result = graph().trace_to(&w, "/p/utils.ts", "processData", 10).ok().unwrap();
    assert!(result.paths.iter().any(|p| p.hops[0].symbol == "main"));
    assert_eq!(result.truncated_paths, 0);
}

#[test]
fn trace_to_single_path() {
    let w = setup_trace_project();
    let mut graph = graph();

    let result = graph.trace_to(&w, "/p/helpers.ts", "validate", 10).ok().unwrap();

    assert_eq!(result.target_symbol, "validate");
    assert!(result.total_paths >= 2);
}

#[test]
fn trace_to_cycle_detection() {
    let w = setup_cycle_project();
    let mut graph = graph();

    let result = graph.trace_to(&w, "/p/a.ts", "funcA", 10).ok().unwrap();

    assert_eq!(result.target_symbol, "funcA");
}

#[test]
fn trace_to_depth_limit() {
    let w = setup_trace_project();
    let mut graph = graph();

    let result = graph.trace_to(&w, "/p/helpers.ts", "checkFormat", 1).ok().unwrap();
    assert_eq!(result.target_symbol, "checkFormat");

    let deep = graph.trace_to(&w, "/p/helpers.ts", "checkFormat", 10).ok().unwrap();
    assert!(result.total_paths <= deep.total_paths);
    assert!(result.max_depth_reached);
}

#[test]
fn trace_to_entry_point_target() {
    let w = setup_trace_project();
    let mut graph = graph();

    let result = graph.trace_to(&w, "/p/main.ts", "main", 10).ok().unwrap();

    assert_eq!(result.target_symbol, "main");
    assert!(result.total_paths >= 1);
    assert!(result.paths.iter().any(|p| p.hops.len() == 1));
}

#[test]
fn unreadable_files_are_an_error() {
    let w = setup_ts_project();
    let mut graph = graph();
    assert!(graph.build_file(&w, "/p/gone.ts").is_err());
    match graph.forward_tree(&w, "/p/data.json", "x", 1) {
        Err(AftError::InvalidRequest { .. }) | Err(AftError::FileNotFound { .. }) => {}
        _ => panic!("expected an error"),
    }
}

#[test]
fn changes_have_an_impact() {
    let w = setup_trace_project();
    let mut graph = graph();
    let result = graph.impact(&w, "/p/utils.ts", "processData", 1).ok().unwrap();
    assert_eq!(result.total_affected, 2);
    assert_eq!(result.affected_files, 2);
    let files: Vec<&str> = result.callers.iter().map(|c| c.caller_file.as_str()).collect();
    assert_eq!(files, vec!["main.ts", "service.ts"]);
    assert_eq!(
        result.callers[1].call_expression.as_deref(),
        Some("return processData(input);")
    );
    assert!(result.callers[0].is_entry_point);
}

#[test]
fn impacts_are_asked_for() {
    let w = setup_trace_project();
    let params = Json::Object(vec![
        Member { key: "file".to_string(), value: Json::Text("/p/utils.ts".to_string()) },
        Member { key: "symbol".to_string(), value: Json::Text("processData".to_string()) },
        Member { key: "depth".to_string(), value: Json::Number(JsonNumber::Unsigned(1)) },
    ]);
    let (graph, answer) =
        handle_impact(&params, &w, Some(graph()), Ok("/p/utils.ts".to_string()), Some("/p"));
    assert_eq!(answer.ok().unwrap().total_affected, 2);
    let (graph, refused) = handle_impact(
        &Json::Object(vec![]),
        &w,
        graph,
        Ok(String::new()),
        Some("/p"),
    );
    assert!(matches!(refused, Err(Refusal::Request { .. })));
    assert!(graph.is_some());
    let (_, unset) = handle_impact(&params, &w, None, Ok("/p/utils.ts".to_string()), None);
    assert!(unset.is_err());
}

#[test]
fn values_are_followed_through_calls() {
    let w = Project::new()
        .file(
            "main.ts",
            r#"import { take } from './other';

export function main(input) {
    const copy = input;
    take(copy);
}
"#,
            vec![symbol("main", (2, 5), true)],
            vec![names("./other", &["take"], "import { take } from './other';")],
        )
        .file(
            "other.ts",
            r#"export function take(value) {
    const kept = value;
    return kept;
}
"#,
            vec![Symbol {
                signature: Some("function take(value)".to_string()),
                ..symbol("take", (0, 3), true)
            }],
            vec![],
        )
        .worktree;
    let mut graph = graph();
    let flow = graph.trace_data(&w, "/p/main.ts", "main", "input", 5).ok().unwrap();
    assert_eq!(flow.expression, "input");
    let steps: Vec<(&str, &str)> =
        flow.hops.iter().map(|h| (h.variable.as_str(), h.flow_type.as_str())).collect();
    assert!(steps.contains(&("copy", "assignment")));
    assert!(steps.contains(&("value", "parameter")));
    assert!(flow.hops.iter().any(|h| h.file.ends_with("other.ts")));
    match graph.trace_data(&w, "/p/main.ts", "nothing", "x", 5) {
        Err(AftError::InvalidRequest { message }) => {
            assert_eq!(message, "trace_data: symbol 'nothing' not found in /p/main.ts");
        }
        _ => panic!("expected an error"),
    }
}
