//! The settings of a project.
use aft::commands::configure::servers::parse_lsp_servers;
use aft::commands::configure::tools::{
    checker_candidates, formatter_candidates, ruff_version_can_format, FileServer, ProjectFiles,
    ToolFacts,
};
use aft::commands::configure::{
    configure_report, configure_warnings, handle_configure, project_languages,
    semantic_size_fault, stored_index_is_current, ConfigureFacts,
};
use aft::commands::refusal::Refusal;
use aft::config::{Config, SemanticBackendConfig};
use aft::json::{Json, JsonNumber, Member};
use aft::lang::LangId;
use aft::models::Entry;

fn text(s: &str) -> Json {
    Json::Text(s.to_string())
}

fn number(n: u64) -> Json {
    Json::Number(JsonNumber::Unsigned(n))
}

fn object(members: Vec<(&str, Json)>) -> Json {
    Json::Object(
        members
            .into_iter()
            .map(|(key, value)| Member { key: key.to_string(), value })
            .collect(),
    )
}

fn config() -> Config {
    Config {
        project_root: None,
        format_on_edit: true,
        validate_on_edit: None,
        formatter: vec![],
        checker: vec![],
        restrict_to_project_root: false,
        formatter_timeout_secs: 10,
        search_index: false,
        semantic_search: false,
        experimental_bash_rewrite: false,
        experimental_bash_compress: false,
        experimental_bash_background: false,
        experimental_lsp_ty: false,
        bash_permissions: false,
        lsp_servers: vec![],
        disabled_lsp: vec![],
        lsp_paths_extra: vec![],
        lsp_auto_install_binaries: vec![],
        lsp_inflight_installs: vec![],
        search_index_max_file_size: 1000,
        storage_dir: None,
        semantic: SemanticBackendConfig {
            backend: "fastembed".to_string(),
            model: "m".to_string(),
            base_url: None,
            api_key_env: None,
            timeout_ms: 100,
            max_batch_size: 8,
        },
        max_callgraph_files: 20,
        max_background_bash_tasks: 4,
    }
}

fn facts(root_is_dir: bool) -> ConfigureFacts {
    ConfigureFacts {
        root_is_dir,
        resolved: vec![],
        backends: vec!["fastembed".to_string(), "ollama".to_string()],
        url_fault: None,
    }
}

fn refusal(r: Result<String, Refusal>) -> String {
    match r {
        Err(Refusal::Request { code, .. }) => code,
        _ => panic!("expected a refusal"),
    }
}

#[test]
fn the_root_is_set() {
    let mut c = config();
    let ask = object(vec![("project_root", text("/w"))]);
    let done = handle_configure(&mut c, &ask, &facts(true));
    assert_eq!(done.result.ok().unwrap(), "/w");
    assert_eq!(c.project_root.as_deref(), Some("/w"));
    assert!(c.format_on_edit);
    assert_eq!(c.max_callgraph_files, 20);
}

#[test]
fn a_bad_root_changes_nothing() {
    let mut c = config();
    let ask = object(vec![("project_root", text("/w")), ("format_on_edit", Json::Bool(false))]);
    assert_eq!(refusal(handle_configure(&mut c, &ask, &facts(false)).result), "invalid_request");
    assert!(c.project_root.is_none());
    assert!(c.format_on_edit);
    assert_eq!(
        refusal(handle_configure(&mut c, &object(vec![]), &facts(true)).result),
        "invalid_request"
    );
}

#[test]
fn settings_are_taken() {
    let mut c = config();
    let ask = object(vec![
        ("project_root", text("/w")),
        ("format_on_edit", Json::Bool(false)),
        ("bash_permissions", Json::Bool(true)),
        ("formatter", object(vec![("rust", text("rustfmt"))])),
        ("max_callgraph_files", number(7)),
        ("storage_dir", text("/store/x/../y")),
        ("disabled_lsp", Json::List(vec![text("ty")])),
    ]);
    let done = handle_configure(&mut c, &ask, &facts(true));
    assert!(done.result.is_ok());
    assert!(!c.format_on_edit);
    assert!(c.bash_permissions);
    assert_eq!(c.formatter.len(), 1);
    assert_eq!(c.max_callgraph_files, 7);
    assert_eq!(c.storage_dir.as_deref(), Some("/store/y"));
    assert_eq!(c.disabled_lsp, vec!["ty".to_string()]);
}

#[test]
fn bad_settings_are_refused() {
    for (key, value) in [
        ("max_callgraph_files", number(0)),
        ("storage_dir", text("relative")),
        ("lsp_servers", text("none")),
        ("lsp_paths_extra", text("none")),
    ] {
        let mut c = config();
        let ask = object(vec![("project_root", text("/w")), (key, value)]);
        assert_eq!(
            refusal(handle_configure(&mut c, &ask, &facts(true)).result),
            "invalid_request"
        );
    }
}

#[test]
fn servers_are_read() {
    let server = object(vec![
        ("id", text("mine")),
        ("extensions", Json::List(vec![text(".abc"), text("def")])),
        ("binary", text("mine-ls")),
        ("args", Json::List(vec![text("--stdio")])),
    ]);
    let list = parse_lsp_servers(&Json::List(vec![server])).ok().unwrap();
    assert_eq!(list[0].id, "mine");
    assert_eq!(list[0].extensions, vec!["abc".to_string(), "def".to_string()]);
    assert_eq!(list[0].args, vec!["--stdio".to_string()]);
    assert!(!list[0].disabled);
    let nameless = Json::List(vec![object(vec![("binary", text("x"))])]);
    assert!(parse_lsp_servers(&nameless).is_err());
}

#[test]
fn projects_are_reported() {
    let report = configure_report("/w", 20, 21);
    assert!(report.source_file_count_exceeds_max);
    assert_eq!(report.source_file_count, 21);
    let report = configure_report("/w", 20, 100);
    assert_eq!(report.source_file_count, 21);
    assert!(!configure_report("/w", 20, 20).source_file_count_exceeds_max);
    let files = vec!["/w/a.rs".to_string(), "/w/b.rs".to_string(), "/w/c.py".to_string()];
    let languages = project_languages(&files);
    assert_eq!(languages.len(), 2);
    assert!(languages.contains(&LangId::Rust) && languages.contains(&LangId::Python));
}

fn project(names: &[&str]) -> ProjectFiles {
    ProjectFiles { names: names.iter().map(|n| n.to_string()).collect(), pyproject: None }
}

fn tools(available: &[&str]) -> ToolFacts {
    ToolFacts {
        available: available.iter().map(|n| n.to_string()).collect(),
        hints: vec![Entry {
            key: "rustfmt".to_string(),
            value: "Install: rustup component add rustfmt".to_string(),
        }],
    }
}

#[test]
fn missing_tools_are_told() {
    let files = vec!["/w/a.rs".to_string()];
    let mut c = config();
    c.lsp_auto_install_binaries = vec!["rust-analyzer".to_string()];
    let warnings = configure_warnings(
        &files,
        &vec![FileServer {
            id: "rust".to_string(),
            binary: "rust-analyzer".to_string(),
            custom: false,
        }],
        &c,
        &project(&["Cargo.toml"]),
        &tools(&[]),
    );
    let tool = warnings.missing_tools.iter().find(|t| t.tool == "rustfmt").unwrap();
    assert_eq!(tool.language, "rust");
    assert!(tool.hint.ends_with("rustup component add rustfmt"));
    assert!(warnings.missing_servers.iter().any(|s| s.binary == "rust-analyzer"));
    let fine = configure_warnings(
        &files,
        &vec![],
        &c,
        &project(&["Cargo.toml"]),
        &tools(&["rustfmt", "cargo", "rust-analyzer"]),
    );
    assert!(fine.missing_tools.is_empty());
    assert!(fine.missing_servers.is_empty());
}

#[test]
fn candidates_follow_the_project() {
    let rust = formatter_candidates(LangId::Rust, None, &project(&["Cargo.toml"]));
    assert_eq!(rust[0].tool, "rustfmt");
    let chosen = formatter_candidates(LangId::TypeScript, Some("biome"), &project(&[]));
    assert_eq!(chosen[0].tool, "biome");
    assert!(checker_candidates(LangId::Rust, Some("none"), &project(&[])).is_empty());
}

#[test]
fn versions_can_be_too_old() {
    assert!(ruff_version_can_format("ruff 0.1.2\n"));
    assert!(!ruff_version_can_format("ruff 0.1.1"));
    assert!(ruff_version_can_format("1.0.0"));
    assert!(!ruff_version_can_format("ruff 0.2"));
    assert!(!ruff_version_can_format("ruff x.y.z"));
}

#[test]
fn stored_indexes_grow_old() {
    assert!(stored_index_is_current(Some("abc"), Some("abc")));
    assert!(!stored_index_is_current(Some("abc"), Some("def")));
    assert!(semantic_size_fault(1).is_none());
    assert!(semantic_size_fault(usize::MAX).is_some());
}
