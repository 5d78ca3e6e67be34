//! Texts, paths, JSON and the smaller commands.
use aft::backup::BackupStore;
use aft::bash_background::registry::{BgTaskRegistry, BgTaskSnapshot};
use aft::bash_background::{spawn, storage_dir, BgTaskInfo, BgTaskStatus};
use aft::callgraph::entry::is_entry_point;
use aft::checkpoint::CheckpointStore;
use aft::commands::bash_tasks::{answer_kill, answer_status, drain_completions, read_task_id};
use aft::commands::edit_history::{
    handle_edit_history, handle_list_checkpoints, resolve_history_path,
};
use aft::commands::list_filters::{
    builtin_entry, handle_list_filters, FilterDefinition, FilterFile,
};
use aft::groups::{indices_under, ordered_keys};
use aft::json::{Json, JsonNumber, Member};
use aft::lang::{detect_language, LangId};
use aft::paths::{
    extension, file_name, file_stem, join_path, parent, path_less, relative_to, starts_with_path,
    with_extension,
};
use aft::symbols::SymbolKind;
use aft::text::{
    contains, decimal_text, ends_with, indentation, is_white_space, join, less, lines, parse_i32,
    parse_u32, starts_with, substitute, trim,
};

fn strings(list: &[&str]) -> Vec<String> {
    list.iter().map(|s| s.to_string()).collect()
}

#[test]
fn white_space_is_what_it_is() {
    for n in 0..0x11_0000u32 {
        if let Some(c) = char::from_u32(n) {
            assert_eq!(is_white_space(c), c.is_whitespace(), "{n:x}");
        }
    }
}

#[test]
fn texts_are_handled() {
    assert_eq!(trim(" \t a b\u{3000}"), " \t a b\u{3000}".trim());
    assert!(starts_with("abc", "ab") && !starts_with("a", "ab"));
    assert!(ends_with("abc", "bc") && !ends_with("c", "bc"));
    assert!(contains("abc", "b") && contains("abc", "") && !contains("abc", "d"));
    assert_eq!(substitute("aXbX", "X", "--"), ("a--b--".to_string(), 2));
    assert_eq!(lines("a\r\nb\n\nc"), "a\r\nb\n\nc".lines().collect::<Vec<_>>());
    assert_eq!(lines(""), Vec::<String>::new());
    assert_eq!(join(&strings(&["a", "b"]), ", "), "a, b");
    assert_eq!(indentation("  \tx"), "  \t");
    assert_eq!(decimal_text(0), "0");
    assert_eq!(decimal_text(u64::MAX), "18446744073709551615");
    assert_eq!(parse_i32("-12"), Some(-12));
    assert_eq!(parse_i32("+7"), "+7".parse().ok());
    assert_eq!(parse_i32("2147483648"), None);
    assert_eq!(parse_u32("4294967295"), Some(u32::MAX));
    assert_eq!(parse_u32("x"), None);
    assert!(less("a", "b") && less("a", "aa") && !less("a", "a"));
}

#[test]
fn paths_are_handled() {
    assert_eq!(join_path("/a", "b/c"), "/a/b/c");
    assert_eq!(join_path("/a", "/b"), "/b");
    assert_eq!(relative_to("/a/b/c", "/a"), "b/c");
    assert_eq!(relative_to("/x", "/a"), "/x");
    assert!(starts_with_path("/a/b", "/a") && !starts_with_path("/ab", "/a"));
    assert_eq!(file_name("/a/b.rs").as_deref(), Some("b.rs"));
    assert_eq!(file_stem("b.tar.gz"), "b.tar");
    assert_eq!(parent("/a/b").as_deref(), Some("/a"));
    assert_eq!(extension("/a/b.rs").as_deref(), Some("rs"));
    assert_eq!(extension("/a/.rs"), None);
    assert_eq!(with_extension("/a/b.rs", "ts"), "/a/b.ts");
    assert!(path_less("/a/b", "/a-b"));
}

#[test]
fn languages_are_known_by_extension() {
    assert_eq!(detect_language("/a/b.rs"), Some(LangId::Rust));
    assert_eq!(detect_language("/a/b.mts"), Some(LangId::TypeScript));
    assert_eq!(detect_language("/a/b"), None);
    assert!(LangId::TypeScript.is_script());
}

#[test]
fn names_are_compared_without_case() {
    assert!(is_entry_point("MAIN", &SymbolKind::Function, false, LangId::TypeScript));
    assert!(!is_entry_point("remain", &SymbolKind::Function, false, LangId::TypeScript));
}

#[test]
fn json_is_written() {
    let value = Json::Object(vec![
        Member { key: "a\"b".to_string(), value: Json::Text("c\n\u{1}\\é".to_string()) },
        Member {
            key: "n".to_string(),
            value: Json::List(vec![
                Json::Null,
                Json::Bool(true),
                Json::Number(JsonNumber::Unsigned(7)),
                Json::Number(JsonNumber::Negative(-3)),
            ]),
        },
    ]);
    let written = value.to_text();
    assert_eq!(written, "{\"a\\\"b\":\"c\\n\\u0001\\\\é\",\"n\":[null,true,7,-3]}");
    let read: serde_json::Value = serde_json::from_str(&written).unwrap();
    assert_eq!(read["a\"b"], "c\n\u{1}\\é");
    assert_eq!(value.copy().to_text(), written);
    assert!(value.get("gone").is_none());
}

#[test]
fn groups_keep_their_items() {
    let keys = strings(&["b", "a", "b"]);
    assert_eq!(ordered_keys(&keys), strings(&["a", "b"]));
    assert_eq!(indices_under(&keys, "b"), vec![0, 2]);
}

#[test]
fn filters_are_listed() {
    let definition = |name: &str| FilterDefinition {
        name: name.to_string(),
        matches: strings(&["^x"]),
        description: None,
    };
    let file = |path: &str, parsed| FilterFile {
        path: path.to_string(),
        content: Ok("toml".to_string()),
        parsed,
    };
    let list = handle_list_filters(
        vec![builtin_entry("git", "toml", Ok(definition("git")))],
        vec![file("/u/mine.toml", Ok(definition("mine")))],
        vec![file("/p/bad.toml", Err("no name".to_string()))],
        false,
    );
    assert_eq!(list.len(), 3);
    assert!(list.iter().any(|f| f.source == "builtin" && f.name == "git"));
    let bad = list.iter().find(|f| f.source == "project_invalid").unwrap();
    assert!(bad.error.is_some());
    assert_eq!(bad.trusted, Some(false));
}

#[test]
fn histories_are_told() {
    let mut store = BackupStore::new();
    store.snapshot("/w/a", "/w/a", Some("1".to_string()), "one", 5).unwrap();
    store.snapshot("/w/a", "/w/a", Some("2".to_string()), "two", 6).unwrap();
    let told = handle_edit_history(&store, "/w/a");
    let order: Vec<&str> = told.iter().map(|e| e.description.as_str()).collect();
    assert_eq!(order, vec!["one", "two"]);
    let ask = Json::Object(vec![Member {
        key: "file".to_string(),
        value: Json::Text("a".to_string()),
    }]);
    assert_eq!(resolve_history_path(&ask, Some("/w")).ok().unwrap(), "/w/a");
    assert!(resolve_history_path(&Json::Object(vec![]), None).is_err());
    let mut checkpoints = CheckpointStore::new();
    checkpoints.create("s", "cp", false, vec![], 1).unwrap();
    assert_eq!(handle_list_checkpoints(&checkpoints, "s").len(), 1);
}

fn snapshot() -> BgTaskSnapshot {
    BgTaskSnapshot {
        info: BgTaskInfo {
            task_id: "bgb-1".to_string(),
            status: BgTaskStatus::Running,
            command: "c".to_string(),
            started_at: 1,
            duration_ms: None,
        },
        exit_code: None,
        child_pid: None,
        workdir: "/w".to_string(),
        output_preview: String::new(),
        output_truncated: false,
        output_path: None,
        stderr_path: None,
    }
}

#[test]
fn tasks_are_asked_for() {
    assert_eq!(read_task_id("bash_status", Ok(Some("bgb-1".to_string()))).ok().unwrap(), "bgb-1");
    assert!(read_task_id("bash_status", Ok(None)).is_err());
    assert!(read_task_id("bash_status", Err("bad".to_string())).is_err());
    assert!(answer_kill(Ok(snapshot())).is_ok());
    assert!(answer_kill(Err("background task not found: x".to_string())).is_err());
    assert!(answer_status("bgb-1", Some(snapshot())).is_ok());
    assert!(answer_status("bgb-1", None).is_err());
    assert!(drain_completions(&mut BgTaskRegistry::new(), "s").is_empty());
    assert!(spawn(false, Ok("bgb-1".to_string())).is_err());
    assert_eq!(spawn(true, Ok("bgb-1".to_string())).ok().unwrap().0, "bgb-1");
    assert!(storage_dir(Some("/s"), None, None).starts_with("/s"));
}
