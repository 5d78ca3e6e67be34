use aft::commands::add_derive::parse_derive_attr;
use aft::commands::add_struct_tags::{format_struct_tags, parse_struct_tags};
use aft::commands::configure::settings::{
    parse_lsp_paths_extra, validate_storage_dir, PathResolution,
};
use aft::commands::glob::{
    format_directory_label, format_glob_text, group_files_by_directory, handle_glob,
    read_glob_request,
};
use aft::commands::grep::{
    choose_way, current_index_status, display_path, fallback_grep, format_grep_text, handle_grep,
    index_status_label, line_details, line_starts, matches_on_lines, read_grep_request,
    ripgrep_args, ripgrep_glob, ripgrep_glob_args, ripgrep_grep, truncate_line_text, GrepMatch,
    GrepResult, IndexStatus, SearchWay, Span,
};
use aft::commands::refusal::Refusal;
use aft::json::{Json, JsonNumber, Member};
use aft::models::Entry;

fn text(s: &str) -> Json {
    Json::Text(s.to_string())
}

fn number(n: u64) -> Json {
    Json::Number(JsonNumber::Unsigned(n))
}

fn object(members: Vec<(&str, Json)>) -> Json {
    Json::Object(
        members
            .into_iter()
            .map(|(key, value)| Member { key: key.to_string(), value })
            .collect(),
    )
}

fn unread() -> Result<String, Refusal> {
    Ok(String::new())
}

#[test]
fn parse_derive_attr_basic() {
    let result = parse_derive_attr("#[derive(Debug, Clone)]");
    assert_eq!(result, Some(vec!["Debug".to_string(), "Clone".to_string()]));
}

#[test]
fn parse_derive_attr_single() {
    let result = parse_derive_attr("#[derive(Debug)]");
    assert_eq!(result, Some(vec!["Debug".to_string()]));
}

#[test]
fn parse_derive_attr_not_derive() {
    let result = parse_derive_attr("#[cfg(test)]");
    assert_eq!(result, None);
}

#[test]
fn parse_tags_basic() {
    let tags = parse_struct_tags(r#"json:"name""#);
    assert_eq!(tags, vec![("json".to_string(), "name".to_string())]);
}

#[test]
fn parse_tags_multiple() {
    let tags = parse_struct_tags(r#"json:"name" xml:"user_name,omitempty""#);
    assert_eq!(
        tags,
        vec![
            ("json".to_string(), "name".to_string()),
            ("xml".to_string(), "user_name,omitempty".to_string()),
        ]
    );
}

#[test]
fn format_tags_roundtrip() {
    let tags = vec![
        ("json".to_string(), "name".to_string()),
        ("xml".to_string(), "value".to_string()),
    ];
    assert_eq!(format_struct_tags(&tags), r#"json:"name" xml:"value""#);
    assert_eq!(parse_struct_tags(&format_struct_tags(&tags)), tags);
}

#[test]
fn validate_storage_dir_requires_absolute_paths() {
    assert!(validate_storage_dir("relative/cache").is_err());
}

#[test]
fn validate_storage_dir_normalizes_safe_parents() {
    assert_eq!(
        validate_storage_dir("/tmp/aft-config-test/../cache").unwrap(),
        "/tmp/cache"
    );
}

#[test]
fn validate_storage_dir_rejects_relative_with_dotdot() {
    assert!(validate_storage_dir("../../../etc/passwd").is_err());
}

#[test]
fn validate_storage_dir_accepts_absolute_with_dotdot_that_normalizes() {
    assert!(validate_storage_dir("/../../cache").is_ok());
}

fn resolved(path: &str, resolution: PathResolution) -> Vec<Entry<PathResolution>> {
    vec![Entry { key: path.to_string(), value: resolution }]
}

fn found(canonical: &str, is_dir: bool) -> PathResolution {
    PathResolution::Found { canonical: canonical.to_string(), is_dir }
}

#[test]
fn parse_lsp_paths_extra_accepts_existing_directory_after_canonicalize() {
    let dir = "/t/cache/node_modules/.bin";
    let facts = resolved(dir, found("/private/t/cache/node_modules/.bin", true));
    let paths = parse_lsp_paths_extra(&Json::List(vec![text(dir)]), &facts).unwrap();
    assert_eq!(paths, vec!["/private/t/cache/node_modules/.bin".to_string()]);
}

#[test]
fn parse_lsp_paths_extra_accepts_nonexistent_directory_for_later_install() {
    let missing = "/t/pending/node_modules/.bin";
    let facts = resolved(missing, PathResolution::Missing);
    let paths = parse_lsp_paths_extra(&Json::List(vec![text(missing)]), &facts).unwrap();
    assert_eq!(paths, vec![missing.to_string()]);
}

#[test]
fn parse_lsp_paths_extra_rejects_existing_file() {
    let file = "/t/not-a-dir";
    let facts = resolved(file, found(file, false));
    let error = parse_lsp_paths_extra(&Json::List(vec![text(file)]), &facts).unwrap_err();
    assert!(error.contains("must resolve to a directory"));
}

#[test]
fn parse_lsp_paths_extra_rejects_parent_traversal() {
    let traversing = "/t/project/../outside";
    let facts = resolved("/t/outside", found("/t/outside", true));
    let error = parse_lsp_paths_extra(&Json::List(vec![text(traversing)]), &facts).unwrap_err();
    assert!(error.contains("must not contain '..' traversal"));
}

#[test]
fn parse_lsp_paths_extra_accepts_symlink_to_directory_as_target() {
    let facts = resolved("/t/linked-dir", found("/t/target-dir", true));
    let paths = parse_lsp_paths_extra(&Json::List(vec![text("/t/linked-dir")]), &facts).unwrap();
    assert_eq!(paths, vec!["/t/target-dir".to_string()]);
}

#[test]
fn parse_lsp_paths_extra_rejects_symlink_to_file() {
    let facts = resolved("/t/linked-file", found("/t/target-file", false));
    let error =
        parse_lsp_paths_extra(&Json::List(vec![text("/t/linked-file")]), &facts).unwrap_err();
    assert!(error.contains("must resolve to a directory"));
}

#[test]
fn lsp_paths_are_a_list_of_texts() {
    assert_eq!(
        parse_lsp_paths_extra(&text("/a"), &vec![]).unwrap_err(),
        "configure: lsp_paths_extra must be an array of strings"
    );
    assert!(parse_lsp_paths_extra(&Json::List(vec![Json::Null]), &vec![]).is_err());
}

fn files(paths: &[&str]) -> Vec<String> {
    paths.iter().map(|p| p.to_string()).collect()
}

#[test]
fn glob_uses_flat_list_for_small_results() {
    let text = format_glob_text(&files(&["src/a.rs", "src/b.rs"]), "**/*.rs", "/project", false);

    assert_eq!(text, "2 files matching **/*.rs\n\nsrc/a.rs\nsrc/b.rs");
}

#[test]
fn glob_groups_directories_and_summarizes_overflow() {
    let text = format_glob_text(
        &files(&[
            "dir1/a.rs",
            "dir1/b.rs",
            "dir1/c.rs",
            "dir1/d.rs",
            "dir1/e.rs",
            "dir1/f.rs",
            "dir1/g.rs",
            "dir1/h.rs",
            "dir2/a.rs",
            "dir2/b.rs",
            "dir3/a.rs",
            "dir3/b.rs",
            "dir4/a.rs",
            "dir4/b.rs",
            "dir5/a.rs",
            "dir5/b.rs",
            "dir6/a.rs",
            "dir6/b.rs",
            "dir7/a.rs",
            "dir7/b.rs",
            "dir8/a.rs",
            "dir8/b.rs",
            "dir9/a.rs",
        ]),
        "**/*.rs",
        "/project",
        false,
    );

    assert!(text.starts_with("23 files matching **/*.rs\n\n"));
    assert!(text.contains("dir1/ (8 files)\n  a.rs, b.rs, c.rs, d.rs, e.rs, ..."));
    assert!(text.contains("dir6/ (2 files)\n  a.rs, b.rs"));
    assert!(!text.contains("dir7/ (2 files)\n  a.rs, b.rs"));
    assert!(text.ends_with("... and 5 more files in 3 directories"));
}

#[test]
fn glob_appends_truncation_message() {
    let text = format_glob_text(&files(&["src/a.rs"]), "**/*.rs", "/project", true);

    assert_eq!(
        text,
        "1 file matching **/*.rs\n\nsrc/a.rs\n\n(Results are truncated: showing first 100 results. Consider using a more specific path or pattern.)"
    );
}

#[test]
fn glob_results_have_a_limit() {
    let all: Vec<String> = (0..150).map(|i| format!("/project/src/f{i:03}.rs")).collect();
    let report = handle_glob(all.clone(), "**/*.rs", "/project");
    assert_eq!(report.total, 150);
    assert!(report.truncated);
    assert_eq!(report.files, all[..100].to_vec());
    assert!(report.text.starts_with("100 files matching **/*.rs\n\n"));
    let few = handle_glob(files(&["/project/a"]), "*", "/project");
    assert_eq!((few.total, few.truncated), (1, false));
}

#[test]
fn glob_files_are_grouped_under_their_directories() {
    let groups = group_files_by_directory(&files(&["b/x", "a/y", "b/z", "w"]));
    let total: usize = groups.iter().map(|g| g.1.len()).sum();
    assert_eq!(total, 4);
    assert!(groups
        .iter()
        .any(|g| g.0.starts_with('b') && g.1 == vec!["x".to_string(), "z".to_string()]));
    assert_eq!(format_directory_label(Some("a")), "a/");
    assert_eq!(format_directory_label(Some("")), "./");
    assert_eq!(format_directory_label(None), "./");
}

#[test]
fn glob_needs_a_pattern() {
    match read_glob_request(&object(vec![]), unread(), None) {
        Err(Refusal::Request { code, message }) => {
            assert_eq!(code, "invalid_request");
            assert!(message.contains("pattern"));
        }
        _ => panic!("expected a refusal"),
    }
    let ask = object(vec![("pattern", text("*.rs")), ("path", text("src"))]);
    let request = read_glob_request(&ask, Ok("/project/src".to_string()), None).ok().unwrap();
    assert_eq!(request.pattern, "*.rs");
    assert_eq!(request.path.as_deref(), Some("/project/src"));
    assert!(read_glob_request(&ask, unread(), Some("bad glob")).is_err());
}

fn grep_match(file: &str, line: u32, line_text: &str) -> GrepMatch {
    GrepMatch {
        file: file.to_string(),
        line,
        column: 1,
        line_text: line_text.to_string(),
        match_text: "needle".to_string(),
    }
}

#[test]
fn grep_groups_truncates_and_adds_footer() {
    let long_line = format!("{}xyz", "a".repeat(220));
    let result = GrepResult {
        matches: vec![
            grep_match(
                "/project/crates/aft/src/commands/grep.rs",
                14,
                "pub fn handle_grep(req: &RawRequest, ctx: &AppContext) -> Response {",
            ),
            grep_match("/project/crates/aft/src/commands/grep.rs", 116, &long_line),
            grep_match(
                "/project/crates/aft/src/main.rs",
                116,
                "        \"grep\" => aft::commands::grep::handle_grep(&req, ctx),",
            ),
        ],
        total_matches: 3,
        files_searched: 2,
        files_with_matches: 2,
        index_status: IndexStatus::Ready,
        truncated: false,
    };

    let text = format_grep_text(&result, "/project");

    assert!(text.contains("crates/aft/src/commands/grep.rs\n"));
    assert!(
        text.contains("14: pub fn handle_grep(req: &RawRequest, ctx: &AppContext) -> Response {")
    );
    assert!(text.contains("116: aaaaaaa"));
    assert!(text.contains("…"));
    assert!(text.contains("crates/aft/src/main.rs\n"));
    assert!(text.ends_with("Found 3 match(es) across 2 file(s). [index: ready]"));
}

#[test]
fn grep_caps_large_file_sections() {
    let matches = (1..=11)
        .map(|line| grep_match("/project/src/large.rs", line, &format!("line {line}")))
        .collect::<Vec<_>>();
    let result = GrepResult {
        matches,
        total_matches: 11,
        files_searched: 1,
        files_with_matches: 1,
        index_status: IndexStatus::Fallback,
        truncated: false,
    };

    let text = format_grep_text(&result, "/project");

    assert!(text.contains("src/large.rs\n"));
    assert!(text.contains("1: line 1"));
    assert!(text.contains("5: line 5"));
    assert!(!text.contains("6: line 6"));
    assert!(text.contains("... and 6 more matches"));
}

#[test]
fn grep_returns_zero_results_footer() {
    let result = GrepResult {
        matches: Vec::new(),
        total_matches: 0,
        files_searched: 0,
        files_with_matches: 0,
        index_status: IndexStatus::Fallback,
        truncated: false,
    };

    let text = format_grep_text(&result, "/project");

    assert_eq!(text, "Found 0 match(es) across 0 file(s). [index: fallback]");
}

fn source(path: &str, content: &str) -> aft::commands::ast_search::SourceFile {
    aft::commands::ast_search::SourceFile {
        path: path.to_string(),
        content: Some(content.to_string()),
    }
}

#[test]
fn grep_finds_lines_in_files() {
    let all = vec![
        source("/project/a.rs", "one\nneedle Needle\nthree\nNEEDLE"),
        source("/project/b.rs", "nothing"),
    ];
    let result = fallback_grep(&all, "need.e", true, 10, IndexStatus::Fallback);
    assert_eq!(result.total_matches, 1);
    assert_eq!(result.files_with_matches, 1);
    assert_eq!(result.files_searched, 2);
    assert_eq!(result.matches[0].line, 2);
    assert_eq!(result.matches[0].column, 1);
    assert_eq!(result.matches[0].match_text, "needle");
    assert_eq!(result.matches[0].line_text, "needle Needle");
    let result = fallback_grep(&all, "need.e", false, 10, IndexStatus::Fallback);
    assert_eq!(result.total_matches, 2);
    assert_eq!(result.matches[1].line, 4);
    let result = fallback_grep(&all, "need.e", false, 1, IndexStatus::Fallback);
    assert_eq!(result.matches.len(), 1);
    assert!(result.truncated);
}

#[test]
fn grep_refuses_patterns_that_are_none() {
    match read_grep_request(&object(vec![("pattern", text("(a"))]), unread(), None) {
        Err(Refusal::Pattern { code, pattern, .. }) => {
            assert_eq!(code, "invalid_pattern");
            assert_eq!(pattern, "(a");
        }
        _ => panic!("expected a refusal"),
    }
    assert!(read_grep_request(&object(vec![]), unread(), None).is_err());
}

#[test]
fn grep_chooses_a_way() {
    let ask = object(vec![("pattern", text("a+")), ("case_sensitive", Json::Bool(false))]);
    let (request, way, status) =
        handle_grep(&ask, unread(), None, "/project", true, true, Some(true), false)
            .ok()
            .unwrap();
    assert_eq!(request.pattern, "a+");
    assert!(!request.case_sensitive);
    assert!(matches!(way, SearchWay::Index));
    assert!(matches!(status, IndexStatus::Ready));
    assert!(handle_grep(&ask, unread(), None, "/gone", false, true, None, false).is_err());
    assert!(matches!(choose_way(false, Some(true)), SearchWay::Program));
    assert!(matches!(choose_way(true, None), SearchWay::Files));
    assert!(matches!(current_index_status(None, true), IndexStatus::Building));
    assert!(matches!(current_index_status(None, false), IndexStatus::Fallback));
    assert_eq!(index_status_label(IndexStatus::Building), "building");
    let args = ripgrep_args(&request, "/project");
    assert_eq!(args[..5].to_vec(), vec!["-nH", "--hidden", "--no-messages", "--json", "-i"]);
    assert_eq!(args.last().unwrap(), "/project");
}

#[test]
fn grep_lines_are_cut() {
    assert_eq!(truncate_line_text("short"), "short");
    let cut = truncate_line_text(&"é".repeat(201));
    assert_eq!(cut.chars().count(), 201);
    assert!(cut.ends_with('…'));
    assert_eq!(display_path("/project/src/a.rs", "/project"), "src/a.rs");
    assert_eq!(display_path("/other/a.rs", "/project"), "/other/a.rs");
}

#[test]
fn grep_counts_lines_and_columns() {
    let content = "ab\ncdé\nf";
    let starts = line_starts(content);
    assert_eq!(starts, vec![0, 3, 8]);
    assert_eq!(line_details(content, &starts, 4), (2, 2, "cdé".to_string()));
    assert_eq!(line_details(content, &starts, 8), (3, 1, "f".to_string()));
    let hits = matches_on_lines(
        "/a",
        content,
        &vec![
            Span { start: 3, text: "c".to_string() },
            Span { start: 4, text: "d".to_string() },
            Span { start: 8, text: "f".to_string() },
        ],
    );
    assert_eq!(hits.len(), 2);
    assert_eq!((hits[0].line, hits[1].line), (2, 3));
}

#[test]
fn grep_reads_the_output_of_the_program() {
    let hit = |line: u64| {
        Some(object(vec![
            ("type", text("match")),
            (
                "data",
                object(vec![
                    ("path", object(vec![("text", text("/project/a.rs"))])),
                    ("lines", object(vec![("text", text("the needle\n"))])),
                    ("line_number", number(line)),
                    (
                        "submatches",
                        Json::List(vec![object(vec![
                            ("match", object(vec![("text", text("needle"))])),
                            ("start", number(4)),
                        ])]),
                    ),
                ]),
            ),
        ]))
    };
    let lines = vec![
        Some(object(vec![("type", text("begin"))])),
        hit(7),
        hit(9),
        hit(11),
    ];
    let result = ripgrep_grep(&lines, 2).unwrap();
    assert_eq!(result.matches.len(), 2);
    assert!(result.truncated);
    assert_eq!(result.matches[0].line, 7);
    assert_eq!(result.matches[0].line_text, "the needle");
    assert_eq!((result.matches[0].column, result.matches[0].match_text.as_str()), (0, ""));
    assert_eq!(result.files_with_matches, 1);
    assert!(ripgrep_grep(&vec![hit(7), None], 2).is_none());
    assert_eq!(
        ripgrep_glob_args("*.rs", "/p"),
        vec!["--files", "--hidden", "--glob=!.git/*", "--glob=*.rs", "/p"]
    );
    assert_eq!(ripgrep_glob("a\nb\nc\n", 2), vec!["a".to_string(), "b".to_string()]);
}
