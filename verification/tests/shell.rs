//! Shell commands: what is read from them, and which permissions they need.
use std::cell::Cell;

use aft::bash_permissions::scan::{
    paths_looked_at, read_commands, scan, xargs_tokens, Places, StableParts,
};
use aft::bash_permissions::{PermissionAsk, PermissionKind};
use aft::bash_rewrite::dispatch::{dispatch, DispatchStep, RuleKind, RuleReply};
use aft::bash_rewrite::footer::add_footer;
use aft::bash_rewrite::parser::parse;
use aft::bash_rewrite::{try_rewrite, RewriteRule, RuleSet};
use aft::callgraph::worktree::Worktree;
use aft::json::Json;
use aft::models::Entry;

fn words(command: &str) -> Option<Vec<String>> {
    parse(command).map(|p| p.args)
}

#[test]
fn words_are_read() {
    assert_eq!(words("cat a.txt").unwrap(), vec!["cat", "a.txt"]);
    assert_eq!(words("  grep  'a b'  \"c d\" ").unwrap(), vec!["grep", "a b", "c d"]);
    assert_eq!(words("echo a\\ b").unwrap(), vec!["echo", "a b"]);
    assert_eq!(words("echo ''").unwrap(), vec!["echo"]);
    assert!(words("").is_none());
    assert!(words("cat a | wc").is_none());
    assert!(words("cat $HOME").is_none());
    assert!(words("echo 'open").is_none());
}

#[test]
fn appends_are_read() {
    let read = parse("echo hello >> out.txt").unwrap();
    assert_eq!(read.args, vec!["echo", "hello"]);
    assert_eq!(read.appends_to.as_deref(), Some("out.txt"));
    let read = parse("cat >> out.txt << EOF\none\ntwo\nEOF").unwrap();
    assert_eq!(read.appends_to.as_deref(), Some("out.txt"));
    assert_eq!(read.heredoc.as_deref(), Some("one\ntwo\n"));
    assert!(parse("cat >> out.txt <<'EOF'\none\nEOF").is_none());
    assert!(parse("cat << EOF\none\nEOF").is_none());
}

#[test]
fn footers_name_a_tool() {
    assert_eq!(add_footer("out", "read"), "out\n\nPrefer `read` tool over bash.");
}

struct Rule {
    word: &'static str,
    answer: Result<&'static str, &'static str>,
    asked: Cell<usize>,
    answered: Cell<usize>,
}

impl RewriteRule for Rule {
    fn name(&self) -> &'static str {
        self.word
    }

    fn matches(&self, command: &str) -> bool {
        self.asked.set(self.asked.get() + 1);
        command.starts_with(self.word)
    }

    fn rewrite(&self, _command: &str) -> Result<Json, String> {
        self.answered.set(self.answered.get() + 1);
        match self.answer {
            Ok(s) => Ok(Json::Text(s.to_string())),
            Err(e) => Err(e.to_string()),
        }
    }
}

fn rule(word: &'static str, answer: Result<&'static str, &'static str>) -> Rule {
    Rule { word, answer, asked: Cell::new(0), answered: Cell::new(0) }
}

fn rules() -> RuleSet<Rule> {
    RuleSet {
        grep: rule("grep", Ok("grep")),
        rg: rule("rg", Ok("grep")),
        find: rule("find", Ok("glob")),
        cat: rule("cat", Ok("read")),
        cat_append: rule("cat >>", Ok("edit")),
        sed: rule("sed", Ok("read")),
        ls: rule("ls", Err("no")),
    }
}

#[test]
fn the_first_rule_answers() {
    let set = rules();
    assert_eq!(try_rewrite(true, &set, "cat >> a").unwrap().as_text(), Some("read"));
    let count = |r: &Rule| (r.asked.get(), r.answered.get());
    assert_eq!(count(&set.grep), (1, 0));
    assert_eq!(count(&set.find), (1, 0));
    assert_eq!(count(&set.cat), (1, 1));
    assert_eq!(count(&set.cat_append), (0, 0));
    assert_eq!(count(&set.ls), (0, 0));
    let set = rules();
    assert!(try_rewrite(false, &set, "cat a").is_none());
    assert_eq!(count(&set.grep), (0, 0));
    assert!(try_rewrite(true, &set, "ls").is_none());
    assert_eq!(count(&set.ls), (1, 1));
    assert!(try_rewrite(true, &set, "rm a").is_none());
    assert_eq!(count(&set.ls), (2, 1));
}

#[test]
fn rules_are_asked_in_order() {
    let mut asked = vec![];
    let mut last = None;
    while let DispatchStep::Ask(rule) = dispatch(true, last.take()) {
        asked.push(rule);
        last = Some(RuleReply::Matched { rule, matches: false });
    }
    assert_eq!(
        asked,
        vec![
            RuleKind::Grep,
            RuleKind::Rg,
            RuleKind::Find,
            RuleKind::Cat,
            RuleKind::CatAppend,
            RuleKind::Sed,
            RuleKind::Ls,
        ],
    );
    let sed = RuleReply::Matched { rule: RuleKind::Sed, matches: true };
    assert!(matches!(dispatch(true, Some(sed)), DispatchStep::Rewrite(RuleKind::Sed)));
    let no = RuleReply::Rewritten { rule: RuleKind::Rg, answer: Err("no".to_string()) };
    assert!(matches!(dispatch(true, Some(no)), DispatchStep::Done(None)));
    assert!(matches!(dispatch(false, None), DispatchStep::Done(None)));
}

fn asks(command: &str) -> Vec<PermissionAsk> {
    let w = Worktree {
        files: vec![],
        dirs: vec!["/work".to_string(), "/work/src".to_string(), "/etc".to_string()],
        links: vec![],
        project_files: vec![],
    };
    let places = Places { home: Some("/home/me".to_string()), pwd: "/work".to_string() };
    let read = read_commands(command);
    let stables = match &read {
        Ok(list) => list
            .iter()
            .map(|c| StableParts {
                own: c.tokens.first().cloned().unwrap_or_default(),
                inner: String::new(),
            })
            .collect(),
        Err(_) => vec![],
    };
    scan(true, read, &stables, &w, &places, Some("/work"))
}

fn outside(list: &[PermissionAsk]) -> Vec<String> {
    list.iter()
        .filter(|a| matches!(a.kind, PermissionKind::ExternalDirectory))
        .flat_map(|a| a.patterns.clone())
        .collect()
}

#[test]
fn commands_are_read() {
    let list = read_commands("cd src && rm -rf a b; ls").ok().unwrap();
    let tokens: Vec<Vec<String>> = list.into_iter().map(|c| c.tokens).collect();
    assert_eq!(tokens[0], vec!["cd", "src"]);
    assert_eq!(tokens[1], vec!["rm", "-rf", "a", "b"]);
    assert_eq!(tokens[2], vec!["ls"]);
    assert!(read_commands("if then (").is_err());
}

#[test]
fn paths_are_seen_from_the_directories_of_the_commands() {
    let mut w = Worktree {
        files: vec![],
        dirs: vec!["/work".to_string()],
        links: vec![],
        project_files: vec![],
    };
    let places = Places { home: Some("/home/me".to_string()), pwd: "/work".to_string() };
    let list = read_commands("cat a ~/b -n; cd link && rm c $X *.d").ok().unwrap();
    let paths = paths_looked_at(&list, &w, &places, "/work");
    assert_eq!(paths, vec!["/work/a", "/home/me/b", "/work/link", "/work/link/c"]);
    w.links.push(Entry { key: "/work/link".to_string(), value: "/else".to_string() });
    w.dirs.push("/else".to_string());
    let paths = paths_looked_at(&list, &w, &places, "/work");
    assert_eq!(paths, vec!["/work/a", "/home/me/b", "/work/link", "/else/c"]);
}

#[test]
fn permissions_are_asked_for() {
    let list = asks("rm a.txt");
    assert!(outside(&list).is_empty());
    assert!(list.iter().any(|a| matches!(a.kind, PermissionKind::Bash)
        && a.patterns.contains(&"rm a.txt".to_string())));
    let list = asks("rm /etc/passwd");
    assert_eq!(outside(&list).len(), 1);
    assert!(outside(&list)[0].starts_with("/etc"));
    assert!(asks("cd src").iter().all(|a| matches!(a.kind, PermissionKind::ExternalDirectory)));
}

#[test]
fn permissions_are_not_repeated() {
    let list = asks("rm a; rm a");
    assert_eq!(list.len(), asks("rm a").len());
}

#[test]
fn inner_commands_are_found() {
    let tokens = |s: &str| s.split(' ').map(|t| t.to_string()).collect::<Vec<String>>();
    assert_eq!(xargs_tokens(&tokens("xargs -0 rm -f")), tokens("rm -f"));
}
