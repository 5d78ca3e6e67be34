//! The search for what a shell command touches.
use vstd::prelude::*;
use vstd::slice::slice_subrange;

use crate::bash_permissions::{Ask, PermissionAsk, PermissionKind};
use crate::callgraph::worktree::{Disk, Worktree};
use crate::commands::refusal::given_text;
use crate::lang::LangId;
use crate::models::{group_models, models};
use crate::paths::{
    join_path, normalize_components, normalized, parent, path_components, path_join, path_parent,
    path_under, render, rendered, starts_with_path,
};
use crate::syntax::{
    has_syntax_error, lemma_children, parse, stands_in, syntax_broken, syntax_of, trees, SyntaxNode,
    Tree,
};
use crate::text::{
    chars_of, find_from, join, joined, lemma_find_from, owned, same, starts_with, string_of,
    substitute, substituted, text2, texts, trim, trimmed,
};

verus! {

/// A command that is part of a shell command: its text, and its words.
pub struct ShellCommand {
    pub source: String,
    pub tokens: Vec<String>,
}

/// The model of a `ShellCommand`.
#[verifier::ext_equal]
pub ghost struct Command {
    pub source: Seq<char>,
    pub tokens: Seq<Seq<char>>,
}

impl DeepView for ShellCommand {
    type V = Command;

    open spec fn deep_view(&self) -> Command {
        Command { source: self.source@, tokens: texts(self.tokens@) }
    }
}

/// Whether a node is a word of a command.
pub open spec fn word_kind(kind: Seq<char>) -> bool {
    kind == "command_name"@ || kind == "command_name_expr"@ || kind == "word"@ || kind == "string"@
        || kind == "raw_string"@ || kind == "concatenation"@
}

fn is_word_kind(node: &SyntaxNode) -> (r: bool)
    ensures
        r == word_kind(node@.kind),
{
    node.is_kind("command_name") || node.is_kind("command_name_expr") || node.is_kind("word")
        || node.is_kind("string") || node.is_kind("raw_string") || node.is_kind("concatenation")
}

/// The words among the first `n` elements of a command.
pub open spec fn element_words(list: Seq<Tree>, n: int) -> Seq<Seq<char>>
    decreases n,
{
    if n <= 0 || n > list.len() {
        Seq::empty()
    } else if list[n - 1].kind == "command_argument_sep"@ || list[n - 1].kind == "redirection"@ {
        element_words(list, n - 1)
    } else {
        element_words(list, n - 1).push(list[n - 1].text)
    }
}

/// The words among the first `n` children of a command.
pub open spec fn command_words(list: Seq<Tree>, n: int) -> Seq<Seq<char>>
    decreases n,
{
    if n <= 0 || n > list.len() {
        Seq::empty()
    } else {
        let before = command_words(list, n - 1);
        let t = list[n - 1];
        if t.kind == "command_elements"@ {
            before + element_words(t.children, t.children.len() as int)
        } else if word_kind(t.kind) {
            before.push(t.text)
        } else {
            before
        }
    }
}

fn add_elements(node: &SyntaxNode, out: &mut Vec<String>)
    ensures
        texts(final(out)@) == texts(old(out)@) + element_words(
            node@.children,
            node@.children.len() as int,
        ),
{
    broadcast use lemma_children;

    let ghost start = texts(out@);
    let ghost list = node@.children;
    let mut i: usize = 0;
    assert(start + element_words(list, 0) =~= start);
    while i < node.children.len()
        invariant
            i <= node.children.len(),
            list == trees(node.children@),
            list == node@.children,
            texts(out@) == start + element_words(list, i as int),
        decreases node.children.len() - i,
    {
        let item = &node.children[i];
        assert(list[i as int] == item@);
        if !item.is_kind("command_argument_sep") && !item.is_kind("redirection") {
            let ghost before = texts(out@);
            out.push(owned(item.text.as_str()));
            assert(texts(out@) =~= before.push(item@.text));
            assert(texts(out@) =~= start + element_words(list, i + 1));
        }
        i = i + 1;
    }
}

fn command_parts(node: &SyntaxNode) -> (r: Vec<String>)
    ensures
        texts(r@) == command_words(node@.children, node@.children.len() as int),
{
    broadcast use lemma_children;

    let ghost list = node@.children;
    let mut out: Vec<String> = Vec::new();
    let mut i: usize = 0;
    assert(texts(out@) =~= Seq::<Seq<char>>::empty());
    while i < node.children.len()
        invariant
            i <= node.children.len(),
            list == trees(node.children@),
            list == node@.children,
            texts(out@) == command_words(list, i as int),
        decreases node.children.len() - i,
    {
        let child = &node.children[i];
        assert(list[i as int] == child@);
        if child.is_kind("command_elements") {
            add_elements(child, &mut out);
        } else if is_word_kind(child) {
            let ghost before = texts(out@);
            out.push(owned(child.text.as_str()));
            assert(texts(out@) =~= before.push(child@.text));
        }
        i = i + 1;
    }
    out
}

/// A node that is a command, seen under its parent: with a redirection, the command is the
/// whole of it.
pub open spec fn command_of(t: Tree, above: Option<Seq<char>>) -> Command {
    Command {
        source: trimmed(
            match above {
                Some(text) => text,
                None => t.text,
            },
        ),
        tokens: command_words(t.children, t.children.len() as int),
    }
}

/// The text of a node, where it is a command with a redirection.
pub open spec fn redirected(t: Tree) -> Option<Seq<char>> {
    if t.kind == "redirected_statement"@ {
        Some(t.text)
    } else {
        None
    }
}

/// The commands among the first `n` nodes and below them, in order. `above` is the text of the
/// node that holds them, where it is a command with a redirection.
pub open spec fn commands_in(list: Seq<Tree>, n: int, above: Option<Seq<char>>) -> Seq<Command>
    decreases list, n,
{
    if n <= 0 || n > list.len() {
        Seq::empty()
    } else {
        let before = commands_in(list, n - 1, above);
        let t = list[n - 1];
        let inner = commands_in(t.children, t.children.len() as int, redirected(t));
        if t.kind == "command"@ {
            before.push(command_of(t, above)) + inner
        } else {
            before + inner
        }
    }
}

fn collect_commands(node: &SyntaxNode, out: &mut Vec<ShellCommand>)
    ensures
        models(final(out)@) == models(old(out)@) + commands_in(
            node@.children,
            node@.children.len() as int,
            redirected(node@),
        ),
    decreases node,
{
    broadcast use {lemma_children, group_models};

    let ghost start = models(out@);
    let ghost list = node@.children;
    let ghost above = redirected(node@);
    let under = node.is_kind("redirected_statement");
    let mut i: usize = 0;
    assert(start + commands_in(list, 0, above) =~= start);
    while i < node.children.len()
        invariant
            i <= node.children.len(),
            list == trees(node.children@),
            list == node@.children,
            above == redirected(node@),
            under == (node@.kind == "redirected_statement"@),
            models(out@) == start + commands_in(list, i as int, above),
        decreases node.children.len() - i,
    {
        let child = &node.children[i];
        assert(list[i as int] == child@);
        let ghost before = models(out@);
        if child.is_kind("command") {
            let text = if under {
                node.text.as_str()
            } else {
                child.text.as_str()
            };
            let c = ShellCommand { source: trim(text), tokens: command_parts(child) };
            let ghost m = c.deep_view();
            assert(m == command_of(child@, above));
            out.push(c);
            assert(models(out@) == before.push(m));
        }
        collect_commands(child, out);
        assert(models(out@) =~= start + commands_in(list, i + 1, above));
        i = i + 1;
    }
}

/// The commands of a syntax tree.
pub open spec fn tree_commands(root: Tree) -> Seq<Command> {
    commands_in(seq![root], 1, None)
}

/// The commands of a syntax tree.
pub fn list_commands(root: &SyntaxNode) -> (r: Vec<ShellCommand>)
    ensures
        models(r@) == tree_commands(root@),
{
    broadcast use group_models;

    let mut out: Vec<ShellCommand> = Vec::new();
    if root.is_kind("command") {
        let c = ShellCommand {
            source: trim(root.text.as_str()),
            tokens: command_parts(root),
        };
        let ghost m = c.deep_view();
        assert(m == command_of(root@, None));
        out.push(c);
        assert(models(out@) =~= seq![m]);
    }
    let ghost before = models(out@);
    collect_commands(root, &mut out);
    proof {
        assert(seq![root@][0] == root@);
        assert(commands_in(seq![root@], 0, None) =~= Seq::<Command>::empty());
        assert(models(out@) =~= tree_commands(root@));
    }
    out
}

/// What is asked for a command that cannot be understood.
pub open spec fn unreadable_ask() -> Ask {
    Ask { kind: PermissionKind::Bash, patterns: seq!["*"@], always: Seq::empty() }
}

fn parse_failed_ask() -> (r: PermissionAsk)
    ensures
        r.deep_view() == unreadable_ask(),
{
    let r = PermissionAsk {
        kind: PermissionKind::Bash,
        patterns: one_text(owned("*")),
        always: Vec::new(),
    };
    assert(texts(r.always@) =~= Seq::<Seq<char>>::empty());
    r
}

fn one_text(s: String) -> (r: Vec<String>)
    ensures
        texts(r@) == seq![s@],
{
    let mut out: Vec<String> = Vec::new();
    let ghost m = s@;
    out.push(s);
    assert(texts(out@) =~= seq![m]);
    out
}

/// The commands of a shell command, or what is asked for where it cannot be understood.
pub fn read_commands(command: &str) -> (r: Result<Vec<ShellCommand>, PermissionAsk>)
    ensures
        match (r, syntax_of(command@, LangId::Bash)) {
            (Ok(list), Some(root)) => syntax_broken(command@, LangId::Bash) != Some(
                true,
            ) && models(list@)
                == tree_commands(root),
            (Err(ask), root) => (root is None || syntax_broken(
                command@,
                LangId::Bash,
            ) == Some(true))
                && ask.deep_view() == unreadable_ask(),
            _ => false,
        },
{
    match parse(command, LangId::Bash) {
        None => Err(parse_failed_ask()),
        Some(root) => {
            if has_syntax_error(command, LangId::Bash) == Some(true) {
                Err(parse_failed_ask())
            } else {
                Ok(list_commands(&root))
            }
        },
    }
}

/// A text without the quotes round it.
pub open spec fn unquoted(s: Seq<char>) -> Seq<char> {
    if s.len() >= 2 && (s[0] == '\'' || s[0] == '"') && s[0] == s.last() {
        s.subrange(1, s.len() - 1)
    } else {
        s
    }
}

fn unquote(text: &str) -> (r: String)
    ensures
        r@ == unquoted(text@),
{
    let c = chars_of(text);
    if c.len() >= 2 && (c[0] == '\'' || c[0] == '"') && c[0] == c[c.len() - 1] {
        string_of(slice_subrange(c.as_slice(), 1, c.len() - 1))
    } else {
        owned(text)
    }
}

/// The home directory and the directory of the process.
pub struct Places {
    pub home: Option<String>,
    pub pwd: String,
}

/// The home directory, as it is put in for its name.
pub open spec fn home_text(p: Places) -> Seq<char> {
    match p.home {
        Some(h) => h@,
        None => ""@,
    }
}

/// A word with the home directory and the directory of the process put in.
pub open spec fn expanded(s: Seq<char>, p: Places) -> Seq<char> {
    if s == "~"@ {
        match p.home {
            Some(h) => h@,
            None => s,
        }
    } else if "~/"@.is_prefix_of(s) && p.home is Some {
        path_join((p.home->0)@, s.skip(2))
    } else {
        substituted(
            substituted(
                substituted(substituted(s, "$HOME"@, home_text(p)), "${HOME}"@, home_text(p)),
                "$PWD"@,
                p.pwd@,
            ),
            "${PWD}"@,
            p.pwd@,
        )
    }
}

fn expand_home(text: &str, p: &Places) -> (r: String)
    ensures
        r@ == expanded(text@, *p),
{
    let home = match &p.home {
        Some(h) => h.as_str(),
        None => "",
    };
    if same(text, "~") {
        return if p.home.is_some() {
            owned(home)
        } else {
            owned(text)
        };
    }
    if starts_with(text, "~/") && p.home.is_some() {
        let c = chars_of(text);
        proof {
            reveal_strlit("~/");
        }
        let rest = string_of(slice_subrange(c.as_slice(), 2, c.len()));
        assert(rest@ =~= text@.skip(2));
        return join_path(home, rest.as_str());
    }
    proof {
        reveal_strlit("$HOME");
        reveal_strlit("${HOME}");
        reveal_strlit("$PWD");
        reveal_strlit("${PWD}");
    }
    let a = substitute(text, "$HOME", home).0;
    let b = substitute(a.as_str(), "${HOME}", home).0;
    let c = substitute(b.as_str(), "$PWD", p.pwd.as_str()).0;
    substitute(c.as_str(), "${PWD}", p.pwd.as_str()).0
}

/// A sign that stands for many names.
pub open spec fn wildcard(c: char) -> bool {
    c == '?' || c == '*' || c == '['
}

/// A word up to the first sign from an index on that stands for many names.
pub open spec fn fixed_part(s: Seq<char>, from: int) -> Seq<char>
    decreases s.len() - from,
{
    if from < 0 || from >= s.len() {
        s
    } else if wildcard(s[from]) {
        s.take(from)
    } else {
        fixed_part(s, from + 1)
    }
}

/// The start of a path that is fixed; nothing where the path starts with a sign that stands for
/// many names.
pub open spec fn glob_start(s: Seq<char>) -> Option<Seq<char>> {
    if s.len() > 0 && wildcard(s[0]) {
        None
    } else {
        Some(fixed_part(s, 0))
    }
}

fn glob_prefix(text: &str) -> (r: Option<String>)
    ensures
        r.deep_view() == glob_start(text@),
{
    let c = chars_of(text);
    let mut i: usize = 0;
    while i < c.len()
        invariant
            i <= c.len(),
            c@ == text@,
            i > 0 ==> !wildcard(c@[0]),
            fixed_part(text@, 0) == fixed_part(text@, i as int),
        decreases c.len() - i,
    {
        if c[i] == '?' || c[i] == '*' || c[i] == '[' {
            if i == 0 {
                return None;
            }
            let r = string_of(slice_subrange(c.as_slice(), 0, i));
            assert(r@ =~= text@.take(i as int));
            return Some(r);
        }
        i = i + 1;
    }
    Some(owned(text))
}

/// Whether a word is only known once the command runs.
pub open spec fn dynamic(s: Seq<char>) -> bool {
    (s.len() > 0 && s[0] == '(') || s.contains('`') || s.contains('$')
}

fn is_dynamic(text: &str) -> (r: bool)
    ensures
        r == dynamic(text@),
{
    let c = chars_of(text);
    if c.len() > 0 && c[0] == '(' {
        return true;
    }
    let mut i: usize = 0;
    while i < c.len()
        invariant
            i <= c.len(),
            c@ == text@,
            forall|k: int| 0 <= k < i ==> c@[k] != '`' && c@[k] != '$',
        decreases c.len() - i,
    {
        if c[i] == '`' || c[i] == '$' {
            assert(text@.contains(c@[i as int]));
            return true;
        }
        i = i + 1;
    }
    false
}

/// A path as it is known: the canonical one, or the one without `.` and `..` where nothing is
/// there.
pub open spec fn resolved(d: Disk, p: Seq<char>) -> Seq<char> {
    match d.canonical(p) {
        Some(c) => c,
        None => rendered(normalized(path_components(p))),
    }
}

fn resolve_existing(w: &Worktree, path: &str) -> (r: String)
    ensures
        r@ == resolved(w@, path@),
{
    match w.canonicalize(path) {
        Some(c) => c,
        None => render(&normalize_components(path)),
    }
}

/// The path that a word names, seen from a directory, as it is written; nothing where it is not
/// known.
pub open spec fn written_path(p: Places, arg: Seq<char>, cwd: Seq<char>) -> Option<Seq<char>> {
    match glob_start(expanded(unquoted(arg), p)) {
        None => None,
        Some(text) => if dynamic(text) {
            None
        } else {
            Some(path_join(cwd, text))
        },
    }
}

/// The path that a word names, seen from a directory; nothing where it is not known.
pub open spec fn named_path(d: Disk, p: Places, arg: Seq<char>, cwd: Seq<char>) -> Option<
    Seq<char>,
> {
    match written_path(p, arg, cwd) {
        None => None,
        Some(path) => Some(resolved(d, path)),
    }
}

fn word_path(p: &Places, arg: &str, cwd: &str) -> (r: Option<String>)
    ensures
        r.deep_view() == written_path(*p, arg@, cwd@),
{
    let text = expand_home(unquote(arg).as_str(), p);
    match glob_prefix(text.as_str()) {
        None => None,
        Some(fixed) => {
            if is_dynamic(fixed.as_str()) {
                None
            } else {
                Some(join_path(cwd, fixed.as_str()))
            }
        },
    }
}

fn arg_path(w: &Worktree, p: &Places, arg: &str, cwd: &str) -> (r: Option<String>)
    ensures
        r.deep_view() == named_path(w@, *p, arg@, cwd@),
{
    match word_path(p, arg, cwd) {
        None => None,
        Some(path) => Some(resolve_existing(w, path.as_str())),
    }
}

/// The directory that a permission for a path is for.
pub open spec fn ask_dir(d: Disk, path: Seq<char>) -> Seq<char> {
    if d.is_dir(path) {
        path
    } else {
        match path_parent(path) {
            Some(p) => p,
            None => path,
        }
    }
}

fn permission_dir(w: &Worktree, path: &str) -> (r: String)
    ensures
        r@ == ask_dir(w@, path@),
{
    if w.is_dir(path) {
        owned(path)
    } else {
        match parent(path) {
            Some(p) => p,
            None => owned(path),
        }
    }
}

/// Whether the word of a command at an index can be a path: it is no option.
pub open spec fn path_word(tokens: Seq<Seq<char>>, i: int) -> bool {
    &&& 0 < i < tokens.len()
    &&& !(tokens[i].len() > 0 && tokens[i][0] == '-')
    &&& !(tokens[0] == "chmod"@ && tokens[i].len() > 0 && tokens[i][0] == '+')
}

fn is_path_word(tokens: &Vec<String>, i: usize) -> (r: bool)
    requires
        i < tokens@.len(),
    ensures
        r == path_word(texts(tokens@), i as int),
{
    let ghost all = texts(tokens@);
    assert(all[i as int] == tokens@[i as int]@);
    assert(all[0] == tokens@[0]@);
    if i == 0 {
        return false;
    }
    let c = chars_of(tokens[i].as_str());
    if c.len() > 0 && c[0] == '-' {
        return false;
    }
    !(same(tokens[0].as_str(), "chmod") && c.len() > 0 && c[0] == '+')
}

/// The first word of a command from an index on that can be a path.
pub open spec fn first_path(tokens: Seq<Seq<char>>, from: int) -> Option<Seq<char>>
    decreases tokens.len() - from,
{
    if from < 0 || from >= tokens.len() {
        None
    } else if path_word(tokens, from) {
        Some(tokens[from])
    } else {
        first_path(tokens, from + 1)
    }
}

/// Whether a command works on files.
pub open spec fn file_command(head: Seq<char>) -> bool {
    head == "rm"@ || head == "cp"@ || head == "mv"@ || head == "mkdir"@ || head == "touch"@ || head
        == "chmod"@ || head == "chown"@ || head == "cat"@ || head == "cd"@
}

fn is_file_command(head: &str) -> (r: bool)
    ensures
        r == file_command(head@),
{
    same(head, "rm") || same(head, "cp") || same(head, "mv") || same(head, "mkdir") || same(
        head,
        "touch",
    ) || same(head, "chmod") || same(head, "chown") || same(head, "cat") || same(head, "cd")
}

/// Whether a command changes the directory.
pub open spec fn dir_command(head: Seq<char>) -> bool {
    head == "cd"@ || head == "pushd"@ || head == "popd"@
}

/// Asks with one more, unless it is there already.
pub open spec fn with_ask(asks: Seq<Ask>, ask: Ask) -> Seq<Ask> {
    if asks.contains(ask) {
        asks
    } else {
        asks.push(ask)
    }
}

/// What is asked for a directory.
pub open spec fn dir_ask(dir: Seq<char>) -> Ask {
    Ask {
        kind: PermissionKind::ExternalDirectory,
        patterns: seq![dir + "/*"@],
        always: seq![dir + "/*"@],
    }
}

/// What is asked for a command. `stable` is the part of it that stays the same from one use to
/// the next.
pub open spec fn with_command_ask(asks: Seq<Ask>, source: Seq<char>, stable: Seq<char>) -> Seq<Ask> {
    if stable.len() == 0 {
        asks
    } else {
        with_ask(
            asks,
            Ask { kind: PermissionKind::Bash, patterns: seq![source], always: seq![stable + " *"@] },
        )
    }
}

/// What is asked for the first `n` words of a command that can name paths: every directory
/// outside the project.
pub open spec fn path_asks(
    d: Disk,
    p: Places,
    root: Seq<char>,
    cwd: Seq<char>,
    tokens: Seq<Seq<char>>,
    asks: Seq<Ask>,
    n: int,
) -> Seq<Ask>
    decreases n,
{
    if n <= 0 || n > tokens.len() {
        asks
    } else {
        let before = path_asks(d, p, root, cwd, tokens, asks, n - 1);
        if !path_word(tokens, n - 1) {
            before
        } else {
            match named_path(d, p, tokens[n - 1], cwd) {
                None => before,
                Some(path) => if path_under(path, root) {
                    before
                } else {
                    with_ask(before, dir_ask(ask_dir(d, path)))
                },
            }
        }
    }
}

/// The index of the first word from an index on that is no option.
pub open spec fn past_options(tokens: Seq<Seq<char>>, i: int) -> int
    decreases tokens.len() - i,
{
    if 0 <= i < tokens.len() && tokens[i].len() > 0 && tokens[i][0] == '-' {
        past_options(tokens, i + 1)
    } else {
        i
    }
}

/// The words of the command that another one runs.
pub open spec fn inner_command(tokens: Seq<Seq<char>>) -> Seq<Seq<char>> {
    let i = past_options(tokens, 1);
    if i < tokens.len() {
        tokens.skip(i)
    } else {
        Seq::empty()
    }
}

/// The words of the command that `xargs` runs.
pub fn xargs_tokens(tokens: &Vec<String>) -> (r: Vec<String>)
    requires
        tokens@.len() > 0,
    ensures
        texts(r@) == inner_command(texts(tokens@)),
{
    let ghost all = texts(tokens@);
    let mut i: usize = 1;
    assert(all.len() == tokens@.len());
    while i < tokens.len() && starts_with_dash(tokens[i].as_str())
        invariant
            1 <= i <= tokens.len(),
            all == texts(tokens@),
            all.len() == tokens@.len(),
            past_options(all, 1) == past_options(all, i as int),
        decreases tokens.len() - i,
    {
        assert(all[i as int] == tokens@[i as int]@);
        i = i + 1;
    }
    assert(i < tokens@.len() ==> all[i as int] == tokens@[i as int]@);
    let start = i;
    let mut out: Vec<String> = Vec::new();
    assert(texts(out@) =~= all.subrange(start as int, start as int));
    while i < tokens.len()
        invariant
            start <= i <= tokens.len(),
            all == texts(tokens@),
            texts(out@) == all.subrange(start as int, i as int),
        decreases tokens.len() - i,
    {
        let ghost before = texts(out@);
        out.push(owned(tokens[i].as_str()));
        assert(texts(out@) =~= before.push(tokens@[i as int]@));
        assert(texts(out@) =~= all.subrange(start as int, i + 1));
        i = i + 1;
    }
    assert(all.subrange(start as int, all.len() as int) =~= all.skip(start as int));
    assert(start >= all.len() ==> texts(out@) =~= Seq::<Seq<char>>::empty());
    out
}

fn starts_with_dash(s: &str) -> (r: bool)
    ensures
        r == (s@.len() > 0 && s@[0] == '-'),
{
    let c = chars_of(s);
    c.len() > 0 && c[0] == '-'
}

/// The parts of a command that stay the same from one use to the next: its own, and that of
/// the command that it runs.
pub struct StableParts {
    pub own: String,
    pub inner: String,
}

/// What is known on the way through commands: the directory, and what is asked for.
pub ghost struct Way {
    pub cwd: Seq<char>,
    pub asks: Seq<Ask>,
}

/// What is known after one more command.
pub open spec fn after_command(
    d: Disk,
    p: Places,
    root: Seq<char>,
    c: Command,
    stable: StableParts,
    way: Way,
) -> Way {
    let tokens = c.tokens;
    if tokens.len() == 0 {
        way
    } else if tokens[0] == "cd"@ {
        match first_path(tokens, 0) {
            Some(arg) => match named_path(d, p, arg, way.cwd) {
                Some(path) => Way { cwd: path, ..way },
                None => way,
            },
            None => way,
        }
    } else {
        let with_paths = if file_command(tokens[0]) {
            path_asks(d, p, root, way.cwd, tokens, way.asks, tokens.len() as int)
        } else {
            way.asks
        };
        let with_own = if dir_command(tokens[0]) || tokens[0] == "echo"@ {
            with_paths
        } else {
            with_command_ask(with_paths, c.source, stable.own@)
        };
        let with_inner = if tokens[0] == "xargs"@ && inner_command(tokens).len() > 0 {
            with_command_ask(with_own, joined(inner_command(tokens), " "@), stable.inner@)
        } else {
            with_own
        };
        Way { asks: with_inner, ..way }
    }
}

/// What is known after the first `n` commands.
pub open spec fn after_commands(
    d: Disk,
    p: Places,
    root: Seq<char>,
    cwd: Seq<char>,
    commands: Seq<Command>,
    stables: Seq<StableParts>,
    n: int,
) -> Way
    decreases n,
{
    if n <= 0 || n > commands.len() {
        Way { cwd, asks: Seq::empty() }
    } else {
        after_command(
            d,
            p,
            root,
            commands[n - 1],
            stables[n - 1],
            after_commands(d, p, root, cwd, commands, stables, n - 1),
        )
    }
}

fn same_texts(a: &Vec<String>, b: &Vec<String>) -> (r: bool)
    ensures
        r == (texts(a@) == texts(b@)),
{
    assert(texts(a@).len() == a@.len());
    assert(texts(b@).len() == b@.len());
    if a.len() != b.len() {
        return false;
    }
    let mut i: usize = 0;
    while i < a.len()
        invariant
            i <= a.len(),
            a@.len() == b@.len(),
            forall|k: int| 0 <= k < i ==> (#[trigger] texts(a@)[k]) == texts(b@)[k],
        decreases a.len() - i,
    {
        assert(texts(a@)[i as int] == a@[i as int]@);
        assert(texts(b@)[i as int] == b@[i as int]@);
        if !same(a[i].as_str(), b[i].as_str()) {
            return false;
        }
        i = i + 1;
    }
    assert(texts(a@) =~= texts(b@));
    true
}

fn push_ask(asks: &mut Vec<PermissionAsk>, ask: PermissionAsk)
    ensures
        models(final(asks)@) == with_ask(models(old(asks)@), ask.deep_view()),
{
    broadcast use group_models;

    let ghost all = models(asks@);
    let mut i: usize = 0;
    while i < asks.len()
        invariant
            i <= asks.len(),
            all == models(asks@),
            all == models(old(asks)@),
            forall|k: int| 0 <= k < i ==> all[k] != ask.deep_view(),
        decreases asks.len() - i,
    {
        let a = &asks[i];
        assert(all[i as int] == asks@[i as int].deep_view());
        if a.kind == ask.kind && same_texts(&a.patterns, &ask.patterns) && same_texts(
            &a.always,
            &ask.always,
        ) {
            assert(all[i as int] == ask.deep_view());
            assert(all.contains(ask.deep_view()));
            return;
        }
        i = i + 1;
    }
    asks.push(ask);
}

fn push_bash_ask(asks: &mut Vec<PermissionAsk>, source: &str, stable: &str)
    ensures
        models(final(asks)@) == with_command_ask(models(old(asks)@), source@, stable@),
{
    if stable.is_empty() {
        return;
    }
    push_ask(
        asks,
        PermissionAsk {
            kind: PermissionKind::Bash,
            patterns: one_text(owned(source)),
            always: one_text(text2(stable, " *")),
        },
    );
}

fn push_path_asks(
    w: &Worktree,
    p: &Places,
    root: &str,
    cwd: &str,
    tokens: &Vec<String>,
    asks: &mut Vec<PermissionAsk>,
)
    ensures
        models(final(asks)@) == path_asks(
            w@,
            *p,
            root@,
            cwd@,
            texts(tokens@),
            models(old(asks)@),
            tokens@.len() as int,
        ),
{
    let ghost start = models(asks@);
    let ghost all = texts(tokens@);
    let mut i: usize = 0;
    while i < tokens.len()
        invariant
            i <= tokens.len(),
            all == texts(tokens@),
            models(asks@) == path_asks(w@, *p, root@, cwd@, all, start, i as int),
        decreases tokens.len() - i,
    {
        assert(all[i as int] == tokens@[i as int]@);
        assert(all.len() == tokens@.len());
        if is_path_word(tokens, i) {
            match arg_path(w, p, tokens[i].as_str(), cwd) {
                Some(path) => {
                    if !starts_with_path(path.as_str(), root) {
                        let dir = text2(permission_dir(w, path.as_str()).as_str(), "/*");
                        let ask = PermissionAsk {
                            kind: PermissionKind::ExternalDirectory,
                            patterns: one_text(owned(dir.as_str())),
                            always: one_text(dir),
                        };
                        assert(ask.deep_view() == dir_ask(ask_dir(w@, path@)));
                        push_ask(asks, ask);
                    }
                },
                None => {},
            }
        }
        i = i + 1;
    }
}

fn next_dir(w: &Worktree, p: &Places, tokens: &Vec<String>, cwd: &str) -> (r: Option<String>)
    ensures
        r.deep_view() == (match first_path(texts(tokens@), 0) {
            Some(arg) => named_path(w@, *p, arg, cwd@),
            None => None,
        }),
{
    let ghost all = texts(tokens@);
    let mut i: usize = 0;
    assert(all.len() == tokens@.len());
    while i < tokens.len()
        invariant
            i <= tokens.len(),
            all == texts(tokens@),
            all.len() == tokens@.len(),
            first_path(all, 0) == first_path(all, i as int),
        decreases tokens.len() - i,
    {
        assert(all[i as int] == tokens@[i as int]@);
        if is_path_word(tokens, i) {
            return arg_path(w, p, tokens[i].as_str(), cwd);
        }
        i = i + 1;
    }
    None
}

/// The paths that the first `n` words of a command name, as they are written.
pub open spec fn written_paths(p: Places, tokens: Seq<Seq<char>>, cwd: Seq<char>, n: int) -> Seq<
    Seq<char>,
>
    decreases n,
{
    if n <= 0 || n > tokens.len() {
        Seq::empty()
    } else {
        let rest = written_paths(p, tokens, cwd, n - 1);
        match written_path(p, tokens[n - 1], cwd) {
            Some(path) => if path_word(tokens, n - 1) {
                rest.push(path)
            } else {
                rest
            },
            None => rest,
        }
    }
}

/// The directory that the commands behind a command run in.
pub open spec fn dir_behind(d: Disk, p: Places, tokens: Seq<Seq<char>>, cwd: Seq<char>) -> Seq<
    char,
> {
    if tokens.len() > 0 && tokens[0] == "cd"@ && first_path(tokens, 0) is Some {
        match named_path(d, p, first_path(tokens, 0)->0, cwd) {
            Some(path) => path,
            None => cwd,
        }
    } else {
        cwd
    }
}

/// The directory behind the first `n` commands, and the paths that they name, as they are
/// written.
pub open spec fn looked_at(
    d: Disk,
    p: Places,
    cwd: Seq<char>,
    commands: Seq<Command>,
    n: int,
) -> (Seq<char>, Seq<Seq<char>>)
    decreases n,
{
    if n <= 0 || n > commands.len() {
        (cwd, Seq::empty())
    } else {
        let before = looked_at(d, p, cwd, commands, n - 1);
        let tokens = commands[n - 1].tokens;
        (
            dir_behind(d, p, tokens, before.0),
            before.1 + written_paths(p, tokens, before.0, tokens.len() as int),
        )
    }
}

fn add_written_paths(p: &Places, tokens: &Vec<String>, cwd: &str, out: &mut Vec<String>)
    ensures
        models(final(out)@) == models(old(out)@) + written_paths(
            *p,
            texts(tokens@),
            cwd@,
            tokens@.len() as int,
        ),
{
    broadcast use group_models;

    let ghost start = models(out@);
    let ghost all = texts(tokens@);
    let mut i: usize = 0;
    assert(start + Seq::<Seq<char>>::empty() =~= start);
    while i < tokens.len()
        invariant
            i <= tokens.len(),
            all == texts(tokens@),
            all.len() == tokens@.len(),
            models(out@) == start + written_paths(*p, all, cwd@, i as int),
        decreases tokens.len() - i,
    {
        assert(all[i as int] == tokens@[i as int]@);
        let ghost before = models(out@);
        let ghost rest = written_paths(*p, all, cwd@, i as int);
        match word_path(p, tokens[i].as_str(), cwd) {
            Some(path) => {
                if is_path_word(tokens, i) {
                    let ghost m = path.deep_view();
                    out.push(path);
                    assert(models(out@) == before.push(m));
                    assert((start + rest).push(m) =~= start + rest.push(m));
                }
            },
            None => {},
        }
        i = i + 1;
    }
}

/// The paths that commands name, as they are written, seen from the directories that the commands
/// run in: what a permission can depend on.
pub fn paths_looked_at(
    commands: &Vec<ShellCommand>,
    w: &Worktree,
    places: &Places,
    cwd: &str,
) -> (r: Vec<String>)
    ensures
        models(r@) == looked_at(
            w@,
            *places,
            resolved(w@, cwd@),
            models(commands@),
            commands@.len() as int,
        ).1,
{
    broadcast use group_models;

    let start = resolve_existing(w, cwd);
    let ghost all = models(commands@);
    let mut dir = owned(start.as_str());
    let mut out: Vec<String> = Vec::new();
    let mut i: usize = 0;
    while i < commands.len()
        invariant
            i <= commands.len(),
            all == models(commands@),
            looked_at(w@, *places, start@, all, i as int) == (dir@, models(out@)),
        decreases commands.len() - i,
    {
        let c = &commands[i];
        assert(all[i as int] == c.deep_view());
        assert(texts(c.tokens@).len() == c.tokens@.len());
        add_written_paths(places, &c.tokens, dir.as_str(), &mut out);
        if c.tokens.len() > 0 {
            assert(texts(c.tokens@)[0] == c.tokens@[0]@);
            if same(c.tokens[0].as_str(), "cd") {
                match next_dir(w, places, &c.tokens, dir.as_str()) {
                    Some(path) => {
                        dir = path;
                    },
                    None => {},
                }
            }
        }
        i = i + 1;
    }
    out
}

/// What is asked for commands that run one after another: every directory outside the project
/// that one of them works on, and every command but those that change the directory or print.
/// `stables` holds the stable parts of each command.
pub fn scan_with_cwd(
    commands: &Vec<ShellCommand>,
    stables: &Vec<StableParts>,
    w: &Worktree,
    places: &Places,
    project_root: &str,
    cwd: &str,
) -> (r: Vec<PermissionAsk>)
    requires
        stables@.len() == commands@.len(),
    ensures
        models(r@) == after_commands(
            w@,
            *places,
            resolved(w@, project_root@),
            resolved(w@, cwd@),
            models(commands@),
            stables@,
            commands@.len() as int,
        ).asks,
{
    broadcast use group_models;

    let root = resolve_existing(w, project_root);
    let start = resolve_existing(w, cwd);
    let ghost all = models(commands@);
    let mut dir = owned(start.as_str());
    let mut asks: Vec<PermissionAsk> = Vec::new();
    let mut i: usize = 0;
    while i < commands.len()
        invariant
            i <= commands.len(),
            stables@.len() == commands@.len(),
            all == models(commands@),
            ({
                let way = after_commands(
                    w@,
                    *places,
                    root@,
                    start@,
                    all,
                    stables@,
                    i as int,
                );
                dir@ == way.cwd && models(asks@) == way.asks
            }),
        decreases commands.len() - i,
    {
        let c = &commands[i];
        assert(all[i as int] == c.deep_view());
        assert(texts(c.tokens@).len() == c.tokens@.len());
        if c.tokens.len() > 0 {
            assert(texts(c.tokens@)[0] == c.tokens@[0]@);
            let head = c.tokens[0].as_str();
            if same(head, "cd") {
                match next_dir(w, places, &c.tokens, dir.as_str()) {
                    Some(path) => {
                        dir = path;
                    },
                    None => {},
                }
            } else {
                if is_file_command(head) {
                    push_path_asks(
                        w,
                        places,
                        root.as_str(),
                        dir.as_str(),
                        &c.tokens,
                        &mut asks,
                    );
                }
                if !(same(head, "cd") || same(head, "pushd") || same(head, "popd")) && !same(
                    head,
                    "echo",
                ) {
                    push_bash_ask(&mut asks, c.source.as_str(), stables[i].own.as_str());
                    if same(head, "xargs") {
                        let inner = xargs_tokens(&c.tokens);
                        assert(texts(inner@).len() == inner@.len());
                        if inner.len() > 0 {
                            push_bash_ask(
                                &mut asks,
                                join(&inner, " ").as_str(),
                                stables[i].inner.as_str(),
                            );
                        }
                    }
                } else {
                    proof {
                        lemma_xargs_is_another(head@);
                    }
                }
            }
        }
        i = i + 1;
    }
    asks
}

proof fn lemma_xargs_is_another(head: Seq<char>)
    requires
        dir_command(head) || head == "echo"@,
    ensures
        head != "xargs"@,
{
    reveal_strlit("cd");
    reveal_strlit("pushd");
    reveal_strlit("popd");
    reveal_strlit("echo");
    reveal_strlit("xargs");
    assert("xargs"@[0] == 'x');
    assert("pushd"@[0] == 'p');
    assert("xargs"@.len() == 5);
}

/// What is asked for a shell command; nothing where permissions are off or there is no
/// project. `read` is what the command holds, or what is asked for where it cannot be
/// understood.
pub fn scan(
    enabled: bool,
    read: Result<Vec<ShellCommand>, PermissionAsk>,
    stables: &Vec<StableParts>,
    w: &Worktree,
    places: &Places,
    project_root: Option<&str>,
) -> (r: Vec<PermissionAsk>)
    requires
        read is Ok ==> stables@.len() == (read->Ok_0)@.len(),
    ensures
        models(r@) == (match (given_text(project_root), read) {
            (None, _) => Seq::empty(),
            (Some(root), Err(ask)) => if enabled {
                seq![ask.deep_view()]
            } else {
                Seq::empty()
            },
            (Some(root), Ok(list)) => if enabled {
                after_commands(
                    w@,
                    *places,
                    resolved(w@, root),
                    resolved(w@, root),
                    models(list@),
                    stables@,
                    list@.len() as int,
                ).asks
            } else {
                Seq::empty()
            },
        }),
{
    broadcast use group_models;

    if !enabled {
        return Vec::new();
    }
    match project_root {
        None => Vec::new(),
        Some(root) => match read {
            Err(ask) => {
                let mut out: Vec<PermissionAsk> = Vec::new();
                let ghost m = ask.deep_view();
                out.push(ask);
                assert(models(out@) =~= seq![m]);
                out
            },
            Ok(list) => scan_with_cwd(&list, stables, w, places, root, root),
        },
    }
}

/// The directories from which paths are looked at are those in which permissions are asked for.
pub proof fn paths_are_seen_from_the_same_directories(
    d: Disk,
    p: Places,
    root: Seq<char>,
    cwd: Seq<char>,
    commands: Seq<Command>,
    stables: Seq<StableParts>,
    n: int,
)
    ensures
        looked_at(d, p, cwd, commands, n).0 == after_commands(
            d,
            p,
            root,
            cwd,
            commands,
            stables,
            n,
        ).cwd,
    decreases n,
{
    if 0 < n <= commands.len() {
        paths_are_seen_from_the_same_directories(d, p, root, cwd, commands, stables, n - 1);
    }
}

proof fn lemma_path_asks_grow(
    d: Disk,
    p: Places,
    root: Seq<char>,
    cwd: Seq<char>,
    tokens: Seq<Seq<char>>,
    asks: Seq<Ask>,
    n: int,
)
    ensures
        asks.is_prefix_of(path_asks(d, p, root, cwd, tokens, asks, n)),
        asks.no_duplicates() ==> path_asks(d, p, root, cwd, tokens, asks, n).no_duplicates(),
    decreases n,
{
    if 0 < n <= tokens.len() {
        lemma_path_asks_grow(d, p, root, cwd, tokens, asks, n - 1);
        let before = path_asks(d, p, root, cwd, tokens, asks, n - 1);
        let after = path_asks(d, p, root, cwd, tokens, asks, n);
        assert(asks =~= before.take(asks.len() as int));
        assert(asks =~= after.take(asks.len() as int));
    } else {
        assert(asks =~= asks.take(asks.len() as int));
    }
}

proof fn lemma_way_keeps(
    d: Disk,
    p: Places,
    root: Seq<char>,
    c: Command,
    stable: StableParts,
    way: Way,
)
    ensures
        way.asks.is_prefix_of(after_command(d, p, root, c, stable, way).asks),
        way.asks.no_duplicates() ==> after_command(
            d,
            p,
            root,
            c,
            stable,
            way,
        ).asks.no_duplicates(),
{
    let after = after_command(d, p, root, c, stable, way).asks;
    lemma_path_asks_grow(d, p, root, way.cwd, c.tokens, way.asks, c.tokens.len() as int);
    assert(way.asks =~= way.asks.take(way.asks.len() as int));
    assert(way.asks =~= after.take(way.asks.len() as int));
}

/// What is asked for a command stays asked for whatever follows it, and nothing is asked for
/// twice.
pub proof fn asks_are_kept_and_not_repeated(
    d: Disk,
    p: Places,
    root: Seq<char>,
    cwd: Seq<char>,
    commands: Seq<Command>,
    stables: Seq<StableParts>,
    n: int,
    m: int,
)
    requires
        0 <= n <= m <= commands.len(),
    ensures
        after_commands(d, p, root, cwd, commands, stables, n).asks.is_prefix_of(
            after_commands(d, p, root, cwd, commands, stables, m).asks,
        ),
        after_commands(d, p, root, cwd, commands, stables, m).asks.no_duplicates(),
    decreases m,
{
    let a = after_commands(d, p, root, cwd, commands, stables, n).asks;
    let b = after_commands(d, p, root, cwd, commands, stables, m).asks;
    if m > 0 {
        let before = after_commands(d, p, root, cwd, commands, stables, m - 1);
        lemma_way_keeps(d, p, root, commands[m - 1], stables[m - 1], before);
        if n < m {
            asks_are_kept_and_not_repeated(d, p, root, cwd, commands, stables, n, m - 1);
            assert(a =~= before.asks.take(a.len() as int));
            assert(before.asks =~= b.take(before.asks.len() as int));
            assert(a =~= b.take(a.len() as int));
        } else {
            asks_are_kept_and_not_repeated(d, p, root, cwd, commands, stables, m - 1, m - 1);
            assert(a =~= b.take(a.len() as int));
        }
    } else {
        assert(a =~= b.take(a.len() as int));
    }
}

proof fn lemma_asked_dir(
    d: Disk,
    p: Places,
    root: Seq<char>,
    cwd: Seq<char>,
    tokens: Seq<Seq<char>>,
    asks: Seq<Ask>,
    n: int,
    i: int,
)
    requires
        0 <= i < n <= tokens.len(),
        path_word(tokens, i),
        named_path(d, p, tokens[i], cwd) is Some,
        !path_under(named_path(d, p, tokens[i], cwd)->0, root),
    ensures
        path_asks(d, p, root, cwd, tokens, asks, n).contains(
            dir_ask(ask_dir(d, named_path(d, p, tokens[i], cwd)->0)),
        ),
    decreases n,
{
    let ask = dir_ask(ask_dir(d, named_path(d, p, tokens[i], cwd)->0));
    let before = path_asks(d, p, root, cwd, tokens, asks, n - 1);
    let after = path_asks(d, p, root, cwd, tokens, asks, n);
    if i < n - 1 {
        lemma_asked_dir(d, p, root, cwd, tokens, asks, n - 1, i);
        let k = choose|k: int| 0 <= k < before.len() && before[k] == ask;
        assert(after[k] == ask);
    } else if !before.contains(ask) {
        assert(after[before.len() as int] == ask);
    }
}

/// A command that works on files is not run on a path outside the project unless the directory
/// is asked for.
pub proof fn outside_paths_are_asked_for(
    d: Disk,
    p: Places,
    root: Seq<char>,
    c: Command,
    stable: StableParts,
    way: Way,
    i: int,
)
    requires
        0 < i < c.tokens.len(),
        file_command(c.tokens[0]),
        c.tokens[0] != "cd"@,
        path_word(c.tokens, i),
        named_path(d, p, c.tokens[i], way.cwd) is Some,
        !path_under(named_path(d, p, c.tokens[i], way.cwd)->0, root),
    ensures
        after_command(d, p, root, c, stable, way).asks.contains(
            dir_ask(ask_dir(d, named_path(d, p, c.tokens[i], way.cwd)->0)),
        ),
{
    let n = c.tokens.len() as int;
    lemma_asked_dir(d, p, root, way.cwd, c.tokens, way.asks, n, i);
    let ask = dir_ask(ask_dir(d, named_path(d, p, c.tokens[i], way.cwd)->0));
    let some = path_asks(d, p, root, way.cwd, c.tokens, way.asks, n);
    let after = after_command(d, p, root, c, stable, way).asks;
    let k = choose|k: int| 0 <= k < some.len() && some[k] == ask;
    assert(after[k] == ask);
}

/// Whether a word is a path that is written out: absolute, and without anything that a shell would
/// put something else in the place of.
pub open spec fn written_out(arg: Seq<char>) -> bool {
    &&& arg.len() > 0
    &&& arg[0] == '/'
    &&& forall|i: int|
        0 <= i < arg.len() ==> (#[trigger] arg[i]) != '$' && arg[i] != '`' && arg[i] != '?'
            && arg[i] != '*' && arg[i] != '['
}

proof fn lemma_unsubstituted(s: Seq<char>, needle: Seq<char>, by: Seq<char>)
    requires
        needle.len() > 0,
        !s.contains(needle[0]),
    ensures
        substituted(s, needle, by) == s,
{
    lemma_find_from(s, needle, 0);
    match find_from(s, needle, 0) {
        Some(i) => {
            assert(s.subrange(i, i + needle.len())[0] == s[i]);
            assert(s.contains(s[i]));
        },
        None => {},
    }
}

proof fn lemma_fixed(s: Seq<char>, from: int)
    requires
        forall|i: int|
            0 <= i < s.len() ==> (#[trigger] s[i]) != '?' && s[i] != '*' && s[i] != '[',
    ensures
        fixed_part(s, from) == s,
    decreases s.len() - from,
{
    if 0 <= from < s.len() {
        assert(s[from] != '?');
        lemma_fixed(s, from + 1);
    }
}

proof fn lemma_written_out(d: Disk, p: Places, arg: Seq<char>, cwd: Seq<char>)
    requires
        written_out(arg),
    ensures
        named_path(d, p, arg, cwd) == Some(resolved(d, arg)),
{
    reveal_strlit("~");
    reveal_strlit("~/");
    reveal_strlit("$HOME");
    reveal_strlit("${HOME}");
    reveal_strlit("$PWD");
    reveal_strlit("${PWD}");
    assert(unquoted(arg) == arg);
    assert("~"@[0] == '~');
    assert("~/"@[0] == '~');
    if "~/"@.is_prefix_of(arg) {
        assert(arg.subrange(0, 2)[0] == "~/"@[0]);
    }
    assert(!arg.contains('$'));
    lemma_unsubstituted(arg, "$HOME"@, home_text(p));
    lemma_unsubstituted(arg, "${HOME}"@, home_text(p));
    lemma_unsubstituted(arg, "$PWD"@, p.pwd@);
    lemma_unsubstituted(arg, "${PWD}"@, p.pwd@);
    lemma_fixed(arg, 0);
    assert(arg[0] != '?');
    assert(!arg.contains('`'));
}

/// Every command that works on files is asked about for each path that it names outside the
/// project: for the directory there, or for the one that the file is in.
pub proof fn file_commands_are_asked_about_outside_the_project(
    d: Disk,
    p: Places,
    root: Seq<char>,
    c: Command,
    stable: StableParts,
    way: Way,
    i: int,
)
    requires
        0 < i < c.tokens.len(),
        ({
            let head = c.tokens[0];
            head == "rm"@ || head == "cp"@ || head == "mv"@ || head == "mkdir"@ || head == "touch"@
                || head == "chmod"@ || head == "chown"@ || head == "cat"@
        }),
        written_out(c.tokens[i]),
        !path_under(resolved(d, c.tokens[i]), root),
    ensures
        ({
            let path = resolved(d, c.tokens[i]);
            let dir = if d.is_dir(path) {
                path
            } else if path_parent(path) is Some {
                path_parent(path)->0
            } else {
                path
            };
            after_command(d, p, root, c, stable, way).asks.contains(
                Ask {
                    kind: PermissionKind::ExternalDirectory,
                    patterns: seq![dir + "/*"@],
                    always: seq![dir + "/*"@],
                },
            )
        }),
{
    lemma_written_out(d, p, c.tokens[i], way.cwd);
    lemma_heads();
    outside_paths_are_asked_for(d, p, root, c, stable, way, i);
}

proof fn lemma_heads()
    ensures
        "rm"@ != "cd"@,
        "cp"@ != "cd"@,
        "mv"@ != "cd"@,
        "mkdir"@ != "cd"@,
        "touch"@ != "cd"@,
        "chmod"@ != "cd"@,
        "chown"@ != "cd"@,
        "cat"@ != "cd"@,
{
    reveal_strlit("rm");
    reveal_strlit("cp");
    reveal_strlit("mv");
    reveal_strlit("mkdir");
    reveal_strlit("touch");
    reveal_strlit("chmod");
    reveal_strlit("chown");
    reveal_strlit("cat");
    reveal_strlit("cd");
    assert("cd"@.len() == 2 && "cd"@[0] == 'c' && "cd"@[1] == 'd');
    assert("rm"@[0] == 'r');
    assert("cp"@[1] == 'p');
    assert("mv"@[0] == 'm');
    assert("mkdir"@.len() == 5);
    assert("touch"@.len() == 5);
    assert("chmod"@.len() == 5);
    assert("chown"@.len() == 5);
    assert("cat"@.len() == 3);
}

/// A change of directory to a path that is written out is gone along with: what follows is seen from
/// there. It asks for nothing itself.
pub proof fn changes_of_directory_are_followed(
    d: Disk,
    p: Places,
    root: Seq<char>,
    c: Command,
    stable: StableParts,
    way: Way,
)
    requires
        c.tokens.len() == 2,
        c.tokens[0] == "cd"@,
        written_out(c.tokens[1]),
    ensures
        after_command(d, p, root, c, stable, way).cwd == resolved(d, c.tokens[1]),
        after_command(d, p, root, c, stable, way).asks == way.asks,
{
    reveal_strlit("cd");
    reveal_strlit("chmod");
    assert("chmod"@.len() == 5);
    assert("cd"@.len() == 2);
    lemma_written_out(d, p, c.tokens[1], way.cwd);
    reveal_with_fuel(first_path, 3);
    assert(path_word(c.tokens, 1));
}

/// A command is asked about by its whole text, and can be allowed for good by the part of it that
/// stays the same; one that changes the directory or only tells something is not asked about.
pub proof fn commands_are_asked_about_by_their_text(
    d: Disk,
    p: Places,
    root: Seq<char>,
    c: Command,
    stable: StableParts,
    way: Way,
)
    requires
        c.tokens.len() > 0,
    ensures
        ({
            let head = c.tokens[0];
            let r = after_command(d, p, root, c, stable, way);
            let quiet = head == "cd"@ || head == "pushd"@ || head == "popd"@ || head == "echo"@;
            &&& !quiet && stable.own@.len() > 0 ==> r.asks.contains(
                Ask {
                    kind: PermissionKind::Bash,
                    patterns: seq![c.source],
                    always: seq![stable.own@ + " *"@],
                },
            )
            &&& head == "pushd"@ || head == "popd"@ || head == "echo"@ ==> r == way
            &&& head != "cd"@ ==> r.cwd == way.cwd
        }),
{
    let head = c.tokens[0];
    let with_paths = if file_command(head) {
        path_asks(d, p, root, way.cwd, c.tokens, way.asks, c.tokens.len() as int)
    } else {
        way.asks
    };
    let ask = Ask {
        kind: PermissionKind::Bash,
        patterns: seq![c.source],
        always: seq![stable.own@ + " *"@],
    };
    lemma_ask_is_there(with_paths, ask);
    let with_own = with_command_ask(with_paths, c.source, stable.own@);
    let inner = joined(inner_command(c.tokens), " "@);
    if stable.own@.len() > 0 {
        assert(with_own.contains(ask));
        lemma_ask_stays(
            with_own,
            Ask {
                kind: PermissionKind::Bash,
                patterns: seq![inner],
                always: seq![stable.inner@ + " *"@],
            },
            ask,
        );
    }
    lemma_quiet_heads();
}

proof fn lemma_quiet_heads()
    ensures
        !file_command("pushd"@),
        !file_command("popd"@),
        !file_command("echo"@),
        "pushd"@ != "cd"@,
        "popd"@ != "cd"@,
        "echo"@ != "cd"@,
        "pushd"@ != "xargs"@,
        "popd"@ != "xargs"@,
        "echo"@ != "xargs"@,
{
    reveal_strlit("rm");
    reveal_strlit("cp");
    reveal_strlit("mv");
    reveal_strlit("mkdir");
    reveal_strlit("touch");
    reveal_strlit("chmod");
    reveal_strlit("chown");
    reveal_strlit("cat");
    reveal_strlit("cd");
    reveal_strlit("pushd");
    reveal_strlit("popd");
    reveal_strlit("echo");
    reveal_strlit("xargs");
    assert("rm"@.len() == 2 && "cp"@.len() == 2 && "mv"@.len() == 2 && "cd"@.len() == 2);
    assert("cat"@.len() == 3);
    assert("popd"@.len() == 4 && "echo"@.len() == 4);
    assert("pushd"@.len() == 5 && "pushd"@[0] == 'p');
    assert("mkdir"@[0] == 'm' && "mkdir"@.len() == 5);
    assert("touch"@[0] == 't' && "touch"@.len() == 5);
    assert("chmod"@[0] == 'c' && "chmod"@.len() == 5);
    assert("chown"@[0] == 'c' && "chown"@.len() == 5);
    assert("xargs"@[0] == 'x' && "xargs"@.len() == 5);
}

proof fn lemma_ask_is_there(asks: Seq<Ask>, ask: Ask)
    ensures
        with_ask(asks, ask).contains(ask),
{
    if !asks.contains(ask) {
        assert(asks.push(ask)[asks.len() as int] == ask);
    }
}

proof fn lemma_ask_stays(asks: Seq<Ask>, more: Ask, ask: Ask)
    requires
        asks.contains(ask),
    ensures
        with_ask(asks, more).contains(ask),
{
    let i = choose|i: int| 0 <= i < asks.len() && asks[i] == ask;
    assert(asks.push(more)[i] == ask);
}

/// Quotes around a word are no part of it, and neither is what follows the first sign that stands
/// for many names. The home directory stands for a tilde at the start.
pub proof fn words_are_read_as_a_shell_reads_them(
    s: Seq<char>,
    front: Seq<char>,
    c: char,
    rest: Seq<char>,
    p: Places,
)
    ensures
        unquoted(seq!['"'] + s + seq!['"']) == s,
        unquoted(seq!['\''] + s + seq!['\'']) == s,
        front.len() > 0 && (c == '?' || c == '*' || c == '[') && (forall|i: int|
            0 <= i < front.len() ==> (#[trigger] front[i]) != '?' && front[i] != '*' && front[i]
                != '[') ==> glob_start(front.push(c) + rest) == Some(front),
        c == '?' || c == '*' || c == '[' ==> glob_start(seq![c] + rest) is None,
        p.home is Some ==> expanded(seq!['~'], p) == (p.home->0)@ && expanded(
            seq!['~', '/'] + rest,
            p,
        ) == path_join((p.home->0)@, rest),
{
    let a = seq!['"'] + s + seq!['"'];
    let b = seq!['\''] + s + seq!['\''];
    assert(a.subrange(1, a.len() - 1) =~= s);
    assert(b.subrange(1, b.len() - 1) =~= s);
    if front.len() > 0 && (c == '?' || c == '*' || c == '[') && (forall|i: int|
        0 <= i < front.len() ==> (#[trigger] front[i]) != '?' && front[i] != '*' && front[i]
            != '[') {
        assert(front[0] != '?');
        lemma_fixed_front(front, c, rest, 0);
    }
    if c == '?' || c == '*' || c == '[' {
        assert((seq![c] + rest)[0] == c);
    }
    reveal_strlit("~");
    reveal_strlit("~/");
    assert("~"@ =~= seq!['~']);
    assert("~/"@ =~= seq!['~', '/']);
    let t = seq!['~', '/'] + rest;
    assert(t.subrange(0, 2) =~= "~/"@);
    assert(t.skip(2) =~= rest);
    assert(t.len() >= 2);
}

proof fn lemma_fixed_front(front: Seq<char>, c: char, rest: Seq<char>, from: int)
    requires
        0 <= from <= front.len(),
        c == '?' || c == '*' || c == '[',
        forall|i: int|
            0 <= i < front.len() ==> (#[trigger] front[i]) != '?' && front[i] != '*' && front[i]
                != '[',
    ensures
        fixed_part(front.push(c) + rest, from) == front,
    decreases front.len() - from,
{
    let s = front.push(c) + rest;
    if from < front.len() {
        assert(s[from] == front[from]);
        lemma_fixed_front(front, c, rest, from + 1);
    } else {
        assert(s[from] == c);
        assert(s.take(from) =~= front);
    }
}

/// Whether a command of a list has the words of a node.
pub open spec fn has_words_of(list: Seq<Command>, t: Tree) -> bool {
    exists|i: int|
        0 <= i < list.len() && (#[trigger] list[i]).tokens == command_words(
            t.children,
            t.children.len() as int,
        )
}

proof fn lemma_words_in_sum(a: Seq<Command>, b: Seq<Command>, t: Tree)
    ensures
        has_words_of(a, t) || has_words_of(b, t) ==> has_words_of(a + b, t),
{
    let w = command_words(t.children, t.children.len() as int);
    if has_words_of(a, t) {
        let i = choose|i: int| 0 <= i < a.len() && (#[trigger] a[i]).tokens == w;
        assert((a + b)[i].tokens == w);
    } else if has_words_of(b, t) {
        let i = choose|i: int| 0 <= i < b.len() && (#[trigger] b[i]).tokens == w;
        assert((a + b)[a.len() + i].tokens == w);
    }
}

proof fn lemma_found_under(list: Seq<Tree>, n: int, above: Option<Seq<char>>, k: int, t: Tree)
    requires
        0 <= k < n <= list.len(),
        stands_in(list[k], t),
        t.kind == "command"@,
    ensures
        has_words_of(commands_in(list, n, above), t),
    decreases list, n,
{
    let before = commands_in(list, n - 1, above);
    let x = list[n - 1];
    let inner = commands_in(x.children, x.children.len() as int, redirected(x));
    let own = seq![command_of(x, above)];
    if k < n - 1 {
        lemma_found_under(list, n - 1, above, k, t);
        lemma_words_in_sum(before, own, t);
    } else if x == t {
        assert(own[0].tokens == command_words(t.children, t.children.len() as int));
        lemma_words_in_sum(before, own, t);
    } else {
        let j = choose|j: int| 0 <= j < x.children.len() && stands_in(#[trigger] x.children[j], t);
        lemma_found_under(x.children, x.children.len() as int, redirected(x), j, t);
    }
    assert(before.push(command_of(x, above)) =~= before + own);
    lemma_words_in_sum(before, inner, t);
    lemma_words_in_sum(before + own, inner, t);
}

/// Every command that stands anywhere in what is run is found, with its words.
pub proof fn every_command_is_found(root: Tree, t: Tree)
    requires
        stands_in(root, t),
        t.kind == "command"@,
    ensures
        has_words_of(tree_commands(root), t),
{
    lemma_found_under(seq![root], 1, None, 0, t);
}

/// The words of a command are its name and its words and strings, in order.
pub proof fn words_of_commands_are_taken_in_order(list: Seq<Tree>, n: int)
    requires
        0 < n <= list.len(),
        list[n - 1].kind != "command_elements"@,
    ensures
        ({
            let kind = list[n - 1].kind;
            let word = kind == "command_name"@ || kind == "command_name_expr"@ || kind == "word"@
                || kind == "string"@ || kind == "raw_string"@ || kind == "concatenation"@;
            &&& word ==> command_words(list, n) == command_words(list, n - 1).push(
                list[n - 1].text,
            )
            &&& !word ==> command_words(list, n) == command_words(list, n - 1)
        }),
{
}

/// A command that cannot be understood is asked about as any command, each time anew.
pub proof fn unreadable_commands_are_always_asked_about()
    ensures
        unreadable_ask().kind == PermissionKind::Bash,
        unreadable_ask().patterns == seq!["*"@],
        unreadable_ask().always.len() == 0,
{
}

} // verus!
