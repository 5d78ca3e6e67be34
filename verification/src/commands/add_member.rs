//! Members put into classes, structs and impl blocks.
use vstd::prelude::*;

use crate::commands::add_struct_tags::{list_type_specs, struct_body, type_specs};
use crate::commands::refusal::{
    invalid, need, needed, refuse, refused, reject, text_verdict, Refusal, RefusalModel,
};
use crate::commands::target::{content_model, Target};
use crate::edit::{
    bytes, char_range, find_byte, find_line_start, first_byte_is_found, last_byte,
    last_byte_is_found, lemma_replaced_bytes, line_start, line_start_is_on_the_line, next_byte,
    on_one_line, piece, replace_byte_range, replaced, replacements_change_their_range, rfind_byte,
    text_piece, LINE_FEED,
};
use crate::error::{AftError, Fault};
use crate::json::Json;
use crate::lang::{detect_language, path_lang, LangId};
use crate::models::{group_models, models};
use crate::paths::{extension, extension_of};
use crate::syntax::{
    first_field_is_found, first_of_a_kind_is_found, is_field, is_first_kind, lemma_children,
    opt_tree, parse, ref_trees, stands_in, syntax_of, text_of_child, trees, SyntaxNode, Tree,
};
use crate::text::{
    chars_of, contains_text, indentation, leading_space, lines, lines_of, owned, same,
    starts_with, string_of, text2, text3, texts, trim, trim_start_chars, trimmed, trimmed_start,
};

verus! {

/// A request to put a member into a container.
pub struct MemberRequest<'a> {
    pub file: &'a str,
    pub scope: &'a str,
    pub code: &'a str,
    pub position: &'a str,
}

/// The model of a `MemberRequest`.
pub ghost struct MemberAsk {
    pub file: Seq<char>,
    pub scope: Seq<char>,
    pub code: Seq<char>,
    pub position: Seq<char>,
}

impl<'a> DeepView for MemberRequest<'a> {
    type V = MemberAsk;

    open spec fn deep_view(&self) -> MemberAsk {
        MemberAsk {
            file: self.file@,
            scope: self.scope@,
            code: self.code@,
            position: self.position@,
        }
    }
}

/// The request that the parameters make; without a position the member comes last.
pub open spec fn member_ask(params: Json) -> Result<MemberAsk, RefusalModel> {
    match (
        needed(params, "add_member"@, "file"@),
        needed(params, "add_member"@, "scope"@),
        needed(params, "add_member"@, "code"@),
    ) {
        (Err(e), _, _) => Err(e),
        (_, Err(e), _) => Err(e),
        (_, _, Err(e)) => Err(e),
        (Ok(file), Ok(scope), Ok(code)) => Ok(
            MemberAsk {
                file,
                scope,
                code,
                position: match params.text_field("position"@) {
                    Some(p) => p,
                    None => "last"@,
                },
            },
        ),
    }
}

/// The request that the parameters make.
pub fn read_member_request(params: &Json) -> (r: Result<MemberRequest<'_>, Refusal>)
    ensures
        match (r, member_ask(*params)) {
            (Ok(a), Ok(b)) => a.deep_view() == b,
            (Err(e), Err(m)) => e.deep_view() == m,
            _ => false,
        },
{
    let file = match need(params, "add_member", "file") {
        Ok(s) => s,
        Err(e) => {
            return Err(e);
        },
    };
    let scope = match need(params, "add_member", "scope") {
        Ok(s) => s,
        Err(e) => {
            return Err(e);
        },
    };
    let code = match need(params, "add_member", "code") {
        Ok(s) => s,
        Err(e) => {
            return Err(e);
        },
    };
    let position = match params.get_text("position") {
        Some(p) => p,
        None => "last",
    };
    Ok(MemberRequest { file, scope, code, position })
}

/// The language and the text of the file that a request names.
pub open spec fn member_source(file: Seq<char>, t: Target) -> Result<
    (LangId, Seq<char>),
    RefusalModel,
> {
    if !t.exists {
        Err(refused("file_not_found"@, "add_member: file not found: "@ + file))
    } else {
        match path_lang(file) {
            None => Err(
                invalid(
                    "add_member: unsupported file extension: "@ + match extension_of(file) {
                        Some(e) => e,
                        None => "<none>"@,
                    },
                ),
            ),
            Some(lang) => match content_model(t) {
                Ok(s) => Ok((lang, s)),
                Err(e) => Err(
                    refused("file_not_found"@, "add_member: cannot read file: "@ + e),
                ),
            },
        }
    }
}

fn read_member_source<'a>(file: &str, target: &'a Target) -> (r: Result<(LangId, &'a str), Refusal>)
    ensures
        match (r, member_source(file@, *target)) {
            (Ok(a), Ok(b)) => a.0 == b.0 && a.1@ == b.1,
            (Err(e), Err(m)) => e.deep_view() == m,
            _ => false,
        },
{
    if !target.exists {
        return Err(refuse("file_not_found", text2("add_member: file not found: ", file)));
    }
    let lang = match detect_language(file) {
        Some(l) => l,
        None => {
            let ext = match extension(file) {
                Some(e) => e,
                None => "<none>".to_owned(),
            };
            return Err(
                reject(text2("add_member: unsupported file extension: ", ext.as_str()).as_str()),
            );
        },
    };
    match &target.content {
        Ok(s) => Ok((lang, s.as_str())),
        Err(e) => Err(
            refuse("file_not_found", text2("add_member: cannot read file: ", e.as_str())),
        ),
    }
}

/// A class, struct or impl block.
pub struct Container<'a> {
    pub name: String,
    /// What holds the members.
    pub body: Option<&'a SyntaxNode>,
    /// Whether its name is told only once.
    pub once: bool,
    /// Whether it is a struct that an impl block of the same name comes before.
    pub secondary: bool,
}

/// The model of a `Container`.
pub ghost struct Scope {
    pub name: Seq<char>,
    pub body: Option<Tree>,
    pub once: bool,
    pub secondary: bool,
}

impl<'a> DeepView for Container<'a> {
    type V = Scope;

    open spec fn deep_view(&self) -> Scope {
        Scope {
            name: self.name@,
            body: opt_tree(self.body),
            once: self.once,
            secondary: self.secondary,
        }
    }
}

/// The text of the first of `list` from `from` on that is of one of two kinds.
pub open spec fn name_among(list: Seq<Tree>, a: Seq<char>, b: Seq<char>, from: int) -> Option<
    Seq<char>,
>
    decreases list.len() - from,
{
    if from < 0 || from >= list.len() {
        None
    } else if list[from].kind == a || list[from].kind == b {
        Some(list[from].text)
    } else {
        name_among(list, a, b, from + 1)
    }
}

fn find_child_text(node: &SyntaxNode, a: &str, b: &str) -> (r: Option<String>)
    ensures
        r.deep_view() == name_among(node@.children, a@, b@, 0),
{
    broadcast use lemma_children;

    let mut i: usize = 0;
    while i < node.children.len()
        invariant
            i <= node.children.len(),
            node@.children == trees(node.children@),
            name_among(node@.children, a@, b@, 0) == name_among(
                node@.children,
                a@,
                b@,
                i as int,
            ),
        decreases node.children.len() - i,
    {
        let child = &node.children[i];
        assert(node@.children[i as int] == child@);
        if child.is_kind(a) || child.is_kind(b) {
            return Some(child.text.clone());
        }
        i = i + 1;
    }
    None
}

/// The container that a class of a script is.
pub open spec fn script_class(t: Tree, once: bool) -> Option<Scope> {
    if t.kind != "class_declaration"@ {
        None
    } else {
        match name_among(t.children, "type_identifier"@, "identifier"@, 0) {
            Some(name) => Some(
                Scope { name, body: t.child_of_kind("class_body"@), once, secondary: false },
            ),
            None => None,
        }
    }
}

fn read_script_class<'a>(node: &'a SyntaxNode, once: bool) -> (r: Option<Container<'a>>)
    ensures
        r.deep_view() == script_class(node@, once),
{
    if !node.is_kind("class_declaration") {
        return None;
    }
    match find_child_text(node, "type_identifier", "identifier") {
        Some(name) => Some(
            Container { name, body: node.child_by_kind("class_body"), once, secondary: false },
        ),
        None => None,
    }
}

/// The classes among the first `n` children of an export.
pub open spec fn exported_classes(list: Seq<Tree>, n: int) -> Seq<Scope>
    decreases n,
{
    if n <= 0 || n > list.len() {
        Seq::empty()
    } else {
        let before = exported_classes(list, n - 1);
        match script_class(list[n - 1], true) {
            Some(c) => before.push(c),
            None => before,
        }
    }
}

/// The classes of a script's first `n` statements, exported ones among them.
pub open spec fn script_classes(list: Seq<Tree>, n: int) -> Seq<Scope>
    decreases n,
{
    if n <= 0 || n > list.len() {
        Seq::empty()
    } else {
        let before = script_classes(list, n - 1);
        let t = list[n - 1];
        if t.kind == "export_statement"@ {
            before + exported_classes(t.children, t.children.len() as int)
        } else {
            match script_class(t, false) {
                Some(c) => before.push(c),
                None => before,
            }
        }
    }
}

fn list_script_classes<'a>(root: &'a SyntaxNode) -> (r: Vec<Container<'a>>)
    ensures
        models(r@) == script_classes(root@.children, root@.children.len() as int),
{
    broadcast use {lemma_children, group_models};

    let mut out: Vec<Container<'a>> = Vec::new();
    let mut i: usize = 0;
    while i < root.children.len()
        invariant
            i <= root.children.len(),
            root@.children == trees(root.children@),
            models(out@) == script_classes(root@.children, i as int),
        decreases root.children.len() - i,
    {
        let node = &root.children[i];
        assert(root@.children[i as int] == node@);
        if node.is_kind("export_statement") {
            let ghost start = models(out@);
            let mut k: usize = 0;
            assert(start + exported_classes(node@.children, 0) =~= start);
            while k < node.children.len()
                invariant
                    k <= node.children.len(),
                    node@.children == trees(node.children@),
                    models(out@) == start + exported_classes(node@.children, k as int),
                decreases node.children.len() - k,
            {
                let child = &node.children[k];
                assert(node@.children[k as int] == child@);
                match read_script_class(child, true) {
                    Some(c) => {
                        let ghost before = models(out@);
                        let ghost m = c.deep_view();
                        out.push(c);
                        assert(models(out@) == before.push(m));
                        assert(models(out@) =~= start + exported_classes(node@.children, k + 1));
                    },
                    None => {},
                }
                k = k + 1;
            }
        } else {
            match read_script_class(node, false) {
                Some(c) => {
                    let ghost before = models(out@);
                    let ghost m = c.deep_view();
                    out.push(c);
                    assert(models(out@) == before.push(m));
                },
                None => {},
            }
        }
        i = i + 1;
    }
    out
}

/// The container that a Python class is.
pub open spec fn python_class(t: Tree) -> Option<Scope> {
    if t.kind != "class_definition"@ {
        None
    } else {
        match name_among(t.children, "identifier"@, "identifier"@, 0) {
            Some(name) => Some(
                Scope { name, body: t.child_of_kind("block"@), once: false, secondary: false },
            ),
            None => None,
        }
    }
}

/// The classes among the first `n` nodes of a list, decorated ones among them.
pub open spec fn python_classes(list: Seq<Tree>, n: int) -> Seq<Scope>
    decreases list, n,
{
    if n <= 0 || n > list.len() {
        Seq::empty()
    } else {
        let before = python_classes(list, n - 1);
        let t = list[n - 1];
        if t.kind == "decorated_definition"@ {
            before + python_classes(t.children, t.children.len() as int)
        } else {
            match python_class(t) {
                Some(c) => before.push(c),
                None => before,
            }
        }
    }
}

fn add_python_classes<'a>(node: &'a SyntaxNode, out: &mut Vec<Container<'a>>)
    ensures
        models(final(out)@) == models(old(out)@) + python_classes(
            node@.children,
            node@.children.len() as int,
        ),
    decreases node,
{
    broadcast use {lemma_children, group_models};

    let ghost start = models(out@);
    let ghost list = node@.children;
    let mut i: usize = 0;
    assert(start + python_classes(list, 0) =~= start);
    while i < node.children.len()
        invariant
            i <= node.children.len(),
            list == trees(node.children@),
            list == node@.children,
            models(out@) == start + python_classes(list, i as int),
        decreases node.children.len() - i,
    {
        let child = &node.children[i];
        assert(list[i as int] == child@);
        if child.is_kind("decorated_definition") {
            let ghost before = models(out@);
            add_python_classes(child, out);
            assert(models(out@) =~= start + python_classes(list, i + 1));
        } else if child.is_kind("class_definition") {
            match find_child_text(child, "identifier", "identifier") {
                Some(name) => {
                    let c = Container {
                        name,
                        body: child.child_by_kind("block"),
                        once: false,
                        secondary: false,
                    };
                    let ghost before = models(out@);
                    let ghost m = c.deep_view();
                    out.push(c);
                    assert(models(out@) == before.push(m));
                    assert(models(out@) =~= start + python_classes(list, i + 1));
                },
                None => {},
            }
        }
        i = i + 1;
    }
}

/// The text of the last type among the first `n` children of an impl block: what it is for.
pub open spec fn impl_name(list: Seq<Tree>, n: int) -> Option<Seq<char>>
    decreases n,
{
    if n <= 0 || n > list.len() {
        None
    } else if list[n - 1].kind == "type_identifier"@ || list[n - 1].kind == "generic_type"@ {
        Some(list[n - 1].text)
    } else {
        impl_name(list, n - 1)
    }
}

fn extract_impl_name(node: &SyntaxNode) -> (r: Option<String>)
    ensures
        r.deep_view() == impl_name(node@.children, node@.children.len() as int),
{
    broadcast use lemma_children;

    let mut n: usize = node.children.len();
    while n > 0
        invariant
            n <= node.children.len(),
            node@.children == trees(node.children@),
            impl_name(node@.children, node@.children.len() as int) == impl_name(
                node@.children,
                n as int,
            ),
        decreases n,
    {
        let child = &node.children[n - 1];
        assert(node@.children[n - 1] == child@);
        if child.is_kind("type_identifier") || child.is_kind("generic_type") {
            return Some(child.text.clone());
        }
        n = n - 1;
    }
    None
}

/// The container that an item of a Rust file is.
pub open spec fn rust_scope(t: Tree) -> Option<Scope> {
    if t.kind == "impl_item"@ {
        match impl_name(t.children, t.children.len() as int) {
            Some(name) => Some(
                Scope {
                    name,
                    body: t.child_of_kind("declaration_list"@),
                    once: true,
                    secondary: false,
                },
            ),
            None => None,
        }
    } else if t.kind == "struct_item"@ {
        match name_among(t.children, "type_identifier"@, "type_identifier"@, 0) {
            Some(name) => Some(
                Scope {
                    name,
                    body: t.child_of_kind("field_declaration_list"@),
                    once: true,
                    secondary: true,
                },
            ),
            None => None,
        }
    } else {
        None
    }
}

fn read_rust_scope<'a>(node: &'a SyntaxNode) -> (r: Option<Container<'a>>)
    ensures
        r.deep_view() == rust_scope(node@),
{
    if node.is_kind("impl_item") {
        match extract_impl_name(node) {
            Some(name) => Some(
                Container {
                    name,
                    body: node.child_by_kind("declaration_list"),
                    once: true,
                    secondary: false,
                },
            ),
            None => None,
        }
    } else if node.is_kind("struct_item") {
        match find_child_text(node, "type_identifier", "type_identifier") {
            Some(name) => Some(
                Container {
                    name,
                    body: node.child_by_kind("field_declaration_list"),
                    once: true,
                    secondary: true,
                },
            ),
            None => None,
        }
    } else {
        None
    }
}

/// The containers of the first `n` items of a Rust file.
pub open spec fn rust_scopes(list: Seq<Tree>, n: int) -> Seq<Scope>
    decreases n,
{
    if n <= 0 || n > list.len() {
        Seq::empty()
    } else {
        let before = rust_scopes(list, n - 1);
        match rust_scope(list[n - 1]) {
            Some(c) => before.push(c),
            None => before,
        }
    }
}

fn list_rust_scopes<'a>(root: &'a SyntaxNode) -> (r: Vec<Container<'a>>)
    ensures
        models(r@) == rust_scopes(root@.children, root@.children.len() as int),
{
    broadcast use {lemma_children, group_models};

    let mut out: Vec<Container<'a>> = Vec::new();
    let mut i: usize = 0;
    while i < root.children.len()
        invariant
            i <= root.children.len(),
            root@.children == trees(root.children@),
            models(out@) == rust_scopes(root@.children, i as int),
        decreases root.children.len() - i,
    {
        let node = &root.children[i];
        assert(root@.children[i as int] == node@);
        match read_rust_scope(node) {
            Some(c) => {
                let ghost before = models(out@);
                let ghost m = c.deep_view();
                out.push(c);
                assert(models(out@) == before.push(m));
            },
            None => {},
        }
        i = i + 1;
    }
    out
}

/// The containers that the types of a Go file are.
pub open spec fn go_scopes(specs: Seq<Tree>) -> Seq<Scope> {
    specs.map_values(
        |t: Tree|
            Scope {
                name: text_of_child(t, "type_identifier"@),
                body: struct_body(t),
                once: false,
                secondary: false,
            },
    )
}

fn list_go_scopes<'a>(root: &'a SyntaxNode) -> (r: Vec<Container<'a>>)
    ensures
        models(r@) == go_scopes(type_specs(root@.children, root@.children.len() as int)),
{
    broadcast use group_models;

    let specs = list_type_specs(root);
    let ghost all = ref_trees(specs@);
    let ghost want = go_scopes(all);
    let mut out: Vec<Container<'a>> = Vec::new();
    let mut i: usize = 0;
    while i < specs.len()
        invariant
            i <= specs.len(),
            all == ref_trees(specs@),
            want == go_scopes(all),
            models(out@) == want.take(i as int),
        decreases specs.len() - i,
    {
        let s = specs[i];
        assert(all[i as int] == s@);
        let name = match s.child_by_kind("type_identifier") {
            Some(n) => n.text.clone(),
            None => String::new(),
        };
        assert(name@ =~= text_of_child(s@, "type_identifier"@));
        let body = match s.child_by_kind("struct_type") {
            Some(st) => st.child_by_kind("field_declaration_list"),
            None => None,
        };
        let c = Container { name, body, once: false, secondary: false };
        let ghost before = models(out@);
        let ghost m = c.deep_view();
        out.push(c);
        assert(models(out@) == before.push(m));
        assert(want.take(i + 1) =~= want.take(i as int).push(m));
        i = i + 1;
    }
    assert(want.take(i as int) =~= want);
    out
}

/// The containers of a file.
pub open spec fn scopes(root: Tree, lang: LangId) -> Seq<Scope> {
    let list = root.children;
    let n = list.len() as int;
    if lang.script() {
        script_classes(list, n)
    } else {
        match lang {
            LangId::Python => python_classes(list, n),
            LangId::Rust => rust_scopes(list, n),
            LangId::Go => go_scopes(type_specs(list, n)),
            _ => Seq::empty(),
        }
    }
}

fn list_scopes<'a>(root: &'a SyntaxNode, lang: LangId) -> (r: Vec<Container<'a>>)
    ensures
        models(r@) == scopes(root@, lang),
{
    if lang.is_script() {
        return list_script_classes(root);
    }
    match lang {
        LangId::Python => {
            let mut out: Vec<Container<'a>> = Vec::new();
            assert(models(out@) + scopes(root@, lang) =~= scopes(root@, lang));
            add_python_classes(root, &mut out);
            out
        },
        LangId::Rust => list_rust_scopes(root),
        LangId::Go => list_go_scopes(root),
        _ => {
            let out: Vec<Container<'a>> = Vec::new();
            assert(models(out@) =~= Seq::<Scope>::empty());
            out
        },
    }
}

/// The first container from `from` on with a name and members, among those that come second
/// or the others.
pub open spec fn scope_named(list: Seq<Scope>, name: Seq<char>, secondary: bool, from: int) -> Option<
    Tree,
>
    decreases list.len() - from,
{
    if from < 0 || from >= list.len() {
        None
    } else if list[from].name == name && list[from].secondary == secondary
        && list[from].body is Some {
        list[from].body
    } else {
        scope_named(list, name, secondary, from + 1)
    }
}

fn find_scope<'a>(list: &Vec<Container<'a>>, name: &str, secondary: bool) -> (r: Option<
    &'a SyntaxNode,
>)
    ensures
        opt_tree(r) == scope_named(models(list@), name@, secondary, 0),
{
    let ghost all = models(list@);
    let mut i: usize = 0;
    while i < list.len()
        invariant
            i <= list.len(),
            all == models(list@),
            scope_named(all, name@, secondary, 0) == scope_named(
                all,
                name@,
                secondary,
                i as int,
            ),
        decreases list.len() - i,
    {
        assert(all[i as int] == list@[i as int].deep_view());
        if same(list[i].name.as_str(), name) && list[i].secondary == secondary {
            match list[i].body {
                Some(b) => {
                    return Some(b);
                },
                None => {},
            }
        }
        i = i + 1;
    }
    None
}

/// The names of the containers, for a message.
pub open spec fn scope_names(list: Seq<Scope>) -> Seq<Seq<char>>
    decreases list.len(),
{
    if list.len() == 0 {
        Seq::empty()
    } else {
        let before = scope_names(list.drop_last());
        if list.last().once && before.contains(list.last().name) {
            before
        } else {
            before.push(list.last().name)
        }
    }
}

/// How many containers are met, from `from` on, up to the one with a name: all of them where none
/// ends the search.
pub open spec fn scopes_met(list: Seq<Scope>, name: Seq<char>, from: int) -> int
    decreases list.len() - from,
{
    if from < 0 || from >= list.len() {
        list.len() as int
    } else if list[from].name == name && !list[from].secondary && list[from].body is Some {
        from + 1
    } else {
        scopes_met(list, name, from + 1)
    }
}

proof fn lemma_all_met(list: Seq<Scope>, name: Seq<char>, from: int)
    requires
        0 <= from,
    ensures
        scope_named(list, name, false, from) is None ==> scopes_met(list, name, from)
            == list.len(),
    decreases list.len() - from,
{
    if from < list.len() {
        lemma_all_met(list, name, from + 1);
    }
}

fn count_met(list: &Vec<Container<'_>>, name: &str) -> (r: usize)
    ensures
        r == scopes_met(models(list@), name@, 0),
        r <= list@.len(),
{
    let ghost all = models(list@);
    let mut i: usize = 0;
    while i < list.len()
        invariant
            i <= list.len(),
            all == models(list@),
            scopes_met(all, name@, 0) == scopes_met(all, name@, i as int),
        decreases list.len() - i,
    {
        assert(all[i as int] == list@[i as int].deep_view());
        if same(list[i].name.as_str(), name) && !list[i].secondary && list[i].body.is_some() {
            return i + 1;
        }
        i = i + 1;
    }
    i
}

fn names_of(list: &Vec<Container<'_>>, count: usize) -> (r: Vec<String>)
    requires
        count <= list@.len(),
    ensures
        texts(r@) == scope_names(models(list@).take(count as int)),
{
    let ghost all = models(list@);
    let mut out: Vec<String> = Vec::new();
    let mut i: usize = 0;
    assert(texts(out@) =~= Seq::<Seq<char>>::empty());
    while i < count
        invariant
            i <= count <= list.len(),
            all == models(list@),
            texts(out@) == scope_names(all.take(i as int)),
        decreases count - i,
    {
        assert(all.take(i + 1).drop_last() =~= all.take(i as int));
        assert(all[i as int] == list@[i as int].deep_view());
        if !(list[i].once && contains_text(&out, list[i].name.as_str())) {
            let ghost before = texts(out@);
            out.push(owned(list[i].name.as_str()));
            assert(texts(out@) =~= before.push(list@[i as int].name@));
        }
        i = i + 1;
    }
    out
}

/// A member of a container.
pub struct BodyChild {
    pub name: String,
    pub start_byte: usize,
    pub end_byte: usize,
}

/// The model of a `BodyChild`.
pub ghost struct Part {
    pub name: Seq<char>,
    pub start: int,
    pub end: int,
}

impl DeepView for BodyChild {
    type V = Part;

    open spec fn deep_view(&self) -> Part {
        Part { name: self.name@, start: self.start_byte as int, end: self.end_byte as int }
    }
}

/// How the members of a container are told from its other children, and named.
#[derive(Clone, Copy, Debug, PartialEq, Eq, Structural)]
pub enum BodyStyle {
    Script,
    Python,
    RustStruct,
    RustImpl,
    Go,
}

/// The text of the node in a field.
pub open spec fn field_text(t: Tree, field: Seq<char>) -> Option<Seq<char>> {
    match t.child_of_field(field) {
        Some(n) => Some(n.text),
        None => None,
    }
}

/// The name of the first function or class with a name among the nodes from `from` on.
pub open spec fn decorated_name(list: Seq<Tree>, from: int) -> Seq<char>
    decreases list.len() - from,
{
    if from < 0 || from >= list.len() {
        Seq::empty()
    } else if (list[from].kind == "function_definition"@ || list[from].kind
        == "class_definition"@) && field_text(list[from], "name"@) is Some {
        field_text(list[from], "name"@)->0
    } else {
        decorated_name(list, from + 1)
    }
}

/// The name of a statement of a Python class; empty where it has none.
pub open spec fn python_member(t: Tree) -> Seq<char> {
    if t.kind == "function_definition"@ {
        match field_text(t, "name"@) {
            Some(s) => s,
            None => Seq::empty(),
        }
    } else if t.kind == "decorated_definition"@ {
        decorated_name(t.children, 0)
    } else if t.kind == "expression_statement"@ {
        match t.first_named() {
            Some(a) => if a.kind == "assignment"@ {
                match field_text(a, "left"@) {
                    Some(s) => s,
                    None => Seq::empty(),
                }
            } else {
                Seq::empty()
            },
            None => Seq::empty(),
        }
    } else {
        Seq::empty()
    }
}

/// The name of a member of a script's class: its name, or else its first named part.
pub open spec fn script_member(t: Tree) -> Seq<char> {
    match field_text(t, "name"@) {
        Some(s) => s,
        None => match t.first_named() {
            Some(c) => c.text,
            None => Seq::empty(),
        },
    }
}

/// The name of a child of a container, where the child is a member.
pub open spec fn member_name(t: Tree, style: BodyStyle) -> Option<Seq<char>> {
    match style {
        BodyStyle::Script => if t.kind == "{"@ || t.kind == "}"@ || t.kind == ";"@ {
            None
        } else {
            Some(script_member(t))
        },
        BodyStyle::Python => if python_member(t).len() == 0 {
            None
        } else {
            Some(python_member(t))
        },
        BodyStyle::RustStruct => if t.kind == "field_declaration"@ {
            Some(
                match field_text(t, "name"@) {
                    Some(s) => s,
                    None => Seq::empty(),
                },
            )
        } else {
            None
        },
        BodyStyle::RustImpl => if t.kind == "function_item"@ {
            Some(
                match field_text(t, "name"@) {
                    Some(s) => s,
                    None => Seq::empty(),
                },
            )
        } else {
            None
        },
        BodyStyle::Go => if t.kind == "field_declaration"@ {
            Some(text_of_child(t, "field_identifier"@))
        } else {
            None
        },
    }
}

fn empty_text() -> (r: String)
    ensures
        r@ == Seq::<char>::empty(),
{
    let s = String::new();
    assert(s@ =~= Seq::<char>::empty());
    s
}

fn named_field(node: &SyntaxNode) -> (r: String)
    ensures
        r@ == match field_text(node@, "name"@) {
            Some(s) => s,
            None => Seq::empty(),
        },
{
    match node.child_by_field("name") {
        Some(n) => n.text.clone(),
        None => empty_text(),
    }
}

fn extract_member_name_ts(node: &SyntaxNode) -> (r: String)
    ensures
        r@ == script_member(node@),
{
    match node.child_by_field("name") {
        Some(n) => n.text.clone(),
        None => match node.first_named_child() {
            Some(c) => c.text.clone(),
            None => empty_text(),
        },
    }
}

fn extract_member_name_py(node: &SyntaxNode) -> (r: String)
    ensures
        r@ == python_member(node@),
{
    broadcast use lemma_children;

    if node.is_kind("function_definition") {
        return named_field(node);
    }
    if node.is_kind("decorated_definition") {
        let mut i: usize = 0;
        while i < node.children.len()
            invariant
                i <= node.children.len(),
                node@.children == trees(node.children@),
                python_member(node@) == decorated_name(node@.children, i as int),
            decreases node.children.len() - i,
        {
            let child = &node.children[i];
            assert(node@.children[i as int] == child@);
            if child.is_kind("function_definition") || child.is_kind("class_definition") {
                match child.child_by_field("name") {
                    Some(n) => {
                        return n.text.clone();
                    },
                    None => {},
                }
            }
            i = i + 1;
        }
        return empty_text();
    }
    if node.is_kind("expression_statement") {
        match node.first_named_child() {
            Some(a) => {
                if a.is_kind("assignment") {
                    match a.child_by_field("left") {
                        Some(l) => {
                            return l.text.clone();
                        },
                        None => {},
                    }
                }
            },
            None => {},
        }
    }
    empty_text()
}

fn read_member_name(node: &SyntaxNode, style: BodyStyle) -> (r: Option<String>)
    ensures
        r.deep_view() == member_name(node@, style),
{
    match style {
        BodyStyle::Script => {
            if node.is_kind("{") || node.is_kind("}") || node.is_kind(";") {
                None
            } else {
                Some(extract_member_name_ts(node))
            }
        },
        BodyStyle::Python => {
            let name = extract_member_name_py(node);
            if name.as_str().is_empty() {
                None
            } else {
                Some(name)
            }
        },
        BodyStyle::RustStruct => {
            if node.is_kind("field_declaration") {
                Some(named_field(node))
            } else {
                None
            }
        },
        BodyStyle::RustImpl => {
            if node.is_kind("function_item") {
                Some(named_field(node))
            } else {
                None
            }
        },
        BodyStyle::Go => {
            if node.is_kind("field_declaration") {
                match node.child_by_kind("field_identifier") {
                    Some(n) => Some(n.text.clone()),
                    None => Some(empty_text()),
                }
            } else {
                None
            }
        },
    }
}

/// The members among the first `n` children of a container.
pub open spec fn members(list: Seq<Tree>, style: BodyStyle, n: int) -> Seq<Part>
    decreases n,
{
    if n <= 0 || n > list.len() {
        Seq::empty()
    } else {
        let before = members(list, style, n - 1);
        let t = list[n - 1];
        match member_name(t, style) {
            Some(name) => before.push(Part { name, start: t.start, end: t.end }),
            None => before,
        }
    }
}

/// The members of a container.
pub fn list_members(body: &SyntaxNode, style: BodyStyle) -> (r: Vec<BodyChild>)
    ensures
        models(r@) == members(body@.children, style, body@.children.len() as int),
{
    broadcast use {lemma_children, group_models};

    let mut out: Vec<BodyChild> = Vec::new();
    let mut i: usize = 0;
    while i < body.children.len()
        invariant
            i <= body.children.len(),
            body@.children == trees(body.children@),
            models(out@) == members(body@.children, style, i as int),
        decreases body.children.len() - i,
    {
        let child = &body.children[i];
        assert(body@.children[i as int] == child@);
        match read_member_name(child, style) {
            Some(name) => {
                let m = BodyChild { name, start_byte: child.start_byte, end_byte: child.end_byte };
                let ghost before = models(out@);
                let ghost p = m.deep_view();
                out.push(m);
                assert(models(out@) == before.push(p));
            },
            None => {},
        }
        i = i + 1;
    }
    out
}

/// The members of a container and where it stands.
pub ghost struct Body {
    pub start: int,
    pub end: int,
    pub members: Seq<Part>,
}

/// The model of the bounds and the members of a container.
pub open spec fn body_model(b: (usize, usize, Vec<BodyChild>)) -> Body {
    Body { start: b.0 as int, end: b.1 as int, members: models(b.2@) }
}

/// What a container holds.
pub open spec fn body_of(t: Tree, style: BodyStyle) -> Body {
    Body {
        start: t.start,
        end: t.end,
        members: members(t.children, style, t.children.len() as int),
    }
}

/// The container of a file with a name. In a Rust file an impl block comes before a struct.
pub open spec fn container(root: Tree, name: Seq<char>, lang: LangId) -> Option<Body> {
    let all = scopes(root, lang);
    match scope_named(all, name, false, 0) {
        Some(t) => Some(
            body_of(
                t,
                if lang.script() {
                    BodyStyle::Script
                } else if lang == LangId::Python {
                    BodyStyle::Python
                } else if lang == LangId::Rust {
                    BodyStyle::RustImpl
                } else {
                    BodyStyle::Go
                },
            ),
        ),
        None => match scope_named(all, name, true, 0) {
            Some(t) => Some(body_of(t, BodyStyle::RustStruct)),
            None => None,
        },
    }
}

/// The container of a file with a name, and the names that were met up to it, or all that there
/// are where no container ends the search.
pub fn find_scope_container(root: &SyntaxNode, name: &str, lang: LangId) -> (r: (
    Option<(usize, usize, Vec<BodyChild>)>,
    Vec<String>,
))
    ensures
        match r.0 {
            Some(b) => container(root@, name@, lang) == Some(body_model(b)),
            None => container(root@, name@, lang) is None,
        },
        texts(r.1@) == scope_names(
            scopes(root@, lang).take(scopes_met(scopes(root@, lang), name@, 0)),
        ),
        r.0 is None ==> texts(r.1@) == scope_names(scopes(root@, lang)),
{
    let all = list_scopes(root, lang);
    let names = names_of(&all, count_met(&all, name));
    proof {
        let s = scopes(root@, lang);
        lemma_all_met(s, name@, 0);
        assert(s.take(s.len() as int) =~= s);
    }
    match find_scope(&all, name, false) {
        Some(t) => {
            let style = if lang.is_script() {
                BodyStyle::Script
            } else if lang == LangId::Python {
                BodyStyle::Python
            } else if lang == LangId::Rust {
                BodyStyle::RustImpl
            } else {
                BodyStyle::Go
            };
            (Some((t.start_byte, t.end_byte, list_members(t, style))), names)
        },
        None => match find_scope(&all, name, true) {
            Some(t) => (
                Some((t.start_byte, t.end_byte, list_members(t, BodyStyle::RustStruct))),
                names,
            ),
            None => (None, names),
        },
    }
}

/// Where the line behind an offset starts, or the offset where there is none.
pub open spec fn next_line(b: Seq<u8>, at: int) -> int {
    match next_byte(b, LINE_FEED, at) {
        Some(i) => i + 1,
        None => at,
    }
}

/// The indentation of members: that of the first, or one level of the file's.
pub open spec fn member_indent(source: Seq<char>, list: Seq<Part>, file_indent: Seq<char>) -> Seq<
    char,
> {
    if list.len() > 0 && leading_space(
        piece(source, line_start(bytes(source), list[0].start), list[0].start),
    ).len() > 0 {
        leading_space(piece(source, line_start(bytes(source), list[0].start), list[0].start))
    } else {
        file_indent
    }
}

fn find_next_line(b: &[u8], at: usize) -> (r: usize)
    ensures
        r == next_line(b@, at as int),
{
    match find_byte(b, LINE_FEED, at) {
        Some(i) => i + 1,
        None => at,
    }
}

/// The indentation of members.
pub fn detect_member_indent(source: &str, children: &Vec<BodyChild>, file_indent: &str) -> (r:
    String)
    ensures
        r@ == member_indent(source@, models(children@), file_indent@),
{
    if children.len() > 0 {
        let at = children[0].start_byte;
        assert(models(children@)[0] == children@[0].deep_view());
        let start = find_line_start(source.as_bytes(), at);
        let indent = indentation(text_piece(source, start, at));
        if !indent.as_str().is_empty() {
            return indent;
        }
    }
    owned(file_indent)
}

/// An opening and a closing brace.
pub const OPEN_BRACE: u8 = 123;

pub const CLOSE_BRACE: u8 = 125;

/// Where the first member is put: where a Python body starts, or on the line behind the
/// opening brace.
pub open spec fn first_position(b: Seq<u8>, body_start: int, lang: LangId) -> int {
    if lang == LangId::Python {
        body_start
    } else {
        match next_byte(b, OPEN_BRACE, body_start) {
            Some(i) => next_line(b, i + 1),
            None => body_start,
        }
    }
}

/// Where the last member is put: behind the last line of a Python body, or on the line of the
/// closing brace.
pub open spec fn last_position(b: Seq<u8>, body_end: int, list: Seq<Part>, lang: LangId) -> int {
    if lang == LangId::Python {
        if list.len() > 0 {
            next_line(b, list.last().end)
        } else {
            body_end
        }
    } else {
        let closing = match last_byte(b, CLOSE_BRACE, body_end) {
            Some(i) => i,
            None => body_end,
        };
        match last_byte(b, LINE_FEED, closing) {
            Some(i) => i + 1,
            None => closing,
        }
    }
}

fn resolve_first(source: &str, body_start: usize, lang: LangId) -> (r: usize)
    ensures
        r == first_position(bytes(source@), body_start as int, lang),
{
    if lang == LangId::Python {
        return body_start;
    }
    let b = source.as_bytes();
    match find_byte(b, OPEN_BRACE, body_start) {
        Some(i) => find_next_line(b, i + 1),
        None => body_start,
    }
}

fn resolve_last(source: &str, body_end: usize, children: &Vec<BodyChild>, lang: LangId) -> (r: usize)
    ensures
        r == last_position(bytes(source@), body_end as int, models(children@), lang),
{
    let b = source.as_bytes();
    if lang == LangId::Python {
        if children.len() > 0 {
            assert(models(children@).last() == children@[children@.len() - 1].deep_view());
            return find_next_line(b, children[children.len() - 1].end_byte);
        }
        return body_end;
    }
    if body_end > b.len() {
        return body_end;
    }
    let closing = match rfind_byte(b, CLOSE_BRACE, body_end) {
        Some(i) => i,
        None => body_end,
    };
    match rfind_byte(b, LINE_FEED, closing) {
        Some(i) => i + 1,
        None => closing,
    }
}

/// The first member with a name from `from` on.
pub open spec fn part_named(list: Seq<Part>, name: Seq<char>, from: int) -> Option<Part>
    decreases list.len() - from,
{
    if from < 0 || from >= list.len() {
        None
    } else if list[from].name == name {
        Some(list[from])
    } else {
        part_named(list, name, from + 1)
    }
}

fn find_member<'a>(children: &'a Vec<BodyChild>, name: &str) -> (r: Option<&'a BodyChild>)
    ensures
        match r {
            Some(c) => part_named(models(children@), name@, 0) == Some(c.deep_view()),
            None => part_named(models(children@), name@, 0) is None,
        },
{
    let ghost all = models(children@);
    let mut i: usize = 0;
    while i < children.len()
        invariant
            i <= children.len(),
            all == models(children@),
            part_named(all, name@, 0) == part_named(all, name@, i as int),
        decreases children.len() - i,
    {
        assert(all[i as int] == children@[i as int].deep_view());
        if same(children[i].name.as_str(), name) {
            return Some(&children[i]);
        }
        i = i + 1;
    }
    None
}

/// Where a member is put: first, last, or before or behind another by its name.
pub open spec fn insert_position(
    source: Seq<char>,
    body: Body,
    ask: MemberAsk,
    lang: LangId,
) -> Result<int, Fault> {
    let b = bytes(source);
    let p = ask.position;
    if p == "first"@ {
        Ok(first_position(b, body.start, lang))
    } else if p == "last"@ {
        Ok(last_position(b, body.end, body.members, lang))
    } else if "before:"@.is_prefix_of(p) {
        let name = p.skip(7);
        match part_named(body.members, name, 0) {
            Some(c) => Ok(line_start(b, c.start)),
            None => Err(
                Fault::MemberNotFound { member: name, scope: ask.scope, file: ask.file },
            ),
        }
    } else if "after:"@.is_prefix_of(p) {
        let name = p.skip(6);
        match part_named(body.members, name, 0) {
            Some(c) => Ok(next_line(b, c.end)),
            None => Err(
                Fault::MemberNotFound { member: name, scope: ask.scope, file: ask.file },
            ),
        }
    } else {
        Err(
            Fault::InvalidRequest {
                message: "add_member: invalid position '"@ + p
                    + "', expected first|last|before:name|after:name"@,
            },
        )
    }
}

fn behind(s: &str, n: usize) -> (r: String)
    requires
        n <= s@.len(),
    ensures
        r@ == s@.skip(n as int),
{
    let c = chars_of(s);
    let rest = vstd::slice::slice_subrange(c.as_slice(), n, c.len());
    assert(rest@ =~= s@.skip(n as int));
    string_of(rest)
}

/// Where a member is put.
pub fn resolve_position(
    source: &str,
    body_start: usize,
    body_end: usize,
    children: &Vec<BodyChild>,
    ask: &MemberRequest<'_>,
    lang: LangId,
) -> (r: Result<usize, AftError>)
    ensures
        match (
            r,
            insert_position(
                source@,
                Body {
                    start: body_start as int,
                    end: body_end as int,
                    members: models(children@),
                },
                ask.deep_view(),
                lang,
            ),
        ) {
            (Ok(a), Ok(b)) => a == b,
            (Err(e), Err(f)) => e.deep_view() == f,
            _ => false,
        },
{
    let position = ask.position;
    if same(position, "first") {
        return Ok(resolve_first(source, body_start, lang));
    }
    if same(position, "last") {
        return Ok(resolve_last(source, body_end, children, lang));
    }
    proof {
        reveal_strlit("before:");
        reveal_strlit("after:");
    }
    if starts_with(position, "before:") {
        let name = behind(position, 7);
        return match find_member(children, name.as_str()) {
            Some(c) => Ok(find_line_start(source.as_bytes(), c.start_byte)),
            None => Err(
                AftError::MemberNotFound {
                    member: name,
                    scope: owned(ask.scope),
                    file: owned(ask.file),
                },
            ),
        };
    }
    if starts_with(position, "after:") {
        let name = behind(position, 6);
        return match find_member(children, name.as_str()) {
            Some(c) => Ok(find_next_line(source.as_bytes(), c.end_byte)),
            None => Err(
                AftError::MemberNotFound {
                    member: name,
                    scope: owned(ask.scope),
                    file: owned(ask.file),
                },
            ),
        };
    }
    Err(
        AftError::InvalidRequest {
            message: text3(
                "add_member: invalid position '",
                position,
                "', expected first|last|before:name|after:name",
            ),
        },
    )
}

/// The first `n` lines of code, each with an indentation in the place of its own; blank lines
/// stay blank.
pub open spec fn indented_lines(all: Seq<Seq<char>>, indent: Seq<char>, n: int) -> Seq<char>
    decreases n,
{
    if n <= 0 || n > all.len() {
        Seq::empty()
    } else {
        let before = indented_lines(all, indent, n - 1);
        let line = all[n - 1];
        if trimmed(line).len() == 0 {
            before.push('\n')
        } else {
            (before + indent + trimmed_start(line)).push('\n')
        }
    }
}

/// Code with an indentation in the place of its own, ended by a line feed.
pub open spec fn indented(code: Seq<char>, indent: Seq<char>) -> Seq<char> {
    let all = lines_of(code);
    if all.len() == 0 {
        seq!['\n']
    } else {
        indented_lines(all, indent, all.len() as int)
    }
}

/// Code with an indentation in the place of its own.
pub fn indent_code(code: &str, indent: &str) -> (r: String)
    ensures
        r@ == indented(code@, indent@),
{
    let all = lines(code);
    let ghost want = lines_of(code@);
    assert(texts(all@).len() == all@.len());
    let mut out = String::new();
    assert(out@ =~= Seq::<char>::empty());
    let mut i: usize = 0;
    while i < all.len()
        invariant
            i <= all.len(),
            want == lines_of(code@),
            want == texts(all@),
            out@ == indented_lines(want, indent@, i as int),
        decreases all.len() - i,
    {
        assert(want[i as int] == all@[i as int]@);
        let t = trim(all[i].as_str());
        if t.as_str().is_empty() {
            out.push('\n');
        } else {
            let c = chars_of(all[i].as_str());
            out.append(indent);
            out.append(string_of(trim_start_chars(c.as_slice())).as_str());
            out.push('\n');
        }
        i = i + 1;
    }
    if all.len() == 0 {
        out.push('\n');
        assert(out@ =~= seq!['\n']);
    }
    out
}

/// The source with a member put into a container.
pub open spec fn with_member(
    source: Seq<char>,
    root: Tree,
    ask: MemberAsk,
    lang: LangId,
    file_indent: Seq<char>,
) -> Result<Seq<char>, RefusalModel> {
    match container(root, ask.scope, lang) {
        None => Err(
            RefusalModel::Error(
                Fault::ScopeNotFound {
                    scope: ask.scope,
                    available: scope_names(scopes(root, lang)),
                    file: ask.file,
                },
            ),
        ),
        Some(body) => match insert_position(source, body, ask, lang) {
            Err(f) => Err(RefusalModel::Error(f)),
            Ok(at) => match replaced(
                source,
                at,
                at,
                indented(ask.code, member_indent(source, body.members, file_indent)),
            ) {
                Err(f) => Err(RefusalModel::Error(f)),
                Ok(s) => Ok(s),
            },
        },
    }
}

/// The source with a member put into a container of a file with a syntax tree.
pub fn add_member_in_tree(
    source: &str,
    root: &SyntaxNode,
    ask: &MemberRequest<'_>,
    lang: LangId,
    file_indent: &str,
) -> (r: Result<String, Refusal>)
    ensures
        text_verdict(r) == with_member(source@, root@, ask.deep_view(), lang, file_indent@),
{
    let (found, available) = find_scope_container(root, ask.scope, lang);
    let (body_start, body_end, children) = match found {
        Some(b) => b,
        None => {
            assert(models(available@) =~= texts(available@));
            return Err(
                Refusal::Error(
                    AftError::ScopeNotFound {
                        scope: owned(ask.scope),
                        available,
                        file: owned(ask.file),
                    },
                ),
            );
        },
    };
    let indent = detect_member_indent(source, &children, file_indent);
    let at = match resolve_position(source, body_start, body_end, &children, ask, lang) {
        Ok(n) => n,
        Err(e) => {
            return Err(Refusal::Error(e));
        },
    };
    let code = indent_code(ask.code, indent.as_str());
    match replace_byte_range(source, at, at, code.as_str()) {
        Ok(s) => Ok(s),
        Err(e) => Err(Refusal::Error(e)),
    }
}

/// The languages whose files have containers.
pub open spec fn has_containers(lang: LangId) -> bool {
    lang.script() || lang == LangId::Python || lang == LangId::Rust || lang == LangId::Go
}

/// What a request makes of the file that it names. `file_indent` is one level of the file's
/// indentation.
pub open spec fn member_outcome(params: Json, t: Target, file_indent: Seq<char>) -> Result<
    Seq<char>,
    RefusalModel,
> {
    match member_ask(params) {
        Err(e) => Err(e),
        Ok(ask) => match member_source(ask.file, t) {
            Err(e) => Err(e),
            Ok(found) => if !has_containers(found.0) {
                Err(
                    RefusalModel::Error(
                        Fault::ScopeNotFound {
                            scope: ask.scope,
                            available: Seq::empty(),
                            file: ask.file,
                        },
                    ),
                )
            } else {
                match syntax_of(found.1, found.0) {
                    None => Err(
                        refused("parse_error"@, "add_member: parse failed for "@ + ask.file),
                    ),
                    Some(root) => with_member(found.1, root, ask, found.0, file_indent),
                }
            },
        },
    }
}

/// What a request makes of the file that it names.
pub fn handle_add_member(params: &Json, target: &Target, file_indent: &str) -> (r: Result<
    String,
    Refusal,
>)
    ensures
        text_verdict(r) == member_outcome(*params, *target, file_indent@),
{
    let ask = match read_member_request(params) {
        Ok(a) => a,
        Err(e) => {
            return Err(e);
        },
    };
    let (lang, source) = match read_member_source(ask.file, target) {
        Ok(p) => p,
        Err(e) => {
            return Err(e);
        },
    };
    if !(lang.is_script() || lang == LangId::Python || lang == LangId::Rust || lang == LangId::Go) {
        let available: Vec<String> = Vec::new();
        assert(models(available@) =~= Seq::<Seq<char>>::empty());
        return Err(
            Refusal::Error(
                AftError::ScopeNotFound {
                    scope: owned(ask.scope),
                    available,
                    file: owned(ask.file),
                },
            ),
        );
    }
    match parse(source, lang) {
        None => Err(refuse("parse_error", text2("add_member: parse failed for ", ask.file))),
        Some(root) => add_member_in_tree(source, &root, &ask, lang, file_indent),
    }
}

/// Putting a member in changes nothing of the text that was there.
pub proof fn member_keeps_the_rest(source: Seq<char>, at: int, code: Seq<char>)
    requires
        replaced(source, at, at, code) is Ok,
    ensures
        bytes(replaced(source, at, at, code)->Ok_0) == bytes(source).subrange(0, at) + bytes(code)
            + bytes(source).subrange(at, bytes(source).len() as int),
{
    lemma_replaced_bytes(source, at, at, code);
}

proof fn lemma_indented_ends(all: Seq<Seq<char>>, indent: Seq<char>, n: int)
    requires
        0 < n <= all.len(),
    ensures
        indented_lines(all, indent, n).len() > 0,
        indented_lines(all, indent, n).last() == '\n',
{
}

/// Code that is put in ends a line.
pub proof fn indented_code_ends_a_line(code: Seq<char>, indent: Seq<char>)
    ensures
        indented(code, indent).len() > 0,
        indented(code, indent).last() == '\n',
{
    let all = lines_of(code);
    if all.len() > 0 {
        lemma_indented_ends(all, indent, all.len() as int);
    }
}

proof fn lemma_part_named(list: Seq<Part>, name: Seq<char>, from: int, i: int)
    requires
        0 <= from <= i <= list.len(),
        forall|k: int| from <= k < i ==> (#[trigger] list[k]).name != name,
        i < list.len() ==> list[i].name == name,
    ensures
        part_named(list, name, from) == (if i < list.len() {
            Some(list[i])
        } else {
            None
        }),
    decreases i - from,
{
    if from < i {
        lemma_part_named(list, name, from + 1, i);
    }
}

proof fn lemma_position_words(name: Seq<char>)
    ensures
        "before:"@ == seq!['b', 'e', 'f', 'o', 'r', 'e', ':'],
        "after:"@ == seq!['a', 'f', 't', 'e', 'r', ':'],
        "before:"@.is_prefix_of("before:"@ + name),
        "after:"@.is_prefix_of("after:"@ + name),
        !"before:"@.is_prefix_of("after:"@ + name),
        ("before:"@ + name).skip(7) == name,
        ("after:"@ + name).skip(6) == name,
        "before:"@ + name != "first"@,
        "before:"@ + name != "last"@,
        "after:"@ + name != "first"@,
        "after:"@ + name != "last"@,
        "first"@ != "last"@,
{
    reveal_strlit("before:");
    reveal_strlit("after:");
    reveal_strlit("first");
    reveal_strlit("last");
    let b = "before:"@ + name;
    let a = "after:"@ + name;
    assert("before:"@ =~= seq!['b', 'e', 'f', 'o', 'r', 'e', ':']);
    assert("after:"@ =~= seq!['a', 'f', 't', 'e', 'r', ':']);
    assert("before:"@ =~= b.take(7));
    assert("after:"@ =~= a.take(6));
    assert(a[0] == 'a');
    assert(b[0] == 'b');
    assert("first"@[0] == 'f');
    assert("last"@[0] == 'l');
    if "before:"@.is_prefix_of(a) {
        assert(a.take(7)[0] == "before:"@[0]);
    }
    assert(b.skip(7) =~= name);
    assert(a.skip(6) =~= name);
}

/// A member that is to stand before another is put at the start of the line on which the first
/// member with that name starts, and one that is to stand behind another at the start of the line
/// behind where that one ends, or right behind it where no line follows. Where there is no member
/// with the name the request is refused.
pub proof fn members_are_put_next_to_the_one_named(
    source: Seq<char>,
    body: Body,
    ask: MemberAsk,
    lang: LangId,
    name: Seq<char>,
    i: int,
)
    requires
        0 <= i <= body.members.len(),
        forall|k: int| 0 <= k < i ==> (#[trigger] body.members[k]).name != name,
        i < body.members.len() ==> body.members[i].name == name && 0 <= body.members[i].start
            <= body.members[i].end <= bytes(source).len(),
        ask.position == "before:"@ + name || ask.position == "after:"@ + name,
    ensures
        ({
            let b = bytes(source);
            let m = body.members[i];
            let r = insert_position(source, body, ask, lang);
            &&& i == body.members.len() ==> r == Err::<int, Fault>(
                Fault::MemberNotFound { member: name, scope: ask.scope, file: ask.file },
            )
            &&& i < body.members.len() ==> r is Ok
            &&& i < body.members.len() && ask.position == "before:"@ + name ==> {
                let at = r->Ok_0;
                &&& 0 <= at <= m.start
                &&& on_one_line(b, at, m.start)
                &&& at == 0 || b[at - 1] == 10
            }
            &&& i < body.members.len() && ask.position == "after:"@ + name ==> {
                let at = r->Ok_0;
                &&& m.end <= at <= b.len()
                &&& at == m.end ==> on_one_line(b, at, b.len() as int)
                &&& at > m.end ==> b[at - 1] == 10 && on_one_line(b, m.end, at - 1)
            }
        }),
{
    let b = bytes(source);
    lemma_position_words(name);
    lemma_part_named(body.members, name, 0, i);
    assert("before:"@ + name != "after:"@ + name) by {
        assert(("before:"@ + name)[0] == 'b');
        assert(("after:"@ + name)[0] == 'a');
    }
    if i < body.members.len() {
        let m = body.members[i];
        line_start_is_on_the_line(b, m.start);
        first_byte_is_found(b, LINE_FEED, m.end);
    }
}

/// Without names a member is put first or last. In Python the first is where the body starts, and
/// the last on the line behind the last member. Elsewhere the first is on the line behind the
/// first opening brace from the start of the body on, and the last on the line of the last closing
/// brace of the body.
pub proof fn members_are_put_first_or_last(
    source: Seq<char>,
    body: Body,
    ask: MemberAsk,
    lang: LangId,
    brace: int,
)
    requires
        0 <= body.start <= body.end <= bytes(source).len(),
    ensures
        ({
            let b = bytes(source);
            let r = insert_position(source, body, ask, lang);
            &&& ask.position == "first"@ || ask.position == "last"@ ==> r is Ok
            &&& ask.position == "first"@ && lang == LangId::Python ==> r->Ok_0 == body.start
            &&& ask.position == "last"@ && lang == LangId::Python && body.members.len() > 0 && 0
                <= body.members.last().end <= b.len() ==> {
                let end = body.members.last().end;
                &&& end <= r->Ok_0 <= b.len()
                &&& r->Ok_0 == end ==> on_one_line(b, end, b.len() as int)
                &&& r->Ok_0 > end ==> b[r->Ok_0 - 1] == 10 && on_one_line(b, end, r->Ok_0 - 1)
            }
            &&& ask.position == "first"@ && lang != LangId::Python && body.start <= brace < b.len()
                && b[brace] == 123 && (forall|k: int| body.start <= k < brace ==> b[k] != 123) ==> {
                let at = r->Ok_0;
                &&& brace < at <= b.len()
                &&& at == brace + 1 ==> on_one_line(b, at, b.len() as int) || b[brace] == 10
                &&& at > brace + 1 ==> b[at - 1] == 10 && on_one_line(b, brace + 1, at - 1)
            }
            &&& ask.position == "last"@ && lang != LangId::Python && 0 <= brace < body.end
                && b[brace] == 125 && (forall|k: int| brace < k < body.end ==> b[k] != 125) ==> {
                let at = r->Ok_0;
                &&& 0 <= at <= brace
                &&& on_one_line(b, at, brace)
                &&& at < brace ==> at == 0 || b[at - 1] == 10
            }
        }),
{
    let b = bytes(source);
    lemma_position_words(Seq::empty());
    first_byte_is_found(b, OPEN_BRACE, body.start);
    last_byte_is_found(b, CLOSE_BRACE, body.end);
    if body.members.len() > 0 && 0 <= body.members.last().end <= b.len() {
        first_byte_is_found(b, LINE_FEED, body.members.last().end);
    }
    if 0 <= brace < b.len() {
        first_byte_is_found(b, LINE_FEED, brace + 1);
        last_byte_is_found(b, LINE_FEED, brace);
    }
}

/// Any other position is refused.
pub proof fn other_positions_are_refused(source: Seq<char>, body: Body, ask: MemberAsk, lang: LangId)
    requires
        ask.position != "first"@,
        ask.position != "last"@,
        !(ask.position.len() >= 7 && ask.position.take(7) == "before:"@),
        !(ask.position.len() >= 6 && ask.position.take(6) == "after:"@),
    ensures
        insert_position(source, body, ask, lang) is Err,
{
    reveal_strlit("before:");
    reveal_strlit("after:");
}

/// A member is put into the container of its scope, with the indentation of the members in the
/// place of its own, and nothing else of the file changes.
pub proof fn members_are_put_into_their_scope(
    params: Json,
    t: Target,
    file_indent: Seq<char>,
    file: Seq<char>,
    scope: Seq<char>,
    code: Seq<char>,
    lang: LangId,
    root: Tree,
    body: Body,
    at: int,
)
    requires
        params.text_field("file"@) == Some(file),
        params.text_field("scope"@) == Some(scope),
        params.text_field("code"@) == Some(code),
        t.exists,
        t.content is Ok,
        path_lang(file) == Some(lang),
        lang == LangId::Python || lang == LangId::Rust || lang == LangId::Go || lang
            == LangId::TypeScript || lang == LangId::Tsx || lang == LangId::JavaScript,
        syntax_of((t.content->Ok_0)@, lang) == Some(root),
        container(root, scope, lang) == Some(body),
        insert_position(
            (t.content->Ok_0)@,
            body,
            (MemberAsk {
                file,
                scope,
                code,
                position: match params.text_field("position"@) {
                    Some(p) => p,
                    None => "last"@,
                },
            }),
            lang,
        ) == Ok::<int, Fault>(at),
        char_range((t.content->Ok_0)@, at, at),
    ensures
        ({
            let s = (t.content->Ok_0)@;
            let r = member_outcome(params, t, file_indent);
            let indent = if body.members.len() > 0 && leading_space(
                piece(s, line_start(bytes(s), body.members[0].start), body.members[0].start),
            ).len() > 0 {
                leading_space(
                    piece(s, line_start(bytes(s), body.members[0].start), body.members[0].start),
                )
            } else {
                file_indent
            };
            &&& r is Ok
            &&& bytes(r->Ok_0) == bytes(s).subrange(0, at) + bytes(indented(code, indent)) + bytes(
                s,
            ).subrange(at, bytes(s).len() as int)
        }),
{
    let s = (t.content->Ok_0)@;
    let indent = member_indent(s, body.members, file_indent);
    replacements_change_their_range(s, at, at, indented(code, indent));
}

/// Code is put in line by line: a line with anything on it gets the indentation in the place of
/// its own, and every line is ended by a line feed.
pub proof fn lines_of_code_are_indented(all: Seq<Seq<char>>, indent: Seq<char>, line: Seq<char>)
    ensures
        indented_lines(all.push(line), indent, all.len() as int + 1) == indented_lines(
            all,
            indent,
            all.len() as int,
        ) + (if trimmed(line).len() == 0 {
            Seq::empty()
        } else {
            indent + trimmed_start(line)
        }) + seq!['\n'],
{
    lemma_indented_prefix(all, line, indent, all.len() as int);
    let n = all.len() as int;
    assert(indented_lines(all.push(line), indent, n + 1) =~= indented_lines(all, indent, n) + (
    if trimmed(line).len() == 0 {
        Seq::empty()
    } else {
        indent + trimmed_start(line)
    }) + seq!['\n']);
}

proof fn lemma_indented_prefix(all: Seq<Seq<char>>, line: Seq<char>, indent: Seq<char>, n: int)
    requires
        0 <= n <= all.len(),
    ensures
        indented_lines(all.push(line), indent, n) == indented_lines(all, indent, n),
    decreases n,
{
    if n > 0 {
        lemma_indented_prefix(all, line, indent, n - 1);
        assert(all.push(line)[n - 1] == all[n - 1]);
    }
}

/// Whether the first child of a node that has one of two kinds has a text.
pub open spec fn named_by(t: Tree, a: Seq<char>, b: Seq<char>, name: Seq<char>) -> bool {
    exists|i: int|
        0 <= i < t.children.len() && ((#[trigger] t.children[i]).kind == a || t.children[i].kind
            == b) && t.children[i].text == name && forall|k: int|
            0 <= k < i ==> (#[trigger] t.children[k]).kind != a && t.children[k].kind != b
}

/// Whether the last type that an impl block names has a text.
pub open spec fn is_impl_for(t: Tree, name: Seq<char>) -> bool {
    exists|i: int|
        0 <= i < t.children.len() && ((#[trigger] t.children[i]).kind == "type_identifier"@
            || t.children[i].kind == "generic_type"@) && t.children[i].text == name && forall|
            k: int,
        |
            i < k < t.children.len() ==> (#[trigger] t.children[k]).kind != "type_identifier"@
                && t.children[k].kind != "generic_type"@
}

/// Whether a node is a container with a name whose members stand in `body`: in scripts and Python
/// a class, and in Rust an impl block or, where `structs` says so, a struct.
pub open spec fn is_container(
    lang: LangId,
    structs: bool,
    t: Tree,
    name: Seq<char>,
    body: Tree,
) -> bool {
    if lang == LangId::Python {
        t.kind == "class_definition"@ && named_by(t, "identifier"@, "identifier"@, name)
            && is_first_kind(t, "block"@, body)
    } else if lang == LangId::Rust {
        if structs {
            t.kind == "struct_item"@ && named_by(t, "type_identifier"@, "type_identifier"@, name)
                && is_first_kind(t, "field_declaration_list"@, body)
        } else {
            t.kind == "impl_item"@ && is_impl_for(t, name) && is_first_kind(
                t,
                "declaration_list"@,
                body,
            )
        }
    } else {
        t.kind == "class_declaration"@ && named_by(t, "type_identifier"@, "identifier"@, name)
            && is_first_kind(t, "class_body"@, body)
    }
}

proof fn lemma_container_kinds()
    ensures
        "export_statement"@ != "class_declaration"@,
        "decorated_definition"@ != "class_definition"@,
        "impl_item"@ != "struct_item"@,
{
    reveal_strlit("export_statement");
    reveal_strlit("class_declaration");
    reveal_strlit("decorated_definition");
    reveal_strlit("class_definition");
    reveal_strlit("impl_item");
    reveal_strlit("struct_item");
    assert("export_statement"@.len() != "class_declaration"@.len());
    assert("decorated_definition"@.len() != "class_definition"@.len());
    assert("impl_item"@.len() != "struct_item"@.len());
}

proof fn lemma_name_among(list: Seq<Tree>, a: Seq<char>, b: Seq<char>, from: int)
    requires
        0 <= from <= list.len(),
    ensures
        match name_among(list, a, b, from) {
            Some(s) => exists|i: int|
                from <= i < list.len() && ((#[trigger] list[i]).kind == a || list[i].kind == b)
                    && list[i].text == s && forall|k: int|
                    from <= k < i ==> (#[trigger] list[k]).kind != a && list[k].kind != b,
            None => forall|k: int|
                from <= k < list.len() ==> (#[trigger] list[k]).kind != a && list[k].kind != b,
        },
    decreases list.len() - from,
{
    if from < list.len() {
        if list[from].kind == a || list[from].kind == b {
            assert(list[from].text == list[from].text);
        } else {
            lemma_name_among(list, a, b, from + 1);
            match name_among(list, a, b, from + 1) {
                Some(s) => {
                    let i = choose|i: int|
                        from + 1 <= i < list.len() && ((#[trigger] list[i]).kind == a || list[i].kind
                            == b) && list[i].text == s && forall|k: int|
                            from + 1 <= k < i ==> (#[trigger] list[k]).kind != a && list[k].kind
                                != b;
                    assert(list[i].kind == a || list[i].kind == b);
                },
                None => {},
            }
        }
    }
}

proof fn lemma_named_by(t: Tree, a: Seq<char>, b: Seq<char>)
    ensures
        forall|s: Seq<char>| #[trigger]
            named_by(t, a, b, s) <==> name_among(t.children, a, b, 0) == Some(s),
{
    lemma_name_among(t.children, a, b, 0);
    assert forall|s: Seq<char>| #[trigger] named_by(t, a, b, s) implies name_among(
        t.children,
        a,
        b,
        0,
    ) == Some(s) by {
        let i = choose|i: int|
            0 <= i < t.children.len() && ((#[trigger] t.children[i]).kind == a || t.children[i].kind
                == b) && t.children[i].text == s && forall|k: int|
                0 <= k < i ==> (#[trigger] t.children[k]).kind != a && t.children[k].kind != b;
        let r = name_among(t.children, a, b, 0);
        assert(r is Some);
        let j = choose|j: int|
            0 <= j < t.children.len() && ((#[trigger] t.children[j]).kind == a || t.children[j].kind
                == b) && t.children[j].text == r->0 && forall|k: int|
                0 <= k < j ==> (#[trigger] t.children[k]).kind != a && t.children[k].kind != b;
        assert(i == j);
    }
}

proof fn lemma_impl_name(list: Seq<Tree>, n: int)
    requires
        0 <= n <= list.len(),
    ensures
        match impl_name(list, n) {
            Some(s) => exists|i: int|
                0 <= i < n && ((#[trigger] list[i]).kind == "type_identifier"@ || list[i].kind
                    == "generic_type"@) && list[i].text == s && forall|k: int|
                    i < k < n ==> (#[trigger] list[k]).kind != "type_identifier"@ && list[k].kind
                        != "generic_type"@,
            None => forall|k: int|
                0 <= k < n ==> (#[trigger] list[k]).kind != "type_identifier"@ && list[k].kind
                    != "generic_type"@,
        },
    decreases n,
{
    if n > 0 {
        if list[n - 1].kind == "type_identifier"@ || list[n - 1].kind == "generic_type"@ {
        } else {
            lemma_impl_name(list, n - 1);
            match impl_name(list, n - 1) {
                Some(s) => {
                    let i = choose|i: int|
                        0 <= i < n - 1 && ((#[trigger] list[i]).kind == "type_identifier"@
                            || list[i].kind == "generic_type"@) && list[i].text == s && forall|
                            k: int,
                        |
                            i < k < n - 1 ==> (#[trigger] list[k]).kind != "type_identifier"@
                                && list[k].kind != "generic_type"@;
                    assert(list[i].kind == "type_identifier"@ || list[i].kind == "generic_type"@);
                },
                None => {},
            }
        }
    }
}

proof fn lemma_is_impl_for(t: Tree)
    ensures
        forall|s: Seq<char>| #[trigger]
            is_impl_for(t, s) <==> impl_name(t.children, t.children.len() as int) == Some(s),
{
    let n = t.children.len() as int;
    lemma_impl_name(t.children, n);
    assert forall|s: Seq<char>| #[trigger] is_impl_for(t, s) implies impl_name(t.children, n)
        == Some(s) by {
        let i = choose|i: int|
            0 <= i < t.children.len() && ((#[trigger] t.children[i]).kind == "type_identifier"@
                || t.children[i].kind == "generic_type"@) && t.children[i].text == s && forall|
                k: int,
            |
                i < k < t.children.len() ==> (#[trigger] t.children[k]).kind != "type_identifier"@
                    && t.children[k].kind != "generic_type"@;
        let r = impl_name(t.children, n);
        assert(r is Some);
        let j = choose|j: int|
            0 <= j < n && ((#[trigger] t.children[j]).kind == "type_identifier"@
                || t.children[j].kind == "generic_type"@) && t.children[j].text == r->0 && forall|
                k: int,
            |
                j < k < n ==> (#[trigger] t.children[k]).kind != "type_identifier"@
                    && t.children[k].kind != "generic_type"@;
        assert(i == j);
    }
}

/// Whether a container of a list is told by a node: it has the node's name and body.
spec fn told_by(lang: LangId, c: Scope, t: Tree) -> bool {
    forall|body: Tree|
        c.body == Some(body) ==> #[trigger] is_container(lang, c.secondary, t, c.name, body)
}

proof fn lemma_script_class(t: Tree, once: bool, lang: LangId)
    requires
        lang == LangId::TypeScript || lang == LangId::Tsx || lang == LangId::JavaScript,
    ensures
        match script_class(t, once) {
            Some(c) => told_by(lang, c, t) && !c.secondary,
            None => true,
        },
        forall|name: Seq<char>, body: Tree| #[trigger]
            is_container(lang, false, t, name, body) ==> script_class(t, once) == Some(
                Scope { name, body: Some(body), once, secondary: false },
            ),
{
    lemma_named_by(t, "type_identifier"@, "identifier"@);
    first_of_a_kind_is_found(t, "class_body"@);
}

proof fn lemma_exported_classes(list: Seq<Tree>, n: int, lang: LangId)
    requires
        0 <= n <= list.len(),
        lang == LangId::TypeScript || lang == LangId::Tsx || lang == LangId::JavaScript,
    ensures
        forall|j: int|
            0 <= j < exported_classes(list, n).len() ==> {
                let c = #[trigger] exported_classes(list, n)[j];
                !c.secondary && exists|k: int| 0 <= k < n && told_by(lang, c, #[trigger] list[k])
            },
    decreases n,
{
    if n > 0 {
        lemma_exported_classes(list, n - 1, lang);
        lemma_script_class(list[n - 1], true, lang);
        let before = exported_classes(list, n - 1);
        let all = exported_classes(list, n);
        assert forall|j: int| 0 <= j < all.len() implies !(#[trigger] all[j]).secondary && exists|
            k: int,
        |
            0 <= k < n && told_by(lang, all[j], #[trigger] list[k]) by {
            if j < before.len() {
                assert(all[j] == before[j]);
                let k = choose|k: int|
                    0 <= k < n - 1 && told_by(lang, before[j], #[trigger] list[k]);
                assert(told_by(lang, all[j], list[k]));
            } else {
                assert(told_by(lang, all[j], list[n - 1]));
            }
        }
    }
}

/// Whether a tree has a node that a container of a list is told by.
spec fn told_in(lang: LangId, c: Scope, root: Tree) -> bool {
    exists|t: Tree| #[trigger] stands_in(root, t) && told_by(lang, c, t)
}

proof fn lemma_script_classes(root: Tree, n: int, lang: LangId)
    requires
        0 <= n <= root.children.len(),
        lang == LangId::TypeScript || lang == LangId::Tsx || lang == LangId::JavaScript,
    ensures
        forall|j: int|
            0 <= j < script_classes(root.children, n).len() ==> told_in(
                lang,
                #[trigger] script_classes(root.children, n)[j],
                root,
            ) && !script_classes(root.children, n)[j].secondary,
        forall|i: int, name: Seq<char>, body: Tree|
            0 <= i < n && #[trigger] is_container(lang, false, root.children[i], name, body)
                ==> script_classes(root.children, n).contains(
                Scope { name, body: Some(body), once: false, secondary: false },
            ),
    decreases n,
{
    lemma_container_kinds();
    if n > 0 {
        let t = root.children[n - 1];
        let before = script_classes(root.children, n - 1);
        let all = script_classes(root.children, n);
        lemma_script_classes(root, n - 1, lang);
        lemma_script_class(t, false, lang);
        lemma_exported_classes(t.children, t.children.len() as int, lang);
        assert(stands_in(t, t));
        assert(stands_in(root, t));
        let inner = exported_classes(t.children, t.children.len() as int);
        assert forall|j: int| 0 <= j < all.len() implies told_in(
            lang,
            #[trigger] all[j],
            root,
        ) && !all[j].secondary by {
            if j < before.len() {
                assert(all[j] == before[j]);
            } else if t.kind == "export_statement"@ {
                let c = inner[j - before.len()];
                assert(all[j] == c);
                let k = choose|k: int|
                    0 <= k < t.children.len() && told_by(lang, c, #[trigger] t.children[k]);
                assert(stands_in(t.children[k], t.children[k]));
                assert(stands_in(t, t.children[k]));
                assert(stands_in(root, t.children[k]));
            } else {
                assert(told_by(lang, all[j], t));
            }
        }
        assert forall|i: int, name: Seq<char>, body: Tree|
            0 <= i < n && #[trigger] is_container(
                lang,
                false,
                root.children[i],
                name,
                body,
            ) implies all.contains(
            Scope { name, body: Some(body), once: false, secondary: false },
        ) by {
            let c = Scope { name, body: Some(body), once: false, secondary: false };
            if i < n - 1 {
                assert(before.contains(c));
                let k = choose|k: int| 0 <= k < before.len() && before[k] == c;
                assert(all[k] == c);
            } else {
                assert(is_container(lang, false, t, name, body));
                assert(t.kind != "export_statement"@);
                assert(script_class(t, false) == Some(c));
                assert(all == before.push(c));
                assert(all[before.len() as int] == c);
            }
        }
    }
}

proof fn lemma_python_class(t: Tree)
    ensures
        match python_class(t) {
            Some(c) => told_by(LangId::Python, c, t) && !c.secondary,
            None => true,
        },
        forall|name: Seq<char>, body: Tree| #[trigger]
            is_container(LangId::Python, false, t, name, body) ==> python_class(t) == Some(
                Scope { name, body: Some(body), once: false, secondary: false },
            ),
{
    lemma_named_by(t, "identifier"@, "identifier"@);
    first_of_a_kind_is_found(t, "block"@);
}

proof fn lemma_python_classes(root: Tree, list: Seq<Tree>, n: int)
    requires
        0 <= n <= list.len(),
        forall|i: int, m: Tree|
            0 <= i < list.len() && #[trigger] stands_in(list[i], m) ==> stands_in(root, m),
    ensures
        forall|j: int|
            0 <= j < python_classes(list, n).len() ==> told_in(
                LangId::Python,
                #[trigger] python_classes(list, n)[j],
                root,
            ) && !python_classes(list, n)[j].secondary,
        forall|i: int, name: Seq<char>, body: Tree|
            0 <= i < n && #[trigger] is_container(LangId::Python, false, list[i], name, body)
                ==> python_classes(list, n).contains(
                Scope { name, body: Some(body), once: false, secondary: false },
            ),
    decreases list, n,
{
    lemma_container_kinds();
    if n > 0 {
        let t = list[n - 1];
        let before = python_classes(list, n - 1);
        let all = python_classes(list, n);
        lemma_python_classes(root, list, n - 1);
        lemma_python_class(t);
        assert(stands_in(list[n - 1], t));
        if t.kind == "decorated_definition"@ {
            assert forall|i: int, m: Tree|
                0 <= i < t.children.len() && #[trigger] stands_in(t.children[i], m) implies stands_in(
                root,
                m,
            ) by {
                assert(stands_in(list[n - 1], m));
            }
            lemma_python_classes(root, t.children, t.children.len() as int);
        }
        let inner = python_classes(t.children, t.children.len() as int);
        assert forall|j: int| 0 <= j < all.len() implies told_in(
            LangId::Python,
            #[trigger] all[j],
            root,
        ) && !all[j].secondary by {
            if j < before.len() {
                assert(all[j] == before[j]);
            } else if t.kind == "decorated_definition"@ {
                assert(all[j] == inner[j - before.len()]);
            } else {
                assert(told_by(LangId::Python, all[j], t));
            }
        }
        assert forall|i: int, name: Seq<char>, body: Tree|
            0 <= i < n && #[trigger] is_container(
                LangId::Python,
                false,
                list[i],
                name,
                body,
            ) implies all.contains(
            Scope { name, body: Some(body), once: false, secondary: false },
        ) by {
            let c = Scope { name, body: Some(body), once: false, secondary: false };
            if i < n - 1 {
                assert(before.contains(c));
                let k = choose|k: int| 0 <= k < before.len() && before[k] == c;
                assert(all[k] == c);
            } else {
                assert(is_container(LangId::Python, false, t, name, body));
                assert(t.kind != "decorated_definition"@);
                assert(python_class(t) == Some(c));
                assert(all == before.push(c));
                assert(all[before.len() as int] == c);
            }
        }
    }
}

proof fn lemma_rust_scopes(root: Tree, n: int)
    requires
        0 <= n <= root.children.len(),
    ensures
        forall|j: int|
            0 <= j < rust_scopes(root.children, n).len() ==> told_in(
                LangId::Rust,
                #[trigger] rust_scopes(root.children, n)[j],
                root,
            ),
        forall|i: int, structs: bool, name: Seq<char>, body: Tree|
            0 <= i < n && #[trigger] is_container(
                LangId::Rust,
                structs,
                root.children[i],
                name,
                body,
            ) ==> rust_scopes(root.children, n).contains(
                Scope { name, body: Some(body), once: true, secondary: structs },
            ),
    decreases n,
{
    lemma_container_kinds();
    if n > 0 {
        let t = root.children[n - 1];
        let before = rust_scopes(root.children, n - 1);
        let all = rust_scopes(root.children, n);
        lemma_rust_scopes(root, n - 1);
        lemma_named_by(t, "type_identifier"@, "type_identifier"@);
        lemma_is_impl_for(t);
        first_of_a_kind_is_found(t, "declaration_list"@);
        first_of_a_kind_is_found(t, "field_declaration_list"@);
        assert(stands_in(t, t));
        assert(stands_in(root, t));
        assert forall|j: int| 0 <= j < all.len() implies told_in(
            LangId::Rust,
            #[trigger] all[j],
            root,
        ) by {
            if j < before.len() {
                assert(all[j] == before[j]);
            } else {
                assert(told_by(LangId::Rust, all[j], t));
            }
        }
        assert forall|i: int, structs: bool, name: Seq<char>, body: Tree|
            0 <= i < n && #[trigger] is_container(
                LangId::Rust,
                structs,
                root.children[i],
                name,
                body,
            ) implies all.contains(
            Scope { name, body: Some(body), once: true, secondary: structs },
        ) by {
            let c = Scope { name, body: Some(body), once: true, secondary: structs };
            if i < n - 1 {
                assert(before.contains(c));
                let k = choose|k: int| 0 <= k < before.len() && before[k] == c;
                assert(all[k] == c);
            } else {
                assert(is_container(LangId::Rust, structs, t, name, body));
                assert(rust_scope(t) == Some(c));
                assert(all == before.push(c));
                assert(all[before.len() as int] == c);
            }
        }
    }
}

proof fn lemma_scope_named(list: Seq<Scope>, name: Seq<char>, secondary: bool, from: int)
    requires
        0 <= from <= list.len(),
    ensures
        match scope_named(list, name, secondary, from) {
            Some(t) => exists|j: int|
                from <= j < list.len() && (#[trigger] list[j]).name == name && list[j].secondary
                    == secondary && list[j].body == Some(t),
            None => forall|j: int|
                from <= j < list.len() ==> !((#[trigger] list[j]).name == name && list[j].secondary
                    == secondary && list[j].body is Some),
        },
    decreases list.len() - from,
{
    if from < list.len() {
        lemma_scope_named(list, name, secondary, from + 1);
    }
}

/// The container of a name is a class, an impl block or a struct of that name, and holds what
/// stands in it. One is found wherever there is one among the statements of the file. In a Rust
/// file it is an impl block wherever there is one.
pub proof fn containers_are_those_named(root: Tree, name: Seq<char>, lang: LangId)
    requires
        lang == LangId::Python || lang == LangId::Rust || lang == LangId::TypeScript || lang
            == LangId::Tsx || lang == LangId::JavaScript,
    ensures
        match container(root, name, lang) {
            Some(b) => exists|t: Tree, body: Tree, structs: bool|
                #![trigger stands_in(root, t), is_container(lang, structs, t, name, body)]
                stands_in(root, t) && is_container(lang, structs, t, name, body) && b.start
                    == body.start && b.end == body.end && (structs ==> forall|
                    i: int,
                    other: Tree,
                |
                    0 <= i < root.children.len() ==> !(#[trigger] is_container(
                        lang,
                        false,
                        root.children[i],
                        name,
                        other,
                    ))),
            None => forall|i: int, structs: bool, body: Tree|
                0 <= i < root.children.len() ==> !(#[trigger] is_container(
                    lang,
                    structs,
                    root.children[i],
                    name,
                    body,
                )),
        },
{
    let all = scopes(root, lang);
    let n = root.children.len() as int;
    if lang == LangId::Rust {
        lemma_rust_scopes(root, n);
    } else if lang == LangId::Python {
        assert forall|i: int, m: Tree|
            0 <= i < root.children.len() && #[trigger] stands_in(
                root.children[i],
                m,
            ) implies stands_in(root, m) by {}
        lemma_python_classes(root, root.children, n);
    } else {
        lemma_script_classes(root, n, lang);
    }
    lemma_scope_named(all, name, false, 0);
    lemma_scope_named(all, name, true, 0);
    let first = scope_named(all, name, false, 0);
    let second = scope_named(all, name, true, 0);
    if first is Some {
        let body = first->0;
        let j = choose|j: int|
            0 <= j < all.len() && (#[trigger] all[j]).name == name && !all[j].secondary
                && all[j].body == Some(body);
        assert(told_in(lang, all[j], root));
        let t = choose|t: Tree| #[trigger] stands_in(root, t) && told_by(lang, all[j], t);
        assert(is_container(lang, all[j].secondary, t, all[j].name, body));
        assert(stands_in(root, t) && is_container(lang, false, t, name, body));
    } else if second is Some {
        let body = second->0;
        let j = choose|j: int|
            0 <= j < all.len() && (#[trigger] all[j]).name == name && all[j].secondary
                && all[j].body == Some(body);
        assert(told_in(lang, all[j], root));
        let t = choose|t: Tree| #[trigger] stands_in(root, t) && told_by(lang, all[j], t);
        assert(is_container(lang, all[j].secondary, t, all[j].name, body));
        assert(stands_in(root, t) && is_container(lang, true, t, name, body));
    }
    assert forall|i: int, structs: bool, body: Tree|
        0 <= i < root.children.len() && #[trigger] is_container(
            lang,
            structs,
            root.children[i],
            name,
            body,
        ) implies (if structs && lang == LangId::Rust {
        second is Some
    } else {
        first is Some
    }) by {
        let c = Scope {
            name,
            body: Some(body),
            once: lang == LangId::Rust,
            secondary: structs && lang == LangId::Rust,
        };
        assert(is_container(lang, c.secondary, root.children[i], name, body));
        assert(all.contains(c));
        let k = choose|k: int| 0 <= k < all.len() && all[k] == c;
        assert(all[k].name == name);
    }
}

/// The members of a container are its children that are members, in their order, each with its
/// name and where it stands.
pub proof fn members_are_listed_in_order(list: Seq<Tree>, t: Tree, name: Tree)
    requires
        is_field(t, "name"@, name),
    ensures
        ({
            let part = Part { name: name.text, start: t.start, end: t.end };
            let n = list.len() as int;
            &&& t.kind != "{"@ && t.kind != "}"@ && t.kind != ";"@ ==> members(
                list.push(t),
                BodyStyle::Script,
                n + 1,
            ) == members(list, BodyStyle::Script, n).push(part)
            &&& t.kind == "{"@ || t.kind == "}"@ || t.kind == ";"@ ==> members(
                list.push(t),
                BodyStyle::Script,
                n + 1,
            ) == members(list, BodyStyle::Script, n)
            &&& t.kind == "function_definition"@ && name.text.len() > 0 ==> members(
                list.push(t),
                BodyStyle::Python,
                n + 1,
            ) == members(list, BodyStyle::Python, n).push(part)
            &&& t.kind == "function_item"@ ==> members(list.push(t), BodyStyle::RustImpl, n + 1)
                == members(list, BodyStyle::RustImpl, n).push(part)
            &&& t.kind != "function_item"@ ==> members(list.push(t), BodyStyle::RustImpl, n + 1)
                == members(list, BodyStyle::RustImpl, n)
            &&& t.kind == "field_declaration"@ ==> members(
                list.push(t),
                BodyStyle::RustStruct,
                n + 1,
            ) == members(list, BodyStyle::RustStruct, n).push(part)
            &&& t.kind != "field_declaration"@ ==> members(
                list.push(t),
                BodyStyle::RustStruct,
                n + 1,
            ) == members(list, BodyStyle::RustStruct, n)
        }),
{
    first_field_is_found(t, "name"@);
    let n = list.len() as int;
    lemma_members_prefix(list, t, BodyStyle::Script, n);
    lemma_members_prefix(list, t, BodyStyle::Python, n);
    lemma_members_prefix(list, t, BodyStyle::RustImpl, n);
    lemma_members_prefix(list, t, BodyStyle::RustStruct, n);
    assert(list.push(t)[n] == t);
}

proof fn lemma_members_prefix(list: Seq<Tree>, t: Tree, style: BodyStyle, n: int)
    requires
        0 <= n <= list.len(),
    ensures
        members(list.push(t), style, n) == members(list, style, n),
    decreases n,
{
    if n > 0 {
        lemma_members_prefix(list, t, style, n - 1);
        assert(list.push(t)[n - 1] == list[n - 1]);
    }
}

} // verus!
