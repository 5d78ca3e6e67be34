//! Decorators of Python functions and classes.
use vstd::prelude::*;

use crate::commands::add_member::field_text;
use crate::commands::refusal::{
    invalid, need, needed, refuse, refused, reject, text_verdict, Refusal, RefusalModel,
};
use crate::commands::target::{read_source_in, source_in, Target};
use crate::edit::{
    bytes, char_range, find_line_start, indent_at, lemma_line_start, lemma_replaced_bytes,
    line_indent, line_start, replace_byte_range, replaced, replacements_change_their_range,
    LINE_FEED,
};
use crate::json::Json;
use crate::lang::{path_lang, LangId};
use crate::syntax::{
    first_field_is_found, is_field, lemma_children, opt_tree, parse, stands_in, syntax_of, trees,
    SyntaxNode, Tree,
};
use crate::text::{join, joined, owned, same, text3, text4, text5, texts};

verus! {

/// A request to add a decorator.
pub struct DecoratorRequest<'a> {
    pub file: &'a str,
    pub target: &'a str,
    pub decorator: &'a str,
    /// Whether the decorator goes behind those that are there.
    pub last: bool,
}

/// The model of a `DecoratorRequest`.
pub ghost struct DecoratorAsk {
    pub file: Seq<char>,
    pub target: Seq<char>,
    pub decorator: Seq<char>,
    pub last: bool,
}

impl<'a> DeepView for DecoratorRequest<'a> {
    type V = DecoratorAsk;

    open spec fn deep_view(&self) -> DecoratorAsk {
        DecoratorAsk {
            file: self.file@,
            target: self.target@,
            decorator: self.decorator@,
            last: self.last,
        }
    }
}

/// The request that the parameters make.
pub open spec fn decorator_ask(params: Json) -> Result<DecoratorAsk, RefusalModel> {
    match (
        needed(params, "add_decorator"@, "file"@),
        needed(params, "add_decorator"@, "target"@),
        needed(params, "add_decorator"@, "decorator"@),
    ) {
        (Err(e), _, _) => Err(e),
        (_, Err(e), _) => Err(e),
        (_, _, Err(e)) => Err(e),
        (Ok(file), Ok(target), Ok(decorator)) => {
            let position = match params.text_field("position"@) {
                Some(s) => s,
                None => "first"@,
            };
            if position == "first"@ {
                Ok(DecoratorAsk { file, target, decorator, last: false })
            } else if position == "last"@ {
                Ok(DecoratorAsk { file, target, decorator, last: true })
            } else {
                Err(
                    invalid(
                        "add_decorator: invalid position '"@ + position
                            + "', expected 'first' or 'last'"@,
                    ),
                )
            }
        },
    }
}

/// The request that the parameters make.
pub fn read_decorator_request(params: &Json) -> (r: Result<DecoratorRequest<'_>, Refusal>)
    ensures
        match (r, decorator_ask(*params)) {
            (Ok(a), Ok(b)) => a.deep_view() == b,
            (Err(e), Err(m)) => e.deep_view() == m,
            _ => false,
        },
{
    let file = match need(params, "add_decorator", "file") {
        Ok(s) => s,
        Err(e) => {
            return Err(e);
        },
    };
    let target = match need(params, "add_decorator", "target") {
        Ok(s) => s,
        Err(e) => {
            return Err(e);
        },
    };
    let decorator = match need(params, "add_decorator", "decorator") {
        Ok(s) => s,
        Err(e) => {
            return Err(e);
        },
    };
    let position = match params.get_text("position") {
        Some(s) => s,
        None => "first",
    };
    if same(position, "first") {
        Ok(DecoratorRequest { file, target, decorator, last: false })
    } else if same(position, "last") {
        Ok(DecoratorRequest { file, target, decorator, last: true })
    } else {
        Err(
            reject(
                text3(
                    "add_decorator: invalid position '",
                    position,
                    "', expected 'first' or 'last'",
                ).as_str(),
            ),
        )
    }
}

/// Where decorators of a definition stand.
pub struct DecoratorTarget {
    /// The indentation of the definition.
    pub indent: String,
    /// The start of the line with the first decorator, or with the definition where it has
    /// none.
    pub first_decorator_start: usize,
    /// The start of the line with the definition.
    pub last_decorator_end: usize,
}

/// The model of a `DecoratorTarget`.
pub ghost struct Spot {
    pub indent: Seq<char>,
    pub first: int,
    pub last: int,
}

impl DeepView for DecoratorTarget {
    type V = Spot;

    open spec fn deep_view(&self) -> Spot {
        Spot {
            indent: self.indent@,
            first: self.first_decorator_start as int,
            last: self.last_decorator_end as int,
        }
    }
}

/// Whether a node defines a function or a class.
pub open spec fn defines(t: Tree) -> bool {
    t.kind == "function_definition"@ || t.kind == "class_definition"@
}

fn is_definition(node: &SyntaxNode) -> (r: bool)
    ensures
        r == defines(node@),
{
    node.is_kind("function_definition") || node.is_kind("class_definition")
}

/// The first function or class among nodes from `from` on.
pub open spec fn inner_def(list: Seq<Tree>, from: int) -> Option<Tree>
    decreases list.len() - from,
{
    if from < 0 || from >= list.len() {
        None
    } else if defines(list[from]) {
        Some(list[from])
    } else {
        inner_def(list, from + 1)
    }
}

/// The function or class that a decorated definition decorates.
pub fn find_inner_def(decorated: &SyntaxNode) -> (r: Option<&SyntaxNode>)
    ensures
        opt_tree(r) == inner_def(decorated@.children, 0),
{
    broadcast use lemma_children;

    let ghost list = decorated@.children;
    let mut i: usize = 0;
    while i < decorated.children.len()
        invariant
            i <= decorated.children.len(),
            list == trees(decorated.children@),
            list == decorated@.children,
            inner_def(list, 0) == inner_def(list, i as int),
        decreases decorated.children.len() - i,
    {
        assert(list[i as int] == decorated.children@[i as int]@);
        if is_definition(&decorated.children[i]) {
            return Some(&decorated.children[i]);
        }
        i = i + 1;
    }
    None
}

/// The function or class that a node defines, decorated or not.
pub open spec fn definition(t: Tree) -> Option<Tree> {
    if defines(t) {
        Some(t)
    } else if t.kind == "decorated_definition"@ {
        inner_def(t.children, 0)
    } else {
        None
    }
}

/// The name of the function or class that a node defines.
pub open spec fn defined_name(t: Tree) -> Option<Seq<char>> {
    match definition(t) {
        Some(d) => field_text(d, "name"@),
        None => None,
    }
}

/// Where decorators of the function or class stand that a node defines.
pub open spec fn spot_of(source: Seq<char>, t: Tree) -> Option<Spot> {
    match definition(t) {
        Some(d) => Some(
            Spot {
                indent: line_indent(source, d.start),
                first: line_start(bytes(source), t.start),
                last: line_start(bytes(source), d.start),
            },
        ),
        None => None,
    }
}

/// The names of functions and classes up to the one that is looked for, and where its
/// decorators stand.
pub ghost struct Sight {
    pub names: Seq<Seq<char>>,
    pub spot: Option<Spot>,
}

/// What comes in sight on the way through the first `n` nodes and all below them.
pub open spec fn sighted(list: Seq<Tree>, n: int, source: Seq<char>, name: Seq<char>) -> Sight
    decreases list, n,
{
    if n <= 0 || n > list.len() {
        Sight { names: Seq::empty(), spot: None }
    } else {
        let before = sighted(list, n - 1, source, name);
        let t = list[n - 1];
        if before.spot is Some {
            before
        } else if defined_name(t) == Some(name) {
            Sight { names: before.names.push(name), spot: spot_of(source, t) }
        } else {
            let inner = sighted(t.children, t.children.len() as int, source, name);
            Sight {
                names: match defined_name(t) {
                    Some(other) => before.names.push(other) + inner.names,
                    None => before.names + inner.names,
                },
                spot: inner.spot,
            }
        }
    }
}

proof fn lemma_sight_stays(list: Seq<Tree>, n: int, m: int, source: Seq<char>, name: Seq<char>)
    requires
        0 <= n <= m <= list.len(),
        sighted(list, n, source, name).spot is Some,
    ensures
        sighted(list, m, source, name) == sighted(list, n, source, name),
    decreases m,
{
    if n < m {
        lemma_sight_stays(list, n, m - 1, source, name);
    }
}

fn read_definition(node: &SyntaxNode) -> (r: Option<&SyntaxNode>)
    ensures
        opt_tree(r) == definition(node@),
{
    if is_definition(node) {
        Some(node)
    } else if node.is_kind("decorated_definition") {
        find_inner_def(node)
    } else {
        None
    }
}

/// Looks for a function or class below a node, and adds the names on the way to a list.
pub fn walk_for_target(
    node: &SyntaxNode,
    source: &str,
    target_name: &str,
    available: &mut Vec<String>,
) -> (r: Option<DecoratorTarget>)
    ensures
        ({
            let s = sighted(node@.children, node@.children.len() as int, source@, target_name@);
            r.deep_view() == s.spot && texts(final(available)@) == texts(old(available)@)
                + s.names
        }),
    decreases node,
{
    broadcast use lemma_children;

    let ghost start = texts(available@);
    let ghost list = node@.children;
    let mut i: usize = 0;
    assert(start + sighted(list, 0, source@, target_name@).names =~= start);
    while i < node.children.len()
        invariant
            i <= node.children.len(),
            start == texts(old(available)@),
            list == trees(node.children@),
            list == node@.children,
            texts(available@) == start + sighted(list, i as int, source@, target_name@).names,
            sighted(list, i as int, source@, target_name@).spot is None,
        decreases node.children.len() - i,
    {
        let child = &node.children[i];
        assert(list[i as int] == child@);
        let ghost seen = sighted(list, i as int, source@, target_name@).names;
        let ghost next = sighted(list, i + 1, source@, target_name@);
        let ghost at_child = texts(available@);
        match read_definition(child) {
            Some(def) => {
                match def.child_by_field("name") {
                    Some(name_node) => {
                        available.push(owned(name_node.text.as_str()));
                        assert(texts(available@) =~= at_child.push(name_node@.text));
                        if same(name_node.text.as_str(), target_name) {
                            proof {
                                lemma_sight_stays(
                                    list,
                                    i + 1,
                                    list.len() as int,
                                    source@,
                                    target_name@,
                                );
                                assert(texts(available@) =~= start + next.names);
                            }
                            let b = source.as_bytes();
                            return Some(
                                DecoratorTarget {
                                    indent: indent_at(source, def.start_byte),
                                    first_decorator_start: find_line_start(b, child.start_byte),
                                    last_decorator_end: find_line_start(b, def.start_byte),
                                },
                            );
                        }
                    },
                    None => {},
                }
            },
            None => {},
        }
        let ghost inner = sighted(
            child@.children,
            child@.children.len() as int,
            source@,
            target_name@,
        );
        let found = walk_for_target(child, source, target_name, available);
        assert(texts(available@) =~= start + next.names);
        assert(next.spot == inner.spot);
        match found {
            Some(info) => {
                proof {
                    lemma_sight_stays(list, i + 1, list.len() as int, source@, target_name@);
                }
                return Some(info);
            },
            None => {},
        }
        i = i + 1;
    }
    None
}

/// Where decorators of a function or class of a file stand, or why there are none.
pub open spec fn target_spot(root: Tree, source: Seq<char>, name: Seq<char>) -> Result<
    Spot,
    Seq<char>,
> {
    let s = sighted(root.children, root.children.len() as int, source, name);
    match s.spot {
        Some(spot) => Ok(spot),
        None => Err(
            if s.names.len() == 0 {
                "add_decorator: target '"@ + name + "' not found (no functions/classes found)"@
            } else {
                "add_decorator: target '"@ + name + "' not found, available: ["@ + joined(
                    s.names,
                    ", "@,
                ) + "]"@
            },
        ),
    }
}

/// Where decorators of a function or class of a file stand.
pub fn find_decorator_target(root: &SyntaxNode, source: &str, target_name: &str) -> (r: Result<
    DecoratorTarget,
    String,
>)
    ensures
        match (r, target_spot(root@, source@, target_name@)) {
            (Ok(a), Ok(b)) => a.deep_view() == b,
            (Err(e), Err(m)) => e@ == m,
            _ => false,
        },
{
    let mut available: Vec<String> = Vec::new();
    let ghost s = sighted(root@.children, root@.children.len() as int, source@, target_name@);
    let found = walk_for_target(root, source, target_name, &mut available);
    assert(texts(available@) =~= s.names);
    assert(texts(available@).len() == available@.len());
    match found {
        Some(info) => Ok(info),
        None => {
            if available.len() == 0 {
                Err(
                    text3(
                        "add_decorator: target '",
                        target_name,
                        "' not found (no functions/classes found)",
                    ),
                )
            } else {
                Err(
                    text5(
                        "add_decorator: target '",
                        target_name,
                        "' not found, available: [",
                        join(&available, ", ").as_str(),
                        "]",
                    ),
                )
            }
        },
    }
}

/// The source of a Python file with a decorator added.
pub open spec fn decorated_in(ask: DecoratorAsk, source: Seq<char>, root: Tree) -> Result<
    Seq<char>,
    RefusalModel,
> {
    match target_spot(root, source, ask.target) {
        Err(m) => Err(refused("target_not_found"@, m)),
        Ok(spot) => {
            let at = if ask.last {
                spot.last
            } else {
                spot.first
            };
            match replaced(source, at, at, spot.indent + "@"@ + ask.decorator + "\n"@) {
                Ok(new_source) => Ok(new_source),
                Err(f) => Err(RefusalModel::Error(f)),
            }
        },
    }
}

/// The source of a Python file with a decorator added.
pub fn decorate_in_tree(ask: &DecoratorRequest<'_>, source: &str, root: &SyntaxNode) -> (r: Result<
    String,
    Refusal,
>)
    ensures
        text_verdict(r) == decorated_in(ask.deep_view(), source@, root@),
{
    match find_decorator_target(root, source, ask.target) {
        Err(m) => Err(refuse("target_not_found", m)),
        Ok(info) => {
            let line = text4(info.indent.as_str(), "@", ask.decorator, "\n");
            let at = if ask.last {
                info.last_decorator_end
            } else {
                info.first_decorator_start
            };
            match replace_byte_range(source, at, at, line.as_str()) {
                Ok(new_source) => Ok(new_source),
                Err(f) => Err(Refusal::Error(f)),
            }
        },
    }
}

/// The text of the Python file that a request names.
pub open spec fn python_source(file: Seq<char>, t: Target) -> Result<Seq<char>, RefusalModel> {
    source_in(
        "add_decorator"@,
        file,
        t,
        LangId::Python,
        ": unsupported file type"@,
        ": only Python files are supported"@,
    )
}

/// What a request makes of the file that it names.
pub open spec fn decorator_outcome(params: Json, t: Target) -> Result<Seq<char>, RefusalModel> {
    match decorator_ask(params) {
        Err(e) => Err(e),
        Ok(ask) => match python_source(ask.file, t) {
            Err(e) => Err(e),
            Ok(source) => match syntax_of(source, LangId::Python) {
                None => Err(
                    refused("parse_error"@, "add_decorator"@ + ": parse failed for "@ + ask.file),
                ),
                Some(root) => decorated_in(ask, source, root),
            },
        },
    }
}

/// What a request makes of the file that it names.
pub fn handle_add_decorator(params: &Json, target: &Target) -> (r: Result<String, Refusal>)
    ensures
        text_verdict(r) == decorator_outcome(*params, *target),
{
    let ask = match read_decorator_request(params) {
        Ok(a) => a,
        Err(e) => {
            return Err(e);
        },
    };
    let source = match read_source_in(
        "add_decorator",
        ask.file,
        target,
        LangId::Python,
        ": unsupported file type",
        ": only Python files are supported",
    ) {
        Ok(s) => s,
        Err(e) => {
            return Err(e);
        },
    };
    match parse(source, LangId::Python) {
        None => Err(
            refuse("parse_error", text3("add_decorator", ": parse failed for ", ask.file)),
        ),
        Some(root) => decorate_in_tree(&ask, source, &root),
    }
}

proof fn lemma_spot_lines(list: Seq<Tree>, n: int, source: Seq<char>, name: Seq<char>)
    ensures
        match sighted(list, n, source, name).spot {
            Some(spot) => exists|a: int, d: int|
                spot.first == #[trigger] line_start(bytes(source), a) && spot.last
                    == #[trigger] line_start(bytes(source), d) && spot.indent == line_indent(
                    source,
                    d,
                ),
            None => true,
        },
    decreases list, n,
{
    if 0 < n <= list.len() {
        lemma_spot_lines(list, n - 1, source, name);
        let t = list[n - 1];
        lemma_spot_lines(t.children, t.children.len() as int, source, name);
        if defined_name(t) == Some(name) {
            let d = definition(t)->0;
            let spot = spot_of(source, t)->0;
            assert(spot.first == line_start(bytes(source), t.start));
            assert(spot.last == line_start(bytes(source), d.start));
        }
    }
}

/// A decorator is put at the start of a line, as a line of its own, and nothing else of the
/// text changes.
pub proof fn decorator_is_a_line_of_its_own(ask: DecoratorAsk, source: Seq<char>, root: Tree)
    requires
        decorated_in(ask, source, root) is Ok,
    ensures
        exists|at: int, indent: Seq<char>|
            #![trigger bytes(source).subrange(0, at), bytes(indent)]
            (at == 0 || bytes(source)[at - 1] == LINE_FEED) && bytes(
                decorated_in(ask, source, root)->Ok_0,
            ) == bytes(source).subrange(0, at) + bytes(indent + "@"@ + ask.decorator + "\n"@)
                + bytes(source).subrange(at, bytes(source).len() as int),
{
    let list = root.children;
    let spot = target_spot(root, source, ask.target)->Ok_0;
    lemma_spot_lines(list, list.len() as int, source, ask.target);
    let (a, d) = choose|a: int, d: int|
        spot.first == #[trigger] line_start(bytes(source), a) && spot.last
            == #[trigger] line_start(bytes(source), d) && spot.indent == line_indent(source, d);
    lemma_line_start(bytes(source), a);
    lemma_line_start(bytes(source), d);
    let at = if ask.last {
        spot.last
    } else {
        spot.first
    };
    lemma_replaced_bytes(source, at, at, spot.indent + "@"@ + ask.decorator + "\n"@);
    let lead = bytes(spot.indent);
    let front = bytes(source).subrange(0, at);
}

/// Whether a node is a function or class with a name.
pub open spec fn is_named(d: Tree, name: Seq<char>) -> bool {
    &&& d.kind == "function_definition"@ || d.kind == "class_definition"@
    &&& exists|c: Tree| #[trigger] is_field(d, "name"@, c) && c.text == name
}

/// Whether a node holds a function or class with a name: it is one, or it is a decorated
/// definition whose first function or class it is.
pub open spec fn holds_named(t: Tree, d: Tree, name: Seq<char>) -> bool {
    is_named(d, name) && (t == d || (t.kind == "decorated_definition"@ && exists|k: int|
        0 <= k < t.children.len() && #[trigger] t.children[k] == d && forall|j: int|
            0 <= j < k ==> (#[trigger] t.children[j]).kind != "function_definition"@
                && t.children[j].kind != "class_definition"@))
}

proof fn lemma_definition_kinds()
    ensures
        "function_definition"@ != "decorated_definition"@,
        "class_definition"@ != "decorated_definition"@,
{
    reveal_strlit("function_definition");
    reveal_strlit("class_definition");
    reveal_strlit("decorated_definition");
    assert("function_definition"@.len() == 19);
    assert("class_definition"@.len() == 16);
    assert("decorated_definition"@.len() == 20);
}

proof fn lemma_inner_def(list: Seq<Tree>, from: int)
    requires
        0 <= from <= list.len(),
        forall|j: int| 0 <= j < from ==> !defines(#[trigger] list[j]),
    ensures
        match inner_def(list, from) {
            Some(d) => exists|k: int|
                0 <= k < list.len() && #[trigger] list[k] == d && defines(d) && forall|j: int|
                    0 <= j < k ==> !defines(#[trigger] list[j]),
            None => forall|j: int| 0 <= j < list.len() ==> !defines(#[trigger] list[j]),
        },
    decreases list.len() - from,
{
    if from < list.len() && !defines(list[from]) {
        lemma_inner_def(list, from + 1);
    } else if from < list.len() {
        assert(list[from] == list[from]);
    }
}

proof fn lemma_holds_named(t: Tree, d: Tree, name: Seq<char>)
    ensures
        holds_named(t, d, name) <==> definition(t) == Some(d) && field_text(d, "name"@) == Some(
            name,
        ),
{
    lemma_definition_kinds();
    first_field_is_found(d, "name"@);
    lemma_inner_def(t.children, 0);
    if holds_named(t, d, name) && t != d {
        let k = choose|k: int|
            0 <= k < t.children.len() && #[trigger] t.children[k] == d && forall|j: int|
                0 <= j < k ==> (#[trigger] t.children[j]).kind != "function_definition"@
                    && t.children[j].kind != "class_definition"@;
        assert(defines(t.children[k]));
        let e = definition(t)->0;
        let m = choose|m: int|
            0 <= m < t.children.len() && #[trigger] t.children[m] == e && defines(e) && forall|
                j: int,
            |
                0 <= j < m ==> !defines(#[trigger] t.children[j]);
        assert(!(k < m));
        assert(!(m < k)) by {
            if m < k {
                assert(defines(t.children[m]));
            }
        }
    }
}

proof fn lemma_sighted(list: Seq<Tree>, n: int, source: Seq<char>, name: Seq<char>)
    requires
        0 <= n <= list.len(),
    ensures
        match sighted(list, n, source, name).spot {
            Some(spot) => exists|i: int, t: Tree, d: Tree|
                0 <= i < n && #[trigger] stands_in(list[i], t) && #[trigger] holds_named(
                    t,
                    d,
                    name,
                ) && spot == (Spot {
                    indent: line_indent(source, d.start),
                    first: line_start(bytes(source), t.start),
                    last: line_start(bytes(source), d.start),
                }),
            None => forall|i: int, t: Tree, d: Tree|
                0 <= i < n && #[trigger] stands_in(list[i], t) ==> !#[trigger] holds_named(
                    t,
                    d,
                    name,
                ),
        },
    decreases list, n,
{
    if n > 0 {
        let before = sighted(list, n - 1, source, name);
        let t = list[n - 1];
        lemma_sighted(list, n - 1, source, name);
        if before.spot is None {
            if defined_name(t) == Some(name) {
                let d = definition(t)->0;
                lemma_holds_named(t, d, name);
                assert(stands_in(list[n - 1], t) && holds_named(t, d, name));
            } else {
                lemma_sighted(t.children, t.children.len() as int, source, name);
                match sighted(list, n, source, name).spot {
                    Some(spot) => {
                        let (i, u, d) = choose|i: int, u: Tree, d: Tree|
                            0 <= i < t.children.len() && #[trigger] stands_in(t.children[i], u)
                                && #[trigger] holds_named(u, d, name) && spot == (Spot {
                                indent: line_indent(source, d.start),
                                first: line_start(bytes(source), u.start),
                                last: line_start(bytes(source), d.start),
                            });
                        assert(stands_in(list[n - 1], u) && holds_named(u, d, name));
                    },
                    None => {
                        assert forall|i: int, u: Tree, d: Tree|
                            0 <= i < n && #[trigger] stands_in(
                                list[i],
                                u,
                            ) implies !#[trigger] holds_named(u, d, name) by {
                            if i == n - 1 {
                                if u == t {
                                    lemma_holds_named(t, d, name);
                                } else {
                                    let k = choose|k: int|
                                        0 <= k < t.children.len() && stands_in(
                                            #[trigger] t.children[k],
                                            u,
                                        );
                                    assert(stands_in(t.children[k], u));
                                }
                            }
                        }
                    },
                }
            }
        }
    }
}

/// A decorator is put before a function or class that has the name that was asked for: first,
/// before the decorators that it has, and last, right before the definition itself, with the
/// indentation of the definition. Where there is none with the name, the request is refused.
pub proof fn decorators_are_put_before_their_target(
    ask: DecoratorAsk,
    source: Seq<char>,
    root: Tree,
)
    ensures
        match decorated_in(ask, source, root) {
            Ok(new_source) => exists|i: int, t: Tree, d: Tree|
                0 <= i < root.children.len() && #[trigger] stands_in(root.children[i], t)
                    && #[trigger] holds_named(t, d, ask.target) && ({
                    let b = bytes(source);
                    let at = line_start(
                        b,
                        if ask.last {
                            d.start
                        } else {
                            t.start
                        },
                    );
                    bytes(new_source) == b.subrange(0, at) + bytes(
                        line_indent(source, d.start) + "@"@ + ask.decorator + "\n"@,
                    ) + b.subrange(at, b.len() as int)
                }),
            Err(_) => (forall|i: int, t: Tree, d: Tree|
                0 <= i < root.children.len() && #[trigger] stands_in(root.children[i], t)
                    ==> !#[trigger] holds_named(t, d, ask.target)) || exists|
                i: int,
                t: Tree,
                d: Tree,
            |
                0 <= i < root.children.len() && #[trigger] stands_in(root.children[i], t)
                    && #[trigger] holds_named(t, d, ask.target) && ({
                    let at = line_start(
                        bytes(source),
                        if ask.last {
                            d.start
                        } else {
                            t.start
                        },
                    );
                    !char_range(source, at, at)
                }),
        },
{
    lemma_sighted(root.children, root.children.len() as int, source, ask.target);
    match target_spot(root, source, ask.target) {
        Ok(spot) => {
            let at = if ask.last {
                spot.last
            } else {
                spot.first
            };
            replacements_change_their_range(
                source,
                at,
                at,
                spot.indent + "@"@ + ask.decorator + "\n"@,
            );
        },
        Err(_) => {},
    }
}

proof fn lemma_spot_stays(list: Seq<Tree>, k: int, n: int, source: Seq<char>, name: Seq<char>)
    requires
        0 <= k <= n <= list.len(),
        sighted(list, k, source, name).spot is Some,
    ensures
        sighted(list, n, source, name).spot == sighted(list, k, source, name).spot,
    decreases n,
{
    if k < n {
        lemma_spot_stays(list, k, n - 1, source, name);
    }
}

/// Of several with the name the first of the file is meant.
pub proof fn first_target_is_decorated(
    root: Tree,
    source: Seq<char>,
    name: Seq<char>,
    k: int,
    d: Tree,
)
    requires
        0 <= k < root.children.len(),
        holds_named(root.children[k], d, name),
        forall|i: int, t: Tree, e: Tree|
            0 <= i < k && #[trigger] stands_in(root.children[i], t) ==> !#[trigger] holds_named(
                t,
                e,
                name,
            ),
    ensures
        target_spot(root, source, name) == Ok::<Spot, Seq<char>>(
            Spot {
                indent: line_indent(source, d.start),
                first: line_start(bytes(source), root.children[k].start),
                last: line_start(bytes(source), d.start),
            },
        ),
{
    lemma_sighted(root.children, k, source, name);
    lemma_holds_named(root.children[k], d, name);
    lemma_spot_stays(root.children, k + 1, root.children.len() as int, source, name);
}

/// Where nothing else is asked for, and where `first` is, the decorator goes first; where `last`
/// is, it goes last. Any other position is refused.
pub proof fn decorators_go_first_or_last(
    params: Json,
    file: Seq<char>,
    target: Seq<char>,
    decorator: Seq<char>,
)
    requires
        params.text_field("file"@) == Some(file),
        params.text_field("target"@) == Some(target),
        params.text_field("decorator"@) == Some(decorator),
    ensures
        params.text_field("position"@) is None || params.text_field("position"@) == Some(
            "first"@,
        ) ==> decorator_ask(params) == Ok::<DecoratorAsk, RefusalModel>(
            DecoratorAsk { file, target, decorator, last: false },
        ),
        params.text_field("position"@) == Some("last"@) ==> decorator_ask(params) == Ok::<
            DecoratorAsk,
            RefusalModel,
        >(DecoratorAsk { file, target, decorator, last: true }),
        params.text_field("position"@) is Some && params.text_field("position"@)->0 != "first"@
            && params.text_field("position"@)->0 != "last"@ ==> decorator_ask(params) is Err,
{
    reveal_strlit("first");
    reveal_strlit("last");
    assert("first"@.len() == 5);
    assert("last"@.len() == 4);
}

/// A request changes the Python file that it names: as the file's tree says where there is one, and
/// not at all where the file is no Python file or has no tree.
pub proof fn decorators_are_for_python(params: Json, t: Target)
    ensures
        match decorator_outcome(params, t) {
            Ok(new_source) => decorator_ask(params) is Ok && ({
                let ask = decorator_ask(params)->Ok_0;
                &&& t.exists && path_lang(ask.file) == Some(LangId::Python) && t.content is Ok
                &&& syntax_of((t.content->Ok_0)@, LangId::Python) is Some
                &&& decorated_in(
                    ask,
                    (t.content->Ok_0)@,
                    syntax_of((t.content->Ok_0)@, LangId::Python)->0,
                ) == Ok::<Seq<char>, RefusalModel>(new_source)
            }),
            Err(_) => decorator_ask(params) is Err || ({
                let ask = decorator_ask(params)->Ok_0;
                ||| !t.exists || path_lang(ask.file) != Some(LangId::Python) || t.content is Err
                ||| syntax_of((t.content->Ok_0)@, LangId::Python) is None
                ||| decorated_in(
                    ask,
                    (t.content->Ok_0)@,
                    syntax_of((t.content->Ok_0)@, LangId::Python)->0,
                ) is Err
            }),
        },
{
}

} // verus!
