//! Syntax trees as plain data, and the parser that makes them.
use vstd::prelude::*;

use crate::lang::LangId;
use crate::text::{same, texts};

verus! {

/// A node of a syntax tree.
pub struct SyntaxNode {
    /// The grammar's name for the node.
    pub kind: String,
    /// The name of the field that the node has in its parent.
    pub field: Option<String>,
    /// Whether the grammar names the node, as opposed to punctuation.
    pub named: bool,
    /// The byte offset at which the node starts.
    pub start_byte: usize,
    /// The byte offset behind the node.
    pub end_byte: usize,
    /// The row, counted from zero, at which the node starts.
    pub start_row: u32,
    /// The source text of the node.
    pub text: String,
    /// The children, punctuation among them, in order.
    pub children: Vec<SyntaxNode>,
}

/// The mathematical tree of a `SyntaxNode`.
#[verifier::ext_equal]
pub ghost struct Tree {
    pub kind: Seq<char>,
    pub field: Option<Seq<char>>,
    pub named: bool,
    pub start: int,
    pub end: int,
    pub row: int,
    pub text: Seq<char>,
    pub children: Seq<Tree>,
}

/// The view of an optional string.
pub open spec fn opt_text(s: Option<String>) -> Option<Seq<char>> {
    match s {
        Some(t) => Some(t@),
        None => None,
    }
}

impl SyntaxNode {
    /// The tree that the node stands for.
    pub open spec fn tree(self) -> Tree
        decreases self,
    {
        Tree {
            kind: self.kind@,
            field: opt_text(self.field),
            named: self.named,
            start: self.start_byte as int,
            end: self.end_byte as int,
            row: self.start_row as int,
            text: self.text@,
            children: Seq::new(
                self.children@.len(),
                |i: int|
                    if 0 <= i < self.children@.len() {
                        self.children@[i].tree()
                    } else {
                        arbitrary()
                    },
            ),
        }
    }
}

impl View for SyntaxNode {
    type V = Tree;

    open spec fn view(&self) -> Tree {
        self.tree()
    }
}

/// The trees of a list of nodes.
pub open spec fn trees(v: Seq<SyntaxNode>) -> Seq<Tree> {
    v.map_values(|n: SyntaxNode| n@)
}

/// The children of a node's tree are the trees of the node's children.
pub broadcast proof fn lemma_children(n: SyntaxNode)
    ensures
        (#[trigger] n@).children == trees(n.children@),
{
    assert(n@.children =~= trees(n.children@));
}

/// The line, counted from one, of a row counted from zero.
pub open spec fn line_number(row: int) -> int {
    if row >= u32::MAX {
        u32::MAX as int
    } else {
        row + 1
    }
}

/// The line, counted from one, of a row counted from zero.
pub fn line_of(row: u32) -> (r: u32)
    ensures
        r == line_number(row as int),
{
    if row == u32::MAX {
        row
    } else {
        row + 1
    }
}

/// The first of `list` at or after `from` whose kind is `kind`.
pub open spec fn first_of_kind(list: Seq<Tree>, kind: Seq<char>, from: int) -> Option<Tree>
    decreases list.len() - from,
{
    if from < 0 || from >= list.len() {
        None
    } else if list[from].kind == kind {
        Some(list[from])
    } else {
        first_of_kind(list, kind, from + 1)
    }
}

/// The first of `list` at or after `from` whose field is `field`.
pub open spec fn first_of_field(list: Seq<Tree>, field: Seq<char>, from: int) -> Option<Tree>
    decreases list.len() - from,
{
    if from < 0 || from >= list.len() {
        None
    } else if list[from].field == Some(field) {
        Some(list[from])
    } else {
        first_of_field(list, field, from + 1)
    }
}

impl Tree {
    /// The first direct child of a kind.
    pub open spec fn child_of_kind(self, kind: Seq<char>) -> Option<Tree> {
        first_of_kind(self.children, kind, 0)
    }

    /// The first direct child with a field name.
    pub open spec fn child_of_field(self, field: Seq<char>) -> Option<Tree> {
        first_of_field(self.children, field, 0)
    }

    /// The first named child.
    pub open spec fn first_named(self) -> Option<Tree> {
        first_named_from(self.children, 0)
    }
}

/// Whether a node is the first child of another with a field name.
pub open spec fn is_field(t: Tree, name: Seq<char>, c: Tree) -> bool {
    exists|i: int|
        0 <= i < t.children.len() && #[trigger] t.children[i] == c && c.field == Some(name)
            && forall|k: int| 0 <= k < i ==> (#[trigger] t.children[k]).field != Some(name)
}

/// Whether a node has no child with a field name.
pub open spec fn lacks_field(t: Tree, name: Seq<char>) -> bool {
    forall|k: int| 0 <= k < t.children.len() ==> (#[trigger] t.children[k]).field != Some(name)
}

/// Whether a node is the first child of another that has a kind.
pub open spec fn is_first_kind(t: Tree, kind: Seq<char>, c: Tree) -> bool {
    exists|i: int|
        0 <= i < t.children.len() && #[trigger] t.children[i] == c && c.kind == kind
            && forall|k: int| 0 <= k < i ==> (#[trigger] t.children[k]).kind != kind
}

/// Whether a node has no child of a kind.
pub open spec fn lacks_kind(t: Tree, kind: Seq<char>) -> bool {
    forall|k: int| 0 <= k < t.children.len() ==> (#[trigger] t.children[k]).kind != kind
}

proof fn lemma_first_of_field(list: Seq<Tree>, name: Seq<char>, from: int, i: int)
    requires
        0 <= from <= i <= list.len(),
        forall|k: int| from <= k < i ==> (#[trigger] list[k]).field != Some(name),
        i < list.len() ==> list[i].field == Some(name),
    ensures
        first_of_field(list, name, from) == (if i < list.len() {
            Some(list[i])
        } else {
            None
        }),
    decreases i - from,
{
    if from < i {
        lemma_first_of_field(list, name, from + 1, i);
    }
}

proof fn lemma_first_of_kind(list: Seq<Tree>, kind: Seq<char>, from: int, i: int)
    requires
        0 <= from <= i <= list.len(),
        forall|k: int| from <= k < i ==> (#[trigger] list[k]).kind != kind,
        i < list.len() ==> list[i].kind == kind,
    ensures
        first_of_kind(list, kind, from) == (if i < list.len() {
            Some(list[i])
        } else {
            None
        }),
    decreases i - from,
{
    if from < i {
        lemma_first_of_kind(list, kind, from + 1, i);
    }
}

spec fn least_field(list: Seq<Tree>, name: Seq<char>, from: int) -> int
    decreases list.len() - from,
{
    if from < 0 || from >= list.len() || list[from].field == Some(name) {
        from
    } else {
        least_field(list, name, from + 1)
    }
}

proof fn lemma_least_field(list: Seq<Tree>, name: Seq<char>, from: int)
    requires
        0 <= from <= list.len(),
    ensures
        from <= least_field(list, name, from) <= list.len(),
        forall|k: int|
            from <= k < least_field(list, name, from) ==> (#[trigger] list[k]).field != Some(name),
        least_field(list, name, from) < list.len() ==> list[least_field(list, name, from)].field
            == Some(name),
    decreases list.len() - from,
{
    if from < list.len() && list[from].field != Some(name) {
        lemma_least_field(list, name, from + 1);
    }
}

spec fn least_kind(list: Seq<Tree>, kind: Seq<char>, from: int) -> int
    decreases list.len() - from,
{
    if from < 0 || from >= list.len() || list[from].kind == kind {
        from
    } else {
        least_kind(list, kind, from + 1)
    }
}

proof fn lemma_least_kind(list: Seq<Tree>, kind: Seq<char>, from: int)
    requires
        0 <= from <= list.len(),
    ensures
        from <= least_kind(list, kind, from) <= list.len(),
        forall|k: int|
            from <= k < least_kind(list, kind, from) ==> (#[trigger] list[k]).kind != kind,
        least_kind(list, kind, from) < list.len() ==> list[least_kind(list, kind, from)].kind
            == kind,
    decreases list.len() - from,
{
    if from < list.len() && list[from].kind != kind {
        lemma_least_kind(list, kind, from + 1);
    }
}

/// The child that is found by a field name is the first one with it, and one is found wherever
/// there is one.
pub proof fn first_field_is_found(t: Tree, name: Seq<char>)
    ensures
        forall|c: Tree| #[trigger] is_field(t, name, c) ==> t.child_of_field(name) == Some(c),
        lacks_field(t, name) ==> t.child_of_field(name) is None,
        match t.child_of_field(name) {
            Some(c) => is_field(t, name, c),
            None => lacks_field(t, name),
        },
{
    let n = least_field(t.children, name, 0);
    lemma_least_field(t.children, name, 0);
    lemma_first_of_field(t.children, name, 0, n);
    if n < t.children.len() {
        assert(is_field(t, name, t.children[n]));
    }
    assert forall|c: Tree| #[trigger] is_field(t, name, c) implies t.child_of_field(name) == Some(
        c,
    ) by {
        let i = choose|i: int|
            0 <= i < t.children.len() && #[trigger] t.children[i] == c && c.field == Some(name)
                && forall|k: int| 0 <= k < i ==> (#[trigger] t.children[k]).field != Some(name);
        lemma_first_of_field(t.children, name, 0, i);
    }
    if lacks_field(t, name) {
        lemma_first_of_field(t.children, name, 0, t.children.len() as int);
    }
}

/// The child that is found by a kind is the first one of it, and one is found wherever there is
/// one.
pub proof fn first_of_a_kind_is_found(t: Tree, kind: Seq<char>)
    ensures
        forall|c: Tree| #[trigger] is_first_kind(t, kind, c) ==> t.child_of_kind(kind) == Some(c),
        lacks_kind(t, kind) ==> t.child_of_kind(kind) is None,
        match t.child_of_kind(kind) {
            Some(c) => is_first_kind(t, kind, c),
            None => lacks_kind(t, kind),
        },
{
    let n = least_kind(t.children, kind, 0);
    lemma_least_kind(t.children, kind, 0);
    lemma_first_of_kind(t.children, kind, 0, n);
    if n < t.children.len() {
        assert(is_first_kind(t, kind, t.children[n]));
    }
    assert forall|c: Tree| #[trigger] is_first_kind(t, kind, c) implies t.child_of_kind(kind)
        == Some(c) by {
        let i = choose|i: int|
            0 <= i < t.children.len() && #[trigger] t.children[i] == c && c.kind == kind
                && forall|k: int| 0 <= k < i ==> (#[trigger] t.children[k]).kind != kind;
        lemma_first_of_kind(t.children, kind, 0, i);
    }
    if lacks_kind(t, kind) {
        lemma_first_of_kind(t.children, kind, 0, t.children.len() as int);
    }
}

/// The first named node of `list` at or after `from`.
pub open spec fn first_named_from(list: Seq<Tree>, from: int) -> Option<Tree>
    decreases list.len() - from,
{
    if from < 0 || from >= list.len() {
        None
    } else if list[from].named {
        Some(list[from])
    } else {
        first_named_from(list, from + 1)
    }
}

/// The view of an optional node.
pub open spec fn opt_tree(n: Option<&SyntaxNode>) -> Option<Tree> {
    match n {
        Some(t) => Some(t@),
        None => None,
    }
}

impl SyntaxNode {
    /// Whether the node's kind is `kind`.
    pub fn is_kind(&self, kind: &str) -> (r: bool)
        ensures
            r == (self@.kind == kind@),
    {
        same(self.kind.as_str(), kind)
    }

    /// The first direct child of a kind.
    pub fn child_by_kind(&self, kind: &str) -> (r: Option<&SyntaxNode>)
        ensures
            opt_tree(r) == self@.child_of_kind(kind@),
            r is Some ==> exists|i: int|
                0 <= i < self.children@.len() && *(r->0) == #[trigger] self.children@[i],
    {
        broadcast use lemma_children;

        let mut i: usize = 0;
        while i < self.children.len()
            invariant
                i <= self.children.len(),
                self@.children == trees(self.children@),
                self@.child_of_kind(kind@) == first_of_kind(self@.children, kind@, i as int),
            decreases self.children.len() - i,
        {
            if self.children[i].is_kind(kind) {
                assert(self@.children[i as int] == self.children@[i as int]@);
                return Some(&self.children[i]);
            }
            assert(self@.children[i as int] == self.children@[i as int]@);
            i = i + 1;
        }
        None
    }

    /// The first direct child with a field name.
    pub fn child_by_field(&self, field: &str) -> (r: Option<&SyntaxNode>)
        ensures
            opt_tree(r) == self@.child_of_field(field@),
            r is Some ==> exists|i: int|
                0 <= i < self.children@.len() && *(r->0) == #[trigger] self.children@[i],
    {
        broadcast use lemma_children;

        let mut i: usize = 0;
        while i < self.children.len()
            invariant
                i <= self.children.len(),
                self@.children == trees(self.children@),
                self@.child_of_field(field@) == first_of_field(self@.children, field@, i as int),
            decreases self.children.len() - i,
        {
            assert(self@.children[i as int] == self.children@[i as int]@);
            let found = match &self.children[i].field {
                Some(name) => same(name.as_str(), field),
                None => false,
            };
            if found {
                return Some(&self.children[i]);
            }
            i = i + 1;
        }
        None
    }

    /// The first named child.
    pub fn first_named_child(&self) -> (r: Option<&SyntaxNode>)
        ensures
            opt_tree(r) == self@.first_named(),
            r is Some ==> exists|i: int|
                0 <= i < self.children@.len() && *(r->0) == #[trigger] self.children@[i],
    {
        broadcast use lemma_children;

        let mut i: usize = 0;
        while i < self.children.len()
            invariant
                i <= self.children.len(),
                self@.children == trees(self.children@),
                self@.first_named() == first_named_from(self@.children, i as int),
            decreases self.children.len() - i,
        {
            assert(self@.children[i as int] == self.children@[i as int]@);
            if self.children[i].named {
                return Some(&self.children[i]);
            }
            i = i + 1;
        }
        None
    }
}

/// The trees of a list of references to nodes.
pub open spec fn ref_trees(v: Seq<&SyntaxNode>) -> Seq<Tree> {
    v.map_values(|n: &SyntaxNode| n@)
}

/// Those of `list` that are of a kind and have a child of another.
pub open spec fn holding(list: Seq<Tree>, kind: Seq<char>, inner: Seq<char>) -> Seq<Tree>
    decreases list.len(),
{
    if list.len() == 0 {
        Seq::empty()
    } else {
        let rest = holding(list.drop_last(), kind, inner);
        let t = list.last();
        if t.kind == kind && t.child_of_kind(inner) is Some {
            rest.push(t)
        } else {
            rest
        }
    }
}

/// Adds the children of a node that are of a kind and have a child of another.
pub fn add_children_holding<'a>(
    node: &'a SyntaxNode,
    kind: &str,
    inner: &str,
    out: &mut Vec<&'a SyntaxNode>,
)
    ensures
        ref_trees(final(out)@) == ref_trees(old(out)@) + holding(node@.children, kind@, inner@),
{
    broadcast use lemma_children;

    let ghost start = ref_trees(out@);
    let ghost all = node@.children;
    let mut i: usize = 0;
    assert(start + holding(all.take(0), kind@, inner@) =~= start);
    while i < node.children.len()
        invariant
            i <= node.children.len(),
            all == trees(node.children@),
            ref_trees(out@) == start + holding(all.take(i as int), kind@, inner@),
        decreases node.children.len() - i,
    {
        let child = &node.children[i];
        assert(all[i as int] == child@);
        assert(all.take(i + 1).drop_last() =~= all.take(i as int));
        if child.is_kind(kind) && child.child_by_kind(inner).is_some() {
            let ghost before = ref_trees(out@);
            out.push(child);
            assert(ref_trees(out@) =~= before.push(child@));
            assert(ref_trees(out@) =~= start + holding(all.take(i + 1), kind@, inner@));
        }
        i = i + 1;
    }
    assert(all.take(i as int) =~= all);
}

/// The text of the first child of a kind.
pub open spec fn text_of_child(t: Tree, kind: Seq<char>) -> Seq<char> {
    match t.child_of_kind(kind) {
        Some(c) => c.text,
        None => Seq::empty(),
    }
}

/// The texts of the first children of a kind.
pub open spec fn texts_of_children(list: Seq<Tree>, kind: Seq<char>) -> Seq<Seq<char>> {
    list.map_values(|t: Tree| text_of_child(t, kind))
}

/// The texts of the first children of a kind.
pub fn child_texts(list: &Vec<&SyntaxNode>, kind: &str) -> (r: Vec<String>)
    ensures
        texts(r@) == texts_of_children(ref_trees(list@), kind@),
{
    let mut out: Vec<String> = Vec::new();
    let mut i: usize = 0;
    while i < list.len()
        invariant
            i <= list.len(),
            out@.len() == i,
            forall|k: int| 0 <= k < i ==> (#[trigger] out@[k])@ == text_of_child(list@[k]@, kind@),
        decreases list.len() - i,
    {
        match list[i].child_by_kind(kind) {
            Some(c) => {
                out.push(c.text.clone());
            },
            None => {
                let none = String::new();
                assert(none@ =~= Seq::<char>::empty());
                out.push(none);
            },
        }
        i = i + 1;
    }
    assert(texts(out@) =~= texts_of_children(ref_trees(list@), kind@));
    out
}

/// Whether a node is a tree's root or stands somewhere below it.
pub open spec fn stands_in(t: Tree, n: Tree) -> bool
    decreases t,
{
    n == t || exists|i: int|
        0 <= i < t.children.len() && stands_in(#[trigger] t.children[i], n)
}

/// Whether the nodes of a tree lie within their parents, and children one behind the other.
pub open spec fn well_nested(t: Tree) -> bool
    decreases t,
{
    &&& t.start <= t.end
    &&& forall|i: int|
        0 <= i < t.children.len() ==> t.start <= (#[trigger] t.children[i]).start
            && t.children[i].end <= t.end && well_nested(t.children[i])
    &&& forall|i: int, j: int|
        0 <= i < j < t.children.len() ==> (#[trigger] t.children[i]).end <= (
        #[trigger] t.children[j]).start
}

/// What stands in a well nested tree lies within it.
pub proof fn lemma_stands_within(t: Tree, n: Tree)
    requires
        well_nested(t),
        stands_in(t, n),
    ensures
        t.start <= n.start,
        n.end <= t.end,
    decreases t,
{
    if n != t {
        let i = choose|i: int| 0 <= i < t.children.len() && stands_in(#[trigger] t.children[i], n);
        lemma_stands_within(t.children[i], n);
    }
}

/// The declaration of `tree_sitter::Node`.
#[verifier::external_type_specification]
#[verifier::external_body]
pub struct ExNode<'tree>(tree_sitter::Node<'tree>);

/// The syntax tree that tree-sitter's grammar for a language gives a source text,
/// or `None` where there is no grammar for the language or no tree.
pub uninterp spec fn syntax_of(source: Seq<char>, lang: LangId) -> Option<Tree>;

/// Copies a `tree_sitter::Node`, read through a `tree_sitter::TreeCursor`, and all
/// nodes below it into plain data. Nothing is claimed of the copy by itself.
#[verifier::external_body]
fn copy_node(node: tree_sitter::Node<'_>, field: Option<&str>, source: &str) -> SyntaxNode {
    let mut children = Vec::new();
    let mut cursor = node.walk();
    let mut more = cursor.goto_first_child();
    while more {
        children.push(copy_node(cursor.node(), cursor.field_name(), source));
        more = cursor.goto_next_sibling();
    }
    let bytes = &source.as_bytes()[node.start_byte()..node.end_byte()];
    let text = String::from_utf8_lossy(bytes).into_owned();
    let (kind, field) = (node.kind().to_string(), field.map(|f| f.to_string()));
    let start_row = node.start_position().row as u32;
    let (named, start_byte, end_byte) = (node.is_named(), node.start_byte(), node.end_byte());
    SyntaxNode { kind, field, named, start_byte, end_byte, start_row, text, children }
}

/// The grammar of a language, from the grammar crates; nothing is claimed of it.
#[verifier::external_body]
fn grammar_of(lang: LangId) -> Option<tree_sitter::Language> {
    match lang {
        LangId::TypeScript => Some(tree_sitter_typescript::LANGUAGE_TYPESCRIPT.into()),
        LangId::Tsx => Some(tree_sitter_typescript::LANGUAGE_TSX.into()),
        LangId::JavaScript => Some(tree_sitter_javascript::LANGUAGE.into()),
        LangId::Python => Some(tree_sitter_python::LANGUAGE.into()),
        LangId::Rust => Some(tree_sitter_rust::LANGUAGE.into()),
        LangId::Go => Some(tree_sitter_go::LANGUAGE.into()),
        LangId::C => Some(tree_sitter_c::LANGUAGE.into()),
        LangId::Cpp => Some(tree_sitter_cpp::LANGUAGE.into()),
        LangId::Zig => Some(tree_sitter_zig::LANGUAGE.into()),
        LangId::CSharp => Some(tree_sitter_c_sharp::LANGUAGE.into()),
        LangId::Bash => Some(tree_sitter_bash::LANGUAGE.into()),
        LangId::Html | LangId::Markdown => None,
    }
}

/// Calls `tree_sitter::Parser::parse` with the grammar of a language. The result is a
/// function of the source text and the language alone, named `syntax_of`.
#[verifier::external_body]
pub(crate) fn parse(source: &str, lang: LangId) -> (r: Option<SyntaxNode>)
    ensures
        match r {
            Some(n) => syntax_of(source@, lang) == Some(n@),
            None => syntax_of(source@, lang) is None,
        },
{
    let mut parser = tree_sitter::Parser::new();
    parser.set_language(&grammar_of(lang)?).ok()?;
    parser.parse(source, None).map(|tree| copy_node(tree.root_node(), None, source))
}

/// Whether the syntax tree of a source text has errors in it, where there is a tree.
pub uninterp spec fn syntax_broken(source: Seq<char>, lang: LangId) -> Option<bool>;

/// Calls `tree_sitter::Parser::parse` with the grammar of a language and
/// `tree_sitter::Node::has_error` on the root. The result is a function of the source text and
/// the language alone, named `syntax_broken`.
#[verifier::external_body]
pub(crate) fn has_syntax_error(source: &str, lang: LangId) -> (r: Option<bool>)
    ensures
        r == syntax_broken(source@, lang),
{
    let mut parser = tree_sitter::Parser::new();
    parser.set_language(&grammar_of(lang)?).ok()?;
    parser.parse(source, None).map(|tree| tree.root_node().has_error())
}

} // verus!
