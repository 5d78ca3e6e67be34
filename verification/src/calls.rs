//! Calls in a syntax tree.
use vstd::prelude::*;
use vstd::slice::slice_subrange;

use crate::lang::LangId;
use crate::paths::{find_last_char, rfind_char};
use crate::syntax::{
    first_field_is_found, is_field, lacks_field, lemma_children, lemma_stands_within, line_number,
    line_of, opt_text, opt_tree, stands_in, trees, well_nested, SyntaxNode, Tree,
};
use crate::text::{chars_of, contains_str, same, string_of, strs, trim_chars, trimmed};

verus! {

/// The kinds of nodes that are calls in a language.
pub open spec fn call_kinds(lang: LangId) -> Seq<Seq<char>> {
    match lang {
        LangId::TypeScript | LangId::Tsx | LangId::JavaScript | LangId::Go => seq![
            "call_expression"@,
        ],
        LangId::Python => seq!["call"@],
        LangId::Rust => seq!["call_expression"@, "macro_invocation"@],
        _ => seq![],
    }
}

/// The kinds of nodes that are calls in a language.
pub fn call_node_kinds(lang: LangId) -> (r: Vec<&'static str>)
    ensures
        strs(r@) == call_kinds(lang),
{
    let r: Vec<&'static str> = match lang {
        LangId::TypeScript | LangId::Tsx | LangId::JavaScript | LangId::Go => vec![
            "call_expression",
        ],
        LangId::Python => vec!["call"],
        LangId::Rust => vec!["call_expression", "macro_invocation"],
        _ => Vec::new(),
    };
    assert(strs(r@) =~= call_kinds(lang));
    r
}

/// The part of `s` behind its last dot; `s` where it has none.
pub open spec fn last_dot_segment(s: Seq<char>) -> Seq<char> {
    match find_last_char(s, '.', s.len() as int) {
        Some(i) => s.skip(i + 1),
        None => s,
    }
}

/// The part of a text behind its last dot, without white space around it.
pub fn dot_segment(s: &str) -> (r: String)
    ensures
        r@ == trimmed(last_dot_segment(s@)),
{
    let c = chars_of(s);
    match rfind_char(c.as_slice(), '.', c.len()) {
        Some(i) => {
            let tail = slice_subrange(c.as_slice(), i + 1, c.len());
            assert(tail@ =~= s@.skip(i + 1));
            string_of(trim_chars(tail))
        },
        None => string_of(trim_chars(c.as_slice())),
    }
}

/// Whether a kind is that of the last name in a member access.
pub open spec fn segment_kind(kind: Seq<char>) -> bool {
    kind == "property_identifier"@ || kind == "field_identifier"@ || kind == "identifier"@
}

/// The text of the last of the first `upto` nodes that is a name.
pub open spec fn last_name(list: Seq<Tree>, upto: int) -> Option<Seq<char>>
    decreases upto,
{
    if upto <= 0 || upto > list.len() {
        None
    } else if segment_kind(list[upto - 1].kind) {
        Some(list[upto - 1].text)
    } else {
        last_name(list, upto - 1)
    }
}

/// The last segment of a member access: its last name, or what stands behind the last
/// dot of its text.
pub open spec fn last_segment(t: Tree) -> Option<Seq<char>> {
    match last_name(t.children, t.children.len() as int) {
        Some(s) => Some(s),
        None => Some(trimmed(last_dot_segment(t.text))),
    }
}

/// The last segment of a member access.
pub fn extract_last_segment(node: &SyntaxNode) -> (r: Option<String>)
    ensures
        opt_text(r) == last_segment(node@),
{
    broadcast use lemma_children;

    let mut n: usize = node.children.len();
    while n > 0
        invariant
            n <= node.children.len(),
            node@.children == trees(node.children@),
            last_name(node@.children, node@.children.len() as int) == last_name(
                node@.children,
                n as int,
            ),
        decreases n,
    {
        let child = &node.children[n - 1];
        assert(node@.children[n - 1] == child@);
        if child.is_kind("property_identifier") || child.is_kind("field_identifier")
            || child.is_kind("identifier") {
            return Some(child.text.clone());
        }
        n = n - 1;
    }
    Some(dot_segment(node.text.as_str()))
}

/// The first child of a node.
pub open spec fn first_child(t: Tree) -> Option<Tree> {
    if t.children.len() > 0 {
        Some(t.children[0])
    } else {
        None
    }
}

/// The node of the called function: the field `function`, or else the first child.
pub open spec fn callee_node(t: Tree) -> Option<Tree> {
    match t.child_of_field("function"@) {
        Some(f) => Some(f),
        None => first_child(t),
    }
}

fn callee_of(node: &SyntaxNode) -> (r: Option<&SyntaxNode>)
    ensures
        opt_tree(r) == callee_node(node@),
{
    broadcast use lemma_children;

    match node.child_by_field("function") {
        Some(f) => Some(f),
        None => {
            if node.children.len() > 0 {
                assert(node@.children[0] == node.children@[0]@);
                Some(&node.children[0])
            } else {
                None
            }
        },
    }
}

/// The name of what a call calls: a macro with its `!`, an identifier, the last
/// segment of a member access, and of anything else what follows its last dot.
pub open spec fn callee_name(t: Tree) -> Option<Seq<char>> {
    if t.kind == "macro_invocation"@ {
        match first_child(t) {
            Some(c) => Some(c.text + "!"@),
            None => None,
        }
    } else {
        match callee_node(t) {
            None => None,
            Some(f) => if f.kind == "identifier"@ {
                Some(f.text)
            } else if f.kind == "member_expression"@ || f.kind == "field_expression"@ || f.kind
                == "attribute"@ {
                last_segment(f)
            } else {
                Some(trimmed(last_dot_segment(f.text)))
            },
        }
    }
}

fn macro_name(node: &SyntaxNode) -> (r: Option<String>)
    ensures
        opt_text(r) == (match first_child(node@) {
            Some(c) => Some(c.text + "!"@),
            None => None::<Seq<char>>,
        }),
{
    broadcast use lemma_children;

    if node.children.len() > 0 {
        assert(node@.children[0] == node.children@[0]@);
        let mut s = node.children[0].text.clone();
        s.append("!");
        Some(s)
    } else {
        None
    }
}

/// The name of what a call calls.
pub fn extract_callee_name(node: &SyntaxNode) -> (r: Option<String>)
    ensures
        opt_text(r) == callee_name(node@),
{
    if node.is_kind("macro_invocation") {
        return macro_name(node);
    }
    match callee_of(node) {
        None => None,
        Some(f) => {
            if f.is_kind("identifier") {
                Some(f.text.clone())
            } else if f.is_kind("member_expression") || f.is_kind("field_expression") || f.is_kind(
                "attribute",
            ) {
                extract_last_segment(f)
            } else {
                Some(dot_segment(f.text.as_str()))
            }
        },
    }
}

/// The whole expression of what a call calls.
pub open spec fn full_callee(t: Tree) -> Option<Seq<char>> {
    if t.kind == "macro_invocation"@ {
        match first_child(t) {
            Some(c) => Some(c.text + "!"@),
            None => None,
        }
    } else {
        match callee_node(t) {
            None => None,
            Some(f) => Some(trimmed(f.text)),
        }
    }
}

/// The whole expression of what a call calls.
pub fn extract_full_callee(node: &SyntaxNode) -> (r: Option<String>)
    ensures
        opt_text(r) == full_callee(node@),
{
    if node.is_kind("macro_invocation") {
        return macro_name(node);
    }
    match callee_of(node) {
        None => None,
        Some(f) => {
            let c = chars_of(f.text.as_str());
            Some(string_of(trim_chars(c.as_slice())))
        },
    }
}

/// Whether a node is a call that lies within the bytes `lo` to `hi`.
pub open spec fn call_within(t: Tree, lo: int, hi: int, kinds: Seq<Seq<char>>) -> bool {
    kinds.contains(t.kind) && t.start >= lo && t.end <= hi
}

/// Whether a node and the bytes `lo` to `hi` have nothing in common.
pub open spec fn apart(t: Tree, lo: int, hi: int) -> bool {
    t.end <= lo || t.start >= hi
}

/// The calls within the bytes `lo` to `hi`, each with the whole expression and the
/// name of what is called and with its line, a call before those inside it.
pub open spec fn calls_under(t: Tree, lo: int, hi: int, kinds: Seq<Seq<char>>) -> Seq<
    (Option<Seq<char>>, Option<Seq<char>>, int),
>
    decreases t, 0int,
{
    if apart(t, lo, hi) {
        Seq::empty()
    } else if call_within(t, lo, hi, kinds) {
        seq![(full_callee(t), callee_name(t), line_number(t.row))] + calls_among(
            t.children,
            0,
            lo,
            hi,
            kinds,
        )
    } else {
        calls_among(t.children, 0, lo, hi, kinds)
    }
}

/// The calls under the nodes of `list` from `from` on.
pub open spec fn calls_among(
    list: Seq<Tree>,
    from: int,
    lo: int,
    hi: int,
    kinds: Seq<Seq<char>>,
) -> Seq<(Option<Seq<char>>, Option<Seq<char>>, int)>
    decreases list, list.len() - from,
{
    if from < 0 || from >= list.len() {
        Seq::empty()
    } else {
        calls_under(list[from], lo, hi, kinds) + calls_among(list, from + 1, lo, hi, kinds)
    }
}

/// The names and lines of the calls that have a name.
pub open spec fn named_calls(
    calls: Seq<(Option<Seq<char>>, Option<Seq<char>>, int)>,
) -> Seq<(Seq<char>, int)>
    decreases calls.len(),
{
    if calls.len() == 0 {
        Seq::empty()
    } else {
        let c = calls.last();
        let rest = named_calls(calls.drop_last());
        match c.1 {
            Some(name) => rest.push((name, c.2)),
            None => rest,
        }
    }
}

/// The expressions, names and lines of the calls that have both.
pub open spec fn full_calls(
    calls: Seq<(Option<Seq<char>>, Option<Seq<char>>, int)>,
) -> Seq<(Seq<char>, Seq<char>, int)>
    decreases calls.len(),
{
    if calls.len() == 0 {
        Seq::empty()
    } else {
        let c = calls.last();
        let rest = full_calls(calls.drop_last());
        match (c.0, c.1) {
            (Some(full), Some(name)) => rest.push((full, name, c.2)),
            _ => rest,
        }
    }
}

proof fn lemma_named_calls_add(
    a: Seq<(Option<Seq<char>>, Option<Seq<char>>, int)>,
    b: Seq<(Option<Seq<char>>, Option<Seq<char>>, int)>,
)
    ensures
        named_calls(a + b) == named_calls(a) + named_calls(b),
        full_calls(a + b) == full_calls(a) + full_calls(b),
    decreases b.len(),
{
    if b.len() == 0 {
        assert(a + b =~= a);
    } else {
        lemma_named_calls_add(a, b.drop_last());
        assert((a + b).drop_last() =~= a + b.drop_last());
        assert(named_calls(a + b) =~= named_calls(a) + named_calls(b));
        assert(full_calls(a + b) =~= full_calls(a) + full_calls(b));
    }
}

/// The views of a list of names with lines.
pub open spec fn name_lines(v: Seq<(String, u32)>) -> Seq<(Seq<char>, int)> {
    v.map_values(|p: (String, u32)| (p.0@, p.1 as int))
}

/// The views of a list of expressions and names with lines.
pub open spec fn call_lines(v: Seq<(String, String, u32)>) -> Seq<(Seq<char>, Seq<char>, int)> {
    v.map_values(|p: (String, String, u32)| (p.0@, p.1@, p.2 as int))
}

/// Adds the names and lines of the calls under a node within a range of bytes.
pub fn walk_for_calls(
    node: &SyntaxNode,
    byte_start: usize,
    byte_end: usize,
    kinds: &Vec<&'static str>,
    results: &mut Vec<(String, u32)>,
)
    ensures
        name_lines(final(results)@) == name_lines(old(results)@) + named_calls(
            calls_under(node@, byte_start as int, byte_end as int, strs(kinds@)),
        ),
    decreases node,
{
    broadcast use lemma_children;

    let ghost t = node@;
    let ghost lo = byte_start as int;
    let ghost hi = byte_end as int;
    let ghost ks = strs(kinds@);
    let ghost before = name_lines(results@);
    if node.end_byte <= byte_start || node.start_byte >= byte_end {
        assert(before + named_calls(Seq::empty()) =~= before);
        return;
    }
    let ghost own = if call_within(t, lo, hi, ks) {
        seq![(full_callee(t), callee_name(t), line_number(t.row))]
    } else {
        Seq::empty()
    };
    proof {
        reveal_with_fuel(named_calls, 2);
        assert(own.len() == 1 ==> own.drop_last() =~= Seq::empty());
        lemma_named_calls_add(own, calls_among(t.children, 0, lo, hi, ks));
        assert(own.len() == 0 ==> own + calls_among(t.children, 0, lo, hi, ks) =~= calls_among(
            t.children,
            0,
            lo,
            hi,
            ks,
        ));
    }
    if contains_str(kinds, node.kind.as_str()) && node.start_byte >= byte_start && node.end_byte
        <= byte_end {
        match extract_callee_name(node) {
            Some(name) => {
                results.push((name, line_of(node.start_row)));
            },
            None => {},
        }
    }
    assert(name_lines(results@) =~= before + named_calls(own));
    let mut i: usize = 0;
    let ghost done = Seq::<(Option<Seq<char>>, Option<Seq<char>>, int)>::empty();
    proof {
        assert(done + calls_among(t.children, 0, lo, hi, ks) =~= calls_among(
            t.children,
            0,
            lo,
            hi,
            ks,
        ));
        assert(before + named_calls(own) + named_calls(done) =~= before + named_calls(own));
    }
    while i < node.children.len()
        invariant
            i <= node.children.len(),
            t == node@,
            lo == byte_start,
            hi == byte_end,
            ks == strs(kinds@),
            t.children == trees(node.children@),
            name_lines(results@) == before + named_calls(own) + named_calls(done),
            done + calls_among(t.children, i as int, lo, hi, ks) == calls_among(
                t.children,
                0,
                lo,
                hi,
                ks,
            ),
        decreases node.children.len() - i,
    {
        assert(t.children[i as int] == node.children@[i as int]@);
        walk_for_calls(&node.children[i], byte_start, byte_end, kinds, results);
        proof {
            let now = calls_under(t.children[i as int], lo, hi, ks);
            lemma_named_calls_add(done, now);
            assert(done + (now + calls_among(t.children, i + 1, lo, hi, ks)) =~= (done + now)
                + calls_among(t.children, i + 1, lo, hi, ks));
            assert(name_lines(results@) =~= before + named_calls(own) + named_calls(done + now));
            done = done + now;
        }
        i = i + 1;
    }
    proof {
        assert(done + calls_among(t.children, i as int, lo, hi, ks) =~= done);
        assert(before + named_calls(own) + named_calls(done) =~= before + named_calls(
            own + done,
        ));
    }
}

/// The names and lines of the calls in a language within a range of bytes.
pub fn extract_calls_in_range(
    root: &SyntaxNode,
    byte_start: usize,
    byte_end: usize,
    lang: LangId,
) -> (r: Vec<(String, u32)>)
    ensures
        name_lines(r@) == named_calls(
            calls_under(root@, byte_start as int, byte_end as int, call_kinds(lang)),
        ),
{
    let kinds = call_node_kinds(lang);
    let mut results: Vec<(String, u32)> = Vec::new();
    assert(name_lines(results@) =~= Seq::empty());
    walk_for_calls(root, byte_start, byte_end, &kinds, &mut results);
    assert(name_lines(results@) =~= named_calls(
        calls_under(root@, byte_start as int, byte_end as int, call_kinds(lang)),
    ));
    results
}

fn collect_calls_full(
    node: &SyntaxNode,
    byte_start: usize,
    byte_end: usize,
    kinds: &Vec<&'static str>,
    results: &mut Vec<(String, String, u32)>,
)
    ensures
        call_lines(final(results)@) == call_lines(old(results)@) + full_calls(
            calls_under(node@, byte_start as int, byte_end as int, strs(kinds@)),
        ),
    decreases node,
{
    broadcast use lemma_children;

    let ghost t = node@;
    let ghost lo = byte_start as int;
    let ghost hi = byte_end as int;
    let ghost ks = strs(kinds@);
    let ghost before = call_lines(results@);
    if node.end_byte <= byte_start || node.start_byte >= byte_end {
        assert(before + full_calls(Seq::empty()) =~= before);
        return;
    }
    let ghost own = if call_within(t, lo, hi, ks) {
        seq![(full_callee(t), callee_name(t), line_number(t.row))]
    } else {
        Seq::empty()
    };
    proof {
        reveal_with_fuel(full_calls, 2);
        assert(own.len() == 1 ==> own.drop_last() =~= Seq::empty());
        lemma_named_calls_add(own, calls_among(t.children, 0, lo, hi, ks));
        assert(own.len() == 0 ==> own + calls_among(t.children, 0, lo, hi, ks) =~= calls_among(
            t.children,
            0,
            lo,
            hi,
            ks,
        ));
    }
    if contains_str(kinds, node.kind.as_str()) && node.start_byte >= byte_start && node.end_byte
        <= byte_end {
        match (extract_full_callee(node), extract_callee_name(node)) {
            (Some(full), Some(name)) => {
                results.push((full, name, line_of(node.start_row)));
            },
            _ => {},
        }
    }
    assert(call_lines(results@) =~= before + full_calls(own));
    let mut i: usize = 0;
    let ghost done = Seq::<(Option<Seq<char>>, Option<Seq<char>>, int)>::empty();
    proof {
        assert(done + calls_among(t.children, 0, lo, hi, ks) =~= calls_among(
            t.children,
            0,
            lo,
            hi,
            ks,
        ));
        assert(before + full_calls(own) + full_calls(done) =~= before + full_calls(own));
    }
    while i < node.children.len()
        invariant
            i <= node.children.len(),
            t == node@,
            lo == byte_start,
            hi == byte_end,
            ks == strs(kinds@),
            t.children == trees(node.children@),
            call_lines(results@) == before + full_calls(own) + full_calls(done),
            done + calls_among(t.children, i as int, lo, hi, ks) == calls_among(
                t.children,
                0,
                lo,
                hi,
                ks,
            ),
        decreases node.children.len() - i,
    {
        assert(t.children[i as int] == node.children@[i as int]@);
        collect_calls_full(&node.children[i], byte_start, byte_end, kinds, results);
        proof {
            let now = calls_under(t.children[i as int], lo, hi, ks);
            lemma_named_calls_add(done, now);
            assert(done + (now + calls_among(t.children, i + 1, lo, hi, ks)) =~= (done + now)
                + calls_among(t.children, i + 1, lo, hi, ks));
            assert(call_lines(results@) =~= before + full_calls(own) + full_calls(done + now));
            done = done + now;
        }
        i = i + 1;
    }
    proof {
        assert(done + calls_among(t.children, i as int, lo, hi, ks) =~= done);
        assert(before + full_calls(own) + full_calls(done) =~= before + full_calls(own + done));
    }
}

/// The expressions, names and lines of the calls in a language within a range of bytes.
pub fn extract_calls_full(
    root: &SyntaxNode,
    byte_start: usize,
    byte_end: usize,
    lang: LangId,
) -> (r: Vec<(String, String, u32)>)
    ensures
        call_lines(r@) == full_calls(
            calls_under(root@, byte_start as int, byte_end as int, call_kinds(lang)),
        ),
{
    let kinds = call_node_kinds(lang);
    let mut results: Vec<(String, String, u32)> = Vec::new();
    assert(call_lines(results@) =~= Seq::empty());
    collect_calls_full(root, byte_start, byte_end, &kinds, &mut results);
    assert(call_lines(results@) =~= full_calls(
        calls_under(root@, byte_start as int, byte_end as int, call_kinds(lang)),
    ));
    results
}

/// Whether a node is a call in a language.
pub open spec fn is_call(t: Tree, lang: LangId) -> bool {
    match lang {
        LangId::TypeScript | LangId::Tsx | LangId::JavaScript | LangId::Go => t.kind
            == "call_expression"@,
        LangId::Python => t.kind == "call"@,
        LangId::Rust => t.kind == "call_expression"@ || t.kind == "macro_invocation"@,
        _ => false,
    }
}

proof fn lemma_call_kinds(t: Tree, lang: LangId)
    ensures
        call_kinds(lang).contains(t.kind) <==> is_call(t, lang),
{
    let kinds = call_kinds(lang);
    if is_call(t, lang) {
        if lang is Rust {
            assert(kinds[0] == t.kind || kinds[1] == t.kind);
        } else {
            assert(kinds[0] == t.kind);
        }
    }
}

/// Whether a call is told in a list: by its whole expression, its name and its line.
pub open spec fn is_told(
    list: Seq<(Option<Seq<char>>, Option<Seq<char>>, int)>,
    t: Tree,
) -> bool {
    list.contains((full_callee(t), callee_name(t), line_number(t.row)))
}

proof fn lemma_told_in_sum(
    a: Seq<(Option<Seq<char>>, Option<Seq<char>>, int)>,
    b: Seq<(Option<Seq<char>>, Option<Seq<char>>, int)>,
    t: Tree,
)
    ensures
        is_told(a, t) || is_told(b, t) ==> is_told(a + b, t),
{
    let x = (full_callee(t), callee_name(t), line_number(t.row));
    if a.contains(x) {
        let i = choose|i: int| 0 <= i < a.len() && a[i] == x;
        assert((a + b)[i] == x);
    } else if b.contains(x) {
        let i = choose|i: int| 0 <= i < b.len() && b[i] == x;
        assert((a + b)[a.len() + i] == x);
    }
}

/// Every call that stands in a tree and lies within the bytes that are looked at is told.
pub proof fn calls_are_told(t: Tree, n: Tree, lo: int, hi: int, lang: LangId)
    requires
        well_nested(t),
        stands_in(t, n),
        is_call(n, lang),
        lo <= n.start < n.end <= hi,
    ensures
        is_told(calls_under(t, lo, hi, call_kinds(lang)), n),
    decreases t, 0int,
{
    let kinds = call_kinds(lang);
    lemma_stands_within(t, n);
    lemma_call_kinds(n, lang);
    assert(!apart(t, lo, hi));
    let inner = calls_among(t.children, 0, lo, hi, kinds);
    if n == t {
        let own = seq![(full_callee(t), callee_name(t), line_number(t.row))];
        assert(own[0] == (full_callee(t), callee_name(t), line_number(t.row)));
        lemma_told_in_sum(own, inner, n);
    } else {
        let k = choose|k: int| 0 <= k < t.children.len() && stands_in(#[trigger] t.children[k], n);
        calls_are_told(t.children[k], n, lo, hi, lang);
        lemma_told_among(t.children, 0, k, n, lo, hi, kinds);
        lemma_told_in_sum(
            seq![(full_callee(t), callee_name(t), line_number(t.row))],
            inner,
            n,
        );
    }
}

proof fn lemma_told_among(
    list: Seq<Tree>,
    from: int,
    k: int,
    n: Tree,
    lo: int,
    hi: int,
    kinds: Seq<Seq<char>>,
)
    requires
        0 <= from <= k < list.len(),
        is_told(calls_under(list[k], lo, hi, kinds), n),
    ensures
        is_told(calls_among(list, from, lo, hi, kinds), n),
    decreases k - from,
{
    if from < k {
        lemma_told_among(list, from + 1, k, n, lo, hi, kinds);
    }
    lemma_told_in_sum(
        calls_under(list[from], lo, hi, kinds),
        calls_among(list, from + 1, lo, hi, kinds),
        n,
    );
}

/// Whether something that is told is a call of a tree within the bytes that are looked at.
pub open spec fn is_call_of(
    t: Tree,
    lo: int,
    hi: int,
    lang: LangId,
    x: (Option<Seq<char>>, Option<Seq<char>>, int),
) -> bool {
    exists|n: Tree| #[trigger]
        stands_in(t, n) && is_call(n, lang) && lo <= n.start && n.end <= hi && x == (
            full_callee(n),
            callee_name(n),
            line_number(n.row),
        )
}

/// Nothing is told but the calls of the tree within the bytes that are looked at.
pub proof fn only_calls_are_told(t: Tree, lo: int, hi: int, lang: LangId, i: int)
    requires
        0 <= i < calls_under(t, lo, hi, call_kinds(lang)).len(),
    ensures
        is_call_of(t, lo, hi, lang, calls_under(t, lo, hi, call_kinds(lang))[i]),
    decreases t, 0int, 0int,
{
    let kinds = call_kinds(lang);
    lemma_call_kinds(t, lang);
    let inner = calls_among(t.children, 0, lo, hi, kinds);
    let own = call_within(t, lo, hi, kinds);
    if own && i == 0 {
        assert(stands_in(t, t));
    } else {
        let j = if own {
            i - 1
        } else {
            i
        };
        lemma_only_among(t.children, 0, lo, hi, lang, j);
        let k = choose|k: int|
            0 <= k < t.children.len() && is_call_of(
                #[trigger] t.children[k],
                lo,
                hi,
                lang,
                inner[j],
            );
        let n = choose|n: Tree| #[trigger]
            stands_in(t.children[k], n) && is_call(n, lang) && lo <= n.start && n.end <= hi
                && inner[j] == (full_callee(n), callee_name(n), line_number(n.row));
        assert(stands_in(t, n));
    }
}

proof fn lemma_only_among(list: Seq<Tree>, from: int, lo: int, hi: int, lang: LangId, i: int)
    requires
        0 <= from <= list.len(),
        0 <= i < calls_among(list, from, lo, hi, call_kinds(lang)).len(),
    ensures
        exists|k: int|
            from <= k < list.len() && is_call_of(
                #[trigger] list[k],
                lo,
                hi,
                lang,
                calls_among(list, from, lo, hi, call_kinds(lang))[i],
            ),
    decreases list, list.len() - from, 1int,
{
    let kinds = call_kinds(lang);
    let first = calls_under(list[from], lo, hi, kinds);
    if i < first.len() {
        only_calls_are_told(list[from], lo, hi, lang, i);
        assert(is_call_of(list[from], lo, hi, lang, first[i]));
    } else {
        lemma_only_among(list, from + 1, lo, hi, lang, i - first.len());
    }
}

proof fn lemma_last_name(list: Seq<Tree>, k: int, upto: int)
    requires
        0 <= k < upto <= list.len(),
        segment_kind(list[k].kind),
        forall|i: int| k < i < upto ==> !segment_kind((#[trigger] list[i]).kind),
    ensures
        last_name(list, upto) == Some(list[k].text),
    decreases upto - k,
{
    if k < upto - 1 {
        assert(!segment_kind(list[upto - 1].kind));
        lemma_last_name(list, k, upto - 1);
    }
}

/// Whether a kind is that of a name.
pub open spec fn is_name_kind(kind: Seq<char>) -> bool {
    kind == "property_identifier"@ || kind == "field_identifier"@ || kind == "identifier"@
}

/// A macro is called by its name with an exclamation mark.
pub proof fn macros_are_called_with_their_mark(t: Tree)
    requires
        t.kind == "macro_invocation"@,
        t.children.len() > 0,
    ensures
        callee_name(t) == Some(t.children[0].text.push('!')),
        full_callee(t) == Some(t.children[0].text.push('!')),
{
    reveal_strlit("!");
    assert("!"@ =~= seq!['!']);
    assert(t.children[0].text + "!"@ =~= t.children[0].text.push('!'));
}

/// A call is told by what it calls: a name by itself, a member by its own name, the last one, and
/// in both cases by the whole expression without white space around it.
pub proof fn calls_are_told_by_what_they_call(t: Tree, f: Tree, k: int)
    requires
        t.kind != "macro_invocation"@,
        is_field(t, "function"@, f) || (lacks_field(t, "function"@) && t.children.len() > 0 && f
            == t.children[0]),
    ensures
        full_callee(t) == Some(trimmed(f.text)),
        f.kind == "identifier"@ ==> callee_name(t) == Some(f.text),
        (f.kind == "member_expression"@ || f.kind == "field_expression"@ || f.kind
            == "attribute"@) && 0 <= k < f.children.len() && is_name_kind(f.children[k].kind) && (
        forall|i: int| k < i < f.children.len() ==> !is_name_kind((#[trigger] f.children[i]).kind))
            ==> callee_name(t) == Some(f.children[k].text),
{
    first_field_is_found(t, "function"@);
    reveal_strlit("identifier");
    reveal_strlit("member_expression");
    reveal_strlit("field_expression");
    reveal_strlit("attribute");
    assert("identifier"@.len() == 10);
    assert("member_expression"@.len() == 17);
    assert("field_expression"@.len() == 16);
    assert("attribute"@.len() == 9);
    if 0 <= k < f.children.len() && is_name_kind(f.children[k].kind) && (forall|i: int|
        k < i < f.children.len() ==> !is_name_kind((#[trigger] f.children[i]).kind)) {
        assert forall|i: int| k < i < f.children.len() implies !segment_kind(
            (#[trigger] f.children[i]).kind,
        ) by {}
        lemma_last_name(f.children, k, f.children.len() as int);
    }
}

/// What is called by anything else is told by what stands behind the last dot of its text.
pub proof fn other_calls_are_told_by_their_last_part(
    t: Tree,
    f: Tree,
    front: Seq<char>,
    name: Seq<char>,
)
    requires
        t.kind != "macro_invocation"@,
        is_field(t, "function"@, f),
        f.kind != "identifier"@,
        forall|i: int| 0 <= i < f.children.len() ==> !is_name_kind((#[trigger] f.children[i]).kind),
        !name.contains('.'),
    ensures
        f.text == name ==> callee_name(t) == Some(trimmed(name)),
        f.text == front.push('.') + name ==> callee_name(t) == Some(trimmed(name)),
{
    first_field_is_found(t, "function"@);
    lemma_no_last_name(f.children, f.children.len() as int);
    if f.text == name {
        lemma_no_last_char(name, name.len() as int);
    }
    if f.text == front.push('.') + name {
        let s = f.text;
        assert(s[front.len() as int] == '.');
        assert forall|i: int| front.len() < i < s.len() implies (#[trigger] s[i]) != '.' by {
            assert(s[i] == name[i - front.len() - 1]);
        }
        lemma_last_char(s, front.len() as int, s.len() as int);
        assert(s.skip(front.len() as int + 1) =~= name);
    }
}

proof fn lemma_no_last_name(list: Seq<Tree>, upto: int)
    requires
        upto <= list.len(),
        forall|i: int| 0 <= i < upto ==> !is_name_kind((#[trigger] list[i]).kind),
    ensures
        last_name(list, upto) is None,
    decreases upto,
{
    if upto > 0 {
        assert(!is_name_kind(list[upto - 1].kind));
        lemma_no_last_name(list, upto - 1);
    }
}

proof fn lemma_no_last_char(s: Seq<char>, upto: int)
    requires
        !s.contains('.'),
        upto <= s.len(),
    ensures
        find_last_char(s, '.', upto) is None,
    decreases upto,
{
    if upto > 0 {
        assert(s[upto - 1] != '.');
        lemma_no_last_char(s, upto - 1);
    }
}

proof fn lemma_last_char(s: Seq<char>, k: int, upto: int)
    requires
        0 <= k < upto <= s.len(),
        s[k] == '.',
        forall|i: int| k < i < s.len() ==> (#[trigger] s[i]) != '.',
    ensures
        find_last_char(s, '.', upto) == Some(k),
    decreases upto - k,
{
    if k < upto - 1 {
        assert(s[upto - 1] != '.');
        lemma_last_char(s, k, upto - 1);
    }
}

/// The calls that are told by name are those that have one, in order, each with its line.
pub proof fn calls_without_a_name_are_not_told(
    calls: Seq<(Option<Seq<char>>, Option<Seq<char>>, int)>,
    c: (Option<Seq<char>>, Option<Seq<char>>, int),
)
    ensures
        c.1 is None ==> named_calls(calls.push(c)) == named_calls(calls) && full_calls(
            calls.push(c),
        ) == full_calls(calls),
        c.1 is Some ==> named_calls(calls.push(c)) == named_calls(calls).push((c.1->0, c.2)),
        c.0 is Some && c.1 is Some ==> full_calls(calls.push(c)) == full_calls(calls).push(
            (c.0->0, c.1->0, c.2),
        ),
{
    assert(calls.push(c).drop_last() =~= calls);
}

} // verus!
