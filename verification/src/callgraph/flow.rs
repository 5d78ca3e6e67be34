//! How a value flows through assignments and into parameters.
use vstd::prelude::*;

use crate::callgraph::data::{get_symbol_meta, symbol_place};
use crate::callgraph::graph::{build_outcome, built, canon, followed, CallGraph, Graph};
use crate::callgraph::impact::{parameters_of, signature_parameters};
use crate::callgraph::model::{
    DataFlowHop, DataModel, EdgeModel, EdgeResolution, FileCallData, FileModel, FlowModel,
    TraceDataResult,
};
use crate::callgraph::worktree::{Disk, SymbolModel, Worktree};
use crate::calls::last_dot_segment;
use crate::edit::{bytes, line_col_to_byte, position};
use crate::error::{outcome, AftError, Fault};
use crate::lang::{detect_language, path_lang};
use crate::models::{get_entry, group_models, models, table_get};
use crate::paths::{path_relative, rfind_char};
use crate::syntax::{
    lemma_children, line_number, line_of, opt_tree, parse, syntax_of, trees, SyntaxNode, Tree,
};
use crate::text::{chars_of, contains, occurs, owned, same, starts_with, string_of};

verus! {

/// The smallest node that covers the bytes `lo` to `hi`, the last of several.
pub open spec fn covering(t: Tree, lo: int, hi: int) -> Option<Tree>
    decreases t, 0int,
{
    if t.start <= lo && t.end >= hi {
        match covering_among(t.children, t.children.len() as int, lo, hi) {
            Some(n) => Some(n),
            None => Some(t),
        }
    } else {
        None
    }
}

/// The smallest node that covers the bytes under the last of the first `n` nodes that
/// does.
pub open spec fn covering_among(list: Seq<Tree>, n: int, lo: int, hi: int) -> Option<Tree>
    decreases list, n,
{
    if n <= 0 || n > list.len() {
        None
    } else {
        match covering(list[n - 1], lo, hi) {
            Some(t) => Some(t),
            None => covering_among(list, n - 1, lo, hi),
        }
    }
}

fn find_covering<'a>(node: &'a SyntaxNode, lo: usize, hi: usize) -> (r: Option<&'a SyntaxNode>)
    ensures
        opt_tree(r) == covering(node@, lo as int, hi as int),
    decreases node,
{
    broadcast use lemma_children;

    if !(node.start_byte <= lo && node.end_byte >= hi) {
        return None;
    }
    let mut n: usize = node.children.len();
    while n > 0
        invariant
            n <= node.children.len(),
            node@.children == trees(node.children@),
            node@.start <= lo && node@.end >= hi,
            covering_among(
                node@.children,
                node@.children.len() as int,
                lo as int,
                hi as int,
            ) == covering_among(node@.children, n as int, lo as int, hi as int),
        decreases n,
    {
        assert(node@.children[n - 1] == node.children@[n - 1]@);
        let found = find_covering(&node.children[n - 1], lo, hi);
        if found.is_some() {
            return found;
        }
        n = n - 1;
    }
    Some(node)
}

/// Whether one of the live names occurs in a text.
pub open spec fn mentions(text: Seq<char>, live: Seq<Seq<char>>) -> bool {
    exists|i: int| 0 <= i < live.len() && occurs(text, #[trigger] live[i])
}

/// Whether a text is one of the live names, or a member or an element of one.
pub open spec fn derives(text: Seq<char>, live: Seq<Seq<char>>) -> bool {
    exists|i: int|
        0 <= i < live.len() && (text == #[trigger] live[i] || (live[i]
            + "."@).is_prefix_of(text) || (live[i] + "["@).is_prefix_of(text))
}

fn text_mentions(text: &str, live: &Vec<String>) -> (r: bool)
    ensures
        r == mentions(text@, models(live@)),
{
    let ghost all = models(live@);
    let mut i: usize = 0;
    while i < live.len()
        invariant
            i <= live.len(),
            all == models(live@),
            forall|k: int| 0 <= k < i ==> !occurs(text@, #[trigger] all[k]),
        decreases live.len() - i,
    {
        assert(all[i as int] == live@[i as int]@);
        if contains(text, live[i].as_str()) {
            assert(occurs(text@, all[i as int]));
            return true;
        }
        i = i + 1;
    }
    false
}

fn text_derives(text: &str, live: &Vec<String>) -> (r: bool)
    ensures
        r == derives(text@, models(live@)),
{
    let ghost all = models(live@);
    let mut i: usize = 0;
    while i < live.len()
        invariant
            i <= live.len(),
            all == models(live@),
            forall|k: int|
                0 <= k < i ==> !(text@ == #[trigger] all[k] || (all[k] + "."@).is_prefix_of(text@)
                    || (all[k] + "["@).is_prefix_of(text@)),
        decreases live.len() - i,
    {
        assert(all[i as int] == live@[i as int]@);
        let mut member = live[i].clone();
        member.append(".");
        let mut element = live[i].clone();
        element.append("[");
        if same(text, live[i].as_str()) || starts_with(text, member.as_str()) || starts_with(
            text,
            element.as_str(),
        ) {
            assert(all[i as int] == live@[i as int]@);
            return true;
        }
        i = i + 1;
    }
    false
}

fn is_live(text: &str, live: &Vec<String>) -> (r: bool)
    ensures
        r == models(live@).contains(text@),
{
    let ghost all = models(live@);
    let mut i: usize = 0;
    while i < live.len()
        invariant
            i <= live.len(),
            all == models(live@),
            forall|k: int| 0 <= k < i ==> all[k] != text@,
        decreases live.len() - i,
    {
        assert(all[i as int] == live@[i as int]@);
        if same(text, live[i].as_str()) {
            return true;
        }
        i = i + 1;
    }
    false
}

/// An assignment from a live value: what is assigned to, the text that is told of an
/// approximate step, and whether the step is one.
#[verifier::ext_equal]
pub ghost struct AssignModel {
    pub target: Seq<char>,
    pub told: Seq<char>,
    pub approximate: bool,
}

/// Whether nodes of a kind assign.
pub open spec fn assigns(kind: Seq<char>) -> bool {
    kind == "variable_declarator"@ || kind == "assignment_expression"@ || kind
        == "augmented_assignment_expression"@ || kind == "assignment"@ || kind
        == "let_declaration"@ || kind == "short_var_declaration"@
}

/// The first of two fields that a node has.
pub open spec fn either_field(t: Tree, a: Seq<char>, b: Seq<char>) -> Option<Tree> {
    match t.child_of_field(a) {
        Some(n) => Some(n),
        None => t.child_of_field(b),
    }
}

/// An assignment of exactly a live value to `left`.
pub open spec fn plain_assignment(
    left: Option<Tree>,
    right: Option<Tree>,
    live: Seq<Seq<char>>,
) -> Option<AssignModel> {
    match (left, right) {
        (Some(l), Some(r)) => if live.contains(r.text) {
            Some(AssignModel { target: l.text, told: r.text, approximate: false })
        } else {
            None
        },
        _ => None,
    }
}

/// The assignment from a live value that a node makes. A declaration counts a member
/// or an element of a live value too, and a pattern anything that mentions one.
pub open spec fn assignment_in(t: Tree, live: Seq<Seq<char>>) -> Option<AssignModel> {
    if t.kind == "variable_declarator"@ {
        match (t.child_of_field("name"@), t.child_of_field("value"@)) {
            (Some(name), Some(value)) => if name.kind == "object_pattern"@ || name.kind
                == "array_pattern"@ {
                if mentions(value.text, live) {
                    Some(AssignModel { target: name.text, told: name.text, approximate: true })
                } else {
                    None
                }
            } else if derives(value.text, live) {
                Some(AssignModel { target: name.text, told: value.text, approximate: false })
            } else {
                None
            },
            _ => None,
        }
    } else if t.kind == "let_declaration"@ || t.kind == "short_var_declaration"@ {
        plain_assignment(
            either_field(t, "pattern"@, "left"@),
            either_field(t, "value"@, "right"@),
            live,
        )
    } else if assigns(t.kind) {
        plain_assignment(t.child_of_field("left"@), t.child_of_field("right"@), live)
    } else {
        None
    }
}

/// An assignment from a live value.
pub struct Assignment {
    pub target: String,
    pub told: String,
    pub approximate: bool,
}

impl DeepView for Assignment {
    type V = AssignModel;

    open spec fn deep_view(&self) -> AssignModel {
        AssignModel { target: self.target@, told: self.told@, approximate: self.approximate }
    }
}

fn field_of_two<'a>(node: &'a SyntaxNode, a: &str, b: &str) -> (r: Option<&'a SyntaxNode>)
    ensures
        opt_tree(r) == either_field(node@, a@, b@),
{
    match node.child_by_field(a) {
        Some(n) => Some(n),
        None => node.child_by_field(b),
    }
}

fn assign_plain(
    left: Option<&SyntaxNode>,
    right: Option<&SyntaxNode>,
    live: &Vec<String>,
) -> (r: Option<Assignment>)
    ensures
        r.deep_view() == plain_assignment(opt_tree(left), opt_tree(right), models(live@)),
{
    match (left, right) {
        (Some(l), Some(t)) => {
            if is_live(t.text.as_str(), live) {
                Some(
                    Assignment {
                        target: l.text.clone(),
                        told: t.text.clone(),
                        approximate: false,
                    },
                )
            } else {
                None
            }
        },
        _ => None,
    }
}

/// The assignment from a live value that a node makes.
pub fn extract_assignment_info(node: &SyntaxNode, live: &Vec<String>) -> (r: Option<Assignment>)
    ensures
        r.deep_view() == assignment_in(node@, models(live@)),
{
    if node.is_kind("variable_declarator") {
        match (node.child_by_field("name"), node.child_by_field("value")) {
            (Some(name), Some(value)) => {
                if name.is_kind("object_pattern") || name.is_kind("array_pattern") {
                    if text_mentions(value.text.as_str(), live) {
                        Some(
                            Assignment {
                                target: name.text.clone(),
                                told: name.text.clone(),
                                approximate: true,
                            },
                        )
                    } else {
                        None
                    }
                } else if text_derives(value.text.as_str(), live) {
                    Some(
                        Assignment {
                            target: name.text.clone(),
                            told: value.text.clone(),
                            approximate: false,
                        },
                    )
                } else {
                    None
                }
            },
            _ => None,
        }
    } else if node.is_kind("let_declaration") || node.is_kind("short_var_declaration") {
        assign_plain(
            field_of_two(node, "pattern", "left"),
            field_of_two(node, "value", "right"),
            live,
        )
    } else if node.is_kind("assignment_expression") || node.is_kind(
        "augmented_assignment_expression",
    ) || node.is_kind("assignment") {
        assign_plain(node.child_by_field("left"), node.child_by_field("right"), live)
    } else {
        None
    }
}

/// An argument that is a live value.
pub struct LiveArg {
    pub position: usize,
    pub text: String,
}

impl DeepView for LiveArg {
    type V = (int, Seq<char>);

    open spec fn deep_view(&self) -> (int, Seq<char>) {
        (self.position as int, self.text@)
    }
}

/// Whether a kind is punctuation of an argument list.
pub open spec fn arg_punctuation(kind: Seq<char>) -> bool {
    kind == "("@ || kind == ")"@ || kind == ","@
}

/// Whether a kind spreads a value over arguments.
pub open spec fn arg_spread(kind: Seq<char>) -> bool {
    kind == "spread_element"@ || kind == "dictionary_splat"@
}

/// How many arguments the nodes of an argument list are.
pub open spec fn arg_count(list: Seq<Tree>) -> int
    decreases list.len(),
{
    if list.len() == 0 {
        0
    } else if arg_punctuation(list.last().kind) {
        arg_count(list.drop_last())
    } else {
        arg_count(list.drop_last()) + 1
    }
}

/// The arguments that are live values, with their positions.
pub open spec fn live_args(list: Seq<Tree>, live: Seq<Seq<char>>) -> Seq<(int, Seq<char>)>
    decreases list.len(),
{
    if list.len() == 0 {
        Seq::empty()
    } else {
        let rest = live_args(list.drop_last(), live);
        let t = list.last();
        if arg_punctuation(t.kind) || arg_spread(t.kind) || !live.contains(t.text) {
            rest
        } else {
            rest.push((arg_count(list.drop_last()), t.text))
        }
    }
}

/// The approximate steps of live values that are spread over arguments.
pub open spec fn spread_hops(
    list: Seq<Tree>,
    live: Seq<Seq<char>>,
    file: Seq<char>,
    symbol: Seq<char>,
) -> Seq<FlowModel>
    decreases list.len(),
{
    if list.len() == 0 {
        Seq::empty()
    } else {
        let rest = spread_hops(list.drop_last(), live, file, symbol);
        let t = list.last();
        if !arg_punctuation(t.kind) && arg_spread(t.kind) && mentions(t.text, live) {
            rest.push(
                FlowModel {
                    file,
                    symbol,
                    variable: t.text,
                    line: line_number(t.row),
                    flow_type: "parameter"@,
                    approximate: true,
                },
            )
        } else {
            rest
        }
    }
}

fn scan_args(
    node: &SyntaxNode,
    live: &Vec<String>,
    file: &str,
    symbol: &str,
    hops: &mut Vec<DataFlowHop>,
) -> (r: Vec<LiveArg>)
    ensures
        models(r@) == live_args(node@.children, models(live@)),
        models(final(hops)@) == models(old(hops)@) + spread_hops(
            node@.children,
            models(live@),
            file@,
            symbol@,
        ),
{
    broadcast use {group_models, lemma_children};

    let ghost all = node@.children;
    let ghost names = models(live@);
    let ghost start = models(hops@);
    let mut out: Vec<LiveArg> = Vec::new();
    let mut position: usize = 0;
    let mut i: usize = 0;
    assert(all.take(0) =~= Seq::empty());
    assert(start + spread_hops(all.take(0), names, file@, symbol@) =~= start);
    while i < node.children.len()
        invariant
            i <= node.children.len(),
            position <= i,
            all == node@.children,
            all == trees(node.children@),
            names == models(live@),
            position == arg_count(all.take(i as int)),
            models(out@) == live_args(all.take(i as int), names),
            models(hops@) == start + spread_hops(all.take(i as int), names, file@, symbol@),
        decreases node.children.len() - i,
    {
        let child = &node.children[i];
        proof {
            assert(all[i as int] == child@);
            assert(all.take(i + 1).drop_last() =~= all.take(i as int));
            assert(all.take(i + 1).last() == child@);
        }
        if !(child.is_kind("(") || child.is_kind(")") || child.is_kind(",")) {
            if child.is_kind("spread_element") || child.is_kind("dictionary_splat") {
                if text_mentions(child.text.as_str(), live) {
                    let ghost before = models(hops@);
                    let hop = DataFlowHop {
                        file: owned(file),
                        symbol: owned(symbol),
                        variable: child.text.clone(),
                        line: line_of(child.start_row),
                        flow_type: "parameter".to_owned(),
                        approximate: true,
                    };
                    let ghost m = hop.deep_view();
                    hops.push(hop);
                    proof {
                        assert(models(hops@) == before.push(m));
                        assert(models(hops@) =~= start + spread_hops(
                            all.take(i + 1),
                            names,
                            file@,
                            symbol@,
                        ));
                    }
                }
            } else if is_live(child.text.as_str(), live) {
                let ghost before = models(out@);
                let a = LiveArg { position, text: child.text.clone() };
                let ghost m = a.deep_view();
                out.push(a);
                assert(models(out@) == before.push(m));
            }
            position = position + 1;
        }
        i = i + 1;
    }
    assert(all.take(all.len() as int) =~= all);
    out
}

/// A symbol of a file with a value that is live in it.
pub struct Track {
    pub file: String,
    pub symbol: String,
    pub name: String,
}

impl DeepView for Track {
    type V = (Seq<char>, Seq<char>, Seq<char>);

    open spec fn deep_view(&self) -> (Seq<char>, Seq<char>, Seq<char>) {
        (self.file@, self.symbol@, self.name@)
    }
}

/// What a trace has found so far.
pub struct Trail {
    pub hops: Vec<DataFlowHop>,
    pub limited: bool,
    pub visited: Vec<Track>,
}

/// The state of a trace: what is known of files, the steps that were found, whether one
/// was left out because of the depth, and what was visited.
#[verifier::ext_equal]
pub ghost struct Flow {
    pub data: Seq<(Seq<char>, FileModel)>,
    pub hops: Seq<FlowModel>,
    pub limited: bool,
    pub visited: Seq<(Seq<char>, Seq<char>, Seq<char>)>,
}

/// The state of a trace that a graph and a trail make.
pub open spec fn flow_of(g: Graph, t: Trail) -> Flow {
    Flow { data: g.data, hops: models(t.hops@), limited: t.limited, visited: models(t.visited@) }
}

/// The first of the symbols from `from` on with a name.
pub open spec fn symbol_named(symbols: Seq<SymbolModel>, name: Seq<char>, from: int) -> Option<
    SymbolModel,
>
    decreases symbols.len() - from,
{
    if from < 0 || from >= symbols.len() {
        None
    } else if symbols[from].name == name {
        Some(symbols[from])
    } else {
        symbol_named(symbols, name, from + 1)
    }
}

/// The node of a symbol's body in the tree of its file.
pub open spec fn body_of(d: Disk, file: Seq<char>, symbol: Seq<char>) -> Option<Tree> {
    match (d.content(file), path_lang(file)) {
        (Ok(source), Some(lang)) => match (syntax_of(source, lang), symbol_named(
            d.symbols(file),
            symbol,
            0,
        )) {
            (Some(root), Some(s)) => covering(
                root,
                position(bytes(source), s.start_line, s.start_col),
                position(bytes(source), s.end_line, s.end_col),
            ),
            _ => None,
        },
        _ => None,
    }
}

/// The parameters of a symbol of a known file.
pub open spec fn known_parameters(m: FileModel, symbol: Seq<char>) -> Seq<Seq<char>> {
    match table_get(m.metadata, symbol) {
        Some(meta) => signature_parameters(meta.signature, m.lang),
        None => Seq::empty(),
    }
}

/// Where a trace stands: the project root, the file and the symbol whose body is
/// walked, how many calls it has entered, how many it may enter into other files, and
/// how many more can be nested at all.
pub ghost struct Place {
    pub root: Seq<char>,
    pub file: Seq<char>,
    pub symbol: Seq<char>,
    pub depth: nat,
    pub max: nat,
    pub nesting: nat,
}

/// A trace of a value through the body of a symbol.
pub open spec fn traced(d: Disk, at: Place, name: Seq<char>, st: Flow) -> Flow
    decreases 3 * at.nesting + 2, at, 0int,
{
    if st.visited.contains((at.file, at.symbol, name)) {
        st
    } else {
        let entered = Flow { visited: st.visited.push((at.file, at.symbol, name)), ..st };
        match body_of(d, at.file, at.symbol) {
            Some(body) => flow_node(d, at, body, seq![name], entered).0,
            None => entered,
        }
    }
}

/// The walk of a node: the state, and the names that are live behind the node. An
/// assignment adds a step and, unless it is approximate, a live name; behind an
/// approximate one the node's children are not looked at.
pub open spec fn flow_node(
    d: Disk,
    at: Place,
    t: Tree,
    live: Seq<Seq<char>>,
    st: Flow,
) -> (Flow, Seq<Seq<char>>)
    decreases 3 * at.nesting + 1, t, 2int,
{
    let step = assignment_in(t, live);
    let hop = match step {
        Some(a) => seq![
            FlowModel {
                file: path_relative(at.file, at.root),
                symbol: at.symbol,
                variable: if a.approximate {
                    a.told
                } else {
                    a.target
                },
                line: line_number(t.row),
                flow_type: "assignment"@,
                approximate: a.approximate,
            },
        ],
        None => Seq::empty(),
    };
    let assigned = Flow { hops: st.hops + hop, ..st };
    if step is Some && step->0.approximate {
        (assigned, live)
    } else {
        let names = match step {
            Some(a) => live.push(a.target),
            None => live,
        };
        let called = if t.kind == "call_expression"@ || t.kind == "call"@ || t.kind
            == "macro_invocation"@ {
            flow_call(d, at, t, names, assigned)
        } else {
            assigned
        };
        flow_children(d, at, t.children, 0, names, called)
    }
}

/// The walk of the nodes from `from` on.
pub open spec fn flow_children(
    d: Disk,
    at: Place,
    list: Seq<Tree>,
    from: int,
    live: Seq<Seq<char>>,
    st: Flow,
) -> (Flow, Seq<Seq<char>>)
    decreases 3 * at.nesting + 1, list, list.len() - from,
{
    if from < 0 || from >= list.len() {
        (st, live)
    } else {
        let first = flow_node(d, at, list[from], live, st);
        flow_children(d, at, list, from + 1, first.1, first.0)
    }
}

/// The argument list of a call.
pub open spec fn arg_list(t: Tree) -> Option<Tree> {
    match t.child_of_kind("arguments"@) {
        Some(n) => Some(n),
        None => t.child_of_kind("argument_list"@),
    }
}

/// The walk into a call that takes live values: into the symbol that it leads to by
/// imports, unless that is too deep; into a symbol of the same file; or, where it leads
/// nowhere, one approximate step for each argument.
pub open spec fn flow_call(
    d: Disk,
    at: Place,
    t: Tree,
    live: Seq<Seq<char>>,
    st: Flow,
) -> Flow
    decreases 3 * at.nesting + 1, t, 1int,
{
    let rel = path_relative(at.file, at.root);
    match arg_list(t) {
        None => st,
        Some(list) => {
            let args = live_args(list.children, live);
            let spread = Flow {
                hops: st.hops + spread_hops(list.children, live, rel, at.symbol),
                ..st
            };
            match (t.child_of_field("function"@), table_get(st.data, at.file)) {
                (Some(callee), Some(m)) => if args.len() == 0 {
                    spread
                } else {
                    let step = followed(
                        d,
                        at.root,
                        st.data,
                        callee.text,
                        last_dot_segment(callee.text),
                        at.file,
                        m.imports,
                    );
                    let known = Flow { data: step.0, ..spread };
                    match step.1 {
                        EdgeModel::Resolved { file, symbol } => if at.depth + 1 > at.max {
                            Flow { limited: true, ..known }
                        } else {
                            let now = built(d, step.0, canon(d, at.root, file));
                            let built_flow = Flow { data: now, ..known };
                            match table_get(now, file) {
                                Some(target) => flow_args(
                                    d,
                                    at,
                                    file,
                                    symbol,
                                    known_parameters(target, symbol),
                                    args,
                                    0,
                                    built_flow,
                                ),
                                None => built_flow,
                            }
                        },
                        EdgeModel::Unresolved { callee_name } => match table_get(
                            step.0,
                            at.file,
                        ) {
                            Some(own) => if table_get(own.calls, callee_name) is Some || table_get(
                                own.metadata,
                                callee_name,
                            ) is Some {
                                flow_args(
                                    d,
                                    at,
                                    at.file,
                                    callee_name,
                                    known_parameters(own, callee_name),
                                    args,
                                    0,
                                    known,
                                )
                            } else {
                                Flow {
                                    hops: known.hops + lost_hops(args, rel, callee_name, t.row),
                                    ..known
                                }
                            },
                            None => Flow {
                                hops: known.hops + lost_hops(args, rel, callee_name, t.row),
                                ..known
                            },
                        },
                    }
                },
                _ => spread,
            }
        },
    }
}

/// The approximate steps of live values into a call that leads nowhere.
pub open spec fn lost_hops(
    args: Seq<(int, Seq<char>)>,
    file: Seq<char>,
    callee: Seq<char>,
    row: int,
) -> Seq<FlowModel> {
    args.map_values(
        |a: (int, Seq<char>)|
            FlowModel {
                file,
                symbol: callee,
                variable: a.1,
                line: line_number(row),
                flow_type: "parameter"@,
                approximate: true,
            },
    )
}

/// The walk into a symbol with the arguments from `from` on, each as the parameter at
/// its position.
pub open spec fn flow_args(
    d: Disk,
    at: Place,
    file: Seq<char>,
    symbol: Seq<char>,
    params: Seq<Seq<char>>,
    args: Seq<(int, Seq<char>)>,
    from: int,
    st: Flow,
) -> Flow
    decreases 3 * at.nesting, at, args.len() - from,
{
    if from < 0 || from >= args.len() {
        st
    } else {
        let i = args[from].0;
        let next = if 0 <= i < params.len() {
            let told = Flow {
                hops: st.hops.push(
                    FlowModel {
                        file: path_relative(file, at.root),
                        symbol,
                        variable: params[i],
                        line: symbol_place(d.symbols(file), symbol, 0).0,
                        flow_type: "parameter"@,
                        approximate: false,
                    },
                ),
                ..st
            };
            if at.nesting > 0 {
                traced(
                    d,
                    (Place {
                        file,
                        symbol,
                        depth: at.depth + 1,
                        nesting: (at.nesting - 1) as nat,
                        ..at
                    }),
                    params[i],
                    told,
                )
            } else {
                told
            }
        } else {
            st
        };
        flow_args(d, at, file, symbol, params, args, from + 1, next)
    }
}

/// Whether `visited` holds a value of a symbol of a file.
fn was_traced(visited: &Vec<Track>, file: &str, symbol: &str, name: &str) -> (r: bool)
    ensures
        r == models(visited@).contains((file@, symbol@, name@)),
{
    let ghost all = models(visited@);
    let mut i: usize = 0;
    while i < visited.len()
        invariant
            i <= visited.len(),
            all == models(visited@),
            forall|k: int| 0 <= k < i ==> all[k] != (file@, symbol@, name@),
        decreases visited.len() - i,
    {
        let v = &visited[i];
        assert(all[i as int] == v.deep_view());
        if same(v.file.as_str(), file) && same(v.symbol.as_str(), symbol) && same(
            v.name.as_str(),
            name,
        ) {
            return true;
        }
        i = i + 1;
    }
    false
}

/// The bytes between which a symbol of a source text stands.
fn symbol_range(w: &Worktree, file: &str, source: &str, symbol: &str) -> (r: Option<(usize, usize)>)
    ensures
        match symbol_named(w@.symbols(file@), symbol@, 0) {
            Some(s) => r is Some && (r->0).0 == position(bytes(source@), s.start_line, s.start_col)
                && (r->0).1 == position(bytes(source@), s.end_line, s.end_col),
            None => r is None,
        },
{
    let f = match w.file(file) {
        Some(f) => f,
        None => {
            return None;
        },
    };
    let ghost all = models(f.symbols@);
    let mut i: usize = 0;
    while i < f.symbols.len()
        invariant
            i <= f.symbols.len(),
            all == models(f.symbols@),
            all == w@.symbols(file@),
            symbol_named(all, symbol@, 0) == symbol_named(all, symbol@, i as int),
        decreases f.symbols.len() - i,
    {
        let s = &f.symbols[i];
        assert(all[i as int] == s.deep_view());
        if same(s.name.as_str(), symbol) {
            return Some(
                (
                    line_col_to_byte(source, s.start_line, s.start_col),
                    line_col_to_byte(source, s.end_line, s.end_col),
                ),
            );
        }
        i = i + 1;
    }
    None
}

fn push_flow(
    hops: &mut Vec<DataFlowHop>,
    file: &str,
    symbol: &str,
    variable: &str,
    line: u32,
    flow_type: &str,
    approximate: bool,
)
    ensures
        models(final(hops)@) == models(old(hops)@).push(
            (FlowModel {
                file: file@,
                symbol: symbol@,
                variable: variable@,
                line: line as int,
                flow_type: flow_type@,
                approximate,
            }),
        ),
{
    broadcast use group_models;

    let ghost before = models(hops@);
    let hop = DataFlowHop {
        file: owned(file),
        symbol: owned(symbol),
        variable: owned(variable),
        line,
        flow_type: owned(flow_type),
        approximate,
    };
    let ghost m = hop.deep_view();
    hops.push(hop);
    assert(models(hops@) == before.push(m));
}

fn args_of(node: &SyntaxNode) -> (r: Option<&SyntaxNode>)
    ensures
        opt_tree(r) == arg_list(node@),
{
    match node.child_by_kind("arguments") {
        Some(n) => Some(n),
        None => node.child_by_kind("argument_list"),
    }
}

/// The parameters of a symbol of a known file.
fn file_parameters(f: &FileCallData, symbol: &str) -> (r: Vec<String>)
    ensures
        models(r@) == known_parameters(f.deep_view(), symbol@),
{
    broadcast use group_models;

    match get_entry(&f.symbol_metadata, symbol) {
        Some(meta) => parameters_of(&meta.signature, f.lang),
        None => Vec::new(),
    }
}

/// The part of a text behind its last dot.
fn behind_dot(s: &str) -> (r: String)
    ensures
        r@ == last_dot_segment(s@),
{
    let c = chars_of(s);
    match rfind_char(c.as_slice(), '.', c.len()) {
        Some(i) => {
            let tail = vstd::slice::slice_subrange(c.as_slice(), i + 1, c.len());
            assert(tail@ =~= s@.skip(i + 1));
            string_of(tail)
        },
        None => owned(s),
    }
}

impl CallGraph {
    fn trace_value(
        &mut self,
        w: &Worktree,
        file: &str,
        symbol: &str,
        name: &str,
        depth: usize,
        max: usize,
        nesting: usize,
        trail: &mut Trail,
    )
        requires
            depth + nesting <= usize::MAX,
        ensures
            flow_of(final(self)@, *final(trail)) == traced(
                w@,
                (Place {
                    root: old(self)@.root,
                    file: file@,
                    symbol: symbol@,
                    depth: depth as nat,
                    max: max as nat,
                    nesting: nesting as nat,
                }),
                name@,
                flow_of(old(self)@, *old(trail)),
            ),
            final(self)@ == (Graph { data: final(self)@.data, ..old(self)@ }),
        decreases 3 * nesting + 2, w, 0int,
    {
        broadcast use group_models;

        if was_traced(&trail.visited, file, symbol, name) {
            return;
        }
        let ghost before = models(trail.visited@);
        trail.visited.push(Track { file: owned(file), symbol: owned(symbol), name: owned(name) });
        assert(models(trail.visited@) == before.push((file@, symbol@, name@)));
        let source = match w.file(file) {
            Some(f) => match &f.content {
                Ok(s) => s.clone(),
                Err(_) => {
                    return;
                },
            },
            None => {
                return;
            },
        };
        let lang = match detect_language(file) {
            Some(l) => l,
            None => {
                return;
            },
        };
        let root = match parse(source.as_str(), lang) {
            Some(n) => n,
            None => {
                return;
            },
        };
        let (lo, hi) = match symbol_range(w, file, source.as_str(), symbol) {
            Some(r) => r,
            None => {
                return;
            },
        };
        let body = match find_covering(&root, lo, hi) {
            Some(n) => n,
            None => {
                return;
            },
        };
        let mut live: Vec<String> = Vec::new();
        live.push(owned(name));
        assert(models(live@) =~= seq![name@]);
        self.walk_value(w, body, &mut live, file, symbol, depth, max, nesting, trail);
    }

    fn walk_value(
        &mut self,
        w: &Worktree,
        node: &SyntaxNode,
        live: &mut Vec<String>,
        file: &str,
        symbol: &str,
        depth: usize,
        max: usize,
        nesting: usize,
        trail: &mut Trail,
    )
        requires
            depth + nesting <= usize::MAX,
        ensures
            ({
                let walked = flow_node(
                    w@,
                    (Place {
                        root: old(self)@.root,
                        file: file@,
                        symbol: symbol@,
                        depth: depth as nat,
                        max: max as nat,
                        nesting: nesting as nat,
                    }),
                    node@,
                    models(old(live)@),
                    flow_of(old(self)@, *old(trail)),
                );
                &&& flow_of(final(self)@, *final(trail)) == walked.0
                &&& models(final(live)@) == walked.1
            }),
            final(self)@ == (Graph { data: final(self)@.data, ..old(self)@ }),
        decreases 3 * nesting + 1, node, 2int,
    {
        broadcast use {group_models, lemma_children};

        let ghost at = Place {
            root: self@.root,
            file: file@,
            symbol: symbol@,
            depth: depth as nat,
            max: max as nat,
            nesting: nesting as nat,
        };
        let ghost t = node@;
        let ghost hops = models(trail.hops@);
        match extract_assignment_info(node, live) {
            Some(a) => {
                let rel = self.relative_path(file);
                let line = line_of(node.start_row);
                if a.approximate {
                    push_flow(
                        &mut trail.hops,
                        rel.as_str(),
                        symbol,
                        a.told.as_str(),
                        line,
                        "assignment",
                        true,
                    );
                    assert(models(trail.hops@) =~= hops + seq![models(trail.hops@).last()]);
                    return;
                }
                push_flow(
                    &mut trail.hops,
                    rel.as_str(),
                    symbol,
                    a.target.as_str(),
                    line,
                    "assignment",
                    false,
                );
                assert(models(trail.hops@) =~= hops + seq![models(trail.hops@).last()]);
                let ghost before = models(live@);
                let ghost added = a.target@;
                live.push(a.target);
                assert(models(live@) == before.push(added));
            },
            None => {
                assert(hops + Seq::<FlowModel>::empty() =~= hops);
            },
        }
        if node.is_kind("call_expression") || node.is_kind("call") || node.is_kind(
            "macro_invocation",
        ) {
            self.walk_call(w, node, live, file, symbol, depth, max, nesting, trail);
        }
        let ghost root = self@.root;
        let ghost want = flow_children(
            w@,
            at,
            t.children,
            0,
            models(live@),
            flow_of(self@, *trail),
        );
        let ghost start = self@;
        let mut i: usize = 0;
        while i < node.children.len()
            invariant
                i <= node.children.len(),
                depth + nesting <= usize::MAX,
                t == node@,
                t.children == trees(node.children@),
                at == (Place {
                    root: start.root,
                    file: file@,
                    symbol: symbol@,
                    depth: depth as nat,
                    max: max as nat,
                    nesting: nesting as nat,
                }),
                self@ == (Graph { data: self@.data, ..start }),
                want == flow_children(
                    w@,
                    at,
                    t.children,
                    i as int,
                    models(live@),
                    flow_of(self@, *trail),
                ),
            decreases node.children.len() - i,
        {
            assert(t.children[i as int] == node.children@[i as int]@);
            self.walk_value(
                w,
                &node.children[i],
                live,
                file,
                symbol,
                depth,
                max,
                nesting,
                trail,
            );
            i = i + 1;
        }
    }

    fn walk_call(
        &mut self,
        w: &Worktree,
        node: &SyntaxNode,
        live: &Vec<String>,
        file: &str,
        symbol: &str,
        depth: usize,
        max: usize,
        nesting: usize,
        trail: &mut Trail,
    )
        requires
            depth + nesting <= usize::MAX,
        ensures
            flow_of(final(self)@, *final(trail)) == flow_call(
                w@,
                (Place {
                    root: old(self)@.root,
                    file: file@,
                    symbol: symbol@,
                    depth: depth as nat,
                    max: max as nat,
                    nesting: nesting as nat,
                }),
                node@,
                models(live@),
                flow_of(old(self)@, *old(trail)),
            ),
            final(self)@ == (Graph { data: final(self)@.data, ..old(self)@ }),
        decreases 3 * nesting + 1, node, 1int,
    {
        broadcast use group_models;

        let list = match args_of(node) {
            Some(n) => n,
            None => {
                return;
            },
        };
        let rel = self.relative_path(file);
        let args = scan_args(list, live, rel.as_str(), symbol, &mut trail.hops);
        if args.len() == 0 {
            return;
        }
        let full = match node.child_by_field("function") {
            Some(c) => c.text.clone(),
            None => {
                return;
            },
        };
        let short = behind_dot(full.as_str());
        let imports = match self.known(file) {
            Some(f) => f.import_block.copy(),
            None => {
                return;
            },
        };
        let edge = self.resolve_cross_file_edge(w, full.as_str(), short.as_str(), file, &imports);
        match edge {
            EdgeResolution::Resolved { file: target, symbol: name } => {
                if depth >= max {
                    trail.limited = true;
                    return;
                }
                let c = self.canonicalize(w, target.as_str());
                let _ = self.ensure_built(w, c.as_str());
                let params = match self.known(target.as_str()) {
                    Some(f) => file_parameters(f, name.as_str()),
                    None => {
                        return;
                    },
                };
                self.walk_args(
                    w,
                    target.as_str(),
                    name.as_str(),
                    &params,
                    &args,
                    depth,
                    max,
                    nesting,
                    trail,
                    Ghost(file@),
                    Ghost(symbol@),
                );
            },
            EdgeResolution::Unresolved { callee_name } => {
                let params = match self.known(file) {
                    Some(f) => if get_entry(
                        &f.calls_by_symbol,
                        callee_name.as_str(),
                    ).is_some() || get_entry(
                        &f.symbol_metadata,
                        callee_name.as_str(),
                    ).is_some() {
                        Some(file_parameters(f, callee_name.as_str()))
                    } else {
                        None
                    },
                    None => None,
                };
                match params {
                    Some(params) => {
                        self.walk_args(
                            w,
                            file,
                            callee_name.as_str(),
                            &params,
                            &args,
                            depth,
                            max,
                            nesting,
                            trail,
                            Ghost(file@),
                            Ghost(symbol@),
                        );
                    },
                    None => {
                        let ghost all = models(args@);
                        let ghost start = models(trail.hops@);
                        let ghost lost = lost_hops(all, rel@, callee_name@, node@.row);
                        let mut i: usize = 0;
                        assert(start + lost.take(0) =~= start);
                        let ghost kept = (trail.limited, trail.visited);
                        while i < args.len()
                            invariant
                                i <= args.len(),
                                all == models(args@),
                                lost == lost_hops(all, rel@, callee_name@, node@.row),
                                models(trail.hops@) == start + lost.take(i as int),
                                (trail.limited, trail.visited) == kept,
                            decreases args.len() - i,
                        {
                            assert(all[i as int] == args@[i as int].deep_view());
                            let ghost before = models(trail.hops@);
                            push_flow(
                                &mut trail.hops,
                                rel.as_str(),
                                callee_name.as_str(),
                                args[i].text.as_str(),
                                line_of(node.start_row),
                                "parameter",
                                true,
                            );
                            proof {
                                assert(models(trail.hops@) == before.push(lost[i as int]));
                                assert(models(trail.hops@) =~= start + lost.take(i + 1));
                            }
                            i = i + 1;
                        }
                        assert(lost.take(lost.len() as int) =~= lost);
                    },
                }
            },
        }
    }

    fn walk_args(
        &mut self,
        w: &Worktree,
        file: &str,
        symbol: &str,
        params: &Vec<String>,
        args: &Vec<LiveArg>,
        depth: usize,
        max: usize,
        nesting: usize,
        trail: &mut Trail,
        Ghost(from_file): Ghost<Seq<char>>,
        Ghost(from_symbol): Ghost<Seq<char>>,
    )
        requires
            depth + nesting <= usize::MAX,
        ensures
            flow_of(final(self)@, *final(trail)) == flow_args(
                w@,
                (Place {
                    root: old(self)@.root,
                    file: from_file,
                    symbol: from_symbol,
                    depth: depth as nat,
                    max: max as nat,
                    nesting: nesting as nat,
                }),
                file@,
                symbol@,
                models(params@),
                models(args@),
                0,
                flow_of(old(self)@, *old(trail)),
            ),
            final(self)@ == (Graph { data: final(self)@.data, ..old(self)@ }),
        decreases 3 * nesting, w, 0int,
    {
        let ghost at = Place {
            root: self@.root,
            file: from_file,
            symbol: from_symbol,
            depth: depth as nat,
            max: max as nat,
            nesting: nesting as nat,
        };
        let ghost all = models(args@);
        let ghost ps = models(params@);
        let ghost start = self@;
        let ghost want = flow_args(w@, at, file@, symbol@, ps, all, 0, flow_of(self@, *trail));
        let mut i: usize = 0;
        while i < args.len()
            invariant
                i <= args.len(),
                depth + nesting <= usize::MAX,
                all == models(args@),
                ps == models(params@),
                at == (Place {
                    root: start.root,
                    file: from_file,
                    symbol: from_symbol,
                    depth: depth as nat,
                    max: max as nat,
                    nesting: nesting as nat,
                }),
                self@ == (Graph { data: self@.data, ..start }),
                want == flow_args(
                    w@,
                    at,
                    file@,
                    symbol@,
                    ps,
                    all,
                    i as int,
                    flow_of(self@, *trail),
                ),
            decreases args.len() - i,
        {
            let pos: usize = args[i].position;
            assert(all[i as int] == args@[i as int].deep_view());
            if pos < params.len() {
                assert(ps[pos as int] == params@[pos as int]@);
                let rel = self.relative_path(file);
                let (line, _) = get_symbol_meta(w, file, symbol);
                push_flow(
                    &mut trail.hops,
                    rel.as_str(),
                    symbol,
                    params[pos].as_str(),
                    line,
                    "parameter",
                    false,
                );
                if nesting > 0 {
                    self.trace_value(
                        w,
                        file,
                        symbol,
                        params[pos].as_str(),
                        depth + 1,
                        max,
                        nesting - 1,
                        trail,
                    );
                }
            }
            i = i + 1;
        }
    }

    /// How a value of a symbol flows through assignments and into parameters, up to
    /// `max_depth` calls into other files deep.
    pub fn trace_data(
        &mut self,
        w: &Worktree,
        file: &str,
        symbol: &str,
        expression: &str,
        max_depth: usize,
    ) -> (r: Result<TraceDataResult, AftError>)
        ensures
            ({
                let g = old(self)@;
                let c = canon(w@, g.root, file@);
                let cc = canon(w@, g.root, c);
                let ready = Graph { data: built(w@, g.data, cc), ..g };
                match build_outcome(w@, g.data, cc) {
                    Err(e) => outcome(r) == Err::<DataModel, Fault>(e) && final(self)@ == ready,
                    Ok(_) => match table_get(ready.data, c) {
                        None => outcome(r) == Err::<DataModel, Fault>(
                            Fault::InvalidRequest { message: "file data missing after build"@ },
                        ) && final(self)@ == ready,
                        Some(m) => if !has_symbol(m, symbol@) {
                            outcome(r) == Err::<DataModel, Fault>(
                                Fault::InvalidRequest {
                                    message: "trace_data: symbol '"@ + symbol@ + "' not found in "@
                                        + file@,
                                },
                            ) && final(self)@ == ready
                        } else {
                            let flow = traced(
                                w@,
                                (Place {
                                    root: g.root,
                                    file: c,
                                    symbol: symbol@,
                                    depth: 0,
                                    max: max_depth as nat,
                                    nesting: usize::MAX as nat,
                                }),
                                expression@,
                                (Flow {
                                    data: ready.data,
                                    hops: Seq::empty(),
                                    limited: false,
                                    visited: Seq::empty(),
                                }),
                            );
                            &&& final(self)@ == (Graph { data: flow.data, ..ready })
                            &&& outcome(r) == Ok::<DataModel, Fault>(
                                DataModel {
                                    expression: expression@,
                                    origin_file: path_relative(c, g.root),
                                    origin_symbol: symbol@,
                                    hops: flow.hops,
                                    depth_limited: flow.limited,
                                },
                            )
                        },
                    },
                }
            }),
    {
        broadcast use group_models;

        let c = self.canonicalize(w, file);
        let cc = self.canonicalize(w, c.as_str());
        let rel_file = self.relative_path(c.as_str());
        match self.ensure_built(w, cc.as_str()) {
            Ok(_) => {},
            Err(e) => {
                return Err(e);
            },
        }
        let there = match self.known(c.as_str()) {
            Some(f) => knows_symbol(f, symbol),
            None => {
                return Err(
                    AftError::InvalidRequest {
                        message: "file data missing after build".to_owned(),
                    },
                );
            },
        };
        if !there {
            let mut message = "trace_data: symbol '".to_owned();
            message.append(symbol);
            message.append("' not found in ");
            message.append(file);
            return Err(AftError::InvalidRequest { message });
        }
        let mut trail = Trail { hops: Vec::new(), limited: false, visited: Vec::new() };
        self.trace_value(
            w,
            c.as_str(),
            symbol,
            expression,
            0,
            max_depth,
            usize::MAX,
            &mut trail,
        );
        Ok(
            TraceDataResult {
                expression: owned(expression),
                origin_file: rel_file,
                origin_symbol: owned(symbol),
                hops: trail.hops,
                depth_limited: trail.limited,
            },
        )
    }
}

/// Whether a known file has a symbol: one that makes calls, is exported or is listed.
pub open spec fn has_symbol(m: FileModel, symbol: Seq<char>) -> bool {
    table_get(m.calls, symbol) is Some || m.exported.contains(symbol) || table_get(
        m.metadata,
        symbol,
    ) is Some
}

/// Whether a known file has a symbol.
pub fn knows_symbol(f: &FileCallData, symbol: &str) -> (r: bool)
    ensures
        r == has_symbol(f.deep_view(), symbol@),
{
    get_entry(&f.calls_by_symbol, symbol).is_some() || is_live(symbol, &f.exported_symbols)
        || get_entry(&f.symbol_metadata, symbol).is_some()
}

} // verus!
