//! What holds of the ways on which values flow, whatever the project.
use vstd::prelude::*;

use crate::callgraph::data::symbol_place;
use crate::callgraph::flow::{
    arg_count, arg_list, assignment_in, body_of, covering, covering_among, flow_args, flow_call,
    flow_children, flow_node, known_parameters, live_args, lost_hops, spread_hops, traced, Flow, Place,
};
use crate::callgraph::graph::{built, canon, followed};
use crate::callgraph::model::{EdgeModel, FileModel, FlowModel};
use crate::callgraph::worktree::Disk;
use crate::calls::last_dot_segment;
use crate::models::table_get;
use crate::paths::path_relative;
use crate::syntax::{
    first_field_is_found, first_of_a_kind_is_found, is_field, is_first_kind, lacks_field,
    lacks_kind, line_number, Tree,
};
use crate::text::{lemma_find_from, occurs};

verus! {

/// Whether a trace has gone on from another: what was found stays found.
pub open spec fn goes_on(before: Flow, after: Flow) -> bool {
    &&& before.hops.is_prefix_of(after.hops)
    &&& before.limited ==> after.limited
    &&& before.visited.is_prefix_of(after.visited)
}

proof fn lemma_goes_on(a: Flow, b: Flow, c: Flow)
    requires
        goes_on(a, b),
        goes_on(b, c),
    ensures
        goes_on(a, c),
{
    assert(a.hops =~= c.hops.take(a.hops.len() as int)) by {
        assert(a.hops =~= b.hops.take(a.hops.len() as int));
        assert(b.hops =~= c.hops.take(b.hops.len() as int));
    }
    assert(a.visited =~= c.visited.take(a.visited.len() as int)) by {
        assert(a.visited =~= b.visited.take(a.visited.len() as int));
        assert(b.visited =~= c.visited.take(b.visited.len() as int));
    }
}

proof fn lemma_more(a: Flow, b: Flow, more: Seq<FlowModel>)
    requires
        b.hops == a.hops + more,
        a.limited ==> b.limited,
        b.visited == a.visited,
    ensures
        goes_on(a, b),
{
    assert(a.hops =~= b.hops.take(a.hops.len() as int));
    assert(a.visited =~= b.visited.take(a.visited.len() as int));
}

proof fn lemma_traced_goes_on(d: Disk, at: Place, name: Seq<char>, st: Flow)
    ensures
        goes_on(st, traced(d, at, name, st)),
    decreases 3 * at.nesting + 2, at, 0int,
{
    lemma_more(st, st, Seq::empty());
    if !st.visited.contains((at.file, at.symbol, name)) {
        let entered = Flow { visited: st.visited.push((at.file, at.symbol, name)), ..st };
        assert(st.visited =~= entered.visited.take(st.visited.len() as int));
        assert(st.hops =~= entered.hops.take(st.hops.len() as int));
        match body_of(d, at.file, at.symbol) {
            Some(body) => {
                lemma_node_goes_on(d, at, body, seq![name], entered);
                lemma_goes_on(st, entered, flow_node(d, at, body, seq![name], entered).0);
            },
            None => {},
        }
    }
}

proof fn lemma_node_goes_on(d: Disk, at: Place, t: Tree, live: Seq<Seq<char>>, st: Flow)
    ensures
        goes_on(st, flow_node(d, at, t, live, st).0),
        live.is_prefix_of(flow_node(d, at, t, live, st).1),
    decreases 3 * at.nesting + 1, t, 2int,
{
    let step = assignment_in(t, live);
    let hop = match step {
        Some(a) => seq![
            FlowModel {
                file: path_relative(at.file, at.root),
                symbol: at.symbol,
                variable: if a.approximate {
                    a.told
                } else {
                    a.target
                },
                line: line_number(t.row),
                flow_type: "assignment"@,
                approximate: a.approximate,
            },
        ],
        None => Seq::empty(),
    };
    let assigned = Flow { hops: st.hops + hop, ..st };
    lemma_more(st, assigned, hop);
    assert(live =~= live.take(live.len() as int));
    if !(step is Some && step->0.approximate) {
        let names = match step {
            Some(a) => live.push(a.target),
            None => live,
        };
        assert(live =~= names.take(live.len() as int));
        let called = if t.kind == "call_expression"@ || t.kind == "call"@ || t.kind
            == "macro_invocation"@ {
            lemma_call_goes_on(d, at, t, names, assigned);
            flow_call(d, at, t, names, assigned)
        } else {
            assigned
        };
        lemma_more(assigned, assigned, Seq::empty());
        lemma_goes_on(st, assigned, called);
        lemma_children_go_on(d, at, t.children, 0, names, called);
        let r = flow_children(d, at, t.children, 0, names, called);
        lemma_goes_on(st, called, r.0);
        assert(live =~= r.1.take(live.len() as int)) by {
            assert(names =~= r.1.take(names.len() as int));
        }
    }
}

proof fn lemma_children_go_on(
    d: Disk,
    at: Place,
    list: Seq<Tree>,
    from: int,
    live: Seq<Seq<char>>,
    st: Flow,
)
    ensures
        goes_on(st, flow_children(d, at, list, from, live, st).0),
        live.is_prefix_of(flow_children(d, at, list, from, live, st).1),
    decreases 3 * at.nesting + 1, list, list.len() - from,
{
    lemma_more(st, st, Seq::empty());
    assert(live =~= live.take(live.len() as int));
    if 0 <= from < list.len() {
        let first = flow_node(d, at, list[from], live, st);
        lemma_node_goes_on(d, at, list[from], live, st);
        lemma_children_go_on(d, at, list, from + 1, first.1, first.0);
        let r = flow_children(d, at, list, from + 1, first.1, first.0);
        lemma_goes_on(st, first.0, r.0);
        assert(live =~= r.1.take(live.len() as int)) by {
            assert(live =~= first.1.take(live.len() as int));
            assert(first.1 =~= r.1.take(first.1.len() as int));
        }
    }
}

proof fn lemma_call_goes_on(d: Disk, at: Place, t: Tree, live: Seq<Seq<char>>, st: Flow)
    ensures
        goes_on(st, flow_call(d, at, t, live, st)),
    decreases 3 * at.nesting + 1, t, 1int,
{
    lemma_more(st, st, Seq::empty());
    let rel = path_relative(at.file, at.root);
    match arg_list(t) {
        None => {},
        Some(list) => {
            let args = live_args(list.children, live);
            let more = spread_hops(list.children, live, rel, at.symbol);
            let spread = Flow { hops: st.hops + more, ..st };
            lemma_more(st, spread, more);
            match (t.child_of_field("function"@), table_get(st.data, at.file)) {
                (Some(callee), Some(m)) => if args.len() > 0 {
                    let step = followed(
                        d,
                        at.root,
                        st.data,
                        callee.text,
                        last_dot_segment(callee.text),
                        at.file,
                        m.imports,
                    );
                    let known = Flow { data: step.0, ..spread };
                    lemma_more(spread, known, Seq::empty());
                    lemma_goes_on(st, spread, known);
                    match step.1 {
                        EdgeModel::Resolved { file, symbol } => {
                            let now = built(d, step.0, canon(d, at.root, file));
                            let deeper = Flow { data: now, ..known };
                            match table_get(now, file) {
                                Some(target) => {
                                    let ps = known_parameters(target, symbol);
                                    lemma_args_go_on(d, at, file, symbol, ps, args, 0, deeper);
                                    lemma_goes_on(
                                        st,
                                        deeper,
                                        flow_args(d, at, file, symbol, ps, args, 0, deeper),
                                    );
                                },
                                None => {},
                            }
                        },
                        EdgeModel::Unresolved { callee_name } => {
                            let lost = lost_hops(args, rel, callee_name, t.row);
                            lemma_more(
                                known,
                                Flow { hops: known.hops + lost, ..known },
                                lost,
                            );
                            lemma_goes_on(st, known, Flow { hops: known.hops + lost, ..known });
                            match table_get(step.0, at.file) {
                                Some(own) => {
                                    let ps = known_parameters(own, callee_name);
                                    lemma_args_go_on(
                                        d,
                                        at,
                                        at.file,
                                        callee_name,
                                        ps,
                                        args,
                                        0,
                                        known,
                                    );
                                    lemma_goes_on(
                                        st,
                                        known,
                                        flow_args(
                                            d,
                                            at,
                                            at.file,
                                            callee_name,
                                            ps,
                                            args,
                                            0,
                                            known,
                                        ),
                                    );
                                },
                                None => {},
                            }
                        },
                    }
                },
                _ => {},
            }
        },
    }
}

proof fn lemma_args_go_on(
    d: Disk,
    at: Place,
    file: Seq<char>,
    symbol: Seq<char>,
    params: Seq<Seq<char>>,
    args: Seq<(int, Seq<char>)>,
    from: int,
    st: Flow,
)
    ensures
        goes_on(st, flow_args(d, at, file, symbol, params, args, from, st)),
    decreases 3 * at.nesting, at, args.len() - from,
{
    lemma_more(st, st, Seq::empty());
    if 0 <= from < args.len() {
        let i = args[from].0;
        let next = if 0 <= i < params.len() {
            let hop = FlowModel {
                file: path_relative(file, at.root),
                symbol,
                variable: params[i],
                line: symbol_place(d.symbols(file), symbol, 0).0,
                flow_type: "parameter"@,
                approximate: false,
            };
            let told = Flow { hops: st.hops.push(hop), ..st };
            assert(told.hops =~= st.hops + seq![hop]);
            lemma_more(st, told, seq![hop]);
            if at.nesting > 0 {
                let inner = Place {
                    file,
                    symbol,
                    depth: at.depth + 1,
                    nesting: (at.nesting - 1) as nat,
                    ..at
                };
                lemma_traced_goes_on(d, inner, params[i], told);
                lemma_goes_on(st, told, traced(d, inner, params[i], told));
                traced(d, inner, params[i], told)
            } else {
                told
            }
        } else {
            st
        };
        lemma_args_go_on(d, at, file, symbol, params, args, from + 1, next);
        lemma_goes_on(
            st,
            next,
            flow_args(d, at, file, symbol, params, args, from + 1, next),
        );
    }
}

/// A trace forgets nothing: the steps that were found stay in their order, and so do the names
/// that are live.
pub proof fn traces_forget_nothing(d: Disk, at: Place, t: Tree, live: Seq<Seq<char>>, st: Flow)
    ensures
        st.hops.is_prefix_of(flow_node(d, at, t, live, st).0.hops),
        live.is_prefix_of(flow_node(d, at, t, live, st).1),
        st.limited ==> flow_node(d, at, t, live, st).0.limited,
{
    lemma_node_goes_on(d, at, t, live, st);
}

/// Nodes are walked one after the other: each is met with the names and the steps that the ones
/// before it left.
pub proof fn nodes_are_walked_in_order(
    d: Disk,
    at: Place,
    list: Seq<Tree>,
    i: int,
    live: Seq<Seq<char>>,
    st: Flow,
)
    requires
        0 <= i < list.len(),
    ensures
        flow_children(d, at, list, list.len() as int, live, st) == (st, live),
        ({
            let here = flow_node(d, at, list[i], live, st);
            flow_children(d, at, list, i, live, st) == flow_children(
                d,
                at,
                list,
                i + 1,
                here.1,
                here.0,
            )
        }),
{
}

proof fn lemma_assignment_kinds()
    ensures
        "assignment"@.len() == 10,
        "let_declaration"@.len() == 15,
        "let_declaration"@[0] == 'l',
        "variable_declarator"@.len() == 19,
        "assignment_expression"@.len() == 21,
        "assignment_expression"@[0] == 'a',
        "short_var_declaration"@.len() == 21,
        "short_var_declaration"@[0] == 's',
        "augmented_assignment_expression"@.len() == 31,
        "call"@.len() == 4,
        "call_expression"@.len() == 15,
        "call_expression"@[0] == 'c',
        "macro_invocation"@.len() == 16,
{
    reveal_strlit("assignment");
    reveal_strlit("let_declaration");
    reveal_strlit("variable_declarator");
    reveal_strlit("assignment_expression");
    reveal_strlit("short_var_declaration");
    reveal_strlit("augmented_assignment_expression");
    reveal_strlit("call");
    reveal_strlit("call_expression");
    reveal_strlit("macro_invocation");
}

/// Whether a node assigns what its right side is to what its left side is.
pub open spec fn assigns_sides(t: Tree, left: Tree, right: Tree) -> bool {
    ||| (t.kind == "assignment"@ || t.kind == "assignment_expression"@ || t.kind
        == "augmented_assignment_expression"@) && is_field(t, "left"@, left) && is_field(
        t,
        "right"@,
        right,
    )
    ||| (t.kind == "let_declaration"@ || t.kind == "short_var_declaration"@) && (is_field(
        t,
        "pattern"@,
        left,
    ) || (lacks_field(t, "pattern"@) && is_field(t, "left"@, left))) && (is_field(
        t,
        "value"@,
        right,
    ) || (lacks_field(t, "value"@) && is_field(t, "right"@, right)))
}

proof fn lemma_own_step(
    d: Disk,
    at: Place,
    t: Tree,
    live: Seq<Seq<char>>,
    st: Flow,
    name: Seq<char>,
    hop: FlowModel,
)
    requires
        flow_node(d, at, t, live, st) == flow_children(
            d,
            at,
            t.children,
            0,
            live.push(name),
            (Flow { hops: st.hops.push(hop), ..st }),
        ),
    ensures
        flow_node(d, at, t, live, st).0.hops.len() > st.hops.len(),
        flow_node(d, at, t, live, st).0.hops[st.hops.len() as int] == hop,
        flow_node(d, at, t, live, st).1.contains(name),
{
    let told = Flow { hops: st.hops.push(hop), ..st };
    let names = live.push(name);
    lemma_children_go_on(d, at, t.children, 0, names, told);
    let r = flow_children(d, at, t.children, 0, names, told);
    assert(told.hops =~= r.0.hops.take(told.hops.len() as int));
    assert(r.0.hops[st.hops.len() as int] == told.hops[st.hops.len() as int]);
    assert(names =~= r.1.take(names.len() as int));
    assert(names[live.len() as int] == name);
    assert(r.1.take(names.len() as int)[live.len() as int] == name);
    assert(r.1[live.len() as int] == name);
}

/// A live name that is assigned makes what it is assigned to live: the step that is told names
/// the left side, on the assignment's line, and the left side is live in the assignment and behind
/// it.
pub proof fn assignments_pass_the_value_on(
    d: Disk,
    at: Place,
    t: Tree,
    left: Tree,
    right: Tree,
    live: Seq<Seq<char>>,
    st: Flow,
)
    requires
        assigns_sides(t, left, right),
        live.contains(right.text),
        0 <= t.row < u32::MAX,
    ensures
        ({
            let hop = FlowModel {
                file: path_relative(at.file, at.root),
                symbol: at.symbol,
                variable: left.text,
                line: t.row + 1,
                flow_type: "assignment"@,
                approximate: false,
            };
            let after = flow_node(d, at, t, live, st);
            &&& after == flow_children(
                d,
                at,
                t.children,
                0,
                live.push(left.text),
                (Flow { hops: st.hops.push(hop), ..st }),
            )
            &&& after.0.hops.len() > st.hops.len()
            &&& after.0.hops[st.hops.len() as int] == hop
            &&& after.1.contains(left.text)
        }),
{
    lemma_assignment_kinds();
    first_field_is_found(t, "left"@);
    first_field_is_found(t, "right"@);
    first_field_is_found(t, "pattern"@);
    first_field_is_found(t, "value"@);
    let hop = FlowModel {
        file: path_relative(at.file, at.root),
        symbol: at.symbol,
        variable: left.text,
        line: t.row + 1,
        flow_type: "assignment"@,
        approximate: false,
    };
    assert(st.hops + seq![hop] =~= st.hops.push(hop));
    lemma_own_step(d, at, t, live, st, left.text, hop);
}

/// Where the right side of an assignment is no live name, nothing is told of the assignment
/// itself, and no name becomes live by it.
pub proof fn other_assignments_pass_nothing_on(
    d: Disk,
    at: Place,
    t: Tree,
    left: Tree,
    right: Tree,
    live: Seq<Seq<char>>,
    st: Flow,
)
    requires
        assigns_sides(t, left, right),
        !live.contains(right.text),
    ensures
        flow_node(d, at, t, live, st) == flow_children(d, at, t.children, 0, live, st),
{
    lemma_assignment_kinds();
    first_field_is_found(t, "left"@);
    first_field_is_found(t, "right"@);
    first_field_is_found(t, "pattern"@);
    first_field_is_found(t, "value"@);
    assert(st.hops + Seq::<FlowModel>::empty() =~= st.hops);
}

/// Whether a node declares a name with a value.
pub open spec fn declares(t: Tree, name: Tree, value: Tree) -> bool {
    t.kind == "variable_declarator"@ && is_field(t, "name"@, name) && is_field(
        t,
        "value"@,
        value,
    )
}

/// Whether a text is a name, or a member or an element of it.
pub open spec fn comes_from(text: Seq<char>, name: Seq<char>) -> bool {
    text == name || (text.len() > name.len() && text.take(name.len() as int) == name && (
    text[name.len() as int] == '.' || text[name.len() as int] == '['))
}

proof fn lemma_comes_from(text: Seq<char>, name: Seq<char>)
    ensures
        comes_from(text, name) == (text == name || (name + "."@).is_prefix_of(text) || (name
            + "["@).is_prefix_of(text)),
{
    reveal_strlit(".");
    reveal_strlit("[");
    let n = name.len() as int;
    if text.len() > n && text.take(n) == name {
        assert(text.take(n + 1) =~= name.push(text[n]));
        assert(name + "."@ =~= name.push('.'));
        assert(name + "["@ =~= name.push('['));
    }
    if (name + "."@).is_prefix_of(text) {
        assert((name + "."@)[n] == text.take(n + 1)[n]);
        assert(text.take(n) =~= (name + "."@).take(n));
        assert((name + "."@).take(n) =~= name);
    }
    if (name + "["@).is_prefix_of(text) {
        assert((name + "["@)[n] == text.take(n + 1)[n]);
        assert(text.take(n) =~= (name + "["@).take(n));
        assert((name + "["@).take(n) =~= name);
    }
}

/// A variable that is declared as a live name, or as a member or an element of one, is live in
/// the declaration and behind it, and the step that is told names it.
pub proof fn declarations_pass_the_value_on(
    d: Disk,
    at: Place,
    t: Tree,
    name: Tree,
    value: Tree,
    live: Seq<Seq<char>>,
    i: int,
    st: Flow,
)
    requires
        declares(t, name, value),
        name.kind != "object_pattern"@,
        name.kind != "array_pattern"@,
        0 <= i < live.len(),
        comes_from(value.text, live[i]),
        0 <= t.row < u32::MAX,
    ensures
        ({
            let hop = FlowModel {
                file: path_relative(at.file, at.root),
                symbol: at.symbol,
                variable: name.text,
                line: t.row + 1,
                flow_type: "assignment"@,
                approximate: false,
            };
            let after = flow_node(d, at, t, live, st);
            &&& after == flow_children(
                d,
                at,
                t.children,
                0,
                live.push(name.text),
                (Flow { hops: st.hops.push(hop), ..st }),
            )
            &&& after.0.hops.len() > st.hops.len()
            &&& after.0.hops[st.hops.len() as int] == hop
            &&& after.1.contains(name.text)
        }),
{
    lemma_assignment_kinds();
    first_field_is_found(t, "name"@);
    first_field_is_found(t, "value"@);
    lemma_comes_from(value.text, live[i]);
    let hop = FlowModel {
        file: path_relative(at.file, at.root),
        symbol: at.symbol,
        variable: name.text,
        line: t.row + 1,
        flow_type: "assignment"@,
        approximate: false,
    };
    assert(st.hops + seq![hop] =~= st.hops.push(hop));
    lemma_own_step(d, at, t, live, st, name.text, hop);
}

/// A variable that is declared as something else is passed over.
pub proof fn other_declarations_pass_nothing_on(
    d: Disk,
    at: Place,
    t: Tree,
    name: Tree,
    value: Tree,
    live: Seq<Seq<char>>,
    st: Flow,
)
    requires
        declares(t, name, value),
        name.kind != "object_pattern"@,
        name.kind != "array_pattern"@,
        forall|i: int| 0 <= i < live.len() ==> !comes_from(value.text, #[trigger] live[i]),
    ensures
        flow_node(d, at, t, live, st) == flow_children(d, at, t.children, 0, live, st),
{
    lemma_assignment_kinds();
    first_field_is_found(t, "name"@);
    first_field_is_found(t, "value"@);
    assert forall|i: int| 0 <= i < live.len() implies !(value.text == #[trigger] live[i] || (live[i]
        + "."@).is_prefix_of(value.text) || (live[i] + "["@).is_prefix_of(value.text)) by {
        lemma_comes_from(value.text, live[i]);
    }
    assert(st.hops + Seq::<FlowModel>::empty() =~= st.hops);
}

/// A pattern that takes a value apart in which a live name stands is told as an approximate step
/// with the pattern as its variable. It is not looked into, and nothing becomes live by it.
pub proof fn patterns_are_told_and_left(
    d: Disk,
    at: Place,
    t: Tree,
    name: Tree,
    value: Tree,
    live: Seq<Seq<char>>,
    i: int,
    j: int,
    st: Flow,
)
    requires
        declares(t, name, value),
        name.kind == "object_pattern"@ || name.kind == "array_pattern"@,
        0 <= i < live.len(),
        0 <= j <= value.text.len() - live[i].len(),
        value.text.subrange(j, j + live[i].len()) == live[i],
        0 <= t.row < u32::MAX,
    ensures
        flow_node(d, at, t, live, st).1 == live,
        flow_node(d, at, t, live, st).0.hops == st.hops.push(
            FlowModel {
                file: path_relative(at.file, at.root),
                symbol: at.symbol,
                variable: name.text,
                line: t.row + 1,
                flow_type: "assignment"@,
                approximate: true,
            },
        ),
{
    lemma_assignment_kinds();
    first_field_is_found(t, "name"@);
    first_field_is_found(t, "value"@);
    lemma_find_from(value.text, live[i], 0);
    assert(occurs(value.text, live[i]));
    let hop = FlowModel {
        file: path_relative(at.file, at.root),
        symbol: at.symbol,
        variable: name.text,
        line: t.row + 1,
        flow_type: "assignment"@,
        approximate: true,
    };
    assert(st.hops + seq![hop] =~= st.hops.push(hop));
}

/// A node that neither assigns nor calls is only looked into, and a call is followed before it is
/// looked into.
pub proof fn other_nodes_are_looked_into(
    d: Disk,
    at: Place,
    t: Tree,
    live: Seq<Seq<char>>,
    st: Flow,
)
    requires
        t.kind != "assignment"@ && t.kind != "assignment_expression"@ && t.kind
            != "augmented_assignment_expression"@,
        t.kind != "let_declaration"@ && t.kind != "short_var_declaration"@ && t.kind
            != "variable_declarator"@,
    ensures
        flow_node(d, at, t, live, st) == flow_children(
            d,
            at,
            t.children,
            0,
            live,
            if t.kind == "call"@ || t.kind == "call_expression"@ || t.kind == "macro_invocation"@ {
                flow_call(d, at, t, live, st)
            } else {
                st
            },
        ),
{
    lemma_assignment_kinds();
    assert(st.hops + Seq::<FlowModel>::empty() =~= st.hops);
}

/// Whether a node of an argument list is an argument, as opposed to punctuation.
pub open spec fn is_argument(c: Tree) -> bool {
    c.kind != "("@ && c.kind != ")"@ && c.kind != ","@
}

/// Whether a node is the argument list of a call.
pub open spec fn has_arguments(t: Tree, list: Tree) -> bool {
    is_first_kind(t, "arguments"@, list) || (lacks_kind(t, "arguments"@) && is_first_kind(
        t,
        "argument_list"@,
        list,
    ))
}

/// Whether the node at `k` of an argument list is a live name that is handed over as it is.
pub open spec fn hands_over(list: Tree, k: int, live: Seq<Seq<char>>) -> bool {
    &&& 0 <= k < list.children.len()
    &&& is_argument(list.children[k])
    &&& list.children[k].kind != "spread_element"@
    &&& list.children[k].kind != "dictionary_splat"@
    &&& live.contains(list.children[k].text)
}

/// How many arguments stand before the node at `k` of an argument list.
pub open spec fn arguments_before(list: Tree, k: int) -> int {
    list.children.take(k).filter(|c: Tree| is_argument(c)).len() as int
}

proof fn lemma_arg_count(list: Seq<Tree>)
    ensures
        arg_count(list) == list.filter(|c: Tree| is_argument(c)).len(),
    decreases list.len(),
{
    reveal(Seq::filter);
    if list.len() > 0 {
        lemma_arg_count(list.drop_last());
    }
}

proof fn lemma_live_args(list: Seq<Tree>, live: Seq<Seq<char>>, k: int)
    requires
        0 <= k < list.len(),
        is_argument(list[k]),
        list[k].kind != "spread_element"@,
        list[k].kind != "dictionary_splat"@,
        live.contains(list[k].text),
    ensures
        live_args(list, live).contains((arg_count(list.take(k)), list[k].text)),
    decreases list.len(),
{
    let rest = live_args(list.drop_last(), live);
    let all = live_args(list, live);
    let want = (arg_count(list.take(k)), list[k].text);
    if k == list.len() - 1 {
        assert(list.take(k) =~= list.drop_last());
        assert(all.last() == want);
    } else {
        lemma_live_args(list.drop_last(), live, k);
        assert(list.drop_last().take(k) =~= list.take(k));
        let i = choose|i: int| 0 <= i < rest.len() && rest[i] == want;
        assert(all[i] == want);
    }
}

proof fn lemma_no_live_args(list: Seq<Tree>, live: Seq<Seq<char>>, file: Seq<char>, symbol: Seq<char>)
    requires
        forall|k: int|
            0 <= k < list.len() && is_argument(#[trigger] list[k]) ==> !live.contains(list[k].text)
                && list[k].kind != "spread_element"@ && list[k].kind != "dictionary_splat"@,
    ensures
        live_args(list, live).len() == 0,
        spread_hops(list, live, file, symbol).len() == 0,
    decreases list.len(),
{
    if list.len() > 0 {
        assert(list.last() == list[list.len() - 1]);
        assert forall|k: int|
            0 <= k < list.drop_last().len() && is_argument(
                #[trigger] list.drop_last()[k],
            ) implies !live.contains(list.drop_last()[k].text) && list.drop_last()[k].kind
            != "spread_element"@ && list.drop_last()[k].kind != "dictionary_splat"@ by {
            assert(list.drop_last()[k] == list[k]);
        }
        lemma_no_live_args(list.drop_last(), live, file, symbol);
    }
}

proof fn lemma_arguments(t: Tree, list: Tree)
    requires
        has_arguments(t, list),
    ensures
        arg_list(t) == Some(list),
{
    first_of_a_kind_is_found(t, "arguments"@);
    first_of_a_kind_is_found(t, "argument_list"@);
}

/// A call to which no live name is handed over is not followed.
pub proof fn calls_without_the_value_are_passed_over(
    d: Disk,
    at: Place,
    t: Tree,
    list: Tree,
    live: Seq<Seq<char>>,
    st: Flow,
)
    requires
        has_arguments(t, list),
        forall|k: int|
            0 <= k < list.children.len() && is_argument(#[trigger] list.children[k])
                ==> !live.contains(list.children[k].text) && list.children[k].kind
                != "spread_element"@ && list.children[k].kind != "dictionary_splat"@,
    ensures
        flow_call(d, at, t, live, st) == st,
{
    lemma_arguments(t, list);
    let rel = path_relative(at.file, at.root);
    lemma_no_live_args(list.children, live, rel, at.symbol);
    assert(st.hops + spread_hops(list.children, live, rel, at.symbol) =~= st.hops);
}

/// Where a call leads to nothing that is known, every live name that is handed over is told as an
/// approximate step into what is called, on the line of the call.
pub proof fn values_are_lost_in_unknown_calls(
    d: Disk,
    at: Place,
    t: Tree,
    list: Tree,
    callee: Tree,
    m: FileModel,
    name: Seq<char>,
    k: int,
    live: Seq<Seq<char>>,
    st: Flow,
)
    requires
        has_arguments(t, list),
        is_field(t, "function"@, callee),
        hands_over(list, k, live),
        table_get(st.data, at.file) == Some(m),
        ({
            let step = followed(
                d,
                at.root,
                st.data,
                callee.text,
                last_dot_segment(callee.text),
                at.file,
                m.imports,
            );
            step.1 == (EdgeModel::Unresolved { callee_name: name }) && match table_get(
                step.0,
                at.file,
            ) {
                Some(own) => table_get(own.calls, name) is None && table_get(
                    own.metadata,
                    name,
                ) is None,
                None => true,
            }
        }),
        0 <= t.row < u32::MAX,
    ensures
        flow_call(d, at, t, live, st).hops.contains(
            FlowModel {
                file: path_relative(at.file, at.root),
                symbol: name,
                variable: list.children[k].text,
                line: t.row + 1,
                flow_type: "parameter"@,
                approximate: true,
            },
        ),
{
    lemma_arguments(t, list);
    first_field_is_found(t, "function"@);
    lemma_live_args(list.children, live, k);
    let args = live_args(list.children, live);
    let want = (arg_count(list.children.take(k)), list.children[k].text);
    let i = choose|i: int| 0 <= i < args.len() && args[i] == want;
    let rel = path_relative(at.file, at.root);
    let lost = lost_hops(args, rel, name, t.row);
    let before = st.hops + spread_hops(list.children, live, rel, at.symbol);
    let after = flow_call(d, at, t, live, st).hops;
    assert(after == before + lost);
    assert(after[before.len() + i] == lost[i]);
}

proof fn lemma_arg_is_told(
    d: Disk,
    at: Place,
    file: Seq<char>,
    symbol: Seq<char>,
    params: Seq<Seq<char>>,
    args: Seq<(int, Seq<char>)>,
    from: int,
    i: int,
    st: Flow,
)
    requires
        0 <= from <= i < args.len(),
        0 <= args[i].0 < params.len(),
    ensures
        flow_args(d, at, file, symbol, params, args, from, st).hops.contains(
            FlowModel {
                file: path_relative(file, at.root),
                symbol,
                variable: params[args[i].0],
                line: symbol_place(d.symbols(file), symbol, 0).0,
                flow_type: "parameter"@,
                approximate: false,
            },
        ),
        at.nesting > 0 ==> flow_args(
            d,
            at,
            file,
            symbol,
            params,
            args,
            from,
            st,
        ).visited.contains((file, symbol, params[args[i].0])),
    decreases i - from,
{
    let p = args[from].0;
    let hop = FlowModel {
        file: path_relative(file, at.root),
        symbol,
        variable: params[args[i].0],
        line: symbol_place(d.symbols(file), symbol, 0).0,
        flow_type: "parameter"@,
        approximate: false,
    };
    let next = if 0 <= p < params.len() {
        let told = Flow {
            hops: st.hops.push(
                FlowModel {
                    file: path_relative(file, at.root),
                    symbol,
                    variable: params[p],
                    line: symbol_place(d.symbols(file), symbol, 0).0,
                    flow_type: "parameter"@,
                    approximate: false,
                },
            ),
            ..st
        };
        if at.nesting > 0 {
            traced(
                d,
                (Place {
                    file,
                    symbol,
                    depth: at.depth + 1,
                    nesting: (at.nesting - 1) as nat,
                    ..at
                }),
                params[p],
                told,
            )
        } else {
            told
        }
    } else {
        st
    };
    let r = flow_args(d, at, file, symbol, params, args, from + 1, next);
    if from < i {
        lemma_arg_is_told(d, at, file, symbol, params, args, from + 1, i, next);
    } else {
        let told = Flow { hops: st.hops.push(hop), ..st };
        lemma_args_go_on(d, at, file, symbol, params, args, from + 1, next);
        lemma_more(told, told, Seq::empty());
        if at.nesting > 0 {
            let inner = Place {
                file,
                symbol,
                depth: at.depth + 1,
                nesting: (at.nesting - 1) as nat,
                ..at
            };
            lemma_traced_goes_on(d, inner, params[p], told);
            lemma_traced_visits(d, inner, params[p], told);
            let j = choose|j: int|
                0 <= j < next.visited.len() && next.visited[j] == (file, symbol, params[p]);
            assert(next.visited =~= r.visited.take(next.visited.len() as int));
            assert(r.visited[j] == (file, symbol, params[p]));
        }
        assert(told.hops =~= next.hops.take(told.hops.len() as int));
        assert(next.hops =~= r.hops.take(next.hops.len() as int));
        assert(told.hops[st.hops.len() as int] == hop);
        assert(next.hops[st.hops.len() as int] == hop);
        assert(r.hops[st.hops.len() as int] == hop);
    }
}

proof fn lemma_traced_visits(d: Disk, at: Place, name: Seq<char>, st: Flow)
    ensures
        traced(d, at, name, st).visited.contains((at.file, at.symbol, name)),
{
    let v = (at.file, at.symbol, name);
    if !st.visited.contains(v) {
        let entered = Flow { visited: st.visited.push(v), ..st };
        assert(entered.visited[st.visited.len() as int] == v);
        match body_of(d, at.file, at.symbol) {
            Some(body) => {
                lemma_node_goes_on(d, at, body, seq![name], entered);
                let r = flow_node(d, at, body, seq![name], entered).0;
                assert(entered.visited =~= r.visited.take(entered.visited.len() as int));
                assert(r.visited[st.visited.len() as int] == v);
            },
            None => {},
        }
    }
}

/// A live name that is handed over to a symbol of another file becomes the parameter at the place
/// of the argument: the step is told with the parameter's name, and the parameter is traced in
/// turn. Beyond the depth that is allowed the call is not entered, and the answer says so.
pub proof fn values_enter_calls_as_parameters(
    d: Disk,
    at: Place,
    t: Tree,
    list: Tree,
    callee: Tree,
    m: FileModel,
    target: FileModel,
    file: Seq<char>,
    symbol: Seq<char>,
    k: int,
    live: Seq<Seq<char>>,
    st: Flow,
)
    requires
        has_arguments(t, list),
        is_field(t, "function"@, callee),
        hands_over(list, k, live),
        table_get(st.data, at.file) == Some(m),
        ({
            let step = followed(
                d,
                at.root,
                st.data,
                callee.text,
                last_dot_segment(callee.text),
                at.file,
                m.imports,
            );
            step.1 == (EdgeModel::Resolved { file, symbol }) && table_get(
                built(d, step.0, canon(d, at.root, file)),
                file,
            ) == Some(target)
        }),
    ensures
        at.depth >= at.max ==> flow_call(d, at, t, live, st).limited,
        at.depth < at.max && arguments_before(list, k) < known_parameters(target, symbol).len()
            ==> flow_call(d, at, t, live, st).hops.contains(
            FlowModel {
                file: path_relative(file, at.root),
                symbol,
                variable: known_parameters(target, symbol)[arguments_before(list, k)],
                line: symbol_place(d.symbols(file), symbol, 0).0,
                flow_type: "parameter"@,
                approximate: false,
            },
        ),
        at.depth < at.max && at.nesting > 0 && arguments_before(list, k) < known_parameters(
            target,
            symbol,
        ).len() ==> flow_call(d, at, t, live, st).visited.contains(
            (file, symbol, known_parameters(target, symbol)[arguments_before(list, k)]),
        ),
{
    lemma_arguments(t, list);
    first_field_is_found(t, "function"@);
    lemma_live_args(list.children, live, k);
    lemma_arg_count(list.children.take(k));
    let args = live_args(list.children, live);
    let want = (arg_count(list.children.take(k)), list.children[k].text);
    let i = choose|i: int| 0 <= i < args.len() && args[i] == want;
    let step = followed(
        d,
        at.root,
        st.data,
        callee.text,
        last_dot_segment(callee.text),
        at.file,
        m.imports,
    );
    let rel = path_relative(at.file, at.root);
    let deeper = Flow {
        data: built(d, step.0, canon(d, at.root, file)),
        hops: st.hops + spread_hops(list.children, live, rel, at.symbol),
        ..st
    };
    let ps = known_parameters(target, symbol);
    if at.depth < at.max && arguments_before(list, k) < ps.len() {
        lemma_arg_is_told(d, at, file, symbol, ps, args, 0, i, deeper);
    }
}

/// A trace starts with the one name that it is for, in the body of the symbol, and looks at one
/// name of a symbol once.
pub proof fn traces_start_with_their_name(d: Disk, at: Place, name: Seq<char>, st: Flow)
    ensures
        st.visited.contains((at.file, at.symbol, name)) ==> traced(d, at, name, st) == st,
        !st.visited.contains((at.file, at.symbol, name)) && body_of(d, at.file, at.symbol) is Some
            ==> traced(d, at, name, st) == flow_node(
            d,
            at,
            body_of(d, at.file, at.symbol)->0,
            seq![name],
            (Flow { visited: st.visited.push((at.file, at.symbol, name)), ..st }),
        ).0,
        traced(d, at, name, st).visited.contains((at.file, at.symbol, name)),
{
    lemma_traced_visits(d, at, name, st);
}

/// The node that covers bytes covers them, and no child of it does.
pub proof fn covering_node_is_the_smallest(t: Tree, lo: int, hi: int)
    ensures
        covering(t, lo, hi) is Some <==> t.start <= lo && hi <= t.end,
        match covering(t, lo, hi) {
            Some(n) => n.start <= lo && hi <= n.end && forall|i: int|
                0 <= i < n.children.len() ==> !((#[trigger] n.children[i]).start <= lo && hi
                    <= n.children[i].end),
            None => true,
        },
    decreases t, 0int,
{
    lemma_covering_among(t.children, t.children.len() as int, lo, hi);
}

proof fn lemma_covering_among(list: Seq<Tree>, n: int, lo: int, hi: int)
    requires
        n <= list.len(),
    ensures
        match covering_among(list, n, lo, hi) {
            Some(c) => c.start <= lo && hi <= c.end && forall|i: int|
                0 <= i < c.children.len() ==> !((#[trigger] c.children[i]).start <= lo && hi
                    <= c.children[i].end),
            None => forall|i: int|
                0 <= i < n ==> !((#[trigger] list[i]).start <= lo && hi <= list[i].end),
        },
    decreases list, n,
{
    if 0 < n <= list.len() {
        covering_node_is_the_smallest(list[n - 1], lo, hi);
        lemma_covering_among(list, n - 1, lo, hi);
    }
}

} // verus!
