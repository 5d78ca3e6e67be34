//! The choice between rules.
use vstd::prelude::*;

use crate::json::Json;

verus! {

/// The rules for shell commands.
#[derive(Clone, Copy, Debug, PartialEq, Eq, Structural)]
pub enum RuleKind {
    Grep,
    Rg,
    Find,
    Cat,
    CatAppend,
    Sed,
    Ls,
}

/// The rules in the order in which they are asked.
pub open spec fn rule_order() -> Seq<RuleKind> {
    seq![
        RuleKind::Grep,
        RuleKind::Rg,
        RuleKind::Find,
        RuleKind::Cat,
        RuleKind::CatAppend,
        RuleKind::Sed,
        RuleKind::Ls,
    ]
}

/// The place of a rule in the order.
pub open spec fn rule_place(rule: RuleKind) -> int {
    match rule {
        RuleKind::Grep => 0,
        RuleKind::Rg => 1,
        RuleKind::Find => 2,
        RuleKind::Cat => 3,
        RuleKind::CatAppend => 4,
        RuleKind::Sed => 5,
        RuleKind::Ls => 6,
    }
}

/// What was asked of a rule last, and its answer.
pub enum RuleReply {
    /// Whether it is for the command.
    Matched { rule: RuleKind, matches: bool },
    /// Its answer to the command, or why it declines.
    Rewritten { rule: RuleKind, answer: Result<Json, String> },
}

/// What is to be done next for a command.
pub enum DispatchStep {
    /// Ask a rule whether it is for the command.
    Ask(RuleKind),
    /// Have a rule answer the command.
    Rewrite(RuleKind),
    /// Nothing more: the answer, or none where the command is left to the shell.
    Done(Option<Json>),
}

/// What is to be done next. Where commands are not rewritten, no rule is asked. A rule that is
/// for the command is had to answer it, and no other after it; one that declines leaves the
/// command to the shell.
pub open spec fn next_step(enabled: bool, last: Option<RuleReply>) -> DispatchStep {
    if !enabled {
        DispatchStep::Done(None)
    } else {
        match last {
            None => DispatchStep::Ask(rule_order()[0]),
            Some(RuleReply::Matched { rule, matches }) => if matches {
                DispatchStep::Rewrite(rule)
            } else if rule_place(rule) + 1 < rule_order().len() {
                DispatchStep::Ask(rule_order()[rule_place(rule) + 1])
            } else {
                DispatchStep::Done(None)
            },
            Some(RuleReply::Rewritten { rule, answer }) => DispatchStep::Done(
                match answer {
                    Ok(j) => Some(j),
                    Err(_) => None,
                },
            ),
        }
    }
}

/// What is to be done next for a command, where `last` is what the rule that was asked last
/// replied.
pub fn dispatch(enabled: bool, last: Option<RuleReply>) -> (r: DispatchStep)
    ensures
        r == next_step(enabled, last),
{
    if !enabled {
        return DispatchStep::Done(None);
    }
    match last {
        None => DispatchStep::Ask(RuleKind::Grep),
        Some(RuleReply::Matched { rule, matches }) => {
            if matches {
                return DispatchStep::Rewrite(rule);
            }
            match rule {
                RuleKind::Grep => DispatchStep::Ask(RuleKind::Rg),
                RuleKind::Rg => DispatchStep::Ask(RuleKind::Find),
                RuleKind::Find => DispatchStep::Ask(RuleKind::Cat),
                RuleKind::Cat => DispatchStep::Ask(RuleKind::CatAppend),
                RuleKind::CatAppend => DispatchStep::Ask(RuleKind::Sed),
                RuleKind::Sed => DispatchStep::Ask(RuleKind::Ls),
                RuleKind::Ls => DispatchStep::Done(None),
            }
        },
        Some(RuleReply::Rewritten { rule: _, answer }) => match answer {
            Ok(j) => DispatchStep::Done(Some(j)),
            Err(_) => DispatchStep::Done(None),
        },
    }
}

/// What rules do: which are for a command, and what each would answer.
pub ghost struct Rules {
    pub matches: spec_fn(RuleKind) -> bool,
    pub answer: spec_fn(RuleKind) -> Result<Json, String>,
}

/// What a rule replies to a step.
pub open spec fn reply_to(rules: Rules, step: DispatchStep) -> Option<RuleReply> {
    match step {
        DispatchStep::Ask(rule) => Some(
            RuleReply::Matched { rule, matches: (rules.matches)(rule) },
        ),
        DispatchStep::Rewrite(rule) => Some(
            RuleReply::Rewritten { rule, answer: (rules.answer)(rule) },
        ),
        DispatchStep::Done(_) => None,
    }
}

/// The steps from a reply on, where rules reply to each, `left` steps at most.
pub open spec fn steps_from(
    rules: Rules,
    enabled: bool,
    last: Option<RuleReply>,
    left: nat,
) -> Seq<DispatchStep>
    decreases left,
{
    let step = next_step(enabled, last);
    if left == 0 || step is Done {
        seq![step]
    } else {
        seq![step] + steps_from(rules, enabled, reply_to(rules, step), (left - 1) as nat)
    }
}

/// Whether a rule is the first in the order that is for the command.
pub open spec fn is_first(rules: Rules, k: int) -> bool {
    &&& 0 <= k < rule_order().len()
    &&& (rules.matches)(rule_order()[k])
    &&& forall|i: int| 0 <= i < k ==> !(rules.matches)(#[trigger] rule_order()[i])
}

/// The steps where rule `k` is the first for the command: the rules up to it are asked in order,
/// it is had to answer once, and its answer ends them.
pub open spec fn steps_to_rule(rules: Rules, from: int, k: int) -> Seq<DispatchStep> {
    Seq::new((k - from + 1) as nat, |i: int| DispatchStep::Ask(rule_order()[from + i])).push(
        DispatchStep::Rewrite(rule_order()[k]),
    ).push(
        DispatchStep::Done(
            match (rules.answer)(rule_order()[k]) {
                Ok(j) => Some(j),
                Err(_) => None,
            },
        ),
    )
}

proof fn lemma_order(rule: RuleKind)
    ensures
        0 <= rule_place(rule) < rule_order().len(),
        rule_order()[rule_place(rule)] == rule,
{
}

proof fn lemma_steps(rules: Rules, from: int, k: int, last: Option<RuleReply>, left: nat)
    requires
        0 <= from <= k,
        is_first(rules, k),
        next_step(true, last) == DispatchStep::Ask(rule_order()[from]),
        left >= k - from + 2,
    ensures
        steps_from(rules, true, last, left) == steps_to_rule(rules, from, k),
    decreases k - from,
{
    let rule = rule_order()[from];
    lemma_order(rule);
    assert(rule_place(rule) == from) by {
        assert(0 <= from < 7);
    }
    let reply = reply_to(rules, DispatchStep::Ask(rule));
    let rest = steps_from(rules, true, reply, (left - 1) as nat);
    if from == k {
        let answered = reply_to(rules, DispatchStep::Rewrite(rule));
        assert(next_step(true, reply) == DispatchStep::Rewrite(rule));
        let end = steps_from(rules, true, answered, (left - 2) as nat);
        assert(end =~= seq![next_step(true, answered)]);
        assert(steps_from(rules, true, last, left) =~= steps_to_rule(rules, from, k));
    } else {
        assert(!(rules.matches)(rule_order()[from]));
        lemma_steps(rules, from + 1, k, reply, (left - 1) as nat);
        assert(steps_from(rules, true, last, left) =~= steps_to_rule(rules, from, k));
    }
}

proof fn lemma_no_rule(rules: Rules, from: int, last: Option<RuleReply>, left: nat)
    requires
        0 <= from < rule_order().len(),
        forall|i: int| 0 <= i < rule_order().len() ==> !(rules.matches)(#[trigger] rule_order()[i]),
        next_step(true, last) == DispatchStep::Ask(rule_order()[from]),
        left >= rule_order().len() - from,
    ensures
        steps_from(rules, true, last, left) == Seq::new(
            (rule_order().len() - from) as nat,
            |i: int| DispatchStep::Ask(rule_order()[from + i]),
        ).push(DispatchStep::Done(None)),
    decreases rule_order().len() - from,
{
    let rule = rule_order()[from];
    lemma_order(rule);
    assert(rule_place(rule) == from) by {
        assert(0 <= from < 7);
    }
    assert(!(rules.matches)(rule_order()[from]));
    let reply = reply_to(rules, DispatchStep::Ask(rule));
    let want = Seq::new(
        (rule_order().len() - from) as nat,
        |i: int| DispatchStep::Ask(rule_order()[from + i]),
    ).push(DispatchStep::Done(None));
    if from + 1 < rule_order().len() {
        lemma_no_rule(rules, from + 1, reply, (left - 1) as nat);
    } else {
        assert(steps_from(rules, true, reply, (left - 1) as nat) =~= seq![
            DispatchStep::Done(None),
        ]);
    }
    assert(steps_from(rules, true, last, left) =~= want);
}

/// The first rule that is for a command answers it, and is the only one that does, once: the
/// rules up to it are asked in the order grep, rg, find, cat, cat append, sed, ls, and none
/// behind it.
pub proof fn first_rule_answers(rules: Rules, k: int)
    requires
        is_first(rules, k),
    ensures
        steps_from(rules, true, None, 9) == steps_to_rule(rules, 0, k),
{
    lemma_steps(rules, 0, k, None, 9);
}

/// A command that no rule is for is left to the shell, once all rules were asked in order.
pub proof fn unmatched_command_is_left(rules: Rules)
    requires
        forall|i: int| 0 <= i < rule_order().len() ==> !(rules.matches)(#[trigger] rule_order()[i]),
    ensures
        steps_from(rules, true, None, 9) == Seq::new(
            rule_order().len(),
            |i: int| DispatchStep::Ask(rule_order()[i]),
        ).push(DispatchStep::Done(None)),
{
    lemma_no_rule(rules, 0, None, 9);
    assert(Seq::new(rule_order().len(), |i: int| DispatchStep::Ask(rule_order()[0 + i]))
        =~= Seq::new(rule_order().len(), |i: int| DispatchStep::Ask(rule_order()[i])));
}

/// Where commands are not rewritten, nothing is asked of any rule.
pub proof fn no_rule_is_asked_when_off(rules: Rules, left: nat)
    ensures
        steps_from(rules, false, None, left) == seq![DispatchStep::Done(None)],
{
}

/// Rules are asked in one order: grep, rg, find, cat, cat append, sed, ls.
pub proof fn rules_are_asked_in_one_order()
    ensures
        rule_order().len() == 7,
        rule_order()[0] is Grep,
        rule_order()[1] is Rg,
        rule_order()[2] is Find,
        rule_order()[3] is Cat,
        rule_order()[4] is CatAppend,
        rule_order()[5] is Sed,
        rule_order()[6] is Ls,
        forall|rule: RuleKind| rule_order()[#[trigger] rule_place(rule)] == rule,
{
}

} // verus!
