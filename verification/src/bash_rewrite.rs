//! Shell commands that are answered by a command of the library instead.
use vstd::prelude::*;

use crate::bash_rewrite::dispatch::{next_step, rule_place, DispatchStep, RuleKind, RuleReply};
use crate::json::Json;

pub mod dispatch;
pub mod footer;
pub mod parser;

verus! {

/// A rule for one kind of shell command.
pub trait RewriteRule {
    /// The name of the rule.
    fn name(&self) -> &'static str;

    /// Whether the rule is for a command.
    fn matches(&self, command: &str) -> bool;

    /// The answer to a command, or why there is none.
    fn rewrite(&self, command: &str) -> Result<Json, String>;
}

/// The rules that are asked of a command.
pub struct RuleSet<R> {
    pub grep: R,
    pub rg: R,
    pub find: R,
    pub cat: R,
    pub cat_append: R,
    pub sed: R,
    pub ls: R,
}

impl<R> RuleSet<R> {
    /// The rule of a kind.
    pub open spec fn of_kind(self, kind: RuleKind) -> R {
        match kind {
            RuleKind::Grep => self.grep,
            RuleKind::Rg => self.rg,
            RuleKind::Find => self.find,
            RuleKind::Cat => self.cat,
            RuleKind::CatAppend => self.cat_append,
            RuleKind::Sed => self.sed,
            RuleKind::Ls => self.ls,
        }
    }

    /// The rule of a kind.
    pub fn rule(&self, kind: RuleKind) -> (r: &R)
        ensures
            *r == self.of_kind(kind),
    {
        match kind {
            RuleKind::Grep => &self.grep,
            RuleKind::Rg => &self.rg,
            RuleKind::Find => &self.find,
            RuleKind::Cat => &self.cat,
            RuleKind::CatAppend => &self.cat_append,
            RuleKind::Sed => &self.sed,
            RuleKind::Ls => &self.ls,
        }
    }
}

/// Whether a rule can have given a reply to a step: it was asked whether it is for the command,
/// or had to answer it.
pub open spec fn can_reply<R: RewriteRule>(
    rules: RuleSet<R>,
    command: &str,
    step: DispatchStep,
    reply: RuleReply,
) -> bool {
    match (step, reply) {
        (DispatchStep::Ask(kind), RuleReply::Matched { rule, matches }) => kind == rule
            && call_ensures(R::matches, (&rules.of_kind(rule), command), matches),
        (DispatchStep::Rewrite(kind), RuleReply::Rewritten { rule, answer }) => kind == rule
            && call_ensures(R::rewrite, (&rules.of_kind(rule), command), answer),
        _ => false,
    }
}

/// The reply before number `i`, where there is one.
pub open spec fn reply_before(replies: Seq<RuleReply>, i: int) -> Option<RuleReply> {
    if i <= 0 {
        None
    } else {
        Some(replies[i - 1])
    }
}

/// Whether `replies` is what rules can have replied to a command, each to the step that was next
/// after the reply before it.
pub open spec fn can_reply_all<R: RewriteRule>(
    rules: RuleSet<R>,
    command: &str,
    replies: Seq<RuleReply>,
) -> bool {
    forall|i: int|
        #![trigger replies[i]]
        0 <= i < replies.len() ==> can_reply(
            rules,
            command,
            next_step(true, reply_before(replies, i)),
            replies[i],
        )
}

/// How many steps can follow a reply.
spec fn steps_left(last: Option<RuleReply>) -> nat {
    match last {
        None => 9,
        Some(RuleReply::Matched { rule, matches }) => if matches {
            1
        } else {
            (8 - rule_place(rule)) as nat
        },
        Some(RuleReply::Rewritten { .. }) => 0,
    }
}

/// The answer to a command that the first rule for it gives, where there is one. What a rule
/// says is up to the rule.
pub fn try_rewrite<R: RewriteRule>(enabled: bool, rules: &RuleSet<R>, command: &str) -> (r: Option<
    Json,
>)
    ensures
        !enabled ==> r is None,
        enabled ==> exists|replies: Seq<RuleReply>| #[trigger]
            can_reply_all(*rules, command, replies) && next_step(
                true,
                reply_before(replies, replies.len() as int),
            ) == DispatchStep::Done(r),
{
    let mut last: Option<RuleReply> = None;
    let ghost mut replies: Seq<RuleReply> = Seq::empty();
    loop
        invariant
            last == reply_before(replies, replies.len() as int),
            enabled ==> can_reply_all(*rules, command, replies),
        decreases steps_left(last),
    {
        let ghost step = next_step(enabled, last);
        let ghost before = replies;
        match dispatch::dispatch(enabled, last) {
            DispatchStep::Ask(kind) => {
                let matches = rules.rule(kind).matches(command);
                let reply = RuleReply::Matched { rule: kind, matches };
                proof {
                    replies = replies.push(reply);
                    assert(can_reply(*rules, command, step, reply));
                    lemma_replies(*rules, command, before, reply);
                }
                last = Some(reply);
            },
            DispatchStep::Rewrite(kind) => {
                let answer = rules.rule(kind).rewrite(command);
                let reply = RuleReply::Rewritten { rule: kind, answer };
                proof {
                    replies = replies.push(reply);
                    assert(can_reply(*rules, command, step, reply));
                    lemma_replies(*rules, command, before, reply);
                }
                last = Some(reply);
            },
            DispatchStep::Done(answer) => {
                assert(enabled ==> can_reply_all(*rules, command, replies));
                return answer;
            },
        }
    }
}

proof fn lemma_replies<R: RewriteRule>(
    rules: RuleSet<R>,
    command: &str,
    replies: Seq<RuleReply>,
    reply: RuleReply,
)
    requires
        can_reply_all(rules, command, replies),
        can_reply(
            rules,
            command,
            next_step(true, reply_before(replies, replies.len() as int)),
            reply,
        ),
    ensures
        can_reply_all(rules, command, replies.push(reply)),
{
    let all = replies.push(reply);
    assert forall|i: int| #![trigger all[i]] 0 <= i < all.len() implies can_reply(
        rules,
        command,
        next_step(true, reply_before(all, i)),
        all[i],
    ) by {
        assert(reply_before(all, i) == reply_before(replies, i));
        if i < replies.len() {
            assert(all[i] == replies[i]);
        }
    }
}

} // verus!
