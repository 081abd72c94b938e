//! What the trees of the engine are: derivations of the grammar.
//!
//! A node derives a symbol name where it is the terminal of a token of that kind,
//! or where some rule of the registry produces the name, gives the node its action
//! and spells with its pattern the names that the node's children derive. Every
//! node of every working sequence derives the name that stands beside it.

use vstd::prelude::*;
use crate::lexer::TokenView;
use crate::parser::{
    apply_rule, apply_tier, full_pass, matches_at, reduce_at, settle, terminal, terminals,
    NodeView, RuleView, Work,
};

verus! {

/// Whether `rule` is one of the rules of `tiers`.
pub open spec fn in_registry(tiers: Seq<Seq<RuleView>>, rule: RuleView) -> bool {
    exists|t: int, r: int|
        0 <= t < tiers.len() && 0 <= r < tiers[t].len() && (#[trigger] tiers[t][r]) == rule
}

/// Whether `rule` built `node` for the symbol `name`: the rule produces the name
/// and lends the node its action, and the node has one child for each symbol of
/// the pattern and remembers the pattern as the names of its children.
pub open spec fn built_by(rule: RuleView, node: NodeView, name: Seq<char>) -> bool {
    &&& rule.name == name
    &&& rule.class_name == node.class_name
    &&& rule.pattern == node.token_names
    &&& rule.pattern.len() >= 1
    &&& node.token_values.len() == rule.pattern.len()
    &&& node.token is None
}

/// Whether `node` derives the symbol `name` under the rules of `tiers`.
pub open spec fn derives(tiers: Seq<Seq<RuleView>>, node: NodeView, name: Seq<char>) -> bool
    decreases node,
{
    if node.token is Some {
        node == terminal(node.token->0) && name == node.token->0.name()
    } else {
        &&& exists|rule: RuleView| #[trigger] in_registry(tiers, rule) && built_by(rule, node, name)
        &&& forall|i: int|
            0 <= i < node.token_values.len() ==> derives(
                tiers,
                #[trigger] node.token_values[i],
                node.token_names[i],
            )
    }
}

/// Whether every node of the working sequence derives the name beside it.
pub open spec fn sound(tiers: Seq<Seq<RuleView>>, w: Work) -> bool {
    &&& w.names.len() == w.nodes.len()
    &&& forall|i: int| 0 <= i < w.nodes.len() ==> derives(tiers, #[trigger] w.nodes[i], w.names[i])
}

/// The terminals of a token stream derive the kinds of their tokens.
pub proof fn lemma_terminals_sound(tiers: Seq<Seq<RuleView>>, tokens: Seq<TokenView>)
    ensures
        sound(tiers, terminals(tokens)),
{
    let w = terminals(tokens);
    assert forall|i: int| 0 <= i < w.nodes.len() implies derives(tiers, #[trigger] w.nodes[i], w.names[i]) by {
        assert(w.nodes[i] == terminal(tokens[i]));
    }
}

/// A reduction by a rule of the registry keeps the working sequence sound.
pub proof fn lemma_reduce_sound(
    tiers: Seq<Seq<RuleView>>,
    w: Work,
    at: int,
    rule: RuleView,
    line: Seq<char>,
)
    requires
        sound(tiers, w),
        in_registry(tiers, rule),
        rule.pattern.len() >= 1,
        matches_at(w.names, at, rule.pattern),
    ensures
        sound(tiers, reduce_at(w, at, rule, line)),
{
    let next = reduce_at(w, at, rule, line);
    let end = at + rule.pattern.len();
    assert forall|i: int| 0 <= i < next.nodes.len() implies derives(
        tiers,
        #[trigger] next.nodes[i],
        next.names[i],
    ) by {
        if i < at {
            assert(next.nodes[i] == w.nodes[i]);
            assert(next.names[i] == w.names[i]);
        } else if i == at {
            let node = next.nodes[i];
            assert(node.token_names == rule.pattern);
            assert(built_by(rule, node, next.names[i]));
            assert forall|k: int| 0 <= k < node.token_values.len() implies derives(
                tiers,
                #[trigger] node.token_values[k],
                node.token_names[k],
            ) by {
                assert(node.token_values[k] == w.nodes[at + k]);
                assert(node.token_names[k] == w.names[at + k]);
            }
        } else {
            assert(next.nodes[i] == w.nodes[i + rule.pattern.len() - 1]);
            assert(next.names[i] == w.names[i + rule.pattern.len() - 1]);
        }
    }
}

/// One scan of a rule of the registry keeps the working sequence sound.
pub proof fn lemma_rule_sound(
    tiers: Seq<Seq<RuleView>>,
    w: Work,
    rule: RuleView,
    line: Seq<char>,
    cursor: int,
)
    requires
        sound(tiers, w),
        in_registry(tiers, rule),
    ensures
        sound(tiers, apply_rule(w, rule, line, cursor)),
    decreases w.names.len() - cursor,
{
    if rule.pattern.len() == 0 || cursor < 0 || cursor + rule.pattern.len() > w.names.len() {
    } else if matches_at(w.names, cursor, rule.pattern) {
        lemma_reduce_sound(tiers, w, cursor, rule, line);
        lemma_rule_sound(tiers, reduce_at(w, cursor, rule, line), rule, line, cursor + 1);
    } else {
        lemma_rule_sound(tiers, w, rule, line, cursor + 1);
    }
}

/// A pass of rules of the registry keeps the working sequence sound.
pub proof fn lemma_tier_sound(
    tiers: Seq<Seq<RuleView>>,
    w: Work,
    rules: Seq<RuleView>,
    line: Seq<char>,
)
    requires
        sound(tiers, w),
        forall|r: int| 0 <= r < rules.len() ==> in_registry(tiers, #[trigger] rules[r]),
    ensures
        sound(tiers, apply_tier(w, rules, line)),
    decreases rules.len(),
{
    if rules.len() > 0 {
        let front = rules.drop_last();
        assert forall|r: int| 0 <= r < front.len() implies in_registry(tiers, #[trigger] front[r]) by {
            assert(front[r] == rules[r]);
        }
        lemma_tier_sound(tiers, w, front, line);
        assert(in_registry(tiers, rules[rules.len() - 1]));
        lemma_rule_sound(tiers, apply_tier(w, front, line), rules.last(), line, 0);
    }
}

/// The passes of the first `count` tiers keep the working sequence sound.
pub proof fn lemma_pass_sound(tiers: Seq<Seq<RuleView>>, w: Work, count: int, line: Seq<char>)
    requires
        sound(tiers, w),
        0 <= count <= tiers.len(),
    ensures
        sound(tiers, full_pass(w, tiers.subrange(0, count), line)),
    decreases count,
{
    let part = tiers.subrange(0, count);
    if count > 0 {
        assert(part.drop_last() =~= tiers.subrange(0, count - 1));
        lemma_pass_sound(tiers, w, count - 1, line);
        let last = part.last();
        assert forall|r: int| 0 <= r < last.len() implies in_registry(tiers, #[trigger] last[r]) by {
            assert(tiers[count - 1][r] == last[r]);
        }
        lemma_tier_sound(tiers, full_pass(w, part.drop_last(), line), last, line);
    }
}

/// Soundness of the engine: at the fixpoint every node that is left derives the
/// symbol name beside it. The tree of a successful parse is therefore a derivation
/// of the grammar: each of its inner nodes was built by a rule of the registry and
/// has as many children as that rule's pattern has symbols.
pub proof fn lemma_fixpoint_sound(
    tiers: Seq<Seq<RuleView>>,
    tokens: Seq<TokenView>,
    line: Seq<char>,
    passes: nat,
)
    requires
        settle(terminals(tokens), tiers, line, passes) is Some,
    ensures
        sound(tiers, settle(terminals(tokens), tiers, line, passes)->0),
{
    lemma_terminals_sound(tiers, tokens);
    lemma_settle_sound(tiers, terminals(tokens), line, passes);
}

/// The outer loop keeps the working sequence sound.
pub proof fn lemma_settle_sound(tiers: Seq<Seq<RuleView>>, w: Work, line: Seq<char>, passes: nat)
    requires
        sound(tiers, w),
        settle(w, tiers, line, passes) is Some,
    ensures
        sound(tiers, settle(w, tiers, line, passes)->0),
    decreases passes,
{
    let next = full_pass(w, tiers, line);
    assert(tiers.subrange(0, tiers.len() as int) =~= tiers);
    lemma_pass_sound(tiers, w, tiers.len() as int, line);
    if next.names != w.names {
        lemma_settle_sound(tiers, next, line, (passes - 1) as nat);
    }
}

} // verus!
