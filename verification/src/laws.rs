//! Laws of the reduction engine and of evaluation, proved of every registry, every
//! token stream and every tree.

use vstd::prelude::*;
use crate::ast::{binary, evaluation, numeric, textual, Operator, Outcome};
use crate::lexer::{Token, TokenView};
use crate::parser::{
    apply_rule, apply_tier, converges, fixpoint, full_pass, lemma_settle_stable, matches_at,
    reduce_at, settle, terminals, verdict, Node, NodeView, Parser, RuleView, SyntaxError, Work,
};

verus! {

/// Every number of passes that reaches the fixpoint reaches the same one.
pub proof fn lemma_settle_reaches_fixpoint(
    w: Work,
    tiers: Seq<Seq<RuleView>>,
    line: Seq<char>,
    passes: nat,
)
    requires
        settle(w, tiers, line, passes) is Some,
    ensures
        converges(w, tiers, line),
        settle(w, tiers, line, passes) == Some(fixpoint(w, tiers, line)),
{
    let chosen = choose|p: nat| (#[trigger] settle(w, tiers, line, p)) is Some;
    if chosen <= passes {
        lemma_settle_stable(w, tiers, line, chosen, passes);
    } else {
        lemma_settle_stable(w, tiers, line, passes, chosen);
    }
}

/// Determinism: equal token streams parsed under equal registries for equal lines
/// give structurally equal results. Whatever two parses hand back, both are trees
/// with the same view, or both are errors with the same line and the same number of
/// nodes left.
pub proof fn lemma_parse_deterministic(
    first: Parser,
    second: Parser,
    tokens_a: Vec<Token>,
    tokens_b: Vec<Token>,
    line_a: Seq<char>,
    line_b: Seq<char>,
    result_a: Result<Node, SyntaxError>,
    result_b: Result<Node, SyntaxError>,
)
    requires
        first@ == second@,
        tokens_a.deep_view() == tokens_b.deep_view(),
        line_a == line_b,
        verdict(fixpoint(terminals(tokens_a.deep_view()), first@, line_a).nodes, line_a, result_a),
        verdict(fixpoint(terminals(tokens_b.deep_view()), second@, line_b).nodes, line_b, result_b),
    ensures
        result_a is Ok <==> result_b is Ok,
        result_a is Ok ==> result_a->Ok_0@ == result_b->Ok_0@,
        result_a is Err ==> result_a->Err_0.line@ == result_b->Err_0.line@ && result_a->Err_0.leftover
            == result_b->Err_0.leftover,
{
}

/// A parse that is cut off after some number of passes, where it has a result at
/// all, has the result of the parse that is not cut off.
pub proof fn lemma_bounded_parse_agrees(
    tiers: Seq<Seq<RuleView>>,
    tokens: Seq<TokenView>,
    line: Seq<char>,
    passes: nat,
    result: Result<Node, SyntaxError>,
)
    requires
        settle(terminals(tokens), tiers, line, passes) matches Some(w) && verdict(
            w.nodes,
            line,
            result,
        ),
    ensures
        converges(terminals(tokens), tiers, line),
        verdict(fixpoint(terminals(tokens), tiers, line).nodes, line, result),
{
    lemma_settle_reaches_fixpoint(terminals(tokens), tiers, line, passes);
}

/// The symbol names after one scan of a rule depend on the symbol names before it
/// alone.
pub proof fn lemma_rule_names(a: Work, b: Work, rule: RuleView, line: Seq<char>, cursor: int)
    requires
        a.names == b.names,
    ensures
        apply_rule(a, rule, line, cursor).names == apply_rule(b, rule, line, cursor).names,
    decreases a.names.len() - cursor,
{
    if rule.pattern.len() == 0 || cursor < 0 || cursor + rule.pattern.len() > a.names.len() {
    } else if matches_at(a.names, cursor, rule.pattern) {
        lemma_rule_names(
            reduce_at(a, cursor, rule, line),
            reduce_at(b, cursor, rule, line),
            rule,
            line,
            cursor + 1,
        );
    } else {
        lemma_rule_names(a, b, rule, line, cursor + 1);
    }
}

/// The symbol names after a tier's pass depend on the symbol names before it alone.
pub proof fn lemma_tier_names(a: Work, b: Work, rules: Seq<RuleView>, line: Seq<char>)
    requires
        a.names == b.names,
    ensures
        apply_tier(a, rules, line).names == apply_tier(b, rules, line).names,
    decreases rules.len(),
{
    if rules.len() > 0 {
        lemma_tier_names(a, b, rules.drop_last(), line);
        lemma_rule_names(
            apply_tier(a, rules.drop_last(), line),
            apply_tier(b, rules.drop_last(), line),
            rules.last(),
            line,
            0,
        );
    }
}

/// The symbol names after an outer iteration depend on the symbol names before it
/// alone.
pub proof fn lemma_pass_names(a: Work, b: Work, tiers: Seq<Seq<RuleView>>, line: Seq<char>)
    requires
        a.names == b.names,
    ensures
        full_pass(a, tiers, line).names == full_pass(b, tiers, line).names,
    decreases tiers.len(),
{
    if tiers.len() > 0 {
        lemma_pass_names(a, b, tiers.drop_last(), line);
        lemma_tier_names(
            full_pass(a, tiers.drop_last(), line),
            full_pass(b, tiers.drop_last(), line),
            tiers.last(),
            line,
        );
    }
}

/// Fixpoint idempotence: one more outer iteration past the fixpoint leaves the
/// sequence of symbol names as it is.
pub proof fn lemma_fixpoint_idempotent(
    w: Work,
    tiers: Seq<Seq<RuleView>>,
    line: Seq<char>,
    passes: nat,
)
    requires
        settle(w, tiers, line, passes) is Some,
    ensures
        full_pass(settle(w, tiers, line, passes)->0, tiers, line).names == settle(
            w,
            tiers,
            line,
            passes,
        )->0.names,
    decreases passes,
{
    let next = full_pass(w, tiers, line);
    if next.names == w.names {
        lemma_pass_names(next, w, tiers, line);
    } else {
        lemma_fixpoint_idempotent(next, tiers, line, (passes - 1) as nat);
    }
}

/// The most answers that evaluation of `node` can consume: one for each numeric
/// literal and one for each arithmetic node that it reaches.
pub open spec fn demand(node: NodeView) -> nat
    decreases node,
{
    if node.class_name == "Num"@ {
        1
    } else if node.class_name == "String"@ {
        0
    } else if node.class_name == "Div"@ || node.class_name == "Mul"@ || node.class_name == "Add"@
        || node.class_name == "Minus"@ {
        if node.token_values.len() < 3 {
            0
        } else {
            demand(node.token_values[0]) + demand(node.token_values[2]) + 1
        }
    } else {
        0
    }
}

/// What holds of every evaluation, as a predicate of its result.
pub open spec fn orderly(
    node: NodeView,
    answers: Seq<Option<u32>>,
    used: nat,
    result: (Outcome, nat),
) -> bool {
    let (outcome, after) = result;
    &&& used <= after <= used + demand(node)
    &&& outcome is Pending ==> answers.len() <= after < used + demand(node)
    &&& outcome matches Outcome::Done(v) ==> {
        ||| v.num is Some && v == numeric(v.num->0)
        ||| v.string is Some && v == textual(v.string->0)
    }
}

/// Evaluation is orderly: it consumes answers in order and never more than the
/// node demands; it stops with a request only where every answer is consumed and
/// the demand is not yet met; and a value it ends with is tagged numeric or
/// textual and holds nothing but what its tag says.
pub proof fn lemma_evaluation_orderly(node: NodeView, answers: Seq<Option<u32>>, used: nat)
    ensures
        orderly(node, answers, used, evaluation(node, answers, used)),
    decreases node, 1nat,
{
    if node.class_name == "Num"@ {
    } else if node.class_name == "String"@ {
    } else if node.class_name == "Div"@ {
        lemma_binary_orderly(Operator::Div, node, answers, used);
    } else if node.class_name == "Mul"@ {
        lemma_binary_orderly(Operator::Mul, node, answers, used);
    } else if node.class_name == "Add"@ {
        lemma_binary_orderly(Operator::Add, node, answers, used);
    } else if node.class_name == "Minus"@ {
        lemma_binary_orderly(Operator::Minus, node, answers, used);
    } else {
    }
}

/// The arithmetic actions are orderly.
pub proof fn lemma_binary_orderly(
    op: Operator,
    node: NodeView,
    answers: Seq<Option<u32>>,
    used: nat,
)
    requires
        node.class_name != "Num"@,
        node.class_name != "String"@,
        node.class_name == "Div"@ || node.class_name == "Mul"@ || node.class_name == "Add"@
            || node.class_name == "Minus"@,
    ensures
        orderly(node, answers, used, binary(op, node, answers, used)),
    decreases node, 0nat,
{
    if node.token_values.len() >= 3 {
        lemma_evaluation_orderly(node.token_values[0], answers, used);
        let (left, after_left) = evaluation(node.token_values[0], answers, used);
        if left is Done {
            lemma_evaluation_orderly(node.token_values[2], answers, after_left);
        }
    }
}

/// The driver of an evaluation is done after as many answers as the tree demands:
/// while evaluation asks for more, it has been given fewer.
pub proof fn lemma_requests_bounded(node: NodeView, answers: Seq<Option<u32>>)
    ensures
        evaluation(node, answers, 0).0 is Pending ==> answers.len() < demand(node),
{
    lemma_evaluation_orderly(node, answers, 0);
}

/// Whether `b` holds the answers of `a` at every position from `from` up to, and
/// not including, `to`.
pub open spec fn agree(a: Seq<Option<u32>>, b: Seq<Option<u32>>, from: nat, to: nat) -> bool {
    &&& from < to ==> to <= b.len()
    &&& forall|k: int| #![trigger b[k]] from <= k < to ==> b[k] == a[k]
}

/// Sequences that agree on a range agree on every part of it.
pub proof fn lemma_agree_narrow(
    a: Seq<Option<u32>>,
    b: Seq<Option<u32>>,
    from: nat,
    to: nat,
    inner_from: nat,
    inner_to: nat,
)
    requires
        agree(a, b, from, to),
        from <= inner_from,
        inner_to <= to,
    ensures
        agree(a, b, inner_from, inner_to),
        inner_from < inner_to ==> inner_from < b.len() && b[inner_from as int] == a[inner_from as int],
{
}

/// Replay: answers that evaluation did not consume do not matter. Where evaluation
/// against `a` ended, with a value or with a failure, evaluation against any `b`
/// that holds the same answers at the positions consumed ends in the same way.
pub proof fn lemma_replay_consistent(
    node: NodeView,
    a: Seq<Option<u32>>,
    b: Seq<Option<u32>>,
    used: nat,
)
    requires
        !(evaluation(node, a, used).0 is Pending),
        agree(a, b, used, evaluation(node, a, used).1),
    ensures
        evaluation(node, b, used) == evaluation(node, a, used),
    decreases node, 1nat,
{
    if node.class_name == "Num"@ {
        lemma_agree_narrow(a, b, used, evaluation(node, a, used).1, used, evaluation(node, a, used).1);
    } else if node.class_name == "String"@ {
    } else if node.class_name == "Div"@ {
        lemma_binary_replay(Operator::Div, node, a, b, used);
    } else if node.class_name == "Mul"@ {
        lemma_binary_replay(Operator::Mul, node, a, b, used);
    } else if node.class_name == "Add"@ {
        lemma_binary_replay(Operator::Add, node, a, b, used);
    } else if node.class_name == "Minus"@ {
        lemma_binary_replay(Operator::Minus, node, a, b, used);
    } else {
    }
}

/// Replay of the arithmetic actions.
pub proof fn lemma_binary_replay(
    op: Operator,
    node: NodeView,
    a: Seq<Option<u32>>,
    b: Seq<Option<u32>>,
    used: nat,
)
    requires
        !(binary(op, node, a, used).0 is Pending),
        agree(a, b, used, binary(op, node, a, used).1),
    ensures
        binary(op, node, b, used) == binary(op, node, a, used),
    decreases node, 0nat,
{
    if node.token_values.len() >= 3 {
        let after = binary(op, node, a, used).1;
        let (left, after_left) = evaluation(node.token_values[0], a, used);
        lemma_evaluation_orderly(node.token_values[0], a, used);
        if left is Done {
            let (right, after_right) = evaluation(node.token_values[2], a, after_left);
            lemma_evaluation_orderly(node.token_values[2], a, after_left);
            assert(used <= after_left <= after_right <= after);
            lemma_agree_narrow(a, b, used, after, used, after_left);
            lemma_agree_narrow(a, b, used, after, after_left, after_right);
            lemma_replay_consistent(node.token_values[0], a, b, used);
            lemma_replay_consistent(node.token_values[2], a, b, after_left);
            if right is Done {
                let x = left->Done_0;
                let y = right->Done_0;
                if x.num is Some && y.num is Some {
                    assert(after_right < a.len());
                    assert(after == after_right + 1);
                    lemma_agree_narrow(a, b, used, after, after_right, after);
                }
            }
        } else {
            assert(after == after_left);
            lemma_replay_consistent(node.token_values[0], a, b, used);
        }
    }
}

} // verus!
