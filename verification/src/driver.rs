//! What driving an evaluation to its end computes.
//!
//! An arithmetic unit answers every request in one way: it tells which number a
//! text spells, if any, and what an operation yields. The value of a tree under a
//! unit is defined here by a walk of the tree, and the law at the end says that a
//! driver who hands every request to the unit ends with that value.

use vstd::prelude::*;
use crate::ast::{
    binary, evaluation, literal_text, numeric, textual, EvalError, Operator, Outcome, RequestView,
};
use crate::laws::{demand, lemma_evaluation_orderly};
use crate::parser::{EvalValView, NodeView};

verus! {

/// An arithmetic unit: which number a text spells, if any, and what an operation
/// on two numbers yields, numbers being given by their encodings.
pub struct ArithmeticUnit {
    pub number: spec_fn(Seq<char>) -> Option<u32>,
    pub arith: spec_fn(Operator, u32, u32) -> u32,
}

impl ArithmeticUnit {
    /// The unit's answer to a request.
    pub open spec fn reply(self, request: RequestView) -> Option<u32> {
        match request {
            RequestView::Number(text) => (self.number)(text),
            RequestView::Arith(op, a, b) => Some((self.arith)(op, a, b)),
        }
    }
}

/// The value of an arithmetic node under `unit`: its first child is evaluated, then
/// its third; both have to be numeric, and the unit yields the result.
pub open spec fn binary_value(unit: ArithmeticUnit, op: Operator, node: NodeView) -> Result<
    EvalValView,
    EvalError,
>
    decreases node, 0nat,
{
    if node.token_values.len() < 3 {
        Err(EvalError::MalformedNode)
    } else {
        match value(unit, node.token_values[0]) {
            Err(e) => Err(e),
            Ok(a) => match value(unit, node.token_values[2]) {
                Err(e) => Err(e),
                Ok(b) => if a.num is Some && b.num is Some {
                    Ok(numeric((unit.arith)(op, a.num->0, b.num->0)))
                } else {
                    Err(EvalError::TypeMismatch)
                },
            },
        }
    }
}

/// The value of a tree under `unit`.
pub open spec fn value(unit: ArithmeticUnit, node: NodeView) -> Result<EvalValView, EvalError>
    decreases node, 1nat,
{
    if node.class_name == "Num"@ {
        match literal_text(node) {
            Some(text) => match (unit.number)(text) {
                Some(bits) => Ok(numeric(bits)),
                None => Err(EvalError::NotANumber),
            },
            None => Err(EvalError::MalformedNode),
        }
    } else if node.class_name == "String"@ {
        match literal_text(node) {
            Some(text) => Ok(textual(text)),
            None => Err(EvalError::MalformedNode),
        }
    } else if node.class_name == "Div"@ {
        binary_value(unit, Operator::Div, node)
    } else if node.class_name == "Mul"@ {
        binary_value(unit, Operator::Mul, node)
    } else if node.class_name == "Add"@ {
        binary_value(unit, Operator::Add, node)
    } else if node.class_name == "Minus"@ {
        binary_value(unit, Operator::Minus, node)
    } else {
        Err(EvalError::UnknownSymbol)
    }
}

/// The answers that `unit` gives while an arithmetic node is evaluated, in order.
pub open spec fn binary_transcript(unit: ArithmeticUnit, op: Operator, node: NodeView) -> Seq<Option<u32>>
    decreases node, 0nat,
{
    if node.token_values.len() < 3 {
        Seq::empty()
    } else {
        let first = transcript(unit, node.token_values[0]);
        match value(unit, node.token_values[0]) {
            Err(_) => first,
            Ok(a) => {
                let both = first + transcript(unit, node.token_values[2]);
                match value(unit, node.token_values[2]) {
                    Err(_) => both,
                    Ok(b) => if a.num is Some && b.num is Some {
                        both.push(Some((unit.arith)(op, a.num->0, b.num->0)))
                    } else {
                        both
                    },
                }
            },
        }
    }
}

/// The answers that `unit` gives while a tree is evaluated, in order.
pub open spec fn transcript(unit: ArithmeticUnit, node: NodeView) -> Seq<Option<u32>>
    decreases node, 1nat,
{
    if node.class_name == "Num"@ {
        match literal_text(node) {
            Some(text) => seq![(unit.number)(text)],
            None => Seq::empty(),
        }
    } else if node.class_name == "String"@ {
        Seq::empty()
    } else if node.class_name == "Div"@ {
        binary_transcript(unit, Operator::Div, node)
    } else if node.class_name == "Mul"@ {
        binary_transcript(unit, Operator::Mul, node)
    } else if node.class_name == "Add"@ {
        binary_transcript(unit, Operator::Add, node)
    } else if node.class_name == "Minus"@ {
        binary_transcript(unit, Operator::Minus, node)
    } else {
        Seq::empty()
    }
}

/// How evaluation ends for a value or an error.
pub open spec fn outcome_of(result: Result<EvalValView, EvalError>) -> Outcome {
    match result {
        Ok(v) => Outcome::Done(v),
        Err(e) => Outcome::Failed(e),
    }
}

/// Evaluation against the whole transcript of a tree, standing behind the answers
/// `base` and followed by anything, ends as the value of the tree says and
/// consumes the transcript.
pub open spec fn complete(unit: ArithmeticUnit, node: NodeView, base: Seq<Option<u32>>, rest: Seq<Option<u32>>) -> bool {
    evaluation(node, base + transcript(unit, node) + rest, base.len()) == (
        outcome_of(value(unit, node)),
        base.len() + transcript(unit, node).len(),
    )
}

/// Evaluation against the first `given` answers of the transcript of a tree, and
/// no more, stops with the request whose answer comes next in the transcript.
pub open spec fn partial(unit: ArithmeticUnit, node: NodeView, base: Seq<Option<u32>>, given: nat) -> bool {
    let lines = transcript(unit, node);
    let (outcome, after) = evaluation(node, base + lines.take(given as int), base.len());
    &&& outcome matches Outcome::Pending(request) && unit.reply(request) == lines[given as int]
    &&& after == base.len() + given
}

/// [`complete`], of an arithmetic action.
pub open spec fn binary_complete(
    unit: ArithmeticUnit,
    op: Operator,
    node: NodeView,
    base: Seq<Option<u32>>,
    rest: Seq<Option<u32>>,
) -> bool {
    binary(op, node, base + binary_transcript(unit, op, node) + rest, base.len()) == (
        outcome_of(binary_value(unit, op, node)),
        base.len() + binary_transcript(unit, op, node).len(),
    )
}

/// [`partial`], of an arithmetic action.
pub open spec fn binary_partial(
    unit: ArithmeticUnit,
    op: Operator,
    node: NodeView,
    base: Seq<Option<u32>>,
    given: nat,
) -> bool {
    let lines = binary_transcript(unit, op, node);
    let (outcome, after) = binary(op, node, base + lines.take(given as int), base.len());
    &&& outcome matches Outcome::Pending(request) && unit.reply(request) == lines[given as int]
    &&& after == base.len() + given
}

/// Evaluation follows the transcript of the tree.
pub proof fn lemma_follows(
    unit: ArithmeticUnit,
    node: NodeView,
    base: Seq<Option<u32>>,
    given: nat,
    rest: Seq<Option<u32>>,
)
    requires
        given <= transcript(unit, node).len(),
    ensures
        given == transcript(unit, node).len() ==> complete(unit, node, base, rest),
        given < transcript(unit, node).len() ==> partial(unit, node, base, given),
    decreases node, 1nat,
{
    let lines = transcript(unit, node);
    if node.class_name == "Num"@ {
        if literal_text(node) is Some {
            if given == 1 {
                assert((base + lines + rest)[base.len() as int] == lines[0]);
            } else {
                assert(base + lines.take(0) =~= base);
            }
        }
    } else if node.class_name == "String"@ {
    } else if node.class_name == "Div"@ {
        lemma_binary_follows(unit, Operator::Div, node, base, given, rest);
    } else if node.class_name == "Mul"@ {
        lemma_binary_follows(unit, Operator::Mul, node, base, given, rest);
    } else if node.class_name == "Add"@ {
        lemma_binary_follows(unit, Operator::Add, node, base, given, rest);
    } else if node.class_name == "Minus"@ {
        lemma_binary_follows(unit, Operator::Minus, node, base, given, rest);
    } else {
    }
}

/// An arithmetic action stops where its first operand stops.
proof fn lemma_first_stops(
    unit: ArithmeticUnit,
    op: Operator,
    node: NodeView,
    base: Seq<Option<u32>>,
    given: nat,
)
    requires
        node.token_values.len() >= 3,
        given < transcript(unit, node.token_values[0]).len(),
        partial(unit, node.token_values[0], base, given),
    ensures
        binary_partial(unit, op, node, base, given),
{
    let first = transcript(unit, node.token_values[0]);
    let lines = binary_transcript(unit, op, node);
    assert(lines.take(given as int) =~= first.take(given as int));
}

/// What the first operand of an arithmetic action evaluates to, against answers
/// that begin with its transcript.
proof fn lemma_first_ends(
    unit: ArithmeticUnit,
    node: NodeView,
    base: Seq<Option<u32>>,
    tail: Seq<Option<u32>>,
    answers: Seq<Option<u32>>,
)
    requires
        complete(unit, node, base, tail),
        answers =~= base + transcript(unit, node) + tail,
    ensures
        evaluation(node, answers, base.len()) == (
            outcome_of(value(unit, node)),
            base.len() + transcript(unit, node).len(),
        ),
{
}

/// An arithmetic action stops where its second operand stops.
proof fn lemma_second_stops(
    unit: ArithmeticUnit,
    op: Operator,
    node: NodeView,
    base: Seq<Option<u32>>,
    given: nat,
)
    requires
        node.token_values.len() >= 3,
        value(unit, node.token_values[0]) is Ok,
        given < transcript(unit, node.token_values[2]).len(),
        complete(
            unit,
            node.token_values[0],
            base,
            transcript(unit, node.token_values[2]).take(given as int),
        ),
        partial(unit, node.token_values[2], base + transcript(unit, node.token_values[0]), given),
    ensures
        binary_partial(unit, op, node, base, transcript(unit, node.token_values[0]).len() + given),
{
    let first = transcript(unit, node.token_values[0]);
    let second = transcript(unit, node.token_values[2]);
    let lines = binary_transcript(unit, op, node);
    let reached = first.len() + given;
    let answers = base + lines.take(reached as int);
    assert(lines.take(reached as int) =~= first + second.take(given as int));
    assert(answers =~= base + first + second.take(given as int));
    assert(answers =~= (base + first) + second.take(given as int));
    lemma_first_ends(unit, node.token_values[0], base, second.take(given as int), answers);
    assert(lines[reached as int] == second[given as int]);
}

/// What an arithmetic action comes to once both operands have their values:
/// evaluation against answers that begin with both transcripts.
proof fn lemma_both_end(
    unit: ArithmeticUnit,
    op: Operator,
    node: NodeView,
    base: Seq<Option<u32>>,
    tail: Seq<Option<u32>>,
    answers: Seq<Option<u32>>,
)
    requires
        node.token_values.len() >= 3,
        value(unit, node.token_values[0]) is Ok,
        complete(unit, node.token_values[0], base, transcript(unit, node.token_values[2]) + tail),
        complete(unit, node.token_values[2], base + transcript(unit, node.token_values[0]), tail),
        answers =~= base + transcript(unit, node.token_values[0]) + transcript(
            unit,
            node.token_values[2],
        ) + tail,
    ensures
        ({
            let a = value(unit, node.token_values[0])->Ok_0;
            let reached = base.len() + transcript(unit, node.token_values[0]).len() + transcript(
                unit,
                node.token_values[2],
            ).len();
            binary(op, node, answers, base.len()) == match value(unit, node.token_values[2]) {
                Err(e) => (Outcome::Failed(e), reached),
                Ok(b) => if a.num is Some && b.num is Some {
                    crate::ast::answered(
                        answers,
                        reached,
                        RequestView::Arith(op, a.num->0, b.num->0),
                    )
                } else {
                    (Outcome::Failed(EvalError::TypeMismatch), reached)
                },
            }
        }),
{
    let first = transcript(unit, node.token_values[0]);
    let second = transcript(unit, node.token_values[2]);
    assert(answers =~= base + first + (second + tail));
    lemma_first_ends(unit, node.token_values[0], base, second + tail, answers);
    assert(answers =~= (base + first) + second + tail);
    lemma_first_ends(unit, node.token_values[2], base + first, tail, answers);
}

/// The arithmetic actions follow their transcripts.
pub proof fn lemma_binary_follows(
    unit: ArithmeticUnit,
    op: Operator,
    node: NodeView,
    base: Seq<Option<u32>>,
    given: nat,
    rest: Seq<Option<u32>>,
)
    requires
        given <= binary_transcript(unit, op, node).len(),
    ensures
        given == binary_transcript(unit, op, node).len() ==> binary_complete(
            unit,
            op,
            node,
            base,
            rest,
        ),
        given < binary_transcript(unit, op, node).len() ==> binary_partial(
            unit,
            op,
            node,
            base,
            given,
        ),
    decreases node, 0nat,
{
    let lines = binary_transcript(unit, op, node);
    if node.token_values.len() < 3 {
    } else {
        let left = node.token_values[0];
        let right = node.token_values[2];
        let first = transcript(unit, left);
        let second = transcript(unit, right);
        if given < first.len() {
            lemma_follows(unit, left, base, given, rest);
            lemma_first_stops(unit, op, node, base, given);
        } else if value(unit, left) is Err {
            lemma_follows(unit, left, base, first.len(), rest);
        } else {
            let given2 = (given - first.len()) as nat;
            if given2 < second.len() {
                lemma_follows(unit, left, base, first.len(), second.take(given2 as int));
                lemma_follows(unit, right, base + first, given2, rest);
                lemma_second_stops(unit, op, node, base, given2);
            } else if given == lines.len() {
                let tail = lines.subrange((first.len() + second.len()) as int, lines.len() as int)
                    + rest;
                let answers = base + lines + rest;
                lemma_follows(unit, left, base, first.len(), second + tail);
                lemma_follows(unit, right, base + first, second.len(), tail);
                assert(answers =~= base + first + second + tail);
                lemma_both_end(unit, op, node, base, tail, answers);
                if lines.len() > first.len() + second.len() {
                    assert(answers[(base.len() + first.len() + second.len()) as int] == lines.last());
                }
            } else {
                let tail = Seq::<Option<u32>>::empty();
                let answers = base + lines.take(given as int);
                lemma_follows(unit, left, base, first.len(), second + tail);
                lemma_follows(unit, right, base + first, second.len(), tail);
                assert(answers =~= base + first + second + tail);
                lemma_both_end(unit, op, node, base, tail, answers);
            }
        }
    }
}

/// What a driver ends with who starts from `answers`, hands every request to
/// `unit` and appends its reply, for at most `rounds` requests.
pub open spec fn drive(unit: ArithmeticUnit, node: NodeView, answers: Seq<Option<u32>>, rounds: nat) -> Option<
    Result<EvalValView, EvalError>,
>
    decreases rounds,
{
    match evaluation(node, answers, 0).0 {
        Outcome::Done(v) => Some(Ok(v)),
        Outcome::Failed(e) => Some(Err(e)),
        Outcome::Pending(request) => if rounds == 0 {
            None
        } else {
            drive(unit, node, answers.push(unit.reply(request)), (rounds - 1) as nat)
        },
    }
}

/// A driver who has given the first `given` answers of the transcript ends with
/// the value of the tree, if it may ask for the answers that are missing.
pub proof fn lemma_drive_from(unit: ArithmeticUnit, node: NodeView, given: nat, rounds: nat)
    requires
        given <= transcript(unit, node).len(),
        rounds >= transcript(unit, node).len() - given,
    ensures
        drive(unit, node, transcript(unit, node).take(given as int), rounds) == Some(
            value(unit, node),
        ),
    decreases transcript(unit, node).len() - given,
{
    let lines = transcript(unit, node);
    let empty = Seq::<Option<u32>>::empty();
    lemma_follows(unit, node, empty, given, empty);
    if given == lines.len() {
        assert(empty + lines + empty =~= lines.take(given as int));
    } else {
        assert(empty + lines.take(given as int) =~= lines.take(given as int));
        assert(lines.take(given as int).push(lines[given as int]) =~= lines.take((given + 1) as int));
        lemma_drive_from(unit, node, (given + 1) as nat, (rounds - 1) as nat);
    }
}

/// Driving an evaluation computes the value of the tree: a driver who starts with
/// no answers and hands every request to the unit ends, after no more requests
/// than the tree demands, with the value that the walk of the tree defines.
pub proof fn lemma_drive(unit: ArithmeticUnit, node: NodeView)
    ensures
        drive(unit, node, Seq::empty(), demand(node)) == Some(value(unit, node)),
{
    let lines = transcript(unit, node);
    let empty = Seq::<Option<u32>>::empty();
    lemma_follows(unit, node, empty, lines.len(), empty);
    lemma_evaluation_orderly(node, empty + lines + empty, 0);
    assert(lines.take(0) =~= empty);
    lemma_drive_from(unit, node, 0, demand(node));
}

} // verus!
