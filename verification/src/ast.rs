//! The semantic actions, and what evaluation means.
//!
//! Arithmetic on machine numbers is not done here. Evaluation walks the tree as far
//! as the answers it was given reach, and then names the next thing it needs: the
//! number a literal spells, or the result of one operation on two numbers. Whoever
//! drives it computes that, appends it to the answers, and starts evaluation again.

use vstd::prelude::*;
use vstd::string::StringExecFns;
use crate::parser::{EvalVal, EvalValView, Node, NodeView, ValType};

verus! {

/// The four binary operations.
#[derive(Debug, Clone, Copy, PartialEq, Eq, Structural)]
pub enum Operator {
    Add,
    Minus,
    Mul,
    Div,
}

/// Why evaluation stopped without a value.
#[derive(Debug, Clone, Copy, PartialEq, Eq, Structural)]
pub enum EvalError {
    /// The node names an action that does not exist.
    UnknownSymbol,
    /// An operand of an arithmetic action is not numeric.
    TypeMismatch,
    /// The node lacks a child that its action reads, or a literal's child is no
    /// terminal.
    MalformedNode,
    /// The answer to a request was that there is no such number.
    NotANumber,
}

/// What evaluation needs computed before it can go on.
#[derive(Debug)]
pub enum Request {
    /// The number that this text spells.
    Number(String),
    /// The result of the operation on the two numbers, left operand first.
    Arith(Operator, u32, u32),
}

/// The mathematical value of a [`Request`].
pub enum RequestView {
    Number(Seq<char>),
    Arith(Operator, u32, u32),
}

impl View for Request {
    type V = RequestView;

    open spec fn view(&self) -> RequestView {
        match self {
            Request::Number(text) => RequestView::Number(text@),
            Request::Arith(op, a, b) => RequestView::Arith(*op, *a, *b),
        }
    }
}

/// How far evaluation got.
#[derive(Debug)]
pub enum Progress {
    /// The value of the tree.
    Done(EvalVal),
    /// The answers ran out: this is the next thing to compute.
    Pending(Request),
    /// Evaluation failed for good.
    Failed(EvalError),
}

/// The mathematical value of a [`Progress`].
pub enum Outcome {
    Done(EvalValView),
    Pending(RequestView),
    Failed(EvalError),
}

impl View for Progress {
    type V = Outcome;

    open spec fn view(&self) -> Outcome {
        match self {
            Progress::Done(v) => Outcome::Done(v@),
            Progress::Pending(q) => Outcome::Pending(q@),
            Progress::Failed(e) => Outcome::Failed(*e),
        }
    }
}

/// The numeric value with the encoding `bits`.
pub open spec fn numeric(bits: u32) -> EvalValView {
    EvalValView { num: Some(bits), string: None, valtype: ValType::NUM }
}

/// The textual value `text`.
pub open spec fn textual(text: Seq<char>) -> EvalValView {
    EvalValView { num: None, string: Some(text), valtype: ValType::STRING }
}

/// How a request fares when `used` answers have been consumed already: the next
/// answer settles it, as a number or as the failure to find one, and where no
/// answer is left the request is what evaluation stops with. The second component
/// is the number of answers consumed afterwards.
pub open spec fn answered(answers: Seq<Option<u32>>, used: nat, request: RequestView) -> (
    Outcome,
    nat,
) {
    if used < answers.len() {
        match answers[used as int] {
            Some(bits) => (Outcome::Done(numeric(bits)), used + 1),
            None => (Outcome::Failed(EvalError::NotANumber), used + 1),
        }
    } else {
        (Outcome::Pending(request), used)
    }
}

/// The text of the terminal that is the first child of `node`, where there is one.
pub open spec fn literal_text(node: NodeView) -> Option<Seq<char>> {
    if node.token_values.len() >= 1 && node.token_values[0].token is Some {
        Some(node.token_values[0].token->0.value())
    } else {
        None
    }
}

/// Evaluation of a numeric literal: the text of its terminal is what the number is
/// asked for.
pub open spec fn number_literal(node: NodeView, answers: Seq<Option<u32>>, used: nat) -> (
    Outcome,
    nat,
) {
    match literal_text(node) {
        Some(text) => answered(answers, used, RequestView::Number(text)),
        None => (Outcome::Failed(EvalError::MalformedNode), used),
    }
}

/// Evaluation of a string literal: the text of its terminal, as it stands.
pub open spec fn string_literal(node: NodeView) -> Outcome {
    match literal_text(node) {
        Some(text) => Outcome::Done(textual(text)),
        None => Outcome::Failed(EvalError::MalformedNode),
    }
}

/// Evaluation of a binary operation: the first child, then the third; the child in
/// the middle is the operator's token and is not evaluated. Both operands have to
/// be numeric, and the result is asked for.
pub open spec fn binary(op: Operator, node: NodeView, answers: Seq<Option<u32>>, used: nat) -> (
    Outcome,
    nat,
)
    decreases node, 0nat,
{
    if node.token_values.len() < 3 {
        (Outcome::Failed(EvalError::MalformedNode), used)
    } else {
        let (left, after_left) = evaluation(node.token_values[0], answers, used);
        match left {
            Outcome::Done(a) => {
                let (right, after_right) = evaluation(node.token_values[2], answers, after_left);
                match right {
                    Outcome::Done(b) => {
                        if a.num is Some && b.num is Some {
                            answered(answers, after_right, RequestView::Arith(op, a.num->0, b.num->0))
                        } else {
                            (Outcome::Failed(EvalError::TypeMismatch), after_right)
                        }
                    },
                    _ => (right, after_right),
                }
            },
            _ => (left, after_left),
        }
    }
}

/// Evaluation of `node` against `answers`, of which `used` are consumed already:
/// how far it gets, and how many answers are consumed afterwards. The node's action
/// decides what is done; a name that is no action is an error.
pub open spec fn evaluation(node: NodeView, answers: Seq<Option<u32>>, used: nat) -> (Outcome, nat)
    decreases node, 1nat,
{
    if node.class_name == "Num"@ {
        number_literal(node, answers, used)
    } else if node.class_name == "String"@ {
        (string_literal(node), used)
    } else if node.class_name == "Div"@ {
        binary(Operator::Div, node, answers, used)
    } else if node.class_name == "Mul"@ {
        binary(Operator::Mul, node, answers, used)
    } else if node.class_name == "Add"@ {
        binary(Operator::Add, node, answers, used)
    } else if node.class_name == "Minus"@ {
        binary(Operator::Minus, node, answers, used)
    } else {
        (Outcome::Failed(EvalError::UnknownSymbol), used)
    }
}

/// Whether `word` is spelled `spelling`.
pub(crate) fn spells(word: &String, spelling: &str) -> (r: bool)
    ensures
        r == (word@ == spelling@),
{
    *word == String::from_str(spelling)
}

/// Settles a request with the next answer, or hands the request out.
fn answer(answers: &Vec<Option<u32>>, used: usize, request: Request) -> (r: (Progress, usize))
    ensures
        (r.0@, r.1 as nat) == answered(answers@, used as nat, request@),
{
    if used < answers.len() {
        match answers[used] {
            Some(bits) => (
                Progress::Done(EvalVal { num: Some(bits), string: None, valtype: ValType::NUM }),
                used + 1,
            ),
            None => (Progress::Failed(EvalError::NotANumber), used + 1),
        }
    } else {
        (Progress::Pending(request), used)
    }
}

/// The text of the terminal that is the first child of `node`.
fn text_of(node: &Node) -> (r: Option<String>)
    ensures
        match literal_text(node@) {
            Some(text) => r matches Some(s) && s@ == text,
            None => r is None,
        },
{
    if node.token_values.len() >= 1 {
        assert(node@.token_values[0] == node.token_values@[0]@);
        assert(node.token_values@[0]@.token is Some <==> node.token_values@[0].token is Some);
        match &node.token_values[0].token {
            Some(token) => Some(token.value()),
            None => None,
        }
    } else {
        None
    }
}

/// The action of a numeric literal.
#[allow(non_snake_case)]
pub fn Num(node: &Node, answers: &Vec<Option<u32>>, used: usize) -> (r: (Progress, usize))
    ensures
        (r.0@, r.1 as nat) == number_literal(node@, answers@, used as nat),
{
    match text_of(node) {
        Some(text) => answer(answers, used, Request::Number(text)),
        None => (Progress::Failed(EvalError::MalformedNode), used),
    }
}

/// The action of a string literal.
#[allow(non_snake_case)]
pub fn String(node: &Node) -> (r: Progress)
    ensures
        r@ == string_literal(node@),
{
    match text_of(node) {
        Some(text) => Progress::Done(
            EvalVal { num: None, string: Some(text), valtype: ValType::STRING },
        ),
        None => Progress::Failed(EvalError::MalformedNode),
    }
}

/// What the four arithmetic actions share.
fn operate(op: Operator, node: &Node, answers: &Vec<Option<u32>>, used: usize) -> (r: (
    Progress,
    usize,
))
    ensures
        (r.0@, r.1 as nat) == binary(op, node@, answers@, used as nat),
    decreases node, 0nat,
{
    if node.token_values.len() < 3 {
        return (Progress::Failed(EvalError::MalformedNode), used);
    }
    assert(node@.token_values[0] == node.token_values@[0]@);
    assert(node@.token_values[2] == node.token_values@[2]@);
    let (left, after_left) = node.token_values[0].eval_from(answers, used);
    match left {
        Progress::Done(a) => {
            let (right, after_right) = node.token_values[2].eval_from(answers, after_left);
            match right {
                Progress::Done(b) => {
                    match (a.num, b.num) {
                        (Some(x), Some(y)) => answer(answers, after_right, Request::Arith(op, x, y)),
                        _ => (Progress::Failed(EvalError::TypeMismatch), after_right),
                    }
                },
                other => (other, after_right),
            }
        },
        other => (other, after_left),
    }
}

/// The action of an addition.
#[allow(non_snake_case)]
pub fn Add(node: &Node, answers: &Vec<Option<u32>>, used: usize) -> (r: (Progress, usize))
    ensures
        (r.0@, r.1 as nat) == binary(Operator::Add, node@, answers@, used as nat),
    decreases node, 1nat,
{
    operate(Operator::Add, node, answers, used)
}

/// The action of a subtraction.
#[allow(non_snake_case)]
pub fn Minus(node: &Node, answers: &Vec<Option<u32>>, used: usize) -> (r: (Progress, usize))
    ensures
        (r.0@, r.1 as nat) == binary(Operator::Minus, node@, answers@, used as nat),
    decreases node, 1nat,
{
    operate(Operator::Minus, node, answers, used)
}

/// The action of a multiplication.
#[allow(non_snake_case)]
pub fn Mul(node: &Node, answers: &Vec<Option<u32>>, used: usize) -> (r: (Progress, usize))
    ensures
        (r.0@, r.1 as nat) == binary(Operator::Mul, node@, answers@, used as nat),
    decreases node, 1nat,
{
    operate(Operator::Mul, node, answers, used)
}

/// The action of a division.
#[allow(non_snake_case)]
pub fn Div(node: &Node, answers: &Vec<Option<u32>>, used: usize) -> (r: (Progress, usize))
    ensures
        (r.0@, r.1 as nat) == binary(Operator::Div, node@, answers@, used as nat),
    decreases node, 1nat,
{
    operate(Operator::Div, node, answers, used)
}

} // verus!
