use fufu::ast::{Add, Div, EvalError, Minus, Mul, Num, Operator, Progress, Request, String as StringAction};
use fufu::lexer::{lex, NumType, Token};
use fufu::parser::{EvalVal, Node, Parser, ValType};

fn grammar() -> Parser {
    let mut pg = Parser::new();
    pg.add_rule(vec!["NAME"], "expr", "Name");
    pg.add_rule(vec!["NUM"], "expr", "Num");
    pg.add_rule(vec!["STRING"], "expr", "String");
    pg.new_precedence();
    pg.add_rule(vec!["expr", "STAR", "expr"], "expr", "Mul");
    pg.add_rule(vec!["expr", "SLASH", "expr"], "expr", "Div");
    pg.new_precedence();
    pg.add_rule(vec!["expr", "PLUS", "expr"], "expr", "Add");
    pg.add_rule(vec!["expr", "MINUS", "expr"], "expr", "Minus");
    pg
}

fn tree(line: &str) -> Node {
    grammar().parse(&lex(line).unwrap(), line).unwrap()
}

fn bits(x: f32) -> u32 {
    x.to_bits()
}

/// Drives evaluation with single-precision arithmetic.
fn run(root: &Node) -> Result<EvalVal, EvalError> {
    let mut answers: Vec<Option<u32>> = Vec::new();
    loop {
        match root.eval(&answers) {
            Progress::Done(v) => return Ok(v),
            Progress::Failed(e) => return Err(e),
            Progress::Pending(Request::Number(text)) => {
                answers.push(text.parse::<f32>().ok().map(|x| x.to_bits()));
            }
            Progress::Pending(Request::Arith(op, a, b)) => {
                let (x, y) = (f32::from_bits(a), f32::from_bits(b));
                let z = match op {
                    Operator::Add => x + y,
                    Operator::Minus => x - y,
                    Operator::Mul => x * y,
                    Operator::Div => x / y,
                };
                answers.push(Some(z.to_bits()));
            }
        }
    }
}

fn number(line: &str) -> f32 {
    let v = run(&tree(line)).unwrap();
    assert_eq!(v.valtype, ValType::NUM);
    assert!(v.string.is_none());
    f32::from_bits(v.num.unwrap())
}

fn node(class_name: &str, children: Vec<Node>) -> Node {
    Node {
        class_name: class_name.to_string(),
        token_names: children.iter().map(|_| "expr".to_string()).collect(),
        token_values: children,
        index: 0,
        line: String::new(),
        token: None,
    }
}

fn terminal(token: Token) -> Node {
    Node {
        class_name: "TOKEN".to_string(),
        token_values: vec![],
        token_names: vec![],
        index: 0,
        line: "TOKEN".to_string(),
        token: Some(token),
    }
}

fn literal(text: &str) -> Node {
    node("Num", vec![terminal(Token::NUM(text.to_string(), NumType::INT))])
}

fn quoted(text: &str) -> Node {
    node("String", vec![terminal(Token::STRING(text.to_string()))])
}

fn failed(p: Progress) -> EvalError {
    match p {
        Progress::Failed(e) => e,
        other => panic!("not a failure: {:?}", other),
    }
}

#[test]
fn earlier_tier_binds_tighter() {
    assert_eq!(number("2 + 3 * 4"), 14.0);
}

#[test]
fn numeric_literal_evaluates_to_its_value() {
    assert_eq!(number("42"), 42.0);
    assert_eq!(number("3.5"), 3.5);
}

#[test]
fn integral_literal_is_widened() {
    let v = run(&tree("7")).unwrap();
    assert_eq!(v.num, Some(bits(7.0)));
}

#[test]
fn string_literal_evaluates_to_its_text() {
    let v = run(&tree("\"hello\"")).unwrap();
    assert_eq!(v.valtype, ValType::STRING);
    assert_eq!(v.string, Some("hello".to_string()));
    assert!(v.num.is_none());
}

#[test]
fn arithmetic_follows_the_tiers() {
    assert_eq!(number("2 * 3 + 4"), 10.0);
}

#[test]
fn division_does_not_truncate() {
    assert_eq!(number("10 / 4"), 2.5);
}

#[test]
fn division_by_zero_is_not_finite() {
    assert!(!number("5 / 0").is_finite());
}

#[test]
fn subtraction_groups_to_the_left() {
    assert_eq!(number("1 - 2 - 3"), -4.0);
}

#[test]
fn negative_literal_keeps_its_sign() {
    assert_eq!(number("3 * -2.5"), -7.5);
}

#[test]
fn evaluation_asks_for_one_thing_at_a_time() {
    let root = tree("2 + 3");
    let mut answers: Vec<Option<u32>> = vec![];
    match root.eval(&answers) {
        Progress::Pending(Request::Number(text)) => assert_eq!(text, "2"),
        other => panic!("{:?}", other),
    }
    answers.push(Some(bits(2.0)));
    match root.eval(&answers) {
        Progress::Pending(Request::Number(text)) => assert_eq!(text, "3"),
        other => panic!("{:?}", other),
    }
    answers.push(Some(bits(3.0)));
    match root.eval(&answers) {
        Progress::Pending(Request::Arith(op, a, b)) => {
            assert_eq!(op, Operator::Add);
            assert_eq!(a, bits(2.0));
            assert_eq!(b, bits(3.0));
        }
        other => panic!("{:?}", other),
    }
    answers.push(Some(bits(5.0)));
    match root.eval(&answers) {
        Progress::Done(v) => {
            assert_eq!(v.num, Some(bits(5.0)));
            assert_eq!(v.valtype, ValType::NUM);
            assert!(v.string.is_none());
        }
        other => panic!("{:?}", other),
    }
}

#[test]
fn operands_are_handed_out_left_first() {
    let root = tree("10 / 4");
    let answers = vec![Some(bits(10.0)), Some(bits(4.0))];
    match root.eval(&answers) {
        Progress::Pending(Request::Arith(op, a, b)) => {
            assert_eq!(op, Operator::Div);
            assert_eq!(a, bits(10.0));
            assert_eq!(b, bits(4.0));
        }
        other => panic!("{:?}", other),
    }
}

#[test]
fn answers_beyond_the_demand_are_ignored() {
    let root = tree("42");
    let answers = vec![Some(bits(42.0)), Some(bits(1.0)), None];
    match root.eval(&answers) {
        Progress::Done(v) => assert_eq!(v.num, Some(bits(42.0))),
        other => panic!("{:?}", other),
    }
}

#[test]
fn eval_from_counts_the_answers_it_consumed() {
    let root = tree("2 * 3");
    let answers = vec![None, Some(bits(2.0)), Some(bits(3.0)), Some(bits(6.0)), Some(bits(9.0))];
    let (progress, used) = root.eval_from(&answers, 1);
    assert_eq!(used, 4);
    match progress {
        Progress::Done(v) => assert_eq!(v.num, Some(bits(6.0))),
        other => panic!("{:?}", other),
    }
    let (progress, used) = root.eval_from(&answers, 3);
    assert_eq!(used, 5);
    assert!(matches!(progress, Progress::Pending(Request::Arith(Operator::Mul, _, _))));
}

#[test]
fn textual_operand_is_a_type_mismatch() {
    assert_eq!(run(&tree("\"a\" + 1")).unwrap_err(), EvalError::TypeMismatch);
    assert_eq!(run(&tree("1 * \"a\"")).unwrap_err(), EvalError::TypeMismatch);
    assert_eq!(run(&tree("\"a\" - \"b\"")).unwrap_err(), EvalError::TypeMismatch);
}

#[test]
fn action_without_an_implementation_is_an_unknown_symbol() {
    assert_eq!(run(&tree("x")).unwrap_err(), EvalError::UnknownSymbol);
    assert_eq!(run(&tree("x + 1")).unwrap_err(), EvalError::UnknownSymbol);
    assert_eq!(run(&terminal(Token::PLUS)).unwrap_err(), EvalError::UnknownSymbol);
}

#[test]
fn text_that_is_no_number_fails() {
    let mut pg = Parser::new();
    pg.add_rule(vec!["NAME"], "expr", "Num");
    let root = pg.parse(&lex("abc").unwrap(), "abc").unwrap();
    assert_eq!(run(&root).unwrap_err(), EvalError::NotANumber);
}

#[test]
fn refused_arithmetic_fails() {
    let root = tree("1 + 2");
    let answers = vec![Some(bits(1.0)), Some(bits(2.0)), None];
    assert_eq!(failed(root.eval(&answers)), EvalError::NotANumber);
}

#[test]
fn node_that_lacks_a_child_is_malformed() {
    assert_eq!(failed(node("Num", vec![]).eval(&vec![])), EvalError::MalformedNode);
    assert_eq!(failed(node("String", vec![]).eval(&vec![])), EvalError::MalformedNode);
    assert_eq!(failed(node("Add", vec![literal("1"), literal("2")]).eval(&vec![])), EvalError::MalformedNode);
    assert_eq!(failed(node("Div", vec![]).eval(&vec![])), EvalError::MalformedNode);
}

#[test]
fn literal_over_an_inner_node_is_malformed() {
    assert_eq!(failed(node("Num", vec![literal("1")]).eval(&vec![])), EvalError::MalformedNode);
    assert_eq!(failed(node("String", vec![quoted("a")]).eval(&vec![])), EvalError::MalformedNode);
}

#[test]
fn the_middle_child_is_not_evaluated() {
    let root = node("Minus", vec![literal("9"), node("Bogus", vec![]), literal("4")]);
    let v = run(&root).unwrap();
    assert_eq!(f32::from_bits(v.num.unwrap()), 5.0);
}

#[test]
fn the_left_operand_fails_first() {
    let root = node("Add", vec![node("Bogus", vec![]), terminal(Token::PLUS), node("Num", vec![])]);
    assert_eq!(failed(root.eval(&vec![])), EvalError::UnknownSymbol);
    let root = node("Add", vec![node("Num", vec![]), terminal(Token::PLUS), node("Bogus", vec![])]);
    assert_eq!(failed(root.eval(&vec![])), EvalError::MalformedNode);
}

#[test]
fn literal_text_is_the_text_of_the_token() {
    let root = node("Num", vec![terminal(Token::NAME("12".to_string()))]);
    match root.eval(&vec![]) {
        Progress::Pending(Request::Number(text)) => assert_eq!(text, "12"),
        other => panic!("{:?}", other),
    }
    let root = node("String", vec![terminal(Token::PLUS)]);
    match root.eval(&vec![]) {
        Progress::Done(v) => assert_eq!(v.string, Some("+".to_string())),
        other => panic!("{:?}", other),
    }
}

#[test]
fn actions_can_be_called_by_name() {
    let sum = node("Whatever", vec![literal("1"), terminal(Token::PLUS), literal("2")]);
    let answers = vec![Some(bits(1.0)), Some(bits(2.0))];
    for (action, op) in [
        (Add as fn(&Node, &Vec<Option<u32>>, usize) -> (Progress, usize), Operator::Add),
        (Minus, Operator::Minus),
        (Mul, Operator::Mul),
        (Div, Operator::Div),
    ] {
        let (progress, used) = action(&sum, &answers, 0);
        assert_eq!(used, 2);
        match progress {
            Progress::Pending(Request::Arith(asked, a, b)) => {
                assert_eq!(asked, op);
                assert_eq!((a, b), (bits(1.0), bits(2.0)));
            }
            other => panic!("{:?}", other),
        }
    }
    let (progress, used) = Num(&literal("8"), &vec![Some(bits(8.0))], 0);
    assert_eq!(used, 1);
    assert!(matches!(progress, Progress::Done(v) if v.num == Some(bits(8.0))));
    assert!(matches!(StringAction(&quoted("s")), Progress::Done(v) if v.string == Some("s".to_string())));
}

#[test]
fn default_value_is_absent() {
    let v = EvalVal::default();
    assert_eq!(v.valtype, ValType::NULL);
    assert!(v.num.is_none());
    assert!(v.string.is_none());
}

#[test]
fn cloned_value_is_the_same() {
    let v = EvalVal { num: None, string: Some("s".to_string()), valtype: ValType::STRING };
    let w = v.clone();
    assert_eq!(w.string, v.string);
    assert_eq!(w.valtype, v.valtype);
    assert_eq!(w.num, v.num);
}

#[test]
fn a_tree_is_done_after_one_answer_for_each_literal_and_each_operation() {
    let root = tree("1 + 2 * 3");
    let mut answers: Vec<Option<u32>> = Vec::new();
    let mut requests = 0;
    while let Progress::Pending(_) = root.eval(&answers) {
        answers.push(Some(bits(1.0)));
        requests += 1;
        assert!(requests <= 5);
    }
    assert_eq!(requests, 5);
}

#[test]
fn a_finished_evaluation_replays_to_the_same_end() {
    let root = tree("\"a\" * 2");
    let short = vec![Some(bits(2.0))];
    let long = vec![Some(bits(2.0)), Some(bits(9.0)), None];
    assert_eq!(failed(root.eval(&short)), EvalError::TypeMismatch);
    assert_eq!(failed(root.eval(&long)), EvalError::TypeMismatch);
}

#[test]
fn any_arithmetic_unit_can_drive_an_evaluation() {
    // A unit of unsigned integers: the library hands the numbers on as they are.
    let root = tree("2 + 3 * 4");
    let mut answers: Vec<Option<u32>> = Vec::new();
    let value = loop {
        match root.eval(&answers) {
            Progress::Done(v) => break v,
            Progress::Failed(e) => panic!("{:?}", e),
            Progress::Pending(Request::Number(text)) => answers.push(text.parse::<u32>().ok()),
            Progress::Pending(Request::Arith(op, a, b)) => answers.push(Some(match op {
                Operator::Add => a + b,
                Operator::Minus => a - b,
                Operator::Mul => a * b,
                Operator::Div => a / b,
            })),
        }
    };
    assert_eq!(value.num, Some(14));
    assert_eq!(answers, vec![Some(2), Some(3), Some(4), Some(12), Some(14)]);
}
