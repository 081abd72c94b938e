use fufu::lexer::{lex, NumType, Token};
use fufu::parser::{Node, Parser};
use fufu::render::Notation;

fn grammar() -> Parser {
    let mut pg = Parser::new();
    pg.add_rule(vec!["NAME"], "expr", "Name");
    pg.add_rule(vec!["NUM"], "expr", "Num");
    pg.add_rule(vec!["STRING"], "expr", "String");
    pg.new_precedence();
    pg.add_rule(vec!["expr", "STAR", "expr"], "expr", "Mul");
    pg.add_rule(vec!["expr", "SLASH", "expr"], "expr", "Div");
    pg.new_precedence();
    pg.add_rule(vec!["expr", "PLUS", "expr"], "expr", "Add");
    pg.add_rule(vec!["expr", "MINUS", "expr"], "expr", "Minus");
    pg
}

fn tree(line: &str) -> Node {
    grammar().parse(&lex(line).unwrap(), line).unwrap()
}

#[test]
fn tagged_tokens_show_kind_and_text() {
    assert_eq!(Token::NUM("2".to_string(), NumType::INT).render(Notation::Tagged), "NUM(2, INT)");
    assert_eq!(Token::NUM("2.5".to_string(), NumType::FLOAT).render(Notation::Tagged), "NUM(2.5, FLOAT)");
    assert_eq!(Token::STRING("a b".to_string()).render(Notation::Tagged), "STRING(a b)");
    assert_eq!(Token::NAME("x".to_string()).render(Notation::Tagged), "NAME(x)");
    assert_eq!(Token::PLUS.render(Notation::Tagged), "PLUS");
    assert_eq!(Token::PRINT.render(Notation::Tagged), "PRINT");
}

#[test]
fn plain_tokens_show_their_text_alone() {
    assert_eq!(Token::NUM("2".to_string(), NumType::INT).render(Notation::Plain), "2");
    assert_eq!(Token::STRING("a b".to_string()).render(Notation::Plain), "a b");
    assert_eq!(Token::NAME("x".to_string()).render(Notation::Plain), "x");
    assert_eq!(Token::PLUS.render(Notation::Plain), "");
    assert_eq!(Token::INPUT.render(Notation::Plain), "");
}

#[test]
fn trees_are_written_with_their_actions_and_signs() {
    assert_eq!(tree("1 + 2").render(Notation::Plain).unwrap(), "Add(1 + 2)");
    assert_eq!(tree("1 - 2").render(Notation::Plain).unwrap(), "Minus(1 - 2)");
    assert_eq!(tree("1 * 2").render(Notation::Plain).unwrap(), "Mul(1 * 2)");
    assert_eq!(tree("1 / 2").render(Notation::Plain).unwrap(), "Div(1 / 2)");
    assert_eq!(tree("x * \"s\" + 2.5").render(Notation::Plain).unwrap(), "Add(Mul(x * s) + 2.5)");
}

#[test]
fn trees_hand_the_notation_down_to_their_tokens() {
    assert_eq!(
        tree("x + 2").render(Notation::Tagged).unwrap(),
        "Add(NAME(x) + NUM(2, INT))"
    );
}

#[test]
fn terminal_is_written_as_the_text_of_its_token() {
    let root = tree("1 + 2");
    assert_eq!(root.token_values[1].render(Notation::Plain).unwrap(), "+");
    assert_eq!(root.token_values[1].render(Notation::Tagged).unwrap(), "+");
}

#[test]
fn other_nodes_have_no_text() {
    let mut pg = Parser::new();
    pg.add_rule(vec!["NAME"], "stmt", "Stmt");
    let root = pg.parse(&lex("x").unwrap(), "x").unwrap();
    assert!(root.render(Notation::Plain).is_none());
    let broken = Node {
        class_name: "Add".to_string(),
        token_values: vec![],
        token_names: vec![],
        index: 0,
        line: String::new(),
        token: None,
    };
    assert!(broken.render(Notation::Plain).is_none());
    let hollow = Node {
        class_name: "TOKEN".to_string(),
        token_values: vec![],
        token_names: vec![],
        index: 0,
        line: String::new(),
        token: None,
    };
    assert!(hollow.render(Notation::Plain).is_none());
}
