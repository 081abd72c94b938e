use fufu::lexer::{lex, NumType, Token};
use fufu::parser::{Node, Parser, Rule};
use fufu::render::Notation;

fn grammar() -> Parser {
    let mut pg = Parser::new();
    pg.add_rule(vec!["NAME"], "expr", "Name");
    pg.add_rule(vec!["NUM"], "expr", "Num");
    pg.add_rule(vec!["STRING"], "expr", "String");
    pg.new_precedence();
    pg.add_rule(vec!["expr", "STAR", "expr"], "expr", "Mul");
    pg.add_rule(vec!["expr", "SLASH", "expr"], "expr", "Div");
    pg.new_precedence();
    pg.add_rule(vec!["expr", "PLUS", "expr"], "expr", "Add");
    pg.add_rule(vec!["expr", "MINUS", "expr"], "expr", "Minus");
    pg
}

fn names(tokens: &[&str]) -> Vec<Token> {
    tokens.iter().map(|t| Token::NAME(t.to_string())).collect()
}

fn text(node: &Node) -> String {
    node.render(Notation::Plain).unwrap()
}

fn terminal(token: Token) -> Node {
    Node {
        class_name: "TOKEN".to_string(),
        token_values: vec![],
        token_names: vec![],
        index: 0,
        line: "TOKEN".to_string(),
        token: Some(token),
    }
}

fn rule(pattern: &[&str], name: &str, class_name: &str) -> Rule {
    Rule {
        pattern: pattern.iter().map(|s| s.to_string()).collect(),
        class_name: class_name.to_string(),
        name: name.to_string(),
    }
}

#[test]
fn new_registry_has_one_open_tier() {
    let pg = Parser::new();
    assert_eq!(pg.rules.len(), 1);
    assert!(pg.rules[0].is_empty());
    assert_eq!(pg.precedence, 0);
}

#[test]
fn rules_go_to_the_open_tier_in_order() {
    let mut pg = Parser::new();
    pg.add_rule(vec!["NUM"], "expr", "Num");
    pg.add_rule(vec!["expr", "PLUS", "expr"], "sum", "Add");
    assert_eq!(pg.rules.len(), 1);
    assert_eq!(pg.rules[0].len(), 2);
    assert_eq!(pg.rules[0][0].pattern, vec!["NUM"]);
    assert_eq!(pg.rules[0][0].name, "expr");
    assert_eq!(pg.rules[0][0].class_name, "Num");
    assert_eq!(pg.rules[0][1].pattern, vec!["expr", "PLUS", "expr"]);
    assert_eq!(pg.rules[0][1].name, "sum");
    assert_eq!(pg.rules[0][1].class_name, "Add");
}

#[test]
fn new_precedence_opens_a_later_tier() {
    let mut pg = Parser::new();
    pg.add_rule(vec!["NUM"], "expr", "Num");
    pg.new_precedence();
    pg.add_rule(vec!["expr", "STAR", "expr"], "expr", "Mul");
    pg.new_precedence();
    assert_eq!(pg.precedence, 2);
    assert_eq!(pg.rules.len(), 3);
    assert_eq!(pg.rules[0].len(), 1);
    assert_eq!(pg.rules[1].len(), 1);
    assert_eq!(pg.rules[1][0].class_name, "Mul");
    assert!(pg.rules[2].is_empty());
}

#[test]
fn duplicate_rules_are_kept() {
    let mut pg = Parser::new();
    pg.add_rule(vec!["NUM"], "expr", "Num");
    pg.add_rule(vec!["NUM"], "expr", "Num");
    assert_eq!(pg.rules[0].len(), 2);
}

#[test]
fn single_terminal_reduces_to_its_literal() {
    let tokens = lex("42").unwrap();
    let root = grammar().parse(&tokens, "42").unwrap();
    assert_eq!(root.class_name, "Num");
    assert_eq!(root.token_names, vec!["NUM"]);
    assert_eq!(root.index, 0);
    assert_eq!(root.line, "42");
    assert!(root.token.is_none());
    assert_eq!(root.token_values.len(), 1);
    let leaf = &root.token_values[0];
    assert_eq!(leaf.class_name, "TOKEN");
    assert_eq!(leaf.line, "TOKEN");
    assert_eq!(leaf.index, 0);
    assert!(leaf.token_values.is_empty());
    assert!(leaf.token_names.is_empty());
    assert_eq!(leaf.token, Some(Token::NUM("42".to_string(), NumType::INT)));
}

#[test]
fn child_count_is_the_pattern_length() {
    let line = "1 + 2";
    let root = grammar().parse(&lex(line).unwrap(), line).unwrap();
    assert_eq!(root.class_name, "Add");
    assert_eq!(root.token_values.len(), 3);
    assert_eq!(root.token_names, vec!["expr", "PLUS", "expr"]);
    assert_eq!(root.token_values[0].class_name, "Num");
    assert_eq!(root.token_values[1].class_name, "TOKEN");
    assert_eq!(root.token_values[1].token, Some(Token::PLUS));
    assert_eq!(root.token_values[2].class_name, "Num");
}

#[test]
fn earlier_tier_collapses_first() {
    let line = "2 + 3 * 4";
    let root = grammar().parse(&lex(line).unwrap(), line).unwrap();
    assert_eq!(text(&root), "Add(2 + Mul(3 * 4))");
}

#[test]
fn reduction_records_where_it_took_place() {
    let line = "2 + 3 * 4";
    let root = grammar().parse(&lex(line).unwrap(), line).unwrap();
    // The product is built when the sequence reads expr PLUS expr STAR expr.
    assert_eq!(root.index, 0);
    assert_eq!(root.token_values[2].class_name, "Mul");
    assert_eq!(root.token_values[2].index, 2);
    assert_eq!(root.token_values[2].line, line);
    assert_eq!(root.token_values[2].token_values[2].index, 4);
}

#[test]
fn same_tier_operators_group_to_the_left() {
    let line = "1 - 2 - 3";
    let root = grammar().parse(&lex(line).unwrap(), line).unwrap();
    assert_eq!(text(&root), "Minus(Minus(1 - 2) - 3)");
}

#[test]
fn within_a_tier_the_earlier_rule_scans_first() {
    // Both operators share a tier; the product's rule was registered first and
    // scans the whole sequence before the quotient's rule sees it.
    let line = "8 / 4 * 2";
    let root = grammar().parse(&lex(line).unwrap(), line).unwrap();
    assert_eq!(text(&root), "Div(8 / Mul(4 * 2))");
}

#[test]
fn adjacent_names_are_a_syntax_error() {
    let tokens = names(&["a", "b"]);
    let e = grammar().parse(&tokens, "a b").unwrap_err();
    assert_eq!(e.line, "a b");
    assert_eq!(e.leftover, 2);
}

#[test]
fn empty_token_stream_is_a_syntax_error() {
    let e = grammar().parse(&vec![], "").unwrap_err();
    assert_eq!(e.line, "");
    assert_eq!(e.leftover, 0);
}

#[test]
fn dangling_operator_is_a_syntax_error() {
    let line = "1 +";
    let e = grammar().parse(&lex(line).unwrap(), line).unwrap_err();
    assert_eq!(e.line, "1 +");
    assert_eq!(e.leftover, 2);
}

#[test]
fn no_rules_leave_the_terminals_alone() {
    let pg = Parser::new();
    let line = "7";
    let root = pg.parse(&lex(line).unwrap(), line).unwrap();
    assert_eq!(root.class_name, "TOKEN");
    assert_eq!(root.token, Some(Token::NUM("7".to_string(), NumType::INT)));
}

#[test]
fn a_pass_collapses_a_match_and_moves_on_by_one() {
    // x x x x under (x x -> x): the node built at 0 starts no match of the same
    // scan; the scan goes on at 1 and pairs the last two terminals.
    let pg = Parser::new();
    let tokens = names(&["p", "q", "r", "s"]);
    let nodes: Vec<Node> = tokens.into_iter().map(terminal).collect();
    let symbols: Vec<String> = vec!["x".to_string(); 4];
    let rules = vec![rule(&["x", "x"], "x", "Pair")];
    let (nodes, symbols) = pg.parse_rules(symbols, nodes, "p q r s", &rules);
    assert_eq!(symbols, vec!["x", "x"]);
    assert_eq!(nodes.len(), 2);
    assert_eq!(nodes[0].class_name, "Pair");
    assert_eq!(nodes[0].index, 0);
    assert_eq!(nodes[0].token_values[0].token, Some(Token::NAME("p".to_string())));
    assert_eq!(nodes[0].token_values[1].token, Some(Token::NAME("q".to_string())));
    assert_eq!(nodes[1].class_name, "Pair");
    assert_eq!(nodes[1].index, 1);
    assert_eq!(nodes[1].token_values[0].token, Some(Token::NAME("r".to_string())));
    assert_eq!(nodes[1].token_values[1].token, Some(Token::NAME("s".to_string())));
}

#[test]
fn a_later_rule_sees_what_the_earlier_rule_left() {
    let pg = Parser::new();
    let nodes: Vec<Node> = names(&["p", "q"]).into_iter().map(terminal).collect();
    let symbols = vec!["a".to_string(), "b".to_string()];
    let rules = vec![rule(&["a"], "c", "First"), rule(&["c", "b"], "d", "Second")];
    let (nodes, symbols) = pg.parse_rules(symbols, nodes, "", &rules);
    assert_eq!(symbols, vec!["d"]);
    assert_eq!(nodes[0].class_name, "Second");
    assert_eq!(nodes[0].token_names, vec!["c", "b"]);
    assert_eq!(nodes[0].token_values[0].class_name, "First");
}

#[test]
fn a_rule_is_not_retried_within_its_pass() {
    // (c b -> d) scans before (a -> c) in the same tier and finds nothing; it is
    // the next outer iteration that applies it.
    let pg = Parser::new();
    let nodes: Vec<Node> = names(&["p", "q"]).into_iter().map(terminal).collect();
    let symbols = vec!["a".to_string(), "b".to_string()];
    let rules = vec![rule(&["c", "b"], "d", "Second"), rule(&["a"], "c", "First")];
    let (nodes, symbols) = pg.parse_rules(symbols, nodes, "", &rules);
    assert_eq!(symbols, vec!["c", "b"]);
    assert_eq!(nodes.len(), 2);
    let (nodes, symbols) = pg.parse_rules(symbols, nodes, "", &rules);
    assert_eq!(symbols, vec!["d"]);
    assert_eq!(nodes.len(), 1);
}

#[test]
fn a_pattern_longer_than_the_sequence_is_skipped() {
    let pg = Parser::new();
    let nodes: Vec<Node> = names(&["p"]).into_iter().map(terminal).collect();
    let symbols = vec!["a".to_string()];
    let rules = vec![rule(&["a", "a"], "b", "Pair")];
    let (nodes, symbols) = pg.parse_rules(symbols, nodes, "", &rules);
    assert_eq!(symbols, vec!["a"]);
    assert_eq!(nodes[0].class_name, "TOKEN");
}

#[test]
fn bounded_parse_needs_the_pass_that_finds_the_fixpoint() {
    let line = "2 + 3 * 4";
    let tokens = lex(line).unwrap();
    let pg = grammar();
    assert!(pg.parse_within(&tokens, line, 0).is_none());
    assert!(pg.parse_within(&tokens, line, 1).is_none());
    let root = pg.parse_within(&tokens, line, 2).unwrap().unwrap();
    assert_eq!(text(&root), "Add(2 + Mul(3 * 4))");
}

#[test]
fn passes_beyond_the_fixpoint_change_nothing() {
    let line = "1 + 2 * 3 - 4 / 5";
    let tokens = lex(line).unwrap();
    let pg = grammar();
    let unbounded = format!("{:?}", pg.parse(&tokens, line).unwrap());
    let mut budget = 1;
    while pg.parse_within(&tokens, line, budget).is_none() {
        budget += 1;
    }
    for extra in 0..4 {
        let root = pg.parse_within(&tokens, line, budget + extra).unwrap().unwrap();
        assert_eq!(format!("{:?}", root), unbounded);
    }
}

#[test]
fn equal_inputs_give_equal_trees() {
    let line = "1 + 2 * 3 - 4 / 5";
    let first = grammar().parse(&lex(line).unwrap(), line).unwrap();
    let second = grammar().parse(&lex(line).unwrap(), line).unwrap();
    assert_eq!(format!("{:?}", first), format!("{:?}", second));
}

#[test]
fn the_fixpoint_is_judged_by_the_symbol_names() {
    // (x -> x) fires in every pass and never changes a name, so the first pass is
    // the last, and the terminal is wrapped once.
    let mut pg = Parser::new();
    pg.add_rule(vec!["NAME"], "NAME", "Again");
    let root = pg.parse_within(&names(&["a"]), "a", 1).unwrap().unwrap();
    assert_eq!(root.class_name, "Again");
    assert_eq!(root.token_values[0].class_name, "TOKEN");
}

#[test]
fn standard_grammar_is_grounded() {
    assert!(grammar().is_grounded());
    assert!(Parser::new().is_grounded());
}

#[test]
fn renaming_a_produced_symbol_is_not_grounded() {
    let mut pg = grammar();
    pg.add_rule(vec!["expr"], "stmt", "Stmt");
    assert!(!pg.is_grounded());
    let mut pg = Parser::new();
    pg.add_rule(vec!["NAME"], "NAME", "Again");
    assert!(!pg.is_grounded());
}

#[test]
fn produces_knows_the_produced_names() {
    let pg = grammar();
    assert!(pg.produces(&"expr".to_string()));
    assert!(!pg.produces(&"NUM".to_string()));
    assert!(!pg.produces(&"Add".to_string()));
}

#[test]
fn grounded_parse_ends_within_its_potential() {
    // Five terminals weigh 2 each: eleven passes are enough whatever the line.
    let line = "1 * 2 + 3";
    let tokens = lex(line).unwrap();
    assert!(grammar().parse_within(&tokens, line, 11).is_some());
}

#[test]
fn renaming_in_a_circle_reaches_no_fixpoint() {
    let mut pg = Parser::new();
    pg.add_rule(vec!["NAME"], "x", "One");
    pg.add_rule(vec!["b"], "NAME", "Two");
    pg.add_rule(vec!["x"], "b", "Three");
    assert!(!pg.is_grounded());
    let tokens = names(&["a"]);
    for budget in [1, 2, 3, 10, 25] {
        assert!(pg.parse_within(&tokens, "a", budget).is_none());
    }
}

/// Whether a rule of the grammar built the node, and so on below it.
fn is_derivation(pg: &Parser, node: &Node) -> bool {
    if node.token.is_some() {
        return node.class_name == "TOKEN" && node.token_values.is_empty() && node.token_names.is_empty();
    }
    let built = pg.rules.iter().flatten().any(|rule| {
        rule.class_name == node.class_name
            && rule.pattern == node.token_names
            && rule.pattern.len() == node.token_values.len()
    });
    built && node.token_values.iter().all(|child| is_derivation(pg, child))
}

#[test]
fn trees_are_derivations_of_the_grammar() {
    let pg = grammar();
    for line in ["1", "x", "\"s\"", "1 + 2", "1 + 2 * 3 - 4 / 5", "a * b * c"] {
        let root = pg.parse(&lex(line).unwrap(), line).unwrap();
        assert!(is_derivation(&pg, &root), "{line}");
    }
}

#[test]
fn the_leaves_of_a_tree_are_the_tokens_in_order() {
    fn leaves(node: &Node, out: &mut Vec<Token>) {
        if let Some(token) = &node.token {
            out.push(token.clone());
        }
        for child in &node.token_values {
            leaves(child, out);
        }
    }
    let line = "1 + 2 * 3 - 4 / 5";
    let tokens = lex(line).unwrap();
    let root = grammar().parse(&tokens, line).unwrap();
    let mut found = Vec::new();
    leaves(&root, &mut found);
    assert_eq!(found, tokens);
}

#[test]
fn try_parse_parses_under_a_grounded_grammar() {
    let line = "2 + 3 * 4";
    let root = grammar().try_parse(&lex(line).unwrap(), line).unwrap().unwrap();
    assert_eq!(text(&root), "Add(2 + Mul(3 * 4))");
    let e = grammar().try_parse(&names(&["a", "b"]), "a b").unwrap().unwrap_err();
    assert_eq!(e.leftover, 2);
}

#[test]
fn try_parse_declines_a_grammar_that_is_not_grounded() {
    let mut pg = grammar();
    pg.add_rule(vec!["expr"], "stmt", "Stmt");
    assert!(pg.try_parse(&lex("1").unwrap(), "1").is_none());
}
