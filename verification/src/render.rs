//! Diagnostic text for tokens and trees.
//!
//! The notation is an argument of every function here: nothing is remembered
//! between calls.

use vstd::prelude::*;
use vstd::string::StringExecFns;
use crate::ast::spells;
use crate::lexer::{NumType, Token, TokenView};
use crate::parser::{Node, NodeView};

verus! {

/// How tokens are written out.
#[derive(Debug, Clone, Copy, PartialEq, Eq, Structural)]
pub enum Notation {
    /// The kind of the token, and its text in parentheses where it has one.
    Tagged,
    /// The text of a literal or an identifier alone; nothing for any other token.
    Plain,
}

/// The name of a literal's tag.
pub open spec fn tag_name(kind: NumType) -> Seq<char> {
    match kind {
        NumType::FLOAT => "FLOAT"@,
        NumType::INT => "INT"@,
    }
}

/// The text that stands for a token in `notation`.
pub open spec fn token_text(token: TokenView, notation: Notation) -> Seq<char> {
    match notation {
        Notation::Plain => match token {
            TokenView::NUM(text, _) => text,
            TokenView::STRING(text) => text,
            TokenView::NAME(text) => text,
            _ => Seq::empty(),
        },
        Notation::Tagged => match token {
            TokenView::NUM(text, kind) => "NUM("@ + text + ", "@ + tag_name(kind) + ")"@,
            TokenView::STRING(text) => "STRING("@ + text + ")"@,
            TokenView::NAME(text) => "NAME("@ + text + ")"@,
            _ => token.name(),
        },
    }
}

/// The sign that an arithmetic action is written with.
pub open spec fn sign_of(class_name: Seq<char>) -> Option<Seq<char>> {
    if class_name == "Add"@ {
        Some(" + "@)
    } else if class_name == "Mul"@ {
        Some(" * "@)
    } else if class_name == "Div"@ {
        Some(" / "@)
    } else if class_name == "Minus"@ {
        Some(" - "@)
    } else {
        None
    }
}

/// The text that stands for a tree in `notation`, where it has one.
///
/// An arithmetic node is its action, and in parentheses its first and its third
/// child with the sign between them. A terminal is the text of its token. A literal
/// or an identifier is the token of its first child. Any other node has no text,
/// nor has one that lacks what is read from it.
pub open spec fn tree_text(node: NodeView, notation: Notation) -> Option<Seq<char>>
    decreases node,
{
    match sign_of(node.class_name) {
        Some(sign) => {
            if node.token_values.len() < 3 {
                None
            } else {
                match tree_text(node.token_values[0], notation) {
                    Some(left) => match tree_text(node.token_values[2], notation) {
                        Some(right) => Some(node.class_name + "("@ + left + sign + right + ")"@),
                        None => None,
                    },
                    None => None,
                }
            }
        },
        None => {
            if node.class_name == "TOKEN"@ {
                match node.token {
                    Some(token) => Some(token.value()),
                    None => None,
                }
            } else if node.class_name == "Num"@ || node.class_name == "String"@ || node.class_name
                == "Name"@ {
                if node.token_values.len() >= 1 && node.token_values[0].token is Some {
                    Some(token_text(node.token_values[0].token->0, notation))
                } else {
                    None
                }
            } else {
                None
            }
        },
    }
}

impl Token {
    /// Writes the token out in `notation`.
    pub fn render(&self, notation: Notation) -> (r: String)
        ensures
            r@ == token_text(self@, notation),
    {
        match notation {
            Notation::Plain => match self {
                Token::NUM(text, _) => text.clone(),
                Token::STRING(text) => text.clone(),
                Token::NAME(text) => text.clone(),
                _ => String::new(),
            },
            Notation::Tagged => match self {
                Token::NUM(text, kind) => {
                    let mut out = String::from_str("NUM(");
                    out.append(text.as_str());
                    out.append(", ");
                    match kind {
                        NumType::FLOAT => out.append("FLOAT"),
                        NumType::INT => out.append("INT"),
                    }
                    out.append(")");
                    out
                },
                Token::STRING(text) => {
                    let mut out = String::from_str("STRING(");
                    out.append(text.as_str());
                    out.append(")");
                    out
                },
                Token::NAME(text) => {
                    let mut out = String::from_str("NAME(");
                    out.append(text.as_str());
                    out.append(")");
                    out
                },
                _ => self.name(),
            },
        }
    }
}

/// The sign that an arithmetic action is written with.
fn sign(class_name: &String) -> (r: Option<String>)
    ensures
        match sign_of(class_name@) {
            Some(s) => r matches Some(text) && text@ == s,
            None => r is None,
        },
{
    if spells(class_name, "Add") {
        Some(String::from_str(" + "))
    } else if spells(class_name, "Mul") {
        Some(String::from_str(" * "))
    } else if spells(class_name, "Div") {
        Some(String::from_str(" / "))
    } else if spells(class_name, "Minus") {
        Some(String::from_str(" - "))
    } else {
        None
    }
}

impl Node {
    /// Writes the tree out in `notation`; `None` where the tree has no text.
    pub fn render(&self, notation: Notation) -> (r: Option<String>)
        ensures
            match tree_text(self@, notation) {
                Some(text) => r matches Some(s) && s@ == text,
                None => r is None,
            },
        decreases self,
    {
        match sign(&self.class_name) {
            Some(between) => {
                if self.token_values.len() < 3 {
                    return None;
                }
                assert(self@.token_values[0] == self.token_values@[0]@);
                assert(self@.token_values[2] == self.token_values@[2]@);
                let left = match self.token_values[0].render(notation) {
                    Some(text) => text,
                    None => {
                        return None;
                    },
                };
                let right = match self.token_values[2].render(notation) {
                    Some(text) => text,
                    None => {
                        return None;
                    },
                };
                let mut out = self.class_name.clone();
                out.append("(");
                out.append(left.as_str());
                out.append(between.as_str());
                out.append(right.as_str());
                out.append(")");
                Some(out)
            },
            None => {
                if spells(&self.class_name, "TOKEN") {
                    match &self.token {
                        Some(token) => Some(token.value()),
                        None => None,
                    }
                } else if spells(&self.class_name, "Num") || spells(&self.class_name, "String")
                    || spells(&self.class_name, "Name") {
                    if self.token_values.len() >= 1 {
                        assert(self@.token_values[0] == self.token_values@[0]@);
                        assert(self.token_values@[0]@.token is Some <==> self.token_values@[0].token is Some);
                        match &self.token_values[0].token {
                            Some(token) => Some(token.render(notation)),
                            None => None,
                        }
                    } else {
                        None
                    }
                } else {
                    None
                }
            },
        }
    }
}

} // verus!
