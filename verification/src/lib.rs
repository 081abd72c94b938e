//! A small expression language: a tokenizer, a bottom-up reduction engine driven by
//! a grammar of precedence tiers, and the evaluation of the trees it builds.
//!
//! [`lexer`] turns a line into tokens. [`parser`] holds the grammar registry and
//! the engine that reduces a token stream to one tree. [`ast`] holds the semantic
//! actions and defines evaluation. [`render`] writes tokens and trees out.
//! [`laws`], [`derivation`], [`termination`] and [`driver`] state and prove what
//! holds of the engine and of evaluation for every input.

pub mod ast;
pub mod derivation;
pub mod driver;
pub mod laws;
pub mod lexer;
pub mod parser;
pub mod render;
pub mod termination;
