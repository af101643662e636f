//! A small arithmetic expression front end: a scanner that cuts raw text into
//! positioned lexemes, a tokenizer that classifies them (with multi-radix
//! integer literals), a recursive-descent parser with precedence climbing,
//! and an integer evaluator. Every stage carries a full functional contract
//! against a mathematical model of its behaviour.

pub mod error;
pub mod eval;
pub mod laws;
pub mod lexer;
pub mod parser;
pub mod render;
pub mod tokenizer;
