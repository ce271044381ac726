//! A calculator expression engine: multi-radix numeric literals, a lexer, a
//! precedence-climbing parser, and a tree-walking evaluator over 128-bit
//! signed integers, together with a plain-text number formatter.

pub mod chars;
pub mod error;
pub mod eval;
pub mod parser;
pub mod reprs;
pub mod roundtrip;
pub mod show;
