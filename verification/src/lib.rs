//! A minimal interactive interpreter for a stack-based (postfix) numeric
//! language. The lexer turns a line of text into tokens; the interpreter
//! executes the tokens against a persistent numeric stack with a fixed
//! vocabulary of built-in words.
//!
//! Numeric values are IEEE-754 binary64 numbers, carried everywhere as their
//! bit patterns (`u64`); the arithmetic itself is done by `rustc_apfloat`
//! behind the trusted wrappers in `value`.

pub mod error;
pub mod interpreter;
pub mod lexer;
pub mod value;
