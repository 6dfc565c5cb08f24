//! An interactive interpreter for a small line-numbered BASIC dialect.
//!
//! One line of source text at a time is tokenized (`lexer`), parsed into an
//! abstract syntax tree (`parser`, `ast`), and either stored under its line
//! number or executed immediately (`evaluator`). Stored programs run with
//! `RUN`; `render` turns an abstract syntax tree back into source text.

pub mod arith;
pub mod ast;
pub mod evaluator;
pub mod laws;
pub mod lexer;
pub mod parser;
pub mod render;
pub mod token;
