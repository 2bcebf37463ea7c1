//! A small interpreter for a parenthesised prefix-notation expression language:
//! a tokenizer, a recursive-descent parser and a tree-walking evaluator.
pub mod error;
pub mod eval;
pub mod laws;
pub mod lexer;
pub mod literal;
pub mod syntax;

pub use error::LispError;
pub use lexer::tokenize;
pub use literal::is_number_literal;
pub use syntax::{parse, Expression};
pub use eval::{evaluate, run, Environment, Number, Operation, Truth, Value};
