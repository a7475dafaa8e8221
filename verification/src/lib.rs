//! An interpreter for the Monkey programming language: a lexer, a Pratt
//! parser producing an abstract syntax tree, a tree-walking evaluator for
//! integer and boolean expressions, runtime objects with their environment,
//! and the built-in functions over strings and arrays.
use vstd::prelude::*;

pub mod text;
pub mod token;
pub mod lexer;
pub mod ast;
pub mod parser;
pub mod object;
pub mod evaluator;
pub mod builtins;
pub mod repl;

verus! {

} // verus!
