//! A small Lisp-flavoured interpreter: a maximal-munch lexer, a table-driven
//! backtracking parser, a lowering pass into an expression tree, and a
//! tree-walking evaluator over lexically scoped environment frames.
use vstd::prelude::*;

pub mod ast;
pub mod chars;
pub mod env;
pub mod eval;
pub mod grammar;
pub mod lexer;
pub mod lisp_value;
pub mod parse_node;
pub mod parser;

verus! {

} // verus!
