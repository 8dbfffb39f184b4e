//! A small programming-language front end and tree-walking evaluator.
//!
//! Source text is turned into tokens, tokens into an abstract syntax tree,
//! and the tree into bound variables, rendered output and function results.
//! Every stage is specified against a mathematical mirror of its data and
//! verified: the lexer against a character-level token specification, the
//! parser against a recursive grammar specification, and the evaluator
//! against a specification interpreter over view-level values.
use vstd::prelude::*;

pub mod ast;
pub mod float;
pub mod gpu;
pub mod interp;
pub mod laws;
pub mod lexer;
pub mod parser;
pub mod run;
pub mod token;
pub mod value;
pub mod text;

verus! {

broadcast use vstd::std_specs::vec::group_vec_axioms;

} // verus!
