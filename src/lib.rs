//! A parser and a tree-walking evaluator for a small dynamically typed
//! scripting language with C-like syntax, lexical scoping and short-circuit
//! logic.
//!
//! Source text goes through [`scan::scan`] to tokens, through
//! [`parse::parse`] to statements, and through [`eval::eval_statements`]
//! against a chain of scopes ([`env::EvalState`]). The grammar is stated in
//! [`grammar`] and the meaning of programs in [`semantics`]; the parser and
//! the evaluator are proved to follow them, and [`laws`], [`precedence`] and
//! [`reparse`] prove properties of the language itself.
//!
//! Numbers are IEEE-754 binary64 values held as their bit patterns. The
//! library negates and compares them itself; reading a number literal and the
//! four arithmetic operations come from the host through
//! [`value::FloatArithmetic`].
use vstd::prelude::*;

pub mod value;
pub mod ast;
pub mod grammar;
pub mod scan;
pub mod parse;
pub mod env;
pub mod error;
pub mod semantics;
pub mod eval;
pub mod laws;
pub mod reparse;
pub mod precedence;

verus! {

} // verus!
