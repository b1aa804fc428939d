//! Untyped lambda calculus: three term forms (variable, abstraction,
//! application), capture-avoiding substitution and normal-order
//! beta-reduction to normal form.

pub mod ast;
pub mod eval;
pub mod parser;
