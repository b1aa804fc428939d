//! Simply typed lambda calculus (λ→): base types Bool and Int, function
//! types, annotated abstractions, primitive arithmetic and comparisons,
//! `if` and `let`, and a bidirectional type checker.

pub mod ast;
pub mod typeck;
