//! Hindley-Milner: the let-polymorphic calculus of ML, with type inference
//! by Algorithm W and no type annotations in the source.

pub mod ast;
pub mod eval;
pub mod infer;
pub mod parser;
