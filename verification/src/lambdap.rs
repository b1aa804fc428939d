//! A small λP fragment: types and terms share one syntax, Π-types let a
//! result type depend on an argument value, and definitional equality is
//! decided by β-normalization. It uses the inconsistent rule `Type : Type`.

pub mod ast;
pub mod eval;
pub mod parser;
pub mod typeck;
