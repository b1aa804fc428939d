//! Climbing the lambda cube: six small calculi (untyped, simply typed,
//! System F, Hindley-Milner, System Fω and a λP fragment), each with its
//! abstract syntax, type checker where it has one, evaluator and parser.

pub mod names;
pub mod untyped;
pub mod stlc;
pub mod lambdap;
pub mod systemf;
pub mod hm;
pub mod fomega;
pub mod repl;
