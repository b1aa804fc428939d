//! System Fω (λω): System F with type operators. Types have kinds, and
//! type-level functions compute by β-reduction during type checking.

pub mod ast;
pub mod parser;
pub mod typeck;
pub mod termination;
pub mod alpha;
