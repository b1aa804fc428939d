//! System F (λ2): the simply typed calculus with type variables,
//! `∀`-types, type abstraction `ΛT. e` and type application `e [τ]`.

pub mod ast;
pub mod eval;
pub mod typeck;
pub mod alpha;
