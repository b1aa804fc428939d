//! Call-by-value small-step evaluation; it does not reduce under binders.

use vstd::prelude::*;

use crate::lambdap::ast::{BinOp, STerm, Term};
use crate::names::wraps_to;
use crate::lambdap::typeck::{
    apply_op, norm_b, spec_normalize, spec_subst, spec_term_eq, spec_type_of, subst, NORMALIZE_BUDGET,
};

verus! {

pub open spec fn is_value(t: STerm) -> bool {
    match t {
        STerm::IntLit(_) | STerm::BoolLit(_) | STerm::Lambda(_, _, _) | STerm::Universe
        | STerm::Bool | STerm::Int | STerm::Pi(_, _, _) => true,
        _ => false,
    }
}

fn is_value_exec(t: &Term) -> (r: bool)
    ensures
        r == is_value(t@),
{
    match t {
        Term::IntLit(_) | Term::BoolLit(_) | Term::Lambda(_, _, _) | Term::Universe | Term::Bool
        | Term::Int | Term::Pi(_, _, _) => true,
        _ => false,
    }
}

/// One call-by-value step, or `None` when `t` is a value or stuck.
pub open spec fn spec_step(t: STerm) -> Option<STerm>
    decreases t,
{
    match t {
        STerm::App(f, a) => if !is_value(*f) {
            match spec_step(*f) {
                Some(f2) => Some(STerm::App(Box::new(f2), a)),
                None => None,
            }
        } else if !is_value(*a) {
            match spec_step(*a) {
                Some(a2) => Some(STerm::App(f, Box::new(a2))),
                None => None,
            }
        } else {
            match *f {
                STerm::Lambda(x, _, body) => Some(spec_subst(*body, x, *a)),
                _ => None,
            }
        },
        STerm::If(c, t1, t2) => if !is_value(*c) {
            match spec_step(*c) {
                Some(c2) => Some(STerm::If(Box::new(c2), t1, t2)),
                None => None,
            }
        } else {
            match *c {
                STerm::BoolLit(true) => Some(*t1),
                STerm::BoolLit(false) => Some(*t2),
                _ => None,
            }
        },
        STerm::BinOp(op, a, b) => if !is_value(*a) {
            match spec_step(*a) {
                Some(a2) => Some(STerm::BinOp(op, Box::new(a2), b)),
                None => None,
            }
        } else if !is_value(*b) {
            match spec_step(*b) {
                Some(b2) => Some(STerm::BinOp(op, a, Box::new(b2))),
                None => None,
            }
        } else {
            match (*a, *b) {
                (STerm::IntLit(x), STerm::IntLit(y)) => Some(apply_op(op, x, y)),
                _ => None,
            }
        },
        STerm::Let(x, e1, e2) => if !is_value(*e1) {
            match spec_step(*e1) {
                Some(e12) => Some(STerm::Let(x, Box::new(e12), e2)),
                None => None,
            }
        } else {
            Some(spec_subst(*e2, x, *e1))
        },
        _ => None,
    }
}

/// One call-by-value step; `None` when `t` is a value or stuck.
pub fn step(t: &Term) -> (r: Option<Term>)
    ensures
        match r {
            Some(u) => spec_step(t@) == Some(u@),
            None => spec_step(t@) is None,
        },
    decreases t,
{
    match t {
        Term::App(f, a) => {
            if !is_value_exec(f) {
                return match step(f) {
                    Some(f_new) => Some(Term::App(Box::new(f_new), Box::new(a.duplicate()))),
                    None => None,
                };
            }
            if !is_value_exec(a) {
                return match step(a) {
                    Some(a_new) => Some(Term::App(Box::new(f.duplicate()), Box::new(a_new))),
                    None => None,
                };
            }
            if let Term::Lambda(x, _, body) = &**f {
                Some(subst(body.duplicate(), x.as_str(), a))
            } else {
                None
            }
        },
        Term::If(c, t1, t2) => {
            if !is_value_exec(c) {
                return match step(c) {
                    Some(c_new) => Some(
                        Term::If(Box::new(c_new), Box::new(t1.duplicate()), Box::new(t2.duplicate())),
                    ),
                    None => None,
                };
            }
            match &**c {
                Term::BoolLit(true) => Some(t1.duplicate()),
                Term::BoolLit(false) => Some(t2.duplicate()),
                _ => None,
            }
        },
        Term::BinOp(op, a, b) => {
            if !is_value_exec(a) {
                return match step(a) {
                    Some(a_new) => Some(Term::BinOp(*op, Box::new(a_new), Box::new(b.duplicate()))),
                    None => None,
                };
            }
            if !is_value_exec(b) {
                return match step(b) {
                    Some(b_new) => Some(Term::BinOp(*op, Box::new(a.duplicate()), Box::new(b_new))),
                    None => None,
                };
            }
            match (&**a, &**b) {
                (Term::IntLit(x), Term::IntLit(y)) => Some(
                    match op {
                        BinOp::Add => Term::IntLit(x.wrapping_add(*y)),
                        BinOp::Sub => Term::IntLit(x.wrapping_sub(*y)),
                        BinOp::Mul => Term::IntLit(x.wrapping_mul(*y)),
                        BinOp::Eq => Term::BoolLit(*x == *y),
                        BinOp::Lt => Term::BoolLit(*x < *y),
                    },
                ),
                _ => None,
            }
        },
        Term::Let(x, e1, e2) => {
            if !is_value_exec(e1) {
                return match step(e1) {
                    Some(e1_new) => Some(
                        Term::Let(x.clone(), Box::new(e1_new), Box::new(e2.duplicate())),
                    ),
                    None => None,
                };
            }
            Some(subst(e2.duplicate(), x.as_str(), e1))
        },
        _ => None,
    }
}

/// The term reached after `k` steps, if each of them is possible.
pub open spec fn steps_from(t: STerm, k: nat) -> Option<STerm>
    decreases k,
{
    if k == 0 {
        Some(t)
    } else {
        match steps_from(t, (k - 1) as nat) {
            Some(u) => spec_step(u),
            None => None,
        }
    }
}

// ===== progress =====

/// Normalization leaves a constant or a literal as it is.
proof fn lemma_norm_atom(t: STerm, b: nat)
    requires
        t is Universe || t is Bool || t is Int || t is IntLit || t is BoolLit,
    ensures
        norm_b(t, b).0 == t,
{
}

/// Normalization of a Π-type is a Π-type.
proof fn lemma_norm_pi(t: STerm, b: nat)
    requires
        t is Pi,
    ensures
        norm_b(t, b).0 is Pi,
{
}

/// A closed value whose type is definitionally `expected`, a base type, is
/// a literal of that type.
proof fn lemma_canonical_base(v: STerm, expected: STerm)
    requires
        is_value(v),
        expected is Bool || expected is Int,
        spec_type_of(v, Map::empty()) is Ok,
        spec_term_eq(spec_type_of(v, Map::empty())->Ok_0, expected),
    ensures
        expected is Bool ==> v is BoolLit,
        expected is Int ==> v is IntLit,
{
    let ty = spec_type_of(v, Map::empty())->Ok_0;
    lemma_norm_atom(expected, NORMALIZE_BUDGET as nat);
    if ty is Pi {
        lemma_norm_pi(ty, NORMALIZE_BUDGET as nat);
    } else {
        lemma_norm_atom(ty, NORMALIZE_BUDGET as nat);
    }
}

/// Progress: a closed term that type-checks is a value or takes a step.
pub proof fn lemma_progress(t: STerm)
    requires
        spec_type_of(t, Map::empty()) is Ok,
    ensures
        is_value(t) || spec_step(t) is Some,
    decreases t,
{
    let ctx = Map::<Seq<char>, STerm>::empty();
    match t {
        STerm::App(f, a) => {
            lemma_progress(*f);
            lemma_progress(*a);
            let fty = spec_type_of(*f, ctx)->Ok_0;
            assert(spec_normalize(fty) is Pi);
            if is_value(*f) && !(*f is Lambda) {
                if fty is Pi {
                    assert(*f is Lambda);
                } else {
                    lemma_norm_atom(fty, NORMALIZE_BUDGET as nat);
                }
            }
        },
        STerm::If(c, _, _) => {
            lemma_progress(*c);
            if is_value(*c) {
                lemma_canonical_base(*c, STerm::Bool);
            }
        },
        STerm::BinOp(_, a, b) => {
            lemma_progress(*a);
            lemma_progress(*b);
            if is_value(*a) {
                lemma_canonical_base(*a, STerm::Int);
            }
            if is_value(*b) {
                lemma_canonical_base(*b, STerm::Int);
            }
        },
        STerm::Let(_, e1, _) => {
            lemma_progress(*e1);
        },
        _ => {},
    }
}

// ===== the rules of evaluation =====

/// Arithmetic on two integer literals steps to the arithmetic result,
/// wrapping around on overflow: the sum, the difference of the left minus
/// the right, and the product; `==` and `<` step to the comparison of the
/// left operand with the right.
pub proof fn lemma_step_operators(x: i64, y: i64)
    ensures
        spec_step(STerm::BinOp(BinOp::Add, Box::new(STerm::IntLit(x)), Box::new(STerm::IntLit(y))))
            matches Some(STerm::IntLit(r)) && wraps_to(r, x + y),
        spec_step(STerm::BinOp(BinOp::Sub, Box::new(STerm::IntLit(x)), Box::new(STerm::IntLit(y))))
            matches Some(STerm::IntLit(r)) && wraps_to(r, x - y),
        spec_step(STerm::BinOp(BinOp::Mul, Box::new(STerm::IntLit(x)), Box::new(STerm::IntLit(y))))
            matches Some(STerm::IntLit(r)) && wraps_to(r, x * y),
        spec_step(STerm::BinOp(BinOp::Eq, Box::new(STerm::IntLit(x)), Box::new(STerm::IntLit(y))))
            == Some(STerm::BoolLit(x == y)),
        spec_step(STerm::BinOp(BinOp::Lt, Box::new(STerm::IntLit(x)), Box::new(STerm::IntLit(y))))
            == Some(STerm::BoolLit(x < y)),
{
    let p = x * y;
    assert(wraps_to(x.wrapping_mul(y), p)) by (nonlinear_arith)
        requires
            p == x * y,
    {
    }
}

/// A conditional on `true` steps to its first branch, on `false` to its
/// second.
pub proof fn lemma_step_if(t1: STerm, t2: STerm)
    ensures
        spec_step(STerm::If(Box::new(STerm::BoolLit(true)), Box::new(t1), Box::new(t2))) == Some(t1),
        spec_step(STerm::If(Box::new(STerm::BoolLit(false)), Box::new(t1), Box::new(t2))) == Some(t2),
{
}

/// Call by value, left to right: the function is evaluated first, then the
/// argument.
pub proof fn lemma_step_application(f: STerm, a: STerm)
    ensures
        !is_value(f) && spec_step(f) is Some ==> spec_step(STerm::App(Box::new(f), Box::new(a))) == Some(
            STerm::App(Box::new(spec_step(f)->Some_0), Box::new(a)),
        ),
        is_value(f) && !is_value(a) && spec_step(a) is Some ==> spec_step(
            STerm::App(Box::new(f), Box::new(a)),
        ) == Some(STerm::App(Box::new(f), Box::new(spec_step(a)->Some_0))),
{
}

/// An abstraction applied to a value steps to its body with the value
/// substituted for the parameter.
pub proof fn lemma_step_beta(x: Seq<char>, ty: STerm, body: STerm, a: STerm)
    ensures
        is_value(a) ==> spec_step(STerm::App(Box::new(STerm::Lambda(x, Box::new(ty), Box::new(body))), Box::new(a))) == Some(
            spec_subst(body, x, a),
        ),
{
}

/// A `let` evaluates its definition first and then steps to its body with
/// the value substituted for the bound variable.
pub proof fn lemma_step_let(x: Seq<char>, e1: STerm, e2: STerm)
    ensures
        !is_value(e1) && spec_step(e1) is Some ==> spec_step(STerm::Let(x, Box::new(e1), Box::new(e2)))
            == Some(STerm::Let(x, Box::new(spec_step(e1)->Some_0), Box::new(e2))),
        is_value(e1) ==> spec_step(STerm::Let(x, Box::new(e1), Box::new(e2))) == Some(
            spec_subst(e2, x, e1),
        ),
{
}

pub struct EvalResult {
    pub term: Term,
    pub steps: usize,
}

/// Steps `t` until no step applies or `max_steps` steps were taken.
pub fn eval(t: Term, max_steps: usize) -> (r: EvalResult)
    ensures
        steps_from(t@, r.steps as nat) == Some(r.term@),
        r.steps <= max_steps,
        r.steps < max_steps ==> spec_step(r.term@) is None,
{
    let ghost t0 = t@;
    let mut cur = t;
    let mut i: usize = 0;
    while i < max_steps
        invariant
            i <= max_steps,
            t0 == t@,
            steps_from(t0, i as nat) == Some(cur@),
        decreases max_steps - i,
    {
        match step(&cur) {
            Some(next) => {
                cur = next;
            },
            None => {
                return EvalResult { term: cur, steps: i };
            },
        }
        i = i + 1;
    }
    EvalResult { term: cur, steps: max_steps }
}

} // verus!
