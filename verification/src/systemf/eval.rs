//! Call-by-value small-step evaluation for System F. Type abstractions are
//! values; a type application substitutes its type into the body.

use vstd::prelude::*;

use crate::names::{
    contains_name, distinct_names, extend_names, fresh_name, fresh_name_spec, insert_name,
    lemma_fresh_name_fresh, lemma_name_set_empty, name_set, remove_name,
};
use crate::names::wraps_to;
use crate::systemf::ast::{term_size, BinOp, STerm, Term};
use crate::systemf::ast::SType;
use crate::systemf::typeck::{spec_check, spec_infer, spec_ty_subst_in_term, ty_subst_in_term};

verus! {

pub open spec fn is_value(t: STerm) -> bool {
    match t {
        STerm::IntLit(_) | STerm::BoolLit(_) | STerm::Abs(_, _, _) | STerm::TyAbs(_, _) => true,
        _ => false,
    }
}

fn is_value_exec(t: &Term) -> (r: bool)
    ensures
        r == is_value(t@),
{
    match t {
        Term::IntLit(_) | Term::BoolLit(_) | Term::Abs(_, _, _) | Term::TyAbs(_, _) => true,
        _ => false,
    }
}

// ===== free term variables =====

pub open spec fn fv(t: STerm) -> Set<Seq<char>>
    decreases t,
{
    match t {
        STerm::Var(x) => set![x],
        STerm::Abs(x, _, b) => fv(*b).remove(x),
        STerm::App(f, a) => fv(*f).union(fv(*a)),
        STerm::TyAbs(_, b) => fv(*b),
        STerm::TyApp(f, _) => fv(*f),
        STerm::If(c, t1, t2) => fv(*c).union(fv(*t1)).union(fv(*t2)),
        STerm::BinOp(_, a, b) => fv(*a).union(fv(*b)),
        STerm::Let(x, e1, e2) => fv(*e1).union(fv(*e2).remove(x)),
        _ => Set::empty(),
    }
}

fn free_vars(t: &Term) -> (r: Vec<String>)
    ensures
        name_set(r@) == fv(t@),
{
    let mut acc: Vec<String> = Vec::new();
    proof {
        lemma_name_set_empty(acc@);
    }
    collect_fv(t, &mut acc);
    assert(name_set(acc@) =~= fv(t@));
    acc
}

fn collect_bound(x: &String, body: &Term, acc: &mut Vec<String>)
    ensures
        name_set(final(acc)@) == name_set(old(acc)@).union(fv(body@).remove(x@)),
    decreases body, 2nat,
{
    let mut inner: Vec<String> = Vec::new();
    proof {
        lemma_name_set_empty(inner@);
    }
    collect_fv(body, &mut inner);
    assert(name_set(inner@) =~= fv(body@));
    let inner2 = remove_name(&inner, x);
    extend_names(acc, &inner2);
}

fn collect_fv(t: &Term, acc: &mut Vec<String>)
    ensures
        name_set(final(acc)@) == name_set(old(acc)@).union(fv(t@)),
    decreases t, 1nat,
{
    match t {
        Term::Var(x) => {
            insert_name(acc, x);
        },
        Term::Abs(x, _, body) => {
            collect_bound(x, body, acc);
        },
        Term::App(f, a) => {
            collect_fv(f, acc);
            collect_fv(a, acc);
        },
        Term::TyAbs(_, body) => {
            collect_fv(body, acc);
        },
        Term::TyApp(f, _) => {
            collect_fv(f, acc);
        },
        Term::If(c, t1, t2) => {
            collect_fv(c, acc);
            collect_fv(t1, acc);
            collect_fv(t2, acc);
        },
        Term::BinOp(_, a, b) => {
            collect_fv(a, acc);
            collect_fv(b, acc);
        },
        Term::Let(x, e1, e2) => {
            collect_fv(e1, acc);
            collect_bound(x, e2, acc);
        },
        Term::IntLit(_) | Term::BoolLit(_) => {},
    }
    assert(name_set(acc@) =~= name_set(old(acc)@).union(fv(t@)));
}

// ===== substitution =====

/// Capture-avoiding substitution `[s/x] t` of a term for a term variable.
pub open spec fn spec_subst(t: STerm, x: Seq<char>, s: STerm) -> STerm
    decreases term_size(t), 1nat,
{
    match t {
        STerm::Var(y) => if y == x {
            s
        } else {
            t
        },
        STerm::App(f, a) => STerm::App(Box::new(spec_subst(*f, x, s)), Box::new(spec_subst(*a, x, s))),
        STerm::If(c, t1, t2) => STerm::If(
            Box::new(spec_subst(*c, x, s)),
            Box::new(spec_subst(*t1, x, s)),
            Box::new(spec_subst(*t2, x, s)),
        ),
        STerm::BinOp(op, a, b) => STerm::BinOp(
            op,
            Box::new(spec_subst(*a, x, s)),
            Box::new(spec_subst(*b, x, s)),
        ),
        STerm::Abs(y, ty, body) => {
            let (y2, b2) = subst_under(y, *body, x, s);
            STerm::Abs(y2, ty, Box::new(b2))
        },
        STerm::TyAbs(y, body) => STerm::TyAbs(y, Box::new(spec_subst(*body, x, s))),
        STerm::TyApp(f, ty) => STerm::TyApp(Box::new(spec_subst(*f, x, s)), ty),
        STerm::Let(y, e1, e2) => {
            let (y2, e22) = subst_under(y, *e2, x, s);
            STerm::Let(y2, Box::new(spec_subst(*e1, x, s)), Box::new(e22))
        },
        _ => t,
    }
}

/// Substitution into the scope of a binder `y`: nothing when `y` is `x`;
/// otherwise, if `y` is free in `s`, `y` is first renamed to the fresh name
/// avoiding the free variables of `s`, of the body and `x`.
pub open spec fn subst_under(y: Seq<char>, body: STerm, x: Seq<char>, s: STerm) -> (
    Seq<char>,
    STerm,
)
    decreases term_size(body), 2nat,
{
    if y == x {
        (y, body)
    } else if fv(s).contains(y) {
        let z = fresh_name_spec(y, fv(s).union(fv(body)).insert(x));
        let renamed = spec_subst(body, y, STerm::Var(z));
        if term_size(renamed) <= term_size(body) {
            (z, spec_subst(renamed, x, s))
        } else {
            (y, body)
        }
    } else {
        (y, spec_subst(body, x, s))
    }
}

/// Substituting a variable keeps the size of a term.
pub proof fn lemma_subst_var_size(t: STerm, x: Seq<char>, z: Seq<char>)
    ensures
        term_size(spec_subst(t, x, STerm::Var(z))) == term_size(t),
    decreases term_size(t), 1nat,
{
    match t {
        STerm::App(f, a) => {
            lemma_subst_var_size(*f, x, z);
            lemma_subst_var_size(*a, x, z);
        },
        STerm::If(c, t1, t2) => {
            lemma_subst_var_size(*c, x, z);
            lemma_subst_var_size(*t1, x, z);
            lemma_subst_var_size(*t2, x, z);
        },
        STerm::BinOp(_, a, b) => {
            lemma_subst_var_size(*a, x, z);
            lemma_subst_var_size(*b, x, z);
        },
        STerm::Abs(y, _, b) => {
            lemma_under_var_size(y, *b, x, z);
        },
        STerm::TyAbs(_, b) => {
            lemma_subst_var_size(*b, x, z);
        },
        STerm::TyApp(f, _) => {
            lemma_subst_var_size(*f, x, z);
        },
        STerm::Let(y, e1, e2) => {
            lemma_subst_var_size(*e1, x, z);
            lemma_under_var_size(y, *e2, x, z);
        },
        _ => {},
    }
}

pub proof fn lemma_under_var_size(y: Seq<char>, body: STerm, x: Seq<char>, z: Seq<char>)
    ensures
        term_size(subst_under(y, body, x, STerm::Var(z)).1) == term_size(body),
    decreases term_size(body), 2nat,
{
    let s = STerm::Var(z);
    if y == x {
    } else if fv(s).contains(y) {
        let w = fresh_name_spec(y, fv(s).union(fv(body)).insert(x));
        lemma_subst_var_size(body, y, w);
        let renamed = spec_subst(body, y, STerm::Var(w));
        lemma_subst_var_size(renamed, x, z);
    } else {
        lemma_subst_var_size(body, x, z);
    }
}

pub proof fn lemma_fv_finite(t: STerm)
    ensures
        fv(t).finite(),
    decreases t,
{
    match t {
        STerm::Abs(_, _, b) | STerm::TyAbs(_, b) | STerm::TyApp(b, _) => lemma_fv_finite(*b),
        STerm::App(a, b) | STerm::BinOp(_, a, b) | STerm::Let(_, a, b) => {
            lemma_fv_finite(*a);
            lemma_fv_finite(*b);
        },
        STerm::If(c, a, b) => {
            lemma_fv_finite(*c);
            lemma_fv_finite(*a);
            lemma_fv_finite(*b);
        },
        _ => {},
    }
}

/// The free variables after substituting `s` for `x`: those of `t` without
/// `x`, plus those of `s` where `x` was free.
pub open spec fn subst_fv(vs: Set<Seq<char>>, x: Seq<char>, s: STerm) -> Set<Seq<char>> {
    if vs.contains(x) {
        vs.remove(x).union(fv(s))
    } else {
        vs
    }
}

/// Capture-avoiding substitution: the free variables of `[s/x] t` are those
/// of `t` without `x`, plus those of `s` where `x` was free; no binder of
/// `t` captures a variable of `s`.
pub proof fn lemma_fv_subst(t: STerm, x: Seq<char>, s: STerm)
    ensures
        fv(spec_subst(t, x, s)) == subst_fv(fv(t), x, s),
    decreases term_size(t), 1nat,
{
    match t {
        STerm::Var(y) => {
            if y == x {
                assert(fv(t).remove(x) =~= Set::<Seq<char>>::empty());
                assert(fv(t).remove(x).union(fv(s)) =~= fv(s));
            }
        },
        STerm::App(a, b) | STerm::BinOp(_, a, b) => {
            lemma_fv_subst(*a, x, s);
            lemma_fv_subst(*b, x, s);
            assert(fv(spec_subst(t, x, s)) =~= subst_fv(fv(t), x, s));
        },
        STerm::If(c, a, b) => {
            lemma_fv_subst(*c, x, s);
            lemma_fv_subst(*a, x, s);
            lemma_fv_subst(*b, x, s);
            assert(fv(spec_subst(t, x, s)) =~= subst_fv(fv(t), x, s));
        },
        STerm::TyAbs(_, b) | STerm::TyApp(b, _) => {
            lemma_fv_subst(*b, x, s);
            assert(fv(spec_subst(t, x, s)) =~= subst_fv(fv(t), x, s));
        },
        STerm::Abs(y, _, b) => {
            lemma_fv_under(y, *b, x, s);
            assert(fv(spec_subst(t, x, s)) =~= subst_fv(fv(t), x, s));
        },
        STerm::Let(y, a, b) => {
            lemma_fv_subst(*a, x, s);
            lemma_fv_under(y, *b, x, s);
            assert(fv(spec_subst(t, x, s)) =~= subst_fv(fv(t), x, s));
        },
        _ => {},
    }
}

proof fn lemma_fv_under(y: Seq<char>, body: STerm, x: Seq<char>, s: STerm)
    ensures
        fv(subst_under(y, body, x, s).1).remove(subst_under(y, body, x, s).0) == subst_fv(
            fv(body).remove(y),
            x,
            s,
        ),
    decreases term_size(body), 2nat,
{
    if y == x {
        assert(!fv(body).remove(y).contains(x));
    } else if fv(s).contains(y) {
        let avoid = fv(s).union(fv(body)).insert(x);
        lemma_fv_finite(s);
        lemma_fv_finite(body);
        let z = fresh_name_spec(y, avoid);
        lemma_fresh_name_fresh(y, avoid);
        lemma_subst_var_size(body, y, z);
        let renamed = spec_subst(body, y, STerm::Var(z));
        lemma_fv_subst(body, y, STerm::Var(z));
        lemma_fv_subst(renamed, x, s);
        assert(fv(renamed).contains(x) == fv(body).contains(x));
        assert(fv(subst_under(y, body, x, s).1).remove(subst_under(y, body, x, s).0) =~= subst_fv(
            fv(body).remove(y),
            x,
            s,
        ));
    } else {
        lemma_fv_subst(body, x, s);
        assert(fv(subst_under(y, body, x, s).1).remove(subst_under(y, body, x, s).0) =~= subst_fv(
            fv(body).remove(y),
            x,
            s,
        ));
    }
}

/// Capture-avoiding substitution: replaces the free occurrences of the
/// term variable `x` in `t` by `s`.
pub fn subst(t: Term, x: &str, s: &Term) -> (r: Term)
    ensures
        r@ == spec_subst(t@, x@, s@),
{
    let xs = String::from_str(x);
    subst_name(t, &xs, s)
}

fn subst_name(t: Term, x: &String, s: &Term) -> (r: Term)
    ensures
        r@ == spec_subst(t@, x@, s@),
    decreases term_size(t@), 1nat,
{
    match t {
        Term::Var(y) => {
            if y == *x {
                s.duplicate()
            } else {
                Term::Var(y)
            }
        },
        Term::App(f, a) => Term::App(Box::new(subst_name(*f, x, s)), Box::new(subst_name(*a, x, s))),
        Term::If(c, t1, t2) => Term::If(
            Box::new(subst_name(*c, x, s)),
            Box::new(subst_name(*t1, x, s)),
            Box::new(subst_name(*t2, x, s)),
        ),
        Term::BinOp(op, a, b) => Term::BinOp(
            op,
            Box::new(subst_name(*a, x, s)),
            Box::new(subst_name(*b, x, s)),
        ),
        Term::Abs(y, ty, body) => {
            let (y2, b2) = subst_under_exec(y, *body, x, s);
            Term::Abs(y2, ty, Box::new(b2))
        },
        Term::TyAbs(y, body) => Term::TyAbs(y, Box::new(subst_name(*body, x, s))),
        Term::TyApp(f, ty) => Term::TyApp(Box::new(subst_name(*f, x, s)), ty),
        Term::Let(y, e1, e2) => {
            let e1_new = subst_name(*e1, x, s);
            let (y2, e2_new) = subst_under_exec(y, *e2, x, s);
            Term::Let(y2, Box::new(e1_new), Box::new(e2_new))
        },
        Term::BoolLit(b) => Term::BoolLit(b),
        Term::IntLit(n) => Term::IntLit(n),
    }
}

fn subst_under_exec(y: String, body: Term, x: &String, s: &Term) -> (r: (String, Term))
    ensures
        (r.0@, r.1@) == subst_under(y@, body@, x@, s@),
    decreases term_size(body@), 2nat,
{
    if y == *x {
        (y, body)
    } else {
        let fv_s = free_vars(s);
        if contains_name(&fv_s, &y) {
            let mut avoid = fv_s;
            extend_names(&mut avoid, &free_vars(&body));
            insert_name(&mut avoid, x);
            assert(name_set(avoid@) =~= fv(s@).union(fv(body@)).insert(x@));
            let new_y = fresh_name(&y, &avoid);
            let var = Term::Var(new_y.clone());
            proof {
                lemma_subst_var_size(body@, y@, new_y@);
            }
            let renamed = subst_name(body, &y, &var);
            let b = subst_name(renamed, x, s);
            (new_y, b)
        } else {
            (y, subst_name(body, x, s))
        }
    }
}

// ===== stepping =====

/// The value of an arithmetic or comparison operator on two integers;
/// arithmetic wraps around on overflow.
pub open spec fn apply_op(op: BinOp, x: i64, y: i64) -> STerm {
    match op {
        BinOp::Add => STerm::IntLit(x.wrapping_add(y)),
        BinOp::Sub => STerm::IntLit(x.wrapping_sub(y)),
        BinOp::Mul => STerm::IntLit(x.wrapping_mul(y)),
        BinOp::Eq => STerm::BoolLit(x == y),
        BinOp::Lt => STerm::BoolLit(x < y),
    }
}

/// One call-by-value step, or `None` when `t` is a value or stuck.
pub open spec fn spec_step(t: STerm) -> Option<STerm>
    decreases t,
{
    match t {
        STerm::App(f, a) => if !is_value(*f) {
            match spec_step(*f) {
                Some(f2) => Some(STerm::App(Box::new(f2), a)),
                None => None,
            }
        } else if !is_value(*a) {
            match spec_step(*a) {
                Some(a2) => Some(STerm::App(f, Box::new(a2))),
                None => None,
            }
        } else {
            match *f {
                STerm::Abs(x, _, body) => Some(spec_subst(*body, x, *a)),
                _ => None,
            }
        },
        STerm::TyApp(f, ty) => if !is_value(*f) {
            match spec_step(*f) {
                Some(f2) => Some(STerm::TyApp(Box::new(f2), ty)),
                None => None,
            }
        } else {
            match *f {
                STerm::TyAbs(x, body) => Some(spec_ty_subst_in_term(*body, x, ty)),
                _ => None,
            }
        },
        STerm::If(c, t1, t2) => if !is_value(*c) {
            match spec_step(*c) {
                Some(c2) => Some(STerm::If(Box::new(c2), t1, t2)),
                None => None,
            }
        } else {
            match *c {
                STerm::BoolLit(true) => Some(*t1),
                STerm::BoolLit(false) => Some(*t2),
                _ => None,
            }
        },
        STerm::BinOp(op, a, b) => if !is_value(*a) {
            match spec_step(*a) {
                Some(a2) => Some(STerm::BinOp(op, Box::new(a2), b)),
                None => None,
            }
        } else if !is_value(*b) {
            match spec_step(*b) {
                Some(b2) => Some(STerm::BinOp(op, a, Box::new(b2))),
                None => None,
            }
        } else {
            match (*a, *b) {
                (STerm::IntLit(x), STerm::IntLit(y)) => Some(apply_op(op, x, y)),
                _ => None,
            }
        },
        STerm::Let(x, e1, e2) => if !is_value(*e1) {
            match spec_step(*e1) {
                Some(e12) => Some(STerm::Let(x, Box::new(e12), e2)),
                None => None,
            }
        } else {
            Some(spec_subst(*e2, x, *e1))
        },
        _ => None,
    }
}

/// One call-by-value step; `None` when `t` is a value or stuck.
pub fn step(t: &Term) -> (r: Option<Term>)
    ensures
        match r {
            Some(u) => spec_step(t@) == Some(u@),
            None => spec_step(t@) is None,
        },
    decreases t,
{
    match t {
        Term::App(f, a) => {
            if !is_value_exec(f) {
                return match step(f) {
                    Some(f_new) => Some(Term::App(Box::new(f_new), Box::new(a.duplicate()))),
                    None => None,
                };
            }
            if !is_value_exec(a) {
                return match step(a) {
                    Some(a_new) => Some(Term::App(Box::new(f.duplicate()), Box::new(a_new))),
                    None => None,
                };
            }
            if let Term::Abs(x, _, body) = &**f {
                Some(subst(body.duplicate(), x.as_str(), a))
            } else {
                None
            }
        },
        Term::TyApp(f, ty) => {
            if !is_value_exec(f) {
                return match step(f) {
                    Some(f_new) => Some(Term::TyApp(Box::new(f_new), ty.duplicate())),
                    None => None,
                };
            }
            if let Term::TyAbs(x, body) = &**f {
                Some(ty_subst_in_term(body, x.as_str(), ty))
            } else {
                None
            }
        },
        Term::If(c, t1, t2) => {
            if !is_value_exec(c) {
                return match step(c) {
                    Some(c_new) => Some(
                        Term::If(Box::new(c_new), Box::new(t1.duplicate()), Box::new(t2.duplicate())),
                    ),
                    None => None,
                };
            }
            match &**c {
                Term::BoolLit(true) => Some(t1.duplicate()),
                Term::BoolLit(false) => Some(t2.duplicate()),
                _ => None,
            }
        },
        Term::BinOp(op, a, b) => {
            if !is_value_exec(a) {
                return match step(a) {
                    Some(a_new) => Some(Term::BinOp(*op, Box::new(a_new), Box::new(b.duplicate()))),
                    None => None,
                };
            }
            if !is_value_exec(b) {
                return match step(b) {
                    Some(b_new) => Some(Term::BinOp(*op, Box::new(a.duplicate()), Box::new(b_new))),
                    None => None,
                };
            }
            match (&**a, &**b) {
                (Term::IntLit(x), Term::IntLit(y)) => Some(
                    match op {
                        BinOp::Add => Term::IntLit(x.wrapping_add(*y)),
                        BinOp::Sub => Term::IntLit(x.wrapping_sub(*y)),
                        BinOp::Mul => Term::IntLit(x.wrapping_mul(*y)),
                        BinOp::Eq => Term::BoolLit(*x == *y),
                        BinOp::Lt => Term::BoolLit(*x < *y),
                    },
                ),
                _ => None,
            }
        },
        Term::Let(x, e1, e2) => {
            if !is_value_exec(e1) {
                return match step(e1) {
                    Some(e1_new) => Some(
                        Term::Let(x.clone(), Box::new(e1_new), Box::new(e2.duplicate())),
                    ),
                    None => None,
                };
            }
            Some(subst(e2.duplicate(), x.as_str(), e1))
        },
        _ => None,
    }
}

/// The term reached after `k` steps, if each of them is possible.
pub open spec fn steps_from(t: STerm, k: nat) -> Option<STerm>
    decreases k,
{
    if k == 0 {
        Some(t)
    } else {
        match steps_from(t, (k - 1) as nat) {
            Some(u) => spec_step(u),
            None => None,
        }
    }
}

// ===== progress =====

proof fn lemma_check_ok(t: STerm, ty: SType, vals: Map<Seq<char>, SType>, tys: Set<Seq<char>>)
    ensures
        spec_check(t, ty, vals, tys) is Ok ==> spec_infer(t, vals, tys) is Ok,
{
}

/// Progress: a closed term that type-checks (with any type variables in
/// scope) is a value or takes a step; a well-typed program never gets stuck.
pub proof fn lemma_progress(t: STerm, tys: Set<Seq<char>>)
    requires
        spec_infer(t, Map::empty(), tys) is Ok,
    ensures
        is_value(t) || spec_step(t) is Some,
    decreases t,
{
    let vals = Map::<Seq<char>, SType>::empty();
    match t {
        STerm::App(f, a) => {
            lemma_progress(*f, tys);
            if let Ok(SType::Arrow(param, _)) = spec_infer(*f, vals, tys) {
                lemma_check_ok(*a, *param, vals, tys);
                lemma_progress(*a, tys);
            }
        },
        STerm::TyApp(f, _) => {
            lemma_progress(*f, tys);
        },
        STerm::If(c, _, _) => {
            lemma_check_ok(*c, SType::Bool, vals, tys);
            lemma_progress(*c, tys);
        },
        STerm::BinOp(_, a, b) => {
            lemma_check_ok(*a, SType::Int, vals, tys);
            lemma_progress(*a, tys);
            if spec_check(*a, SType::Int, vals, tys) is Ok {
                lemma_check_ok(*b, SType::Int, vals, tys);
                lemma_progress(*b, tys);
            }
        },
        STerm::Let(_, e1, _) => {
            lemma_progress(*e1, tys);
        },
        _ => {},
    }
}

// ===== the rules of evaluation =====

/// Arithmetic on two integer literals steps to the arithmetic result,
/// wrapping around on overflow: the sum, the difference of the left minus
/// the right, and the product; `==` and `<` step to the comparison of the
/// left operand with the right.
pub proof fn lemma_step_operators(x: i64, y: i64)
    ensures
        spec_step(STerm::BinOp(BinOp::Add, Box::new(STerm::IntLit(x)), Box::new(STerm::IntLit(y))))
            matches Some(STerm::IntLit(r)) && wraps_to(r, x + y),
        spec_step(STerm::BinOp(BinOp::Sub, Box::new(STerm::IntLit(x)), Box::new(STerm::IntLit(y))))
            matches Some(STerm::IntLit(r)) && wraps_to(r, x - y),
        spec_step(STerm::BinOp(BinOp::Mul, Box::new(STerm::IntLit(x)), Box::new(STerm::IntLit(y))))
            matches Some(STerm::IntLit(r)) && wraps_to(r, x * y),
        spec_step(STerm::BinOp(BinOp::Eq, Box::new(STerm::IntLit(x)), Box::new(STerm::IntLit(y))))
            == Some(STerm::BoolLit(x == y)),
        spec_step(STerm::BinOp(BinOp::Lt, Box::new(STerm::IntLit(x)), Box::new(STerm::IntLit(y))))
            == Some(STerm::BoolLit(x < y)),
{
    let p = x * y;
    assert(wraps_to(x.wrapping_mul(y), p)) by (nonlinear_arith)
        requires
            p == x * y,
    {
    }
}

/// A conditional on `true` steps to its first branch, on `false` to its
/// second.
pub proof fn lemma_step_if(t1: STerm, t2: STerm)
    ensures
        spec_step(STerm::If(Box::new(STerm::BoolLit(true)), Box::new(t1), Box::new(t2))) == Some(t1),
        spec_step(STerm::If(Box::new(STerm::BoolLit(false)), Box::new(t1), Box::new(t2))) == Some(t2),
{
}

/// Call by value, left to right: the function is evaluated first, then the
/// argument.
pub proof fn lemma_step_application(f: STerm, a: STerm)
    ensures
        !is_value(f) && spec_step(f) is Some ==> spec_step(STerm::App(Box::new(f), Box::new(a))) == Some(
            STerm::App(Box::new(spec_step(f)->Some_0), Box::new(a)),
        ),
        is_value(f) && !is_value(a) && spec_step(a) is Some ==> spec_step(
            STerm::App(Box::new(f), Box::new(a)),
        ) == Some(STerm::App(Box::new(f), Box::new(spec_step(a)->Some_0))),
{
}

/// An abstraction applied to a value steps to its body with the value
/// substituted for the parameter.
pub proof fn lemma_step_beta(x: Seq<char>, ty: SType, body: STerm, a: STerm)
    ensures
        is_value(a) ==> spec_step(STerm::App(Box::new(STerm::Abs(x, ty, Box::new(body))), Box::new(a))) == Some(
            spec_subst(body, x, a),
        ),
{
}

/// A `let` evaluates its definition first and then steps to its body with
/// the value substituted for the bound variable.
pub proof fn lemma_step_let(x: Seq<char>, e1: STerm, e2: STerm)
    ensures
        !is_value(e1) && spec_step(e1) is Some ==> spec_step(STerm::Let(x, Box::new(e1), Box::new(e2)))
            == Some(STerm::Let(x, Box::new(spec_step(e1)->Some_0), Box::new(e2))),
        is_value(e1) ==> spec_step(STerm::Let(x, Box::new(e1), Box::new(e2))) == Some(
            spec_subst(e2, x, e1),
        ),
{
}

/// A type abstraction applied to a type steps to its body with the type
/// substituted for the type variable.
pub proof fn lemma_step_type_application(x: Seq<char>, body: STerm, ty: SType)
    ensures
        spec_step(STerm::TyApp(Box::new(STerm::TyAbs(x, Box::new(body))), ty)) == Some(
            spec_ty_subst_in_term(body, x, ty),
        ),
{
}

pub struct EvalResult {
    pub term: Term,
    pub steps: usize,
}

/// Steps `t` until no step applies or `max_steps` steps were taken.
pub fn eval(t: Term, max_steps: usize) -> (r: EvalResult)
    ensures
        steps_from(t@, r.steps as nat) == Some(r.term@),
        r.steps <= max_steps,
        r.steps < max_steps ==> spec_step(r.term@) is None,
{
    let ghost t0 = t@;
    let mut cur = t;
    let mut i: usize = 0;
    while i < max_steps
        invariant
            i <= max_steps,
            t0 == t@,
            steps_from(t0, i as nat) == Some(cur@),
        decreases max_steps - i,
    {
        match step(&cur) {
            Some(next) => {
                cur = next;
            },
            None => {
                return EvalResult { term: cur, steps: i };
            },
        }
        i = i + 1;
    }
    EvalResult { term: cur, steps: max_steps }
}

} // verus!
