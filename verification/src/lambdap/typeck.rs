//! Type checking for the λP fragment. Types are terms, so the checker
//! computes a term for the type. Types are compared up to β-normalization
//! (definitional equality), and `if` may have branches of different types:
//! the type is then itself an `if` on the condition.

use vstd::prelude::*;

use crate::lambdap::ast::{appears_free, fv, lemma_fv_finite, show, size, BinOp, STerm, Term};
use crate::names::{
    contains_name, distinct_names, extend_names, fresh_name, fresh_name_spec, insert_name,
    lemma_bindings_live, lemma_fresh_name_fresh, lemma_name_set_empty, name_set, remove_name,
    shadowed, str_eq, Dup, NameMap,
};

verus! {

impl Dup for Term {
    fn dup(&self) -> (r: Term) {
        self.duplicate()
    }
}

/// A typing context: variables bound to (terms denoting) their types.
pub type Ctx = NameMap<Term>;

#[derive(Debug)]
pub enum TypeError {
    UnboundVariable(String),
    NotAType { found: Term },
    NotAFunctionType { found: Term },
    TypeMismatch { expected: Term, found: Term },
}

pub enum SError {
    UnboundVariable(Seq<char>),
    NotAType { found: STerm },
    NotAFunctionType { found: STerm },
    TypeMismatch { expected: STerm, found: STerm },
}

impl View for TypeError {
    type V = SError;

    open spec fn view(&self) -> SError {
        match self {
            TypeError::UnboundVariable(x) => SError::UnboundVariable(x@),
            TypeError::NotAType { found } => SError::NotAType { found: found@ },
            TypeError::NotAFunctionType { found } => SError::NotAFunctionType { found: found@ },
            TypeError::TypeMismatch { expected, found } => SError::TypeMismatch {
                expected: expected@,
                found: found@,
            },
        }
    }
}

/// The message of a type error.
pub open spec fn error_text(e: SError) -> Seq<char> {
    match e {
        SError::UnboundVariable(x) => "unbound variable: "@ + x,
        SError::NotAType { found } => "expected a Type, found term of type "@ + show(found, 0),
        SError::NotAFunctionType { found } => "expected a function (Π-type), found "@ + show(
            found,
            0,
        ),
        SError::TypeMismatch { expected, found } => "type mismatch: expected "@ + show(expected, 0)
            + ", found "@ + show(found, 0),
    }
}

impl TypeError {
    /// The message, e.g. `unbound variable: x`.
    pub fn to_string(&self) -> (s: String)
        ensures
            s@ == error_text(self@),
    {
        match self {
            TypeError::UnboundVariable(x) => {
                let mut s = String::from_str("unbound variable: ");
                s.append(x.as_str());
                s
            },
            TypeError::NotAType { found } => {
                let mut s = String::from_str("expected a Type, found term of type ");
                found.write_prec(&mut s, 0);
                s
            },
            TypeError::NotAFunctionType { found } => {
                let mut s = String::from_str("expected a function (Π-type), found ");
                found.write_prec(&mut s, 0);
                s
            },
            TypeError::TypeMismatch { expected, found } => {
                let mut s = String::from_str("type mismatch: expected ");
                expected.write_prec(&mut s, 0);
                s.append(", found ");
                found.write_prec(&mut s, 0);
                s
            },
        }
    }
}

// ===== free variables =====

/// The free variables of `t`, each once.
pub fn free_vars(t: &Term) -> (r: Vec<String>)
    ensures
        name_set(r@) == fv(t@),
        distinct_names(r@),
{
    let mut acc: Vec<String> = Vec::new();
    assert(name_set(acc@) =~= Set::<Seq<char>>::empty());
    collect_free(t, &mut acc);
    assert(name_set(acc@) =~= fv(t@));
    acc
}

fn collect_bound(x: &String, body: &Term, acc: &mut Vec<String>)
    ensures
        name_set(final(acc)@) == name_set(old(acc)@).union(fv(body@).remove(x@)),
        distinct_names(old(acc)@) ==> distinct_names(final(acc)@),
    decreases body, 2nat,
{
    let mut inner: Vec<String> = Vec::new();
    assert(name_set(inner@) =~= Set::<Seq<char>>::empty());
    collect_free(body, &mut inner);
    assert(name_set(inner@) =~= fv(body@));
    let inner2 = remove_name(&inner, x);
    extend_names(acc, &inner2);
}

fn collect_free(t: &Term, acc: &mut Vec<String>)
    ensures
        name_set(final(acc)@) == name_set(old(acc)@).union(fv(t@)),
        distinct_names(old(acc)@) ==> distinct_names(final(acc)@),
    decreases t, 1nat,
{
    match t {
        Term::Var(x) => {
            insert_name(acc, x);
        },
        Term::Universe | Term::Bool | Term::Int | Term::BoolLit(_) | Term::IntLit(_) => {},
        Term::Pi(x, a, b) | Term::Lambda(x, a, b) => {
            collect_free(a, acc);
            collect_bound(x, b, acc);
        },
        Term::App(f, a) => {
            collect_free(f, acc);
            collect_free(a, acc);
        },
        Term::If(c, t1, t2) => {
            collect_free(c, acc);
            collect_free(t1, acc);
            collect_free(t2, acc);
        },
        Term::BinOp(_, a, b) => {
            collect_free(a, acc);
            collect_free(b, acc);
        },
        Term::Let(x, e1, e2) => {
            collect_free(e1, acc);
            collect_bound(x, e2, acc);
        },
    }
    assert(name_set(acc@) =~= name_set(old(acc)@).union(fv(t@)));
}

// ===== substitution =====

/// Capture-avoiding substitution `[s/x] t`.
pub open spec fn spec_subst(t: STerm, x: Seq<char>, s: STerm) -> STerm
    decreases size(t), 1nat,
{
    match t {
        STerm::Var(y) => if y == x {
            s
        } else {
            t
        },
        STerm::App(f, a) => STerm::App(Box::new(spec_subst(*f, x, s)), Box::new(spec_subst(*a, x, s))),
        STerm::If(c, t1, t2) => STerm::If(
            Box::new(spec_subst(*c, x, s)),
            Box::new(spec_subst(*t1, x, s)),
            Box::new(spec_subst(*t2, x, s)),
        ),
        STerm::BinOp(op, a, b) => STerm::BinOp(
            op,
            Box::new(spec_subst(*a, x, s)),
            Box::new(spec_subst(*b, x, s)),
        ),
        STerm::Pi(y, a, b) => {
            let (y2, b2) = subst_under(y, *b, x, s);
            STerm::Pi(y2, Box::new(spec_subst(*a, x, s)), Box::new(b2))
        },
        STerm::Lambda(y, a, b) => {
            let (y2, b2) = subst_under(y, *b, x, s);
            STerm::Lambda(y2, Box::new(spec_subst(*a, x, s)), Box::new(b2))
        },
        STerm::Let(y, e1, e2) => {
            let (y2, e22) = subst_under(y, *e2, x, s);
            STerm::Let(y2, Box::new(spec_subst(*e1, x, s)), Box::new(e22))
        },
        _ => t,
    }
}

/// Substitution into the scope of a binder `y`: nothing when `y` is `x`;
/// otherwise, if `y` is free in `s`, `y` is first renamed to the fresh name
/// avoiding the free variables of `s`, of the body and `x`.
pub open spec fn subst_under(y: Seq<char>, body: STerm, x: Seq<char>, s: STerm) -> (
    Seq<char>,
    STerm,
)
    decreases size(body), 2nat,
{
    if y == x {
        (y, body)
    } else if fv(s).contains(y) {
        let z = fresh_name_spec(y, fv(s).union(fv(body)).insert(x));
        let renamed = spec_subst(body, y, STerm::Var(z));
        if size(renamed) <= size(body) {
            (z, spec_subst(renamed, x, s))
        } else {
            (y, body)
        }
    } else {
        (y, spec_subst(body, x, s))
    }
}

/// Substituting a variable keeps the size of a term.
pub proof fn lemma_subst_var_size(t: STerm, x: Seq<char>, z: Seq<char>)
    ensures
        size(spec_subst(t, x, STerm::Var(z))) == size(t),
    decreases size(t), 1nat,
{
    match t {
        STerm::App(f, a) => {
            lemma_subst_var_size(*f, x, z);
            lemma_subst_var_size(*a, x, z);
        },
        STerm::If(c, t1, t2) => {
            lemma_subst_var_size(*c, x, z);
            lemma_subst_var_size(*t1, x, z);
            lemma_subst_var_size(*t2, x, z);
        },
        STerm::BinOp(_, a, b) => {
            lemma_subst_var_size(*a, x, z);
            lemma_subst_var_size(*b, x, z);
        },
        STerm::Pi(y, a, b) => {
            lemma_subst_var_size(*a, x, z);
            lemma_under_var_size(y, *b, x, z);
        },
        STerm::Lambda(y, a, b) => {
            lemma_subst_var_size(*a, x, z);
            lemma_under_var_size(y, *b, x, z);
        },
        STerm::Let(y, e1, e2) => {
            lemma_subst_var_size(*e1, x, z);
            lemma_under_var_size(y, *e2, x, z);
        },
        _ => {},
    }
}

pub proof fn lemma_under_var_size(y: Seq<char>, body: STerm, x: Seq<char>, z: Seq<char>)
    ensures
        size(subst_under(y, body, x, STerm::Var(z)).1) == size(body),
    decreases size(body), 2nat,
{
    let s = STerm::Var(z);
    if y == x {
    } else if fv(s).contains(y) {
        let w = fresh_name_spec(y, fv(s).union(fv(body)).insert(x));
        lemma_subst_var_size(body, y, w);
        let renamed = spec_subst(body, y, STerm::Var(w));
        lemma_subst_var_size(renamed, x, z);
    } else {
        lemma_subst_var_size(body, x, z);
    }
}

/// The free variables after substituting `s` for `x`: those of `t` without
/// `x`, plus those of `s` where `x` was free.
pub open spec fn subst_fv(vs: Set<Seq<char>>, x: Seq<char>, s: STerm) -> Set<Seq<char>> {
    if vs.contains(x) {
        vs.remove(x).union(fv(s))
    } else {
        vs
    }
}

/// Capture-avoiding substitution: the free variables of `[s/x] t` are those
/// of `t` without `x`, plus those of `s` where `x` was free; no binder of
/// `t` captures a variable of `s`.
pub proof fn lemma_fv_subst(t: STerm, x: Seq<char>, s: STerm)
    ensures
        fv(spec_subst(t, x, s)) == subst_fv(fv(t), x, s),
    decreases size(t), 1nat,
{
    match t {
        STerm::Var(y) => {
            if y == x {
                assert(fv(t).remove(x) =~= Set::<Seq<char>>::empty());
                assert(fv(t).remove(x).union(fv(s)) =~= fv(s));
            }
        },
        STerm::App(a, b) | STerm::BinOp(_, a, b) => {
            lemma_fv_subst(*a, x, s);
            lemma_fv_subst(*b, x, s);
            assert(fv(spec_subst(t, x, s)) =~= subst_fv(fv(t), x, s));
        },
        STerm::If(c, a, b) => {
            lemma_fv_subst(*c, x, s);
            lemma_fv_subst(*a, x, s);
            lemma_fv_subst(*b, x, s);
            assert(fv(spec_subst(t, x, s)) =~= subst_fv(fv(t), x, s));
        },
        STerm::Pi(y, a, b) | STerm::Lambda(y, a, b) | STerm::Let(y, a, b) => {
            lemma_fv_subst(*a, x, s);
            lemma_fv_under(y, *b, x, s);
            assert(fv(spec_subst(t, x, s)) =~= subst_fv(fv(t), x, s));
        },
        _ => {},
    }
}

proof fn lemma_fv_under(y: Seq<char>, body: STerm, x: Seq<char>, s: STerm)
    ensures
        fv(subst_under(y, body, x, s).1).remove(subst_under(y, body, x, s).0) == subst_fv(
            fv(body).remove(y),
            x,
            s,
        ),
    decreases size(body), 2nat,
{
    if y == x {
        assert(!fv(body).remove(y).contains(x));
    } else if fv(s).contains(y) {
        let avoid = fv(s).union(fv(body)).insert(x);
        lemma_fv_finite(s);
        lemma_fv_finite(body);
        let z = fresh_name_spec(y, avoid);
        lemma_fresh_name_fresh(y, avoid);
        lemma_subst_var_size(body, y, z);
        let renamed = spec_subst(body, y, STerm::Var(z));
        lemma_fv_subst(body, y, STerm::Var(z));
        lemma_fv_subst(renamed, x, s);
        assert(fv(renamed).contains(x) == fv(body).contains(x));
        assert(fv(subst_under(y, body, x, s).1).remove(subst_under(y, body, x, s).0) =~= subst_fv(
            fv(body).remove(y),
            x,
            s,
        ));
    } else {
        lemma_fv_subst(body, x, s);
        assert(fv(subst_under(y, body, x, s).1).remove(subst_under(y, body, x, s).0) =~= subst_fv(
            fv(body).remove(y),
            x,
            s,
        ));
    }
}

/// Capture-avoiding substitution: replaces the free occurrences of `x` in
/// `t` by `s`.
pub fn subst(t: Term, x: &str, s: &Term) -> (r: Term)
    ensures
        r@ == spec_subst(t@, x@, s@),
{
    let xs = String::from_str(x);
    subst_name(t, &xs, s)
}

fn subst_name(t: Term, x: &String, s: &Term) -> (r: Term)
    ensures
        r@ == spec_subst(t@, x@, s@),
    decreases size(t@), 1nat,
{
    match t {
        Term::Var(y) => {
            if y == *x {
                s.duplicate()
            } else {
                Term::Var(y)
            }
        },
        Term::App(f, a) => Term::App(Box::new(subst_name(*f, x, s)), Box::new(subst_name(*a, x, s))),
        Term::If(c, t1, t2) => Term::If(
            Box::new(subst_name(*c, x, s)),
            Box::new(subst_name(*t1, x, s)),
            Box::new(subst_name(*t2, x, s)),
        ),
        Term::BinOp(op, a, b) => Term::BinOp(
            op,
            Box::new(subst_name(*a, x, s)),
            Box::new(subst_name(*b, x, s)),
        ),
        Term::Pi(y, a, b) => {
            let a_new = subst_name(*a, x, s);
            let (y2, b2) = subst_under_exec(y, *b, x, s);
            Term::Pi(y2, Box::new(a_new), Box::new(b2))
        },
        Term::Lambda(y, a, b) => {
            let a_new = subst_name(*a, x, s);
            let (y2, b2) = subst_under_exec(y, *b, x, s);
            Term::Lambda(y2, Box::new(a_new), Box::new(b2))
        },
        Term::Let(y, e1, e2) => {
            let e1_new = subst_name(*e1, x, s);
            let (y2, e2_new) = subst_under_exec(y, *e2, x, s);
            Term::Let(y2, Box::new(e1_new), Box::new(e2_new))
        },
        Term::Universe => Term::Universe,
        Term::Bool => Term::Bool,
        Term::Int => Term::Int,
        Term::BoolLit(b) => Term::BoolLit(b),
        Term::IntLit(n) => Term::IntLit(n),
    }
}

fn subst_under_exec(y: String, body: Term, x: &String, s: &Term) -> (r: (String, Term))
    ensures
        (r.0@, r.1@) == subst_under(y@, body@, x@, s@),
    decreases size(body@), 2nat,
{
    if y == *x {
        (y, body)
    } else {
        let fv_s = free_vars(s);
        if contains_name(&fv_s, &y) {
            let mut avoid = fv_s;
            extend_names(&mut avoid, &free_vars(&body));
            insert_name(&mut avoid, x);
            assert(name_set(avoid@) =~= fv(s@).union(fv(body@)).insert(x@));
            let new_y = fresh_name(&y, &avoid);
            let var = Term::Var(new_y.clone());
            proof {
                lemma_subst_var_size(body@, y@, new_y@);
            }
            let renamed = subst_name(body, &y, &var);
            let b = subst_name(renamed, x, s);
            (new_y, b)
        } else {
            (y, subst_name(body, x, s))
        }
    }
}

// ===== normalization =====

/// The number of steps normalization may take before it gives up and
/// returns the term reached so far.
pub const NORMALIZE_BUDGET: usize = 5000;

/// The result of an arithmetic or comparison operator on two integers.
pub open spec fn apply_op(op: BinOp, x: i64, y: i64) -> STerm {
    match op {
        BinOp::Add => STerm::IntLit(x.wrapping_add(y)),
        BinOp::Sub => STerm::IntLit(x.wrapping_sub(y)),
        BinOp::Mul => STerm::IntLit(x.wrapping_mul(y)),
        BinOp::Eq => STerm::BoolLit(x == y),
        BinOp::Lt => STerm::BoolLit(x < y),
    }
}

/// β-normalization (also under binders) that spends one unit of budget per
/// visited node and stops where the budget runs out; the result and the
/// budget left.
pub open spec fn norm_b(t: STerm, b: nat) -> (STerm, nat)
    decreases b,
{
    if b == 0 {
        (t, 0)
    } else {
        let b1 = (b - 1) as nat;
        match t {
            STerm::Pi(x, a, body) => {
                let (a2, b2) = norm_b(*a, b1);
                if b2 <= b1 {
                    let (body2, b3) = norm_b(*body, b2);
                    (STerm::Pi(x, Box::new(a2), Box::new(body2)), b3)
                } else {
                    (t, 0)
                }
            },
            STerm::Lambda(x, a, body) => {
                let (a2, b2) = norm_b(*a, b1);
                if b2 <= b1 {
                    let (body2, b3) = norm_b(*body, b2);
                    (STerm::Lambda(x, Box::new(a2), Box::new(body2)), b3)
                } else {
                    (t, 0)
                }
            },
            STerm::App(f, a) => {
                let (f2, b2) = norm_b(*f, b1);
                if b2 <= b1 {
                    let (a2, b3) = norm_b(*a, b2);
                    if b3 <= b1 {
                        match f2 {
                            STerm::Lambda(x, _, body) => norm_b(spec_subst(*body, x, a2), b3),
                            _ => (STerm::App(Box::new(f2), Box::new(a2)), b3),
                        }
                    } else {
                        (t, 0)
                    }
                } else {
                    (t, 0)
                }
            },
            STerm::If(c, t1, t2) => {
                let (c2, b2) = norm_b(*c, b1);
                if b2 <= b1 {
                    match c2 {
                        STerm::BoolLit(true) => norm_b(*t1, b2),
                        STerm::BoolLit(false) => norm_b(*t2, b2),
                        _ => {
                            let (t12, b3) = norm_b(*t1, b2);
                            if b3 <= b1 {
                                let (t22, b4) = norm_b(*t2, b3);
                                (STerm::If(Box::new(c2), Box::new(t12), Box::new(t22)), b4)
                            } else {
                                (t, 0)
                            }
                        },
                    }
                } else {
                    (t, 0)
                }
            },
            STerm::BinOp(op, a, bb) => {
                let (a2, b2) = norm_b(*a, b1);
                if b2 <= b1 {
                    let (bb2, b3) = norm_b(*bb, b2);
                    match (a2, bb2) {
                        (STerm::IntLit(x), STerm::IntLit(y)) => (apply_op(op, x, y), b3),
                        _ => (STerm::BinOp(op, Box::new(a2), Box::new(bb2)), b3),
                    }
                } else {
                    (t, 0)
                }
            },
            STerm::Let(x, e1, e2) => {
                let (e12, b2) = norm_b(*e1, b1);
                if b2 <= b1 {
                    norm_b(spec_subst(*e2, x, e12), b2)
                } else {
                    (t, 0)
                }
            },
            _ => (t, b1),
        }
    }
}

/// Normalization never gains budget.
pub proof fn lemma_norm_budget(t: STerm, b: nat)
    ensures
        norm_b(t, b).1 <= b,
        b > 0 ==> norm_b(t, b).1 < b,
    decreases b,
{
    if b > 0 {
        let b1 = (b - 1) as nat;
        match t {
            STerm::Pi(x, a, body) => {
                lemma_norm_budget(*a, b1);
                lemma_norm_budget(*body, norm_b(*a, b1).1);
            },
            STerm::Lambda(x, a, body) => {
                lemma_norm_budget(*a, b1);
                lemma_norm_budget(*body, norm_b(*a, b1).1);
            },
            STerm::App(f, a) => {
                lemma_norm_budget(*f, b1);
                let (f2, b2) = norm_b(*f, b1);
                lemma_norm_budget(*a, b2);
                let (a2, b3) = norm_b(*a, b2);
                if let STerm::Lambda(x, _, body) = f2 {
                    lemma_norm_budget(spec_subst(*body, x, a2), b3);
                }
            },
            STerm::If(c, t1, t2) => {
                lemma_norm_budget(*c, b1);
                let (c2, b2) = norm_b(*c, b1);
                lemma_norm_budget(*t1, b2);
                lemma_norm_budget(*t2, b2);
                lemma_norm_budget(*t2, norm_b(*t1, b2).1);
            },
            STerm::BinOp(op, a, bb) => {
                lemma_norm_budget(*a, b1);
                lemma_norm_budget(*bb, norm_b(*a, b1).1);
            },
            STerm::Let(x, e1, e2) => {
                lemma_norm_budget(*e1, b1);
                let (e12, b2) = norm_b(*e1, b1);
                lemma_norm_budget(spec_subst(*e2, x, e12), b2);
            },
            _ => {},
        }
    }
}

/// The normal form used to decide definitional equality: at most
/// `NORMALIZE_BUDGET` steps of `norm_b`.
pub open spec fn spec_normalize(t: STerm) -> STerm {
    norm_b(t, NORMALIZE_BUDGET as nat).0
}

/// β-normalizes `t`, stopping where the step budget runs out (the system is
/// inconsistent, so some terms have no normal form).
pub fn normalize(t: &Term) -> (r: Term)
    ensures
        r@ == spec_normalize(t@),
{
    let mut budget: usize = NORMALIZE_BUDGET;
    normalize_bounded(t.duplicate(), &mut budget)
}

fn apply_op_exec(op: BinOp, x: i64, y: i64) -> (r: Term)
    ensures
        r@ == apply_op(op, x, y),
{
    match op {
        BinOp::Add => Term::IntLit(x.wrapping_add(y)),
        BinOp::Sub => Term::IntLit(x.wrapping_sub(y)),
        BinOp::Mul => Term::IntLit(x.wrapping_mul(y)),
        BinOp::Eq => Term::BoolLit(x == y),
        BinOp::Lt => Term::BoolLit(x < y),
    }
}

fn normalize_bounded(t: Term, budget: &mut usize) -> (r: Term)
    ensures
        (r@, *final(budget) as nat) == norm_b(t@, *old(budget) as nat),
        *final(budget) <= *old(budget),
    decreases *old(budget),
{
    proof {
        lemma_norm_budget(t@, *budget as nat);
    }
    if *budget == 0 {
        return t;
    }
    *budget = *budget - 1;
    let ghost b1 = *budget as nat;
    match t {
        Term::Pi(x, a, body) => {
            let a2 = normalize_bounded(*a, budget);
            let body2 = normalize_bounded(*body, budget);
            Term::Pi(x, Box::new(a2), Box::new(body2))
        },
        Term::Lambda(x, a, body) => {
            let a2 = normalize_bounded(*a, budget);
            let body2 = normalize_bounded(*body, budget);
            Term::Lambda(x, Box::new(a2), Box::new(body2))
        },
        Term::App(f, a) => {
            let f2 = normalize_bounded(*f, budget);
            let a2 = normalize_bounded(*a, budget);
            match f2 {
                Term::Lambda(x, _, body) => {
                    let substituted = subst_name(*body, &x, &a2);
                    normalize_bounded(substituted, budget)
                },
                other => Term::App(Box::new(other), Box::new(a2)),
            }
        },
        Term::If(c, t1, t2) => {
            let c2 = normalize_bounded(*c, budget);
            match c2 {
                Term::BoolLit(true) => normalize_bounded(*t1, budget),
                Term::BoolLit(false) => normalize_bounded(*t2, budget),
                other => {
                    let t12 = normalize_bounded(*t1, budget);
                    let t22 = normalize_bounded(*t2, budget);
                    Term::If(Box::new(other), Box::new(t12), Box::new(t22))
                },
            }
        },
        Term::BinOp(op, a, b) => {
            let a2 = normalize_bounded(*a, budget);
            let b2 = normalize_bounded(*b, budget);
            match (&a2, &b2) {
                (Term::IntLit(x), Term::IntLit(y)) => apply_op_exec(op, *x, *y),
                _ => Term::BinOp(op, Box::new(a2), Box::new(b2)),
            }
        },
        Term::Let(x, e1, e2) => {
            let e12 = normalize_bounded(*e1, budget);
            let substituted = subst_name(*e2, &x, &e12);
            normalize_bounded(substituted, budget)
        },
        Term::Var(x) => Term::Var(x),
        Term::Universe => Term::Universe,
        Term::Bool => Term::Bool,
        Term::Int => Term::Int,
        Term::BoolLit(b) => Term::BoolLit(b),
        Term::IntLit(n) => Term::IntLit(n),
    }
}


// ===== definitional equality =====

/// Alpha-equivalence: equal up to the names of bound variables. The bound
/// name of the second binder is renamed to that of the first, unless that
/// name is free in the second body, where renaming would capture it; the
/// terms then differ.
pub open spec fn alpha_eq(a: STerm, b: STerm) -> bool
    decreases size(a),
{
    match (a, b) {
        (STerm::Var(x), STerm::Var(y)) => x == y,
        (STerm::Universe, STerm::Universe) => true,
        (STerm::Bool, STerm::Bool) => true,
        (STerm::Int, STerm::Int) => true,
        (STerm::BoolLit(x), STerm::BoolLit(y)) => x == y,
        (STerm::IntLit(x), STerm::IntLit(y)) => x == y,
        (STerm::App(f1, a1), STerm::App(f2, a2)) => alpha_eq(*f1, *f2) && alpha_eq(*a1, *a2),
        (STerm::BinOp(o1, a1, b1), STerm::BinOp(o2, a2, b2)) => o1 == o2 && alpha_eq(*a1, *a2)
            && alpha_eq(*b1, *b2),
        (STerm::If(c1, t1, e1), STerm::If(c2, t2, e2)) => alpha_eq(*c1, *c2) && alpha_eq(*t1, *t2)
            && alpha_eq(*e1, *e2),
        (STerm::Pi(x, a1, b1), STerm::Pi(y, a2, b2)) => alpha_eq(*a1, *a2) && (x == y
            || !fv(*b2).contains(x)) && alpha_eq(*b1, spec_subst(*b2, y, STerm::Var(x))),
        (STerm::Lambda(x, a1, b1), STerm::Lambda(y, a2, b2)) => alpha_eq(*a1, *a2) && (x == y
            || !fv(*b2).contains(x)) && alpha_eq(*b1, spec_subst(*b2, y, STerm::Var(x))),
        (STerm::Let(x, e11, e12), STerm::Let(y, e21, e22)) => alpha_eq(*e11, *e21) && (x == y
            || !fv(*e22).contains(x)) && alpha_eq(*e12, spec_subst(*e22, y, STerm::Var(x))),
        _ => false,
    }
}

fn alpha_eq_exec(a: &Term, b: &Term) -> (r: bool)
    ensures
        r == alpha_eq(a@, b@),
    decreases size(a@),
{
    match (a, b) {
        (Term::Var(x), Term::Var(y)) => *x == *y,
        (Term::Universe, Term::Universe) => true,
        (Term::Bool, Term::Bool) => true,
        (Term::Int, Term::Int) => true,
        (Term::BoolLit(x), Term::BoolLit(y)) => *x == *y,
        (Term::IntLit(x), Term::IntLit(y)) => *x == *y,
        (Term::App(f1, a1), Term::App(f2, a2)) => alpha_eq_exec(f1, f2) && alpha_eq_exec(a1, a2),
        (Term::BinOp(o1, a1, b1), Term::BinOp(o2, a2, b2)) => *o1 == *o2 && alpha_eq_exec(a1, a2)
            && alpha_eq_exec(b1, b2),
        (Term::If(c1, t1, e1), Term::If(c2, t2, e2)) => alpha_eq_exec(c1, c2) && alpha_eq_exec(
            t1,
            t2,
        ) && alpha_eq_exec(e1, e2),
        (Term::Pi(x, a1, b1), Term::Pi(y, a2, b2)) => {
            if !alpha_eq_exec(a1, a2) {
                return false;
            }
            if !str_eq(x.as_str(), y.as_str()) && appears_free(x.as_str(), b2) {
                return false;
            }
            let renamed = subst_name(b2.duplicate(), y, &Term::Var(x.clone()));
            alpha_eq_exec(b1, &renamed)
        },
        (Term::Lambda(x, a1, b1), Term::Lambda(y, a2, b2)) => {
            if !alpha_eq_exec(a1, a2) {
                return false;
            }
            if !str_eq(x.as_str(), y.as_str()) && appears_free(x.as_str(), b2) {
                return false;
            }
            let renamed = subst_name(b2.duplicate(), y, &Term::Var(x.clone()));
            alpha_eq_exec(b1, &renamed)
        },
        (Term::Let(x, e11, e12), Term::Let(y, e21, e22)) => {
            if !alpha_eq_exec(e11, e21) {
                return false;
            }
            if !str_eq(x.as_str(), y.as_str()) && appears_free(x.as_str(), e22) {
                return false;
            }
            let renamed = subst_name(e22.duplicate(), y, &Term::Var(x.clone()));
            alpha_eq_exec(e12, &renamed)
        },
        _ => false,
    }
}

/// Definitional equality: alpha-equivalence of the normal forms.
pub open spec fn spec_term_eq(a: STerm, b: STerm) -> bool {
    alpha_eq(spec_normalize(a), spec_normalize(b))
}

/// Whether two terms are definitionally equal.
pub fn term_eq(a: &Term, b: &Term) -> (r: bool)
    ensures
        r == spec_term_eq(a@, b@),
{
    alpha_eq_exec(&normalize(a), &normalize(b))
}

// ===== type checking =====

pub open spec fn op_result(op: BinOp) -> STerm {
    match op {
        BinOp::Add | BinOp::Sub | BinOp::Mul => STerm::Int,
        BinOp::Eq | BinOp::Lt => STerm::Bool,
    }
}

/// The free variables of the types in a context.
pub open spec fn ctx_fv(ctx: Map<Seq<char>, STerm>) -> Set<Seq<char>> {
    Set::new(
        |v: Seq<char>| exists|k: Seq<char>| ctx.contains_key(k) && #[trigger] fv(ctx[k]).contains(v),
    )
}

/// The binder `x` of a body checked in `ctx`, with the body: unchanged
/// unless `x` is free in a type of `ctx`, where the binder would capture
/// it; then `x` is renamed to the fresh name avoiding the free variables of
/// the context and of the body.
pub open spec fn rename_binder(x: Seq<char>, body: STerm, ctx: Map<Seq<char>, STerm>) -> (
    Seq<char>,
    STerm,
) {
    if ctx_fv(ctx).contains(x) {
        let y = fresh_name_spec(x, ctx_fv(ctx).union(fv(body)));
        (y, spec_subst(body, x, STerm::Var(y)))
    } else {
        (x, body)
    }
}

pub proof fn lemma_rename_binder_size(x: Seq<char>, body: STerm, ctx: Map<Seq<char>, STerm>)
    ensures
        size(rename_binder(x, body, ctx).1) == size(body),
{
    if ctx_fv(ctx).contains(x) {
        lemma_subst_var_size(body, x, fresh_name_spec(x, ctx_fv(ctx).union(fv(body))));
    }
}

/// The type of `t` in `ctx`, or the first error met. A binder whose name
/// is free in a type of the context is first renamed (`rename_binder`), so
/// that it captures none of them.
pub open spec fn spec_type_of(t: STerm, ctx: Map<Seq<char>, STerm>) -> Result<STerm, SError>
    decreases size(t), 1nat,
{
    match t {
        STerm::Var(x) => if ctx.contains_key(x) {
            Ok(ctx[x])
        } else {
            Err(SError::UnboundVariable(x))
        },
        STerm::Universe => Ok(STerm::Universe),
        STerm::Bool | STerm::Int => Ok(STerm::Universe),
        STerm::BoolLit(_) => Ok(STerm::Bool),
        STerm::IntLit(_) => Ok(STerm::Int),
        STerm::Pi(x, a, b) => match spec_check_is_type(*a, ctx) {
            Ok(_) => {
                let (y, b2) = rename_binder(x, *b, ctx);
                proof {
                    lemma_rename_binder_size(x, *b, ctx);
                }
                match spec_check_is_type(b2, ctx.insert(y, *a)) {
                    Ok(_) => Ok(STerm::Universe),
                    Err(e) => Err(e),
                }
            },
            Err(e) => Err(e),
        },
        STerm::Lambda(x, a, body) => match spec_check_is_type(*a, ctx) {
            Ok(_) => {
                let (y, body2) = rename_binder(x, *body, ctx);
                proof {
                    lemma_rename_binder_size(x, *body, ctx);
                }
                match spec_type_of(body2, ctx.insert(y, *a)) {
                    Ok(bt) => Ok(STerm::Pi(y, a, Box::new(bt))),
                    Err(e) => Err(e),
                }
            },
            Err(e) => Err(e),
        },
        STerm::App(f, a) => match spec_type_of(*f, ctx) {
            Ok(fty) => match spec_normalize(fty) {
                STerm::Pi(x, param, ret) => match spec_type_of(*a, ctx) {
                    Ok(arg) => if !spec_term_eq(arg, *param) {
                        Err(SError::TypeMismatch { expected: *param, found: arg })
                    } else {
                        Ok(spec_subst(*ret, x, *a))
                    },
                    Err(e) => Err(e),
                },
                other => Err(SError::NotAFunctionType { found: other }),
            },
            Err(e) => Err(e),
        },
        STerm::If(c, t1, t2) => match spec_type_of(*c, ctx) {
            Ok(cty) => if !spec_term_eq(cty, STerm::Bool) {
                Err(SError::TypeMismatch { expected: STerm::Bool, found: cty })
            } else {
                match spec_type_of(*t1, ctx) {
                    Ok(ty1) => match spec_type_of(*t2, ctx) {
                        Ok(ty2) => if spec_term_eq(ty1, ty2) {
                            Ok(ty1)
                        } else {
                            Ok(STerm::If(c, Box::new(ty1), Box::new(ty2)))
                        },
                        Err(e) => Err(e),
                    },
                    Err(e) => Err(e),
                }
            },
            Err(e) => Err(e),
        },
        STerm::BinOp(op, a, b) => match spec_type_of(*a, ctx) {
            Ok(ta) => match spec_type_of(*b, ctx) {
                Ok(tb) => if !spec_term_eq(ta, STerm::Int) {
                    Err(SError::TypeMismatch { expected: STerm::Int, found: ta })
                } else if !spec_term_eq(tb, STerm::Int) {
                    Err(SError::TypeMismatch { expected: STerm::Int, found: tb })
                } else {
                    Ok(op_result(op))
                },
                Err(e) => Err(e),
            },
            Err(e) => Err(e),
        },
        STerm::Let(x, e1, e2) => match spec_type_of(*e1, ctx) {
            Ok(t1) => spec_type_of(*e2, ctx.insert(x, t1)),
            Err(e) => Err(e),
        },
    }
}

/// A conditional on a boolean has the common type of its branches when
/// they are definitionally equal, and otherwise the conditional of the two
/// branch types on the same condition: its type depends on the condition.
/// An application of a function whose type normalizes to `Πx:A. B` to an
/// argument of type `A` has type `B` with the argument substituted for `x`.
pub proof fn lemma_typing_rules(c: STerm, t1: STerm, t2: STerm, ctx: Map<Seq<char>, STerm>)
    ensures
        spec_type_of(c, ctx) is Ok && spec_term_eq(spec_type_of(c, ctx)->Ok_0, STerm::Bool) && spec_type_of(
            t1,
            ctx,
        ) is Ok && spec_type_of(t2, ctx) is Ok ==> spec_type_of(
            STerm::If(Box::new(c), Box::new(t1), Box::new(t2)),
            ctx,
        ) == Ok::<STerm, SError>(
            if spec_term_eq(spec_type_of(t1, ctx)->Ok_0, spec_type_of(t2, ctx)->Ok_0) {
                spec_type_of(t1, ctx)->Ok_0
            } else {
                STerm::If(
                    Box::new(c),
                    Box::new(spec_type_of(t1, ctx)->Ok_0),
                    Box::new(spec_type_of(t2, ctx)->Ok_0),
                )
            },
        ),
        spec_type_of(t1, ctx) is Ok ==> (spec_normalize(spec_type_of(t1, ctx)->Ok_0) matches STerm::Pi(
            x,
            param,
            ret,
        ) ==> (spec_type_of(t2, ctx) is Ok && spec_term_eq(spec_type_of(t2, ctx)->Ok_0, *param)
            ==> spec_type_of(STerm::App(Box::new(t1), Box::new(t2)), ctx) == Ok::<STerm, SError>(
            spec_subst(*ret, x, t2),
        ))),
{
}

/// Operators take integers: `+`, `-` and `*` give an integer, `==` and
/// `<` a boolean.
pub proof fn lemma_type_of_operator(op: BinOp, a: STerm, b: STerm, ctx: Map<Seq<char>, STerm>)
    ensures
        spec_type_of(STerm::BinOp(op, Box::new(a), Box::new(b)), ctx) is Ok ==> spec_type_of(
            STerm::BinOp(op, Box::new(a), Box::new(b)),
            ctx,
        ) == Ok::<STerm, SError>(
            if op is Eq || op is Lt {
                STerm::Bool
            } else {
                STerm::Int
            },
        ),
{
}

/// `t` must be a type: its type must be definitionally `Type`.
pub open spec fn spec_check_is_type(t: STerm, ctx: Map<Seq<char>, STerm>) -> Result<(), SError>
    decreases size(t), 2nat,
{
    match spec_type_of(t, ctx) {
        Ok(ty) => if spec_term_eq(ty, STerm::Universe) {
            Ok(())
        } else {
            Err(SError::NotAType { found: ty })
        },
        Err(e) => Err(e),
    }
}

/// The free variables of the types in a context, each once.
fn ctx_free_vars(m: &Ctx) -> (r: Vec<String>)
    ensures
        name_set(r@) == ctx_fv(m@),
        distinct_names(r@),
{
    let mut acc: Vec<String> = Vec::new();
    proof {
        lemma_name_set_empty(acc@);
    }
    let n = m.entries.len();
    let mut j: usize = 0;
    while j < n
        invariant
            j <= n,
            n == m.entries.len(),
            distinct_names(acc@),
            forall|v: Seq<char>| #[trigger] name_set(acc@).contains(v) <==> exists|i: int|
                0 <= i < j && !shadowed(m.entries@, i) && fv(m.entries@[i].1@).contains(v),
        decreases n - j,
    {
        let mut hidden = false;
        let mut i = j + 1;
        while i < n
            invariant
                j < i <= n,
                n == m.entries.len(),
                hidden <==> exists|k: int| j < k < i && (#[trigger] m.entries@[k]).0@ == m.entries@[j as int].0@,
            decreases n - i,
        {
            if m.entries[i].0 == m.entries[j].0 {
                hidden = true;
            }
            i = i + 1;
        }
        assert(hidden == shadowed(m.entries@, j as int));
        if !hidden {
            let fs = free_vars(&m.entries[j].1);
            extend_names(&mut acc, &fs);
        }
        proof {
            assert forall|v: Seq<char>| #[trigger] name_set(acc@).contains(v) <==> exists|i: int|
                0 <= i < j + 1 && !shadowed(m.entries@, i) && fv(m.entries@[i].1@).contains(v) by {
                if exists|i: int|
                    0 <= i < j + 1 && !shadowed(m.entries@, i) && fv(m.entries@[i].1@).contains(v) {
                    let i = choose|i: int|
                        0 <= i < j + 1 && !shadowed(m.entries@, i) && fv(m.entries@[i].1@).contains(v);
                    if i < j {
                    }
                }
            }
        }
        j = j + 1;
    }
    proof {
        let s = m.entries@;
        assert forall|v: Seq<char>| name_set(acc@).contains(v) <==> ctx_fv(m@).contains(v) by {
            if name_set(acc@).contains(v) {
                let i = choose|i: int| 0 <= i < n && !shadowed(s, i) && fv(s[i].1@).contains(v);
                lemma_bindings_live(s, s[i].0@);
                assert(m@.contains_key(s[i].0@));
                assert(fv(m@[s[i].0@]).contains(v));
            }
            if ctx_fv(m@).contains(v) {
                let k = choose|k: Seq<char>| m@.contains_key(k) && #[trigger] fv(m@[k]).contains(v);
                lemma_bindings_live(s, k);
                let i = choose|i: int| 0 <= i < s.len() && (#[trigger] s[i]).0@ == k && !shadowed(s, i);
                assert(fv(s[i].1@).contains(v));
            }
        }
        assert(name_set(acc@) =~= ctx_fv(m@));
    }
    acc
}

fn rename_binder_exec(x: &String, body: &Term, ctx: &Ctx) -> (r: (String, Term))
    ensures
        (r.0@, r.1@) == rename_binder(x@, body@, ctx@),
{
    let in_scope = ctx_free_vars(ctx);
    if contains_name(&in_scope, x) {
        let mut avoid = in_scope;
        extend_names(&mut avoid, &free_vars(body));
        assert(name_set(avoid@) =~= ctx_fv(ctx@).union(fv(body@)));
        let y = fresh_name(x, &avoid);
        let b = subst(body.duplicate(), x.as_str(), &Term::Var(y.clone()));
        (y, b)
    } else {
        (x.clone(), body.duplicate())
    }
}

/// The type of `t` in `ctx`.
pub fn type_of(t: &Term, ctx: &Ctx) -> (r: Result<Term, TypeError>)
    ensures
        match r {
            Ok(ty) => spec_type_of(t@, ctx@) == Ok::<STerm, SError>(ty@),
            Err(e) => spec_type_of(t@, ctx@) == Err::<STerm, SError>(e@),
        },
    decreases size(t@), 1nat,
{
    match t {
        Term::Var(x) => match ctx.get(x) {
            Some(ty) => Ok(ty.duplicate()),
            None => Err(TypeError::UnboundVariable(x.clone())),
        },
        Term::Universe => Ok(Term::Universe),
        Term::Bool | Term::Int => Ok(Term::Universe),
        Term::BoolLit(_) => Ok(Term::Bool),
        Term::IntLit(_) => Ok(Term::Int),
        Term::Pi(x, a, b) => {
            check_is_type(a, ctx)?;
            let (y, b2) = rename_binder_exec(x, b, ctx);
            proof {
                lemma_rename_binder_size(x@, b@, ctx@);
            }
            let mut ctx2 = ctx.dup_map();
            ctx2.insert(y, a.duplicate());
            check_is_type(&b2, &ctx2)?;
            Ok(Term::Universe)
        },
        Term::Lambda(x, a, body) => {
            check_is_type(a, ctx)?;
            let (y, body2) = rename_binder_exec(x, body, ctx);
            proof {
                lemma_rename_binder_size(x@, body@, ctx@);
            }
            let mut ctx2 = ctx.dup_map();
            ctx2.insert(y.clone(), a.duplicate());
            let body_ty = type_of(&body2, &ctx2)?;
            Ok(Term::Pi(y, Box::new(a.duplicate()), Box::new(body_ty)))
        },
        Term::App(f, a) => {
            let f_ty0 = type_of(f, ctx)?;
            let f_ty = normalize(&f_ty0);
            match f_ty {
                Term::Pi(x, param_ty, ret_ty) => {
                    let arg_ty = type_of(a, ctx)?;
                    if !term_eq(&arg_ty, &param_ty) {
                        return Err(TypeError::TypeMismatch { expected: *param_ty, found: arg_ty });
                    }
                    Ok(subst_name(*ret_ty, &x, a))
                },
                other => Err(TypeError::NotAFunctionType { found: other }),
            }
        },
        Term::If(c, t1, t2) => {
            let c_ty = type_of(c, ctx)?;
            if !term_eq(&c_ty, &Term::Bool) {
                return Err(TypeError::TypeMismatch { expected: Term::Bool, found: c_ty });
            }
            let t1_ty = type_of(t1, ctx)?;
            let t2_ty = type_of(t2, ctx)?;
            if term_eq(&t1_ty, &t2_ty) {
                Ok(t1_ty)
            } else {
                Ok(Term::If(Box::new(c.duplicate()), Box::new(t1_ty), Box::new(t2_ty)))
            }
        },
        Term::BinOp(op, a, b) => {
            let ta = type_of(a, ctx)?;
            let tb = type_of(b, ctx)?;
            if !term_eq(&ta, &Term::Int) {
                return Err(TypeError::TypeMismatch { expected: Term::Int, found: ta });
            }
            if !term_eq(&tb, &Term::Int) {
                return Err(TypeError::TypeMismatch { expected: Term::Int, found: tb });
            }
            Ok(
                match op {
                    BinOp::Add | BinOp::Sub | BinOp::Mul => Term::Int,
                    BinOp::Eq | BinOp::Lt => Term::Bool,
                },
            )
        },
        Term::Let(x, e1, e2) => {
            let e1_ty = type_of(e1, ctx)?;
            let mut ctx2 = ctx.dup_map();
            ctx2.insert(x.clone(), e1_ty);
            type_of(e2, &ctx2)
        },
    }
}

fn check_is_type(t: &Term, ctx: &Ctx) -> (r: Result<(), TypeError>)
    ensures
        match r {
            Ok(_) => spec_check_is_type(t@, ctx@) == Ok::<(), SError>(()),
            Err(e) => spec_check_is_type(t@, ctx@) == Err::<(), SError>(e@),
        },
    decreases size(t@), 2nat,
{
    let ty = type_of(t, ctx)?;
    if term_eq(&ty, &Term::Universe) {
        Ok(())
    } else {
        Err(TypeError::NotAType { found: ty })
    }
}

/// The normalized type of a closed term.
pub fn type_of_top(t: &Term) -> (r: Result<Term, TypeError>)
    ensures
        match r {
            Ok(ty) => spec_type_of(t@, Map::empty()) matches Ok(ty0) && ty@ == spec_normalize(ty0),
            Err(e) => spec_type_of(t@, Map::empty()) == Err::<STerm, SError>(e@),
        },
{
    let ty = type_of(t, &Ctx::new())?;
    Ok(normalize(&ty))
}

} // verus!
