//! Type checking for System F. Types are compared up to the renaming of
//! bound type variables.

use vstd::prelude::*;

use crate::names::{
    contains_name, dec_int, decimal_i64, distinct_names, extend_names, fresh_name,
    fresh_name_spec, insert_name, lemma_bindings_live, lemma_name_set_empty, name_set, remove_name,
    lemma_fresh_name_fresh, shadowed, Dup, NameMap,
};
use crate::systemf::ast::{
    bool_text, op_symbol, show_type, term_size, type_size, BinOp, STerm, SType, Term, Type,
};

verus! {

impl Dup for Type {
    fn dup(&self) -> (r: Type) {
        self.duplicate()
    }
}

#[derive(Debug)]
pub enum TypeError {
    UnboundVariable(String),
    UnboundTypeVariable(String),
    TypeMismatch { expected: Type, found: Type, ctx: String },
    NotAFunction { found: Type },
    NotPolymorphic { found: Type },
}

pub enum SError {
    UnboundVariable(Seq<char>),
    UnboundTypeVariable(Seq<char>),
    TypeMismatch { expected: SType, found: SType, ctx: Seq<char> },
    NotAFunction { found: SType },
    NotPolymorphic { found: SType },
}

impl View for TypeError {
    type V = SError;

    open spec fn view(&self) -> SError {
        match self {
            TypeError::UnboundVariable(x) => SError::UnboundVariable(x@),
            TypeError::UnboundTypeVariable(x) => SError::UnboundTypeVariable(x@),
            TypeError::TypeMismatch { expected, found, ctx } => SError::TypeMismatch {
                expected: expected@,
                found: found@,
                ctx: ctx@,
            },
            TypeError::NotAFunction { found } => SError::NotAFunction { found: found@ },
            TypeError::NotPolymorphic { found } => SError::NotPolymorphic { found: found@ },
        }
    }
}

/// The message of a type error.
pub open spec fn error_text(e: SError) -> Seq<char> {
    match e {
        SError::UnboundVariable(x) => "unbound variable: "@ + x,
        SError::UnboundTypeVariable(x) => "unbound type variable: "@ + x,
        SError::TypeMismatch { expected, found, ctx } => "type mismatch in "@ + ctx
            + ": expected "@ + show_type(expected, 0) + ", found "@ + show_type(found, 0),
        SError::NotAFunction { found } => "expected a function, found value of type "@
            + show_type(found, 0),
        SError::NotPolymorphic { found } => "type application requires a ∀-type, found "@
            + show_type(found, 0),
    }
}

impl TypeError {
    /// The message, e.g. `unbound type variable: T`.
    pub fn to_string(&self) -> (s: String)
        ensures
            s@ == error_text(self@),
    {
        match self {
            TypeError::UnboundVariable(x) => {
                let mut s = String::from_str("unbound variable: ");
                s.append(x.as_str());
                s
            },
            TypeError::UnboundTypeVariable(x) => {
                let mut s = String::from_str("unbound type variable: ");
                s.append(x.as_str());
                s
            },
            TypeError::TypeMismatch { expected, found, ctx } => {
                let mut s = String::from_str("type mismatch in ");
                s.append(ctx.as_str());
                s.append(": expected ");
                expected.write_prec(&mut s, 0);
                s.append(", found ");
                found.write_prec(&mut s, 0);
                s
            },
            TypeError::NotAFunction { found } => {
                let mut s = String::from_str("expected a function, found value of type ");
                found.write_prec(&mut s, 0);
                s
            },
            TypeError::NotPolymorphic { found } => {
                let mut s = String::from_str("type application requires a ∀-type, found ");
                found.write_prec(&mut s, 0);
                s
            },
        }
    }
}

/// A typing context: the term variables with their types, and the type
/// variables in scope.
pub struct Ctx {
    pub values: NameMap<Type>,
    pub types: Vec<String>,
}

impl Default for Ctx {
    /// The empty context.
    fn default() -> (c: Ctx)
        ensures
            c.values@ == Map::<Seq<char>, SType>::empty(),
            name_set(c.types@) == Set::<Seq<char>>::empty(),
    {
        let types: Vec<String> = Vec::new();
        proof {
            lemma_name_set_empty(types@);
        }
        Ctx { values: NameMap::new(), types }
    }
}

fn copy_names(v: &Vec<String>) -> (r: Vec<String>)
    ensures
        name_set(r@) == name_set(v@),
{
    let mut r: Vec<String> = Vec::new();
    proof {
        lemma_name_set_empty(r@);
    }
    extend_names(&mut r, v);
    assert(name_set(r@) =~= name_set(v@));
    r
}

// ===== free type variables =====

/// The free type variables of a type.
pub open spec fn ftv(t: SType) -> Set<Seq<char>>
    decreases t,
{
    match t {
        SType::Var(x) => set![x],
        SType::Arrow(a, b) => ftv(*a).union(ftv(*b)),
        SType::ForAll(x, b) => ftv(*b).remove(x),
        _ => Set::empty(),
    }
}

pub proof fn lemma_ftv_finite(t: SType)
    ensures
        ftv(t).finite(),
    decreases t,
{
    match t {
        SType::Arrow(a, b) => {
            lemma_ftv_finite(*a);
            lemma_ftv_finite(*b);
        },
        SType::ForAll(_, b) => {
            lemma_ftv_finite(*b);
        },
        _ => {},
    }
}

/// The free type variables of `t`, each once.
pub fn free_type_vars(t: &Type) -> (r: Vec<String>)
    ensures
        name_set(r@) == ftv(t@),
        distinct_names(r@),
{
    let mut acc: Vec<String> = Vec::new();
    proof {
        lemma_name_set_empty(acc@);
    }
    collect_ftv(t, &mut acc);
    assert(name_set(acc@) =~= ftv(t@));
    acc
}

fn collect_ftv(t: &Type, acc: &mut Vec<String>)
    ensures
        name_set(final(acc)@) == name_set(old(acc)@).union(ftv(t@)),
        distinct_names(old(acc)@) ==> distinct_names(final(acc)@),
    decreases t,
{
    match t {
        Type::Var(x) => {
            insert_name(acc, x);
        },
        Type::Bool | Type::Int => {},
        Type::Arrow(a, b) => {
            collect_ftv(a, acc);
            collect_ftv(b, acc);
        },
        Type::ForAll(x, b) => {
            let mut inner: Vec<String> = Vec::new();
            proof {
                lemma_name_set_empty(inner@);
            }
            collect_ftv(b, &mut inner);
            let inner2 = remove_name(&inner, x);
            extend_names(acc, &inner2);
        },
    }
    assert(name_set(acc@) =~= name_set(old(acc)@).union(ftv(t@)));
}

// ===== substitution on types =====

/// Capture-avoiding substitution `[s/x] t` on types. Under `∀y` with `y`
/// free in `s`, `y` is first renamed to the fresh name avoiding the free
/// type variables of `s`, of the body and `x`.
pub open spec fn spec_type_subst(t: SType, x: Seq<char>, s: SType) -> SType
    decreases type_size(t),
{
    match t {
        SType::Var(y) => if y == x {
            s
        } else {
            t
        },
        SType::Arrow(a, b) => SType::Arrow(
            Box::new(spec_type_subst(*a, x, s)),
            Box::new(spec_type_subst(*b, x, s)),
        ),
        SType::ForAll(y, body) => if y == x {
            t
        } else if ftv(s).contains(y) {
            let z = fresh_name_spec(y, ftv(s).union(ftv(*body)).insert(x));
            let renamed = spec_type_subst(*body, y, SType::Var(z));
            if type_size(renamed) <= type_size(*body) {
                SType::ForAll(z, Box::new(spec_type_subst(renamed, x, s)))
            } else {
                t
            }
        } else {
            SType::ForAll(y, Box::new(spec_type_subst(*body, x, s)))
        },
        _ => t,
    }
}

/// Substituting a variable for a variable keeps the size of a type.
pub proof fn lemma_type_subst_var_size(t: SType, x: Seq<char>, z: Seq<char>)
    ensures
        type_size(spec_type_subst(t, x, SType::Var(z))) == type_size(t),
    decreases type_size(t),
{
    let s = SType::Var(z);
    match t {
        SType::Arrow(a, b) => {
            lemma_type_subst_var_size(*a, x, z);
            lemma_type_subst_var_size(*b, x, z);
        },
        SType::ForAll(y, body) => {
            if y != x {
                if ftv(s).contains(y) {
                    let w = fresh_name_spec(y, ftv(s).union(ftv(*body)).insert(x));
                    lemma_type_subst_var_size(*body, y, w);
                    let renamed = spec_type_subst(*body, y, SType::Var(w));
                    lemma_type_subst_var_size(renamed, x, z);
                } else {
                    lemma_type_subst_var_size(*body, x, z);
                }
            }
        },
        _ => {},
    }
}

/// Capture-avoiding type substitution: the free type variables of
/// `[s/x] t` are those of `t` without `x`, plus those of `s` where `x` was
/// free; no binder of `t` captures a variable of `s`.
pub proof fn lemma_ftv_type_subst(t: SType, x: Seq<char>, s: SType)
    ensures
        ftv(spec_type_subst(t, x, s)) == (if ftv(t).contains(x) {
            ftv(t).remove(x).union(ftv(s))
        } else {
            ftv(t)
        }),
    decreases type_size(t),
{
    match t {
        SType::Var(y) => {
            if y == x {
                assert(ftv(t).remove(x) =~= Set::<Seq<char>>::empty());
                assert(ftv(t).remove(x).union(ftv(s)) =~= ftv(s));
            }
        },
        SType::Arrow(a, b) => {
            lemma_ftv_type_subst(*a, x, s);
            lemma_ftv_type_subst(*b, x, s);
            assert(ftv(spec_type_subst(t, x, s)) =~= (if ftv(t).contains(x) {
                ftv(t).remove(x).union(ftv(s))
            } else {
                ftv(t)
            }));
        },
        SType::ForAll(y, body) => {
            if y == x {
                assert(!ftv(t).contains(x));
            } else if ftv(s).contains(y) {
                let avoid = ftv(s).union(ftv(*body)).insert(x);
                lemma_ftv_finite(s);
                lemma_ftv_finite(*body);
                let z = fresh_name_spec(y, avoid);
                lemma_fresh_name_fresh(y, avoid);
                lemma_type_subst_var_size(*body, y, z);
                let renamed = spec_type_subst(*body, y, SType::Var(z));
                lemma_ftv_type_subst(*body, y, SType::Var(z));
                lemma_ftv_type_subst(renamed, x, s);
                assert(ftv(renamed).contains(x) == ftv(*body).contains(x));
                assert(ftv(spec_type_subst(t, x, s)) =~= (if ftv(t).contains(x) {
                    ftv(t).remove(x).union(ftv(s))
                } else {
                    ftv(t)
                }));
            } else {
                lemma_ftv_type_subst(*body, x, s);
                assert(ftv(spec_type_subst(t, x, s)) =~= (if ftv(t).contains(x) {
                    ftv(t).remove(x).union(ftv(s))
                } else {
                    ftv(t)
                }));
            }
        },
        _ => {},
    }
}

/// Capture-avoiding substitution of `s` for the type variable `x` in `t`.
pub fn type_subst(t: &Type, x: &str, s: &Type) -> (r: Type)
    ensures
        r@ == spec_type_subst(t@, x@, s@),
{
    let xs = String::from_str(x);
    type_subst_name(t, &xs, s)
}

fn type_subst_name(t: &Type, x: &String, s: &Type) -> (r: Type)
    ensures
        r@ == spec_type_subst(t@, x@, s@),
    decreases type_size(t@),
{
    match t {
        Type::Bool => Type::Bool,
        Type::Int => Type::Int,
        Type::Var(y) => {
            if *y == *x {
                s.duplicate()
            } else {
                Type::Var(y.clone())
            }
        },
        Type::Arrow(a, b) => Type::Arrow(
            Box::new(type_subst_name(a, x, s)),
            Box::new(type_subst_name(b, x, s)),
        ),
        Type::ForAll(y, body) => {
            if *y == *x {
                t.duplicate()
            } else {
                let fv_s = free_type_vars(s);
                if contains_name(&fv_s, y) {
                    let mut avoid = fv_s;
                    extend_names(&mut avoid, &free_type_vars(body));
                    insert_name(&mut avoid, x);
                    assert(name_set(avoid@) =~= ftv(s@).union(ftv(body@)).insert(x@));
                    let new_y = fresh_name(y, &avoid);
                    let var = Type::Var(new_y.clone());
                    proof {
                        lemma_type_subst_var_size(body@, y@, new_y@);
                    }
                    let renamed = type_subst_name(body, y, &var);
                    let b = type_subst_name(&renamed, x, s);
                    Type::ForAll(new_y, Box::new(b))
                } else {
                    Type::ForAll(y.clone(), Box::new(type_subst_name(body, x, s)))
                }
            }
        },
    }
}

// ===== α-equivalence =====

/// Equality of types up to the names of bound type variables: under two
/// `∀`s, the second body is renamed to the first binder and compared; the
/// renaming is refused (the types differ) when the first binder's name is
/// free in the second body, where it would be captured.
pub open spec fn spec_type_eq(a: SType, b: SType) -> bool
    decreases type_size(a),
{
    match a {
        SType::Bool => b is Bool,
        SType::Int => b is Int,
        SType::Var(x) => b == SType::Var(x),
        SType::Arrow(a1, a2) => match b {
            SType::Arrow(b1, b2) => spec_type_eq(*a1, *b1) && spec_type_eq(*a2, *b2),
            _ => false,
        },
        SType::ForAll(x, ax) => match b {
            SType::ForAll(y, by) => (x == y || !ftv(*by).contains(x)) && spec_type_eq(
                *ax,
                spec_type_subst(*by, y, SType::Var(x)),
            ),
            _ => false,
        },
    }
}

/// Whether two types are equal up to renaming of bound type variables,
/// e.g. `∀T. T -> T` and `∀U. U -> U`.
pub fn type_eq(a: &Type, b: &Type) -> (r: bool)
    ensures
        r == spec_type_eq(a@, b@),
    decreases type_size(a@),
{
    match (a, b) {
        (Type::Bool, Type::Bool) | (Type::Int, Type::Int) => true,
        (Type::Var(x), Type::Var(y)) => *x == *y,
        (Type::Arrow(a1, a2), Type::Arrow(b1, b2)) => type_eq(a1, b1) && type_eq(a2, b2),
        (Type::ForAll(x, ax), Type::ForAll(y, by)) => {
            if *x != *y {
                let free = free_type_vars(by);
                if contains_name(&free, x) {
                    return false;
                }
            }
            let by_renamed = type_subst_name(by, y, &Type::Var(x.clone()));
            type_eq(ax, &by_renamed)
        },
        _ => false,
    }
}

/// Substituting a variable for itself changes nothing.
pub proof fn lemma_type_subst_self(t: SType, y: Seq<char>)
    ensures
        spec_type_subst(t, y, SType::Var(y)) == t,
    decreases type_size(t),
{
    match t {
        SType::Arrow(a, b) => {
            lemma_type_subst_self(*a, y);
            lemma_type_subst_self(*b, y);
        },
        SType::ForAll(z, body) => {
            if z != y {
                assert(!ftv(SType::Var(y)).contains(z));
                lemma_type_subst_self(*body, y);
            }
        },
        _ => {},
    }
}

/// `type_eq` is reflexive: every type equals itself.
pub proof fn lemma_type_eq_refl(t: SType)
    ensures
        spec_type_eq(t, t),
    decreases type_size(t),
{
    match t {
        SType::Arrow(a, b) => {
            lemma_type_eq_refl(*a);
            lemma_type_eq_refl(*b);
        },
        SType::ForAll(x, body) => {
            lemma_type_subst_self(*body, x);
            lemma_type_eq_refl(*body);
        },
        _ => {},
    }
}

// ===== type substitution inside terms =====

/// The free type variables of the types written in a term.
pub open spec fn ftv_term(t: STerm) -> Set<Seq<char>>
    decreases t,
{
    match t {
        STerm::Abs(_, ty, b) => ftv(ty).union(ftv_term(*b)),
        STerm::App(f, a) => ftv_term(*f).union(ftv_term(*a)),
        STerm::TyAbs(x, b) => ftv_term(*b).remove(x),
        STerm::TyApp(f, ty) => ftv_term(*f).union(ftv(ty)),
        STerm::If(c, t1, t2) => ftv_term(*c).union(ftv_term(*t1)).union(ftv_term(*t2)),
        STerm::BinOp(_, a, b) => ftv_term(*a).union(ftv_term(*b)),
        STerm::Let(_, e1, e2) => ftv_term(*e1).union(ftv_term(*e2)),
        _ => Set::empty(),
    }
}

fn free_type_vars_in_term(t: &Term) -> (r: Vec<String>)
    ensures
        name_set(r@) == ftv_term(t@),
{
    let mut acc: Vec<String> = Vec::new();
    proof {
        lemma_name_set_empty(acc@);
    }
    collect_ftv_term(t, &mut acc);
    assert(name_set(acc@) =~= ftv_term(t@));
    acc
}

fn collect_ftv_term(t: &Term, acc: &mut Vec<String>)
    ensures
        name_set(final(acc)@) == name_set(old(acc)@).union(ftv_term(t@)),
    decreases t,
{
    match t {
        Term::Var(_) | Term::IntLit(_) | Term::BoolLit(_) => {},
        Term::Abs(_, ty, body) => {
            collect_ftv(ty, acc);
            collect_ftv_term(body, acc);
        },
        Term::App(f, a) => {
            collect_ftv_term(f, acc);
            collect_ftv_term(a, acc);
        },
        Term::TyAbs(x, body) => {
            let mut inner: Vec<String> = Vec::new();
            proof {
                lemma_name_set_empty(inner@);
            }
            collect_ftv_term(body, &mut inner);
            let inner2 = remove_name(&inner, x);
            extend_names(acc, &inner2);
        },
        Term::TyApp(f, ty) => {
            collect_ftv_term(f, acc);
            collect_ftv(ty, acc);
        },
        Term::If(c, t1, t2) => {
            collect_ftv_term(c, acc);
            collect_ftv_term(t1, acc);
            collect_ftv_term(t2, acc);
        },
        Term::BinOp(_, a, b) => {
            collect_ftv_term(a, acc);
            collect_ftv_term(b, acc);
        },
        Term::Let(_, e1, e2) => {
            collect_ftv_term(e1, acc);
            collect_ftv_term(e2, acc);
        },
    }
    assert(name_set(acc@) =~= name_set(old(acc)@).union(ftv_term(t@)));
}

/// Capture-avoiding substitution of the type `s` for the type variable `x`
/// throughout the types in `t`; a type abstraction over a free variable of
/// `s` is renamed first.
pub open spec fn spec_ty_subst_in_term(t: STerm, x: Seq<char>, s: SType) -> STerm
    decreases term_size(t),
{
    match t {
        STerm::Abs(y, ty, b) => STerm::Abs(
            y,
            spec_type_subst(ty, x, s),
            Box::new(spec_ty_subst_in_term(*b, x, s)),
        ),
        STerm::App(f, a) => STerm::App(
            Box::new(spec_ty_subst_in_term(*f, x, s)),
            Box::new(spec_ty_subst_in_term(*a, x, s)),
        ),
        STerm::TyAbs(y, body) => if y == x {
            t
        } else if ftv(s).contains(y) {
            let z = fresh_name_spec(y, ftv(s).union(ftv_term(*body)).insert(x));
            let renamed = spec_ty_subst_in_term(*body, y, SType::Var(z));
            if term_size(renamed) <= term_size(*body) {
                STerm::TyAbs(z, Box::new(spec_ty_subst_in_term(renamed, x, s)))
            } else {
                t
            }
        } else {
            STerm::TyAbs(y, Box::new(spec_ty_subst_in_term(*body, x, s)))
        },
        STerm::TyApp(f, ty) => STerm::TyApp(
            Box::new(spec_ty_subst_in_term(*f, x, s)),
            spec_type_subst(ty, x, s),
        ),
        STerm::If(c, t1, t2) => STerm::If(
            Box::new(spec_ty_subst_in_term(*c, x, s)),
            Box::new(spec_ty_subst_in_term(*t1, x, s)),
            Box::new(spec_ty_subst_in_term(*t2, x, s)),
        ),
        STerm::BinOp(op, a, b) => STerm::BinOp(
            op,
            Box::new(spec_ty_subst_in_term(*a, x, s)),
            Box::new(spec_ty_subst_in_term(*b, x, s)),
        ),
        STerm::Let(y, e1, e2) => STerm::Let(
            y,
            Box::new(spec_ty_subst_in_term(*e1, x, s)),
            Box::new(spec_ty_subst_in_term(*e2, x, s)),
        ),
        _ => t,
    }
}

/// Type substitution keeps the shape, hence the size, of a term.
pub proof fn lemma_ty_subst_in_term_size(t: STerm, x: Seq<char>, s: SType)
    ensures
        term_size(spec_ty_subst_in_term(t, x, s)) == term_size(t),
    decreases term_size(t),
{
    match t {
        STerm::Abs(_, _, b) => {
            lemma_ty_subst_in_term_size(*b, x, s);
        },
        STerm::App(f, a) => {
            lemma_ty_subst_in_term_size(*f, x, s);
            lemma_ty_subst_in_term_size(*a, x, s);
        },
        STerm::TyAbs(y, body) => {
            if y != x {
                if ftv(s).contains(y) {
                    let z = fresh_name_spec(y, ftv(s).union(ftv_term(*body)).insert(x));
                    lemma_ty_subst_in_term_size(*body, y, SType::Var(z));
                    let renamed = spec_ty_subst_in_term(*body, y, SType::Var(z));
                    lemma_ty_subst_in_term_size(renamed, x, s);
                } else {
                    lemma_ty_subst_in_term_size(*body, x, s);
                }
            }
        },
        STerm::TyApp(f, _) => {
            lemma_ty_subst_in_term_size(*f, x, s);
        },
        STerm::If(c, t1, t2) => {
            lemma_ty_subst_in_term_size(*c, x, s);
            lemma_ty_subst_in_term_size(*t1, x, s);
            lemma_ty_subst_in_term_size(*t2, x, s);
        },
        STerm::BinOp(_, a, b) => {
            lemma_ty_subst_in_term_size(*a, x, s);
            lemma_ty_subst_in_term_size(*b, x, s);
        },
        STerm::Let(_, e1, e2) => {
            lemma_ty_subst_in_term_size(*e1, x, s);
            lemma_ty_subst_in_term_size(*e2, x, s);
        },
        _ => {},
    }
}

/// Substitutes the type `s` for the type variable `x` in the types of `t`
/// (the reduction of a type application).
pub fn ty_subst_in_term(t: &Term, x: &str, s: &Type) -> (r: Term)
    ensures
        r@ == spec_ty_subst_in_term(t@, x@, s@),
{
    let xs = String::from_str(x);
    ty_subst_in_term_name(t, &xs, s)
}

fn ty_subst_in_term_name(t: &Term, x: &String, s: &Type) -> (r: Term)
    ensures
        r@ == spec_ty_subst_in_term(t@, x@, s@),
    decreases term_size(t@),
{
    match t {
        Term::Var(_) | Term::IntLit(_) | Term::BoolLit(_) => t.duplicate(),
        Term::Abs(y, ty, body) => Term::Abs(
            y.clone(),
            type_subst_name(ty, x, s),
            Box::new(ty_subst_in_term_name(body, x, s)),
        ),
        Term::App(f, a) => Term::App(
            Box::new(ty_subst_in_term_name(f, x, s)),
            Box::new(ty_subst_in_term_name(a, x, s)),
        ),
        Term::TyAbs(y, body) => {
            if *y == *x {
                t.duplicate()
            } else {
                let fv_s = free_type_vars(s);
                if contains_name(&fv_s, y) {
                    let mut avoid = fv_s;
                    extend_names(&mut avoid, &free_type_vars_in_term(body));
                    insert_name(&mut avoid, x);
                    assert(name_set(avoid@) =~= ftv(s@).union(ftv_term(body@)).insert(x@));
                    let new_y = fresh_name(y, &avoid);
                    let var = Type::Var(new_y.clone());
                    proof {
                        lemma_ty_subst_in_term_size(body@, y@, var@);
                    }
                    let renamed = ty_subst_in_term_name(body, y, &var);
                    let b = ty_subst_in_term_name(&renamed, x, s);
                    Term::TyAbs(new_y, Box::new(b))
                } else {
                    Term::TyAbs(y.clone(), Box::new(ty_subst_in_term_name(body, x, s)))
                }
            }
        },
        Term::TyApp(f, ty) => Term::TyApp(
            Box::new(ty_subst_in_term_name(f, x, s)),
            type_subst_name(ty, x, s),
        ),
        Term::If(c, t1, t2) => Term::If(
            Box::new(ty_subst_in_term_name(c, x, s)),
            Box::new(ty_subst_in_term_name(t1, x, s)),
            Box::new(ty_subst_in_term_name(t2, x, s)),
        ),
        Term::BinOp(op, a, b) => Term::BinOp(
            *op,
            Box::new(ty_subst_in_term_name(a, x, s)),
            Box::new(ty_subst_in_term_name(b, x, s)),
        ),
        Term::Let(y, e1, e2) => Term::Let(
            y.clone(),
            Box::new(ty_subst_in_term_name(e1, x, s)),
            Box::new(ty_subst_in_term_name(e2, x, s)),
        ),
    }
}

// ===== well-formed types =====

/// `Ok` when every free type variable of `t` is in scope; otherwise the
/// first unbound one, left to right.
pub open spec fn spec_wf(t: SType, types: Set<Seq<char>>) -> Result<(), SError>
    decreases t,
{
    match t {
        SType::Var(x) => if types.contains(x) {
            Ok(())
        } else {
            Err(SError::UnboundTypeVariable(x))
        },
        SType::Arrow(a, b) => match spec_wf(*a, types) {
            Ok(_) => spec_wf(*b, types),
            Err(e) => Err(e),
        },
        SType::ForAll(x, b) => spec_wf(*b, types.insert(x)),
        _ => Ok(()),
    }
}

fn check_type_wellformed(t: &Type, types: &Vec<String>) -> (r: Result<(), TypeError>)
    ensures
        match r {
            Ok(_) => spec_wf(t@, name_set(types@)) == Ok::<(), SError>(()),
            Err(e) => spec_wf(t@, name_set(types@)) == Err::<(), SError>(e@),
        },
    decreases t,
{
    match t {
        Type::Bool | Type::Int => Ok(()),
        Type::Var(x) => {
            if contains_name(types, x) {
                Ok(())
            } else {
                Err(TypeError::UnboundTypeVariable(x.clone()))
            }
        },
        Type::Arrow(a, b) => {
            check_type_wellformed(a, types)?;
            check_type_wellformed(b, types)
        },
        Type::ForAll(x, body) => {
            let mut types2 = copy_names(types);
            insert_name(&mut types2, x);
            check_type_wellformed(body, &types2)
        },
    }
}

// ===== type checking =====

/// How an error message names the term that had the wrong type.
pub open spec fn describe(t: STerm) -> Seq<char> {
    match t {
        STerm::Var(x) => "variable `"@ + x + "`"@,
        STerm::IntLit(n) => "integer literal `"@ + dec_int(n as int) + "`"@,
        STerm::BoolLit(b) => "boolean literal `"@ + bool_text(b) + "`"@,
        STerm::Abs(x, _, _) => "abstraction over `"@ + x + "`"@,
        STerm::App(_, _) => "application"@,
        STerm::TyAbs(x, _) => "type abstraction over `"@ + x + "`"@,
        STerm::TyApp(_, _) => "type application"@,
        STerm::If(_, _, _) => "if-expression"@,
        STerm::Let(x, _, _) => "let-binding of `"@ + x + "`"@,
        STerm::BinOp(op, _, _) => "`"@ + op_symbol(op) + "` operator"@,
    }
}

fn quoted(pre: &str, x: &str) -> (s: String)
    ensures
        s@ == pre@ + x@ + "`"@,
{
    let mut s = String::from_str(pre);
    s.append(x);
    s.append("`");
    s
}

fn describe_exec(t: &Term) -> (s: String)
    ensures
        s@ == describe(t@),
{
    match t {
        Term::Var(x) => quoted("variable `", x.as_str()),
        Term::IntLit(n) => {
            let d = decimal_i64(*n);
            quoted("integer literal `", d.as_str())
        },
        Term::BoolLit(b) => quoted(
            "boolean literal `",
            if *b {
                "true"
            } else {
                "false"
            },
        ),
        Term::Abs(x, _, _) => quoted("abstraction over `", x.as_str()),
        Term::App(_, _) => String::from_str("application"),
        Term::TyAbs(x, _) => quoted("type abstraction over `", x.as_str()),
        Term::TyApp(_, _) => String::from_str("type application"),
        Term::If(_, _, _) => String::from_str("if-expression"),
        Term::Let(x, _, _) => quoted("let-binding of `", x.as_str()),
        Term::BinOp(op, _, _) => {
            let mut s = String::from_str("`");
            s.append(op.symbol());
            s.append("` operator");
            s
        },
    }
}

/// The result type of a binary operator.
pub open spec fn op_result(op: BinOp) -> SType {
    match op {
        BinOp::Add | BinOp::Sub | BinOp::Mul => SType::Int,
        BinOp::Eq | BinOp::Lt => SType::Bool,
    }
}

/// The free type variables of the types of the term variables in scope.
pub open spec fn ctx_ftv(vals: Map<Seq<char>, SType>) -> Set<Seq<char>> {
    Set::new(
        |v: Seq<char>| exists|k: Seq<char>| vals.contains_key(k) && #[trigger] ftv(vals[k]).contains(v),
    )
}

/// The type of `t` given the types of its free variables and the type
/// variables in scope, or the first error met, left to right. A type
/// abstraction over a name free in the types of the variables in scope is
/// first renamed to a fresh name, so that it captures none of them.
pub open spec fn spec_infer(t: STerm, vals: Map<Seq<char>, SType>, tys: Set<Seq<char>>) -> Result<
    SType,
    SError,
>
    decreases term_size(t), 1nat,
{
    match t {
        STerm::Var(x) => if vals.contains_key(x) {
            Ok(vals[x])
        } else {
            Err(SError::UnboundVariable(x))
        },
        STerm::IntLit(_) => Ok(SType::Int),
        STerm::BoolLit(_) => Ok(SType::Bool),
        STerm::Abs(x, ty, body) => match spec_wf(ty, tys) {
            Ok(_) => match spec_infer(*body, vals.insert(x, ty), tys) {
                Ok(bt) => Ok(SType::Arrow(Box::new(ty), Box::new(bt))),
                Err(e) => Err(e),
            },
            Err(e) => Err(e),
        },
        STerm::App(f, a) => match spec_infer(*f, vals, tys) {
            Ok(SType::Arrow(param, ret)) => match spec_check(*a, *param, vals, tys) {
                Ok(_) => Ok(*ret),
                Err(e) => Err(e),
            },
            Ok(other) => Err(SError::NotAFunction { found: other }),
            Err(e) => Err(e),
        },
        STerm::TyAbs(x, body) => if ctx_ftv(vals).contains(x) {
            let y = fresh_name_spec(x, ctx_ftv(vals).union(tys).union(ftv_term(*body)));
            proof {
                lemma_ty_subst_in_term_size(*body, x, SType::Var(y));
            }
            match spec_infer(spec_ty_subst_in_term(*body, x, SType::Var(y)), vals, tys.insert(y)) {
                Ok(bt) => Ok(SType::ForAll(y, Box::new(bt))),
                Err(e) => Err(e),
            }
        } else {
            match spec_infer(*body, vals, tys.insert(x)) {
                Ok(bt) => Ok(SType::ForAll(x, Box::new(bt))),
                Err(e) => Err(e),
            }
        },
        STerm::TyApp(f, ty_arg) => match spec_wf(ty_arg, tys) {
            Ok(_) => match spec_infer(*f, vals, tys) {
                Ok(SType::ForAll(x, body)) => Ok(spec_type_subst(*body, x, ty_arg)),
                Ok(other) => Err(SError::NotPolymorphic { found: other }),
                Err(e) => Err(e),
            },
            Err(e) => Err(e),
        },
        STerm::If(c, t1, t2) => match spec_check(*c, SType::Bool, vals, tys) {
            Ok(_) => match spec_infer(*t1, vals, tys) {
                Ok(ty) => match spec_check(*t2, ty, vals, tys) {
                    Ok(_) => Ok(ty),
                    Err(e) => Err(e),
                },
                Err(e) => Err(e),
            },
            Err(e) => Err(e),
        },
        STerm::BinOp(op, a, b) => match spec_check(*a, SType::Int, vals, tys) {
            Ok(_) => match spec_check(*b, SType::Int, vals, tys) {
                Ok(_) => Ok(op_result(op)),
                Err(e) => Err(e),
            },
            Err(e) => Err(e),
        },
        STerm::Let(x, e1, e2) => match spec_infer(*e1, vals, tys) {
            Ok(t1) => spec_infer(*e2, vals.insert(x, t1), tys),
            Err(e) => Err(e),
        },
    }
}

/// Operators take integers: `+`, `-` and `*` give an integer, `==` and
/// `<` a boolean; an operator is well typed exactly when both operands are
/// integers.
pub proof fn lemma_infer_operator(
    op: BinOp,
    a: STerm,
    b: STerm,
    vals: Map<Seq<char>, SType>,
    tys: Set<Seq<char>>,
)
    ensures
        spec_infer(STerm::BinOp(op, Box::new(a), Box::new(b)), vals, tys) is Ok <==> spec_check(
            a,
            SType::Int,
            vals,
            tys,
        ) is Ok && spec_check(b, SType::Int, vals, tys) is Ok,
        spec_infer(STerm::BinOp(op, Box::new(a), Box::new(b)), vals, tys) is Ok ==> spec_infer(
            STerm::BinOp(op, Box::new(a), Box::new(b)),
            vals,
            tys,
        ) == Ok::<SType, SError>(
            if op is Eq || op is Lt {
                SType::Bool
            } else {
                SType::Int
            },
        ),
{
}

/// The typing rules of System F for literals, variables, abstractions,
/// type applications and `let`: literals have their base types, a variable
/// the type in scope, an abstraction over a well-formed parameter type the
/// arrow to the type of its body, the instance of a `∀`-type at a type
/// argument its body with the argument substituted for the bound variable,
/// and a `let` the type of its body with the bound variable given the type
/// of its definition.
pub proof fn lemma_typing_rules(t: STerm, vals: Map<Seq<char>, SType>, tys: Set<Seq<char>>)
    ensures
        t is IntLit ==> spec_infer(t, vals, tys) == Ok::<SType, SError>(SType::Int),
        t is BoolLit ==> spec_infer(t, vals, tys) == Ok::<SType, SError>(SType::Bool),
        t matches STerm::Var(x) ==> (spec_infer(t, vals, tys) is Ok <==> vals.contains_key(x)),
        t matches STerm::Var(x) ==> (vals.contains_key(x) ==> spec_infer(t, vals, tys) == Ok::<
            SType,
            SError,
        >(vals[x])),
        t matches STerm::Abs(x, ty, body) ==> (spec_wf(ty, tys) is Ok && spec_infer(
            *body,
            vals.insert(x, ty),
            tys,
        ) is Ok ==> spec_infer(t, vals, tys) == Ok::<SType, SError>(
            SType::Arrow(Box::new(ty), Box::new(spec_infer(*body, vals.insert(x, ty), tys)->Ok_0)),
        )),
        t matches STerm::TyApp(f, arg) ==> (spec_wf(arg, tys) is Ok ==> (spec_infer(*f, vals, tys) matches Ok(
            SType::ForAll(y, body),
        ) ==> spec_infer(t, vals, tys) == Ok::<SType, SError>(spec_type_subst(*body, y, arg)))),
        t matches STerm::Let(x, e1, e2) ==> (spec_infer(*e1, vals, tys) is Ok ==> spec_infer(t, vals, tys)
            == spec_infer(*e2, vals.insert(x, spec_infer(*e1, vals, tys)->Ok_0), tys)),
{
}

/// A conditional is well typed exactly when its condition is a boolean and
/// its branches have equal types (up to bound names); its type is that of
/// the first branch.
pub proof fn lemma_typing_if(c: STerm, t1: STerm, t2: STerm, vals: Map<Seq<char>, SType>, tys: Set<Seq<char>>)
    ensures
        spec_infer(STerm::If(Box::new(c), Box::new(t1), Box::new(t2)), vals, tys) is Ok <==> (spec_infer(
            c,
            vals,
            tys,
        ) is Ok && spec_type_eq(spec_infer(c, vals, tys)->Ok_0, SType::Bool) && spec_infer(t1, vals, tys)
            is Ok && spec_infer(t2, vals, tys) is Ok && spec_type_eq(
            spec_infer(t2, vals, tys)->Ok_0,
            spec_infer(t1, vals, tys)->Ok_0,
        )),
        spec_infer(STerm::If(Box::new(c), Box::new(t1), Box::new(t2)), vals, tys) is Ok ==> spec_infer(
            STerm::If(Box::new(c), Box::new(t1), Box::new(t2)),
            vals,
            tys,
        ) == spec_infer(t1, vals, tys),
{
    assert(spec_check(c, SType::Bool, vals, tys) is Ok <==> (spec_infer(c, vals, tys) is Ok && spec_type_eq(
        spec_infer(c, vals, tys)->Ok_0,
        SType::Bool,
    )));
    if spec_infer(t1, vals, tys) is Ok {
        let ty = spec_infer(t1, vals, tys)->Ok_0;
        assert(spec_check(t2, ty, vals, tys) is Ok <==> (spec_infer(t2, vals, tys) is Ok && spec_type_eq(
            spec_infer(t2, vals, tys)->Ok_0,
            ty,
        )));
    }
}

/// Checking `t` against `expected`: the inferred type must equal
/// `expected` up to renaming of bound type variables.
pub open spec fn spec_check(
    t: STerm,
    expected: SType,
    vals: Map<Seq<char>, SType>,
    tys: Set<Seq<char>>,
) -> Result<(), SError>
    decreases term_size(t), 2nat,
{
    match spec_infer(t, vals, tys) {
        Ok(found) => if spec_type_eq(found, expected) {
            Ok(())
        } else {
            Err(SError::TypeMismatch { expected, found, ctx: describe(t) })
        },
        Err(e) => Err(e),
    }
}

/// The free type variables of the types in a map of term variables, each
/// once.
fn values_ftv(m: &NameMap<Type>) -> (r: Vec<String>)
    ensures
        name_set(r@) == ctx_ftv(m@),
        distinct_names(r@),
{
    let mut acc: Vec<String> = Vec::new();
    proof {
        lemma_name_set_empty(acc@);
    }
    let n = m.entries.len();
    let mut j: usize = 0;
    while j < n
        invariant
            j <= n,
            n == m.entries.len(),
            distinct_names(acc@),
            forall|v: Seq<char>| #[trigger] name_set(acc@).contains(v) <==> exists|i: int|
                0 <= i < j && !shadowed(m.entries@, i) && ftv(m.entries@[i].1@).contains(v),
        decreases n - j,
    {
        let mut hidden = false;
        let mut i = j + 1;
        while i < n
            invariant
                j < i <= n,
                n == m.entries.len(),
                hidden <==> exists|k: int| j < k < i && (#[trigger] m.entries@[k]).0@ == m.entries@[j as int].0@,
            decreases n - i,
        {
            if m.entries[i].0 == m.entries[j].0 {
                hidden = true;
            }
            i = i + 1;
        }
        assert(hidden == shadowed(m.entries@, j as int));
        if !hidden {
            let fs = free_type_vars(&m.entries[j].1);
            extend_names(&mut acc, &fs);
        }
        proof {
            assert forall|v: Seq<char>| #[trigger] name_set(acc@).contains(v) <==> exists|i: int|
                0 <= i < j + 1 && !shadowed(m.entries@, i) && ftv(m.entries@[i].1@).contains(v) by {
                if exists|i: int|
                    0 <= i < j + 1 && !shadowed(m.entries@, i) && ftv(m.entries@[i].1@).contains(v) {
                    let i = choose|i: int|
                        0 <= i < j + 1 && !shadowed(m.entries@, i) && ftv(m.entries@[i].1@).contains(v);
                    if i < j {
                    }
                }
            }
        }
        j = j + 1;
    }
    proof {
        let s = m.entries@;
        assert forall|v: Seq<char>| name_set(acc@).contains(v) <==> ctx_ftv(m@).contains(v) by {
            if name_set(acc@).contains(v) {
                let i = choose|i: int| 0 <= i < n && !shadowed(s, i) && ftv(s[i].1@).contains(v);
                lemma_bindings_live(s, s[i].0@);
                assert(m@.contains_key(s[i].0@));
                assert(ftv(m@[s[i].0@]).contains(v));
            }
            if ctx_ftv(m@).contains(v) {
                let k = choose|k: Seq<char>| m@.contains_key(k) && #[trigger] ftv(m@[k]).contains(v);
                lemma_bindings_live(s, k);
                let i = choose|i: int| 0 <= i < s.len() && (#[trigger] s[i]).0@ == k && !shadowed(s, i);
                assert(ftv(s[i].1@).contains(v));
            }
        }
        assert(name_set(acc@) =~= ctx_ftv(m@));
    }
    acc
}

fn copy_ctx(ctx: &Ctx) -> (r: Ctx)
    ensures
        r.values@ == ctx.values@,
        name_set(r.types@) == name_set(ctx.types@),
{
    Ctx { values: ctx.values.dup_map(), types: copy_names(&ctx.types) }
}

/// Infers the type of `t` in `ctx`.
pub fn infer(t: &Term, ctx: &Ctx) -> (r: Result<Type, TypeError>)
    ensures
        match r {
            Ok(ty) => spec_infer(t@, ctx.values@, name_set(ctx.types@)) == Ok::<SType, SError>(
                ty@,
            ),
            Err(e) => spec_infer(t@, ctx.values@, name_set(ctx.types@)) == Err::<SType, SError>(
                e@,
            ),
        },
    decreases term_size(t@), 1nat,
{
    match t {
        Term::Var(x) => match ctx.values.get(x) {
            Some(ty) => Ok(ty.duplicate()),
            None => Err(TypeError::UnboundVariable(x.clone())),
        },
        Term::IntLit(_) => Ok(Type::Int),
        Term::BoolLit(_) => Ok(Type::Bool),
        Term::Abs(x, ty, body) => {
            check_type_wellformed(ty, &ctx.types)?;
            let mut ctx2 = copy_ctx(ctx);
            ctx2.values.insert(x.clone(), ty.duplicate());
            let body_ty = infer(body, &ctx2)?;
            Ok(Type::arrow(ty.duplicate(), body_ty))
        },
        Term::App(f, a) => {
            let fty = infer(f, ctx)?;
            match fty {
                Type::Arrow(param, ret) => {
                    check(a, &param, ctx)?;
                    Ok(*ret)
                },
                other => Err(TypeError::NotAFunction { found: other }),
            }
        },
        Term::TyAbs(x, body) => {
            let in_scope = values_ftv(&ctx.values);
            if contains_name(&in_scope, x) {
                let mut avoid = in_scope;
                extend_names(&mut avoid, &ctx.types);
                extend_names(&mut avoid, &free_type_vars_in_term(body));
                assert(name_set(avoid@) =~= ctx_ftv(ctx.values@).union(name_set(ctx.types@)).union(
                    ftv_term(body@),
                ));
                let y = fresh_name(x, &avoid);
                let var = Type::Var(y.clone());
                proof {
                    lemma_ty_subst_in_term_size(body@, x@, var@);
                }
                let renamed = ty_subst_in_term_name(body, x, &var);
                let mut ctx2 = copy_ctx(ctx);
                insert_name(&mut ctx2.types, &y);
                let body_ty = infer(&renamed, &ctx2)?;
                Ok(Type::ForAll(y, Box::new(body_ty)))
            } else {
                let mut ctx2 = copy_ctx(ctx);
                insert_name(&mut ctx2.types, x);
                let body_ty = infer(body, &ctx2)?;
                Ok(Type::ForAll(x.clone(), Box::new(body_ty)))
            }
        },
        Term::TyApp(f, ty_arg) => {
            check_type_wellformed(ty_arg, &ctx.types)?;
            let fty = infer(f, ctx)?;
            match fty {
                Type::ForAll(x, body) => Ok(type_subst_name(&body, &x, ty_arg)),
                other => Err(TypeError::NotPolymorphic { found: other }),
            }
        },
        Term::If(c, t1, t2) => {
            check(c, &Type::Bool, ctx)?;
            let ty = infer(t1, ctx)?;
            check(t2, &ty, ctx)?;
            Ok(ty)
        },
        Term::BinOp(op, a, b) => {
            check(a, &Type::Int, ctx)?;
            check(b, &Type::Int, ctx)?;
            Ok(
                match op {
                    BinOp::Add | BinOp::Sub | BinOp::Mul => Type::Int,
                    BinOp::Eq | BinOp::Lt => Type::Bool,
                },
            )
        },
        Term::Let(x, e1, e2) => {
            let t1 = infer(e1, ctx)?;
            let mut ctx2 = copy_ctx(ctx);
            ctx2.values.insert(x.clone(), t1);
            infer(e2, &ctx2)
        },
    }
}

/// Checks `t` against `expected`: `Ok` exactly when the inferred type is
/// `expected` up to renaming of bound type variables.
pub fn check(t: &Term, expected: &Type, ctx: &Ctx) -> (r: Result<(), TypeError>)
    ensures
        match r {
            Ok(_) => spec_check(t@, expected@, ctx.values@, name_set(ctx.types@)) == Ok::<
                (),
                SError,
            >(()),
            Err(e) => spec_check(t@, expected@, ctx.values@, name_set(ctx.types@)) == Err::<
                (),
                SError,
            >(e@),
        },
    decreases term_size(t@), 2nat,
{
    let found = infer(t, ctx)?;
    if type_eq(&found, expected) {
        Ok(())
    } else {
        Err(TypeError::TypeMismatch { expected: expected.duplicate(), found, ctx: describe_exec(t) })
    }
}

/// The type of a closed term.
pub fn type_of(t: &Term) -> (r: Result<Type, TypeError>)
    ensures
        match r {
            Ok(ty) => spec_infer(t@, Map::empty(), Set::empty()) == Ok::<SType, SError>(ty@),
            Err(e) => spec_infer(t@, Map::empty(), Set::empty()) == Err::<SType, SError>(e@),
        },
{
    infer(t, &Ctx::default())
}

} // verus!
