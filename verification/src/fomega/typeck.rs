//! Type and kind checking for System Fω. Types are checked against kinds;
//! terms against types, where types are equal when their β-normal forms are
//! equal up to the renaming of bound type variables.

use vstd::prelude::*;

use crate::fomega::ast::{
    show_kind, show_type, term_size, type_size, BinOp, Kind, STerm, SType, Term, Type,
};
use crate::fomega::termination::{ctx_wf, lemma_infer_total, lemma_kinded_normalizes};
use crate::names::{
    contains_name, distinct_names, extend_names, fresh_name, fresh_name_spec, insert_name,
    lemma_bindings_finite, lemma_bindings_live, lemma_name_set_empty, name_set, remove_name, lemma_fresh_name_fresh, shadowed, Dup, NameMap,
};

verus! {

impl Dup for Type {
    fn dup(&self) -> (r: Type) {
        self.duplicate()
    }
}

impl Dup for Kind {
    fn dup(&self) -> (r: Kind) {
        self.duplicate()
    }
}

#[derive(Debug)]
pub enum TypeError {
    UnboundVariable(String),
    UnboundTypeVariable(String),
    TypeMismatch { expected: Type, found: Type },
    KindMismatch { expected: Kind, found: Kind },
    NotAFunction { found: Type },
    NotPolymorphic { found: Type },
    NotATypeOperator { found: Kind },
}

pub enum SError {
    UnboundVariable(Seq<char>),
    UnboundTypeVariable(Seq<char>),
    TypeMismatch { expected: SType, found: SType },
    KindMismatch { expected: Kind, found: Kind },
    NotAFunction { found: SType },
    NotPolymorphic { found: SType },
    NotATypeOperator { found: Kind },
}

impl View for TypeError {
    type V = SError;

    open spec fn view(&self) -> SError {
        match self {
            TypeError::UnboundVariable(x) => SError::UnboundVariable(x@),
            TypeError::UnboundTypeVariable(x) => SError::UnboundTypeVariable(x@),
            TypeError::TypeMismatch { expected, found } => SError::TypeMismatch {
                expected: expected@,
                found: found@,
            },
            TypeError::KindMismatch { expected, found } => SError::KindMismatch {
                expected: *expected,
                found: *found,
            },
            TypeError::NotAFunction { found } => SError::NotAFunction { found: found@ },
            TypeError::NotPolymorphic { found } => SError::NotPolymorphic { found: found@ },
            TypeError::NotATypeOperator { found } => SError::NotATypeOperator { found: *found },
        }
    }
}

/// The message of a type error.
pub open spec fn error_text(e: SError) -> Seq<char> {
    match e {
        SError::UnboundVariable(x) => "unbound variable: "@ + x,
        SError::UnboundTypeVariable(x) => "unbound type variable: "@ + x,
        SError::TypeMismatch { expected, found } => "type mismatch: expected "@ + show_type(
            expected,
            0,
        ) + ", found "@ + show_type(found, 0),
        SError::KindMismatch { expected, found } => "kind mismatch: expected "@ + show_kind(
            expected,
            0,
        ) + ", found "@ + show_kind(found, 0),
        SError::NotAFunction { found } => "expected a function, found value of type "@
            + show_type(found, 0),
        SError::NotPolymorphic { found } => "type application requires a ∀-type, found "@
            + show_type(found, 0),
        SError::NotATypeOperator { found } => "expected a type operator (kind κ -> κ'), found kind "@
            + show_kind(found, 0),
    }
}

impl TypeError {
    /// The message, e.g. `kind mismatch: expected * -> *, found *`.
    pub fn to_string(&self) -> (s: String)
        ensures
            s@ == error_text(self@),
    {
        match self {
            TypeError::UnboundVariable(x) => {
                let mut s = String::from_str("unbound variable: ");
                s.append(x.as_str());
                s
            },
            TypeError::UnboundTypeVariable(x) => {
                let mut s = String::from_str("unbound type variable: ");
                s.append(x.as_str());
                s
            },
            TypeError::TypeMismatch { expected, found } => {
                let mut s = String::from_str("type mismatch: expected ");
                expected.write_prec(&mut s, 0);
                s.append(", found ");
                found.write_prec(&mut s, 0);
                s
            },
            TypeError::KindMismatch { expected, found } => {
                let mut s = String::from_str("kind mismatch: expected ");
                expected.write_prec(&mut s, 0);
                s.append(", found ");
                found.write_prec(&mut s, 0);
                s
            },
            TypeError::NotAFunction { found } => {
                let mut s = String::from_str("expected a function, found value of type ");
                found.write_prec(&mut s, 0);
                s
            },
            TypeError::NotPolymorphic { found } => {
                let mut s = String::from_str("type application requires a ∀-type, found ");
                found.write_prec(&mut s, 0);
                s
            },
            TypeError::NotATypeOperator { found } => {
                let mut s = String::from_str(
                    "expected a type operator (kind κ -> κ'), found kind ",
                );
                found.write_prec(&mut s, 0);
                s
            },
        }
    }
}

/// A typing context: term variables with their types, type variables with
/// their kinds.
pub struct Ctx {
    pub values: NameMap<Type>,
    pub kinds: NameMap<Kind>,
}

impl Default for Ctx {
    /// The empty context.
    fn default() -> (c: Ctx)
        ensures
            c.values@ == Map::<Seq<char>, SType>::empty(),
            c.kinds@ == Map::<Seq<char>, Kind>::empty(),
    {
        Ctx { values: NameMap::new(), kinds: NameMap::new() }
    }
}

/// The free type variables of the types in a map of term variables, each
/// once.
fn values_ftv(m: &NameMap<Type>) -> (r: Vec<String>)
    ensures
        name_set(r@) == ctx_ftv(m@),
        distinct_names(r@),
{
    let mut acc: Vec<String> = Vec::new();
    proof {
        lemma_name_set_empty(acc@);
    }
    let n = m.entries.len();
    let mut j: usize = 0;
    while j < n
        invariant
            j <= n,
            n == m.entries.len(),
            distinct_names(acc@),
            forall|v: Seq<char>| #[trigger] name_set(acc@).contains(v) <==> exists|i: int|
                0 <= i < j && !shadowed(m.entries@, i) && type_vars(m.entries@[i].1@).contains(v),
        decreases n - j,
    {
        let mut hidden = false;
        let mut i = j + 1;
        while i < n
            invariant
                j < i <= n,
                n == m.entries.len(),
                hidden <==> exists|k: int| j < k < i && (#[trigger] m.entries@[k]).0@ == m.entries@[j as int].0@,
            decreases n - i,
        {
            if m.entries[i].0 == m.entries[j].0 {
                hidden = true;
            }
            i = i + 1;
        }
        assert(hidden == shadowed(m.entries@, j as int));
        if !hidden {
            let fs = ftv(&m.entries[j].1);
            extend_names(&mut acc, &fs);
        }
        proof {
            assert forall|v: Seq<char>| #[trigger] name_set(acc@).contains(v) <==> exists|i: int|
                0 <= i < j + 1 && !shadowed(m.entries@, i) && type_vars(m.entries@[i].1@).contains(v) by {
                if exists|i: int|
                    0 <= i < j + 1 && !shadowed(m.entries@, i) && type_vars(m.entries@[i].1@).contains(v) {
                    let i = choose|i: int|
                        0 <= i < j + 1 && !shadowed(m.entries@, i) && type_vars(m.entries@[i].1@).contains(v);
                    if i < j {
                    }
                }
            }
        }
        j = j + 1;
    }
    proof {
        let s = m.entries@;
        assert forall|v: Seq<char>| name_set(acc@).contains(v) <==> ctx_ftv(m@).contains(v) by {
            if name_set(acc@).contains(v) {
                let i = choose|i: int| 0 <= i < n && !shadowed(s, i) && type_vars(s[i].1@).contains(v);
                lemma_bindings_live(s, s[i].0@);
                assert(m@.contains_key(s[i].0@));
                assert(type_vars(m@[s[i].0@]).contains(v));
            }
            if ctx_ftv(m@).contains(v) {
                let k = choose|k: Seq<char>| m@.contains_key(k) && #[trigger] type_vars(m@[k]).contains(v);
                lemma_bindings_live(s, k);
                let i = choose|i: int| 0 <= i < s.len() && (#[trigger] s[i]).0@ == k && !shadowed(s, i);
                assert(type_vars(s[i].1@).contains(v));
            }
        }
        assert(name_set(acc@) =~= ctx_ftv(m@));
    }
    acc
}

fn copy_ctx(ctx: &Ctx) -> (r: Ctx)
    ensures
        r.values@ == ctx.values@,
        r.kinds@ == ctx.kinds@,
{
    Ctx { values: ctx.values.dup_map(), kinds: ctx.kinds.dup_map() }
}

// ===== free type variables =====

pub open spec fn type_vars(t: SType) -> Set<Seq<char>>
    decreases t,
{
    match t {
        SType::Var(x) => set![x],
        SType::Arrow(a, b) => type_vars(*a).union(type_vars(*b)),
        SType::App(a, b) => type_vars(*a).union(type_vars(*b)),
        SType::ForAll(x, _, b) => type_vars(*b).remove(x),
        SType::Abs(x, _, b) => type_vars(*b).remove(x),
        _ => Set::empty(),
    }
}

/// The free type variables of `t`, each once.
pub fn ftv(t: &Type) -> (r: Vec<String>)
    ensures
        name_set(r@) == type_vars(t@),
        distinct_names(r@),
{
    let mut acc: Vec<String> = Vec::new();
    proof {
        lemma_name_set_empty(acc@);
    }
    collect_ftv(t, &mut acc);
    assert(name_set(acc@) =~= type_vars(t@));
    acc
}

fn collect_bound_ftv(x: &String, body: &Type, acc: &mut Vec<String>)
    ensures
        name_set(final(acc)@) == name_set(old(acc)@).union(type_vars(body@).remove(x@)),
        distinct_names(old(acc)@) ==> distinct_names(final(acc)@),
    decreases body, 2nat,
{
    let mut inner: Vec<String> = Vec::new();
    proof {
        lemma_name_set_empty(inner@);
    }
    collect_ftv(body, &mut inner);
    assert(name_set(inner@) =~= type_vars(body@));
    let inner2 = remove_name(&inner, x);
    extend_names(acc, &inner2);
}

fn collect_ftv(t: &Type, acc: &mut Vec<String>)
    ensures
        name_set(final(acc)@) == name_set(old(acc)@).union(type_vars(t@)),
        distinct_names(old(acc)@) ==> distinct_names(final(acc)@),
    decreases t, 1nat,
{
    match t {
        Type::Var(x) => {
            insert_name(acc, x);
        },
        Type::Bool | Type::Int => {},
        Type::Arrow(a, b) | Type::App(a, b) => {
            collect_ftv(a, acc);
            collect_ftv(b, acc);
        },
        Type::ForAll(x, _, b) | Type::Abs(x, _, b) => {
            collect_bound_ftv(x, b, acc);
        },
    }
    assert(name_set(acc@) =~= name_set(old(acc)@).union(type_vars(t@)));
}

// ===== substitution on types =====

/// Capture-avoiding substitution `[s/x] t` on types.
pub open spec fn spec_type_subst(t: SType, x: Seq<char>, s: SType) -> SType
    decreases type_size(t), 1nat,
{
    match t {
        SType::Var(y) => if y == x {
            s
        } else {
            t
        },
        SType::Arrow(a, b) => SType::Arrow(
            Box::new(spec_type_subst(*a, x, s)),
            Box::new(spec_type_subst(*b, x, s)),
        ),
        SType::App(a, b) => SType::App(
            Box::new(spec_type_subst(*a, x, s)),
            Box::new(spec_type_subst(*b, x, s)),
        ),
        SType::ForAll(y, k, body) => {
            let (y2, b2) = subst_binder(y, *body, x, s);
            SType::ForAll(y2, k, Box::new(b2))
        },
        SType::Abs(y, k, body) => {
            let (y2, b2) = subst_binder(y, *body, x, s);
            SType::Abs(y2, k, Box::new(b2))
        },
        _ => t,
    }
}

/// Substitution under a type binder `y`: nothing when `y` is `x`;
/// otherwise, if `y` is free in `s`, it is first renamed to the fresh name
/// avoiding the free type variables of `s`, of the body and `x`.
pub open spec fn subst_binder(y: Seq<char>, body: SType, x: Seq<char>, s: SType) -> (
    Seq<char>,
    SType,
)
    decreases type_size(body), 2nat,
{
    if y == x {
        (y, body)
    } else if type_vars(s).contains(y) {
        let z = fresh_name_spec(y, type_vars(s).union(type_vars(body)).insert(x));
        let renamed = spec_type_subst(body, y, SType::Var(z));
        if type_size(renamed) <= type_size(body) {
            (z, spec_type_subst(renamed, x, s))
        } else {
            (y, body)
        }
    } else {
        (y, spec_type_subst(body, x, s))
    }
}

pub proof fn lemma_type_subst_var_size(t: SType, x: Seq<char>, z: Seq<char>)
    ensures
        type_size(spec_type_subst(t, x, SType::Var(z))) == type_size(t),
    decreases type_size(t), 1nat,
{
    match t {
        SType::Arrow(a, b) | SType::App(a, b) => {
            lemma_type_subst_var_size(*a, x, z);
            lemma_type_subst_var_size(*b, x, z);
        },
        SType::ForAll(y, _, body) | SType::Abs(y, _, body) => {
            lemma_binder_var_size(y, *body, x, z);
        },
        _ => {},
    }
}

pub proof fn lemma_binder_var_size(y: Seq<char>, body: SType, x: Seq<char>, z: Seq<char>)
    ensures
        type_size(subst_binder(y, body, x, SType::Var(z)).1) == type_size(body),
    decreases type_size(body), 2nat,
{
    let s = SType::Var(z);
    if y == x {
    } else if type_vars(s).contains(y) {
        let w = fresh_name_spec(y, type_vars(s).union(type_vars(body)).insert(x));
        lemma_type_subst_var_size(body, y, w);
        let renamed = spec_type_subst(body, y, SType::Var(w));
        lemma_type_subst_var_size(renamed, x, z);
    } else {
        lemma_type_subst_var_size(body, x, z);
    }
}

pub proof fn lemma_type_vars_finite(t: SType)
    ensures
        type_vars(t).finite(),
    decreases t,
{
    match t {
        SType::Arrow(a, b) | SType::App(a, b) => {
            lemma_type_vars_finite(*a);
            lemma_type_vars_finite(*b);
        },
        SType::ForAll(_, _, b) | SType::Abs(_, _, b) => {
            lemma_type_vars_finite(*b);
        },
        _ => {},
    }
}

/// The free type variables after substituting `s` for `x`: those of `t`
/// without `x`, plus those of `s` where `x` was free.
pub open spec fn subst_ftv(vs: Set<Seq<char>>, x: Seq<char>, s: SType) -> Set<Seq<char>> {
    if vs.contains(x) {
        vs.remove(x).union(type_vars(s))
    } else {
        vs
    }
}

/// Capture-avoiding type substitution: the free type variables of
/// `[s/x] t` are those of `t` without `x`, plus those of `s` where `x` was
/// free; no `∀` or type-level `λ` of `t` captures a variable of `s`.
pub proof fn lemma_ftv_type_subst(t: SType, x: Seq<char>, s: SType)
    ensures
        type_vars(spec_type_subst(t, x, s)) == subst_ftv(type_vars(t), x, s),
    decreases type_size(t), 1nat,
{
    match t {
        SType::Var(y) => {
            if y == x {
                assert(type_vars(t).remove(x) =~= Set::<Seq<char>>::empty());
                assert(type_vars(t).remove(x).union(type_vars(s)) =~= type_vars(s));
            }
        },
        SType::Arrow(a, b) | SType::App(a, b) => {
            lemma_ftv_type_subst(*a, x, s);
            lemma_ftv_type_subst(*b, x, s);
            assert(type_vars(spec_type_subst(t, x, s)) =~= subst_ftv(type_vars(t), x, s));
        },
        SType::ForAll(y, _, body) | SType::Abs(y, _, body) => {
            lemma_ftv_binder(y, *body, x, s);
            assert(type_vars(spec_type_subst(t, x, s)) =~= subst_ftv(type_vars(t), x, s));
        },
        _ => {},
    }
}

proof fn lemma_ftv_binder(y: Seq<char>, body: SType, x: Seq<char>, s: SType)
    ensures
        type_vars(subst_binder(y, body, x, s).1).remove(subst_binder(y, body, x, s).0) == subst_ftv(
            type_vars(body).remove(y),
            x,
            s,
        ),
    decreases type_size(body), 2nat,
{
    if y == x {
        assert(!type_vars(body).remove(y).contains(x));
    } else if type_vars(s).contains(y) {
        let avoid = type_vars(s).union(type_vars(body)).insert(x);
        lemma_type_vars_finite(s);
        lemma_type_vars_finite(body);
        let z = fresh_name_spec(y, avoid);
        lemma_fresh_name_fresh(y, avoid);
        lemma_type_subst_var_size(body, y, z);
        let renamed = spec_type_subst(body, y, SType::Var(z));
        lemma_ftv_type_subst(body, y, SType::Var(z));
        lemma_ftv_type_subst(renamed, x, s);
        assert(type_vars(renamed).contains(x) == type_vars(body).contains(x));
        assert(type_vars(subst_binder(y, body, x, s).1).remove(subst_binder(y, body, x, s).0)
            =~= subst_ftv(type_vars(body).remove(y), x, s));
    } else {
        lemma_ftv_type_subst(body, x, s);
        assert(type_vars(subst_binder(y, body, x, s).1).remove(subst_binder(y, body, x, s).0)
            =~= subst_ftv(type_vars(body).remove(y), x, s));
    }
}

/// Capture-avoiding substitution of `s` for the type variable `x` in `t`.
pub fn type_subst(t: &Type, x: &str, s: &Type) -> (r: Type)
    ensures
        r@ == spec_type_subst(t@, x@, s@),
{
    let xs = String::from_str(x);
    type_subst_name(t, &xs, s)
}

fn type_subst_name(t: &Type, x: &String, s: &Type) -> (r: Type)
    ensures
        r@ == spec_type_subst(t@, x@, s@),
    decreases type_size(t@), 1nat,
{
    match t {
        Type::Bool => Type::Bool,
        Type::Int => Type::Int,
        Type::Var(y) => {
            if *y == *x {
                s.duplicate()
            } else {
                Type::Var(y.clone())
            }
        },
        Type::Arrow(a, b) => Type::Arrow(
            Box::new(type_subst_name(a, x, s)),
            Box::new(type_subst_name(b, x, s)),
        ),
        Type::App(a, b) => Type::App(
            Box::new(type_subst_name(a, x, s)),
            Box::new(type_subst_name(b, x, s)),
        ),
        Type::ForAll(y, k, body) => {
            let (y2, b2) = subst_binder_exec(y, body, x, s);
            Type::ForAll(y2, k.duplicate(), Box::new(b2))
        },
        Type::Abs(y, k, body) => {
            let (y2, b2) = subst_binder_exec(y, body, x, s);
            Type::Abs(y2, k.duplicate(), Box::new(b2))
        },
    }
}

fn subst_binder_exec(y: &String, body: &Type, x: &String, s: &Type) -> (r: (String, Type))
    ensures
        (r.0@, r.1@) == subst_binder(y@, body@, x@, s@),
    decreases type_size(body@), 2nat,
{
    if *y == *x {
        (y.clone(), body.duplicate())
    } else {
        let fv_s = ftv(s);
        if contains_name(&fv_s, y) {
            let mut avoid = fv_s;
            extend_names(&mut avoid, &ftv(body));
            insert_name(&mut avoid, x);
            assert(name_set(avoid@) =~= type_vars(s@).union(type_vars(body@)).insert(x@));
            let new_y = fresh_name(y, &avoid);
            let var = Type::Var(new_y.clone());
            proof {
                lemma_type_subst_var_size(body@, y@, new_y@);
            }
            let renamed = type_subst_name(body, y, &var);
            let b = type_subst_name(&renamed, x, s);
            (new_y, b)
        } else {
            (y.clone(), type_subst_name(body, x, s))
        }
    }
}

// ===== β-normalization of types =====

/// β-normalization of a type within `fuel` nested steps: `None` when the
/// fuel runs out. Operator and argument are normalized first; a β-redex
/// is then reduced by substitution and the result normalized again.
pub open spec fn norm_fuel(t: SType, fuel: nat) -> Option<SType>
    decreases fuel,
{
    if fuel == 0 {
        None
    } else {
        let f = (fuel - 1) as nat;
        match t {
            SType::Arrow(a, b) => match (norm_fuel(*a, f), norm_fuel(*b, f)) {
                (Some(a2), Some(b2)) => Some(SType::Arrow(Box::new(a2), Box::new(b2))),
                _ => None,
            },
            SType::ForAll(x, k, b) => match norm_fuel(*b, f) {
                Some(b2) => Some(SType::ForAll(x, k, Box::new(b2))),
                None => None,
            },
            SType::Abs(x, k, b) => match norm_fuel(*b, f) {
                Some(b2) => Some(SType::Abs(x, k, Box::new(b2))),
                None => None,
            },
            SType::App(g, a) => match (norm_fuel(*g, f), norm_fuel(*a, f)) {
                (Some(g2), Some(a2)) => match g2 {
                    SType::Abs(x, _, body) => norm_fuel(spec_type_subst(*body, x, a2), f),
                    _ => Some(SType::App(Box::new(g2), Box::new(a2))),
                },
                _ => None,
            },
            _ => Some(t),
        }
    }
}

/// Whether normalizing `t` comes to an end.
pub open spec fn normalizes(t: SType) -> bool {
    exists|fuel: nat| #[trigger] norm_fuel(t, fuel) is Some
}

/// The β-normal form of a type that has one.
pub open spec fn spec_normalize(t: SType) -> SType {
    norm_fuel(t, choose|fuel: nat| #[trigger] norm_fuel(t, fuel) is Some).unwrap()
}

/// More fuel gives the same normal form.
pub proof fn lemma_norm_fuel_mono(t: SType, f1: nat, f2: nat)
    requires
        f1 <= f2,
        norm_fuel(t, f1) is Some,
    ensures
        norm_fuel(t, f2) == norm_fuel(t, f1),
    decreases f1,
{
    let g1 = (f1 - 1) as nat;
    let g2 = (f2 - 1) as nat;
    match t {
        SType::Arrow(a, b) => {
            lemma_norm_fuel_mono(*a, g1, g2);
            lemma_norm_fuel_mono(*b, g1, g2);
        },
        SType::ForAll(_, _, b) | SType::Abs(_, _, b) => {
            lemma_norm_fuel_mono(*b, g1, g2);
        },
        SType::App(g, a) => {
            lemma_norm_fuel_mono(*g, g1, g2);
            lemma_norm_fuel_mono(*a, g1, g2);
            let g_n = norm_fuel(*g, g1).unwrap();
            let a_n = norm_fuel(*a, g1).unwrap();
            if let SType::Abs(x, _, body) = g_n {
                lemma_norm_fuel_mono(spec_type_subst(*body, x, a_n), g1, g2);
            }
        },
        _ => {},
    }
}

/// Any fuel that suffices gives the normal form.
pub proof fn lemma_norm_fuel_normalize(t: SType, fuel: nat)
    requires
        norm_fuel(t, fuel) is Some,
    ensures
        normalizes(t),
        norm_fuel(t, fuel) == Some(spec_normalize(t)),
{
    let f = choose|f: nat| #[trigger] norm_fuel(t, f) is Some;
    if f <= fuel {
        lemma_norm_fuel_mono(t, f, fuel);
    } else {
        lemma_norm_fuel_mono(t, fuel, f);
    }
}

fn normalize_fuel(t: &Type, Ghost(fuel): Ghost<nat>) -> (r: Type)
    requires
        norm_fuel(t@, fuel) is Some,
    ensures
        Some(r@) == norm_fuel(t@, fuel),
    decreases fuel,
{
    let ghost f = (fuel - 1) as nat;
    match t {
        Type::Bool | Type::Int | Type::Var(_) => t.duplicate(),
        Type::Arrow(a, b) => Type::Arrow(
            Box::new(normalize_fuel(a, Ghost(f))),
            Box::new(normalize_fuel(b, Ghost(f))),
        ),
        Type::ForAll(x, k, body) => Type::ForAll(
            x.clone(),
            k.duplicate(),
            Box::new(normalize_fuel(body, Ghost(f))),
        ),
        Type::Abs(x, k, body) => Type::Abs(
            x.clone(),
            k.duplicate(),
            Box::new(normalize_fuel(body, Ghost(f))),
        ),
        Type::App(g, a) => {
            let g_n = normalize_fuel(g, Ghost(f));
            let a_n = normalize_fuel(a, Ghost(f));
            match g_n {
                Type::Abs(x, _, body) => {
                    let substituted = type_subst_name(&body, &x, &a_n);
                    normalize_fuel(&substituted, Ghost(f))
                },
                _ => Type::App(Box::new(g_n), Box::new(a_n)),
            }
        },
    }
}

/// The β-normal form of a type; type-level redexes are reduced by
/// capture-avoiding substitution. The type must have a normal form, as
/// every well-kinded type does (`lemma_kinded_normalizes`).
pub fn normalize(t: &Type) -> (r: Type)
    requires
        normalizes(t@),
    ensures
        r@ == spec_normalize(t@),
{
    let ghost fuel = choose|fuel: nat| #[trigger] norm_fuel(t@, fuel) is Some;
    normalize_fuel(t, Ghost(fuel))
}

// ===== α-equivalence =====

/// Equality up to the names of bound type variables (binders must agree on
/// their kinds). The second binder is renamed to the first, unless the
/// first's name is free in the second body, where it would be captured;
/// the types then differ.
pub open spec fn spec_alpha_eq(a: SType, b: SType) -> bool
    decreases type_size(a),
{
    match a {
        SType::Bool => b is Bool,
        SType::Int => b is Int,
        SType::Var(x) => b == SType::Var(x),
        SType::Arrow(a1, a2) => match b {
            SType::Arrow(b1, b2) => spec_alpha_eq(*a1, *b1) && spec_alpha_eq(*a2, *b2),
            _ => false,
        },
        SType::App(a1, a2) => match b {
            SType::App(b1, b2) => spec_alpha_eq(*a1, *b1) && spec_alpha_eq(*a2, *b2),
            _ => false,
        },
        SType::ForAll(x, k1, body1) => match b {
            SType::ForAll(y, k2, body2) => k1 == k2 && (x == y || !type_vars(*body2).contains(x))
                && spec_alpha_eq(*body1, spec_type_subst(*body2, y, SType::Var(x))),
            _ => false,
        },
        SType::Abs(x, k1, body1) => match b {
            SType::Abs(y, k2, body2) => k1 == k2 && (x == y || !type_vars(*body2).contains(x))
                && spec_alpha_eq(*body1, spec_type_subst(*body2, y, SType::Var(x))),
            _ => false,
        },
    }
}

fn alpha_eq(a: &Type, b: &Type) -> (r: bool)
    ensures
        r == spec_alpha_eq(a@, b@),
    decreases type_size(a@),
{
    match (a, b) {
        (Type::Bool, Type::Bool) | (Type::Int, Type::Int) => true,
        (Type::Var(x), Type::Var(y)) => *x == *y,
        (Type::Arrow(a1, b1), Type::Arrow(a2, b2)) | (Type::App(a1, b1), Type::App(a2, b2)) => {
            alpha_eq(a1, a2) && alpha_eq(b1, b2)
        },
        (Type::ForAll(x, k1, body1), Type::ForAll(y, k2, body2)) | (
            Type::Abs(x, k1, body1),
            Type::Abs(y, k2, body2),
        ) => {
            if !k1.same(k2) {
                return false;
            }
            if *x != *y {
                let free = ftv(body2);
                if contains_name(&free, x) {
                    return false;
                }
            }
            let body2_renamed = type_subst_name(body2, y, &Type::Var(x.clone()));
            alpha_eq(body1, &body2_renamed)
        },
        _ => false,
    }
}

/// Type equality: the normal forms are α-equivalent.
pub open spec fn spec_type_eq(a: SType, b: SType) -> bool {
    spec_alpha_eq(spec_normalize(a), spec_normalize(b))
}

/// Whether two types are equal: their β-normal forms agree up to renaming
/// of bound type variables (`lemma_type_eq_alpha`). Both must have normal
/// forms, as every well-kinded type does (`lemma_kinded_normalizes`).
pub fn type_eq(t1: &Type, t2: &Type) -> (r: bool)
    requires
        normalizes(t1@),
        normalizes(t2@),
    ensures
        r == spec_type_eq(t1@, t2@),
{
    alpha_eq(&normalize(t1), &normalize(t2))
}

/// A type without β-redexes.
pub open spec fn is_normal(t: SType) -> bool
    decreases t,
{
    match t {
        SType::Arrow(a, b) => is_normal(*a) && is_normal(*b),
        SType::ForAll(_, _, b) => is_normal(*b),
        SType::Abs(_, _, b) => is_normal(*b),
        SType::App(g, a) => !(*g is Abs) && is_normal(*g) && is_normal(*a),
        _ => true,
    }
}

/// Whatever normalization returns is a normal form.
pub proof fn lemma_norm_fuel_normal(t: SType, fuel: nat)
    ensures
        norm_fuel(t, fuel) matches Some(r) ==> is_normal(r),
    decreases fuel,
{
    if fuel > 0 {
        let f = (fuel - 1) as nat;
        match t {
            SType::Arrow(a, b) => {
                lemma_norm_fuel_normal(*a, f);
                lemma_norm_fuel_normal(*b, f);
            },
            SType::ForAll(_, _, b) | SType::Abs(_, _, b) => {
                lemma_norm_fuel_normal(*b, f);
            },
            SType::App(g, a) => {
                lemma_norm_fuel_normal(*g, f);
                lemma_norm_fuel_normal(*a, f);
                if let (Some(g2), Some(a2)) = (norm_fuel(*g, f), norm_fuel(*a, f)) {
                    if let SType::Abs(x, _, body) = g2 {
                        lemma_norm_fuel_normal(spec_type_subst(*body, x, a2), f);
                    }
                }
            },
            _ => {},
        }
    }
}

/// A normal form is its own normalization, within its size as fuel.
pub proof fn lemma_normal_fixed(t: SType)
    requires
        is_normal(t),
    ensures
        norm_fuel(t, type_size(t)) == Some(t),
    decreases t,
{
    let f = (type_size(t) - 1) as nat;
    match t {
        SType::Arrow(a, b) | SType::App(a, b) => {
            lemma_normal_fixed(*a);
            lemma_normal_fixed(*b);
            lemma_norm_fuel_mono(*a, type_size(*a), f);
            lemma_norm_fuel_mono(*b, type_size(*b), f);
        },
        SType::ForAll(_, _, b) | SType::Abs(_, _, b) => {
            lemma_normal_fixed(*b);
            lemma_norm_fuel_mono(*b, type_size(*b), f);
        },
        _ => {},
    }
}

/// Normalization gives a β-normal form.
pub proof fn lemma_normalize_normal(t: SType)
    requires
        normalizes(t),
    ensures
        is_normal(spec_normalize(t)),
{
    let f = choose|f: nat| #[trigger] norm_fuel(t, f) is Some;
    lemma_norm_fuel_normal(t, f);
}

/// Normalizing a normal form changes nothing: normalization is idempotent.
pub proof fn lemma_normalize_idempotent(t: SType)
    requires
        normalizes(t),
    ensures
        normalizes(spec_normalize(t)),
        spec_normalize(spec_normalize(t)) == spec_normalize(t),
{
    let n = spec_normalize(t);
    lemma_normalize_normal(t);
    lemma_normal_fixed(n);
    lemma_norm_fuel_normalize(n, type_size(n));
}

/// Substituting a type variable for itself changes nothing.
pub proof fn lemma_type_subst_self(t: SType, y: Seq<char>)
    ensures
        spec_type_subst(t, y, SType::Var(y)) == t,
    decreases type_size(t),
{
    match t {
        SType::Arrow(a, b) | SType::App(a, b) => {
            lemma_type_subst_self(*a, y);
            lemma_type_subst_self(*b, y);
        },
        SType::ForAll(z, _, body) | SType::Abs(z, _, body) => {
            if z != y {
                assert(!type_vars(SType::Var(y)).contains(z));
                lemma_type_subst_self(*body, y);
                assert(subst_binder(z, *body, y, SType::Var(y)) == (z, *body));
            } else {
                assert(subst_binder(z, *body, y, SType::Var(y)) == (z, *body));
            }
        },
        _ => {},
    }
}

proof fn lemma_alpha_eq_refl(t: SType)
    ensures
        spec_alpha_eq(t, t),
    decreases type_size(t),
{
    match t {
        SType::Arrow(a, b) | SType::App(a, b) => {
            lemma_alpha_eq_refl(*a);
            lemma_alpha_eq_refl(*b);
        },
        SType::ForAll(x, _, body) | SType::Abs(x, _, body) => {
            lemma_type_subst_self(*body, x);
            lemma_alpha_eq_refl(*body);
        },
        _ => {},
    }
}

/// Type equality is reflexive on types that have normal forms.
pub proof fn lemma_type_eq_refl(t: SType)
    requires
        normalizes(t),
    ensures
        spec_type_eq(t, t),
{
    lemma_alpha_eq_refl(spec_normalize(t));
}

// ===== kind checking =====

/// The kind of a type given the kinds of its free type variables, or the
/// first error met, left to right.
pub open spec fn spec_kind_of(t: SType, kinds: Map<Seq<char>, Kind>) -> Result<Kind, SError>
    decreases t, 0nat,
{
    match t {
        SType::Bool | SType::Int => Ok(Kind::Star),
        SType::Var(x) => if kinds.contains_key(x) {
            Ok(kinds[x])
        } else {
            Err(SError::UnboundTypeVariable(x))
        },
        SType::Arrow(a, b) => match spec_check_kind(*a, Kind::Star, kinds) {
            Ok(_) => match spec_check_kind(*b, Kind::Star, kinds) {
                Ok(_) => Ok(Kind::Star),
                Err(e) => Err(e),
            },
            Err(e) => Err(e),
        },
        SType::ForAll(x, k, body) => match spec_check_kind(*body, Kind::Star, kinds.insert(x, k)) {
            Ok(_) => Ok(Kind::Star),
            Err(e) => Err(e),
        },
        SType::Abs(x, k, body) => match spec_kind_of(*body, kinds.insert(x, k)) {
            Ok(bk) => Ok(Kind::Arrow(Box::new(k), Box::new(bk))),
            Err(e) => Err(e),
        },
        SType::App(f, a) => match spec_kind_of(*f, kinds) {
            Ok(Kind::Arrow(param, ret)) => match spec_check_kind(*a, *param, kinds) {
                Ok(_) => Ok(*ret),
                Err(e) => Err(e),
            },
            Ok(other) => Err(SError::NotATypeOperator { found: other }),
            Err(e) => Err(e),
        },
    }
}

/// Checking a type against a kind: its kind must be `expected`.
pub open spec fn spec_check_kind(t: SType, expected: Kind, kinds: Map<Seq<char>, Kind>) -> Result<
    (),
    SError,
>
    decreases t, 1nat,
{
    match spec_kind_of(t, kinds) {
        Ok(found) => if found == expected {
            Ok(())
        } else {
            Err(SError::KindMismatch { expected, found })
        },
        Err(e) => Err(e),
    }
}

/// A type application has kind `k2` exactly when the operator has a kind
/// `k1 -> k2` and the argument has kind `k1`; an operator of kind `*` is
/// reported as such.
pub proof fn lemma_kind_of_app(f: SType, a: SType, kinds: Map<Seq<char>, Kind>, k2: Kind)
    ensures
        spec_kind_of(SType::App(Box::new(f), Box::new(a)), kinds) == Ok::<Kind, SError>(k2) <==> exists|
            k1: Kind,
        |
            spec_kind_of(f, kinds) == Ok::<Kind, SError>(Kind::Arrow(Box::new(k1), Box::new(k2)))
                && #[trigger] spec_kind_of(a, kinds) == Ok::<Kind, SError>(k1),
        spec_kind_of(f, kinds) == Ok::<Kind, SError>(Kind::Star) ==> spec_kind_of(
            SType::App(Box::new(f), Box::new(a)),
            kinds,
        ) == Err::<Kind, SError>(SError::NotATypeOperator { found: Kind::Star }),
{
    let t = SType::App(Box::new(f), Box::new(a));
    if spec_kind_of(t, kinds) == Ok::<Kind, SError>(k2) {
        let k1 = *spec_kind_of(f, kinds)->Ok_0->Arrow_0;
        assert(spec_check_kind(a, k1, kinds) == Ok::<(), SError>(()));
        assert(spec_kind_of(a, kinds) == Ok::<Kind, SError>(k1));
    }
    assert forall|k1: Kind|
        spec_kind_of(f, kinds) == Ok::<Kind, SError>(Kind::Arrow(Box::new(k1), Box::new(k2)))
            && #[trigger] spec_kind_of(a, kinds) == Ok::<Kind, SError>(k1) implies spec_kind_of(t, kinds) == Ok::<
        Kind,
        SError,
    >(k2) by {
        assert(spec_check_kind(a, k1, kinds) == Ok::<(), SError>(()));
    }
}

/// The kind of `t` in `ctx`.
pub fn kind_of(t: &Type, ctx: &Ctx) -> (r: Result<Kind, TypeError>)
    ensures
        match r {
            Ok(k) => spec_kind_of(t@, ctx.kinds@) == Ok::<Kind, SError>(k),
            Err(e) => spec_kind_of(t@, ctx.kinds@) == Err::<Kind, SError>(e@),
        },
    decreases t, 0nat,
{
    match t {
        Type::Bool | Type::Int => Ok(Kind::Star),
        Type::Var(x) => match ctx.kinds.get(x) {
            Some(k) => Ok(k.duplicate()),
            None => Err(TypeError::UnboundTypeVariable(x.clone())),
        },
        Type::Arrow(a, b) => {
            check_kind(a, &Kind::Star, ctx)?;
            check_kind(b, &Kind::Star, ctx)?;
            Ok(Kind::Star)
        },
        Type::ForAll(x, k, body) => {
            let mut ctx2 = copy_ctx(ctx);
            ctx2.kinds.insert(x.clone(), k.duplicate());
            check_kind(body, &Kind::Star, &ctx2)?;
            Ok(Kind::Star)
        },
        Type::Abs(x, k, body) => {
            let mut ctx2 = copy_ctx(ctx);
            ctx2.kinds.insert(x.clone(), k.duplicate());
            let body_k = kind_of(body, &ctx2)?;
            Ok(Kind::arrow(k.duplicate(), body_k))
        },
        Type::App(f, a) => {
            let f_k = kind_of(f, ctx)?;
            match f_k {
                Kind::Arrow(param, ret) => {
                    check_kind(a, &param, ctx)?;
                    Ok(*ret)
                },
                other => Err(TypeError::NotATypeOperator { found: other }),
            }
        },
    }
}

fn check_kind(t: &Type, expected: &Kind, ctx: &Ctx) -> (r: Result<(), TypeError>)
    ensures
        match r {
            Ok(_) => spec_check_kind(t@, *expected, ctx.kinds@) == Ok::<(), SError>(()),
            Err(e) => spec_check_kind(t@, *expected, ctx.kinds@) == Err::<(), SError>(e@),
        },
    decreases t, 1nat,
{
    let found = kind_of(t, ctx)?;
    if found.same(expected) {
        Ok(())
    } else {
        Err(TypeError::KindMismatch { expected: expected.duplicate(), found })
    }
}

/// The kind of a closed type.
pub fn kind_of_type(t: &Type) -> (r: Result<Kind, TypeError>)
    ensures
        match r {
            Ok(k) => spec_kind_of(t@, Map::empty()) == Ok::<Kind, SError>(k),
            Err(e) => spec_kind_of(t@, Map::empty()) == Err::<Kind, SError>(e@),
        },
{
    kind_of(t, &Ctx::default())
}

// ===== type substitution inside terms =====

/// The free type variables of the types written in a term.
pub open spec fn ftv_term(t: STerm) -> Set<Seq<char>>
    decreases t,
{
    match t {
        STerm::Abs(_, ty, b) => type_vars(ty).union(ftv_term(*b)),
        STerm::App(f, a) => ftv_term(*f).union(ftv_term(*a)),
        STerm::TyAbs(x, _, b) => ftv_term(*b).remove(x),
        STerm::TyApp(f, ty) => ftv_term(*f).union(type_vars(ty)),
        STerm::If(c, t1, t2) => ftv_term(*c).union(ftv_term(*t1)).union(ftv_term(*t2)),
        STerm::BinOp(_, a, b) => ftv_term(*a).union(ftv_term(*b)),
        STerm::Let(_, e1, e2) => ftv_term(*e1).union(ftv_term(*e2)),
        _ => Set::empty(),
    }
}

fn free_type_vars_in_term(t: &Term) -> (r: Vec<String>)
    ensures
        name_set(r@) == ftv_term(t@),
{
    let mut acc: Vec<String> = Vec::new();
    proof {
        lemma_name_set_empty(acc@);
    }
    collect_ftv_term(t, &mut acc);
    assert(name_set(acc@) =~= ftv_term(t@));
    acc
}

fn collect_ftv_term(t: &Term, acc: &mut Vec<String>)
    ensures
        name_set(final(acc)@) == name_set(old(acc)@).union(ftv_term(t@)),
    decreases t,
{
    match t {
        Term::Var(_) | Term::IntLit(_) | Term::BoolLit(_) => {},
        Term::Abs(_, ty, body) => {
            collect_ftv(ty, acc);
            collect_ftv_term(body, acc);
        },
        Term::App(f, a) => {
            collect_ftv_term(f, acc);
            collect_ftv_term(a, acc);
        },
        Term::TyAbs(x, _, body) => {
            let mut inner: Vec<String> = Vec::new();
            proof {
                lemma_name_set_empty(inner@);
            }
            collect_ftv_term(body, &mut inner);
            let inner2 = remove_name(&inner, x);
            extend_names(acc, &inner2);
        },
        Term::TyApp(f, ty) => {
            collect_ftv_term(f, acc);
            collect_ftv(ty, acc);
        },
        Term::If(c, t1, t2) => {
            collect_ftv_term(c, acc);
            collect_ftv_term(t1, acc);
            collect_ftv_term(t2, acc);
        },
        Term::BinOp(_, a, b) => {
            collect_ftv_term(a, acc);
            collect_ftv_term(b, acc);
        },
        Term::Let(_, e1, e2) => {
            collect_ftv_term(e1, acc);
            collect_ftv_term(e2, acc);
        },
    }
    assert(name_set(acc@) =~= name_set(old(acc)@).union(ftv_term(t@)));
}

/// Capture-avoiding substitution of the type `s` for the type variable `x`
/// throughout the types in `t`.
pub open spec fn spec_ty_subst_in_term(t: STerm, x: Seq<char>, s: SType) -> STerm
    decreases term_size(t),
{
    match t {
        STerm::Abs(y, ty, b) => STerm::Abs(
            y,
            spec_type_subst(ty, x, s),
            Box::new(spec_ty_subst_in_term(*b, x, s)),
        ),
        STerm::App(f, a) => STerm::App(
            Box::new(spec_ty_subst_in_term(*f, x, s)),
            Box::new(spec_ty_subst_in_term(*a, x, s)),
        ),
        STerm::TyAbs(y, k, body) => if y == x {
            t
        } else if type_vars(s).contains(y) {
            let z = fresh_name_spec(y, type_vars(s).union(ftv_term(*body)).insert(x));
            let renamed = spec_ty_subst_in_term(*body, y, SType::Var(z));
            if term_size(renamed) <= term_size(*body) {
                STerm::TyAbs(z, k, Box::new(spec_ty_subst_in_term(renamed, x, s)))
            } else {
                t
            }
        } else {
            STerm::TyAbs(y, k, Box::new(spec_ty_subst_in_term(*body, x, s)))
        },
        STerm::TyApp(f, ty) => STerm::TyApp(
            Box::new(spec_ty_subst_in_term(*f, x, s)),
            spec_type_subst(ty, x, s),
        ),
        STerm::If(c, t1, t2) => STerm::If(
            Box::new(spec_ty_subst_in_term(*c, x, s)),
            Box::new(spec_ty_subst_in_term(*t1, x, s)),
            Box::new(spec_ty_subst_in_term(*t2, x, s)),
        ),
        STerm::BinOp(op, a, b) => STerm::BinOp(
            op,
            Box::new(spec_ty_subst_in_term(*a, x, s)),
            Box::new(spec_ty_subst_in_term(*b, x, s)),
        ),
        STerm::Let(y, e1, e2) => STerm::Let(
            y,
            Box::new(spec_ty_subst_in_term(*e1, x, s)),
            Box::new(spec_ty_subst_in_term(*e2, x, s)),
        ),
        _ => t,
    }
}

/// Type substitution keeps the shape, hence the size, of a term.
pub proof fn lemma_ty_subst_in_term_size(t: STerm, x: Seq<char>, s: SType)
    ensures
        term_size(spec_ty_subst_in_term(t, x, s)) == term_size(t),
    decreases term_size(t),
{
    match t {
        STerm::Abs(_, _, b) => {
            lemma_ty_subst_in_term_size(*b, x, s);
        },
        STerm::App(f, a) => {
            lemma_ty_subst_in_term_size(*f, x, s);
            lemma_ty_subst_in_term_size(*a, x, s);
        },
        STerm::TyAbs(y, _, body) => {
            if y != x {
                if type_vars(s).contains(y) {
                    let z = fresh_name_spec(y, type_vars(s).union(ftv_term(*body)).insert(x));
                    lemma_ty_subst_in_term_size(*body, y, SType::Var(z));
                    let renamed = spec_ty_subst_in_term(*body, y, SType::Var(z));
                    lemma_ty_subst_in_term_size(renamed, x, s);
                } else {
                    lemma_ty_subst_in_term_size(*body, x, s);
                }
            }
        },
        STerm::TyApp(f, _) => {
            lemma_ty_subst_in_term_size(*f, x, s);
        },
        STerm::If(c, t1, t2) => {
            lemma_ty_subst_in_term_size(*c, x, s);
            lemma_ty_subst_in_term_size(*t1, x, s);
            lemma_ty_subst_in_term_size(*t2, x, s);
        },
        STerm::BinOp(_, a, b) => {
            lemma_ty_subst_in_term_size(*a, x, s);
            lemma_ty_subst_in_term_size(*b, x, s);
        },
        STerm::Let(_, e1, e2) => {
            lemma_ty_subst_in_term_size(*e1, x, s);
            lemma_ty_subst_in_term_size(*e2, x, s);
        },
        _ => {},
    }
}

/// Substitutes the type `s` for the type variable `x` in the types of `t`.
pub fn ty_subst_in_term(t: &Term, x: &str, s: &Type) -> (r: Term)
    ensures
        r@ == spec_ty_subst_in_term(t@, x@, s@),
{
    let xs = String::from_str(x);
    ty_subst_in_term_name(t, &xs, s)
}

fn ty_subst_in_term_name(t: &Term, x: &String, s: &Type) -> (r: Term)
    ensures
        r@ == spec_ty_subst_in_term(t@, x@, s@),
    decreases term_size(t@),
{
    match t {
        Term::Var(_) | Term::IntLit(_) | Term::BoolLit(_) => t.duplicate(),
        Term::Abs(y, ty, body) => Term::Abs(
            y.clone(),
            type_subst_name(ty, x, s),
            Box::new(ty_subst_in_term_name(body, x, s)),
        ),
        Term::App(f, a) => Term::App(
            Box::new(ty_subst_in_term_name(f, x, s)),
            Box::new(ty_subst_in_term_name(a, x, s)),
        ),
        Term::TyAbs(y, k, body) => {
            if *y == *x {
                t.duplicate()
            } else {
                let fv_s = ftv(s);
                if contains_name(&fv_s, y) {
                    let mut avoid = fv_s;
                    extend_names(&mut avoid, &free_type_vars_in_term(body));
                    insert_name(&mut avoid, x);
                    assert(name_set(avoid@) =~= type_vars(s@).union(ftv_term(body@)).insert(x@));
                    let new_y = fresh_name(y, &avoid);
                    let var = Type::Var(new_y.clone());
                    proof {
                        lemma_ty_subst_in_term_size(body@, y@, var@);
                    }
                    let renamed = ty_subst_in_term_name(body, y, &var);
                    let b = ty_subst_in_term_name(&renamed, x, s);
                    Term::TyAbs(new_y, k.duplicate(), Box::new(b))
                } else {
                    Term::TyAbs(y.clone(), k.duplicate(), Box::new(ty_subst_in_term_name(body, x, s)))
                }
            }
        },
        Term::TyApp(f, ty) => Term::TyApp(
            Box::new(ty_subst_in_term_name(f, x, s)),
            type_subst_name(ty, x, s),
        ),
        Term::If(c, t1, t2) => Term::If(
            Box::new(ty_subst_in_term_name(c, x, s)),
            Box::new(ty_subst_in_term_name(t1, x, s)),
            Box::new(ty_subst_in_term_name(t2, x, s)),
        ),
        Term::BinOp(op, a, b) => Term::BinOp(
            *op,
            Box::new(ty_subst_in_term_name(a, x, s)),
            Box::new(ty_subst_in_term_name(b, x, s)),
        ),
        Term::Let(y, e1, e2) => Term::Let(
            y.clone(),
            Box::new(ty_subst_in_term_name(e1, x, s)),
            Box::new(ty_subst_in_term_name(e2, x, s)),
        ),
    }
}

// ===== type checking =====

/// The result type of a binary operator.
pub open spec fn op_result(op: BinOp) -> SType {
    match op {
        BinOp::Add | BinOp::Sub | BinOp::Mul => SType::Int,
        BinOp::Eq | BinOp::Lt => SType::Bool,
    }
}

/// The free type variables of the types of the term variables in scope.
pub open spec fn ctx_ftv(vals: Map<Seq<char>, SType>) -> Set<Seq<char>> {
    Set::new(
        |v: Seq<char>| exists|k: Seq<char>| vals.contains_key(k) && #[trigger] type_vars(vals[k]).contains(v),
    )
}

/// The name a type abstraction over `x` with body `body` is renamed to when
/// `x` is free in the types of the variables in scope: a name free neither
/// there nor in the body.
pub open spec fn renamed_binder(x: Seq<char>, body: STerm, vals: Map<Seq<char>, SType>) -> Seq<char> {
    fresh_name_spec(x, ctx_ftv(vals).union(ftv_term(body)))
}

/// The type of `t` given the types of its free variables and the kinds of
/// the type variables in scope, or the first error met. A type abstraction
/// over a name free in the types of the variables in scope is first renamed
/// (`renamed_binder`), so that it captures none of them.
pub open spec fn spec_infer(t: STerm, vals: Map<Seq<char>, SType>, kinds: Map<Seq<char>, Kind>) -> Result<
    SType,
    SError,
>
    decreases term_size(t),
{
    match t {
        STerm::Var(x) => if vals.contains_key(x) {
            Ok(vals[x])
        } else {
            Err(SError::UnboundVariable(x))
        },
        STerm::IntLit(_) => Ok(SType::Int),
        STerm::BoolLit(_) => Ok(SType::Bool),
        STerm::Abs(x, ty, body) => match spec_check_kind(ty, Kind::Star, kinds) {
            Ok(_) => match spec_infer(*body, vals.insert(x, ty), kinds) {
                Ok(bt) => Ok(SType::Arrow(Box::new(ty), Box::new(bt))),
                Err(e) => Err(e),
            },
            Err(e) => Err(e),
        },
        STerm::App(f, a) => match spec_infer(*f, vals, kinds) {
            Ok(ft) => match spec_normalize(ft) {
                SType::Arrow(param, ret) => match spec_infer(*a, vals, kinds) {
                    Ok(aty) => if spec_type_eq(aty, *param) {
                        Ok(*ret)
                    } else {
                        Err(SError::TypeMismatch { expected: *param, found: aty })
                    },
                    Err(e) => Err(e),
                },
                other => Err(SError::NotAFunction { found: other }),
            },
            Err(e) => Err(e),
        },
        STerm::TyAbs(x, k, body) => if ctx_ftv(vals).contains(x) {
            let y = renamed_binder(x, *body, vals);
            proof {
                lemma_ty_subst_in_term_size(*body, x, SType::Var(y));
            }
            match spec_infer(
                spec_ty_subst_in_term(*body, x, SType::Var(y)),
                vals,
                kinds.insert(y, k),
            ) {
                Ok(bt) => Ok(SType::ForAll(y, k, Box::new(bt))),
                Err(e) => Err(e),
            }
        } else {
            match spec_infer(*body, vals, kinds.insert(x, k)) {
                Ok(bt) => Ok(SType::ForAll(x, k, Box::new(bt))),
                Err(e) => Err(e),
            }
        },
        STerm::TyApp(f, ty_arg) => match spec_kind_of(ty_arg, kinds) {
            Ok(arg_k) => match spec_infer(*f, vals, kinds) {
                Ok(ft) => match spec_normalize(ft) {
                    SType::ForAll(x, k, body) => if k != arg_k {
                        Err(SError::KindMismatch { expected: k, found: arg_k })
                    } else {
                        Ok(spec_type_subst(*body, x, ty_arg))
                    },
                    other => Err(SError::NotPolymorphic { found: other }),
                },
                Err(e) => Err(e),
            },
            Err(e) => Err(e),
        },
        STerm::If(c, t1, t2) => match spec_infer(*c, vals, kinds) {
            Ok(tc) => if !spec_type_eq(tc, SType::Bool) {
                Err(SError::TypeMismatch { expected: SType::Bool, found: tc })
            } else {
                match spec_infer(*t1, vals, kinds) {
                    Ok(tt) => match spec_infer(*t2, vals, kinds) {
                        Ok(te) => if !spec_type_eq(tt, te) {
                            Err(SError::TypeMismatch { expected: tt, found: te })
                        } else {
                            Ok(tt)
                        },
                        Err(e) => Err(e),
                    },
                    Err(e) => Err(e),
                }
            },
            Err(e) => Err(e),
        },
        STerm::BinOp(op, a, b) => match spec_infer(*a, vals, kinds) {
            Ok(ta) => match spec_infer(*b, vals, kinds) {
                Ok(tb) => if !spec_type_eq(ta, SType::Int) {
                    Err(SError::TypeMismatch { expected: SType::Int, found: ta })
                } else if !spec_type_eq(tb, SType::Int) {
                    Err(SError::TypeMismatch { expected: SType::Int, found: tb })
                } else {
                    Ok(op_result(op))
                },
                Err(e) => Err(e),
            },
            Err(e) => Err(e),
        },
        STerm::Let(x, e1, e2) => match spec_infer(*e1, vals, kinds) {
            Ok(t1) => spec_infer(*e2, vals.insert(x, t1), kinds),
            Err(e) => Err(e),
        },
    }
}

/// Literals have their base types; an abstraction over a proper type has
/// the arrow from that type to the type of its body; a type application of
/// a term whose type normalizes to `∀x::k. B` to a type of kind `k` has type
/// `B` with the type substituted for `x`.
pub proof fn lemma_typing_abstractions(
    x: Seq<char>,
    ty: SType,
    body: STerm,
    vals: Map<Seq<char>, SType>,
    kinds: Map<Seq<char>, Kind>,
    i: i64,
    b: bool,
)
    ensures
        spec_infer(STerm::IntLit(i), vals, kinds) == Ok::<SType, SError>(SType::Int),
        spec_infer(STerm::BoolLit(b), vals, kinds) == Ok::<SType, SError>(SType::Bool),
        spec_check_kind(ty, Kind::Star, kinds) is Ok && spec_infer(body, vals.insert(x, ty), kinds) is Ok
            ==> spec_infer(STerm::Abs(x, ty, Box::new(body)), vals, kinds) == Ok::<SType, SError>(
            SType::Arrow(Box::new(ty), Box::new(spec_infer(body, vals.insert(x, ty), kinds)->Ok_0)),
        ),
        spec_kind_of(ty, kinds) is Ok && spec_infer(body, vals, kinds) is Ok ==> (spec_normalize(
            spec_infer(body, vals, kinds)->Ok_0,
        ) matches SType::ForAll(y, k, tb) ==> (k == spec_kind_of(ty, kinds)->Ok_0 ==> spec_infer(
            STerm::TyApp(Box::new(body), ty),
            vals,
            kinds,
        ) == Ok::<SType, SError>(spec_type_subst(*tb, y, ty)))),
{
}

/// A conditional is well typed exactly when its condition is a boolean and
/// its branches have equal types; its type is that of the first branch.
/// An application is well typed exactly when the normal form of the
/// function's type is an arrow whose parameter type equals the argument's
/// type, and its type is then the arrow's result type.
pub proof fn lemma_typing_rules(a: STerm, b: STerm, c: STerm, vals: Map<Seq<char>, SType>, kinds: Map<Seq<char>, Kind>)
    ensures
        spec_infer(STerm::If(Box::new(c), Box::new(a), Box::new(b)), vals, kinds) is Ok <==> (spec_infer(
            c,
            vals,
            kinds,
        ) is Ok && spec_type_eq(spec_infer(c, vals, kinds)->Ok_0, SType::Bool) && spec_infer(a, vals, kinds)
            is Ok && spec_infer(b, vals, kinds) is Ok && spec_type_eq(
            spec_infer(a, vals, kinds)->Ok_0,
            spec_infer(b, vals, kinds)->Ok_0,
        )),
        spec_infer(STerm::If(Box::new(c), Box::new(a), Box::new(b)), vals, kinds) is Ok ==> spec_infer(
            STerm::If(Box::new(c), Box::new(a), Box::new(b)),
            vals,
            kinds,
        ) == spec_infer(a, vals, kinds),
        spec_infer(STerm::App(Box::new(a), Box::new(b)), vals, kinds) is Ok <==> (spec_infer(a, vals, kinds)
            is Ok && spec_normalize(spec_infer(a, vals, kinds)->Ok_0) is Arrow && spec_infer(b, vals, kinds)
            is Ok && spec_type_eq(
            spec_infer(b, vals, kinds)->Ok_0,
            *spec_normalize(spec_infer(a, vals, kinds)->Ok_0)->Arrow_0,
        )),
        spec_infer(STerm::App(Box::new(a), Box::new(b)), vals, kinds) is Ok ==> spec_infer(
            STerm::App(Box::new(a), Box::new(b)),
            vals,
            kinds,
        ) == Ok::<SType, SError>(*spec_normalize(spec_infer(a, vals, kinds)->Ok_0)->Arrow_1),
{
}

/// Operators take integers: `+`, `-` and `*` give an integer, `==` and
/// `<` a boolean; an operator is well typed exactly when both operands are
/// well typed and their types equal `Int`.
pub proof fn lemma_infer_operator(
    op: BinOp,
    a: STerm,
    b: STerm,
    vals: Map<Seq<char>, SType>,
    kinds: Map<Seq<char>, Kind>,
)
    ensures
        spec_infer(STerm::BinOp(op, Box::new(a), Box::new(b)), vals, kinds) is Ok <==> (spec_infer(
            a,
            vals,
            kinds,
        ) is Ok && spec_infer(b, vals, kinds) is Ok && spec_type_eq(
            spec_infer(a, vals, kinds)->Ok_0,
            SType::Int,
        ) && spec_type_eq(spec_infer(b, vals, kinds)->Ok_0, SType::Int)),
        spec_infer(STerm::BinOp(op, Box::new(a), Box::new(b)), vals, kinds) is Ok ==> spec_infer(
            STerm::BinOp(op, Box::new(a), Box::new(b)),
            vals,
            kinds,
        ) == Ok::<SType, SError>(
            if op is Eq || op is Lt {
                SType::Bool
            } else {
                SType::Int
            },
        ),
{
}

/// Every type that checking `t` normalizes has a normal form, so checking
/// comes to an end.
pub open spec fn infer_total(t: STerm, vals: Map<Seq<char>, SType>, kinds: Map<Seq<char>, Kind>) -> bool
    decreases term_size(t),
{
    match t {
        STerm::Abs(x, ty, body) => spec_check_kind(ty, Kind::Star, kinds) is Ok ==> infer_total(
            *body,
            vals.insert(x, ty),
            kinds,
        ),
        STerm::App(f, a) => infer_total(*f, vals, kinds) && (spec_infer(*f, vals, kinds) matches Ok(
            ft,
        ) ==> normalizes(ft) && (spec_normalize(ft) matches SType::Arrow(param, _) ==> infer_total(
            *a,
            vals,
            kinds,
        ) && (spec_infer(*a, vals, kinds) matches Ok(aty) ==> normalizes(aty) && normalizes(
            *param,
        )))),
        STerm::TyAbs(x, k, body) => if ctx_ftv(vals).contains(x) {
            let y = renamed_binder(x, *body, vals);
            proof {
                lemma_ty_subst_in_term_size(*body, x, SType::Var(y));
            }
            infer_total(spec_ty_subst_in_term(*body, x, SType::Var(y)), vals, kinds.insert(y, k))
        } else {
            infer_total(*body, vals, kinds.insert(x, k))
        },
        STerm::TyApp(f, ty_arg) => spec_kind_of(ty_arg, kinds) is Ok ==> infer_total(
            *f,
            vals,
            kinds,
        ) && (spec_infer(*f, vals, kinds) matches Ok(ft) ==> normalizes(ft)),
        STerm::If(c, t1, t2) => infer_total(*c, vals, kinds) && (spec_infer(*c, vals, kinds) matches Ok(
            tc,
        ) ==> normalizes(tc) && (spec_type_eq(tc, SType::Bool) ==> infer_total(*t1, vals, kinds) && (
        spec_infer(*t1, vals, kinds) matches Ok(tt) ==> infer_total(*t2, vals, kinds) && (spec_infer(
            *t2,
            vals,
            kinds,
        ) matches Ok(te) ==> normalizes(tt) && normalizes(te))))),
        STerm::BinOp(_, a, b) => infer_total(*a, vals, kinds) && (spec_infer(*a, vals, kinds) matches Ok(
            ta,
        ) ==> infer_total(*b, vals, kinds) && (spec_infer(*b, vals, kinds) matches Ok(tb)
            ==> normalizes(ta) && (spec_type_eq(ta, SType::Int) ==> normalizes(tb)))),
        STerm::Let(x, e1, e2) => infer_total(*e1, vals, kinds) && (spec_infer(*e1, vals, kinds) matches Ok(
            t1,
        ) ==> infer_total(*e2, vals.insert(x, t1), kinds)),
        _ => true,
    }
}

proof fn lemma_base_normalizes(t: SType)
    requires
        t is Bool || t is Int,
    ensures
        normalizes(t),
        spec_normalize(t) == t,
{
    assert(norm_fuel(t, 1) is Some);
    lemma_norm_fuel_normalize(t, 1);
}

fn infer_in(t: &Term, ctx: &Ctx) -> (r: Result<Type, TypeError>)
    requires
        infer_total(t@, ctx.values@, ctx.kinds@),
    ensures
        match r {
            Ok(ty) => spec_infer(t@, ctx.values@, ctx.kinds@) == Ok::<SType, SError>(ty@),
            Err(e) => spec_infer(t@, ctx.values@, ctx.kinds@) == Err::<SType, SError>(e@),
        },
    decreases term_size(t@),
{
    match t {
        Term::Var(x) => match ctx.values.get(x) {
            Some(ty) => Ok(ty.duplicate()),
            None => Err(TypeError::UnboundVariable(x.clone())),
        },
        Term::IntLit(_) => Ok(Type::Int),
        Term::BoolLit(_) => Ok(Type::Bool),
        Term::Abs(x, ty, body) => {
            check_kind(ty, &Kind::Star, ctx)?;
            let mut ctx2 = copy_ctx(ctx);
            ctx2.values.insert(x.clone(), ty.duplicate());
            let body_ty = infer_in(body, &ctx2)?;
            Ok(Type::arrow(ty.duplicate(), body_ty))
        },
        Term::App(f, a) => {
            let fty = normalize(&infer_in(f, ctx)?);
            match fty {
                Type::Arrow(param, ret) => {
                    let aty = infer_in(a, ctx)?;
                    if !type_eq(&aty, &param) {
                        return Err(TypeError::TypeMismatch { expected: *param, found: aty });
                    }
                    Ok(*ret)
                },
                other => Err(TypeError::NotAFunction { found: other }),
            }
        },
        Term::TyAbs(x, k, body) => {
            let in_scope = values_ftv(&ctx.values);
            if contains_name(&in_scope, x) {
                let mut avoid = in_scope;
                extend_names(&mut avoid, &free_type_vars_in_term(body));
                assert(name_set(avoid@) =~= ctx_ftv(ctx.values@).union(ftv_term(body@)));
                let y = fresh_name(x, &avoid);
                let var = Type::Var(y.clone());
                proof {
                    lemma_ty_subst_in_term_size(body@, x@, var@);
                }
                let renamed = ty_subst_in_term_name(body, x, &var);
                let mut ctx2 = copy_ctx(ctx);
                ctx2.kinds.insert(y.clone(), k.duplicate());
                let body_ty = infer_in(&renamed, &ctx2)?;
                Ok(Type::ForAll(y, k.duplicate(), Box::new(body_ty)))
            } else {
                let mut ctx2 = copy_ctx(ctx);
                ctx2.kinds.insert(x.clone(), k.duplicate());
                let body_ty = infer_in(body, &ctx2)?;
                Ok(Type::ForAll(x.clone(), k.duplicate(), Box::new(body_ty)))
            }
        },
        Term::TyApp(f, ty_arg) => {
            let arg_k = kind_of(ty_arg, ctx)?;
            let fty = normalize(&infer_in(f, ctx)?);
            match fty {
                Type::ForAll(x, k, body) => {
                    if !k.same(&arg_k) {
                        return Err(TypeError::KindMismatch { expected: k, found: arg_k });
                    }
                    Ok(type_subst_name(&body, &x, ty_arg))
                },
                other => Err(TypeError::NotPolymorphic { found: other }),
            }
        },
        Term::If(c, t1, t2) => {
            let tc = infer_in(c, ctx)?;
            proof {
                lemma_base_normalizes(SType::Bool);
            }
            if !type_eq(&tc, &Type::Bool) {
                return Err(TypeError::TypeMismatch { expected: Type::Bool, found: tc });
            }
            let tt = infer_in(t1, ctx)?;
            let te = infer_in(t2, ctx)?;
            if !type_eq(&tt, &te) {
                return Err(TypeError::TypeMismatch { expected: tt, found: te });
            }
            Ok(tt)
        },
        Term::BinOp(op, a, b) => {
            let ta = infer_in(a, ctx)?;
            let tb = infer_in(b, ctx)?;
            proof {
                lemma_base_normalizes(SType::Int);
            }
            if !type_eq(&ta, &Type::Int) {
                return Err(TypeError::TypeMismatch { expected: Type::Int, found: ta });
            }
            if !type_eq(&tb, &Type::Int) {
                return Err(TypeError::TypeMismatch { expected: Type::Int, found: tb });
            }
            Ok(
                match op {
                    BinOp::Add | BinOp::Sub | BinOp::Mul => Type::Int,
                    BinOp::Eq | BinOp::Lt => Type::Bool,
                },
            )
        },
        Term::Let(x, e1, e2) => {
            let t1 = infer_in(e1, ctx)?;
            let mut ctx2 = copy_ctx(ctx);
            ctx2.values.insert(x.clone(), t1);
            infer_in(e2, &ctx2)
        },
    }
}

/// Infers the type of `t` in `ctx`. The types of the term variables in
/// scope must be proper types in the type variables in scope; checking then
/// always comes to an end.
pub fn infer(t: &Term, ctx: &Ctx) -> (r: Result<Type, TypeError>)
    requires
        ctx_wf(ctx.values@, ctx.kinds@),
    ensures
        match r {
            Ok(ty) => spec_infer(t@, ctx.values@, ctx.kinds@) == Ok::<SType, SError>(ty@),
            Err(e) => spec_infer(t@, ctx.values@, ctx.kinds@) == Err::<SType, SError>(e@),
        },
{
    proof {
        lemma_bindings_finite(ctx.values.entries@);
        lemma_infer_total(t@, ctx.values@, ctx.kinds@);
    }
    infer_in(t, ctx)
}

/// The normal form of the type of a closed term.
pub open spec fn spec_type_of(t: STerm) -> Result<SType, SError> {
    match spec_infer(t, Map::empty(), Map::empty()) {
        Ok(ty) => Ok(spec_normalize(ty)),
        Err(e) => Err(e),
    }
}

/// The type of a closed term, in normal form.
pub fn type_of(t: &Term) -> (r: Result<Type, TypeError>)
    ensures
        match r {
            Ok(ty) => spec_type_of(t@) == Ok::<SType, SError>(ty@),
            Err(e) => spec_type_of(t@) == Err::<SType, SError>(e@),
        },
{
    let ctx = Ctx::default();
    proof {
        assert(ctx_wf(ctx.values@, ctx.kinds@));
        assert(ctx.values@.dom() =~= Set::<Seq<char>>::empty());
        lemma_infer_total(t@, ctx.values@, ctx.kinds@);
    }
    let ty = infer(t, &ctx)?;
    proof {
        lemma_kinded_normalizes(ty@, ctx.kinds@);
    }
    Ok(normalize(&ty))
}

} // verus!
