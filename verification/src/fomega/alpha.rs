//! α-equivalence in System Fω: two types agree up to bound names exactly
//! when their nameless forms, where each bound variable is replaced by the
//! number of binders between it and its `∀` or `λ`, coincide; type equality
//! is α-equivalence of the β-normal forms.

use vstd::prelude::*;

use crate::fomega::termination::lemma_subst_unfold;
use crate::names::{fresh_name_spec, lemma_fresh_name_fresh};
use crate::fomega::ast::{type_size, Kind, SType};
use crate::fomega::typeck::{
    lemma_ftv_type_subst, lemma_type_subst_var_size, lemma_type_vars_finite, spec_alpha_eq,
    spec_normalize, spec_type_eq, spec_type_subst, subst_binder, type_vars,
};

verus! {

/// A type without names for bound variables: `Bound(i)` refers to the
/// `i`-th enclosing binder, counted from the inside; free variables keep
/// their names.
pub enum NType {
    Bool,
    Int,
    Bound(nat),
    Free(Seq<char>),
    Arrow(Box<NType>, Box<NType>),
    App(Box<NType>, Box<NType>),
    ForAll(Kind, Box<NType>),
    Abs(Kind, Box<NType>),
}

/// The nameless form of the variable `v` under the binders `env`, the
/// innermost last.
pub open spec fn var_index(v: Seq<char>, env: Seq<Seq<char>>) -> NType
    decreases env.len(),
{
    if env.len() == 0 {
        NType::Free(v)
    } else if env.last() == v {
        NType::Bound(0)
    } else {
        shift(var_index(v, env.drop_last()))
    }
}

/// One more binder between a variable and its `∀`.
pub open spec fn shift(d: NType) -> NType {
    match d {
        NType::Bound(i) => NType::Bound(i + 1),
        _ => d,
    }
}

/// The nameless form of `t` under the binders `env`.
pub open spec fn nameless(t: SType, env: Seq<Seq<char>>) -> NType
    decreases t,
{
    match t {
        SType::Bool => NType::Bool,
        SType::Int => NType::Int,
        SType::Var(v) => var_index(v, env),
        SType::Arrow(a, b) => NType::Arrow(Box::new(nameless(*a, env)), Box::new(nameless(*b, env))),
        SType::App(a, b) => NType::App(Box::new(nameless(*a, env)), Box::new(nameless(*b, env))),
        SType::ForAll(x, k, b) => NType::ForAll(k, Box::new(nameless(*b, env.push(x)))),
        SType::Abs(x, k, b) => NType::Abs(k, Box::new(nameless(*b, env.push(x)))),
    }
}

proof fn lemma_var_index_push(v: Seq<char>, env: Seq<Seq<char>>, w: Seq<char>)
    ensures
        var_index(v, env.push(w)) == if v == w {
            NType::Bound(0)
        } else {
            shift(var_index(v, env))
        },
{
    assert(env.push(w).drop_last() =~= env);
}

/// Distinct names have distinct nameless forms.
proof fn lemma_var_index_injective(v: Seq<char>, w: Seq<char>, env: Seq<Seq<char>>)
    requires
        var_index(v, env) == var_index(w, env),
    ensures
        v == w,
    decreases env.len(),
{
    if env.len() > 0 && env.last() != v && env.last() != w {
        lemma_var_index_injective(v, w, env.drop_last());
    }
}

/// The nameless form depends only on the forms of the free variables.
proof fn lemma_nameless_agree(t: SType, e1: Seq<Seq<char>>, e2: Seq<Seq<char>>)
    requires
        forall|v: Seq<char>| #[trigger] type_vars(t).contains(v) ==> var_index(v, e1) == var_index(v, e2),
    ensures
        nameless(t, e1) == nameless(t, e2),
    decreases t,
{
    match t {
        SType::Var(v) => {
            assert(type_vars(t).contains(v));
        },
        SType::Arrow(a, b) | SType::App(a, b) => {
            assert forall|v: Seq<char>| #[trigger] type_vars(*a).contains(v) implies var_index(v, e1) == var_index(v, e2) by {
                assert(type_vars(t).contains(v));
            }
            assert forall|v: Seq<char>| #[trigger] type_vars(*b).contains(v) implies var_index(v, e1) == var_index(v, e2) by {
                assert(type_vars(t).contains(v));
            }
            lemma_nameless_agree(*a, e1, e2);
            lemma_nameless_agree(*b, e1, e2);
        },
        SType::ForAll(x, _, b) | SType::Abs(x, _, b) => {
            assert forall|v: Seq<char>| #[trigger] type_vars(*b).contains(v) implies var_index(v, e1.push(x))
                == var_index(v, e2.push(x)) by {
                lemma_var_index_push(v, e1, x);
                lemma_var_index_push(v, e2, x);
                if v != x {
                    assert(type_vars(t).contains(v));
                }
            }
            lemma_nameless_agree(*b, e1.push(x), e2.push(x));
        },
        _ => {},
    }
}

/// Renaming `y` to `x` by substitution keeps the nameless form, when the
/// forms of the free variables correspond.
proof fn lemma_nameless_rename(t: SType, y: Seq<char>, x: Seq<char>, e1: Seq<Seq<char>>, e2: Seq<Seq<char>>)
    requires
        forall|v: Seq<char>| #[trigger] type_vars(t).contains(v) ==> var_index(
            if v == y {
                x
            } else {
                v
            },
            e1,
        ) == var_index(v, e2),
    ensures
        nameless(spec_type_subst(t, y, SType::Var(x)), e1) == nameless(t, e2),
    decreases type_size(t),
{
    let s = SType::Var(x);
    match t {
        SType::Var(v) => {
            assert(type_vars(t).contains(v));
        },
        SType::Arrow(a, b) | SType::App(a, b) => {
            lemma_subst_unfold(*a, *b, y, Kind::Star, y, s);
            assert forall|v: Seq<char>| #[trigger] type_vars(*a).contains(v) implies var_index(
                if v == y {
                    x
                } else {
                    v
                },
                e1,
            ) == var_index(v, e2) by {
                assert(type_vars(t).contains(v));
            }
            assert forall|v: Seq<char>| #[trigger] type_vars(*b).contains(v) implies var_index(
                if v == y {
                    x
                } else {
                    v
                },
                e1,
            ) == var_index(v, e2) by {
                assert(type_vars(t).contains(v));
            }
            lemma_nameless_rename(*a, y, x, e1, e2);
            lemma_nameless_rename(*b, y, x, e1, e2);
        },
        SType::ForAll(w, k, body) | SType::Abs(w, k, body) => {
            lemma_subst_unfold(*body, *body, w, k, y, s);
            if w == y {
                assert(subst_binder(w, *body, y, s) == (w, *body));
                assert forall|v: Seq<char>| #[trigger] type_vars(*body).contains(v) implies var_index(v, e1.push(w))
                    == var_index(v, e2.push(w)) by {
                    lemma_var_index_push(v, e1, w);
                    lemma_var_index_push(v, e2, w);
                    if v != w {
                        assert(type_vars(t).contains(v));
                    }
                }
                lemma_nameless_agree(*body, e1.push(w), e2.push(w));
            } else if type_vars(s).contains(w) {
                let avoid = type_vars(s).union(type_vars(*body)).insert(y);
                lemma_type_vars_finite(s);
                lemma_type_vars_finite(*body);
                let z = fresh_name_spec(w, avoid);
                lemma_fresh_name_fresh(w, avoid);
                lemma_type_subst_var_size(*body, w, z);
                let renamed = spec_type_subst(*body, w, SType::Var(z));
                // the body, with `w` renamed to `z`
                assert forall|v: Seq<char>| #[trigger] type_vars(*body).contains(v) implies var_index(
                    if v == w {
                        z
                    } else {
                        v
                    },
                    e2.push(z),
                ) == var_index(v, e2.push(w)) by {
                    lemma_var_index_push(z, e2, z);
                    lemma_var_index_push(v, e2, z);
                    lemma_var_index_push(v, e2, w);
                }
                lemma_nameless_rename(*body, w, z, e2.push(z), e2.push(w));
                // then `y` renamed to `x` in it
                lemma_ftv_type_subst(*body, w, SType::Var(z));
                assert forall|v: Seq<char>| #[trigger] type_vars(renamed).contains(v) implies var_index(
                    if v == y {
                        x
                    } else {
                        v
                    },
                    e1.push(z),
                ) == var_index(v, e2.push(z)) by {
                    lemma_var_index_push(v, e1, z);
                    lemma_var_index_push(v, e2, z);
                    lemma_var_index_push(x, e1, z);
                    if v != z {
                        assert(type_vars(*body).contains(v) && v != w);
                        assert(type_vars(t).contains(v));
                    }
                }
                lemma_nameless_rename(renamed, y, x, e1.push(z), e2.push(z));
                assert(subst_binder(w, *body, y, s) == (z, spec_type_subst(renamed, y, s)));
            } else {
                assert forall|v: Seq<char>| #[trigger] type_vars(*body).contains(v) implies var_index(
                    if v == y {
                        x
                    } else {
                        v
                    },
                    e1.push(w),
                ) == var_index(v, e2.push(w)) by {
                    lemma_var_index_push(v, e1, w);
                    lemma_var_index_push(v, e2, w);
                    lemma_var_index_push(x, e1, w);
                    if v != w {
                        assert(type_vars(t).contains(v));
                    }
                }
                lemma_nameless_rename(*body, y, x, e1.push(w), e2.push(w));
                assert(subst_binder(w, *body, y, s) == (w, spec_type_subst(*body, y, s)));
            }
        },
        _ => {},
    }
}

/// One binder fewer between a variable and its `∀`.
pub open spec fn unshift(d: NType) -> NType {
    match d {
        NType::Bound(i) => if i > 0 {
            NType::Bound((i - 1) as nat)
        } else {
            d
        },
        _ => d,
    }
}

/// The free variables of a nameless type, as seen from outside it.
pub open spec fn free_atoms(d: NType) -> Set<NType>
    decreases d,
{
    match d {
        NType::Bound(i) => set![NType::Bound(i)],
        NType::Free(v) => set![NType::Free(v)],
        NType::Arrow(a, b) | NType::App(a, b) => free_atoms(*a).union(free_atoms(*b)),
        NType::ForAll(_, b) | NType::Abs(_, b) => Set::new(
            |a: NType| exists|c: NType| #[trigger] free_atoms(*b).contains(c) && c != NType::Bound(0) && a == unshift(c),
        ),
        _ => Set::empty(),
    }
}

proof fn lemma_var_index_atom(v: Seq<char>, env: Seq<Seq<char>>)
    ensures
        var_index(v, env) is Bound || var_index(v, env) is Free,
        unshift(shift(var_index(v, env))) == var_index(v, env),
        shift(var_index(v, env)) != NType::Bound(0),
    decreases env.len(),
{
    if env.len() > 0 && env.last() != v {
        lemma_var_index_atom(v, env.drop_last());
    }
}

/// A free variable of `t` shows among the free variables of its nameless
/// form.
proof fn lemma_free_atoms_of_type_vars(t: SType, env: Seq<Seq<char>>, v: Seq<char>)
    requires
        type_vars(t).contains(v),
    ensures
        free_atoms(nameless(t, env)).contains(var_index(v, env)),
    decreases t,
{
    match t {
        SType::Arrow(a, b) | SType::App(a, b) => {
            if type_vars(*a).contains(v) {
                lemma_free_atoms_of_type_vars(*a, env, v);
            } else {
                lemma_free_atoms_of_type_vars(*b, env, v);
            }
        },
        SType::ForAll(w, _, b) | SType::Abs(w, _, b) => {
            lemma_free_atoms_of_type_vars(*b, env.push(w), v);
            lemma_var_index_push(v, env, w);
            lemma_var_index_atom(v, env);
            let c = shift(var_index(v, env));
            assert(free_atoms(nameless(*b, env.push(w))).contains(c));
            assert(exists|c: NType| #[trigger] free_atoms(nameless(*b, env.push(w))).contains(c) && c
                != NType::Bound(0) && var_index(v, env) == unshift(c));
        },
        SType::Var(x) => {
            lemma_var_index_atom(x, env);
        },
        _ => {},
    }
}

/// Every free variable of a nameless form comes from a free variable of
/// the type.
proof fn lemma_ftv_of_free_atoms(t: SType, env: Seq<Seq<char>>, d: NType) -> (v: Seq<char>)
    requires
        free_atoms(nameless(t, env)).contains(d),
    ensures
        type_vars(t).contains(v),
        var_index(v, env) == d,
    decreases t,
{
    match t {
        SType::Var(x) => {
            lemma_var_index_atom(x, env);
            x
        },
        SType::Arrow(a, b) | SType::App(a, b) => {
            if free_atoms(nameless(*a, env)).contains(d) {
                lemma_ftv_of_free_atoms(*a, env, d)
            } else {
                lemma_ftv_of_free_atoms(*b, env, d)
            }
        },
        SType::ForAll(w, _, b) | SType::Abs(w, _, b) => {
            let inner = free_atoms(nameless(*b, env.push(w)));
            let c = choose|c: NType| #[trigger] inner.contains(c) && c != NType::Bound(0) && d == unshift(c);
            let v = lemma_ftv_of_free_atoms(*b, env.push(w), c);
            lemma_var_index_push(v, env, w);
            lemma_var_index_atom(v, env);
            v
        },
        _ => {
            assert(false);
            Seq::empty()
        },
    }
}

/// `spec_alpha_eq` is α-equivalence: two types are equal up to bound
/// names exactly when their nameless forms coincide, under any binders.
pub proof fn lemma_alpha_eq_nameless(a: SType, b: SType, env: Seq<Seq<char>>)
    ensures
        spec_alpha_eq(a, b) <==> nameless(a, env) == nameless(b, env),
    decreases type_size(a),
{
    match (a, b) {
        (SType::Var(x), SType::Var(w)) => {
            if nameless(a, env) == nameless(b, env) {
                lemma_var_index_injective(x, w, env);
            }
        },
        (SType::Var(x), _) => {
            lemma_var_index_atom(x, env);
        },
        (_, SType::Var(w)) => {
            lemma_var_index_atom(w, env);
        },
        (SType::Arrow(a1, a2), SType::Arrow(b1, b2)) | (SType::App(a1, a2), SType::App(b1, b2)) => {
            lemma_alpha_eq_nameless(*a1, *b1, env);
            lemma_alpha_eq_nameless(*a2, *b2, env);
        },
        (SType::ForAll(x, _, ax), SType::ForAll(y, _, by)) | (SType::Abs(x, _, ax), SType::Abs(y, _, by)) => {
            let c = spec_type_subst(*by, y, SType::Var(x));
            lemma_alpha_eq_nameless(*ax, c, env.push(x));
            if x == y || !type_vars(*by).contains(x) {
                assert forall|v: Seq<char>| #[trigger] type_vars(*by).contains(v) implies var_index(
                    if v == y {
                        x
                    } else {
                        v
                    },
                    env.push(x),
                ) == var_index(v, env.push(y)) by {
                    lemma_var_index_push(v, env, x);
                    lemma_var_index_push(v, env, y);
                    lemma_var_index_push(x, env, x);
                }
                lemma_nameless_rename(*by, y, x, env.push(x), env.push(y));
            } else {
                assert(type_vars(b).contains(x));
                lemma_free_atoms_of_type_vars(b, env, x);
                if nameless(a, env) == nameless(b, env) {
                    let v = lemma_ftv_of_free_atoms(a, env, var_index(x, env));
                    lemma_var_index_injective(v, x, env);
                    assert(false);
                }
            }
        },
        _ => {},
    }
}

/// Type equality in Fω is α-equivalence of the β-normal forms.
pub proof fn lemma_type_eq_alpha(a: SType, b: SType, env: Seq<Seq<char>>)
    ensures
        spec_type_eq(a, b) <==> nameless(spec_normalize(a), env) == nameless(spec_normalize(b), env),
{
    lemma_alpha_eq_nameless(spec_normalize(a), spec_normalize(b), env);
}

} // verus!
