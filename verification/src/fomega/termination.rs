//! Termination of type-level normalization: every well-kinded type has a
//! β-normal form of the same kind. The proof substitutes normal forms into
//! normal forms, by induction on the kind of the substituted variable.

use vstd::prelude::*;

use crate::fomega::ast::{term_size, type_size, Kind, STerm, SType};
use crate::fomega::typeck::{
    SError,
    lemma_type_subst_var_size, lemma_type_vars_finite, spec_check_kind, spec_kind_of,
    is_normal, lemma_norm_fuel_mono, lemma_norm_fuel_normalize, lemma_normal_fixed, norm_fuel,
    normalizes, spec_normalize, spec_type_subst, subst_binder, type_vars, ctx_ftv, ftv_term,
    infer_total, lemma_ty_subst_in_term_size, renamed_binder, spec_infer, spec_ty_subst_in_term,
};
use crate::names::{fresh_name_spec, lemma_fresh_name_fresh};

verus! {

/// Two kind environments that agree on the names in `vs`.
pub open spec fn agree_on(k1: Map<Seq<char>, Kind>, k2: Map<Seq<char>, Kind>, vs: Set<Seq<char>>) -> bool {
    forall|v: Seq<char>| #[trigger] vs.contains(v) ==> (k1.contains_key(v) == k2.contains_key(v)
        && (k1.contains_key(v) ==> k1[v] == k2[v]))
}

/// The kind of a type depends only on the kinds of its free variables.
pub proof fn lemma_kind_agree(t: SType, k1: Map<Seq<char>, Kind>, k2: Map<Seq<char>, Kind>)
    requires
        agree_on(k1, k2, type_vars(t)),
    ensures
        spec_kind_of(t, k1) == spec_kind_of(t, k2),
    decreases t,
{
    match t {
        SType::Var(y) => {
            assert(type_vars(t).contains(y));
            assert(k1.contains_key(y) == k2.contains_key(y));
            assert(spec_kind_of(t, k1) == spec_kind_of(t, k2));
        },
        SType::Arrow(a, b) => {
            assert(t == SType::Arrow(a, b));
            assert(spec_kind_of(SType::Arrow(a, b), k1) == (match spec_check_kind(*a, Kind::Star, k1) {
                Ok(_) => match spec_check_kind(*b, Kind::Star, k1) {
                    Ok(_) => Ok(Kind::Star),
                    Err(e) => Err(e),
                },
                Err(e) => Err(e),
            }));
            assert forall|v: Seq<char>| #[trigger] type_vars(*a).contains(v) implies type_vars(t).contains(v) by {}
            assert forall|v: Seq<char>| #[trigger] type_vars(*b).contains(v) implies type_vars(t).contains(v) by {}
            lemma_kind_agree(*a, k1, k2);
            lemma_kind_agree(*b, k1, k2);
            assert forall|kk: Kind| #[trigger] spec_check_kind(*a, kk, k1) == spec_check_kind(*a, kk, k2) by {}
            assert forall|kk: Kind| #[trigger] spec_check_kind(*b, kk, k1) == spec_check_kind(*b, kk, k2) by {}
            assert(spec_kind_of(t, k1) == spec_kind_of(t, k2));
        },
        SType::App(a, b) => {
            assert(spec_kind_of(SType::App(a, b), k1) == (match spec_kind_of(*a, k1) {
                Ok(Kind::Arrow(param, ret)) => match spec_check_kind(*b, *param, k1) {
                    Ok(_) => Ok(*ret),
                    Err(e) => Err(e),
                },
                Ok(other) => Err(SError::NotATypeOperator { found: other }),
                Err(e) => Err(e),
            }));
            assert forall|v: Seq<char>| #[trigger] type_vars(*a).contains(v) implies type_vars(t).contains(v) by {}
            assert forall|v: Seq<char>| #[trigger] type_vars(*b).contains(v) implies type_vars(t).contains(v) by {}
            lemma_kind_agree(*a, k1, k2);
            lemma_kind_agree(*b, k1, k2);
            assert forall|kk: Kind| #[trigger] spec_check_kind(*a, kk, k1) == spec_check_kind(*a, kk, k2) by {}
            assert forall|kk: Kind| #[trigger] spec_check_kind(*b, kk, k1) == spec_check_kind(*b, kk, k2) by {}
            assert(spec_kind_of(t, k1) == spec_kind_of(t, k2));
        },
        SType::ForAll(x, k, b) | SType::Abs(x, k, b) => {
            assert forall|v: Seq<char>| #[trigger] type_vars(*b).contains(v) implies (k1.insert(x, k).contains_key(v)
                == k2.insert(x, k).contains_key(v) && (k1.insert(x, k).contains_key(v) ==> k1.insert(x, k)[v]
                == k2.insert(x, k)[v])) by {
                if v != x {
                    assert(type_vars(t).contains(v));
                }
            }
            lemma_kind_agree(*b, k1.insert(x, k), k2.insert(x, k));
            assert(spec_check_kind(*b, Kind::Star, k1.insert(x, k)) == spec_check_kind(
                *b,
                Kind::Star,
                k2.insert(x, k),
            ));
            assert(spec_kind_of(t, k1) == spec_kind_of(t, k2));
        },
        _ => {
            assert(spec_kind_of(t, k1) == spec_kind_of(t, k2));
        },
    }
}

/// One unfolding of `spec_kind_of` and `spec_check_kind` on each form.
proof fn lemma_kind_unfold(a: SType, b: SType, x: Seq<char>, k: Kind, kinds: Map<Seq<char>, Kind>)
    ensures
        spec_kind_of(SType::Arrow(Box::new(a), Box::new(b)), kinds) == (match spec_check_kind(a, Kind::Star, kinds) {
            Ok(_) => match spec_check_kind(b, Kind::Star, kinds) {
                Ok(_) => Ok(Kind::Star),
                Err(e) => Err(e),
            },
            Err(e) => Err(e),
        }),
        spec_kind_of(SType::App(Box::new(a), Box::new(b)), kinds) == (match spec_kind_of(a, kinds) {
            Ok(Kind::Arrow(param, ret)) => match spec_check_kind(b, *param, kinds) {
                Ok(_) => Ok(*ret),
                Err(e) => Err(e),
            },
            Ok(other) => Err(SError::NotATypeOperator { found: other }),
            Err(e) => Err(e),
        }),
        spec_kind_of(SType::ForAll(x, k, Box::new(b)), kinds) == (match spec_check_kind(
            b,
            Kind::Star,
            kinds.insert(x, k),
        ) {
            Ok(_) => Ok(Kind::Star),
            Err(e) => Err(e),
        }),
        spec_kind_of(SType::Abs(x, k, Box::new(b)), kinds) == (match spec_kind_of(b, kinds.insert(x, k)) {
            Ok(bk) => Ok(Kind::Arrow(Box::new(k), Box::new(bk))),
            Err(e) => Err(e),
        }),
        forall|e: Kind| #[trigger] spec_check_kind(a, e, kinds) == (match spec_kind_of(a, kinds) {
            Ok(found) => if found == e {
                Ok(())
            } else {
                Err(SError::KindMismatch { expected: e, found })
            },
            Err(er) => Err(er),
        }),
{
}

/// Substitution keeps kinds: a type of kind `k` with `x : k1` keeps kind
/// `k` when a type of kind `k1` replaces `x`.
pub proof fn lemma_kind_subst(t: SType, x: Seq<char>, s: SType, kinds: Map<Seq<char>, Kind>, k1: Kind)
    requires
        spec_kind_of(s, kinds) == Ok::<Kind, SError>(k1),
        spec_kind_of(t, kinds.insert(x, k1)) is Ok,
    ensures
        spec_kind_of(spec_type_subst(t, x, s), kinds) == spec_kind_of(t, kinds.insert(x, k1)),
    decreases type_size(t), 1nat,
{
    let kx = kinds.insert(x, k1);
    match t {
        SType::Var(y) => {
            if y != x {
                assert(kx.contains_key(y) == kinds.contains_key(y));
                assert(spec_type_subst(t, x, s) == t);
                assert(spec_kind_of(t, kx) == spec_kind_of(t, kinds));
            } else {
                assert(spec_type_subst(t, x, s) == s);
                assert(spec_kind_of(t, kx) == Ok::<Kind, SError>(k1));
            }
        },
        SType::Arrow(a, b) => {
            lemma_kind_unfold(*a, *b, x, Kind::Star, kx);
            lemma_kind_unfold(spec_type_subst(*a, x, s), spec_type_subst(*b, x, s), x, Kind::Star, kinds);
            assert(spec_check_kind(*a, Kind::Star, kx) is Ok);
            assert(spec_check_kind(*b, Kind::Star, kx) is Ok);
            lemma_kind_subst(*a, x, s, kinds, k1);
            lemma_kind_subst(*b, x, s, kinds, k1);
        },
        SType::App(a, b) => {
            lemma_kind_unfold(*a, *b, x, Kind::Star, kx);
            lemma_kind_unfold(spec_type_subst(*a, x, s), spec_type_subst(*b, x, s), x, Kind::Star, kinds);
            lemma_kind_subst(*a, x, s, kinds, k1);
            let ka = spec_kind_of(*a, kx)->Ok_0;
            assert(spec_check_kind(*b, *ka->Arrow_0, kx) is Ok);
            lemma_kind_subst(*b, x, s, kinds, k1);
        },
        SType::ForAll(y, k, body) => {
            lemma_kind_unfold(*body, *body, y, k, kx);
            assert(spec_check_kind(*body, Kind::Star, kx.insert(y, k)) is Ok);
            lemma_kind_binder(y, k, *body, x, s, kinds, k1);
            let (y2, b2) = subst_binder(y, *body, x, s);
            lemma_kind_unfold(b2, b2, y2, k, kinds);
            lemma_kind_unfold(b2, b2, y2, k, kinds.insert(y2, k));
        },
        SType::Abs(y, k, body) => {
            lemma_kind_unfold(*body, *body, y, k, kx);
            lemma_kind_binder(y, k, *body, x, s, kinds, k1);
            let (y2, b2) = subst_binder(y, *body, x, s);
            lemma_kind_unfold(b2, b2, y2, k, kinds);
        },
        _ => {},
    }
}

proof fn lemma_kind_binder(
    y: Seq<char>,
    ky: Kind,
    body: SType,
    x: Seq<char>,
    s: SType,
    kinds: Map<Seq<char>, Kind>,
    k1: Kind,
)
    requires
        spec_kind_of(s, kinds) == Ok::<Kind, SError>(k1),
        spec_kind_of(body, kinds.insert(x, k1).insert(y, ky)) is Ok,
    ensures
        spec_kind_of(
            subst_binder(y, body, x, s).1,
            kinds.insert(subst_binder(y, body, x, s).0, ky),
        ) == spec_kind_of(body, kinds.insert(x, k1).insert(y, ky)),
    decreases type_size(body), 2nat,
{
    let kb = kinds.insert(x, k1).insert(y, ky);
    if y == x {
        assert(kinds.insert(y, ky) =~= kb);
    } else if type_vars(s).contains(y) {
        let avoid = type_vars(s).union(type_vars(body)).insert(x);
        lemma_type_vars_finite(s);
        lemma_type_vars_finite(body);
        let z = fresh_name_spec(y, avoid);
        lemma_fresh_name_fresh(y, avoid);
        lemma_type_subst_var_size(body, y, z);
        let renamed = spec_type_subst(body, y, SType::Var(z));
        let k0 = kinds.insert(x, k1).insert(z, ky);
        assert(agree_on(k0.insert(y, ky), kb, type_vars(body)));
        lemma_kind_agree(body, k0.insert(y, ky), kb);
        lemma_kind_subst(body, y, SType::Var(z), k0, ky);
        let kz = kinds.insert(z, ky);
        assert(agree_on(kz, kinds, type_vars(s)));
        lemma_kind_agree(s, kz, kinds);
        assert(kz.insert(x, k1) =~= k0);
        lemma_kind_subst(renamed, x, s, kz, k1);
    } else {
        let ky2 = kinds.insert(y, ky);
        assert(agree_on(ky2, kinds, type_vars(s)));
        lemma_kind_agree(s, ky2, kinds);
        assert(ky2.insert(x, k1) =~= kb);
        lemma_kind_subst(body, x, s, ky2, k1);
    }
}

/// Renaming a variable keeps a type normal and keeps its outer form.
pub proof fn lemma_normal_rename(t: SType, y: Seq<char>, z: Seq<char>)
    requires
        is_normal(t),
    ensures
        is_normal(spec_type_subst(t, y, SType::Var(z))),
        (spec_type_subst(t, y, SType::Var(z)) is Abs) == (t is Abs),
    decreases type_size(t), 1nat,
{
    match t {
        SType::Arrow(a, b) | SType::App(a, b) => {
            lemma_normal_rename(*a, y, z);
            lemma_normal_rename(*b, y, z);
        },
        SType::ForAll(w, _, body) | SType::Abs(w, _, body) => {
            lemma_normal_rename_binder(w, *body, y, z);
        },
        _ => {},
    }
}

proof fn lemma_normal_rename_binder(w: Seq<char>, body: SType, y: Seq<char>, z: Seq<char>)
    requires
        is_normal(body),
    ensures
        is_normal(subst_binder(w, body, y, SType::Var(z)).1),
    decreases type_size(body), 2nat,
{
    let s = SType::Var(z);
    if w == y {
    } else if type_vars(s).contains(w) {
        let v = fresh_name_spec(w, type_vars(s).union(type_vars(body)).insert(y));
        lemma_type_subst_var_size(body, w, v);
        lemma_normal_rename(body, w, v);
        let renamed = spec_type_subst(body, w, SType::Var(v));
        lemma_normal_rename(renamed, y, z);
    } else {
        lemma_normal_rename(body, y, z);
    }
}

/// The size of a kind.
pub open spec fn kind_size(k: Kind) -> nat
    decreases k,
{
    match k {
        Kind::Star => 1,
        Kind::Arrow(a, b) => 1 + kind_size(*a) + kind_size(*b),
    }
}

/// The variable at the head of an application spine, if any.
pub open spec fn head_var(t: SType) -> Option<Seq<char>>
    decreases t,
{
    match t {
        SType::Var(y) => Some(y),
        SType::App(g, _) => head_var(*g),
        _ => None,
    }
}

/// A spine headed by `x` has a kind no larger than that of `x`.
proof fn lemma_head_kind(g: SType, kinds: Map<Seq<char>, Kind>, x: Seq<char>)
    requires
        head_var(g) == Some(x),
        spec_kind_of(g, kinds) is Ok,
    ensures
        kinds.contains_key(x),
        kind_size(spec_kind_of(g, kinds)->Ok_0) <= kind_size(kinds[x]),
    decreases g,
{
    if let SType::App(h, c) = g {
        lemma_kind_unfold(*h, *c, x, Kind::Star, kinds);
        lemma_head_kind(*h, kinds, x);
    }
}

/// A normal type of an arrow kind that is not an abstraction is a spine
/// headed by a variable.
proof fn lemma_normal_arrow_head(g: SType, kinds: Map<Seq<char>, Kind>)
    requires
        is_normal(g),
        !(g is Abs),
        spec_kind_of(g, kinds) matches Ok(Kind::Arrow(_, _)),
    ensures
        head_var(g) is Some,
    decreases g,
{
    match g {
        SType::App(h, c) => {
            lemma_kind_unfold(*h, *c, Seq::empty(), Kind::Star, kinds);
            lemma_normal_arrow_head(*h, kinds);
        },
        SType::Arrow(a, b) => {
            lemma_kind_unfold(*a, *b, Seq::empty(), Kind::Star, kinds);
        },
        SType::ForAll(y, k, b) => {
            lemma_kind_unfold(*b, *b, y, k, kinds);
        },
        _ => {},
    }
}

/// Fuel from which normalization of `t` gives its normal form.
proof fn fuel_of(t: SType) -> (f: nat)
    requires
        normalizes(t),
    ensures
        forall|g: nat| g >= f ==> #[trigger] norm_fuel(t, g) == Some(spec_normalize(t)),
{
    let f = choose|f: nat| #[trigger] norm_fuel(t, f) is Some;
    lemma_norm_fuel_normalize(t, f);
    assert forall|g: nat| g >= f implies #[trigger] norm_fuel(t, g) == Some(spec_normalize(t)) by {
        lemma_norm_fuel_mono(t, f, g);
    }
    f
}

/// A normal form normalizes to itself.
proof fn lemma_normal_self(t: SType)
    requires
        is_normal(t),
    ensures
        normalizes(t),
        spec_normalize(t) == t,
{
    lemma_normal_fixed(t);
    lemma_norm_fuel_normalize(t, type_size(t));
}

/// One unfolding of `norm_fuel` on each compound form.
proof fn lemma_norm_fuel_unfold(a: SType, b: SType, x: Seq<char>, k: Kind, f: nat)
    ensures
        norm_fuel(SType::Arrow(Box::new(a), Box::new(b)), f + 1) == (match (norm_fuel(a, f), norm_fuel(b, f)) {
            (Some(a2), Some(b2)) => Some(SType::Arrow(Box::new(a2), Box::new(b2))),
            _ => None,
        }),
        norm_fuel(SType::ForAll(x, k, Box::new(b)), f + 1) == (match norm_fuel(b, f) {
            Some(b2) => Some(SType::ForAll(x, k, Box::new(b2))),
            None => None,
        }),
        norm_fuel(SType::Abs(x, k, Box::new(b)), f + 1) == (match norm_fuel(b, f) {
            Some(b2) => Some(SType::Abs(x, k, Box::new(b2))),
            None => None,
        }),
        norm_fuel(SType::App(Box::new(a), Box::new(b)), f + 1) == (match (norm_fuel(a, f), norm_fuel(b, f)) {
            (Some(g2), Some(a2)) => match g2 {
                SType::Abs(y, _, body) => norm_fuel(spec_type_subst(*body, y, a2), f),
                _ => Some(SType::App(Box::new(g2), Box::new(a2))),
            },
            _ => None,
        }),
{
}

/// One unfolding of substitution on each compound form.
pub proof fn lemma_subst_unfold(p: SType, q: SType, y: Seq<char>, k: Kind, x: Seq<char>, a: SType)
    ensures
        spec_type_subst(SType::Arrow(Box::new(p), Box::new(q)), x, a) == SType::Arrow(
            Box::new(spec_type_subst(p, x, a)),
            Box::new(spec_type_subst(q, x, a)),
        ),
        spec_type_subst(SType::App(Box::new(p), Box::new(q)), x, a) == SType::App(
            Box::new(spec_type_subst(p, x, a)),
            Box::new(spec_type_subst(q, x, a)),
        ),
        spec_type_subst(SType::ForAll(y, k, Box::new(q)), x, a) == SType::ForAll(
            subst_binder(y, q, x, a).0,
            k,
            Box::new(subst_binder(y, q, x, a).1),
        ),
        spec_type_subst(SType::Abs(y, k, Box::new(q)), x, a) == SType::Abs(
            subst_binder(y, q, x, a).0,
            k,
            Box::new(subst_binder(y, q, x, a).1),
        ),
{
}

/// Substituting a normal type of kind `k1` into a normal type gives a type
/// that normalizes, to a normal form of the same kind; a spine headed by a
/// variable other than `x` does not become an abstraction.
pub proof fn lemma_norm_subst(
    body: SType,
    x: Seq<char>,
    a: SType,
    kinds: Map<Seq<char>, Kind>,
    k1: Kind,
    k: Kind,
)
    requires
        is_normal(body),
        is_normal(a),
        spec_kind_of(a, kinds) == Ok::<Kind, SError>(k1),
        spec_kind_of(body, kinds.insert(x, k1)) == Ok::<Kind, SError>(k),
    ensures
        normalizes(spec_type_subst(body, x, a)),
        is_normal(spec_normalize(spec_type_subst(body, x, a))),
        spec_kind_of(spec_normalize(spec_type_subst(body, x, a)), kinds) == Ok::<Kind, SError>(k),
        head_var(body) is Some && head_var(body) != Some(x) ==> !(spec_normalize(
            spec_type_subst(body, x, a),
        ) is Abs),
    decreases kind_size(k1), type_size(body), 1nat,
{
    let kx = kinds.insert(x, k1);
    let u = spec_type_subst(body, x, a);
    match body {
        SType::Var(y) => {
            if y == x {
                lemma_normal_self(a);
            } else {
                lemma_normal_self(u);
            }
        },
        SType::Arrow(p, q) => {
            lemma_kind_unfold(*p, *q, x, Kind::Star, kx);
            lemma_subst_unfold(*p, *q, x, Kind::Star, x, a);
            lemma_norm_subst(*p, x, a, kinds, k1, Kind::Star);
            lemma_norm_subst(*q, x, a, kinds, k1, Kind::Star);
            let up = spec_type_subst(*p, x, a);
            let uq = spec_type_subst(*q, x, a);
            let fp = fuel_of(up);
            let fq = fuel_of(uq);
            let f = fp + fq;
            lemma_norm_fuel_unfold(up, uq, x, Kind::Star, f);
            assert(norm_fuel(up, f) == Some(spec_normalize(up)));
            assert(norm_fuel(uq, f) == Some(spec_normalize(uq)));
            lemma_norm_fuel_normalize(u, f + 1);
            lemma_kind_unfold(spec_normalize(up), spec_normalize(uq), x, Kind::Star, kinds);
        },
        SType::ForAll(y, ky, b) => {
            lemma_kind_unfold(*b, *b, y, ky, kx);
            lemma_subst_unfold(*b, *b, y, ky, x, a);
            lemma_norm_binder(y, ky, *b, x, a, kinds, k1, Kind::Star);
            let (y2, b2) = subst_binder(y, *b, x, a);
            let fb = fuel_of(b2);
            lemma_norm_fuel_unfold(b2, b2, y2, ky, fb);
            assert(norm_fuel(b2, fb) == Some(spec_normalize(b2)));
            lemma_norm_fuel_normalize(u, fb + 1);
            lemma_kind_unfold(spec_normalize(b2), spec_normalize(b2), y2, ky, kinds);
        },
        SType::Abs(y, ky, b) => {
            lemma_kind_unfold(*b, *b, y, ky, kx);
            lemma_subst_unfold(*b, *b, y, ky, x, a);
            let kb = spec_kind_of(*b, kx.insert(y, ky))->Ok_0;
            lemma_norm_binder(y, ky, *b, x, a, kinds, k1, kb);
            let (y2, b2) = subst_binder(y, *b, x, a);
            let fb = fuel_of(b2);
            lemma_norm_fuel_unfold(b2, b2, y2, ky, fb);
            assert(norm_fuel(b2, fb) == Some(spec_normalize(b2)));
            lemma_norm_fuel_normalize(u, fb + 1);
            lemma_kind_unfold(spec_normalize(b2), spec_normalize(b2), y2, ky, kinds);
        },
        SType::App(g, c) => {
            lemma_kind_unfold(*g, *c, x, Kind::Star, kx);
            lemma_subst_unfold(*g, *c, x, Kind::Star, x, a);
            let kg = spec_kind_of(*g, kx)->Ok_0;
            let kc = *kg->Arrow_0;
            assert(spec_check_kind(*c, kc, kx) is Ok);
            lemma_norm_subst(*g, x, a, kinds, k1, kg);
            lemma_norm_subst(*c, x, a, kinds, k1, kc);
            let ug = spec_type_subst(*g, x, a);
            let uc = spec_type_subst(*c, x, a);
            let ng = spec_normalize(ug);
            let nc = spec_normalize(uc);
            let fg = fuel_of(ug);
            let fc = fuel_of(uc);
            lemma_normal_arrow_head(*g, kx);
            if let SType::Abs(w, kw, nb) = ng {
                lemma_head_kind(*g, kx, x);
                lemma_kind_unfold(*nb, *nb, w, kw, kinds);
                lemma_norm_subst(*nb, w, nc, kinds, kc, k);
                let r = spec_type_subst(*nb, w, nc);
                let fr = fuel_of(r);
                let f = fg + fc + fr;
                lemma_norm_fuel_unfold(ug, uc, x, Kind::Star, f);
                assert(norm_fuel(ug, f) == Some(ng));
                assert(norm_fuel(uc, f) == Some(nc));
                assert(norm_fuel(r, f) == Some(spec_normalize(r)));
                lemma_norm_fuel_normalize(u, f + 1);
            } else {
                let f = fg + fc;
                lemma_norm_fuel_unfold(ug, uc, x, Kind::Star, f);
                assert(norm_fuel(ug, f) == Some(ng));
                assert(norm_fuel(uc, f) == Some(nc));
                lemma_norm_fuel_normalize(u, f + 1);
                lemma_kind_unfold(ng, nc, x, Kind::Star, kinds);
            }
        },
        _ => {
            lemma_normal_self(u);
        },
    }
}

proof fn lemma_norm_binder(
    y: Seq<char>,
    ky: Kind,
    b: SType,
    x: Seq<char>,
    a: SType,
    kinds: Map<Seq<char>, Kind>,
    k1: Kind,
    kb: Kind,
)
    requires
        is_normal(b),
        is_normal(a),
        spec_kind_of(a, kinds) == Ok::<Kind, SError>(k1),
        spec_kind_of(b, kinds.insert(x, k1).insert(y, ky)) == Ok::<Kind, SError>(kb),
    ensures
        normalizes(subst_binder(y, b, x, a).1),
        is_normal(spec_normalize(subst_binder(y, b, x, a).1)),
        spec_kind_of(
            spec_normalize(subst_binder(y, b, x, a).1),
            kinds.insert(subst_binder(y, b, x, a).0, ky),
        ) == Ok::<Kind, SError>(kb),
    decreases kind_size(k1), type_size(b), 2nat,
{
    let kbind = kinds.insert(x, k1).insert(y, ky);
    if y == x {
        assert(kinds.insert(y, ky) =~= kbind);
        lemma_normal_self(b);
    } else if type_vars(a).contains(y) {
        let avoid = type_vars(a).union(type_vars(b)).insert(x);
        lemma_type_vars_finite(a);
        lemma_type_vars_finite(b);
        let z = fresh_name_spec(y, avoid);
        lemma_fresh_name_fresh(y, avoid);
        lemma_type_subst_var_size(b, y, z);
        let renamed = spec_type_subst(b, y, SType::Var(z));
        lemma_normal_rename(b, y, z);
        let k0 = kinds.insert(x, k1).insert(z, ky);
        assert(agree_on(k0.insert(y, ky), kbind, type_vars(b)));
        lemma_kind_agree(b, k0.insert(y, ky), kbind);
        lemma_kind_subst(b, y, SType::Var(z), k0, ky);
        let kz = kinds.insert(z, ky);
        assert(agree_on(kz, kinds, type_vars(a)));
        lemma_kind_agree(a, kz, kinds);
        assert(kz.insert(x, k1) =~= k0);
        lemma_norm_subst(renamed, x, a, kz, k1, kb);
    } else {
        let ky2 = kinds.insert(y, ky);
        assert(agree_on(ky2, kinds, type_vars(a)));
        lemma_kind_agree(a, ky2, kinds);
        assert(ky2.insert(x, k1) =~= kbind);
        lemma_norm_subst(b, x, a, ky2, k1, kb);
    }
}

/// Every well-kinded type has a β-normal form, of the same kind:
/// normalizing a well-kinded type always comes to an end.
pub proof fn lemma_kinded_normalizes(t: SType, kinds: Map<Seq<char>, Kind>)
    requires
        spec_kind_of(t, kinds) is Ok,
    ensures
        normalizes(t),
        is_normal(spec_normalize(t)),
        spec_kind_of(spec_normalize(t), kinds) == spec_kind_of(t, kinds),
    decreases t,
{
    match t {
        SType::Arrow(p, q) => {
            lemma_kind_unfold(*p, *q, Seq::empty(), Kind::Star, kinds);
            lemma_kinded_normalizes(*p, kinds);
            lemma_kinded_normalizes(*q, kinds);
            let f = fuel_of(*p) + fuel_of(*q);
            lemma_norm_fuel_unfold(*p, *q, Seq::empty(), Kind::Star, f);
            assert(norm_fuel(*p, f) == Some(spec_normalize(*p)));
            assert(norm_fuel(*q, f) == Some(spec_normalize(*q)));
            lemma_norm_fuel_normalize(t, f + 1);
            lemma_kind_unfold(spec_normalize(*p), spec_normalize(*q), Seq::empty(), Kind::Star, kinds);
        },
        SType::ForAll(y, ky, b) | SType::Abs(y, ky, b) => {
            lemma_kind_unfold(*b, *b, y, ky, kinds);
            lemma_kinded_normalizes(*b, kinds.insert(y, ky));
            let f = fuel_of(*b);
            lemma_norm_fuel_unfold(*b, *b, y, ky, f);
            assert(norm_fuel(*b, f) == Some(spec_normalize(*b)));
            lemma_norm_fuel_normalize(t, f + 1);
            lemma_kind_unfold(spec_normalize(*b), spec_normalize(*b), y, ky, kinds);
        },
        SType::App(g, c) => {
            lemma_kind_unfold(*g, *c, Seq::empty(), Kind::Star, kinds);
            lemma_kinded_normalizes(*g, kinds);
            lemma_kinded_normalizes(*c, kinds);
            let kg = spec_kind_of(*g, kinds)->Ok_0;
            let kc = *kg->Arrow_0;
            let k = *kg->Arrow_1;
            let ng = spec_normalize(*g);
            let nc = spec_normalize(*c);
            let fg = fuel_of(*g);
            let fc = fuel_of(*c);
            if let SType::Abs(w, kw, nb) = ng {
                lemma_kind_unfold(*nb, *nb, w, kw, kinds);
                lemma_norm_subst(*nb, w, nc, kinds, kc, k);
                let r = spec_type_subst(*nb, w, nc);
                let f = fg + fc + fuel_of(r);
                lemma_norm_fuel_unfold(*g, *c, w, kw, f);
                assert(norm_fuel(*g, f) == Some(ng));
                assert(norm_fuel(*c, f) == Some(nc));
                assert(norm_fuel(r, f) == Some(spec_normalize(r)));
                lemma_norm_fuel_normalize(t, f + 1);
            } else {
                let f = fg + fc;
                lemma_norm_fuel_unfold(*g, *c, Seq::empty(), Kind::Star, f);
                assert(norm_fuel(*g, f) == Some(ng));
                assert(norm_fuel(*c, f) == Some(nc));
                lemma_norm_fuel_normalize(t, f + 1);
                lemma_kind_unfold(ng, nc, Seq::empty(), Kind::Star, kinds);
            }
        },
        _ => {
            lemma_normal_self(t);
        },
    }
}

/// A context whose term variables all have proper types (kind `*`) in the
/// kinds of the type variables in scope.
pub open spec fn ctx_wf(vals: Map<Seq<char>, SType>, kinds: Map<Seq<char>, Kind>) -> bool {
    forall|k: Seq<char>| #[trigger] vals.contains_key(k) ==> spec_kind_of(vals[k], kinds) == Ok::<
        Kind,
        SError,
    >(Kind::Star)
}

proof fn lemma_ctx_ftv_finite(vals: Map<Seq<char>, SType>)
    requires
        vals.dom().finite(),
    ensures
        ctx_ftv(vals).finite(),
    decreases vals.dom().len(),
{
    if vals.dom().len() == 0 {
        assert(vals.dom() =~= Set::<Seq<char>>::empty());
        assert(ctx_ftv(vals) =~= Set::<Seq<char>>::empty());
    } else {
        let k = vals.dom().choose();
        let rest = vals.remove(k);
        lemma_ctx_ftv_finite(rest);
        lemma_type_vars_finite(vals[k]);
        let big = ctx_ftv(rest).union(type_vars(vals[k]));
        assert(ctx_ftv(vals) =~= big.intersect(ctx_ftv(vals))) by {
            assert forall|v: Seq<char>| ctx_ftv(vals).contains(v) implies big.contains(v) by {
                let j = choose|j: Seq<char>| vals.contains_key(j) && #[trigger] type_vars(vals[j]).contains(v);
                if j != k {
                    assert(rest.contains_key(j) && type_vars(rest[j]).contains(v));
                }
            }
        }
    }
}

/// A well-kinded context stays well-kinded when a type variable that is
/// free in none of its types is put in scope.
proof fn lemma_ctx_wf_extend(vals: Map<Seq<char>, SType>, kinds: Map<Seq<char>, Kind>, y: Seq<char>, k: Kind)
    requires
        ctx_wf(vals, kinds),
        !ctx_ftv(vals).contains(y),
    ensures
        ctx_wf(vals, kinds.insert(y, k)),
{
    assert forall|j: Seq<char>| #[trigger] vals.contains_key(j) implies spec_kind_of(vals[j], kinds.insert(y, k))
        == Ok::<Kind, SError>(Kind::Star) by {
        assert(agree_on(kinds.insert(y, k), kinds, type_vars(vals[j])));
        lemma_kind_agree(vals[j], kinds.insert(y, k), kinds);
    }
}

/// Checking a term in a well-kinded context only ever normalizes types
/// that have normal forms, so it comes to an end; and every type it infers
/// is a proper type.
#[verifier::rlimit(30)]
pub proof fn lemma_infer_total(t: STerm, vals: Map<Seq<char>, SType>, kinds: Map<Seq<char>, Kind>)
    requires
        ctx_wf(vals, kinds),
        vals.dom().finite(),
    ensures
        infer_total(t, vals, kinds),
        spec_infer(t, vals, kinds) is Ok ==> spec_kind_of(spec_infer(t, vals, kinds)->Ok_0, kinds)
            == Ok::<Kind, SError>(Kind::Star),
    decreases term_size(t),
{
    match t {
        STerm::Var(x) => {},
        STerm::Abs(x, ty, body) => {
            if spec_check_kind(ty, Kind::Star, kinds) is Ok {
                let v2 = vals.insert(x, ty);
                assert(v2.dom() =~= vals.dom().insert(x));
                lemma_infer_total(*body, v2, kinds);
                if let Ok(bt) = spec_infer(*body, v2, kinds) {
                    lemma_kind_unfold(ty, bt, x, Kind::Star, kinds);
                }
            }
        },
        STerm::App(f, a) => {
            lemma_infer_total(*f, vals, kinds);
            lemma_infer_total(*a, vals, kinds);
            if let Ok(ft) = spec_infer(*f, vals, kinds) {
                lemma_kinded_normalizes(ft, kinds);
                if let SType::Arrow(param, ret) = spec_normalize(ft) {
                    lemma_kind_unfold(*param, *ret, Seq::empty(), Kind::Star, kinds);
                    lemma_kinded_normalizes(*param, kinds);
                    if let Ok(aty) = spec_infer(*a, vals, kinds) {
                        lemma_kinded_normalizes(aty, kinds);
                    }
                }
            }
        },
        STerm::TyAbs(x, k, body) => {
            lemma_ctx_ftv_finite(vals);
            if ctx_ftv(vals).contains(x) {
                let y = renamed_binder(x, *body, vals);
                lemma_ftv_term_finite(*body);
                lemma_fresh_name_fresh(x, ctx_ftv(vals).union(ftv_term(*body)));
                lemma_ty_subst_in_term_size(*body, x, SType::Var(y));
                let b2 = spec_ty_subst_in_term(*body, x, SType::Var(y));
                lemma_ctx_wf_extend(vals, kinds, y, k);
                lemma_infer_total(b2, vals, kinds.insert(y, k));
                if let Ok(bt) = spec_infer(b2, vals, kinds.insert(y, k)) {
                    lemma_kind_unfold(bt, bt, y, k, kinds);
                }
            } else {
                lemma_ctx_wf_extend(vals, kinds, x, k);
                lemma_infer_total(*body, vals, kinds.insert(x, k));
                if let Ok(bt) = spec_infer(*body, vals, kinds.insert(x, k)) {
                    lemma_kind_unfold(bt, bt, x, k, kinds);
                }
            }
        },
        STerm::TyApp(f, ty_arg) => {
            lemma_infer_total(*f, vals, kinds);
            if let Ok(arg_k) = spec_kind_of(ty_arg, kinds) {
                if let Ok(ft) = spec_infer(*f, vals, kinds) {
                    lemma_kinded_normalizes(ft, kinds);
                    if let SType::ForAll(x, k, body) = spec_normalize(ft) {
                        lemma_kind_unfold(*body, *body, x, k, kinds);
                        if k == arg_k {
                            lemma_kind_subst(*body, x, ty_arg, kinds, k);
                        }
                    }
                }
            }
        },
        STerm::If(c, t1, t2) => {
            lemma_infer_total(*c, vals, kinds);
            lemma_infer_total(*t1, vals, kinds);
            lemma_infer_total(*t2, vals, kinds);
            if let Ok(tc) = spec_infer(*c, vals, kinds) {
                lemma_kinded_normalizes(tc, kinds);
            }
            if let Ok(tt) = spec_infer(*t1, vals, kinds) {
                lemma_kinded_normalizes(tt, kinds);
            }
            if let Ok(te) = spec_infer(*t2, vals, kinds) {
                lemma_kinded_normalizes(te, kinds);
            }
        },
        STerm::BinOp(_, a, b) => {
            lemma_infer_total(*a, vals, kinds);
            lemma_infer_total(*b, vals, kinds);
            if let Ok(ta) = spec_infer(*a, vals, kinds) {
                lemma_kinded_normalizes(ta, kinds);
            }
            if let Ok(tb) = spec_infer(*b, vals, kinds) {
                lemma_kinded_normalizes(tb, kinds);
            }
        },
        STerm::Let(x, e1, e2) => {
            lemma_infer_total(*e1, vals, kinds);
            if let Ok(t1) = spec_infer(*e1, vals, kinds) {
                let v2 = vals.insert(x, t1);
                assert(v2.dom() =~= vals.dom().insert(x));
                lemma_infer_total(*e2, v2, kinds);
            }
        },
        _ => {},
    }
}

proof fn lemma_ftv_term_finite(t: STerm)
    ensures
        ftv_term(t).finite(),
    decreases t,
{
    match t {
        STerm::Abs(_, ty, b) => {
            lemma_type_vars_finite(ty);
            lemma_ftv_term_finite(*b);
        },
        STerm::App(a, b) | STerm::BinOp(_, a, b) | STerm::Let(_, a, b) => {
            lemma_ftv_term_finite(*a);
            lemma_ftv_term_finite(*b);
        },
        STerm::TyAbs(_, _, b) => lemma_ftv_term_finite(*b),
        STerm::TyApp(f, ty) => {
            lemma_type_vars_finite(ty);
            lemma_ftv_term_finite(*f);
        },
        STerm::If(c, a, b) => {
            lemma_ftv_term_finite(*c);
            lemma_ftv_term_finite(*a);
            lemma_ftv_term_finite(*b);
        },
        _ => {},
    }
}

} // verus!
