//! Algorithm W: principal-type inference for Hindley-Milner. Polymorphism
//! comes from `let`: the type of the bound term is generalized over the
//! type variables that the environment does not constrain.

use vstd::prelude::*;

use crate::hm::ast::{
    has_fix, show_scheme, show_type, type_size, BinOp, SScheme, STerm, SType, Scheme, Term, Type,
};
use crate::names::{
    bindings_map, concat, contains_name, dec, decimal, distinct_names, extend_names, insert_name,
    lemma_bindings_live, lemma_bindings_take, lemma_dec_injective, lemma_name_set_empty, name_set, names_of, push_char, remove_name,
    shadowed, sort_names, sorted_names, strictly_sorted, Dup, NameMap,
};

verus! {

impl Dup for Type {
    fn dup(&self) -> (r: Type) {
        self.duplicate()
    }
}

impl Dup for Scheme {
    fn dup(&self) -> (r: Scheme) {
        self.duplicate()
    }
}

/// A substitution: type variables mapped to types.
pub type Subst = NameMap<Type>;

/// A type environment: variables mapped to their schemes.
pub type Env = NameMap<Scheme>;

#[derive(Debug)]
pub enum TypeError {
    UnboundVariable(String),
    Mismatch { t1: Type, t2: Type },
    OccursCheck { var: String, ty: Type },
}

pub enum SError {
    UnboundVariable(Seq<char>),
    Mismatch { t1: SType, t2: SType },
    OccursCheck { var: Seq<char>, ty: SType },
}

impl View for TypeError {
    type V = SError;

    open spec fn view(&self) -> SError {
        match self {
            TypeError::UnboundVariable(x) => SError::UnboundVariable(x@),
            TypeError::Mismatch { t1, t2 } => SError::Mismatch { t1: t1@, t2: t2@ },
            TypeError::OccursCheck { var, ty } => SError::OccursCheck { var: var@, ty: ty@ },
        }
    }
}

/// The message of a type error.
pub open spec fn error_text(e: SError) -> Seq<char> {
    match e {
        SError::UnboundVariable(x) => "unbound variable: "@ + x,
        SError::Mismatch { t1, t2 } => "cannot unify types: "@ + show_type(t1, 0) + " and "@
            + show_type(t2, 0),
        SError::OccursCheck { var, ty } => "occurs check failed: "@ + var
            + " would refer to itself in "@ + show_type(ty, 0)
            + "\n  (a type cannot contain itself — this rejects terms like \\x. x x)"@,
    }
}

impl TypeError {
    /// The message, e.g. `cannot unify types: Int and Bool`.
    pub fn to_string(&self) -> (s: String)
        ensures
            s@ == error_text(self@),
    {
        match self {
            TypeError::UnboundVariable(x) => {
                let mut s = String::from_str("unbound variable: ");
                s.append(x.as_str());
                s
            },
            TypeError::Mismatch { t1, t2 } => {
                let mut s = String::from_str("cannot unify types: ");
                t1.write_prec(&mut s, 0);
                s.append(" and ");
                t2.write_prec(&mut s, 0);
                s
            },
            TypeError::OccursCheck { var, ty } => {
                let mut s = String::from_str("occurs check failed: ");
                s.append(var.as_str());
                s.append(" would refer to itself in ");
                ty.write_prec(&mut s, 0);
                s.append("\n  (a type cannot contain itself — this rejects terms like \\x. x x)");
                s
            },
        }
    }
}

// ===== fresh type variables =====

/// The supply of fresh type variables `t0`, `t1`, …
pub struct State {
    counter: u32,
}

/// The `n`-th fresh type variable, `t{n}`.
pub open spec fn tvar(n: nat) -> SType {
    SType::Var(seq!['t'] + dec(n))
}

/// Distinct indices give distinct fresh variables, so no two calls of
/// `fresh` on one `State` return the same variable.
pub proof fn lemma_tvar_injective(i: nat, j: nat)
    ensures
        tvar(i) == tvar(j) <==> i == j,
{
    if tvar(i) == tvar(j) {
        let a = seq!['t'] + dec(i);
        let b = seq!['t'] + dec(j);
        assert(a.subrange(1, a.len() as int) =~= dec(i));
        assert(b.subrange(1, b.len() as int) =~= dec(j));
        lemma_dec_injective(i, j);
    }
}

impl State {
    /// The index of the next fresh variable.
    pub closed spec fn next(&self) -> nat {
        self.counter as nat
    }

    /// A supply that starts at `t0`.
    pub fn new() -> (st: State)
        ensures
            st.next() == 0,
    {
        State { counter: 0 }
    }

    /// The next fresh type variable.
    pub fn fresh(&mut self) -> (t: Type)
        requires
            old(self).next() < u32::MAX,
        ensures
            t@ == tvar(old(self).next()),
            final(self).next() == old(self).next() + 1,
    {
        let n = self.counter;
        self.counter = self.counter + 1;
        let num = decimal(n as u128);
        let name = concat("t", num.as_str());
        proof {
            reveal_strlit("t");
            assert("t"@ =~= seq!['t']);
        }
        Type::Var(name)
    }
}

impl Default for State {
    fn default() -> (st: State)
        ensures
            st.next() == 0,
    {
        State::new()
    }
}

// ===== free type variables =====

/// The type variables of a monotype.
pub open spec fn type_vars(t: SType) -> Set<Seq<char>>
    decreases t,
{
    match t {
        SType::Var(x) => set![x],
        SType::Arrow(a, b) => type_vars(*a).union(type_vars(*b)),
        _ => Set::empty(),
    }
}

pub proof fn lemma_type_vars_finite(t: SType)
    ensures
        type_vars(t).finite(),
    decreases t,
{
    if let SType::Arrow(a, b) = t {
        lemma_type_vars_finite(*a);
        lemma_type_vars_finite(*b);
    }
}

/// The free type variables of a scheme: those of its type, less the
/// quantified ones.
pub open spec fn scheme_vars(s: SScheme) -> Set<Seq<char>> {
    type_vars(s.ty).difference(s.vars.to_set())
}

/// The free type variables of an environment.
pub open spec fn env_vars(env: Map<Seq<char>, SScheme>) -> Set<Seq<char>> {
    Set::new(
        |v: Seq<char>| exists|k: Seq<char>| env.contains_key(k) && #[trigger] scheme_vars(env[k]).contains(v),
    )
}

/// The type variables of `t`, each once.
pub fn ftv(t: &Type) -> (r: Vec<String>)
    ensures
        name_set(r@) == type_vars(t@),
        distinct_names(r@),
{
    let mut acc: Vec<String> = Vec::new();
    proof {
        lemma_name_set_empty(acc@);
    }
    collect_ftv(t, &mut acc);
    assert(name_set(acc@) =~= type_vars(t@));
    acc
}

fn collect_ftv(t: &Type, acc: &mut Vec<String>)
    ensures
        name_set(final(acc)@) == name_set(old(acc)@).union(type_vars(t@)),
        distinct_names(old(acc)@) ==> distinct_names(final(acc)@),
    decreases t,
{
    match t {
        Type::Var(x) => {
            insert_name(acc, x);
        },
        Type::Int | Type::Bool => {},
        Type::Arrow(a, b) => {
            collect_ftv(a, acc);
            collect_ftv(b, acc);
        },
    }
    assert(name_set(acc@) =~= name_set(old(acc)@).union(type_vars(t@)));
}

/// The free type variables of a scheme, each once.
pub fn ftv_scheme(s: &Scheme) -> (r: Vec<String>)
    ensures
        name_set(r@) == scheme_vars(s@),
        distinct_names(r@),
{
    let mut fv = ftv(&s.ty);
    let mut i: usize = 0;
    while i < s.vars.len()
        invariant
            i <= s.vars.len(),
            name_set(fv@) == type_vars(s.ty@).difference(names_of(s.vars@).take(i as int).to_set()),
            distinct_names(fv@),
        decreases s.vars.len() - i,
    {
        fv = remove_name(&fv, &s.vars[i]);
        proof {
            let vs = names_of(s.vars@);
            assert(vs.take(i + 1) =~= vs.take(i as int).push(vs[i as int]));
            vs.take(i as int).lemma_push_to_set_commute(vs[i as int]);
        }
        assert(name_set(fv@) =~= type_vars(s.ty@).difference(
            names_of(s.vars@).take(i + 1).to_set(),
        ));
        i = i + 1;
    }
    assert(names_of(s.vars@).take(i as int) =~= names_of(s.vars@));
    fv
}

/// The free type variables of an environment, each once.
pub fn ftv_env(env: &Env) -> (r: Vec<String>)
    ensures
        name_set(r@) == env_vars(env@),
        distinct_names(r@),
{
    let mut acc: Vec<String> = Vec::new();
    proof {
        lemma_name_set_empty(acc@);
    }
    let n = env.entries.len();
    let mut j: usize = 0;
    while j < n
        invariant
            j <= n,
            n == env.entries.len(),
            distinct_names(acc@),
            forall|v: Seq<char>| #[trigger] name_set(acc@).contains(v) <==> exists|i: int|
                0 <= i < j && !shadowed(env.entries@, i) && scheme_vars(
                    env.entries@[i].1@,
                ).contains(v),
        decreases n - j,
    {
        let mut hidden = false;
        let mut i = j + 1;
        while i < n
            invariant
                j < i <= n,
                n == env.entries.len(),
                hidden <==> exists|m: int| j < m < i && (#[trigger] env.entries@[m]).0@ == env.entries@[j as int].0@,
            decreases n - i,
        {
            if env.entries[i].0 == env.entries[j].0 {
                hidden = true;
            }
            i = i + 1;
        }
        assert(hidden == shadowed(env.entries@, j as int));
        if !hidden {
            let fs = ftv_scheme(&env.entries[j].1);
            extend_names(&mut acc, &fs);
        }
        proof {
            assert forall|v: Seq<char>| #[trigger] name_set(acc@).contains(v) <==> exists|i: int|
                0 <= i < j + 1 && !shadowed(env.entries@, i) && scheme_vars(
                    env.entries@[i].1@,
                ).contains(v) by {
                if exists|i: int|
                    0 <= i < j + 1 && !shadowed(env.entries@, i) && scheme_vars(
                        env.entries@[i].1@,
                    ).contains(v) {
                    let i = choose|i: int|
                        0 <= i < j + 1 && !shadowed(env.entries@, i) && scheme_vars(
                            env.entries@[i].1@,
                        ).contains(v);
                    if i < j {
                    }
                }
            }
        }
        j = j + 1;
    }
    proof {
        let s = env.entries@;
        assert forall|v: Seq<char>| name_set(acc@).contains(v) <==> env_vars(env@).contains(v) by {
            if name_set(acc@).contains(v) {
                let i = choose|i: int|
                    0 <= i < n && !shadowed(s, i) && scheme_vars(s[i].1@).contains(v);
                lemma_bindings_live(s, s[i].0@);
                assert(env@.contains_key(s[i].0@));
                assert(scheme_vars(env@[s[i].0@]).contains(v));
            }
            if env_vars(env@).contains(v) {
                let k = choose|k: Seq<char>| env@.contains_key(k) && #[trigger] scheme_vars(env@[k]).contains(v);
                lemma_bindings_live(s, k);
                let i = choose|i: int| 0 <= i < s.len() && (#[trigger] s[i]).0@ == k && !shadowed(s, i);
                assert(scheme_vars(s[i].1@).contains(v));
            }
        }
        assert(name_set(acc@) =~= env_vars(env@));
    }
    acc
}

// ===== substitutions =====

/// Applying a substitution to a type.
pub open spec fn subst_type(s: Map<Seq<char>, SType>, t: SType) -> SType
    decreases t,
{
    match t {
        SType::Var(x) => if s.contains_key(x) {
            s[x]
        } else {
            t
        },
        SType::Arrow(a, b) => SType::Arrow(Box::new(subst_type(s, *a)), Box::new(subst_type(s, *b))),
        _ => t,
    }
}

/// Applying a substitution to a scheme leaves its quantified variables alone.
pub open spec fn subst_scheme(s: Map<Seq<char>, SType>, sch: SScheme) -> SScheme {
    SScheme { vars: sch.vars, ty: subst_type(s.remove_keys(sch.vars.to_set()), sch.ty) }
}

/// Applying a substitution to every scheme of an environment.
pub open spec fn subst_env(s: Map<Seq<char>, SType>, env: Map<Seq<char>, SScheme>) -> Map<
    Seq<char>,
    SScheme,
> {
    env.map_values(|sch: SScheme| subst_scheme(s, sch))
}

/// The composition `s1 ∘ s2`: first `s2`, then `s1`.
pub open spec fn compose_map(s1: Map<Seq<char>, SType>, s2: Map<Seq<char>, SType>) -> Map<
    Seq<char>,
    SType,
> {
    Map::new(
        |k: Seq<char>| s2.contains_key(k) || s1.contains_key(k),
        |k: Seq<char>|
            if s2.contains_key(k) {
                subst_type(s1, s2[k])
            } else {
                s1[k]
            },
    )
}

/// Applying `s1 ∘ s2` is applying `s2`, then `s1`.
pub proof fn lemma_compose_apply(s1: Map<Seq<char>, SType>, s2: Map<Seq<char>, SType>, t: SType)
    ensures
        subst_type(compose_map(s1, s2), t) == subst_type(s1, subst_type(s2, t)),
    decreases t,
{
    if let SType::Arrow(a, b) = t {
        lemma_compose_apply(s1, s2, *a);
        lemma_compose_apply(s1, s2, *b);
    }
}

/// Applies a substitution to a type.
pub fn apply_type(s: &Subst, t: &Type) -> (r: Type)
    ensures
        r@ == subst_type(s@, t@),
    decreases t,
{
    match t {
        Type::Int => Type::Int,
        Type::Bool => Type::Bool,
        Type::Var(x) => match s.get(x) {
            Some(v) => v.duplicate(),
            None => Type::Var(x.clone()),
        },
        Type::Arrow(a, b) => Type::arrow(apply_type(s, a), apply_type(s, b)),
    }
}

/// The bindings of `s` whose names are not in `drop`.
fn without_keys(s: &Subst, drop: &Vec<String>) -> (r: Subst)
    ensures
        r@ == s@.remove_keys(name_set(drop@)),
{
    let mut out: Vec<(String, Type)> = Vec::new();
    let mut i: usize = 0;
    while i < s.entries.len()
        invariant
            i <= s.entries.len(),
            bindings_map(out@) == bindings_map(s.entries@.take(i as int)).remove_keys(
                name_set(drop@),
            ),
        decreases s.entries.len() - i,
    {
        let e = &s.entries[i];
        proof {
            lemma_bindings_take(s.entries@, i as int);
        }
        if !contains_name(drop, &e.0) {
            let ghost before = out@;
            out.push((e.0.clone(), e.1.duplicate()));
            proof {
                crate::names::lemma_bindings_push(before, out@.last());
                assert(out@ == before.push(out@.last()));
            }
            assert(bindings_map(out@) =~= bindings_map(s.entries@.take(i + 1)).remove_keys(
                name_set(drop@),
            ));
        } else {
            assert(bindings_map(out@) =~= bindings_map(s.entries@.take(i + 1)).remove_keys(
                name_set(drop@),
            ));
        }
        i = i + 1;
    }
    assert(s.entries@.take(i as int) =~= s.entries@);
    NameMap { entries: out }
}

/// Applies a substitution to a scheme, leaving its quantified variables
/// alone.
pub fn apply_scheme(s: &Subst, sch: &Scheme) -> (r: Scheme)
    ensures
        r@ == subst_scheme(s@, sch@),
{
    let s_filtered = without_keys(s, &sch.vars);
    assert(name_set(sch.vars@) =~= names_of(sch.vars@).to_set()) by {
        assert forall|n: Seq<char>| name_set(sch.vars@).contains(n) implies names_of(
            sch.vars@,
        ).to_set().contains(n) by {
            let i = choose|i: int| 0 <= i < sch.vars@.len() && (#[trigger] sch.vars@[i])@ == n;
            assert(names_of(sch.vars@)[i] == n);
        }
        assert forall|n: Seq<char>| names_of(sch.vars@).to_set().contains(n) implies name_set(
            sch.vars@,
        ).contains(n) by {
            let i = choose|i: int| 0 <= i < names_of(sch.vars@).len() && names_of(sch.vars@)[i] == n;
            assert(sch.vars@[i]@ == n);
        }
    }
    let ty = apply_type(&s_filtered, &sch.ty);
    let d = sch.duplicate();
    Scheme { vars: d.vars, ty }
}

/// Applies a substitution to every scheme of an environment.
pub fn apply_env(s: &Subst, env: &Env) -> (r: Env)
    ensures
        r@ == subst_env(s@, env@),
{
    let mut out: Vec<(String, Scheme)> = Vec::new();
    let mut i: usize = 0;
    while i < env.entries.len()
        invariant
            i <= env.entries.len(),
            bindings_map(out@) == subst_env(s@, bindings_map(env.entries@.take(i as int))),
        decreases env.entries.len() - i,
    {
        let e = &env.entries[i];
        proof {
            lemma_bindings_take(env.entries@, i as int);
        }
        let ghost before = out@;
        out.push((e.0.clone(), apply_scheme(s, &e.1)));
        proof {
            crate::names::lemma_bindings_push(before, out@.last());
            assert(out@ == before.push(out@.last()));
        }
        assert(bindings_map(out@) =~= subst_env(s@, bindings_map(env.entries@.take(i + 1))));
        i = i + 1;
    }
    assert(env.entries@.take(i as int) =~= env.entries@);
    NameMap { entries: out }
}

/// Whether `s` binds `k`.
fn binds(s: &Subst, k: &String) -> (r: bool)
    ensures
        r == s@.contains_key(k@),
{
    match s.get(k) {
        Some(_) => true,
        None => false,
    }
}

/// The composition `s1 ∘ s2`: applying it is applying `s2`, then `s1`.
pub fn compose(s1: &Subst, s2: &Subst) -> (r: Subst)
    ensures
        r@ == compose_map(s1@, s2@),
{
    let mut out: Vec<(String, Type)> = Vec::new();
    let mut i: usize = 0;
    while i < s2.entries.len()
        invariant
            i <= s2.entries.len(),
            bindings_map(out@) == bindings_map(s2.entries@.take(i as int)).map_values(
                |v: SType| subst_type(s1@, v),
            ),
        decreases s2.entries.len() - i,
    {
        let e = &s2.entries[i];
        proof {
            lemma_bindings_take(s2.entries@, i as int);
        }
        let ghost before = out@;
        out.push((e.0.clone(), apply_type(s1, &e.1)));
        proof {
            crate::names::lemma_bindings_push(before, out@.last());
            assert(out@ == before.push(out@.last()));
        }
        assert(bindings_map(out@) =~= bindings_map(s2.entries@.take(i + 1)).map_values(
            |v: SType| subst_type(s1@, v),
        ));
        i = i + 1;
    }
    assert(s2.entries@.take(i as int) =~= s2.entries@);
    let ghost head = bindings_map(out@);
    let mut j: usize = 0;
    while j < s1.entries.len()
        invariant
            j <= s1.entries.len(),
            bindings_map(out@) == head.union_prefer_right(
                bindings_map(s1.entries@.take(j as int)).remove_keys(s2@.dom()),
            ),
            head == s2@.map_values(|v: SType| subst_type(s1@, v)),
        decreases s1.entries.len() - j,
    {
        let e = &s1.entries[j];
        proof {
            lemma_bindings_take(s1.entries@, j as int);
        }
        if !binds(s2, &e.0) {
            let ghost before = out@;
            out.push((e.0.clone(), e.1.duplicate()));
            proof {
                crate::names::lemma_bindings_push(before, out@.last());
                assert(out@ == before.push(out@.last()));
            }
            assert(bindings_map(out@) =~= head.union_prefer_right(
                bindings_map(s1.entries@.take(j + 1)).remove_keys(s2@.dom()),
            ));
        } else {
            assert(bindings_map(out@) =~= head.union_prefer_right(
                bindings_map(s1.entries@.take(j + 1)).remove_keys(s2@.dom()),
            ));
        }
        j = j + 1;
    }
    assert(s1.entries@.take(j as int) =~= s1.entries@);
    assert(bindings_map(out@) =~= compose_map(s1@, s2@));
    NameMap { entries: out }
}

// ===== unification =====

/// The type variables of two types.
pub open spec fn pair_vars(t1: SType, t2: SType) -> Set<Seq<char>> {
    type_vars(t1).union(type_vars(t2))
}

/// Binding a variable to a type, unless it is that variable or occurs in it.
pub open spec fn bind_var(a: Seq<char>, other: SType) -> Result<Map<Seq<char>, SType>, SError> {
    if other == SType::Var(a) {
        Ok(Map::empty())
    } else if type_vars(other).contains(a) {
        Err(SError::OccursCheck { var: a, ty: other })
    } else {
        Ok(map![a => other])
    }
}

/// Robinson's unification. For two arrows the parameter types are unified
/// first and the result types under that substitution next.
pub open spec fn spec_unify(t1: SType, t2: SType) -> Result<Map<Seq<char>, SType>, SError>
    decreases pair_vars(t1, t2).len(), type_size(t1) + type_size(t2),
{
    if (t1 is Int && t2 is Int) || (t1 is Bool && t2 is Bool) {
        Ok(Map::empty())
    } else if t1 is Arrow && t2 is Arrow {
        let a1 = *t1->Arrow_0;
        let b1 = *t1->Arrow_1;
        let a2 = *t2->Arrow_0;
        let b2 = *t2->Arrow_1;
        if pair_vars(a1, a2).len() <= pair_vars(t1, t2).len() {
            match spec_unify(a1, a2) {
                Ok(s1) => {
                    let c1 = subst_type(s1, b1);
                    let c2 = subst_type(s1, b2);
                    if pair_vars(c1, c2).len() < pair_vars(t1, t2).len() || (pair_vars(c1, c2).len()
                        == pair_vars(t1, t2).len() && type_size(c1) + type_size(c2) < type_size(t1)
                        + type_size(t2)) {
                        match spec_unify(c1, c2) {
                            Ok(s2) => Ok(compose_map(s2, s1)),
                            Err(e) => Err(e),
                        }
                    } else {
                        Err(SError::Mismatch { t1, t2 })
                    }
                },
                Err(e) => Err(e),
            }
        } else {
            Err(SError::Mismatch { t1, t2 })
        }
    } else if t1 is Var {
        bind_var(t1->Var_0, t2)
    } else if t2 is Var {
        bind_var(t2->Var_0, t1)
    } else {
        Err(SError::Mismatch { t1, t2 })
    }
}

/// A substitution whose variables all come from `vs` and whose bound
/// variables occur in none of its types (so applying it twice is applying
/// it once).
pub open spec fn idempotent_within(s: Map<Seq<char>, SType>, vs: Set<Seq<char>>) -> bool {
    &&& s.dom().subset_of(vs)
    &&& forall|k: Seq<char>| #[trigger] s.contains_key(k) ==> type_vars(s[k]).subset_of(
        vs.difference(s.dom()),
    )
}

proof fn lemma_subst_vars(s: Map<Seq<char>, SType>, vs: Set<Seq<char>>, t: SType)
    requires
        idempotent_within(s, vs),
    ensures
        type_vars(subst_type(s, t)).subset_of(
            type_vars(t).difference(s.dom()).union(vs.difference(s.dom())),
        ),
    decreases t,
{
    if let SType::Arrow(a, b) = t {
        lemma_subst_vars(s, vs, *a);
        lemma_subst_vars(s, vs, *b);
    }
}

/// A substitution that binds none of the variables of `t` leaves it alone.
pub proof fn lemma_subst_disjoint(s: Map<Seq<char>, SType>, t: SType)
    requires
        s.dom().disjoint(type_vars(t)),
    ensures
        subst_type(s, t) == t,
    decreases t,
{
    if let SType::Arrow(a, b) = t {
        lemma_subst_disjoint(s, *a);
        lemma_subst_disjoint(s, *b);
    }
}

proof fn lemma_pair_vars_finite(t1: SType, t2: SType)
    ensures
        pair_vars(t1, t2).finite(),
{
    lemma_type_vars_finite(t1);
    lemma_type_vars_finite(t2);
}

/// The measure of the first recursive call does not grow.
proof fn lemma_unify_first(t1: SType, t2: SType)
    requires
        t1 is Arrow,
        t2 is Arrow,
    ensures
        pair_vars(*t1->Arrow_0, *t2->Arrow_0).len() <= pair_vars(t1, t2).len(),
{
    lemma_pair_vars_finite(t1, t2);
    vstd::set_lib::lemma_len_subset(pair_vars(*t1->Arrow_0, *t2->Arrow_0), pair_vars(t1, t2));
}

/// After the parameter types are unified by an idempotent `s1`, the result
/// types have a smaller measure.
proof fn lemma_unify_second(t1: SType, t2: SType, s1: Map<Seq<char>, SType>)
    requires
        t1 is Arrow,
        t2 is Arrow,
        idempotent_within(s1, pair_vars(*t1->Arrow_0, *t2->Arrow_0)),
    ensures
        ({
            let c1 = subst_type(s1, *t1->Arrow_1);
            let c2 = subst_type(s1, *t2->Arrow_1);
            &&& pair_vars(c1, c2).subset_of(pair_vars(t1, t2).difference(s1.dom()))
            &&& (pair_vars(c1, c2).len() < pair_vars(t1, t2).len() || (pair_vars(c1, c2).len()
                == pair_vars(t1, t2).len() && type_size(c1) + type_size(c2) < type_size(t1)
                + type_size(t2)))
        }),
{
    let a1 = *t1->Arrow_0;
    let b1 = *t1->Arrow_1;
    let a2 = *t2->Arrow_0;
    let b2 = *t2->Arrow_1;
    let va = pair_vars(a1, a2);
    let v = pair_vars(t1, t2);
    let c1 = subst_type(s1, b1);
    let c2 = subst_type(s1, b2);
    lemma_subst_vars(s1, va, b1);
    lemma_subst_vars(s1, va, b2);
    assert(pair_vars(c1, c2).subset_of(v.difference(s1.dom())));
    lemma_pair_vars_finite(t1, t2);
    assert(va.subset_of(v));
    vstd::set_lib::lemma_set_subset_finite(v, va);
    vstd::set_lib::lemma_set_subset_finite(va, s1.dom());
    if s1.dom().len() == 0 {
        assert(s1.dom() =~= Set::empty());
        lemma_subst_disjoint(s1, b1);
        lemma_subst_disjoint(s1, b2);
        vstd::set_lib::lemma_len_subset(pair_vars(c1, c2), v);
    } else {
        let k = s1.dom().choose();
        assert(s1.dom().contains(k)) by {
            if !s1.dom().contains(k) {
                assert(s1.dom() =~= Set::empty());
            }
        }
        assert(pair_vars(c1, c2).subset_of(v.remove(k)));
        vstd::set_lib::lemma_len_subset(pair_vars(c1, c2), v.remove(k));
    }
}

/// What unification gives back is an idempotent unifier over the variables
/// of the two types.
pub proof fn lemma_unify_sound(t1: SType, t2: SType)
    ensures
        spec_unify(t1, t2) matches Ok(s) ==> idempotent_within(s, pair_vars(t1, t2))
            && subst_type(s, t1) == subst_type(s, t2),
    decreases pair_vars(t1, t2).len(), type_size(t1) + type_size(t2),
{
    if (t1 is Int && t2 is Int) || (t1 is Bool && t2 is Bool) {
    } else if t1 is Arrow && t2 is Arrow {
        let a1 = *t1->Arrow_0;
        let b1 = *t1->Arrow_1;
        let a2 = *t2->Arrow_0;
        let b2 = *t2->Arrow_1;
        lemma_unify_first(t1, t2);
        lemma_unify_sound(a1, a2);
        if let Ok(s1) = spec_unify(a1, a2) {
            lemma_unify_second(t1, t2, s1);
            let c1 = subst_type(s1, b1);
            let c2 = subst_type(s1, b2);
            lemma_unify_sound(c1, c2);
            if let Ok(s2) = spec_unify(c1, c2) {
                let s = compose_map(s2, s1);
                let v = pair_vars(t1, t2);
                let va = pair_vars(a1, a2);
                let vc = pair_vars(c1, c2);
                assert(s.dom() =~= s1.dom().union(s2.dom()));
                assert forall|k: Seq<char>| #[trigger] s.contains_key(k) implies type_vars(
                    s[k],
                ).subset_of(v.difference(s.dom())) by {
                    if s1.contains_key(k) {
                        lemma_subst_vars(s2, vc, s1[k]);
                    }
                }
                lemma_compose_apply(s2, s1, a1);
                lemma_compose_apply(s2, s1, a2);
                lemma_compose_apply(s2, s1, b1);
                lemma_compose_apply(s2, s1, b2);
            }
        }
    } else if t1 is Var {
        let a = t1->Var_0;
        if t2 != SType::Var(a) && !type_vars(t2).contains(a) {
            let s = map![a => t2];
            assert(s.dom() =~= set![a]);
            lemma_subst_disjoint(s, t2);
        }
    } else if t2 is Var {
        let a = t2->Var_0;
        if t1 != SType::Var(a) && !type_vars(t1).contains(a) {
            let s = map![a => t1];
            assert(s.dom() =~= set![a]);
            lemma_subst_disjoint(s, t1);
        }
    }
}

proof fn lemma_bind_general(a: Seq<char>, other: SType, u: Map<Seq<char>, SType>, t: SType)
    requires
        subst_type(u, SType::Var(a)) == subst_type(u, other),
    ensures
        subst_type(u, subst_type(map![a => other], t)) == subst_type(u, t),
    decreases t,
{
    if let SType::Arrow(x, y) = t {
        lemma_bind_general(a, other, u, *x);
        lemma_bind_general(a, other, u, *y);
    }
}

/// The substitution unification finds is most general: every unifier `u`
/// of the two types factors through it, `u = u ∘ s`.
pub proof fn lemma_unify_most_general(t1: SType, t2: SType, u: Map<Seq<char>, SType>)
    requires
        subst_type(u, t1) == subst_type(u, t2),
    ensures
        spec_unify(t1, t2) matches Ok(s) ==> forall|t: SType|
            #[trigger] subst_type(u, subst_type(s, t)) == subst_type(u, t),
    decreases pair_vars(t1, t2).len(), type_size(t1) + type_size(t2),
{
    if (t1 is Int && t2 is Int) || (t1 is Bool && t2 is Bool) {
        assert forall|t: SType| #[trigger] subst_type(u, subst_type(Map::empty(), t)) == subst_type(u, t) by {
            lemma_subst_disjoint(Map::empty(), t);
        }
    } else if t1 is Arrow && t2 is Arrow {
        let a1 = *t1->Arrow_0;
        let b1 = *t1->Arrow_1;
        let a2 = *t2->Arrow_0;
        let b2 = *t2->Arrow_1;
        lemma_unify_first(t1, t2);
        lemma_unify_sound(a1, a2);
        lemma_unify_most_general(a1, a2, u);
        if let Ok(s1) = spec_unify(a1, a2) {
            lemma_unify_second(t1, t2, s1);
            let c1 = subst_type(s1, b1);
            let c2 = subst_type(s1, b2);
            assert(subst_type(u, c1) == subst_type(u, b1));
            assert(subst_type(u, c2) == subst_type(u, b2));
            lemma_unify_most_general(c1, c2, u);
            if let Ok(s2) = spec_unify(c1, c2) {
                assert forall|t: SType| #[trigger] subst_type(u, subst_type(compose_map(s2, s1), t))
                    == subst_type(u, t) by {
                    lemma_compose_apply(s2, s1, t);
                    assert(subst_type(u, subst_type(s2, subst_type(s1, t))) == subst_type(
                        u,
                        subst_type(s1, t),
                    ));
                }
            }
        }
    } else if t1 is Var {
        let a = t1->Var_0;
        if t2 == SType::Var(a) {
            assert forall|t: SType| #[trigger] subst_type(u, subst_type(Map::empty(), t)) == subst_type(u, t) by {
                lemma_subst_disjoint(Map::empty(), t);
            }
        } else if !type_vars(t2).contains(a) {
            assert forall|t: SType| #[trigger] subst_type(u, subst_type(map![a => t2], t)) == subst_type(
                u,
                t,
            ) by {
                lemma_bind_general(a, t2, u, t);
            }
        }
    } else if t2 is Var {
        let a = t2->Var_0;
        if t1 == SType::Var(a) {
            assert forall|t: SType| #[trigger] subst_type(u, subst_type(Map::empty(), t)) == subst_type(u, t) by {
                lemma_subst_disjoint(Map::empty(), t);
            }
        } else if !type_vars(t1).contains(a) {
            assert forall|t: SType| #[trigger] subst_type(u, subst_type(map![a => t1], t)) == subst_type(
                u,
                t,
            ) by {
                lemma_bind_general(a, t1, u, t);
            }
        }
    }
}

/// A variable occurring in `t` is mapped by `u` to a part of `u(t)`: no
/// larger than it, and smaller when `t` is not the variable itself.
proof fn lemma_occurs_size(a: Seq<char>, t: SType, u: Map<Seq<char>, SType>)
    requires
        type_vars(t).contains(a),
    ensures
        type_size(subst_type(u, SType::Var(a))) <= type_size(subst_type(u, t)),
        t != SType::Var(a) ==> type_size(subst_type(u, SType::Var(a))) < type_size(subst_type(u, t)),
    decreases t,
{
    if let SType::Arrow(x, y) = t {
        if type_vars(*x).contains(a) {
            lemma_occurs_size(a, *x, u);
        } else {
            lemma_occurs_size(a, *y, u);
        }
    }
}

/// Unification fails only where no substitution unifies the two types: any
/// unifier `u` implies that `unify` succeeds.
pub proof fn lemma_unify_complete(t1: SType, t2: SType, u: Map<Seq<char>, SType>)
    requires
        subst_type(u, t1) == subst_type(u, t2),
    ensures
        spec_unify(t1, t2) is Ok,
    decreases pair_vars(t1, t2).len(), type_size(t1) + type_size(t2),
{
    if (t1 is Int && t2 is Int) || (t1 is Bool && t2 is Bool) {
    } else if t1 is Arrow && t2 is Arrow {
        let a1 = *t1->Arrow_0;
        let b1 = *t1->Arrow_1;
        let a2 = *t2->Arrow_0;
        let b2 = *t2->Arrow_1;
        lemma_unify_first(t1, t2);
        lemma_unify_complete(a1, a2, u);
        lemma_unify_sound(a1, a2);
        lemma_unify_most_general(a1, a2, u);
        let s1 = spec_unify(a1, a2)->Ok_0;
        lemma_unify_second(t1, t2, s1);
        let c1 = subst_type(s1, b1);
        let c2 = subst_type(s1, b2);
        assert(subst_type(u, c1) == subst_type(u, b1));
        assert(subst_type(u, c2) == subst_type(u, b2));
        lemma_unify_complete(c1, c2, u);
    } else if t1 is Var {
        let a = t1->Var_0;
        if t2 != SType::Var(a) && type_vars(t2).contains(a) {
            lemma_occurs_size(a, t2, u);
        }
    } else if t2 is Var {
        let a = t2->Var_0;
        if t1 != SType::Var(a) && type_vars(t1).contains(a) {
            lemma_occurs_size(a, t1, u);
        }
    }
}

fn bind_var_exec(a: &String, other: &Type) -> (r: Result<Subst, TypeError>)
    ensures
        match r {
            Ok(s) => bind_var(a@, other@) == Ok::<Map<Seq<char>, SType>, SError>(s@),
            Err(e) => bind_var(a@, other@) == Err::<Map<Seq<char>, SType>, SError>(e@),
        },
{
    let same = match other {
        Type::Var(b) => *b == *a,
        _ => false,
    };
    if same {
        Ok(Subst::new())
    } else if contains_name(&ftv(other), a) {
        Err(TypeError::OccursCheck { var: a.clone(), ty: other.duplicate() })
    } else {
        let mut s = Subst::new();
        s.insert(a.clone(), other.duplicate());
        assert(s@ =~= map![a@ => other@]);
        Ok(s)
    }
}

/// The most general unifier of two types (Robinson's algorithm), or why
/// there is none.
pub fn unify(t1: &Type, t2: &Type) -> (r: Result<Subst, TypeError>)
    ensures
        match r {
            Ok(s) => spec_unify(t1@, t2@) == Ok::<Map<Seq<char>, SType>, SError>(s@),
            Err(e) => spec_unify(t1@, t2@) == Err::<Map<Seq<char>, SType>, SError>(e@),
        },
    decreases pair_vars(t1@, t2@).len(), type_size(t1@) + type_size(t2@),
{
    match (t1, t2) {
        (Type::Int, Type::Int) | (Type::Bool, Type::Bool) => Ok(Subst::new()),
        (Type::Arrow(a1, b1), Type::Arrow(a2, b2)) => {
            proof {
                lemma_unify_first(t1@, t2@);
                lemma_unify_sound(a1@, a2@);
            }
            let s1 = unify(a1, a2)?;
            let c1 = apply_type(&s1, b1);
            let c2 = apply_type(&s1, b2);
            proof {
                lemma_unify_second(t1@, t2@, s1@);
            }
            let s2 = unify(&c1, &c2)?;
            Ok(compose(&s2, &s1))
        },
        (Type::Var(a), other) => bind_var_exec(a, other),
        (other, Type::Var(a)) => bind_var_exec(a, other),
        _ => Err(TypeError::Mismatch { t1: t1.duplicate(), t2: t2.duplicate() }),
    }
}

// ===== generalization and instantiation =====

/// A scheme that quantifies nothing.
pub open spec fn mono(t: SType) -> SScheme {
    SScheme { vars: Seq::empty(), ty: t }
}

/// Generalization: `t` quantified over its type variables that are not
/// free in the environment, in increasing order of name.
pub open spec fn spec_generalize(env: Map<Seq<char>, SScheme>, t: SType) -> SScheme {
    SScheme { vars: sorted_names(type_vars(t).difference(env_vars(env))), ty: t }
}

/// Quantifies `t` over its type variables that are not free in `env`.
pub fn generalize(env: &Env, t: &Type) -> (r: Scheme)
    ensures
        r@ == spec_generalize(env@, t@),
        names_of(r.vars@).to_set() == type_vars(t@).difference(env_vars(env@)),
        strictly_sorted(names_of(r.vars@)),
        r.ty@ == t@,
{
    let env_fv = ftv_env(env);
    let fv = ftv(t);
    let mut own: Vec<String> = Vec::new();
    let mut i: usize = 0;
    proof {
        lemma_name_set_empty(own@);
    }
    while i < fv.len()
        invariant
            i <= fv.len(),
            distinct_names(fv@),
            distinct_names(own@),
            name_set(own@) == name_set(fv@.take(i as int)).difference(name_set(env_fv@)),
            forall|k: int| 0 <= k < own.len() ==> exists|m: int| 0 <= m < i && (#[trigger] own@[k]) == fv@[m],
        decreases fv.len() - i,
    {
        proof {
            crate::names::lemma_name_set_push(fv@.take(i as int), fv@[i as int]);
            assert(fv@.take(i + 1) =~= fv@.take(i as int).push(fv@[i as int]));
        }
        if !contains_name(&env_fv, &fv[i]) {
            let ghost before = own@;
            own.push(fv[i].clone());
            proof {
                crate::names::lemma_name_set_push(before, fv@[i as int]);
                assert forall|a: int, b: int| 0 <= a < b < own@.len() implies (#[trigger] own@[a])@
                    != (#[trigger] own@[b])@ by {
                    if b == own@.len() - 1 {
                        let m = choose|m: int| 0 <= m < i && (#[trigger] before[a]) == fv@[m];
                        assert(own@[a] == before[a]);
                    } else {
                        assert(own@[a] == before[a] && own@[b] == before[b]);
                    }
                }
                assert forall|k: int| 0 <= k < own.len() implies exists|m: int|
                    0 <= m < i + 1 && (#[trigger] own@[k]) == fv@[m] by {
                    if k < before.len() {
                        let m = choose|m: int| 0 <= m < i && (#[trigger] before[k]) == fv@[m];
                        assert(own@[k] == fv@[m]);
                    } else {
                        assert(own@[k] == fv@[i as int]);
                    }
                }
            }
            assert(name_set(own@) =~= name_set(fv@.take(i + 1)).difference(name_set(env_fv@)));
        } else {
            assert(name_set(own@) =~= name_set(fv@.take(i + 1)).difference(name_set(env_fv@)));
        }
        i = i + 1;
    }
    assert(fv@.take(i as int) =~= fv@);
    let vars = sort_names(&own);
    Scheme { vars, ty: t.duplicate() }
}

/// The substitution that instantiates `vars` with fresh variables from
/// `t{n}` on, in order.
pub open spec fn inst_map(vars: Seq<Seq<char>>, n: nat) -> Map<Seq<char>, SType>
    decreases vars.len(),
{
    if vars.len() == 0 {
        Map::empty()
    } else {
        inst_map(vars.drop_last(), n).insert(vars.last(), tvar((n + vars.len() - 1) as nat))
    }
}

/// Instantiation maps the `i`-th quantified variable to the fresh variable
/// `t{n + i}` and leaves every other variable alone.
pub proof fn lemma_inst_map(vars: Seq<Seq<char>>, n: nat)
    requires
        vars.no_duplicates(),
    ensures
        inst_map(vars, n).dom() == vars.to_set(),
        forall|i: int| 0 <= i < vars.len() ==> inst_map(vars, n)[#[trigger] vars[i]] == tvar((n + i) as nat),
    decreases vars.len(),
{
    if vars.len() > 0 {
        let p = vars.drop_last();
        assert(p.no_duplicates());
        lemma_inst_map(p, n);
        assert forall|i: int| 0 <= i < vars.len() implies inst_map(vars, n)[#[trigger] vars[i]] == tvar(
            (n + i) as nat,
        ) by {
            if i < vars.len() - 1 {
                assert(vars[i] == p[i]);
                assert(vars[i] != vars.last());
            }
        }
        assert(inst_map(vars, n).dom() =~= vars.to_set()) by {
            assert forall|k: Seq<char>| vars.to_set().contains(k) implies inst_map(vars, n).dom().contains(k) by {
                let i = choose|i: int| 0 <= i < vars.len() && vars[i] == k;
                if i < vars.len() - 1 {
                    assert(p[i] == k);
                }
            }
            assert forall|k: Seq<char>| inst_map(vars, n).dom().contains(k) implies vars.to_set().contains(k) by {
                if k != vars.last() {
                    assert(p.to_set().contains(k));
                    let i = choose|i: int| 0 <= i < p.len() && p[i] == k;
                    assert(vars[i] == k);
                } else {
                    assert(vars[vars.len() - 1] == k);
                }
            }
        }
    } else {
        assert(inst_map(vars, n).dom() =~= vars.to_set());
    }
}

/// Instantiation: the scheme's type with a fresh variable for each
/// quantified one, and the index of the next fresh variable.
pub open spec fn spec_instantiate(sch: SScheme, n: nat) -> (SType, nat) {
    (subst_type(inst_map(sch.vars, n), sch.ty), n + sch.vars.len())
}

/// Replaces the quantified variables of a scheme by fresh ones.
pub fn instantiate(sch: &Scheme, st: &mut State) -> (r: Type)
    requires
        old(st).next() + sch.vars.len() <= u32::MAX,
    ensures
        r@ == spec_instantiate(sch@, old(st).next()).0,
        final(st).next() == spec_instantiate(sch@, old(st).next()).1,
        final(st).next() == old(st).next() + sch.vars.len(),
        names_of(sch.vars@).no_duplicates() ==> inst_map(names_of(sch.vars@), old(st).next()).dom()
            == names_of(sch.vars@).to_set(),
        names_of(sch.vars@).no_duplicates() ==> forall|i: int|
            0 <= i < sch.vars.len() ==> inst_map(names_of(sch.vars@), old(st).next())[#[trigger] names_of(
                sch.vars@,
            )[i]] == tvar((old(st).next() + i) as nat),
{
    proof {
        if names_of(sch.vars@).no_duplicates() {
            lemma_inst_map(names_of(sch.vars@), st.next());
        }
    }
    let ghost n = st.next();
    let ghost vs = names_of(sch.vars@);
    let mut s = Subst::new();
    let mut i: usize = 0;
    while i < sch.vars.len()
        invariant
            i <= sch.vars.len(),
            vs == names_of(sch.vars@),
            n + sch.vars.len() <= u32::MAX,
            st.next() == n + i,
            s@ == inst_map(vs.take(i as int), n),
        decreases sch.vars.len() - i,
    {
        let v = st.fresh();
        s.insert(sch.vars[i].clone(), v);
        proof {
            let p = vs.take(i + 1);
            assert(p.drop_last() =~= vs.take(i as int));
            assert(p.last() == sch.vars@[i as int]@);
        }
        i = i + 1;
    }
    assert(vs.take(i as int) =~= vs);
    apply_type(&s, &sch.ty)
}

// ===== Algorithm W =====

/// The result type of a binary operator.
pub open spec fn op_result(op: BinOp) -> SType {
    match op {
        BinOp::Add | BinOp::Sub | BinOp::Mul => SType::Int,
        BinOp::Eq | BinOp::Lt => SType::Bool,
    }
}

/// Algorithm W: from an environment, a term and the index `n` of the next
/// fresh type variable, the substitution and type found (or the first
/// error), together with the index of the next fresh variable afterwards.
pub open spec fn spec_infer(env: Map<Seq<char>, SScheme>, t: STerm, n: nat) -> (
    Result<(Map<Seq<char>, SType>, SType), SError>,
    nat,
)
    decreases t,
{
    match t {
        STerm::Var(x) => if env.contains_key(x) {
            let (ty, n2) = spec_instantiate(env[x], n);
            (Ok((Map::empty(), ty)), n2)
        } else {
            (Err(SError::UnboundVariable(x)), n)
        },
        STerm::IntLit(_) => (Ok((Map::empty(), SType::Int)), n),
        STerm::BoolLit(_) => (Ok((Map::empty(), SType::Bool)), n),
        STerm::Abs(x, body) => {
            let beta = tvar(n);
            let (r, n2) = spec_infer(env.insert(x, mono(beta)), *body, n + 1);
            match r {
                Ok((s, bt)) => (
                    Ok((s, SType::Arrow(Box::new(subst_type(s, beta)), Box::new(bt)))),
                    n2,
                ),
                Err(e) => (Err(e), n2),
            }
        },
        STerm::App(f, a) => {
            let (r1, n1) = spec_infer(env, *f, n);
            match r1 {
                Err(e) => (Err(e), n1),
                Ok((s1, tf)) => {
                    let (r2, n2) = spec_infer(subst_env(s1, env), *a, n1);
                    match r2 {
                        Err(e) => (Err(e), n2),
                        Ok((s2, ta)) => {
                            let beta = tvar(n2);
                            match spec_unify(
                                subst_type(s2, tf),
                                SType::Arrow(Box::new(ta), Box::new(beta)),
                            ) {
                                Ok(s3) => (
                                    Ok((compose_map(s3, compose_map(s2, s1)), subst_type(s3, beta))),
                                    n2 + 1,
                                ),
                                Err(e) => (Err(e), n2 + 1),
                            }
                        },
                    }
                },
            }
        },
        STerm::Let(x, e1, e2) => {
            let (r1, n1) = spec_infer(env, *e1, n);
            match r1 {
                Err(e) => (Err(e), n1),
                Ok((s1, t1)) => {
                    let env1 = subst_env(s1, env);
                    let sch = spec_generalize(env1, t1);
                    let (r2, n2) = spec_infer(env1.insert(x, sch), *e2, n1);
                    match r2 {
                        Ok((s2, t2)) => (Ok((compose_map(s2, s1), t2)), n2),
                        Err(e) => (Err(e), n2),
                    }
                },
            }
        },
        STerm::LetRec(x, e1, e2) => {
            let beta = tvar(n);
            let (r1, n1) = spec_infer(env.insert(x, mono(beta)), *e1, n + 1);
            match r1 {
                Err(e) => (Err(e), n1),
                Ok((s1, t1)) => match spec_unify(subst_type(s1, beta), t1) {
                    Err(e) => (Err(e), n1),
                    Ok(s2) => {
                        let s12 = compose_map(s2, s1);
                        let env_after = subst_env(s12, env);
                        let sch = spec_generalize(env_after, subst_type(s12, beta));
                        let (r3, n3) = spec_infer(env_after.insert(x, sch), *e2, n1);
                        match r3 {
                            Ok((s3, t2)) => (Ok((compose_map(s3, s12), t2)), n3),
                            Err(e) => (Err(e), n3),
                        }
                    },
                },
            }
        },
        STerm::If(c, t1, t2) => {
            let (r1, n1) = spec_infer(env, *c, n);
            match r1 {
                Err(e) => (Err(e), n1),
                Ok((s1, tc)) => match spec_unify(tc, SType::Bool) {
                    Err(e) => (Err(e), n1),
                    Ok(sc) => {
                        let sf = compose_map(sc, s1);
                        let (r2, n2) = spec_infer(subst_env(sf, env), *t1, n1);
                        match r2 {
                            Err(e) => (Err(e), n2),
                            Ok((s2, tt)) => {
                                let sf2 = compose_map(s2, sf);
                                let (r3, n3) = spec_infer(subst_env(sf2, env), *t2, n2);
                                match r3 {
                                    Err(e) => (Err(e), n3),
                                    Ok((s3, te)) => {
                                        let sf3 = compose_map(s3, sf2);
                                        match spec_unify(subst_type(sf3, tt), subst_type(sf3, te)) {
                                            Err(e) => (Err(e), n3),
                                            Ok(sb) => {
                                                let fin = compose_map(sb, sf3);
                                                (Ok((fin, subst_type(fin, tt))), n3)
                                            },
                                        }
                                    },
                                }
                            },
                        }
                    },
                },
            }
        },
        STerm::BinOp(op, a, b) => {
            let (r1, n1) = spec_infer(env, *a, n);
            match r1 {
                Err(e) => (Err(e), n1),
                Ok((s1, ta)) => match spec_unify(ta, SType::Int) {
                    Err(e) => (Err(e), n1),
                    Ok(sa) => {
                        let sf = compose_map(sa, s1);
                        let (r2, n2) = spec_infer(subst_env(sf, env), *b, n1);
                        match r2 {
                            Err(e) => (Err(e), n2),
                            Ok((s2, tb)) => match spec_unify(subst_type(s2, tb), SType::Int) {
                                Err(e) => (Err(e), n2),
                                Ok(sb) => (
                                    Ok((compose_map(sb, compose_map(s2, sf)), op_result(op))),
                                    n2,
                                ),
                            },
                        }
                    },
                },
            }
        },
        STerm::Fix(_) => (Err(SError::UnboundVariable(Seq::empty())), n),
    }
}

/// Literals have their base types, and an abstraction has an arrow type
/// whose parameter is the fresh variable given to the parameter (under the
/// substitution found) and whose result is the type of the body.
pub proof fn lemma_infer_literals_abstractions(x: Seq<char>, body: STerm, env: Map<Seq<char>, SScheme>, n: nat, i: i64, b: bool)
    ensures
        spec_infer(env, STerm::IntLit(i), n).0 == Ok::<(Map<Seq<char>, SType>, SType), SError>(
            (Map::empty(), SType::Int),
        ),
        spec_infer(env, STerm::BoolLit(b), n).0 == Ok::<(Map<Seq<char>, SType>, SType), SError>(
            (Map::empty(), SType::Bool),
        ),
        spec_infer(env, STerm::Abs(x, Box::new(body)), n).0 is Ok <==> spec_infer(
            env.insert(x, mono(tvar(n))),
            body,
            n + 1,
        ).0 is Ok,
        spec_infer(env.insert(x, mono(tvar(n))), body, n + 1).0 matches Ok((s, bt)) ==> spec_infer(
            env,
            STerm::Abs(x, Box::new(body)),
            n,
        ).0 == Ok::<(Map<Seq<char>, SType>, SType), SError>(
            (s, SType::Arrow(Box::new(subst_type(s, tvar(n))), Box::new(bt))),
        ),
{
}

/// Operators produce their fixed result type: `+`, `-` and `*` an
/// integer, `==` and `<` a boolean, whatever the substitution found for
/// the operands.
pub proof fn lemma_infer_operator(op: BinOp, a: STerm, b: STerm, env: Map<Seq<char>, SScheme>, n: nat)
    ensures
        spec_infer(env, STerm::BinOp(op, Box::new(a), Box::new(b)), n).0 is Ok ==> spec_infer(
            env,
            STerm::BinOp(op, Box::new(a), Box::new(b)),
            n,
        ).0->Ok_0.1 == (if op is Eq || op is Lt {
            SType::Bool
        } else {
            SType::Int
        }),
{
}

/// Inference only ever takes fresh variables.
pub proof fn lemma_infer_counter(env: Map<Seq<char>, SScheme>, t: STerm, n: nat)
    ensures
        spec_infer(env, t, n).1 >= n,
    decreases t,
{
    match t {
        STerm::Abs(x, body) => {
            lemma_infer_counter(env.insert(x, mono(tvar(n))), *body, n + 1);
        },
        STerm::App(f, a) => {
            lemma_infer_counter(env, *f, n);
            let (r1, n1) = spec_infer(env, *f, n);
            if let Ok((s1, _)) = r1 {
                lemma_infer_counter(subst_env(s1, env), *a, n1);
            }
        },
        STerm::Let(x, e1, e2) => {
            lemma_infer_counter(env, *e1, n);
            let (r1, n1) = spec_infer(env, *e1, n);
            if let Ok((s1, t1)) = r1 {
                let env1 = subst_env(s1, env);
                lemma_infer_counter(env1.insert(x, spec_generalize(env1, t1)), *e2, n1);
            }
        },
        STerm::LetRec(x, e1, e2) => {
            let beta = tvar(n);
            lemma_infer_counter(env.insert(x, mono(beta)), *e1, n + 1);
            let (r1, n1) = spec_infer(env.insert(x, mono(beta)), *e1, n + 1);
            if let Ok((s1, t1)) = r1 {
                if let Ok(s2) = spec_unify(subst_type(s1, beta), t1) {
                    let s12 = compose_map(s2, s1);
                    let env_after = subst_env(s12, env);
                    let sch = spec_generalize(env_after, subst_type(s12, beta));
                    lemma_infer_counter(env_after.insert(x, sch), *e2, n1);
                }
            }
        },
        STerm::If(c, t1, t2) => {
            lemma_infer_counter(env, *c, n);
            let (r1, n1) = spec_infer(env, *c, n);
            if let Ok((s1, tc)) = r1 {
                if let Ok(sc) = spec_unify(tc, SType::Bool) {
                    let sf = compose_map(sc, s1);
                    lemma_infer_counter(subst_env(sf, env), *t1, n1);
                    let (r2, n2) = spec_infer(subst_env(sf, env), *t1, n1);
                    if let Ok((s2, _)) = r2 {
                        lemma_infer_counter(subst_env(compose_map(s2, sf), env), *t2, n2);
                    }
                }
            }
        },
        STerm::BinOp(_, a, b) => {
            lemma_infer_counter(env, *a, n);
            let (r1, n1) = spec_infer(env, *a, n);
            if let Ok((s1, ta)) = r1 {
                if let Ok(sa) = spec_unify(ta, SType::Int) {
                    lemma_infer_counter(subst_env(compose_map(sa, s1), env), *b, n1);
                }
            }
        },
        _ => {},
    }
}

fn mono_scheme(t: &Type) -> (r: Scheme)
    ensures
        r@ == mono(t@),
{
    let vars: Vec<String> = Vec::new();
    assert(names_of(vars@) =~= Seq::<Seq<char>>::empty());
    Scheme { vars, ty: t.duplicate() }
}

/// Algorithm W: the substitution and type inferred for `t` in `env`,
/// taking fresh type variables from `st`.
pub fn infer(env: &Env, t: &Term, st: &mut State) -> (r: Result<(Subst, Type), TypeError>)
    requires
        !has_fix(t@),
        spec_infer(env@, t@, old(st).next()).1 <= u32::MAX,
    ensures
        final(st).next() == spec_infer(env@, t@, old(st).next()).1,
        match r {
            Ok((s, ty)) => spec_infer(env@, t@, old(st).next()).0 == Ok::<
                (Map<Seq<char>, SType>, SType),
                SError,
            >((s@, ty@)),
            Err(e) => spec_infer(env@, t@, old(st).next()).0 == Err::<
                (Map<Seq<char>, SType>, SType),
                SError,
            >(e@),
        },
    decreases t,
{
    let ghost n = st.next();
    match t {
        Term::Var(x) => match env.get(x) {
            Some(sch) => {
                let ty = instantiate(sch, st);
                Ok((Subst::new(), ty))
            },
            None => Err(TypeError::UnboundVariable(x.clone())),
        },
        Term::IntLit(_) => Ok((Subst::new(), Type::Int)),
        Term::BoolLit(_) => Ok((Subst::new(), Type::Bool)),
        Term::Abs(x, body) => {
            proof {
                lemma_infer_counter(env@.insert(x@, mono(tvar(n))), body@, n + 1);
            }
            let beta = st.fresh();
            let mut env2 = env.dup_map();
            env2.insert(x.clone(), mono_scheme(&beta));
            let (s, body_ty) = infer(&env2, body, st)?;
            let a = apply_type(&s, &beta);
            Ok((s, Type::arrow(a, body_ty)))
        },
        Term::App(f, a) => {
            proof {
                lemma_infer_counter(env@, f@, n);
                let (r1, n1) = spec_infer(env@, f@, n);
                if let Ok((s1, _)) = r1 {
                    lemma_infer_counter(subst_env(s1, env@), a@, n1);
                }
            }
            let (s1, t_f) = infer(env, f, st)?;
            let env2 = apply_env(&s1, env);
            let (s2, t_a) = infer(&env2, a, st)?;
            let beta = st.fresh();
            let s3 = unify(&apply_type(&s2, &t_f), &Type::arrow(t_a, beta.duplicate()))?;
            let s = compose(&s3, &compose(&s2, &s1));
            let ty = apply_type(&s3, &beta);
            Ok((s, ty))
        },
        Term::Let(x, e1, e2) => {
            proof {
                lemma_infer_counter(env@, e1@, n);
                let (r1, n1) = spec_infer(env@, e1@, n);
                if let Ok((s1, t1)) = r1 {
                    let env1 = subst_env(s1, env@);
                    lemma_infer_counter(env1.insert(x@, spec_generalize(env1, t1)), e2@, n1);
                }
            }
            let (s1, t1) = infer(env, e1, st)?;
            let env1 = apply_env(&s1, env);
            let sch = generalize(&env1, &t1);
            let mut env2 = env1.dup_map();
            env2.insert(x.clone(), sch);
            let (s2, t2) = infer(&env2, e2, st)?;
            Ok((compose(&s2, &s1), t2))
        },
        Term::LetRec(x, e1, e2) => {
            proof {
                let beta = tvar(n);
                lemma_infer_counter(env@.insert(x@, mono(beta)), e1@, n + 1);
                let (r1, n1) = spec_infer(env@.insert(x@, mono(beta)), e1@, n + 1);
                if let Ok((s1, t1)) = r1 {
                    if let Ok(s2) = spec_unify(subst_type(s1, beta), t1) {
                        let s12 = compose_map(s2, s1);
                        let env_after = subst_env(s12, env@);
                        let sch = spec_generalize(env_after, subst_type(s12, beta));
                        lemma_infer_counter(env_after.insert(x@, sch), e2@, n1);
                    }
                }
            }
            let beta = st.fresh();
            let mut env1 = env.dup_map();
            env1.insert(x.clone(), mono_scheme(&beta));
            let (s1, t1) = infer(&env1, e1, st)?;
            let s2 = unify(&apply_type(&s1, &beta), &t1)?;
            let s12 = compose(&s2, &s1);
            let env_after = apply_env(&s12, env);
            let final_t1 = apply_type(&s12, &beta);
            let sch = generalize(&env_after, &final_t1);
            let mut env2 = env_after;
            env2.insert(x.clone(), sch);
            let (s3, t2) = infer(&env2, e2, st)?;
            Ok((compose(&s3, &s12), t2))
        },
        Term::If(c, t1, t2) => {
            proof {
                lemma_infer_counter(env@, c@, n);
                let (r1, n1) = spec_infer(env@, c@, n);
                if let Ok((s1, tc)) = r1 {
                    if let Ok(sc) = spec_unify(tc, SType::Bool) {
                        let sf = compose_map(sc, s1);
                        lemma_infer_counter(subst_env(sf, env@), t1@, n1);
                        let (r2, n2) = spec_infer(subst_env(sf, env@), t1@, n1);
                        if let Ok((s2, _)) = r2 {
                            lemma_infer_counter(subst_env(compose_map(s2, sf), env@), t2@, n2);
                        }
                    }
                }
            }
            let (s1, tc) = infer(env, c, st)?;
            let s_c = unify(&tc, &Type::Bool)?;
            let s_so_far = compose(&s_c, &s1);
            let env1 = apply_env(&s_so_far, env);
            let (s2, tt) = infer(&env1, t1, st)?;
            let s_so_far = compose(&s2, &s_so_far);
            let env2 = apply_env(&s_so_far, env);
            let (s3, te) = infer(&env2, t2, st)?;
            let s_so_far = compose(&s3, &s_so_far);
            let s_branches = unify(&apply_type(&s_so_far, &tt), &apply_type(&s_so_far, &te))?;
            let final_subst = compose(&s_branches, &s_so_far);
            let ty = apply_type(&final_subst, &tt);
            Ok((final_subst, ty))
        },
        Term::BinOp(op, a, b) => {
            proof {
                lemma_infer_counter(env@, a@, n);
                let (r1, n1) = spec_infer(env@, a@, n);
                if let Ok((s1, ta)) = r1 {
                    if let Ok(sa) = spec_unify(ta, SType::Int) {
                        lemma_infer_counter(subst_env(compose_map(sa, s1), env@), b@, n1);
                    }
                }
            }
            let (s1, ta) = infer(env, a, st)?;
            let s_a = unify(&ta, &Type::Int)?;
            let s_so_far = compose(&s_a, &s1);
            let env1 = apply_env(&s_so_far, env);
            let (s2, tb) = infer(&env1, b, st)?;
            let s_b = unify(&apply_type(&s2, &tb), &Type::Int)?;
            let s_full = compose(&s_b, &compose(&s2, &s_so_far));
            let result_ty = match op {
                BinOp::Add | BinOp::Sub | BinOp::Mul => Type::Int,
                BinOp::Eq | BinOp::Lt => Type::Bool,
            };
            Ok((s_full, result_ty))
        },
        Term::Fix(_) => {
            proof {
                assert(false);
            }
            Err(TypeError::UnboundVariable(String::new()))
        },
    }
}

/// The principal type scheme of a closed term: its inferred type with the
/// substitution applied, quantified over all its type variables.
pub open spec fn spec_type_of(t: STerm) -> Result<SScheme, SError> {
    match spec_infer(Map::empty(), t, 0).0 {
        Ok((s, ty)) => Ok(spec_generalize(Map::empty(), subst_type(s, ty))),
        Err(e) => Err(e),
    }
}

/// The type scheme of a closed term.
pub fn type_of(t: &Term) -> (r: Result<Scheme, TypeError>)
    requires
        !has_fix(t@),
        spec_infer(Map::empty(), t@, 0).1 <= u32::MAX,
    ensures
        match r {
            Ok(sch) => spec_type_of(t@) == Ok::<SScheme, SError>(sch@),
            Err(e) => spec_type_of(t@) == Err::<SScheme, SError>(e@),
        },
{
    let mut st = State::new();
    let env = Env::new();
    let (s, ty) = infer(&env, t, &mut st)?;
    let final_ty = apply_type(&s, &ty);
    Ok(generalize(&Env::new(), &final_ty))
}

// ===== display names =====

/// The letter of the `i`-th display name.
pub open spec fn pretty_letter(i: nat) -> char {
    (97 + i % 26) as char
}

/// The `i`-th display name: `a` … `z`, then `a1` … `z1`, `a2`, …
pub open spec fn pretty(i: nat) -> Seq<char> {
    if i / 26 == 0 {
        seq![pretty_letter(i)]
    } else {
        seq![pretty_letter(i)] + dec(i / 26)
    }
}

/// The renaming of the `i`-th quantified variable to the `i`-th display
/// name (a later occurrence of a variable wins).
pub open spec fn pretty_map(vars: Seq<Seq<char>>) -> Map<Seq<char>, SType>
    decreases vars.len(),
{
    if vars.len() == 0 {
        Map::empty()
    } else {
        pretty_map(vars.drop_last()).insert(vars.last(), SType::Var(pretty((vars.len() - 1) as nat)))
    }
}

/// A scheme with its quantified variables renamed `a`, `b`, `c`, … in
/// order.
pub open spec fn spec_prettify(sch: SScheme) -> SScheme {
    SScheme {
        vars: Seq::new(sch.vars.len(), |i: int| pretty(i as nat)),
        ty: subst_type(pretty_map(sch.vars), sch.ty),
    }
}

fn pretty_name(i: usize) -> (s: String)
    ensures
        s@ == pretty(i as nat),
{
    let letter = ((97 + i % 26) as u8) as char;
    let mut s = String::new();
    push_char(&mut s, letter);
    let suffix = i / 26;
    if suffix != 0 {
        let d = decimal(suffix as u128);
        s.append(d.as_str());
    }
    s
}

/// Renames the quantified variables of a scheme to `a`, `b`, `c`, … for
/// display.
pub fn prettify(sch: &Scheme) -> (r: Scheme)
    ensures
        r@ == spec_prettify(sch@),
{
    let ghost vs = names_of(sch.vars@);
    let mut names: Vec<String> = Vec::new();
    let mut s = Subst::new();
    let mut i: usize = 0;
    while i < sch.vars.len()
        invariant
            i <= sch.vars.len(),
            vs == names_of(sch.vars@),
            names@.len() == i,
            forall|k: int| 0 <= k < i ==> (#[trigger] names@[k])@ == pretty(k as nat),
            s@ == pretty_map(vs.take(i as int)),
        decreases sch.vars.len() - i,
    {
        let n = pretty_name(i);
        s.insert(sch.vars[i].clone(), Type::Var(n.clone()));
        names.push(n);
        proof {
            let p = vs.take(i + 1);
            assert(p.drop_last() =~= vs.take(i as int));
            assert(p.last() == sch.vars@[i as int]@);
        }
        i = i + 1;
    }
    assert(vs.take(i as int) =~= vs);
    assert(names_of(names@) =~= Seq::new(sch.vars@.len(), |k: int| pretty(k as nat)));
    let ty = apply_type(&s, &sch.ty);
    Scheme { vars: names, ty }
}

} // verus!
