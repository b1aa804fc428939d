use vstd::prelude::*;

use crate::names::{
    contains_name, distinct_names, extend_names, fresh_name, fresh_name_spec, insert_name,
    lemma_fresh_name_fresh, name_set, remove_name,
};
use crate::untyped::ast::{size, STerm, Term};

verus! {

// ===== free variables =====

/// The free variables of a term.
pub open spec fn fv(t: STerm) -> Set<Seq<char>>
    decreases t,
{
    match t {
        STerm::Var(x) => set![x],
        STerm::Abs(x, b) => fv(*b).remove(x),
        STerm::App(f, a) => fv(*f).union(fv(*a)),
    }
}

pub proof fn lemma_fv_finite(t: STerm)
    ensures
        fv(t).finite(),
    decreases t,
{
    match t {
        STerm::Var(x) => {},
        STerm::Abs(x, b) => lemma_fv_finite(*b),
        STerm::App(f, a) => {
            lemma_fv_finite(*f);
            lemma_fv_finite(*a);
        },
    }
}

/// The free variables of `t`, each once.
pub fn free_vars(t: &Term) -> (r: Vec<String>)
    ensures
        name_set(r@) == fv(t@),
        distinct_names(r@),
{
    let mut acc: Vec<String> = Vec::new();
    assert(name_set(acc@) =~= Set::<Seq<char>>::empty());
    collect_free(t, &mut acc);
    assert(name_set(acc@) =~= fv(t@));
    acc
}

fn collect_free(t: &Term, acc: &mut Vec<String>)
    ensures
        name_set(final(acc)@) == name_set(old(acc)@).union(fv(t@)),
        distinct_names(old(acc)@) ==> distinct_names(final(acc)@),
    decreases t,
{
    match t {
        Term::Var(x) => {
            insert_name(acc, x);
            assert(name_set(acc@) =~= name_set(old(acc)@).union(fv(t@)));
        },
        Term::Abs(x, body) => {
            let mut inner: Vec<String> = Vec::new();
            assert(name_set(inner@) =~= Set::<Seq<char>>::empty());
            collect_free(body, &mut inner);
            let inner2 = remove_name(&inner, x);
            extend_names(acc, &inner2);
            assert(name_set(acc@) =~= name_set(old(acc)@).union(fv(t@)));
        },
        Term::App(f, a) => {
            collect_free(f, acc);
            collect_free(a, acc);
            assert(name_set(acc@) =~= name_set(old(acc)@).union(fv(t@)));
        },
    }
}

// ===== substitution =====

/// Capture-avoiding substitution `[s/x] t`. Under a binder `y` that is free
/// in `s`, the binder is first renamed to the fresh name that avoids the free
/// variables of `s`, of the body and `x`.
pub open spec fn spec_subst(t: STerm, x: Seq<char>, s: STerm) -> STerm
    decreases size(t),
{
    match t {
        STerm::Var(y) => if y == x {
            s
        } else {
            STerm::Var(y)
        },
        STerm::App(f, a) => STerm::App(Box::new(spec_subst(*f, x, s)), Box::new(spec_subst(*a, x, s))),
        STerm::Abs(y, body) => if y == x {
            STerm::Abs(y, body)
        } else if fv(s).contains(y) {
            let z = fresh_name_spec(y, fv(s).union(fv(*body)).insert(x));
            let renamed = spec_subst(*body, y, STerm::Var(z));
            if size(renamed) < size(t) {
                STerm::Abs(z, Box::new(spec_subst(renamed, x, s)))
            } else {
                t
            }
        } else {
            STerm::Abs(y, Box::new(spec_subst(*body, x, s)))
        },
    }
}

/// Substituting a variable keeps the size of a term.
pub proof fn lemma_subst_var_size(t: STerm, x: Seq<char>, z: Seq<char>)
    ensures
        size(spec_subst(t, x, STerm::Var(z))) == size(t),
    decreases size(t),
{
    let s = STerm::Var(z);
    match t {
        STerm::Var(y) => {},
        STerm::App(f, a) => {
            lemma_subst_var_size(*f, x, z);
            lemma_subst_var_size(*a, x, z);
        },
        STerm::Abs(y, body) => {
            if y == x {
            } else if fv(s).contains(y) {
                let w = fresh_name_spec(y, fv(s).union(fv(*body)).insert(x));
                lemma_subst_var_size(*body, y, w);
                let renamed = spec_subst(*body, y, STerm::Var(w));
                lemma_subst_var_size(renamed, x, z);
            } else {
                lemma_subst_var_size(*body, x, z);
            }
        },
    }
}

/// Capture avoidance: the free variables of `[s/x] t` are those of `t`
/// without `x`, together with those of `s` when `x` occurs free in `t`.
pub proof fn lemma_fv_subst(t: STerm, x: Seq<char>, s: STerm)
    ensures
        fv(spec_subst(t, x, s)) == (if fv(t).contains(x) {
            fv(t).remove(x).union(fv(s))
        } else {
            fv(t)
        }),
    decreases size(t),
{
    match t {
        STerm::Var(y) => {
            if y == x {
                assert(fv(t).remove(x) =~= Set::<Seq<char>>::empty());
                assert(fv(t).remove(x).union(fv(s)) =~= fv(s));
            }
        },
        STerm::App(f, a) => {
            lemma_fv_subst(*f, x, s);
            lemma_fv_subst(*a, x, s);
            assert(fv(spec_subst(t, x, s)) =~= (if fv(t).contains(x) {
                fv(t).remove(x).union(fv(s))
            } else {
                fv(t)
            }));
        },
        STerm::Abs(y, body) => {
            if y == x {
                assert(!fv(t).contains(x));
            } else if fv(s).contains(y) {
                let avoid = fv(s).union(fv(*body)).insert(x);
                lemma_fv_finite(s);
                lemma_fv_finite(*body);
                let z = fresh_name_spec(y, avoid);
                lemma_fresh_name_fresh(y, avoid);
                lemma_subst_var_size(*body, y, z);
                let renamed = spec_subst(*body, y, STerm::Var(z));
                lemma_fv_subst(*body, y, STerm::Var(z));
                lemma_fv_subst(renamed, x, s);
                assert(fv(renamed).contains(x) == fv(*body).contains(x));
                assert(fv(spec_subst(t, x, s)) =~= (if fv(t).contains(x) {
                    fv(t).remove(x).union(fv(s))
                } else {
                    fv(t)
                }));
            } else {
                lemma_fv_subst(*body, x, s);
                assert(fv(spec_subst(t, x, s)) =~= (if fv(t).contains(x) {
                    fv(t).remove(x).union(fv(s))
                } else {
                    fv(t)
                }));
            }
        },
    }
}

/// Capture-avoiding substitution: replaces the free occurrences of `x` in
/// `t` by `s`, renaming binders that would capture a free variable of `s`.
pub fn subst(t: Term, x: &str, s: &Term) -> (r: Term)
    ensures
        r@ == spec_subst(t@, x@, s@),
{
    let xs = String::from_str(x);
    subst_name(t, &xs, s)
}

fn subst_name(t: Term, x: &String, s: &Term) -> (r: Term)
    ensures
        r@ == spec_subst(t@, x@, s@),
    decreases size(t@),
{
    let ghost tv = t@;
    match t {
        Term::Var(y) => {
            if y == *x {
                s.duplicate()
            } else {
                Term::Var(y)
            }
        },
        Term::App(f, a) => Term::App(Box::new(subst_name(*f, x, s)), Box::new(subst_name(*a, x, s))),
        Term::Abs(y, body) => {
            if y == *x {
                Term::Abs(y, body)
            } else {
                let fv_s = free_vars(s);
                if contains_name(&fv_s, &y) {
                    let mut avoid = fv_s;
                    extend_names(&mut avoid, &free_vars(&body));
                    insert_name(&mut avoid, x);
                    assert(name_set(avoid@) =~= fv(s@).union(fv(body@)).insert(x@));
                    let new_y = fresh_name(&y, &avoid);
                    let var = Term::Var(new_y.clone());
                    proof {
                        lemma_subst_var_size(body@, y@, new_y@);
                    }
                    let renamed = subst_name(*body, &y, &var);
                    Term::Abs(new_y, Box::new(subst_name(renamed, x, s)))
                } else {
                    Term::Abs(y, Box::new(subst_name(*body, x, s)))
                }
            }
        },
    }
}

// ===== normal-order reduction =====

/// One step of normal-order reduction: the leftmost-outermost redex,
/// anywhere in the term (also under abstractions). `None` in normal form.
pub open spec fn spec_reduce_step(t: STerm) -> Option<STerm>
    decreases t,
{
    match t {
        STerm::App(f, a) => match *f {
            STerm::Abs(x, body) => Some(spec_subst(*body, x, *a)),
            _ => match spec_reduce_step(*f) {
                Some(f2) => Some(STerm::App(Box::new(f2), a)),
                None => match spec_reduce_step(*a) {
                    Some(a2) => Some(STerm::App(f, Box::new(a2))),
                    None => None,
                },
            },
        },
        STerm::Abs(x, body) => match spec_reduce_step(*body) {
            Some(b2) => Some(STerm::Abs(x, Box::new(b2))),
            None => None,
        },
        STerm::Var(_) => None,
    }
}

/// A β-normal form: no abstraction is applied anywhere in the term.
pub open spec fn is_normal(t: STerm) -> bool
    decreases t,
{
    match t {
        STerm::Var(_) => true,
        STerm::Abs(_, body) => is_normal(*body),
        STerm::App(f, a) => !(*f is Abs) && is_normal(*f) && is_normal(*a),
    }
}

/// Reduction stops exactly at normal forms: a term takes no step if and
/// only if it contains no redex.
pub proof fn lemma_no_step_iff_normal(t: STerm)
    ensures
        spec_reduce_step(t) is None <==> is_normal(t),
    decreases t,
{
    match t {
        STerm::Var(_) => {},
        STerm::Abs(_, body) => lemma_no_step_iff_normal(*body),
        STerm::App(f, a) => {
            lemma_no_step_iff_normal(*f);
            lemma_no_step_iff_normal(*a);
        },
    }
}

/// One step of normal-order beta-reduction; `None` if `t` is in normal form.
pub fn reduce_step(t: &Term) -> (r: Option<Term>)
    ensures
        match r {
            Some(u) => spec_reduce_step(t@) == Some(u@),
            None => spec_reduce_step(t@) is None,
        },
    decreases t,
{
    match t {
        Term::App(f, a) => {
            if let Term::Abs(x, body) = &**f {
                Some(subst_name(body.duplicate(), x, a))
            } else if let Some(f_new) = reduce_step(f) {
                assert(f@ !is Abs);
                let r = Term::App(Box::new(f_new), Box::new(a.duplicate()));
                assert(r@ == STerm::App(Box::new(f_new@), Box::new(a@)));
                Some(r)
            } else {
                match reduce_step(a) {
                    Some(a_new) => Some(Term::App(Box::new(f.duplicate()), Box::new(a_new))),
                    None => None,
                }
            }
        },
        Term::Abs(x, body) => match reduce_step(body) {
            Some(b) => Some(Term::Abs(x.clone(), Box::new(b))),
            None => None,
        },
        Term::Var(_) => None,
    }
}

/// The term reached after `k` reduction steps, if each of them is possible.
pub open spec fn steps_from(t: STerm, k: nat) -> Option<STerm>
    decreases k,
{
    if k == 0 {
        Some(t)
    } else {
        match steps_from(t, (k - 1) as nat) {
            Some(u) => spec_reduce_step(u),
            None => None,
        }
    }
}

/// Normal order contracts the outermost redex first: an abstraction applied
/// to an argument steps to the body with the argument substituted, whatever
/// the argument is.
pub proof fn lemma_reduce_head_redex(x: Seq<char>, body: STerm, a: STerm)
    ensures
        spec_reduce_step(STerm::App(Box::new(STerm::Abs(x, Box::new(body))), Box::new(a))) == Some(
            spec_subst(body, x, a),
        ),
{
}

/// Normal order is leftmost: in an application whose function part is not
/// an abstraction, the function part is reduced first, and the argument
/// only once the function part is in normal form.
pub proof fn lemma_reduce_leftmost(f: STerm, a: STerm)
    requires
        !(f is Abs),
    ensures
        spec_reduce_step(f) is Some ==> spec_reduce_step(STerm::App(Box::new(f), Box::new(a))) == Some(
            STerm::App(Box::new(spec_reduce_step(f)->Some_0), Box::new(a)),
        ),
        spec_reduce_step(f) is None && spec_reduce_step(a) is Some ==> spec_reduce_step(
            STerm::App(Box::new(f), Box::new(a)),
        ) == Some(STerm::App(Box::new(f), Box::new(spec_reduce_step(a)->Some_0))),
        spec_reduce_step(f) is None && spec_reduce_step(a) is None ==> spec_reduce_step(
            STerm::App(Box::new(f), Box::new(a)),
        ) is None,
{
}

/// Reduction goes under abstractions: an abstraction steps exactly when
/// its body does, to the abstraction of the reduced body.
pub proof fn lemma_reduce_under_binder(x: Seq<char>, body: STerm)
    ensures
        spec_reduce_step(STerm::Abs(x, Box::new(body))) == (match spec_reduce_step(body) {
            Some(b2) => Some(STerm::Abs(x, Box::new(b2))),
            None => None,
        }),
{
}

/// An argument that is dropped is never reduced: `(λx. λy. x) z b` reaches
/// the normal form `z` in two steps for every argument `b`, even one
/// without a normal form.
pub proof fn lemma_reduce_drops_unused_argument(x: Seq<char>, y: Seq<char>, z: Seq<char>, b: STerm)
    requires
        x != y,
        z != y,
    ensures
        steps_from(
            STerm::App(
                Box::new(
                    STerm::App(
                        Box::new(STerm::Abs(x, Box::new(STerm::Abs(y, Box::new(STerm::Var(x)))))),
                        Box::new(STerm::Var(z)),
                    ),
                ),
                Box::new(b),
            ),
            2,
        ) == Some(STerm::Var(z)),
        spec_reduce_step(STerm::Var(z)) is None,
{
    let k = STerm::Abs(x, Box::new(STerm::Abs(y, Box::new(STerm::Var(x)))));
    let f = STerm::App(Box::new(k), Box::new(STerm::Var(z)));
    let t = STerm::App(Box::new(f), Box::new(b));
    assert(!fv(STerm::Var(z)).contains(y));
    assert(spec_subst(STerm::Var(x), x, STerm::Var(z)) == STerm::Var(z));
    assert(spec_subst(STerm::Abs(y, Box::new(STerm::Var(x))), x, STerm::Var(z)) == STerm::Abs(
        y,
        Box::new(STerm::Var(z)),
    ));
    let t1 = STerm::App(Box::new(STerm::Abs(y, Box::new(STerm::Var(z)))), Box::new(b));
    assert(spec_reduce_step(f) == Some(STerm::Abs(y, Box::new(STerm::Var(z)))));
    assert(spec_reduce_step(t) == Some(t1));
    assert(spec_subst(STerm::Var(z), y, b) == STerm::Var(z));
    assert(spec_reduce_step(t1) == Some(STerm::Var(z)));
    assert(steps_from(t, 0) == Some(t));
    assert(steps_from(t, 1) == Some(t1));
}

pub struct NormalizeResult {
    pub term: Term,
    pub steps: usize,
    pub reached_normal_form: bool,
}

/// Reduces `t` until it is in normal form or `max_steps` steps were taken.
/// `steps` is the number of steps taken; `reached_normal_form` says whether
/// a normal form was found within the limit.
pub fn normalize(t: Term, max_steps: usize) -> (r: NormalizeResult)
    ensures
        steps_from(t@, r.steps as nat) == Some(r.term@),
        r.steps <= max_steps,
        r.reached_normal_form ==> spec_reduce_step(r.term@) is None && r.steps < max_steps,
        r.reached_normal_form ==> is_normal(r.term@),
        !r.reached_normal_form ==> r.steps == max_steps,
{
    let ghost t0 = t@;
    let mut cur = t;
    let mut i: usize = 0;
    while i < max_steps
        invariant
            i <= max_steps,
            t0 == t@,
            steps_from(t0, i as nat) == Some(cur@),
        decreases max_steps - i,
    {
        match reduce_step(&cur) {
            Some(next) => {
                cur = next;
            },
            None => {
                let r = NormalizeResult { term: cur, steps: i, reached_normal_form: true };
                proof {
                    lemma_no_step_iff_normal(r.term@);
                }
                assert(steps_from(t0, r.steps as nat) == Some(r.term@));
                return r;
            },
        }
        i = i + 1;
    }
    NormalizeResult { term: cur, steps: max_steps, reached_normal_form: false }
}

} // verus!
