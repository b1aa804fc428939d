//! Types and terms share one syntactic category. For simplicity the
//! universe has itself as its type (`Type : Type`), which is inconsistent;
//! real systems use a hierarchy of universes.

use vstd::prelude::*;

use crate::names::{dec_int, decimal_i64, str_eq};

verus! {

#[derive(Debug, Clone, Copy, PartialEq, Eq, Structural)]
pub enum BinOp {
    Add,
    Sub,
    Mul,
    Eq,
    Lt,
}

pub open spec fn op_symbol(op: BinOp) -> Seq<char> {
    match op {
        BinOp::Add => "+"@,
        BinOp::Sub => "-"@,
        BinOp::Mul => "*"@,
        BinOp::Eq => "=="@,
        BinOp::Lt => "<"@,
    }
}

impl BinOp {
    /// The operator as written in source text.
    pub fn symbol(self) -> (s: &'static str)
        ensures
            s@ == op_symbol(self),
    {
        match self {
            BinOp::Add => "+",
            BinOp::Sub => "-",
            BinOp::Mul => "*",
            BinOp::Eq => "==",
            BinOp::Lt => "<",
        }
    }
}

/// A term, which may also denote a type.
#[derive(Debug, PartialEq, Eq)]
pub enum Term {
    Var(String),
    /// The single universe, `Type`.
    Universe,
    Bool,
    Int,
    BoolLit(bool),
    IntLit(i64),
    /// `Π x : A. B`, the dependent function type; `A -> B` when `x` is not
    /// free in `B`.
    Pi(String, Box<Term>, Box<Term>),
    /// `λ x : A. body`
    Lambda(String, Box<Term>, Box<Term>),
    App(Box<Term>, Box<Term>),
    If(Box<Term>, Box<Term>, Box<Term>),
    BinOp(BinOp, Box<Term>, Box<Term>),
    Let(String, Box<Term>, Box<Term>),
}

/// The mathematical value of a term: names as character sequences.
pub enum STerm {
    Var(Seq<char>),
    Universe,
    Bool,
    Int,
    BoolLit(bool),
    IntLit(i64),
    Pi(Seq<char>, Box<STerm>, Box<STerm>),
    Lambda(Seq<char>, Box<STerm>, Box<STerm>),
    App(Box<STerm>, Box<STerm>),
    If(Box<STerm>, Box<STerm>, Box<STerm>),
    BinOp(BinOp, Box<STerm>, Box<STerm>),
    Let(Seq<char>, Box<STerm>, Box<STerm>),
}

pub open spec fn view_term(t: Term) -> STerm
    decreases t,
{
    match t {
        Term::Var(x) => STerm::Var(x@),
        Term::Universe => STerm::Universe,
        Term::Bool => STerm::Bool,
        Term::Int => STerm::Int,
        Term::BoolLit(b) => STerm::BoolLit(b),
        Term::IntLit(n) => STerm::IntLit(n),
        Term::Pi(x, a, b) => STerm::Pi(x@, Box::new(view_term(*a)), Box::new(view_term(*b))),
        Term::Lambda(x, a, b) => STerm::Lambda(x@, Box::new(view_term(*a)), Box::new(view_term(*b))),
        Term::App(f, a) => STerm::App(Box::new(view_term(*f)), Box::new(view_term(*a))),
        Term::If(c, t1, t2) => STerm::If(
            Box::new(view_term(*c)),
            Box::new(view_term(*t1)),
            Box::new(view_term(*t2)),
        ),
        Term::BinOp(op, a, b) => STerm::BinOp(op, Box::new(view_term(*a)), Box::new(view_term(*b))),
        Term::Let(x, e1, e2) => STerm::Let(x@, Box::new(view_term(*e1)), Box::new(view_term(*e2))),
    }
}

impl View for Term {
    type V = STerm;

    open spec fn view(&self) -> STerm {
        view_term(*self)
    }
}

/// The number of nodes of a term.
pub open spec fn size(t: STerm) -> nat
    decreases t,
{
    match t {
        STerm::Pi(_, a, b) => 1 + size(*a) + size(*b),
        STerm::Lambda(_, a, b) => 1 + size(*a) + size(*b),
        STerm::App(f, a) => 1 + size(*f) + size(*a),
        STerm::If(c, t1, t2) => 1 + size(*c) + size(*t1) + size(*t2),
        STerm::BinOp(_, a, b) => 1 + size(*a) + size(*b),
        STerm::Let(_, e1, e2) => 1 + size(*e1) + size(*e2),
        _ => 1,
    }
}

/// The free variables of a term. The annotation of a binder is outside
/// its scope; the body is inside.
pub open spec fn fv(t: STerm) -> Set<Seq<char>>
    decreases t,
{
    match t {
        STerm::Var(x) => set![x],
        STerm::Pi(x, a, b) => fv(*a).union(fv(*b).remove(x)),
        STerm::Lambda(x, a, b) => fv(*a).union(fv(*b).remove(x)),
        STerm::App(f, a) => fv(*f).union(fv(*a)),
        STerm::If(c, t1, t2) => fv(*c).union(fv(*t1)).union(fv(*t2)),
        STerm::BinOp(_, a, b) => fv(*a).union(fv(*b)),
        STerm::Let(x, e1, e2) => fv(*e1).union(fv(*e2).remove(x)),
        _ => Set::empty(),
    }
}

pub proof fn lemma_fv_finite(t: STerm)
    ensures
        fv(t).finite(),
    decreases t,
{
    match t {
        STerm::Pi(_, a, b) => {
            lemma_fv_finite(*a);
            lemma_fv_finite(*b);
        },
        STerm::Lambda(_, a, b) => {
            lemma_fv_finite(*a);
            lemma_fv_finite(*b);
        },
        STerm::App(f, a) => {
            lemma_fv_finite(*f);
            lemma_fv_finite(*a);
        },
        STerm::If(c, t1, t2) => {
            lemma_fv_finite(*c);
            lemma_fv_finite(*t1);
            lemma_fv_finite(*t2);
        },
        STerm::BinOp(_, a, b) => {
            lemma_fv_finite(*a);
            lemma_fv_finite(*b);
        },
        STerm::Let(_, e1, e2) => {
            lemma_fv_finite(*e1);
            lemma_fv_finite(*e2);
        },
        STerm::Var(x) => {},
        _ => {},
    }
}

/// Whether `name` occurs free in `t`; decides whether a Π-type prints as an
/// arrow.
pub fn appears_free(name: &str, t: &Term) -> (r: bool)
    ensures
        r == fv(t@).contains(name@),
    decreases t,
{
    match t {
        Term::Var(x) => str_eq(x.as_str(), name),
        Term::Universe | Term::Bool | Term::Int | Term::BoolLit(_) | Term::IntLit(_) => false,
        Term::Pi(x, a, b) | Term::Lambda(x, a, b) => appears_free(name, a) || (!str_eq(x.as_str(), name)
            && appears_free(name, b)),
        Term::App(f, a) => appears_free(name, f) || appears_free(name, a),
        Term::If(c, t1, t2) => appears_free(name, c) || appears_free(name, t1) || appears_free(
            name,
            t2,
        ),
        Term::BinOp(_, a, b) => appears_free(name, a) || appears_free(name, b),
        Term::Let(x, e1, e2) => appears_free(name, e1) || (!str_eq(x.as_str(), name) && appears_free(
            name,
            e2,
        )),
    }
}

// ===== printing =====

pub open spec fn paren(needs: bool, s: Seq<char>) -> Seq<char> {
    if needs {
        "("@ + s + ")"@
    } else {
        s
    }
}

pub open spec fn bool_text(b: bool) -> Seq<char> {
    if b {
        "true"@
    } else {
        "false"@
    }
}

pub open spec fn op_precs(op: BinOp) -> (nat, nat, nat) {
    match op {
        BinOp::Eq | BinOp::Lt => (2, 3, 3),
        BinOp::Add | BinOp::Sub => (3, 3, 4),
        BinOp::Mul => (4, 4, 5),
    }
}

/// The printed form of a term. Levels: 0 top, 1 arrow, 2 comparison,
/// 3 `+`/`-`, 4 `*`, 5 application, 6 atom. A Π whose variable is not free
/// in its body prints as `A -> B`.
pub open spec fn show(t: STerm, prec: nat) -> Seq<char>
    decreases t,
{
    match t {
        STerm::Var(x) => x,
        STerm::Universe => "Type"@,
        STerm::Bool => "Bool"@,
        STerm::Int => "Int"@,
        STerm::BoolLit(b) => bool_text(b),
        STerm::IntLit(n) => dec_int(n as int),
        STerm::Pi(x, a, b) => if !fv(*b).contains(x) {
            paren(prec > 1, show(*a, 2) + " -> "@ + show(*b, 1))
        } else {
            paren(prec > 0, "Π"@ + x + ":"@ + show(*a, 1) + ". "@ + show(*b, 0))
        },
        STerm::Lambda(x, a, body) => paren(
            prec > 0,
            "λ"@ + x + ":"@ + show(*a, 1) + ". "@ + show(*body, 0),
        ),
        STerm::If(c, t1, t2) => paren(
            prec > 0,
            "if "@ + show(*c, 0) + " then "@ + show(*t1, 0) + " else "@ + show(*t2, 0),
        ),
        STerm::Let(x, e1, e2) => paren(
            prec > 0,
            "let "@ + x + " = "@ + show(*e1, 0) + " in "@ + show(*e2, 0),
        ),
        STerm::BinOp(op, a, b) => {
            let (op_prec, lp, rp) = op_precs(op);
            paren(prec > op_prec, show(*a, lp) + " "@ + op_symbol(op) + " "@ + show(*b, rp))
        },
        STerm::App(g, a) => paren(prec > 5, show(*g, 5) + " "@ + show(*a, 6)),
    }
}

fn open_paren(out: &mut String, needs: bool)
    ensures
        final(out)@ == old(out)@ + (if needs {
            "("@
        } else {
            Seq::<char>::empty()
        }),
{
    if needs {
        out.append("(");
    } else {
        assert(out@ + Seq::<char>::empty() =~= out@);
    }
}

fn close_paren(out: &mut String, needs: bool)
    ensures
        final(out)@ == old(out)@ + (if needs {
            ")"@
        } else {
            Seq::<char>::empty()
        }),
{
    if needs {
        out.append(")");
    } else {
        assert(out@ + Seq::<char>::empty() =~= out@);
    }
}

impl Term {
    pub fn var(s: &str) -> (t: Term)
        ensures
            t@ == STerm::Var(s@),
    {
        Term::Var(String::from_str(s))
    }

    pub fn pi(x: &str, a: Term, b: Term) -> (t: Term)
        ensures
            t@ == STerm::Pi(x@, Box::new(a@), Box::new(b@)),
    {
        Term::Pi(String::from_str(x), Box::new(a), Box::new(b))
    }

    /// `A -> B`, that is `Π _ : A. B`.
    pub fn arrow(a: Term, b: Term) -> (t: Term)
        ensures
            t@ == STerm::Pi("_"@, Box::new(a@), Box::new(b@)),
    {
        Term::pi("_", a, b)
    }

    pub fn lambda(x: &str, a: Term, body: Term) -> (t: Term)
        ensures
            t@ == STerm::Lambda(x@, Box::new(a@), Box::new(body@)),
    {
        Term::Lambda(String::from_str(x), Box::new(a), Box::new(body))
    }

    pub fn app(f: Term, a: Term) -> (t: Term)
        ensures
            t@ == STerm::App(Box::new(f@), Box::new(a@)),
    {
        Term::App(Box::new(f), Box::new(a))
    }

    pub fn if_then_else(c: Term, t: Term, e: Term) -> (r: Term)
        ensures
            r@ == STerm::If(Box::new(c@), Box::new(t@), Box::new(e@)),
    {
        Term::If(Box::new(c), Box::new(t), Box::new(e))
    }

    pub fn binop(op: BinOp, a: Term, b: Term) -> (t: Term)
        ensures
            t@ == STerm::BinOp(op, Box::new(a@), Box::new(b@)),
    {
        Term::BinOp(op, Box::new(a), Box::new(b))
    }

    pub fn let_(x: &str, e1: Term, e2: Term) -> (t: Term)
        ensures
            t@ == STerm::Let(x@, Box::new(e1@), Box::new(e2@)),
    {
        Term::Let(String::from_str(x), Box::new(e1), Box::new(e2))
    }

    /// A copy of the term.
    pub fn duplicate(&self) -> (r: Term)
        ensures
            r@ == self@,
        decreases self,
    {
        match self {
            Term::Var(x) => Term::Var(x.clone()),
            Term::Universe => Term::Universe,
            Term::Bool => Term::Bool,
            Term::Int => Term::Int,
            Term::BoolLit(b) => Term::BoolLit(*b),
            Term::IntLit(n) => Term::IntLit(*n),
            Term::Pi(x, a, b) => Term::Pi(x.clone(), Box::new(a.duplicate()), Box::new(b.duplicate())),
            Term::Lambda(x, a, b) => Term::Lambda(
                x.clone(),
                Box::new(a.duplicate()),
                Box::new(b.duplicate()),
            ),
            Term::App(f, a) => Term::App(Box::new(f.duplicate()), Box::new(a.duplicate())),
            Term::If(c, t1, t2) => Term::If(
                Box::new(c.duplicate()),
                Box::new(t1.duplicate()),
                Box::new(t2.duplicate()),
            ),
            Term::BinOp(op, a, b) => Term::BinOp(
                *op,
                Box::new(a.duplicate()),
                Box::new(b.duplicate()),
            ),
            Term::Let(x, e1, e2) => Term::Let(
                x.clone(),
                Box::new(e1.duplicate()),
                Box::new(e2.duplicate()),
            ),
        }
    }

    /// The printed form, e.g. `Πb:Bool. if b then Int else Bool`.
    pub fn to_string(&self) -> (s: String)
        ensures
            s@ == show(self@, 0),
    {
        let mut out = String::new();
        self.write_prec(&mut out, 0);
        out
    }

    pub fn write_prec(&self, out: &mut String, prec: u8)
        ensures
            final(out)@ == old(out)@ + show(self@, prec as nat),
        decreases self, 1nat,
    {
        match self {
            Term::Var(x) => out.append(x.as_str()),
            Term::Universe => out.append("Type"),
            Term::Bool => out.append("Bool"),
            Term::Int => out.append("Int"),
            Term::BoolLit(b) => {
                if *b {
                    out.append("true")
                } else {
                    out.append("false")
                }
            },
            Term::IntLit(n) => {
                let d = decimal_i64(*n);
                out.append(d.as_str());
            },
            Term::Pi(_, _, _) => self.write_pi(out, prec),
            Term::Lambda(_, _, _) => self.write_binder_form(out, prec),
            Term::If(_, _, _) => self.write_if(out, prec),
            Term::Let(_, _, _) => self.write_binder_form(out, prec),
            Term::BinOp(_, _, _) => self.write_binop(out, prec),
            Term::App(_, _) => self.write_binop(out, prec),
        }
    }

    fn write_pi(&self, out: &mut String, prec: u8)
        requires
            self is Pi,
        ensures
            final(out)@ == old(out)@ + show(self@, prec as nat),
        decreases self, 0nat,
    {
        let ghost start = out@;
        if let Term::Pi(x, a, b) = self {
            if !appears_free(x.as_str(), b) {
                open_paren(out, prec > 1);
                a.write_prec(out, 2);
                out.append(" -> ");
                b.write_prec(out, 1);
                close_paren(out, prec > 1);
            } else {
                open_paren(out, prec > 0);
                out.append("Π");
                out.append(x.as_str());
                out.append(":");
                a.write_prec(out, 1);
                out.append(". ");
                b.write_prec(out, 0);
                close_paren(out, prec > 0);
            }
            assert(out@ =~= start + show(self@, prec as nat));
        }
    }

    fn write_binder_form(&self, out: &mut String, prec: u8)
        requires
            self is Lambda || self is Let,
        ensures
            final(out)@ == old(out)@ + show(self@, prec as nat),
        decreases self, 0nat,
    {
        let ghost start = out@;
        match self {
            Term::Lambda(x, a, body) => {
                open_paren(out, prec > 0);
                out.append("λ");
                out.append(x.as_str());
                out.append(":");
                a.write_prec(out, 1);
                out.append(". ");
                body.write_prec(out, 0);
                close_paren(out, prec > 0);
                assert(out@ =~= start + show(self@, prec as nat));
            },
            Term::Let(x, e1, e2) => {
                open_paren(out, prec > 0);
                out.append("let ");
                out.append(x.as_str());
                out.append(" = ");
                e1.write_prec(out, 0);
                out.append(" in ");
                e2.write_prec(out, 0);
                close_paren(out, prec > 0);
                assert(out@ =~= start + show(self@, prec as nat));
            },
            _ => {},
        }
    }

    fn write_if(&self, out: &mut String, prec: u8)
        requires
            self is If,
        ensures
            final(out)@ == old(out)@ + show(self@, prec as nat),
        decreases self, 0nat,
    {
        let ghost start = out@;
        if let Term::If(c, t1, t2) = self {
            open_paren(out, prec > 0);
            out.append("if ");
            c.write_prec(out, 0);
            out.append(" then ");
            t1.write_prec(out, 0);
            out.append(" else ");
            t2.write_prec(out, 0);
            close_paren(out, prec > 0);
            assert(out@ =~= start + show(self@, prec as nat));
        }
    }

    fn write_binop(&self, out: &mut String, prec: u8)
        requires
            self is BinOp || self is App,
        ensures
            final(out)@ == old(out)@ + show(self@, prec as nat),
        decreases self, 0nat,
    {
        let ghost start = out@;
        match self {
            Term::BinOp(op, a, b) => {
                let (op_prec, lp, rp): (u8, u8, u8) = match op {
                    BinOp::Eq | BinOp::Lt => (2, 3, 3),
                    BinOp::Add | BinOp::Sub => (3, 3, 4),
                    BinOp::Mul => (4, 4, 5),
                };
                open_paren(out, prec > op_prec);
                a.write_prec(out, lp);
                out.append(" ");
                out.append(op.symbol());
                out.append(" ");
                b.write_prec(out, rp);
                close_paren(out, prec > op_prec);
                assert(out@ =~= start + show(self@, prec as nat));
            },
            Term::App(g, a) => {
                open_paren(out, prec > 5);
                g.write_prec(out, 5);
                out.append(" ");
                a.write_prec(out, 6);
                close_paren(out, prec > 5);
                assert(out@ =~= start + show(self@, prec as nat));
            },
            _ => {},
        }
    }
}

} // verus!
