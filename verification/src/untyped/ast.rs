use vstd::prelude::*;



verus! {

/// A term of the untyped lambda calculus.
#[derive(Debug, PartialEq, Eq)]
pub enum Term {
    Var(String),
    Abs(String, Box<Term>),
    App(Box<Term>, Box<Term>),
}

/// The mathematical value of a term: names as character sequences.
pub enum STerm {
    Var(Seq<char>),
    Abs(Seq<char>, Box<STerm>),
    App(Box<STerm>, Box<STerm>),
}

pub open spec fn view_term(t: Term) -> STerm
    decreases t,
{
    match t {
        Term::Var(x) => STerm::Var(x@),
        Term::Abs(x, b) => STerm::Abs(x@, Box::new(view_term(*b))),
        Term::App(f, a) => STerm::App(Box::new(view_term(*f)), Box::new(view_term(*a))),
    }
}

impl View for Term {
    type V = STerm;

    open spec fn view(&self) -> STerm {
        view_term(*self)
    }
}

/// The number of nodes of a term.
pub open spec fn size(t: STerm) -> nat
    decreases t,
{
    match t {
        STerm::Var(_) => 1,
        STerm::Abs(_, b) => 1 + size(*b),
        STerm::App(f, a) => 1 + size(*f) + size(*a),
    }
}

// ===== printing =====

/// The printed form of a term at a precedence level: 0 at the top and in
/// lambda bodies, 1 in function position, 2 in argument position.
pub open spec fn show(t: STerm, prec: nat) -> Seq<char>
    decreases t, 1nat,
{
    match t {
        STerm::Var(x) => x,
        STerm::Abs(_, _) => if prec > 0 {
            "("@ + "λ"@ + show_binders(t) + ")"@
        } else {
            "λ"@ + show_binders(t)
        },
        STerm::App(g, a) => {
            let inner = show(*g, 1) + " "@ + show(*a, 2);
            if prec > 1 {
                "("@ + inner + ")"@
            } else {
                inner
            }
        },
    }
}

/// The parameters of a run of abstractions separated by spaces, then `. `
/// and the body of the innermost one.
pub open spec fn show_binders(t: STerm) -> Seq<char>
    decreases t, 0nat,
{
    match t {
        STerm::Abs(p, b) => match *b {
            STerm::Abs(_, _) => p + " "@ + show_binders(*b),
            _ => p + ". "@ + show(*b, 0),
        },
        _ => Seq::<char>::empty(),
    }
}

impl Term {
    pub fn var(name: &str) -> (t: Term)
        ensures
            t@ == STerm::Var(name@),
    {
        Term::Var(String::from_str(name))
    }

    pub fn abs(name: &str, body: Term) -> (t: Term)
        ensures
            t@ == STerm::Abs(name@, Box::new(body@)),
    {
        Term::Abs(String::from_str(name), Box::new(body))
    }

    pub fn app(f: Term, a: Term) -> (t: Term)
        ensures
            t@ == STerm::App(Box::new(f@), Box::new(a@)),
    {
        Term::App(Box::new(f), Box::new(a))
    }

    /// A copy of the term.
    pub fn duplicate(&self) -> (r: Term)
        ensures
            r@ == self@,
        decreases self,
    {
        match self {
            Term::Var(x) => Term::Var(x.clone()),
            Term::Abs(x, b) => Term::Abs(x.clone(), Box::new(b.duplicate())),
            Term::App(f, a) => Term::App(Box::new(f.duplicate()), Box::new(a.duplicate())),
        }
    }

    /// The printed form, e.g. `λx y. x (y z)`.
    pub fn to_string(&self) -> (s: String)
        ensures
            s@ == show(self@, 0),
    {
        let mut out = String::new();
        self.write_prec(&mut out, 0);
        out
    }

    fn write_prec(&self, out: &mut String, prec: u8)
        ensures
            final(out)@ == old(out)@ + show(self@, prec as nat),
        decreases self, 1nat,
    {
        match self {
            Term::Var(x) => {
                out.append(x.as_str());
            },
            Term::Abs(_, _) => {
                if prec > 0 {
                    out.append("(");
                }
                out.append("λ");
                self.write_binders(out);
                if prec > 0 {
                    out.append(")");
                }
            },
            Term::App(g, a) => {
                if prec > 1 {
                    out.append("(");
                }
                g.write_prec(out, 1);
                out.append(" ");
                a.write_prec(out, 2);
                if prec > 1 {
                    out.append(")");
                }
            },
        }
    }

    fn write_binders(&self, out: &mut String)
        ensures
            final(out)@ == old(out)@ + show_binders(self@),
        decreases self, 0nat,
    {
        match self {
            Term::Abs(p, b) => {
                out.append(p.as_str());
                match &**b {
                    Term::Abs(_, _) => {
                        out.append(" ");
                        b.write_binders(out);
                    },
                    _ => {
                        out.append(". ");
                        b.write_prec(out, 0);
                    },
                }
            },
            _ => {},
        }
    }
}

} // verus!
