use vstd::prelude::*;

use crate::names::{dec_int, decimal_i64};

verus! {

/// A simple type: `Bool`, `Int` or `T -> U`.
#[derive(Debug, PartialEq, Eq)]
pub enum Type {
    Bool,
    Int,
    Arrow(Box<Type>, Box<Type>),
}

#[derive(Debug, Clone, Copy, PartialEq, Eq, Structural)]
pub enum BinOp {
    Add,
    Sub,
    Mul,
    Eq,
    Lt,
}

pub open spec fn op_symbol(op: BinOp) -> Seq<char> {
    match op {
        BinOp::Add => "+"@,
        BinOp::Sub => "-"@,
        BinOp::Mul => "*"@,
        BinOp::Eq => "=="@,
        BinOp::Lt => "<"@,
    }
}

impl BinOp {
    /// The operator as written in source text.
    pub fn symbol(self) -> (s: &'static str)
        ensures
            s@ == op_symbol(self),
    {
        match self {
            BinOp::Add => "+",
            BinOp::Sub => "-",
            BinOp::Mul => "*",
            BinOp::Eq => "==",
            BinOp::Lt => "<",
        }
    }
}

/// A term of λ→.
#[derive(Debug, PartialEq, Eq)]
pub enum Term {
    Var(String),
    /// `\x: T. body`
    Abs(String, Type, Box<Term>),
    App(Box<Term>, Box<Term>),
    BoolLit(bool),
    IntLit(i64),
    If(Box<Term>, Box<Term>, Box<Term>),
    BinOp(BinOp, Box<Term>, Box<Term>),
    /// `let x = e1 in e2`, the type of `x` taken from `e1`
    Let(String, Box<Term>, Box<Term>),
}

/// The mathematical value of a term: names as character sequences.
pub enum STerm {
    Var(Seq<char>),
    Abs(Seq<char>, Type, Box<STerm>),
    App(Box<STerm>, Box<STerm>),
    BoolLit(bool),
    IntLit(i64),
    If(Box<STerm>, Box<STerm>, Box<STerm>),
    BinOp(BinOp, Box<STerm>, Box<STerm>),
    Let(Seq<char>, Box<STerm>, Box<STerm>),
}

pub open spec fn view_term(t: Term) -> STerm
    decreases t,
{
    match t {
        Term::Var(x) => STerm::Var(x@),
        Term::Abs(x, ty, b) => STerm::Abs(x@, ty, Box::new(view_term(*b))),
        Term::App(f, a) => STerm::App(Box::new(view_term(*f)), Box::new(view_term(*a))),
        Term::BoolLit(b) => STerm::BoolLit(b),
        Term::IntLit(n) => STerm::IntLit(n),
        Term::If(c, t1, t2) => STerm::If(
            Box::new(view_term(*c)),
            Box::new(view_term(*t1)),
            Box::new(view_term(*t2)),
        ),
        Term::BinOp(op, a, b) => STerm::BinOp(op, Box::new(view_term(*a)), Box::new(view_term(*b))),
        Term::Let(x, e1, e2) => STerm::Let(x@, Box::new(view_term(*e1)), Box::new(view_term(*e2))),
    }
}

impl View for Term {
    type V = STerm;

    open spec fn view(&self) -> STerm {
        view_term(*self)
    }
}

// ===== printing =====

/// The printed form of a type; `->` associates to the right, so only a
/// left-hand arrow gets parentheses.
pub open spec fn show_type(t: Type, prec: nat) -> Seq<char>
    decreases t,
{
    match t {
        Type::Bool => "Bool"@,
        Type::Int => "Int"@,
        Type::Arrow(a, b) => {
            let inner = show_type(*a, 1) + " -> "@ + show_type(*b, 0);
            if prec > 0 {
                "("@ + inner + ")"@
            } else {
                inner
            }
        },
    }
}

pub open spec fn paren(needs: bool, s: Seq<char>) -> Seq<char> {
    if needs {
        "("@ + s + ")"@
    } else {
        s
    }
}

pub open spec fn bool_text(b: bool) -> Seq<char> {
    if b {
        "true"@
    } else {
        "false"@
    }
}

/// Precedence of a binary operator and of its two operands.
pub open spec fn op_precs(op: BinOp) -> (nat, nat, nat) {
    match op {
        BinOp::Eq | BinOp::Lt => (1, 2, 2),
        BinOp::Add | BinOp::Sub => (2, 2, 3),
        BinOp::Mul => (3, 3, 4),
    }
}

/// The printed form of a term. Levels: 0 top, 1 comparison operands,
/// 2 `+`/`-` operands, 3 `*` operands, 4 function position, 5 argument.
pub open spec fn show(t: STerm, prec: nat) -> Seq<char>
    decreases t, 1nat,
{
    match t {
        STerm::Var(x) => x,
        STerm::BoolLit(b) => bool_text(b),
        STerm::IntLit(n) => dec_int(n as int),
        STerm::Abs(_, _, _) => paren(prec > 0, "λ"@ + show_binders(t)),
        STerm::If(c, t1, t2) => paren(
            prec > 0,
            "if "@ + show(*c, 0) + " then "@ + show(*t1, 0) + " else "@ + show(*t2, 0),
        ),
        STerm::Let(x, e1, e2) => paren(
            prec > 0,
            "let "@ + x + " = "@ + show(*e1, 0) + " in "@ + show(*e2, 0),
        ),
        STerm::BinOp(op, a, b) => {
            let (op_prec, lp, rp) = op_precs(op);
            paren(prec > op_prec, show(*a, lp) + " "@ + op_symbol(op) + " "@ + show(*b, rp))
        },
        STerm::App(g, a) => paren(prec > 4, show(*g, 4) + " "@ + show(*a, 5)),
    }
}

/// `x:T y:U. body` for a run of abstractions.
pub open spec fn show_binders(t: STerm) -> Seq<char>
    decreases t, 0nat,
{
    match t {
        STerm::Abs(x, ty, b) => {
            let head = x + ":"@ + show_type(ty, 0);
            match *b {
                STerm::Abs(_, _, _) => head + " "@ + show_binders(*b),
                _ => head + ". "@ + show(*b, 0),
            }
        },
        _ => Seq::<char>::empty(),
    }
}

impl Type {
    pub fn arrow(from: Type, to: Type) -> (t: Type)
        ensures
            t == Type::Arrow(Box::new(from), Box::new(to)),
    {
        Type::Arrow(Box::new(from), Box::new(to))
    }

    /// Whether two types are the same.
    pub fn same(&self, other: &Type) -> (r: bool)
        ensures
            r == (*self == *other),
        decreases self,
    {
        match (self, other) {
            (Type::Bool, Type::Bool) => true,
            (Type::Int, Type::Int) => true,
            (Type::Arrow(a1, b1), Type::Arrow(a2, b2)) => a1.same(a2) && b1.same(b2),
            _ => false,
        }
    }

    /// A copy of the type.
    pub fn duplicate(&self) -> (r: Type)
        ensures
            r == *self,
        decreases self,
    {
        match self {
            Type::Bool => Type::Bool,
            Type::Int => Type::Int,
            Type::Arrow(a, b) => Type::Arrow(Box::new(a.duplicate()), Box::new(b.duplicate())),
        }
    }

    /// The printed form, e.g. `(Int -> Int) -> Int`.
    pub fn to_string(&self) -> (s: String)
        ensures
            s@ == show_type(*self, 0),
    {
        let mut out = String::new();
        self.write_prec(&mut out, 0);
        out
    }

    pub fn write_prec(&self, out: &mut String, prec: u8)
        ensures
            final(out)@ == old(out)@ + show_type(*self, prec as nat),
        decreases self,
    {
        match self {
            Type::Bool => out.append("Bool"),
            Type::Int => out.append("Int"),
            Type::Arrow(a, b) => {
                if prec > 0 {
                    out.append("(");
                }
                a.write_prec(out, 1);
                out.append(" -> ");
                b.write_prec(out, 0);
                if prec > 0 {
                    out.append(")");
                }
            },
        }
    }
}

fn open_paren(out: &mut String, needs: bool)
    ensures
        final(out)@ == old(out)@ + (if needs {
            "("@
        } else {
            Seq::<char>::empty()
        }),
{
    if needs {
        out.append("(");
    } else {
        assert(out@ + Seq::<char>::empty() =~= out@);
    }
}

fn close_paren(out: &mut String, needs: bool)
    ensures
        final(out)@ == old(out)@ + (if needs {
            ")"@
        } else {
            Seq::<char>::empty()
        }),
{
    if needs {
        out.append(")");
    } else {
        assert(out@ + Seq::<char>::empty() =~= out@);
    }
}

impl Term {
    pub fn var(s: &str) -> (t: Term)
        ensures
            t@ == STerm::Var(s@),
    {
        Term::Var(String::from_str(s))
    }

    pub fn abs(x: &str, ty: Type, body: Term) -> (t: Term)
        ensures
            t@ == STerm::Abs(x@, ty, Box::new(body@)),
    {
        Term::Abs(String::from_str(x), ty, Box::new(body))
    }

    pub fn app(f: Term, a: Term) -> (t: Term)
        ensures
            t@ == STerm::App(Box::new(f@), Box::new(a@)),
    {
        Term::App(Box::new(f), Box::new(a))
    }

    pub fn if_then_else(c: Term, t: Term, e: Term) -> (r: Term)
        ensures
            r@ == STerm::If(Box::new(c@), Box::new(t@), Box::new(e@)),
    {
        Term::If(Box::new(c), Box::new(t), Box::new(e))
    }

    pub fn binop(op: BinOp, a: Term, b: Term) -> (t: Term)
        ensures
            t@ == STerm::BinOp(op, Box::new(a@), Box::new(b@)),
    {
        Term::BinOp(op, Box::new(a), Box::new(b))
    }

    pub fn let_(x: &str, e1: Term, e2: Term) -> (t: Term)
        ensures
            t@ == STerm::Let(x@, Box::new(e1@), Box::new(e2@)),
    {
        Term::Let(String::from_str(x), Box::new(e1), Box::new(e2))
    }

    /// A copy of the term.
    pub fn duplicate(&self) -> (r: Term)
        ensures
            r@ == self@,
        decreases self,
    {
        match self {
            Term::Var(x) => Term::Var(x.clone()),
            Term::Abs(x, ty, b) => Term::Abs(x.clone(), ty.duplicate(), Box::new(b.duplicate())),
            Term::App(f, a) => Term::App(Box::new(f.duplicate()), Box::new(a.duplicate())),
            Term::BoolLit(b) => Term::BoolLit(*b),
            Term::IntLit(n) => Term::IntLit(*n),
            Term::If(c, t1, t2) => Term::If(
                Box::new(c.duplicate()),
                Box::new(t1.duplicate()),
                Box::new(t2.duplicate()),
            ),
            Term::BinOp(op, a, b) => Term::BinOp(
                *op,
                Box::new(a.duplicate()),
                Box::new(b.duplicate()),
            ),
            Term::Let(x, e1, e2) => Term::Let(
                x.clone(),
                Box::new(e1.duplicate()),
                Box::new(e2.duplicate()),
            ),
        }
    }

    /// The printed form, e.g. `λx:Int. x + 1`.
    pub fn to_string(&self) -> (s: String)
        ensures
            s@ == show(self@, 0),
    {
        let mut out = String::new();
        self.write_prec(&mut out, 0);
        out
    }

    #[verifier::spinoff_prover]
    #[verifier::rlimit(40)]
    fn write_prec(&self, out: &mut String, prec: u8)
        ensures
            final(out)@ == old(out)@ + show(self@, prec as nat),
        decreases self, 1nat,
    {
        let ghost start = out@;
        match self {
            Term::Var(x) => out.append(x.as_str()),
            Term::BoolLit(b) => {
                if *b {
                    out.append("true")
                } else {
                    out.append("false")
                }
            },
            Term::IntLit(n) => {
                let d = decimal_i64(*n);
                out.append(d.as_str());
            },
            Term::Abs(_, _, _) => {
                open_paren(out, prec > 0);
                out.append("λ");
                self.write_binders(out);
                close_paren(out, prec > 0);
                assert(out@ =~= start + show(self@, prec as nat));
            },
            Term::If(c, t1, t2) => {
                open_paren(out, prec > 0);
                out.append("if ");
                c.write_prec(out, 0);
                out.append(" then ");
                t1.write_prec(out, 0);
                out.append(" else ");
                t2.write_prec(out, 0);
                close_paren(out, prec > 0);
                assert(out@ =~= start + show(self@, prec as nat));
            },
            Term::Let(x, e1, e2) => {
                open_paren(out, prec > 0);
                out.append("let ");
                out.append(x.as_str());
                out.append(" = ");
                e1.write_prec(out, 0);
                out.append(" in ");
                e2.write_prec(out, 0);
                close_paren(out, prec > 0);
                assert(out@ =~= start + show(self@, prec as nat));
            },
            Term::BinOp(op, a, b) => {
                let (op_prec, lp, rp): (u8, u8, u8) = match op {
                    BinOp::Eq | BinOp::Lt => (1, 2, 2),
                    BinOp::Add | BinOp::Sub => (2, 2, 3),
                    BinOp::Mul => (3, 3, 4),
                };
                open_paren(out, prec > op_prec);
                a.write_prec(out, lp);
                out.append(" ");
                out.append(op.symbol());
                out.append(" ");
                b.write_prec(out, rp);
                close_paren(out, prec > op_prec);
                assert(out@ =~= start + show(self@, prec as nat));
            },
            Term::App(g, a) => {
                open_paren(out, prec > 4);
                g.write_prec(out, 4);
                out.append(" ");
                a.write_prec(out, 5);
                close_paren(out, prec > 4);
                assert(out@ =~= start + show(self@, prec as nat));
            },
        }
    }

    fn write_binders(&self, out: &mut String)
        ensures
            final(out)@ == old(out)@ + show_binders(self@),
        decreases self, 0nat,
    {
        match self {
            Term::Abs(x, ty, b) => {
                out.append(x.as_str());
                out.append(":");
                ty.write_prec(out, 0);
                match &**b {
                    Term::Abs(_, _, _) => {
                        out.append(" ");
                        b.write_binders(out);
                    },
                    _ => {
                        out.append(". ");
                        b.write_prec(out, 0);
                    },
                }
            },
            _ => {},
        }
    }
}

} // verus!
