use vstd::prelude::*;

use crate::names::{dec_int, decimal_i64};

verus! {

/// A kind: `*` for proper types, `κ -> κ'` for type operators.
#[derive(Debug, PartialEq, Eq)]
pub enum Kind {
    Star,
    Arrow(Box<Kind>, Box<Kind>),
}

impl View for Kind {
    type V = Kind;

    open spec fn view(&self) -> Kind {
        *self
    }
}

/// The printed form of a kind; only a left-hand arrow gets parentheses.
pub open spec fn show_kind(k: Kind, prec: nat) -> Seq<char>
    decreases k,
{
    match k {
        Kind::Star => "*"@,
        Kind::Arrow(a, b) => paren(prec > 0, show_kind(*a, 1) + " -> "@ + show_kind(*b, 0)),
    }
}

impl Kind {
    pub fn arrow(a: Kind, b: Kind) -> (k: Kind)
        ensures
            k == Kind::Arrow(Box::new(a), Box::new(b)),
    {
        Kind::Arrow(Box::new(a), Box::new(b))
    }

    /// Whether two kinds are the same.
    pub fn same(&self, other: &Kind) -> (r: bool)
        ensures
            r == (*self == *other),
        decreases self,
    {
        match (self, other) {
            (Kind::Star, Kind::Star) => true,
            (Kind::Arrow(a1, b1), Kind::Arrow(a2, b2)) => a1.same(a2) && b1.same(b2),
            _ => false,
        }
    }

    /// A copy of the kind.
    pub fn duplicate(&self) -> (r: Kind)
        ensures
            r == *self,
        decreases self,
    {
        match self {
            Kind::Star => Kind::Star,
            Kind::Arrow(a, b) => Kind::Arrow(Box::new(a.duplicate()), Box::new(b.duplicate())),
        }
    }

    /// The printed form, e.g. `* -> *`.
    pub fn to_string(&self) -> (s: String)
        ensures
            s@ == show_kind(*self, 0),
    {
        let mut out = String::new();
        self.write_prec(&mut out, 0);
        out
    }

    pub fn write_prec(&self, out: &mut String, prec: u8)
        ensures
            final(out)@ == old(out)@ + show_kind(*self, prec as nat),
        decreases self,
    {
        let ghost start = out@;
        match self {
            Kind::Star => out.append("*"),
            Kind::Arrow(a, b) => {
                open_paren(out, prec > 0);
                a.write_prec(out, 1);
                out.append(" -> ");
                b.write_prec(out, 0);
                close_paren(out, prec > 0);
                assert(out@ =~= start + show_kind(*self, prec as nat));
            },
        }
    }
}

/// A type of Fω: the System F types, type-level abstraction and
/// application, with binders annotated by kinds.
#[derive(Debug, PartialEq, Eq)]
pub enum Type {
    Var(String),
    Bool,
    Int,
    Arrow(Box<Type>, Box<Type>),
    ForAll(String, Kind, Box<Type>),
    Abs(String, Kind, Box<Type>),
    App(Box<Type>, Box<Type>),
}

pub enum SType {
    Var(Seq<char>),
    Bool,
    Int,
    Arrow(Box<SType>, Box<SType>),
    ForAll(Seq<char>, Kind, Box<SType>),
    Abs(Seq<char>, Kind, Box<SType>),
    App(Box<SType>, Box<SType>),
}

pub open spec fn view_type(t: Type) -> SType
    decreases t,
{
    match t {
        Type::Var(x) => SType::Var(x@),
        Type::Bool => SType::Bool,
        Type::Int => SType::Int,
        Type::Arrow(a, b) => SType::Arrow(Box::new(view_type(*a)), Box::new(view_type(*b))),
        Type::ForAll(x, k, b) => SType::ForAll(x@, k, Box::new(view_type(*b))),
        Type::Abs(x, k, b) => SType::Abs(x@, k, Box::new(view_type(*b))),
        Type::App(a, b) => SType::App(Box::new(view_type(*a)), Box::new(view_type(*b))),
    }
}

impl View for Type {
    type V = SType;

    open spec fn view(&self) -> SType {
        view_type(*self)
    }
}

/// The number of nodes of a type.
pub open spec fn type_size(t: SType) -> nat
    decreases t,
{
    match t {
        SType::Arrow(a, b) => 1 + type_size(*a) + type_size(*b),
        SType::App(a, b) => 1 + type_size(*a) + type_size(*b),
        SType::ForAll(_, _, b) => 1 + type_size(*b),
        SType::Abs(_, _, b) => 1 + type_size(*b),
        _ => 1,
    }
}

#[derive(Debug, Clone, Copy, PartialEq, Eq, Structural)]
pub enum BinOp {
    Add,
    Sub,
    Mul,
    Eq,
    Lt,
}

pub open spec fn op_symbol(op: BinOp) -> Seq<char> {
    match op {
        BinOp::Add => "+"@,
        BinOp::Sub => "-"@,
        BinOp::Mul => "*"@,
        BinOp::Eq => "=="@,
        BinOp::Lt => "<"@,
    }
}

impl BinOp {
    /// The operator as written in source text.
    pub fn symbol(self) -> (s: &'static str)
        ensures
            s@ == op_symbol(self),
    {
        match self {
            BinOp::Add => "+",
            BinOp::Sub => "-",
            BinOp::Mul => "*",
            BinOp::Eq => "==",
            BinOp::Lt => "<",
        }
    }
}

/// A term of Fω.
#[derive(Debug, PartialEq, Eq)]
pub enum Term {
    Var(String),
    /// `\x: T. body`
    Abs(String, Type, Box<Term>),
    App(Box<Term>, Box<Term>),
    /// `ΛT::K. body`
    TyAbs(String, Kind, Box<Term>),
    /// `e [T]`
    TyApp(Box<Term>, Type),
    BoolLit(bool),
    IntLit(i64),
    If(Box<Term>, Box<Term>, Box<Term>),
    BinOp(BinOp, Box<Term>, Box<Term>),
    Let(String, Box<Term>, Box<Term>),
}

pub enum STerm {
    Var(Seq<char>),
    Abs(Seq<char>, SType, Box<STerm>),
    App(Box<STerm>, Box<STerm>),
    TyAbs(Seq<char>, Kind, Box<STerm>),
    TyApp(Box<STerm>, SType),
    BoolLit(bool),
    IntLit(i64),
    If(Box<STerm>, Box<STerm>, Box<STerm>),
    BinOp(BinOp, Box<STerm>, Box<STerm>),
    Let(Seq<char>, Box<STerm>, Box<STerm>),
}

pub open spec fn view_term(t: Term) -> STerm
    decreases t,
{
    match t {
        Term::Var(x) => STerm::Var(x@),
        Term::Abs(x, ty, b) => STerm::Abs(x@, ty@, Box::new(view_term(*b))),
        Term::App(f, a) => STerm::App(Box::new(view_term(*f)), Box::new(view_term(*a))),
        Term::TyAbs(x, k, b) => STerm::TyAbs(x@, k, Box::new(view_term(*b))),
        Term::TyApp(f, ty) => STerm::TyApp(Box::new(view_term(*f)), ty@),
        Term::BoolLit(b) => STerm::BoolLit(b),
        Term::IntLit(n) => STerm::IntLit(n),
        Term::If(c, t1, t2) => STerm::If(
            Box::new(view_term(*c)),
            Box::new(view_term(*t1)),
            Box::new(view_term(*t2)),
        ),
        Term::BinOp(op, a, b) => STerm::BinOp(op, Box::new(view_term(*a)), Box::new(view_term(*b))),
        Term::Let(x, e1, e2) => STerm::Let(x@, Box::new(view_term(*e1)), Box::new(view_term(*e2))),
    }
}

impl View for Term {
    type V = STerm;

    open spec fn view(&self) -> STerm {
        view_term(*self)
    }
}

/// The number of term nodes of a term (types inside count for nothing).
pub open spec fn term_size(t: STerm) -> nat
    decreases t,
{
    match t {
        STerm::Abs(_, _, b) => 1 + term_size(*b),
        STerm::App(f, a) => 1 + term_size(*f) + term_size(*a),
        STerm::TyAbs(_, _, b) => 1 + term_size(*b),
        STerm::TyApp(f, _) => 1 + term_size(*f),
        STerm::If(c, t1, t2) => 1 + term_size(*c) + term_size(*t1) + term_size(*t2),
        STerm::BinOp(_, a, b) => 1 + term_size(*a) + term_size(*b),
        STerm::Let(_, e1, e2) => 1 + term_size(*e1) + term_size(*e2),
        _ => 1,
    }
}

// ===== printing =====

pub open spec fn paren(needs: bool, s: Seq<char>) -> Seq<char> {
    if needs {
        "("@ + s + ")"@
    } else {
        s
    }
}

/// A binder as printed: the name alone when its kind is `*`.
pub open spec fn show_binding(x: Seq<char>, k: Kind) -> Seq<char> {
    if k is Star {
        x
    } else {
        x + "::"@ + show_kind(k, 0)
    }
}

/// The printed form of a type. Levels: 0 top (∀, λ), 1 arrow, 2
/// application, 3 atom. A run of `∀`s (or of `λ`s) is printed as one.
pub open spec fn show_type(t: SType, prec: nat) -> Seq<char>
    decreases t, 1nat,
{
    match t {
        SType::Var(x) => x,
        SType::Int => "Int"@,
        SType::Bool => "Bool"@,
        SType::Arrow(a, b) => paren(prec > 1, show_type(*a, 2) + " -> "@ + show_type(*b, 1)),
        SType::ForAll(_, _, _) => paren(prec > 0, "∀"@ + show_foralls(t)),
        SType::Abs(_, _, _) => paren(prec > 0, "λ"@ + show_type_params(t)),
        SType::App(g, a) => paren(prec > 2, show_type(*g, 2) + " "@ + show_type(*a, 3)),
    }
}

/// `X Y::K. body` for a run of `∀`s.
pub open spec fn show_foralls(t: SType) -> Seq<char>
    decreases t, 0nat,
{
    match t {
        SType::ForAll(x, k, b) => match *b {
            SType::ForAll(_, _, _) => show_binding(x, k) + " "@ + show_foralls(*b),
            _ => show_binding(x, k) + ". "@ + show_type(*b, 0),
        },
        _ => Seq::<char>::empty(),
    }
}

/// `X Y::K. body` for a run of type-level abstractions.
pub open spec fn show_type_params(t: SType) -> Seq<char>
    decreases t, 0nat,
{
    match t {
        SType::Abs(x, k, b) => match *b {
            SType::Abs(_, _, _) => show_binding(x, k) + " "@ + show_type_params(*b),
            _ => show_binding(x, k) + ". "@ + show_type(*b, 0),
        },
        _ => Seq::<char>::empty(),
    }
}

pub open spec fn bool_text(b: bool) -> Seq<char> {
    if b {
        "true"@
    } else {
        "false"@
    }
}

/// Precedence of a binary operator and of its two operands.
pub open spec fn op_precs(op: BinOp) -> (nat, nat, nat) {
    match op {
        BinOp::Eq | BinOp::Lt => (1, 2, 2),
        BinOp::Add | BinOp::Sub => (2, 2, 3),
        BinOp::Mul => (3, 3, 4),
    }
}

/// The printed form of a term. Levels: 0 top, 1 comparison operands,
/// 2 `+`/`-` operands, 3 `*` operands, 4 function position, 5 argument.
pub open spec fn show(t: STerm, prec: nat) -> Seq<char>
    decreases t, 1nat,
{
    match t {
        STerm::Var(x) => x,
        STerm::BoolLit(b) => bool_text(b),
        STerm::IntLit(n) => dec_int(n as int),
        STerm::Abs(_, _, _) => paren(prec > 0, "λ"@ + show_binders(t)),
        STerm::TyAbs(_, _, _) => paren(prec > 0, "Λ"@ + show_ty_binders(t)),
        STerm::If(c, t1, t2) => paren(
            prec > 0,
            "if "@ + show(*c, 0) + " then "@ + show(*t1, 0) + " else "@ + show(*t2, 0),
        ),
        STerm::Let(x, e1, e2) => paren(
            prec > 0,
            "let "@ + x + " = "@ + show(*e1, 0) + " in "@ + show(*e2, 0),
        ),
        STerm::BinOp(op, a, b) => {
            let (op_prec, lp, rp) = op_precs(op);
            paren(prec > op_prec, show(*a, lp) + " "@ + op_symbol(op) + " "@ + show(*b, rp))
        },
        STerm::App(g, a) => paren(prec > 4, show(*g, 4) + " "@ + show(*a, 5)),
        STerm::TyApp(g, ty) => paren(prec > 4, show(*g, 4) + " ["@ + show_type(ty, 0) + "]"@),
    }
}

/// `x:T y:U. body` for a run of abstractions.
pub open spec fn show_binders(t: STerm) -> Seq<char>
    decreases t, 0nat,
{
    match t {
        STerm::Abs(x, ty, b) => {
            let head = x + ":"@ + show_type(ty, 0);
            match *b {
                STerm::Abs(_, _, _) => head + " "@ + show_binders(*b),
                _ => head + ". "@ + show(*b, 0),
            }
        },
        _ => Seq::<char>::empty(),
    }
}

/// `T U. body` for a run of type abstractions.
pub open spec fn show_ty_binders(t: STerm) -> Seq<char>
    decreases t, 0nat,
{
    match t {
        STerm::TyAbs(x, k, b) => match *b {
            STerm::TyAbs(_, _, _) => show_binding(x, k) + " "@ + show_ty_binders(*b),
            _ => show_binding(x, k) + ". "@ + show(*b, 0),
        },
        _ => Seq::<char>::empty(),
    }
}

fn open_paren(out: &mut String, needs: bool)
    ensures
        final(out)@ == old(out)@ + (if needs {
            "("@
        } else {
            Seq::<char>::empty()
        }),
{
    if needs {
        out.append("(");
    } else {
        assert(out@ + Seq::<char>::empty() =~= out@);
    }
}

fn close_paren(out: &mut String, needs: bool)
    ensures
        final(out)@ == old(out)@ + (if needs {
            ")"@
        } else {
            Seq::<char>::empty()
        }),
{
    if needs {
        out.append(")");
    } else {
        assert(out@ + Seq::<char>::empty() =~= out@);
    }
}

fn write_binding(out: &mut String, x: &String, k: &Kind)
    ensures
        final(out)@ == old(out)@ + show_binding(x@, *k),
{
    match k {
        Kind::Star => out.append(x.as_str()),
        _ => {
            out.append(x.as_str());
            out.append("::");
            k.write_prec(out, 0);
        },
    }
}

impl Type {
    pub fn var(s: &str) -> (t: Type)
        ensures
            t@ == SType::Var(s@),
    {
        Type::Var(String::from_str(s))
    }

    pub fn arrow(from: Type, to: Type) -> (t: Type)
        ensures
            t@ == SType::Arrow(Box::new(from@), Box::new(to@)),
    {
        Type::Arrow(Box::new(from), Box::new(to))
    }

    pub fn forall_(name: &str, kind: Kind, body: Type) -> (t: Type)
        ensures
            t@ == SType::ForAll(name@, kind, Box::new(body@)),
    {
        Type::ForAll(String::from_str(name), kind, Box::new(body))
    }

    pub fn abs(name: &str, kind: Kind, body: Type) -> (t: Type)
        ensures
            t@ == SType::Abs(name@, kind, Box::new(body@)),
    {
        Type::Abs(String::from_str(name), kind, Box::new(body))
    }

    pub fn app(f: Type, a: Type) -> (t: Type)
        ensures
            t@ == SType::App(Box::new(f@), Box::new(a@)),
    {
        Type::App(Box::new(f), Box::new(a))
    }

    /// A copy of the type.
    pub fn duplicate(&self) -> (r: Type)
        ensures
            r@ == self@,
        decreases self,
    {
        match self {
            Type::Var(x) => Type::Var(x.clone()),
            Type::Bool => Type::Bool,
            Type::Int => Type::Int,
            Type::Arrow(a, b) => Type::Arrow(Box::new(a.duplicate()), Box::new(b.duplicate())),
            Type::ForAll(x, k, b) => Type::ForAll(x.clone(), k.duplicate(), Box::new(b.duplicate())),
            Type::Abs(x, k, b) => Type::Abs(x.clone(), k.duplicate(), Box::new(b.duplicate())),
            Type::App(a, b) => Type::App(Box::new(a.duplicate()), Box::new(b.duplicate())),
        }
    }

    /// The printed form, e.g. `∀F::* -> *. F Int -> F Int`.
    pub fn to_string(&self) -> (s: String)
        ensures
            s@ == show_type(self@, 0),
    {
        let mut out = String::new();
        self.write_prec(&mut out, 0);
        out
    }

    #[verifier::spinoff_prover]
    #[verifier::rlimit(40)]
    pub fn write_prec(&self, out: &mut String, prec: u8)
        ensures
            final(out)@ == old(out)@ + show_type(self@, prec as nat),
        decreases self, 1nat,
    {
        let ghost start = out@;
        match self {
            Type::Bool => out.append("Bool"),
            Type::Int => out.append("Int"),
            Type::Var(x) => out.append(x.as_str()),
            Type::Arrow(a, b) => {
                open_paren(out, prec > 1);
                a.write_prec(out, 2);
                out.append(" -> ");
                b.write_prec(out, 1);
                close_paren(out, prec > 1);
                assert(out@ =~= start + show_type(self@, prec as nat));
            },
            Type::App(a, b) => {
                open_paren(out, prec > 2);
                a.write_prec(out, 2);
                out.append(" ");
                b.write_prec(out, 3);
                close_paren(out, prec > 2);
                assert(out@ =~= start + show_type(self@, prec as nat));
            },
            Type::ForAll(_, _, _) => {
                open_paren(out, prec > 0);
                out.append("∀");
                self.write_foralls(out);
                close_paren(out, prec > 0);
                assert(out@ =~= start + show_type(self@, prec as nat));
            },
            Type::Abs(_, _, _) => {
                open_paren(out, prec > 0);
                out.append("λ");
                self.write_type_params(out);
                close_paren(out, prec > 0);
                assert(out@ =~= start + show_type(self@, prec as nat));
            },
        }
    }

    fn write_foralls(&self, out: &mut String)
        ensures
            final(out)@ == old(out)@ + show_foralls(self@),
        decreases self, 0nat,
    {
        match self {
            Type::ForAll(x, k, b) => {
                write_binding(out, x, k);
                match &**b {
                    Type::ForAll(_, _, _) => {
                        out.append(" ");
                        b.write_foralls(out);
                    },
                    _ => {
                        out.append(". ");
                        b.write_prec(out, 0);
                    },
                }
            },
            _ => {
                assert(out@ + Seq::<char>::empty() =~= out@);
            },
        }
    }

    fn write_type_params(&self, out: &mut String)
        ensures
            final(out)@ == old(out)@ + show_type_params(self@),
        decreases self, 0nat,
    {
        match self {
            Type::Abs(x, k, b) => {
                write_binding(out, x, k);
                match &**b {
                    Type::Abs(_, _, _) => {
                        out.append(" ");
                        b.write_type_params(out);
                    },
                    _ => {
                        out.append(". ");
                        b.write_prec(out, 0);
                    },
                }
            },
            _ => {
                assert(out@ + Seq::<char>::empty() =~= out@);
            },
        }
    }
}

impl Term {
    pub fn var(s: &str) -> (t: Term)
        ensures
            t@ == STerm::Var(s@),
    {
        Term::Var(String::from_str(s))
    }

    pub fn abs(x: &str, ty: Type, body: Term) -> (t: Term)
        ensures
            t@ == STerm::Abs(x@, ty@, Box::new(body@)),
    {
        Term::Abs(String::from_str(x), ty, Box::new(body))
    }

    pub fn app(f: Term, a: Term) -> (t: Term)
        ensures
            t@ == STerm::App(Box::new(f@), Box::new(a@)),
    {
        Term::App(Box::new(f), Box::new(a))
    }

    pub fn ty_abs(x: &str, kind: Kind, body: Term) -> (t: Term)
        ensures
            t@ == STerm::TyAbs(x@, kind, Box::new(body@)),
    {
        Term::TyAbs(String::from_str(x), kind, Box::new(body))
    }

    pub fn ty_app(f: Term, ty: Type) -> (t: Term)
        ensures
            t@ == STerm::TyApp(Box::new(f@), ty@),
    {
        Term::TyApp(Box::new(f), ty)
    }

    pub fn if_then_else(c: Term, t: Term, e: Term) -> (r: Term)
        ensures
            r@ == STerm::If(Box::new(c@), Box::new(t@), Box::new(e@)),
    {
        Term::If(Box::new(c), Box::new(t), Box::new(e))
    }

    pub fn binop(op: BinOp, a: Term, b: Term) -> (t: Term)
        ensures
            t@ == STerm::BinOp(op, Box::new(a@), Box::new(b@)),
    {
        Term::BinOp(op, Box::new(a), Box::new(b))
    }

    pub fn let_(x: &str, e1: Term, e2: Term) -> (t: Term)
        ensures
            t@ == STerm::Let(x@, Box::new(e1@), Box::new(e2@)),
    {
        Term::Let(String::from_str(x), Box::new(e1), Box::new(e2))
    }

    /// A copy of the term.
    pub fn duplicate(&self) -> (r: Term)
        ensures
            r@ == self@,
        decreases self,
    {
        match self {
            Term::Var(x) => Term::Var(x.clone()),
            Term::Abs(x, ty, b) => Term::Abs(x.clone(), ty.duplicate(), Box::new(b.duplicate())),
            Term::App(f, a) => Term::App(Box::new(f.duplicate()), Box::new(a.duplicate())),
            Term::TyAbs(x, k, b) => Term::TyAbs(x.clone(), k.duplicate(), Box::new(b.duplicate())),
            Term::TyApp(f, ty) => Term::TyApp(Box::new(f.duplicate()), ty.duplicate()),
            Term::BoolLit(b) => Term::BoolLit(*b),
            Term::IntLit(n) => Term::IntLit(*n),
            Term::If(c, t1, t2) => Term::If(
                Box::new(c.duplicate()),
                Box::new(t1.duplicate()),
                Box::new(t2.duplicate()),
            ),
            Term::BinOp(op, a, b) => Term::BinOp(
                *op,
                Box::new(a.duplicate()),
                Box::new(b.duplicate()),
            ),
            Term::Let(x, e1, e2) => Term::Let(
                x.clone(),
                Box::new(e1.duplicate()),
                Box::new(e2.duplicate()),
            ),
        }
    }

    /// The printed form, e.g. `ΛF::* -> *. λx:F Int. x`.
    pub fn to_string(&self) -> (s: String)
        ensures
            s@ == show(self@, 0),
    {
        let mut out = String::new();
        self.write_prec(&mut out, 0);
        out
    }

    #[verifier::spinoff_prover]
    #[verifier::rlimit(40)]
    fn write_prec(&self, out: &mut String, prec: u8)
        ensures
            final(out)@ == old(out)@ + show(self@, prec as nat),
        decreases self, 2nat,
    {
        let ghost start = out@;
        match self {
            Term::Var(x) => out.append(x.as_str()),
            Term::BoolLit(b) => {
                if *b {
                    out.append("true")
                } else {
                    out.append("false")
                }
            },
            Term::IntLit(n) => {
                let d = decimal_i64(*n);
                out.append(d.as_str());
            },
            Term::Abs(_, _, _) => {
                open_paren(out, prec > 0);
                out.append("λ");
                self.write_binders(out);
                close_paren(out, prec > 0);
                assert(out@ =~= start + show(self@, prec as nat));
            },
            Term::TyAbs(_, _, _) => {
                open_paren(out, prec > 0);
                out.append("Λ");
                self.write_ty_binders(out);
                close_paren(out, prec > 0);
                assert(out@ =~= start + show(self@, prec as nat));
            },
            _ => self.write_compound(out, prec),
        }
    }

    #[verifier::spinoff_prover]
    #[verifier::rlimit(40)]
    fn write_compound(&self, out: &mut String, prec: u8)
        ensures
            match self {
                Term::Var(_) | Term::BoolLit(_) | Term::IntLit(_) | Term::Abs(_, _, _)
                | Term::TyAbs(_, _, _) => true,
                _ => final(out)@ == old(out)@ + show(self@, prec as nat),
            },
        decreases self, 1nat,
    {
        match self {
            Term::If(_, _, _) | Term::Let(_, _, _) => self.write_block(out, prec),
            _ => self.write_operator(out, prec),
        }
    }

    #[verifier::spinoff_prover]
    #[verifier::rlimit(40)]
    fn write_block(&self, out: &mut String, prec: u8)
        ensures
            match self {
                Term::If(_, _, _) | Term::Let(_, _, _) => final(out)@ == old(out)@ + show(
                    self@,
                    prec as nat,
                ),
                _ => true,
            },
        decreases self, 0nat,
    {
        let ghost start = out@;
        match self {
            Term::If(c, t1, t2) => {
                open_paren(out, prec > 0);
                out.append("if ");
                c.write_prec(out, 0);
                out.append(" then ");
                t1.write_prec(out, 0);
                out.append(" else ");
                t2.write_prec(out, 0);
                close_paren(out, prec > 0);
                assert(out@ =~= start + show(self@, prec as nat));
            },
            Term::Let(x, e1, e2) => {
                open_paren(out, prec > 0);
                out.append("let ");
                out.append(x.as_str());
                out.append(" = ");
                e1.write_prec(out, 0);
                out.append(" in ");
                e2.write_prec(out, 0);
                close_paren(out, prec > 0);
                assert(out@ =~= start + show(self@, prec as nat));
            },
            _ => {},
        }
    }

    #[verifier::spinoff_prover]
    #[verifier::rlimit(40)]
    fn write_operator(&self, out: &mut String, prec: u8)
        ensures
            match self {
                Term::BinOp(_, _, _) | Term::App(_, _) | Term::TyApp(_, _) => final(out)@ == old(
                    out,
                )@ + show(self@, prec as nat),
                _ => true,
            },
        decreases self, 0nat,
    {
        let ghost start = out@;
        match self {
            Term::BinOp(op, a, b) => {
                let (op_prec, lp, rp): (u8, u8, u8) = match op {
                    BinOp::Eq | BinOp::Lt => (1, 2, 2),
                    BinOp::Add | BinOp::Sub => (2, 2, 3),
                    BinOp::Mul => (3, 3, 4),
                };
                open_paren(out, prec > op_prec);
                a.write_prec(out, lp);
                out.append(" ");
                out.append(op.symbol());
                out.append(" ");
                b.write_prec(out, rp);
                close_paren(out, prec > op_prec);
                assert(out@ =~= start + show(self@, prec as nat));
            },
            Term::App(g, a) => {
                open_paren(out, prec > 4);
                g.write_prec(out, 4);
                out.append(" ");
                a.write_prec(out, 5);
                close_paren(out, prec > 4);
                assert(out@ =~= start + show(self@, prec as nat));
            },
            Term::TyApp(g, ty) => {
                open_paren(out, prec > 4);
                g.write_prec(out, 4);
                out.append(" [");
                ty.write_prec(out, 0);
                out.append("]");
                close_paren(out, prec > 4);
                assert(out@ =~= start + show(self@, prec as nat));
            },
            _ => {},
        }
    }

    fn write_binders(&self, out: &mut String)
        ensures
            final(out)@ == old(out)@ + show_binders(self@),
        decreases self, 0nat,
    {
        match self {
            Term::Abs(x, ty, b) => {
                out.append(x.as_str());
                out.append(":");
                ty.write_prec(out, 0);
                match &**b {
                    Term::Abs(_, _, _) => {
                        out.append(" ");
                        b.write_binders(out);
                    },
                    _ => {
                        out.append(". ");
                        b.write_prec(out, 0);
                    },
                }
            },
            _ => {
                assert(out@ + Seq::<char>::empty() =~= out@);
            },
        }
    }

    fn write_ty_binders(&self, out: &mut String)
        ensures
            final(out)@ == old(out)@ + show_ty_binders(self@),
        decreases self, 0nat,
    {
        match self {
            Term::TyAbs(x, k, b) => {
                write_binding(out, x, k);
                match &**b {
                    Term::TyAbs(_, _, _) => {
                        out.append(" ");
                        b.write_ty_binders(out);
                    },
                    _ => {
                        out.append(". ");
                        b.write_prec(out, 0);
                    },
                }
            },
            _ => {
                assert(out@ + Seq::<char>::empty() =~= out@);
            },
        }
    }
}

} // verus!
