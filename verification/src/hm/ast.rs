use vstd::prelude::*;

use crate::names::{dec_int, decimal_i64, names_of};

verus! {

/// A monotype. Type variables are the unknowns of inference.
#[derive(Debug, PartialEq, Eq)]
pub enum Type {
    Var(String),
    Int,
    Bool,
    Arrow(Box<Type>, Box<Type>),
}

pub enum SType {
    Var(Seq<char>),
    Int,
    Bool,
    Arrow(Box<SType>, Box<SType>),
}

pub open spec fn view_type(t: Type) -> SType
    decreases t,
{
    match t {
        Type::Var(x) => SType::Var(x@),
        Type::Int => SType::Int,
        Type::Bool => SType::Bool,
        Type::Arrow(a, b) => SType::Arrow(Box::new(view_type(*a)), Box::new(view_type(*b))),
    }
}

impl View for Type {
    type V = SType;

    open spec fn view(&self) -> SType {
        view_type(*self)
    }
}

/// The number of nodes of a type.
pub open spec fn type_size(t: SType) -> nat
    decreases t,
{
    match t {
        SType::Arrow(a, b) => 1 + type_size(*a) + type_size(*b),
        _ => 1,
    }
}

/// A type scheme `∀α₁ … αₙ. τ`.
#[derive(Debug, PartialEq, Eq)]
pub struct Scheme {
    pub vars: Vec<String>,
    pub ty: Type,
}

pub struct SScheme {
    pub vars: Seq<Seq<char>>,
    pub ty: SType,
}

impl View for Scheme {
    type V = SScheme;

    open spec fn view(&self) -> SScheme {
        SScheme { vars: names_of(self.vars@), ty: self.ty@ }
    }
}

#[derive(Debug, Clone, Copy, PartialEq, Eq, Structural)]
pub enum BinOp {
    Add,
    Sub,
    Mul,
    Eq,
    Lt,
}

pub open spec fn op_symbol(op: BinOp) -> Seq<char> {
    match op {
        BinOp::Add => "+"@,
        BinOp::Sub => "-"@,
        BinOp::Mul => "*"@,
        BinOp::Eq => "=="@,
        BinOp::Lt => "<"@,
    }
}

impl BinOp {
    /// The operator as written in source text.
    pub fn symbol(self) -> (s: &'static str)
        ensures
            s@ == op_symbol(self),
    {
        match self {
            BinOp::Add => "+",
            BinOp::Sub => "-",
            BinOp::Mul => "*",
            BinOp::Eq => "==",
            BinOp::Lt => "<",
        }
    }
}

/// A term; there are no type annotations.
#[derive(Debug, PartialEq, Eq)]
pub enum Term {
    Var(String),
    Abs(String, Box<Term>),
    App(Box<Term>, Box<Term>),
    IntLit(i64),
    BoolLit(bool),
    If(Box<Term>, Box<Term>, Box<Term>),
    BinOp(BinOp, Box<Term>, Box<Term>),
    Let(String, Box<Term>, Box<Term>),
    LetRec(String, Box<Term>, Box<Term>),
    /// The fixed point of a function; made by evaluation from `let rec`,
    /// never by the parser.
    Fix(Box<Term>),
}

pub enum STerm {
    Var(Seq<char>),
    Abs(Seq<char>, Box<STerm>),
    App(Box<STerm>, Box<STerm>),
    IntLit(i64),
    BoolLit(bool),
    If(Box<STerm>, Box<STerm>, Box<STerm>),
    BinOp(BinOp, Box<STerm>, Box<STerm>),
    Let(Seq<char>, Box<STerm>, Box<STerm>),
    LetRec(Seq<char>, Box<STerm>, Box<STerm>),
    Fix(Box<STerm>),
}

pub open spec fn view_term(t: Term) -> STerm
    decreases t,
{
    match t {
        Term::Var(x) => STerm::Var(x@),
        Term::Abs(x, b) => STerm::Abs(x@, Box::new(view_term(*b))),
        Term::App(f, a) => STerm::App(Box::new(view_term(*f)), Box::new(view_term(*a))),
        Term::IntLit(n) => STerm::IntLit(n),
        Term::BoolLit(b) => STerm::BoolLit(b),
        Term::If(c, t1, t2) => STerm::If(
            Box::new(view_term(*c)),
            Box::new(view_term(*t1)),
            Box::new(view_term(*t2)),
        ),
        Term::BinOp(op, a, b) => STerm::BinOp(op, Box::new(view_term(*a)), Box::new(view_term(*b))),
        Term::Let(x, e1, e2) => STerm::Let(x@, Box::new(view_term(*e1)), Box::new(view_term(*e2))),
        Term::LetRec(x, e1, e2) => STerm::LetRec(
            x@,
            Box::new(view_term(*e1)),
            Box::new(view_term(*e2)),
        ),
        Term::Fix(e) => STerm::Fix(Box::new(view_term(*e))),
    }
}

impl View for Term {
    type V = STerm;

    open spec fn view(&self) -> STerm {
        view_term(*self)
    }
}

/// The number of nodes of a term.
pub open spec fn size(t: STerm) -> nat
    decreases t,
{
    match t {
        STerm::Abs(_, b) => 1 + size(*b),
        STerm::App(f, a) => 1 + size(*f) + size(*a),
        STerm::If(c, t1, t2) => 1 + size(*c) + size(*t1) + size(*t2),
        STerm::BinOp(_, a, b) => 1 + size(*a) + size(*b),
        STerm::Let(_, e1, e2) => 1 + size(*e1) + size(*e2),
        STerm::LetRec(_, e1, e2) => 1 + size(*e1) + size(*e2),
        STerm::Fix(e) => 1 + size(*e),
        _ => 1,
    }
}

/// Whether the term contains a `Fix` node.
pub open spec fn has_fix(t: STerm) -> bool
    decreases t,
{
    match t {
        STerm::Abs(_, b) => has_fix(*b),
        STerm::App(f, a) => has_fix(*f) || has_fix(*a),
        STerm::If(c, t1, t2) => has_fix(*c) || has_fix(*t1) || has_fix(*t2),
        STerm::BinOp(_, a, b) => has_fix(*a) || has_fix(*b),
        STerm::Let(_, e1, e2) => has_fix(*e1) || has_fix(*e2),
        STerm::LetRec(_, e1, e2) => has_fix(*e1) || has_fix(*e2),
        STerm::Fix(_) => true,
        _ => false,
    }
}

// ===== printing =====

pub open spec fn paren(needs: bool, s: Seq<char>) -> Seq<char> {
    if needs {
        "("@ + s + ")"@
    } else {
        s
    }
}

/// The printed form of a type; only a left-hand arrow gets parentheses.
pub open spec fn show_type(t: SType, prec: nat) -> Seq<char>
    decreases t,
{
    match t {
        SType::Var(x) => x,
        SType::Int => "Int"@,
        SType::Bool => "Bool"@,
        SType::Arrow(a, b) => paren(prec > 0, show_type(*a, 1) + " -> "@ + show_type(*b, 0)),
    }
}

/// Names separated by single spaces.
pub open spec fn join_names(vs: Seq<Seq<char>>) -> Seq<char>
    decreases vs.len(),
{
    if vs.len() == 0 {
        Seq::<char>::empty()
    } else if vs.len() == 1 {
        vs[0]
    } else {
        vs[0] + " "@ + join_names(vs.drop_first())
    }
}

/// The printed form of a scheme, `∀a b. a -> b -> a`, or just the type
/// when nothing is quantified.
pub open spec fn show_scheme(s: SScheme) -> Seq<char> {
    if s.vars.len() == 0 {
        show_type(s.ty, 0)
    } else {
        "∀"@ + join_names(s.vars) + ". "@ + show_type(s.ty, 0)
    }
}

pub open spec fn bool_text(b: bool) -> Seq<char> {
    if b {
        "true"@
    } else {
        "false"@
    }
}

/// Precedence of a binary operator and of its two operands.
pub open spec fn op_precs(op: BinOp) -> (nat, nat, nat) {
    match op {
        BinOp::Eq | BinOp::Lt => (1, 2, 2),
        BinOp::Add | BinOp::Sub => (2, 2, 3),
        BinOp::Mul => (3, 3, 4),
    }
}

/// The printed form of a term. Levels: 0 top, 1 comparison operands,
/// 2 `+`/`-` operands, 3 `*` operands, 4 function position, 5 argument.
pub open spec fn show(t: STerm, prec: nat) -> Seq<char>
    decreases t, 1nat,
{
    match t {
        STerm::Var(x) => x,
        STerm::BoolLit(b) => bool_text(b),
        STerm::IntLit(n) => dec_int(n as int),
        STerm::Abs(_, _) => paren(prec > 0, "λ"@ + show_params(t)),
        STerm::If(c, t1, t2) => paren(
            prec > 0,
            "if "@ + show(*c, 0) + " then "@ + show(*t1, 0) + " else "@ + show(*t2, 0),
        ),
        STerm::Let(x, e1, e2) => paren(
            prec > 0,
            "let "@ + x + " = "@ + show(*e1, 0) + " in "@ + show(*e2, 0),
        ),
        STerm::LetRec(x, e1, e2) => paren(
            prec > 0,
            "let rec "@ + x + " = "@ + show(*e1, 0) + " in "@ + show(*e2, 0),
        ),
        STerm::Fix(e) => paren(prec > 4, "fix "@ + show(*e, 5)),
        STerm::BinOp(op, a, b) => {
            let (op_prec, lp, rp) = op_precs(op);
            paren(prec > op_prec, show(*a, lp) + " "@ + op_symbol(op) + " "@ + show(*b, rp))
        },
        STerm::App(g, a) => paren(prec > 4, show(*g, 4) + " "@ + show(*a, 5)),
    }
}

/// `x y. body` for a run of abstractions.
pub open spec fn show_params(t: STerm) -> Seq<char>
    decreases t, 0nat,
{
    match t {
        STerm::Abs(x, b) => match *b {
            STerm::Abs(_, _) => x + " "@ + show_params(*b),
            _ => x + ". "@ + show(*b, 0),
        },
        _ => Seq::<char>::empty(),
    }
}

fn open_paren(out: &mut String, needs: bool)
    ensures
        final(out)@ == old(out)@ + (if needs {
            "("@
        } else {
            Seq::<char>::empty()
        }),
{
    if needs {
        out.append("(");
    } else {
        assert(out@ + Seq::<char>::empty() =~= out@);
    }
}

fn close_paren(out: &mut String, needs: bool)
    ensures
        final(out)@ == old(out)@ + (if needs {
            ")"@
        } else {
            Seq::<char>::empty()
        }),
{
    if needs {
        out.append(")");
    } else {
        assert(out@ + Seq::<char>::empty() =~= out@);
    }
}

impl Type {
    pub fn var(s: &str) -> (t: Type)
        ensures
            t@ == SType::Var(s@),
    {
        Type::Var(String::from_str(s))
    }

    pub fn arrow(from: Type, to: Type) -> (t: Type)
        ensures
            t@ == SType::Arrow(Box::new(from@), Box::new(to@)),
    {
        Type::Arrow(Box::new(from), Box::new(to))
    }

    /// A copy of the type.
    pub fn duplicate(&self) -> (r: Type)
        ensures
            r@ == self@,
        decreases self,
    {
        match self {
            Type::Var(x) => Type::Var(x.clone()),
            Type::Int => Type::Int,
            Type::Bool => Type::Bool,
            Type::Arrow(a, b) => Type::Arrow(Box::new(a.duplicate()), Box::new(b.duplicate())),
        }
    }

    /// The printed form, e.g. `(a -> a) -> a -> a`.
    pub fn to_string(&self) -> (s: String)
        ensures
            s@ == show_type(self@, 0),
    {
        let mut out = String::new();
        self.write_prec(&mut out, 0);
        out
    }

    pub fn write_prec(&self, out: &mut String, prec: u8)
        ensures
            final(out)@ == old(out)@ + show_type(self@, prec as nat),
        decreases self,
    {
        let ghost start = out@;
        match self {
            Type::Var(x) => out.append(x.as_str()),
            Type::Int => out.append("Int"),
            Type::Bool => out.append("Bool"),
            Type::Arrow(a, b) => {
                open_paren(out, prec > 0);
                a.write_prec(out, 1);
                out.append(" -> ");
                b.write_prec(out, 0);
                close_paren(out, prec > 0);
                assert(out@ =~= start + show_type(self@, prec as nat));
            },
        }
    }
}

impl Scheme {
    /// A copy of the scheme.
    pub fn duplicate(&self) -> (r: Scheme)
        ensures
            r@ == self@,
    {
        let mut vars: Vec<String> = Vec::new();
        let mut i: usize = 0;
        while i < self.vars.len()
            invariant
                i <= self.vars.len(),
                vars@.len() == i,
                forall|j: int| 0 <= j < i ==> (#[trigger] vars@[j])@ == self.vars@[j]@,
            decreases self.vars.len() - i,
        {
            vars.push(self.vars[i].clone());
            i = i + 1;
        }
        assert(names_of(vars@) =~= names_of(self.vars@));
        Scheme { vars, ty: self.ty.duplicate() }
    }

    /// The printed form, e.g. `∀a b. a -> b -> a`.
    pub fn to_string(&self) -> (s: String)
        ensures
            s@ == show_scheme(self@),
    {
        if self.vars.len() == 0 {
            return self.ty.to_string();
        }
        let ghost vs = names_of(self.vars@);
        let mut out = String::from_str("∀");
        out.append(self.vars[0].as_str());
        proof {
            assert(vs.take(1) =~= seq![vs[0]]);
            assert(out@ == "∀"@ + join_names(vs.take(1)));
        }
        let mut i: usize = 1;
        while i < self.vars.len()
            invariant
                1 <= i <= self.vars.len(),
                vs == names_of(self.vars@),
                out@ == "∀"@ + join_names(vs.take(i as int)),
            decreases self.vars.len() - i,
        {
            out.append(" ");
            out.append(self.vars[i].as_str());
            proof {
                assert(vs.take(i + 1) =~= vs.take(i as int).push(vs[i as int]));
                lemma_join_push(vs.take(i as int), vs[i as int]);
                assert(out@ =~= "∀"@ + join_names(vs.take(i + 1)));
            }
            i = i + 1;
        }
        assert(vs.take(i as int) =~= vs);
        out.append(". ");
        self.ty.write_prec(&mut out, 0);
        out
    }
}

/// Appending a name to a nonempty list adds a space and the name.
pub proof fn lemma_join_push(vs: Seq<Seq<char>>, x: Seq<char>)
    requires
        vs.len() >= 1,
    ensures
        join_names(vs.push(x)) == join_names(vs) + " "@ + x,
    decreases vs.len(),
{
    if vs.len() == 1 {
        assert(vs.push(x).drop_first() =~= seq![x]);
        assert(join_names(seq![x]) == x);
        assert(vs.push(x)[0] == vs[0]);
    } else {
        assert(vs.push(x).drop_first() =~= vs.drop_first().push(x));
        lemma_join_push(vs.drop_first(), x);
        assert(join_names(vs.push(x)) =~= join_names(vs) + " "@ + x);
    }
}

impl Term {
    pub fn var(s: &str) -> (t: Term)
        ensures
            t@ == STerm::Var(s@),
    {
        Term::Var(String::from_str(s))
    }

    pub fn abs(x: &str, body: Term) -> (t: Term)
        ensures
            t@ == STerm::Abs(x@, Box::new(body@)),
    {
        Term::Abs(String::from_str(x), Box::new(body))
    }

    pub fn app(f: Term, a: Term) -> (t: Term)
        ensures
            t@ == STerm::App(Box::new(f@), Box::new(a@)),
    {
        Term::App(Box::new(f), Box::new(a))
    }

    pub fn if_then_else(c: Term, t: Term, e: Term) -> (r: Term)
        ensures
            r@ == STerm::If(Box::new(c@), Box::new(t@), Box::new(e@)),
    {
        Term::If(Box::new(c), Box::new(t), Box::new(e))
    }

    pub fn binop(op: BinOp, a: Term, b: Term) -> (t: Term)
        ensures
            t@ == STerm::BinOp(op, Box::new(a@), Box::new(b@)),
    {
        Term::BinOp(op, Box::new(a), Box::new(b))
    }

    pub fn let_(x: &str, e1: Term, e2: Term) -> (t: Term)
        ensures
            t@ == STerm::Let(x@, Box::new(e1@), Box::new(e2@)),
    {
        Term::Let(String::from_str(x), Box::new(e1), Box::new(e2))
    }

    pub fn let_rec(x: &str, e1: Term, e2: Term) -> (t: Term)
        ensures
            t@ == STerm::LetRec(x@, Box::new(e1@), Box::new(e2@)),
    {
        Term::LetRec(String::from_str(x), Box::new(e1), Box::new(e2))
    }

    /// A copy of the term.
    pub fn duplicate(&self) -> (r: Term)
        ensures
            r@ == self@,
        decreases self,
    {
        match self {
            Term::Var(x) => Term::Var(x.clone()),
            Term::Abs(x, b) => Term::Abs(x.clone(), Box::new(b.duplicate())),
            Term::App(f, a) => Term::App(Box::new(f.duplicate()), Box::new(a.duplicate())),
            Term::IntLit(n) => Term::IntLit(*n),
            Term::BoolLit(b) => Term::BoolLit(*b),
            Term::If(c, t1, t2) => Term::If(
                Box::new(c.duplicate()),
                Box::new(t1.duplicate()),
                Box::new(t2.duplicate()),
            ),
            Term::BinOp(op, a, b) => Term::BinOp(
                *op,
                Box::new(a.duplicate()),
                Box::new(b.duplicate()),
            ),
            Term::Let(x, e1, e2) => Term::Let(
                x.clone(),
                Box::new(e1.duplicate()),
                Box::new(e2.duplicate()),
            ),
            Term::LetRec(x, e1, e2) => Term::LetRec(
                x.clone(),
                Box::new(e1.duplicate()),
                Box::new(e2.duplicate()),
            ),
            Term::Fix(e) => Term::Fix(Box::new(e.duplicate())),
        }
    }

    /// The printed form, e.g. `λx y. x`.
    pub fn to_string(&self) -> (s: String)
        ensures
            s@ == show(self@, 0),
    {
        let mut out = String::new();
        self.write_prec(&mut out, 0);
        out
    }

    #[verifier::spinoff_prover]
    #[verifier::rlimit(40)]
    fn write_prec(&self, out: &mut String, prec: u8)
        ensures
            final(out)@ == old(out)@ + show(self@, prec as nat),
        decreases self, 2nat,
    {
        let ghost start = out@;
        match self {
            Term::Var(x) => out.append(x.as_str()),
            Term::BoolLit(b) => {
                if *b {
                    out.append("true")
                } else {
                    out.append("false")
                }
            },
            Term::IntLit(n) => {
                let d = decimal_i64(*n);
                out.append(d.as_str());
            },
            Term::Abs(_, _) => {
                open_paren(out, prec > 0);
                out.append("λ");
                self.write_params(out);
                close_paren(out, prec > 0);
                assert(out@ =~= start + show(self@, prec as nat));
            },
            Term::Fix(e) => {
                open_paren(out, prec > 4);
                out.append("fix ");
                e.write_prec(out, 5);
                close_paren(out, prec > 4);
                assert(out@ =~= start + show(self@, prec as nat));
            },
            Term::If(_, _, _) | Term::Let(_, _, _) | Term::LetRec(_, _, _) => self.write_block(
                out,
                prec,
            ),
            _ => self.write_operator(out, prec),
        }
    }

    #[verifier::spinoff_prover]
    #[verifier::rlimit(40)]
    fn write_block(&self, out: &mut String, prec: u8)
        ensures
            match self {
                Term::If(_, _, _) | Term::Let(_, _, _) | Term::LetRec(_, _, _) => final(out)@
                    == old(out)@ + show(self@, prec as nat),
                _ => true,
            },
        decreases self, 1nat,
    {
        let ghost start = out@;
        match self {
            Term::If(c, t1, t2) => {
                open_paren(out, prec > 0);
                out.append("if ");
                c.write_prec(out, 0);
                out.append(" then ");
                t1.write_prec(out, 0);
                out.append(" else ");
                t2.write_prec(out, 0);
                close_paren(out, prec > 0);
                assert(out@ =~= start + show(self@, prec as nat));
            },
            Term::Let(x, e1, e2) => {
                open_paren(out, prec > 0);
                out.append("let ");
                out.append(x.as_str());
                out.append(" = ");
                e1.write_prec(out, 0);
                out.append(" in ");
                e2.write_prec(out, 0);
                close_paren(out, prec > 0);
                assert(out@ =~= start + show(self@, prec as nat));
            },
            Term::LetRec(x, e1, e2) => {
                open_paren(out, prec > 0);
                out.append("let rec ");
                out.append(x.as_str());
                out.append(" = ");
                e1.write_prec(out, 0);
                out.append(" in ");
                e2.write_prec(out, 0);
                close_paren(out, prec > 0);
                assert(out@ =~= start + show(self@, prec as nat));
            },
            _ => {},
        }
    }

    #[verifier::spinoff_prover]
    #[verifier::rlimit(40)]
    fn write_operator(&self, out: &mut String, prec: u8)
        ensures
            match self {
                Term::BinOp(_, _, _) | Term::App(_, _) => final(out)@ == old(out)@ + show(
                    self@,
                    prec as nat,
                ),
                _ => true,
            },
        decreases self, 1nat,
    {
        let ghost start = out@;
        match self {
            Term::BinOp(op, a, b) => {
                let (op_prec, lp, rp): (u8, u8, u8) = match op {
                    BinOp::Eq | BinOp::Lt => (1, 2, 2),
                    BinOp::Add | BinOp::Sub => (2, 2, 3),
                    BinOp::Mul => (3, 3, 4),
                };
                open_paren(out, prec > op_prec);
                a.write_prec(out, lp);
                out.append(" ");
                out.append(op.symbol());
                out.append(" ");
                b.write_prec(out, rp);
                close_paren(out, prec > op_prec);
                assert(out@ =~= start + show(self@, prec as nat));
            },
            Term::App(g, a) => {
                open_paren(out, prec > 4);
                g.write_prec(out, 4);
                out.append(" ");
                a.write_prec(out, 5);
                close_paren(out, prec > 4);
                assert(out@ =~= start + show(self@, prec as nat));
            },
            _ => {},
        }
    }

    fn write_params(&self, out: &mut String)
        ensures
            final(out)@ == old(out)@ + show_params(self@),
        decreases self, 0nat,
    {
        match self {
            Term::Abs(x, b) => {
                out.append(x.as_str());
                match &**b {
                    Term::Abs(_, _) => {
                        out.append(" ");
                        b.write_params(out);
                    },
                    _ => {
                        out.append(". ");
                        b.write_prec(out, 0);
                    },
                }
            },
            _ => {
                assert(out@ + Seq::<char>::empty() =~= out@);
            },
        }
    }
}

} // verus!
