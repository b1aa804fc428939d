use vstd::prelude::*;

use crate::names::{dec_int, decimal_i64, Dup, NameMap};
use crate::stlc::ast::{bool_text, op_symbol, show_type, BinOp, STerm, Term, Type};

verus! {

impl View for Type {
    type V = Type;

    open spec fn view(&self) -> Type {
        *self
    }
}

impl Dup for Type {
    fn dup(&self) -> (r: Type) {
        self.duplicate()
    }
}

/// A typing environment: variables bound to their types.
pub type Env = NameMap<Type>;

#[derive(Debug)]
pub enum TypeError {
    UnboundVariable(String),
    TypeMismatch { expected: Type, found: Type, ctx: String },
    NotAFunction { found: Type },
}

pub enum SError {
    UnboundVariable(Seq<char>),
    TypeMismatch { expected: Type, found: Type, ctx: Seq<char> },
    NotAFunction { found: Type },
}

impl View for TypeError {
    type V = SError;

    open spec fn view(&self) -> SError {
        match self {
            TypeError::UnboundVariable(x) => SError::UnboundVariable(x@),
            TypeError::TypeMismatch { expected, found, ctx } => SError::TypeMismatch {
                expected: *expected,
                found: *found,
                ctx: ctx@,
            },
            TypeError::NotAFunction { found } => SError::NotAFunction { found: *found },
        }
    }
}

/// The message of a type error.
pub open spec fn error_text(e: SError) -> Seq<char> {
    match e {
        SError::UnboundVariable(x) => "unbound variable: "@ + x,
        SError::TypeMismatch { expected, found, ctx } => "type mismatch in "@ + ctx
            + ": expected "@ + show_type(expected, 0) + ", found "@ + show_type(found, 0),
        SError::NotAFunction { found } => "expected a function, found value of type "@
            + show_type(found, 0),
    }
}

impl TypeError {
    /// The message, e.g. `unbound variable: x`.
    pub fn to_string(&self) -> (s: String)
        ensures
            s@ == error_text(self@),
    {
        match self {
            TypeError::UnboundVariable(x) => {
                let mut s = String::from_str("unbound variable: ");
                s.append(x.as_str());
                s
            },
            TypeError::TypeMismatch { expected, found, ctx } => {
                let mut s = String::from_str("type mismatch in ");
                s.append(ctx.as_str());
                s.append(": expected ");
                expected.write_prec(&mut s, 0);
                s.append(", found ");
                found.write_prec(&mut s, 0);
                s
            },
            TypeError::NotAFunction { found } => {
                let mut s = String::from_str("expected a function, found value of type ");
                found.write_prec(&mut s, 0);
                s
            },
        }
    }
}

/// How an error message names the term that had the wrong type.
pub open spec fn describe(t: STerm) -> Seq<char> {
    match t {
        STerm::Var(x) => "variable `"@ + x + "`"@,
        STerm::IntLit(n) => "integer literal `"@ + dec_int(n as int) + "`"@,
        STerm::BoolLit(b) => "boolean literal `"@ + bool_text(b) + "`"@,
        STerm::Abs(x, _, _) => "abstraction over `"@ + x + "`"@,
        STerm::App(_, _) => "application"@,
        STerm::If(_, _, _) => "if-expression"@,
        STerm::Let(x, _, _) => "let-binding of `"@ + x + "`"@,
        STerm::BinOp(op, _, _) => "`"@ + op_symbol(op) + "` operator"@,
    }
}

fn describe_exec(t: &Term) -> (s: String)
    ensures
        s@ == describe(t@),
{
    match t {
        Term::Var(x) => {
            let mut s = String::from_str("variable `");
            s.append(x.as_str());
            s.append("`");
            s
        },
        Term::IntLit(n) => {
            let mut s = String::from_str("integer literal `");
            let d = decimal_i64(*n);
            s.append(d.as_str());
            s.append("`");
            s
        },
        Term::BoolLit(b) => {
            let mut s = String::from_str("boolean literal `");
            s.append(if *b {
                "true"
            } else {
                "false"
            });
            s.append("`");
            s
        },
        Term::Abs(x, _, _) => {
            let mut s = String::from_str("abstraction over `");
            s.append(x.as_str());
            s.append("`");
            s
        },
        Term::App(_, _) => String::from_str("application"),
        Term::If(_, _, _) => String::from_str("if-expression"),
        Term::Let(x, _, _) => {
            let mut s = String::from_str("let-binding of `");
            s.append(x.as_str());
            s.append("`");
            s
        },
        Term::BinOp(op, _, _) => {
            let mut s = String::from_str("`");
            s.append(op.symbol());
            s.append("` operator");
            s
        },
    }
}

/// The result type of a binary operator.
pub open spec fn op_result(op: BinOp) -> Type {
    match op {
        BinOp::Add | BinOp::Sub | BinOp::Mul => Type::Int,
        BinOp::Eq | BinOp::Lt => Type::Bool,
    }
}

/// The type of `t` in `env`, or the first error met, checking subterms left
/// to right.
pub open spec fn spec_infer(t: STerm, env: Map<Seq<char>, Type>) -> Result<Type, SError>
    decreases t, 1nat,
{
    match t {
        STerm::Var(x) => if env.contains_key(x) {
            Ok(env[x])
        } else {
            Err(SError::UnboundVariable(x))
        },
        STerm::IntLit(_) => Ok(Type::Int),
        STerm::BoolLit(_) => Ok(Type::Bool),
        STerm::Abs(x, ty, body) => match spec_infer(*body, env.insert(x, ty)) {
            Ok(bt) => Ok(Type::Arrow(Box::new(ty), Box::new(bt))),
            Err(e) => Err(e),
        },
        STerm::App(f, a) => match spec_infer(*f, env) {
            Ok(Type::Arrow(param, ret)) => match spec_check(*a, *param, env) {
                Ok(_) => Ok(*ret),
                Err(e) => Err(e),
            },
            Ok(other) => Err(SError::NotAFunction { found: other }),
            Err(e) => Err(e),
        },
        STerm::If(c, t1, t2) => match spec_check(*c, Type::Bool, env) {
            Ok(_) => match spec_infer(*t1, env) {
                Ok(ty) => match spec_check(*t2, ty, env) {
                    Ok(_) => Ok(ty),
                    Err(e) => Err(e),
                },
                Err(e) => Err(e),
            },
            Err(e) => Err(e),
        },
        STerm::BinOp(op, a, b) => match spec_check(*a, Type::Int, env) {
            Ok(_) => match spec_check(*b, Type::Int, env) {
                Ok(_) => Ok(op_result(op)),
                Err(e) => Err(e),
            },
            Err(e) => Err(e),
        },
        STerm::Let(x, e1, e2) => match spec_infer(*e1, env) {
            Ok(t1) => spec_infer(*e2, env.insert(x, t1)),
            Err(e) => Err(e),
        },
    }
}

/// Checking `t` against `expected`: the inferred type must be `expected`.
pub open spec fn spec_check(t: STerm, expected: Type, env: Map<Seq<char>, Type>) -> Result<(), SError>
    decreases t, 2nat,
{
    match spec_infer(t, env) {
        Ok(found) => if found == expected {
            Ok(())
        } else {
            Err(SError::TypeMismatch { expected, found, ctx: describe(t) })
        },
        Err(e) => Err(e),
    }
}

/// Operators take integers: `+`, `-` and `*` give an integer, `==` and
/// `<` a boolean; an operator is well typed exactly when both operands are
/// integers.
pub proof fn lemma_infer_operator(op: BinOp, a: STerm, b: STerm, env: Map<Seq<char>, Type>)
    ensures
        spec_infer(STerm::BinOp(op, Box::new(a), Box::new(b)), env) is Ok <==> spec_check(a, Type::Int, env)
            is Ok && spec_check(b, Type::Int, env) is Ok,
        spec_infer(STerm::BinOp(op, Box::new(a), Box::new(b)), env) is Ok ==> spec_infer(
            STerm::BinOp(op, Box::new(a), Box::new(b)),
            env,
        ) == Ok::<Type, SError>(
            if op is Eq || op is Lt {
                Type::Bool
            } else {
                Type::Int
            },
        ),
{
}

/// The typing rules of the simply typed calculus: literals have their base
/// types, a variable the type the environment gives it, an abstraction the
/// arrow from its parameter type to the type of its body (with the
/// parameter in scope), a conditional the common type of its branches when
/// its condition is a boolean, and a `let` the type of its body with the
/// bound variable given the type of its definition.
pub proof fn lemma_typing_rules(t: STerm, env: Map<Seq<char>, Type>)
    ensures
        t is IntLit ==> spec_infer(t, env) == Ok::<Type, SError>(Type::Int),
        t is BoolLit ==> spec_infer(t, env) == Ok::<Type, SError>(Type::Bool),
        t matches STerm::Var(x) ==> (spec_infer(t, env) is Ok <==> env.contains_key(x)),
        t matches STerm::Var(x) ==> (env.contains_key(x) ==> spec_infer(t, env) == Ok::<Type, SError>(
            env[x],
        )),
        t matches STerm::Abs(x, ty, body) ==> (spec_infer(t, env) is Ok <==> spec_infer(
            *body,
            env.insert(x, ty),
        ) is Ok),
        t matches STerm::Abs(x, ty, body) ==> (spec_infer(*body, env.insert(x, ty)) is Ok ==> spec_infer(
            t,
            env,
        ) == Ok::<Type, SError>(
            Type::Arrow(Box::new(ty), Box::new(spec_infer(*body, env.insert(x, ty))->Ok_0)),
        )),
        t matches STerm::If(c, t1, t2) ==> (spec_infer(t, env) is Ok <==> spec_infer(*c, env)
            == Ok::<Type, SError>(Type::Bool) && spec_infer(*t1, env) is Ok && spec_infer(*t2, env)
            == spec_infer(*t1, env)),
        t matches STerm::If(c, t1, t2) ==> (spec_infer(t, env) is Ok ==> spec_infer(t, env) == spec_infer(
            *t1,
            env,
        )),
        t matches STerm::Let(x, e1, e2) ==> (spec_infer(*e1, env) is Ok ==> spec_infer(t, env) == spec_infer(
            *e2,
            env.insert(x, spec_infer(*e1, env)->Ok_0),
        )),
        t matches STerm::Let(x, e1, e2) ==> (spec_infer(*e1, env) is Err ==> spec_infer(t, env) is Err),
{
    if let STerm::If(c, t1, t2) = t {
        assert(spec_check(*c, Type::Bool, env) is Ok <==> spec_infer(*c, env) == Ok::<Type, SError>(
            Type::Bool,
        ));
        if spec_infer(*t1, env) is Ok {
            let ty = spec_infer(*t1, env)->Ok_0;
            assert(spec_check(*t2, ty, env) is Ok <==> spec_infer(*t2, env) == Ok::<Type, SError>(ty));
        }
    }
}

/// An application has type `r` exactly when the function has a type
/// `p -> r` and the argument has type `p`; a function of another type is
/// reported as such.
pub proof fn lemma_infer_app(f: STerm, a: STerm, env: Map<Seq<char>, Type>, r: Type)
    ensures
        spec_infer(STerm::App(Box::new(f), Box::new(a)), env) == Ok::<Type, SError>(r) <==> exists|
            p: Type,
        |
            spec_infer(f, env) == Ok::<Type, SError>(Type::Arrow(Box::new(p), Box::new(r)))
                && #[trigger] spec_infer(a, env) == Ok::<Type, SError>(p),
        spec_infer(f, env) is Ok && !(spec_infer(f, env)->Ok_0 is Arrow) ==> spec_infer(
            STerm::App(Box::new(f), Box::new(a)),
            env,
        ) == Err::<Type, SError>(SError::NotAFunction { found: spec_infer(f, env)->Ok_0 }),
{
    let t = STerm::App(Box::new(f), Box::new(a));
    if spec_infer(t, env) == Ok::<Type, SError>(r) {
        let p = *spec_infer(f, env)->Ok_0->Arrow_0;
        assert(spec_check(a, p, env) == Ok::<(), SError>(()));
        assert(spec_infer(a, env) == Ok::<Type, SError>(p));
    }
    assert forall|p: Type|
        spec_infer(f, env) == Ok::<Type, SError>(Type::Arrow(Box::new(p), Box::new(r)))
            && #[trigger] spec_infer(a, env) == Ok::<Type, SError>(p) implies spec_infer(t, env) == Ok::<
        Type,
        SError,
    >(r) by {
        assert(spec_check(a, p, env) == Ok::<(), SError>(()));
    }
}

/// Infers the type of `t` in `env`.
pub fn infer(t: &Term, env: &Env) -> (r: Result<Type, TypeError>)
    ensures
        match r {
            Ok(ty) => spec_infer(t@, env@) == Ok::<Type, SError>(ty),
            Err(e) => spec_infer(t@, env@) == Err::<Type, SError>(e@),
        },
    decreases t, 1nat,
{
    match t {
        Term::Var(x) => match env.get(x) {
            Some(ty) => Ok(ty.duplicate()),
            None => Err(TypeError::UnboundVariable(x.clone())),
        },
        Term::IntLit(_) => Ok(Type::Int),
        Term::BoolLit(_) => Ok(Type::Bool),
        Term::Abs(x, ty, body) => {
            let mut env2 = env.dup_map();
            env2.insert(x.clone(), ty.duplicate());
            let body_ty = infer(body, &env2)?;
            Ok(Type::arrow(ty.duplicate(), body_ty))
        },
        Term::App(f, a) => {
            let fty = infer(f, env)?;
            match fty {
                Type::Arrow(param, ret) => {
                    check(a, &param, env)?;
                    Ok(*ret)
                },
                other => Err(TypeError::NotAFunction { found: other }),
            }
        },
        Term::If(c, t1, t2) => {
            check(c, &Type::Bool, env)?;
            let ty = infer(t1, env)?;
            check(t2, &ty, env)?;
            Ok(ty)
        },
        Term::BinOp(op, a, b) => {
            check(a, &Type::Int, env)?;
            check(b, &Type::Int, env)?;
            Ok(
                match op {
                    BinOp::Add | BinOp::Sub | BinOp::Mul => Type::Int,
                    BinOp::Eq | BinOp::Lt => Type::Bool,
                },
            )
        },
        Term::Let(x, e1, e2) => {
            let t1 = infer(e1, env)?;
            let mut env2 = env.dup_map();
            env2.insert(x.clone(), t1);
            infer(e2, &env2)
        },
    }
}

/// Checks that `t` has type `expected` in `env`: `Ok` exactly when the
/// inferred type is `expected`.
pub fn check(t: &Term, expected: &Type, env: &Env) -> (r: Result<(), TypeError>)
    ensures
        match r {
            Ok(_) => spec_check(t@, *expected, env@) == Ok::<(), SError>(()),
            Err(e) => spec_check(t@, *expected, env@) == Err::<(), SError>(e@),
        },
        r is Ok <==> spec_infer(t@, env@) == Ok::<Type, SError>(*expected),
    decreases t, 2nat,
{
    let found = infer(t, env)?;
    if found.same(expected) {
        Ok(())
    } else {
        Err(TypeError::TypeMismatch { expected: expected.duplicate(), found, ctx: describe_exec(t) })
    }
}

/// The type of a closed term.
pub fn type_of(t: &Term) -> (r: Result<Type, TypeError>)
    ensures
        match r {
            Ok(ty) => spec_infer(t@, Map::empty()) == Ok::<Type, SError>(ty),
            Err(e) => spec_infer(t@, Map::empty()) == Err::<Type, SError>(e@),
        },
{
    infer(t, &Env::new())
}

} // verus!
