use lib::stlc::ast::{BinOp, Term, Type};
use lib::stlc::typeck::{check, infer, type_of, Env};

fn ok(t: Term, expected: Type) {
    let ty = type_of(&t).expect("typecheck");
    assert_eq!(ty, expected, "for input {}", t.to_string());
}

fn err(t: Term) {
    assert!(type_of(&t).is_err(), "expected type error for {}", t.to_string());
}

fn int_to_int() -> Type {
    Type::arrow(Type::Int, Type::Int)
}

/// `\x:Int. f (x x)`
fn self_apply_under_f() -> Term {
    Term::abs(
        "x",
        Type::Int,
        Term::app(Term::var("f"), Term::app(Term::var("x"), Term::var("x"))),
    )
}

#[test]
fn int_literal_has_type_int() {
    ok(Term::IntLit(42), Type::Int);
}

#[test]
fn bool_literal_has_type_bool() {
    ok(Term::BoolLit(true), Type::Bool);
}

#[test]
fn identity_on_int() {
    ok(Term::abs("x", Type::Int, Term::var("x")), Type::arrow(Type::Int, Type::Int));
}

#[test]
fn application_int_to_int() {
    // (\x:Int. x + 1) 5
    ok(
        Term::app(
            Term::abs("x", Type::Int, Term::binop(BinOp::Add, Term::var("x"), Term::IntLit(1))),
            Term::IntLit(5),
        ),
        Type::Int,
    );
}

#[test]
fn if_branches_must_agree() {
    err(Term::if_then_else(Term::BoolLit(true), Term::IntLit(1), Term::BoolLit(false)));
}

#[test]
fn if_condition_must_be_bool() {
    err(Term::if_then_else(Term::IntLit(1), Term::IntLit(2), Term::IntLit(3)));
}

#[test]
fn cannot_apply_int() {
    err(Term::app(Term::IntLit(5), Term::IntLit(3)));
}

#[test]
fn cannot_add_bool() {
    err(Term::binop(BinOp::Add, Term::BoolLit(true), Term::IntLit(1)));
}

#[test]
fn let_polymorphism_is_not_available_in_stlc() {
    // let id = \x:Int. x in id 5  /  ... in id true
    let id = || Term::abs("x", Type::Int, Term::var("x"));
    ok(Term::let_("id", id(), Term::app(Term::var("id"), Term::IntLit(5))), Type::Int);
    err(Term::let_("id", id(), Term::app(Term::var("id"), Term::BoolLit(true))));
}

#[test]
fn y_combinator_is_not_typeable() {
    // \f:Int -> Int. (\x:Int. f (x x)) (\x:Int. f (x x))
    err(Term::abs("f", int_to_int(), Term::app(self_apply_under_f(), self_apply_under_f())));
}

#[test]
fn higher_order_function() {
    // \f:Int -> Int. \x:Int. f (f x)
    ok(
        Term::abs(
            "f",
            int_to_int(),
            Term::abs(
                "x",
                Type::Int,
                Term::app(Term::var("f"), Term::app(Term::var("f"), Term::var("x"))),
            ),
        ),
        Type::arrow(Type::arrow(Type::Int, Type::Int), Type::arrow(Type::Int, Type::Int)),
    );
}

#[test]
fn typeck_unbound_variable_is_error() {
    err(Term::var("x"));
}

// ----- further cases -----

#[test]
fn mismatch_message_names_the_term() {
    let t = Term::if_then_else(Term::IntLit(1), Term::IntLit(2), Term::IntLit(3));
    let e = type_of(&t).unwrap_err();
    assert_eq!(
        e.to_string(),
        "type mismatch in integer literal `1`: expected Bool, found Int"
    );
}

#[test]
fn not_a_function_message() {
    let e = type_of(&Term::app(Term::IntLit(5), Term::IntLit(3))).unwrap_err();
    assert_eq!(e.to_string(), "expected a function, found value of type Int");
}

#[test]
fn unbound_variable_message() {
    let e = type_of(&Term::var("x")).unwrap_err();
    assert_eq!(e.to_string(), "unbound variable: x");
}

#[test]
fn check_agrees_with_infer() {
    let t = Term::abs("x", Type::Int, Term::var("x"));
    let env = Env::new();
    assert!(check(&t, &int_to_int(), &env).is_ok());
    assert!(check(&t, &Type::Int, &env).is_err());
    assert_eq!(infer(&t, &env).unwrap(), int_to_int());
}

#[test]
fn comparison_has_type_bool() {
    ok(Term::binop(BinOp::Lt, Term::IntLit(1), Term::IntLit(2)), Type::Bool);
}

#[test]
fn printing_of_types_and_terms() {
    let ty = Type::arrow(Type::arrow(Type::Int, Type::Int), Type::Bool);
    assert_eq!(ty.to_string(), "(Int -> Int) -> Bool");
    let t = Term::abs("x", Type::Int, Term::abs("y", Type::Bool, Term::var("x")));
    assert_eq!(t.to_string(), "λx:Int y:Bool. x");
    let e = Term::binop(
        BinOp::Mul,
        Term::binop(BinOp::Add, Term::IntLit(1), Term::IntLit(2)),
        Term::IntLit(-3),
    );
    assert_eq!(e.to_string(), "(1 + 2) * -3");
}
