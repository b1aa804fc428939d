use lib::fomega::ast::{Kind, Term, Type};
use lib::fomega::parser::{parse, parse_type_str};
use lib::fomega::typeck::{kind_of_type, normalize, type_eq, type_of, type_subst, TypeError};

fn typeof_str(input: &str) -> Result<Type, TypeError> {
    let t = parse(input).expect("parse term");
    type_of(&t)
}

fn kind_of_str(input: &str) -> Result<Kind, TypeError> {
    let t = parse_type_str(input).expect("parse type");
    kind_of_type(&t)
}

#[test]
fn parse_identity_type_operator() {
    let t = parse_type_str("\\T::*. T").unwrap();
    assert_eq!(t, Type::abs("T", Kind::Star, Type::var("T")));
}

#[test]
fn parse_higher_kinded_forall() {
    let t = parse_type_str("forall F::* -> *. F Int").unwrap();
    assert_eq!(
        t,
        Type::forall_(
            "F",
            Kind::arrow(Kind::Star, Kind::Star),
            Type::app(Type::var("F"), Type::Int)
        )
    );
}

#[test]
fn parse_kinded_type_abstraction_in_term() {
    let t = parse("/\\F::* -> *. \\x:F Int. x").unwrap();
    let expected = Term::ty_abs(
        "F",
        Kind::arrow(Kind::Star, Kind::Star),
        Term::abs("x", Type::app(Type::var("F"), Type::Int), Term::var("x")),
    );
    assert_eq!(t, expected);
}

#[test]
fn identity_type_operator_has_star_to_star() {
    assert_eq!(kind_of_str("\\T::*. T").unwrap(), Kind::arrow(Kind::Star, Kind::Star));
}

#[test]
fn pair_constructor_has_kind_star_star_star() {
    let k = kind_of_str("\\A::* B::*. forall C. (A -> B -> C) -> C").unwrap();
    assert_eq!(k, Kind::arrow(Kind::Star, Kind::arrow(Kind::Star, Kind::Star)));
}

#[test]
fn applying_id_op_to_int_normalizes_to_int() {
    let t = parse_type_str("(\\T::*. T) Int").unwrap();
    assert!(type_eq(&t, &Type::Int));
}

#[test]
fn higher_kinded_term_typechecks() {
    let ty = typeof_str("/\\F::* -> *. \\x:F Int. x").unwrap();
    let expected = Type::forall_(
        "F",
        Kind::arrow(Kind::Star, Kind::Star),
        Type::arrow(
            Type::app(Type::var("F"), Type::Int),
            Type::app(Type::var("F"), Type::Int),
        ),
    );
    assert!(type_eq(&ty, &expected));
}

#[test]
fn instantiating_higher_kinded_function_with_id_op() {
    let ty = typeof_str("(/\\F::* -> *. \\x:F Int. x) [\\T::*. T] 5").unwrap();
    assert!(type_eq(&ty, &Type::Int));
}

#[test]
fn kind_mismatch_on_type_application() {
    let r = typeof_str("(/\\F::* -> *. \\x:F Int. x) [Int]");
    assert!(r.is_err(), "expected kind error, got {:?}", r);
}

#[test]
fn cannot_use_type_operator_where_proper_type_expected() {
    assert!(typeof_str("\\x: (\\T::*. T). x").is_err());
}

// ----- further cases -----

#[test]
fn readme_example_prints() {
    let t = parse("/\\F::* -> *. \\x:F Int. x").unwrap();
    assert_eq!(t.to_string(), "ΛF::* -> *. λx:F Int. x");
    let ty = type_of(&t).unwrap();
    assert_eq!(ty.to_string(), "∀F::* -> *. F Int -> F Int");
}

#[test]
fn kind_errors_have_messages() {
    let e = typeof_str("(/\\F::* -> *. \\x:F Int. x) [Int]").unwrap_err();
    assert_eq!(e.to_string(), "kind mismatch: expected * -> *, found *");
    let e = kind_of_str("Int Int").unwrap_err();
    assert_eq!(e.to_string(), "expected a type operator (kind κ -> κ'), found kind *");
    let e = kind_of_str("T").unwrap_err();
    assert_eq!(e.to_string(), "unbound type variable: T");
}

#[test]
fn normalization_reduces_nested_redexes() {
    let t = parse_type_str("(\\F::* -> *. F Bool) (\\T::*. T -> T)").unwrap();
    assert_eq!(normalize(&t), Type::arrow(Type::Bool, Type::Bool));
}

#[test]
fn fomega_type_substitution_avoids_capture() {
    let t = Type::abs("U", Kind::Star, Type::arrow(Type::var("T"), Type::var("U")));
    let r = type_subst(&t, "T", &Type::var("U"));
    assert_eq!(r, Type::abs("U1", Kind::Star, Type::arrow(Type::var("U"), Type::var("U1"))));
}

#[test]
fn kinds_print_with_right_association() {
    let k = Kind::arrow(Kind::arrow(Kind::Star, Kind::Star), Kind::Star);
    assert_eq!(k.to_string(), "(* -> *) -> *");
}

#[test]
fn lexer_and_parser_errors() {
    assert_eq!(parse("/x").unwrap_err(), "expected '/\\' for type abstraction");
    assert_eq!(parse_type_str("forall . Int").unwrap_err(), "expected at least one binder");
    assert_eq!(parse_type_str("Int Int)").unwrap_err(), "unexpected token after type: Some(RParen)");
    assert_eq!(parse_type_str("\\T::Int. T").unwrap_err(), "expected kind, got Some(IntKw)");
    assert_eq!(parse("\\x Int. x").unwrap_err(), "expected Colon after parameter name, got Some(IntKw)");
}

#[test]
fn type_mismatch_is_reported_with_both_types() {
    let e = typeof_str("(\\x:Int. x) true").unwrap_err();
    assert_eq!(e.to_string(), "type mismatch: expected Int, found Bool");
}

#[test]
fn fomega_type_eq_does_not_capture_free_variables() {
    let a = Type::forall_("T", Kind::Star, Type::arrow(Type::var("T"), Type::var("T")));
    let b = Type::forall_("U", Kind::Star, Type::arrow(Type::var("U"), Type::var("T")));
    assert!(!type_eq(&a, &b));
    let c = Type::forall_("U", Kind::Star, Type::arrow(Type::var("U"), Type::var("U")));
    assert!(type_eq(&a, &c));
}

#[test]
fn fomega_inner_type_abstraction_does_not_capture_outer_variable() {
    let t = Term::ty_abs(
        "X",
        Kind::Star,
        Term::abs("v", Type::var("X"), Term::ty_abs("X", Kind::Star, Term::var("v"))),
    );
    let ty = type_of(&t).expect("well typed");
    assert_eq!(
        ty,
        Type::forall_(
            "X",
            Kind::Star,
            Type::arrow(Type::var("X"), Type::forall_("X1", Kind::Star, Type::var("X")))
        )
    );
}

#[test]
fn well_kinded_operator_application_normalizes() {
    let t = parse_type_str("(\\F::* -> *. F Int) (\\X::*. X -> X)").expect("parse type");
    assert!(kind_of_type(&t).is_ok());
    let n = normalize(&t);
    assert_eq!(n, Type::arrow(Type::Int, Type::Int));
    assert_eq!(normalize(&n), n);
}

#[test]
fn fomega_type_eq_is_alpha_equivalence_under_nested_binders() {
    let a = parse_type_str("forall A. forall B. A -> B").expect("parse type");
    let b = parse_type_str("forall B. forall A. B -> A").expect("parse type");
    let c = parse_type_str("forall A. forall B. B -> A").expect("parse type");
    assert!(type_eq(&a, &b));
    assert!(!type_eq(&a, &c));
}
