use lib::lambdap::ast::{appears_free, Term};
use lib::lambdap::eval::{eval, step};
use lib::lambdap::parser::parse;
use lib::lambdap::typeck::{normalize, subst, term_eq, type_of_top, TypeError};

fn run(input: &str) -> Term {
    let t = parse(input).expect("parse");
    eval(t, 10_000).term
}

fn typeof_str(input: &str) -> Result<Term, TypeError> {
    let t = parse(input).expect("parse");
    type_of_top(&t)
}

#[test]
fn polymorphic_id_at_int_evaluates() {
    assert_eq!(run("(\\A: Type. \\x: A. x) Int 42"), Term::IntLit(42));
}

#[test]
fn polymorphic_id_at_bool_evaluates() {
    assert_eq!(run("(\\A: Type. \\x: A. x) Bool true"), Term::BoolLit(true));
}

#[test]
fn dependent_function_at_true_returns_int() {
    assert_eq!(run("(\\b: Bool. if b then 42 else true) true"), Term::IntLit(42));
}

#[test]
fn dependent_function_at_false_returns_bool() {
    assert_eq!(run("(\\b: Bool. if b then 42 else true) false"), Term::BoolLit(true));
}

#[test]
fn parse_polymorphic_id() {
    let t = parse("\\A: Type. \\x: A. x").unwrap();
    assert_eq!(
        t,
        Term::lambda("A", Term::Universe, Term::lambda("x", Term::var("A"), Term::var("x")))
    );
}

#[test]
fn parse_pi_type() {
    let t = parse("Pi A: Type. A -> A").unwrap();
    assert_eq!(
        t,
        Term::pi("A", Term::Universe, Term::arrow(Term::var("A"), Term::var("A")))
    );
}

#[test]
fn parse_arrow_desugars_to_pi() {
    let t = parse("Int -> Bool").unwrap();
    assert_eq!(t, Term::pi("_", Term::Int, Term::Bool));
}

#[test]
fn parse_dependent_function() {
    let t = parse("\\b: Bool. if b then 42 else true").unwrap();
    assert_eq!(
        t,
        Term::lambda(
            "b",
            Term::Bool,
            Term::if_then_else(Term::var("b"), Term::IntLit(42), Term::BoolLit(true))
        )
    );
}

#[test]
fn type_of_int_literal_is_int() {
    let ty = typeof_str("42").unwrap();
    assert!(term_eq(&ty, &Term::Int));
}

#[test]
fn type_of_bool_is_universe() {
    let ty = typeof_str("Bool").unwrap();
    assert!(term_eq(&ty, &Term::Universe));
}

#[test]
fn type_of_universe_is_universe() {
    let ty = typeof_str("Type").unwrap();
    assert!(term_eq(&ty, &Term::Universe));
}

#[test]
fn polymorphic_identity_has_pi_type() {
    let ty = typeof_str("\\A: Type. \\x: A. x").unwrap();
    let expected = Term::pi("A", Term::Universe, Term::pi("x", Term::var("A"), Term::var("A")));
    assert!(
        term_eq(&ty, &expected),
        "got {}, expected {}",
        ty.to_string(),
        expected.to_string()
    );
}

#[test]
fn polymorphic_id_specializes_at_int() {
    let ty = typeof_str("(\\A: Type. \\x: A. x) Int 5").unwrap();
    assert!(term_eq(&ty, &Term::Int));
}

#[test]
fn polymorphic_id_specializes_at_bool() {
    let ty = typeof_str("(\\A: Type. \\x: A. x) Bool true").unwrap();
    assert!(term_eq(&ty, &Term::Bool));
}

#[test]
fn dependent_function_has_dependent_type() {
    let ty = typeof_str("\\b: Bool. if b then 42 else true").unwrap();
    let expected = Term::pi(
        "b",
        Term::Bool,
        Term::if_then_else(Term::var("b"), Term::Int, Term::Bool),
    );
    assert!(term_eq(&ty, &expected), "got {}", ty.to_string());
}

#[test]
fn dependent_application_at_true_normalizes_to_int() {
    let ty = typeof_str("(\\b: Bool. if b then 42 else true) true").unwrap();
    assert!(term_eq(&ty, &Term::Int), "got {}", ty.to_string());
}

#[test]
fn dependent_application_at_false_normalizes_to_bool() {
    let ty = typeof_str("(\\b: Bool. if b then 42 else true) false").unwrap();
    assert!(term_eq(&ty, &Term::Bool), "got {}", ty.to_string());
}

#[test]
fn type_level_beta_works() {
    let lhs = parse("(\\A: Type. A) Int").unwrap();
    assert!(term_eq(&lhs, &Term::Int));
}

#[test]
fn pi_type_well_formed() {
    let ty = typeof_str("Pi A: Type. A -> A").unwrap();
    assert!(term_eq(&ty, &Term::Universe));
}

#[test]
fn cannot_apply_int_as_function() {
    assert!(typeof_str("5 3").is_err());
}

#[test]
fn type_mismatch_in_application() {
    assert!(typeof_str("(\\x: Int. x + 1) true").is_err());
}


// ----- further cases -----

#[test]
fn dependent_type_prints_as_readme_shows() {
    let ty = typeof_str("\\b: Bool. if b then 42 else true").unwrap();
    assert_eq!(ty.to_string(), "Πb:Bool. if b then Int else Bool");
}

#[test]
fn non_dependent_pi_prints_as_arrow() {
    let t = parse("Int -> Bool -> Int").unwrap();
    assert_eq!(t.to_string(), "Int -> Bool -> Int");
    assert!(!appears_free("_", &t));
}

#[test]
fn normalize_computes_arithmetic_and_conditionals() {
    let t = parse("if 1 < 2 then 3 * 4 else 0").unwrap();
    assert_eq!(normalize(&t), Term::IntLit(12));
}

#[test]
fn arithmetic_wraps_on_overflow() {
    assert_eq!(run("9223372036854775807 + 1"), Term::IntLit(i64::MIN));
}

#[test]
fn integer_literal_overflow_is_reported() {
    assert_eq!(parse("9223372036854775808").unwrap_err(), "integer literal overflow");
}

#[test]
fn type_errors_have_messages() {
    assert_eq!(typeof_str("x").unwrap_err().to_string(), "unbound variable: x");
    assert_eq!(
        typeof_str("5 3").unwrap_err().to_string(),
        "expected a function (Π-type), found Int"
    );
    assert_eq!(
        typeof_str("(\\x: Int. x + 1) true").unwrap_err().to_string(),
        "type mismatch: expected Int, found Bool"
    );
    assert_eq!(
        typeof_str("\\x: 5. x").unwrap_err().to_string(),
        "expected a Type, found term of type Int"
    );
}

#[test]
fn substitution_avoids_capture() {
    // [y/x] (λy:Int. x) renames the binder.
    let t = Term::lambda("y", Term::Int, Term::var("x"));
    let r = subst(t, "x", &Term::var("y"));
    assert_eq!(r, Term::lambda("y1", Term::Int, Term::var("y")));
}

#[test]
fn parse_errors_use_token_debug_text() {
    assert_eq!(
        parse("let 5 = 1 in 2").unwrap_err(),
        "expected identifier after 'let', got Some(IntLit(5))"
    );
    assert_eq!(parse("(x").unwrap_err(), "expected RParen after expression, got None");
    assert_eq!(parse("x )").unwrap_err(), "unexpected token after expression: Some(RParen)");
    assert_eq!(
        parse("\\x Int. x").unwrap_err(),
        "expected Colon after parameter name, got Some(IntKw)"
    );
    assert_eq!(parse(")").unwrap_err(), "unexpected token: Some(RParen)");
    assert_eq!(parse("@").unwrap_err(), "unexpected character: '@'");
}

#[test]
fn lambdap_well_typed_closed_terms_step_until_a_value() {
    let mut t = parse("(\\b: Bool. if b then 1 + 2 else true) (1 < 2)").expect("parse");
    let mut steps = 0;
    loop {
        assert!(type_of_top(&t).is_ok());
        match step(&t) {
            Some(next) => t = next,
            None => break,
        }
        steps += 1;
    }
    assert_eq!(t, Term::IntLit(3));
    assert_eq!(steps, 4);
}

#[test]
fn unbound_variable_is_error() {
    assert!(typeof_str("x").is_err());
}

#[test]
fn alpha_equivalence_does_not_capture_free_variables() {
    let a = Term::lambda("x", Term::Int, Term::var("x"));
    let b = Term::lambda("y", Term::Int, Term::var("x"));
    assert!(!term_eq(&a, &b));
    let c = Term::lambda("y", Term::Int, Term::var("y"));
    assert!(term_eq(&a, &c));
}

#[test]
fn inner_binder_does_not_capture_a_variable_of_the_context() {
    // λA:Type. λx:A. λA:Type. x  :  ΠA:Type. A -> (Type -> A), the last A
    // being the outer one.
    let ty = typeof_str("\\A: Type. \\x: A. \\A: Type. x").expect("well typed");
    assert_eq!(ty.to_string(), "ΠA:Type. A -> Type -> A");
    let wrong = parse("\\A: Type. \\x: A. \\B: Type. B").expect("parse");
    let wrong_ty = type_of_top(&wrong).expect("well typed");
    assert!(!term_eq(&ty, &wrong_ty));
}
