use lib::systemf::ast::{BinOp, Term, Type};
use lib::systemf::eval::{eval, step, subst};
use lib::systemf::typeck::{free_type_vars, ty_subst_in_term, type_eq, type_of, type_subst};

/// `/\T. \x:T. x`
fn poly_id() -> Term {
    Term::ty_abs("T", Term::abs("x", Type::var("T"), Term::var("x")))
}

/// `/\T. /\U. \x:T. \y:U. x`
fn k_comb() -> Term {
    Term::ty_abs(
        "T",
        Term::ty_abs(
            "U",
            Term::abs("x", Type::var("T"), Term::abs("y", Type::var("U"), Term::var("x"))),
        ),
    )
}

fn run(t: Term) -> Term {
    eval(t, 10_000).term
}

#[test]
fn polymorphic_identity_at_int() {
    // (/\T. \x:T. x) [Int] 42
    assert_eq!(
        run(Term::app(Term::ty_app(poly_id(), Type::Int), Term::IntLit(42))),
        Term::IntLit(42)
    );
}

#[test]
fn polymorphic_identity_at_bool() {
    assert_eq!(
        run(Term::app(Term::ty_app(poly_id(), Type::Bool), Term::BoolLit(true))),
        Term::BoolLit(true)
    );
}

#[test]
fn k_combinator_evaluates() {
    // K [Int] [Bool] 5 true = 5
    let t = Term::app(
        Term::app(Term::ty_app(Term::ty_app(k_comb(), Type::Int), Type::Bool), Term::IntLit(5)),
        Term::BoolLit(true),
    );
    assert_eq!(run(t), Term::IntLit(5));
}

#[test]
fn polymorphic_identity_used_at_two_types_in_same_expression() {
    // let id = /\T. \x:T. x in id [Int] 7 + id [Int] 5
    let use_at = |n: i64| Term::app(Term::ty_app(Term::var("id"), Type::Int), Term::IntLit(n));
    let t = Term::let_("id", poly_id(), Term::binop(BinOp::Add, use_at(7), use_at(5)));
    assert_eq!(run(t), Term::IntLit(12));
}

#[test]
fn polymorphic_identity_has_forall_type() {
    let ty = type_of(&poly_id()).unwrap();
    assert!(type_eq(
        &ty,
        &Type::forall_("T", Type::arrow(Type::var("T"), Type::var("T")))
    ));
}

#[test]
fn alpha_equivalence_of_forall() {
    let a = Type::forall_("T", Type::arrow(Type::var("T"), Type::var("T")));
    let b = Type::forall_("U", Type::arrow(Type::var("U"), Type::var("U")));
    assert!(type_eq(&a, &b));
}

#[test]
fn type_application_specializes_polymorphic_id() {
    let ty = type_of(&Term::ty_app(poly_id(), Type::Int)).unwrap();
    assert_eq!(ty, Type::arrow(Type::Int, Type::Int));
}

#[test]
fn polymorphic_identity_applied_at_int_then_to_value() {
    let ty = type_of(&Term::app(Term::ty_app(poly_id(), Type::Int), Term::IntLit(5))).unwrap();
    assert_eq!(ty, Type::Int);
}

#[test]
fn polymorphic_identity_applied_at_bool() {
    let ty = type_of(&Term::app(Term::ty_app(poly_id(), Type::Bool), Term::BoolLit(true))).unwrap();
    assert_eq!(ty, Type::Bool);
}

#[test]
fn k_combinator_has_doubly_polymorphic_type() {
    let ty = type_of(&k_comb()).unwrap();
    let expected = Type::forall_(
        "T",
        Type::forall_(
            "U",
            Type::arrow(Type::var("T"), Type::arrow(Type::var("U"), Type::var("T"))),
        ),
    );
    assert!(type_eq(&ty, &expected));
}

#[test]
fn cannot_apply_type_to_non_polymorphic_value() {
    // (\x:Int. x) [Int]
    assert!(type_of(&Term::ty_app(Term::abs("x", Type::Int, Term::var("x")), Type::Int)).is_err());
}

#[test]
fn unbound_type_variable_is_error() {
    // \x:T. x
    assert!(type_of(&Term::abs("x", Type::var("T"), Term::var("x"))).is_err());
}

#[test]
fn impredicative_instantiation_is_allowed() {
    // (/\T. \x:T. x) [forall S. S -> S]
    let id_ty = || Type::forall_("S", Type::arrow(Type::var("S"), Type::var("S")));
    let ty = type_of(&Term::ty_app(poly_id(), id_ty())).unwrap();
    let expected = Type::arrow(id_ty(), id_ty());
    assert!(type_eq(&ty, &expected));
}

// ----- further cases -----

#[test]
fn polymorphic_identity_prints_as_readme_shows() {
    assert_eq!(poly_id().to_string(), "ΛT. λx:T. x");
    assert_eq!(type_of(&poly_id()).unwrap().to_string(), "∀T. T -> T");
    assert_eq!(type_of(&k_comb()).unwrap().to_string(), "∀T U. T -> U -> T");
}

#[test]
fn systemf_type_substitution_avoids_capture() {
    // [U/T] (∀U. T -> U) renames the bound U.
    let t = Type::forall_("U", Type::arrow(Type::var("T"), Type::var("U")));
    let r = type_subst(&t, "T", &Type::var("U"));
    assert_eq!(r, Type::forall_("U1", Type::arrow(Type::var("U"), Type::var("U1"))));
}

#[test]
fn type_eq_distinguishes_different_types() {
    let a = Type::forall_("T", Type::arrow(Type::var("T"), Type::var("T")));
    let b = Type::forall_("T", Type::arrow(Type::var("T"), Type::Int));
    assert!(!type_eq(&a, &b));
    assert!(!type_eq(&Type::Int, &Type::Bool));
}

#[test]
fn free_type_variables_skip_bound_ones() {
    let t = Type::forall_("T", Type::arrow(Type::var("T"), Type::var("U")));
    assert_eq!(free_type_vars(&t), vec!["U".to_string()]);
}

#[test]
fn ty_subst_in_term_renames_type_abstraction() {
    // [T/U] (ΛT. λx:U. x) renames the bound T.
    let t = Term::ty_abs("T", Term::abs("x", Type::var("U"), Term::var("x")));
    let r = ty_subst_in_term(&t, "U", &Type::var("T"));
    assert_eq!(r, Term::ty_abs("T1", Term::abs("x", Type::var("T"), Term::var("x"))));
}

#[test]
fn type_application_steps_by_substitution() {
    let t = Term::ty_app(poly_id(), Type::Int);
    assert_eq!(step(&t).unwrap(), Term::abs("x", Type::Int, Term::var("x")));
    assert!(step(&poly_id()).is_none());
}

#[test]
fn term_substitution_avoids_capture() {
    let t = Term::abs("y", Type::Int, Term::var("x"));
    let r = subst(t, "x", &Term::var("y"));
    assert_eq!(r, Term::abs("y1", Type::Int, Term::var("y")));
}

#[test]
fn type_error_messages() {
    let e = type_of(&Term::ty_app(Term::abs("x", Type::Int, Term::var("x")), Type::Int)).unwrap_err();
    assert_eq!(e.to_string(), "type application requires a ∀-type, found Int -> Int");
    let e = type_of(&Term::abs("x", Type::var("T"), Term::var("x"))).unwrap_err();
    assert_eq!(e.to_string(), "unbound type variable: T");
    let e = type_of(&Term::binop(BinOp::Add, Term::BoolLit(true), Term::IntLit(1))).unwrap_err();
    assert_eq!(e.to_string(), "type mismatch in boolean literal `true`: expected Int, found Bool");
}

#[test]
fn systemf_well_typed_closed_terms_step_until_a_value() {
    // (/\T. \x:T. x) [Int] (if 1 < 2 then 3 else 4)
    let mut t = Term::app(
        Term::ty_app(poly_id(), Type::Int),
        Term::if_then_else(
            Term::binop(BinOp::Lt, Term::IntLit(1), Term::IntLit(2)),
            Term::IntLit(3),
            Term::IntLit(4),
        ),
    );
    let mut steps = 0;
    loop {
        assert!(type_of(&t).is_ok());
        match step(&t) {
            Some(next) => t = next,
            None => break,
        }
        steps += 1;
    }
    assert_eq!(t, Term::IntLit(3));
    assert_eq!(steps, 4);
}

#[test]
fn type_eq_does_not_capture_free_variables() {
    // ∀T. T -> T and ∀U. U -> T differ: the second body's T is free.
    let a = Type::forall_("T", Type::arrow(Type::var("T"), Type::var("T")));
    let b = Type::forall_("U", Type::arrow(Type::var("U"), Type::var("T")));
    assert!(!type_eq(&a, &b));
    assert!(!type_eq(&b, &a));
}

#[test]
fn inner_type_abstraction_does_not_capture_outer_variable() {
    // ΛX. λv:X. ΛX. v  :  ∀X. X -> ∀X1. X
    let t = Term::ty_abs(
        "X",
        Term::abs("v", Type::var("X"), Term::ty_abs("X", Term::var("v"))),
    );
    let ty = type_of(&t).expect("well typed");
    assert_eq!(
        ty,
        Type::forall_("X", Type::arrow(Type::var("X"), Type::forall_("X1", Type::var("X"))))
    );
    let expected =
        Type::forall_("X", Type::arrow(Type::var("X"), Type::forall_("Y", Type::var("X"))));
    assert!(type_eq(&ty, &expected));
    let wrong = Type::forall_("X", Type::arrow(Type::var("X"), Type::forall_("Y", Type::var("Y"))));
    assert!(!type_eq(&ty, &wrong));
}

#[test]
fn type_eq_is_alpha_equivalence_under_nested_binders() {
    let a = Type::forall_("A", Type::forall_("B", Type::arrow(Type::var("A"), Type::var("B"))));
    let b = Type::forall_("B", Type::forall_("A", Type::arrow(Type::var("B"), Type::var("A"))));
    let c = Type::forall_("A", Type::forall_("B", Type::arrow(Type::var("B"), Type::var("A"))));
    assert!(type_eq(&a, &b));
    assert!(type_eq(&b, &a));
    assert!(!type_eq(&a, &c));
}
