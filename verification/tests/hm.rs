use lib::hm::ast::{BinOp, Scheme, Term, Type};
use lib::hm::eval::{eval, step};
use lib::hm::infer::{
    apply_type, compose, ftv, ftv_env, ftv_scheme, generalize, instantiate, prettify, type_of,
    unify, Env, State, Subst,
};
use lib::hm::parser::parse;

fn run(input: &str) -> Term {
    let t = parse(input).expect("parse");
    eval(t, 100_000).term
}

fn infer_pretty(input: &str) -> Result<String, String> {
    let t = parse(input).map_err(|e| format!("parse: {}", e))?;
    let sch = type_of(&t).map_err(|e| format!("typeck: {}", e.to_string()))?;
    Ok(prettify(&sch).to_string())
}

#[test]
fn arithmetic() {
    assert_eq!(run("1 + 2 * 3"), Term::IntLit(7));
}


#[test]
fn let_binding() {
    assert_eq!(run("let x = 5 in x + x"), Term::IntLit(10));
}

#[test]
fn let_rec_factorial() {
    assert_eq!(
        run("let rec f = \\n. if n == 0 then 1 else n * f (n - 1) in f 5"),
        Term::IntLit(120)
    );
}

#[test]
fn let_rec_fibonacci() {
    assert_eq!(
        run("let rec fib = \\n. if n < 2 then n else fib (n - 1) + fib (n - 2) in fib 10"),
        Term::IntLit(55)
    );
}

#[test]
fn mutual_use_of_polymorphic_id_at_two_types() {
    assert_eq!(run("let id = \\x. x in if id true then id 7 else 0"), Term::IntLit(7));
}

#[test]
fn int_literal() {
    assert_eq!(infer_pretty("42").unwrap(), "Int");
}

#[test]
fn bool_literal() {
    assert_eq!(infer_pretty("true").unwrap(), "Bool");
}

#[test]
fn polymorphic_identity_inferred_with_no_annotation() {
    assert_eq!(infer_pretty("\\x. x").unwrap(), "∀a. a -> a");
}

#[test]
fn const_function() {
    assert_eq!(infer_pretty("\\x. \\y. x").unwrap(), "∀a b. a -> b -> a");
}

#[test]
fn twice() {
    assert_eq!(infer_pretty("\\f. \\x. f (f x)").unwrap(), "∀a. (a -> a) -> a -> a");
}

#[test]
fn add_one_function() {
    assert_eq!(infer_pretty("\\x. x + 1").unwrap(), "Int -> Int");
}

#[test]
fn application_specializes_polymorphic_id() {
    assert_eq!(infer_pretty("(\\x. x) 5").unwrap(), "Int");
}

#[test]
fn let_polymorphism_used_at_two_types() {
    assert_eq!(
        infer_pretty("let id = \\x. x in if id true then id 1 else id 2").unwrap(),
        "Int"
    );
}

#[test]
fn occurs_check_rejects_self_application() {
    assert!(infer_pretty("\\x. x x").is_err());
}

#[test]
fn type_mismatch_arithmetic_on_bool() {
    assert!(infer_pretty("1 + true").is_err());
}

#[test]
fn type_mismatch_if_condition() {
    assert!(infer_pretty("if 1 then 2 else 3").is_err());
}

#[test]
fn type_mismatch_if_branches() {
    assert!(infer_pretty("if true then 1 else false").is_err());
}

#[test]
fn let_rec_factorial_has_int_to_int_type() {
    assert_eq!(
        infer_pretty("let rec fact = \\n. if n == 0 then 1 else n * fact (n - 1) in fact").unwrap(),
        "Int -> Int"
    );
}

#[test]
fn let_rec_with_polymorphic_use_after() {
    assert_eq!(infer_pretty("let rec loop = \\x. loop x in loop").unwrap(), "∀a b. a -> b");
}

#[test]
fn infer_unbound_variable_is_error() {
    assert!(infer_pretty("x").is_err());
}

#[test]
fn parse_identity_no_annotation() {
    let t = parse("\\x. x").unwrap();
    assert_eq!(t, Term::abs("x", Term::var("x")));
}

#[test]
fn parse_let_rec() {
    let t = parse("let rec f = \\n. f n in f 5").unwrap();
    assert_eq!(
        t,
        Term::let_rec(
            "f",
            Term::abs("n", Term::app(Term::var("f"), Term::var("n"))),
            Term::app(Term::var("f"), Term::IntLit(5)),
        )
    );
}

#[test]
fn parse_arith() {
    let t = parse("1 + 2 * 3").unwrap();
    assert_eq!(
        t,
        Term::binop(
            BinOp::Add,
            Term::IntLit(1),
            Term::binop(BinOp::Mul, Term::IntLit(2), Term::IntLit(3))
        )
    );
}

// ----- further cases -----

fn tv(s: &str) -> Type {
    Type::var(s)
}

#[test]
fn unify_binds_variable_and_unifies_both_sides() {
    let a = Type::arrow(tv("a"), Type::Int);
    let b = Type::arrow(Type::Bool, tv("b"));
    let s = unify(&a, &b).unwrap();
    assert_eq!(apply_type(&s, &a), Type::arrow(Type::Bool, Type::Int));
    assert_eq!(apply_type(&s, &a), apply_type(&s, &b));
}

#[test]
fn unify_reports_occurs_check_and_mismatch() {
    let e = unify(&tv("a"), &Type::arrow(tv("a"), Type::Int)).unwrap_err();
    assert_eq!(
        e.to_string(),
        "occurs check failed: a would refer to itself in a -> Int\n  (a type cannot contain itself — this rejects terms like \\x. x x)"
    );
    let e = unify(&Type::Int, &Type::Bool).unwrap_err();
    assert_eq!(e.to_string(), "cannot unify types: Int and Bool");
}

#[test]
fn unify_of_equal_variables_is_empty() {
    let s = unify(&tv("a"), &tv("a")).unwrap();
    assert_eq!(apply_type(&s, &tv("a")), tv("a"));
    assert_eq!(apply_type(&s, &tv("b")), tv("b"));
}

#[test]
fn composition_applies_right_then_left() {
    let mut s1 = Subst::new();
    s1.insert("b".to_string(), Type::Int);
    let mut s2 = Subst::new();
    s2.insert("a".to_string(), tv("b"));
    let c = compose(&s1, &s2);
    let t = Type::arrow(tv("a"), tv("b"));
    assert_eq!(apply_type(&c, &t), apply_type(&s1, &apply_type(&s2, &t)));
    assert_eq!(apply_type(&c, &t), Type::arrow(Type::Int, Type::Int));
}

#[test]
fn generalize_sorts_and_skips_environment_variables() {
    let mut env = Env::new();
    env.insert("x".to_string(), Scheme { vars: Vec::new(), ty: tv("m") });
    let t = Type::arrow(tv("z"), Type::arrow(tv("m"), tv("b")));
    let sch = generalize(&env, &t);
    assert_eq!(sch.vars, vec!["b".to_string(), "z".to_string()]);
    assert_eq!(ftv_env(&env), vec!["m".to_string()]);
}

#[test]
fn instantiate_uses_fresh_variables_in_order() {
    let sch = Scheme {
        vars: vec!["a".to_string(), "b".to_string()],
        ty: Type::arrow(tv("a"), tv("b")),
    };
    let mut st = State::new();
    let t = instantiate(&sch, &mut st);
    assert_eq!(t, Type::arrow(tv("t0"), tv("t1")));
    assert_eq!(st.fresh(), tv("t2"));
}

#[test]
fn free_type_variables_of_schemes() {
    let sch = Scheme { vars: vec!["a".to_string()], ty: Type::arrow(tv("a"), tv("c")) };
    assert_eq!(ftv_scheme(&sch), vec!["c".to_string()]);
    let mut fv = ftv(&Type::arrow(tv("a"), tv("c")));
    fv.sort();
    assert_eq!(fv, vec!["a".to_string(), "c".to_string()]);
}

#[test]
fn prettify_renames_in_order_and_prints() {
    let sch = Scheme {
        vars: vec!["t3".to_string(), "t1".to_string()],
        ty: Type::arrow(tv("t3"), tv("t1")),
    };
    assert_eq!(prettify(&sch).to_string(), "∀a b. a -> b");
    let many: Vec<String> = (0..28).map(|i| format!("v{}", i)).collect();
    let last = Scheme { vars: many, ty: tv("v27") };
    assert_eq!(prettify(&last).ty, tv("b1"));
}

#[test]
fn let_rec_steps_to_fixed_point() {
    let t = parse("let rec f = \\n. n in f").unwrap();
    let r = eval(t, 1);
    assert_eq!(r.term.to_string(), "let f = fix (λf n. n) in f");
}

#[test]
fn parse_error_messages() {
    assert_eq!(
        parse("let 5 = 1 in 2").unwrap_err(),
        "expected identifier after 'let', got Some(IntLit(5))"
    );
    assert_eq!(parse("\\. x").unwrap_err(), "expected parameter name, got Some(Dot)");
    assert_eq!(parse("\\x y").unwrap_err(), "expected parameter name, got None");
    assert_eq!(parse("x y)").unwrap_err(), "unexpected token after expression: Some(RParen)");
    assert_eq!(parse("let x = 1 2").unwrap_err(), "expected In after let binding, got None");
}

#[test]
fn identifier_tokens_are_quoted_in_errors() {
    assert_eq!(
        parse("let x y").unwrap_err(),
        "expected Eq after let-bound name, got Some(Ident(\"y\"))"
    );
    assert_eq!(parse("x2 = 1").unwrap_err(), "unexpected token after expression: Some(Eq)");
}

#[test]
fn readme_let_polymorphism_example() {
    let input = "let id = \\x. x in if id true then id 1 else 0";
    assert_eq!(infer_pretty(input).unwrap(), "Int");
    assert_eq!(run(input), Term::IntLit(1));
    assert_eq!(infer_pretty("\\x. x").unwrap(), "∀a. a -> a");
}

#[test]
fn hm_well_typed_closed_terms_step_until_a_value() {
    let mut t = parse("let id = \\x. x in if id true then id 1 else 0").expect("parse");
    let mut steps = 0;
    loop {
        assert!(type_of(&t).is_ok());
        match step(&t) {
            Some(next) => t = next,
            None => break,
        }
        steps += 1;
    }
    assert_eq!(t, Term::IntLit(1));
    assert_eq!(steps, 4);
}
