use lib::untyped::ast::Term;
use lib::untyped::eval::{free_vars, normalize, reduce_step, subst};
use lib::untyped::parser::parse;

fn eval_str(s: &str) -> String {
    let t = parse(s).unwrap();
    let r = normalize(t, 1000);
    assert!(r.reached_normal_form, "did not normalize: {}", r.term.to_string());
    r.term.to_string()
}

#[test]
fn eval_identity_application() {
    assert_eq!(eval_str("(\\x. x) y"), "y");
    // Hindley-Milner evaluation of the same redex on a number.
    let t = lib::hm::parser::parse("(\\x. x) 42").expect("parse");
    assert_eq!(lib::hm::eval::eval(t, 100_000).term, lib::hm::ast::Term::IntLit(42));
}

#[test]
fn k_combinator() {
    assert_eq!(eval_str("(\\x y. x) a b"), "a");
}

#[test]
fn s_combinator_on_identities() {
    assert_eq!(eval_str("(\\x y z. x z (y z)) (\\a b. a) (\\a b. a) v"), "v");
}

#[test]
fn capture_avoidance_renames() {
    let r = eval_str("(\\x. \\y. x) y");
    assert_ne!(r, "λy. y", "free y was captured by the bound y");
    assert!(r.contains("y") && r.starts_with("λ"));
}

#[test]
fn church_succ_of_two() {
    let actual = eval_str("(\\n f x. f (n f x)) (\\f x. f (f x))");
    let expected = eval_str("\\f x. f (f (f x))");
    assert_eq!(actual, expected);
}

#[test]
fn church_add_two_three() {
    let actual = eval_str("(\\m n f x. m f (n f x)) (\\f x. f (f x)) (\\f x. f (f (f x)))");
    let expected = eval_str("\\f x. f (f (f (f (f x))))");
    assert_eq!(actual, expected);
}

#[test]
fn omega_diverges() {
    let t = parse("(\\x. x x) (\\x. x x)").unwrap();
    let r = normalize(t, 100);
    assert!(!r.reached_normal_form);
    assert_eq!(r.steps, 100);
}

#[test]
fn normal_order_skips_diverging_argument() {
    assert_eq!(eval_str("(\\x. y) ((\\x. x x) (\\x. x x))"), "y");
}

#[test]
fn parse_var() {
    assert_eq!(parse("x").unwrap(), Term::var("x"));
}

#[test]
fn parse_identity() {
    assert_eq!(parse("\\x. x").unwrap(), Term::abs("x", Term::var("x")));
}

#[test]
fn parse_lambda_unicode() {
    assert_eq!(parse("λx. x").unwrap(), Term::abs("x", Term::var("x")));
}

#[test]
fn parse_app_left_assoc() {
    assert_eq!(
        parse("f x y").unwrap(),
        Term::app(Term::app(Term::var("f"), Term::var("x")), Term::var("y"))
    );
}

#[test]
fn parse_multi_arg_lambda() {
    assert_eq!(
        parse("\\x y. x").unwrap(),
        Term::abs("x", Term::abs("y", Term::var("x")))
    );
}

#[test]
fn parse_lambda_body_extends_right() {
    assert_eq!(
        parse("\\x. f x y").unwrap(),
        Term::abs(
            "x",
            Term::app(Term::app(Term::var("f"), Term::var("x")), Term::var("y"))
        )
    );
}

#[test]
fn parse_paren_lambda_as_function() {
    assert_eq!(
        parse("(\\x. x) y").unwrap(),
        Term::app(Term::abs("x", Term::var("x")), Term::var("y"))
    );
}

// ----- further cases -----

#[test]
fn capture_avoiding_substitution_renames_to_y1() {
    // [y/x] (λy. x) = λy1. y : the bound y is renamed to the first free name.
    let t = Term::abs("y", Term::var("x"));
    let r = subst(t, "x", &Term::var("y"));
    assert_eq!(r, Term::abs("y1", Term::var("y")));
}

#[test]
fn substitution_leaves_other_variables() {
    let t = Term::app(Term::var("x"), Term::var("z"));
    let r = subst(t, "x", &Term::var("w"));
    assert_eq!(r, Term::app(Term::var("w"), Term::var("z")));
}

#[test]
fn free_variables_exclude_bound_ones() {
    let t = parse("\\x. x y (\\z. z w)").unwrap();
    let mut fv = free_vars(&t);
    fv.sort();
    assert_eq!(fv, vec!["w".to_string(), "y".to_string()]);
}

#[test]
fn normal_form_takes_no_step() {
    let t = parse("\\x. x").unwrap();
    assert!(reduce_step(&t).is_none());
}

#[test]
fn reduction_goes_under_binders() {
    let t = parse("\\z. (\\x. x) z").unwrap();
    let r = reduce_step(&t).unwrap();
    assert_eq!(r, Term::abs("z", Term::var("z")));
}

#[test]
fn printing_groups_binders_and_parenthesizes() {
    let t = parse("(\\x y. x) (f g)").unwrap();
    assert_eq!(t.to_string(), "(λx y. x) (f g)");
}

#[test]
fn parse_errors_are_reported() {
    assert_eq!(parse("\\. x").unwrap_err(), "expected at least one parameter after λ");
    assert_eq!(parse("x )").unwrap_err(), "unexpected token after expression: Some(RParen)");
    assert_eq!(parse("#").unwrap_err(), "unexpected character: '#'");
    assert_eq!(parse("(x").unwrap_err(), "expected ')', got None");
}

#[test]
fn identifiers_may_hold_unicode_letters() {
    assert_eq!(parse("é").unwrap(), Term::var("é"));
    assert_eq!(parse("x'").unwrap(), Term::var("x'"));
}

#[test]
fn zero_steps_allowed_is_no_normal_form_claim() {
    let t = parse("(\\x. x) y").unwrap();
    let r = normalize(t, 0);
    assert_eq!(r.steps, 0);
    assert!(!r.reached_normal_form);
}
