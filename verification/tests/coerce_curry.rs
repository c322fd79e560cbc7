use crisp::coerce::{
    boolean_to_expr, booleans, car, cdr, expr_to_boolean, expr_to_number, number_to_expr, numbers,
};
use crisp::curry::{curry, false_marks, residual};
use crisp::error::Error;
use crisp::expr::{clone_expr, eq_atom, eq_expr, Atom, BuiltIn, Expr};

fn num(n: i32) -> Expr {
    Expr::Constant(Atom::Number(n))
}

fn sym(s: &str) -> Expr {
    Expr::Constant(Atom::Symbol(s.to_string()))
}

fn call(op: BuiltIn, args: Vec<Expr>) -> Expr {
    Expr::Call(Box::new(Expr::Constant(Atom::BuiltIn(op))), args)
}

#[test]
fn number_extraction_succeeds_only_for_numbers() {
    assert_eq!(expr_to_number(&num(17)).unwrap(), 17);
    assert_eq!(expr_to_number(&Expr::Nil).unwrap_err(), Error::TypeError);
    assert_eq!(expr_to_number(&sym("x")).unwrap_err(), Error::TypeError);
}

#[test]
fn number_round_trip() {
    let e = number_to_expr(-3);
    assert_eq!(expr_to_number(&e).unwrap(), -3);
}

#[test]
fn truthiness_of_nil_and_empty_quote_is_false() {
    assert!(!expr_to_boolean(&Expr::Nil));
    assert!(!expr_to_boolean(&Expr::Quote(vec![])));
}

#[test]
fn truthiness_of_zero_and_other_shapes_is_true() {
    assert!(expr_to_boolean(&num(0)));
    assert!(expr_to_boolean(&sym("T")));
    assert!(expr_to_boolean(&Expr::Quote(vec![num(1)])));
}

#[test]
fn boolean_to_expr_uses_nil_and_the_t_symbol() {
    assert!(eq_expr(&boolean_to_expr(false), &Expr::Nil));
    assert!(eq_expr(&boolean_to_expr(true), &sym("T")));
}

#[test]
fn numbers_maps_or_fails_fast() {
    let ok = numbers(&vec![num(1), num(2)]).unwrap();
    assert_eq!(ok, vec![1, 2]);
    let e = numbers(&vec![num(1), Expr::Nil, num(3)]).unwrap_err();
    assert_eq!(e, Error::TypeError);
}

#[test]
fn booleans_maps_truthiness() {
    let bs = booleans(&vec![Expr::Nil, num(0), Expr::Quote(vec![])]);
    assert_eq!(bs, vec![false, true, false]);
}

#[test]
fn car_and_cdr_of_lists() {
    let items = vec![1, 2, 3];
    assert_eq!(*car(&items).unwrap(), 1);
    assert_eq!(cdr(&items).unwrap(), &[2, 3]);
    let empty: Vec<i32> = vec![];
    assert!(car(&empty).is_none());
    assert!(cdr(&empty).is_none());
}

#[test]
fn clone_and_equality_are_deep() {
    let e = Expr::If(
        Box::new(sym("p")),
        Box::new(Expr::Quote(vec![num(1), sym("q")])),
        None,
    );
    let c = clone_expr(&e);
    assert!(eq_expr(&c, &e));
    let other = Expr::If(
        Box::new(sym("p")),
        Box::new(Expr::Quote(vec![num(2), sym("q")])),
        None,
    );
    assert!(!eq_expr(&other, &e));
    assert!(eq_atom(
        &Atom::Symbol("a".to_string()),
        &Atom::Symbol("a".to_string())
    ));
    assert!(!eq_atom(&Atom::Symbol("a".to_string()), &Atom::Number(1)));
}

#[test]
fn curry_substitutes_a_matching_parameter() {
    let params = vec![sym("x")];
    let args = vec![num(1)];
    let mut marks = false_marks(1);
    let r = curry(&sym("x"), &params, &args, &mut marks).unwrap();
    assert!(eq_expr(&r, &num(1)));
    assert_eq!(marks, vec![true]);
}

#[test]
fn curry_leaves_other_shapes_unchanged() {
    let params = vec![sym("x")];
    let args = vec![num(1)];
    let mut marks = false_marks(1);
    let body = Expr::Quote(vec![sym("x")]);
    let r = curry(&body, &params, &args, &mut marks).unwrap();
    assert!(eq_expr(&r, &Expr::Quote(vec![sym("x")])));
    assert_eq!(marks, vec![false]);
}

#[test]
fn curry_rebuilds_calls_recursively() {
    let params = vec![sym("x"), sym("y")];
    let args = vec![num(1), num(2)];
    let mut marks = false_marks(2);
    let body = call(BuiltIn::Plus, vec![sym("x"), sym("y")]);
    let r = curry(&body, &params, &args, &mut marks).unwrap();
    assert!(eq_expr(&r, &call(BuiltIn::Plus, vec![num(1), num(2)])));
    assert_eq!(marks, vec![true, true]);
}

#[test]
fn curry_without_an_argument_for_a_used_parameter_fails() {
    let params = vec![sym("x"), sym("y")];
    let args = vec![num(1)];
    let mut marks = false_marks(2);
    let body = call(BuiltIn::Plus, vec![sym("x"), sym("y")]);
    let e = curry(&body, &params, &args, &mut marks).unwrap_err();
    assert_eq!(e, Error::SubstitutionIndexError);
}

#[test]
fn curry_swallows_failure_in_the_otherwise_branch() {
    let params = vec![sym("x"), sym("y")];
    let args = vec![num(1)];
    let mut marks = false_marks(2);
    let body = Expr::If(
        Box::new(sym("x")),
        Box::new(sym("x")),
        Some(Box::new(sym("y"))),
    );
    let r = curry(&body, &params, &args, &mut marks).unwrap();
    let expected = Expr::If(Box::new(num(1)), Box::new(num(1)), Some(Box::new(sym("y"))));
    assert!(eq_expr(&r, &expected));
    assert_eq!(marks, vec![true, true]);
}

#[test]
fn residual_keeps_unmarked_parameters_in_order() {
    let params = vec![sym("x"), sym("y"), sym("z")];
    let marks = vec![true, false, true];
    let rest = residual(&params, &marks);
    assert_eq!(rest.len(), 1);
    assert!(eq_expr(&rest[0], &sym("y")));
}
