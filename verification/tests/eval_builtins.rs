use crisp::error::Error;
use crisp::eval::Context;
use crisp::expr::{eq_expr, Atom, BuiltIn, Expr};

fn num(n: i32) -> Expr {
    Expr::Constant(Atom::Number(n))
}

fn sym(s: &str) -> Expr {
    Expr::Constant(Atom::Symbol(s.to_string()))
}

fn call(op: BuiltIn, args: Vec<Expr>) -> Expr {
    Expr::Call(Box::new(Expr::Constant(Atom::BuiltIn(op))), args)
}

fn eval(expr: Expr) -> Result<Expr, Error> {
    Context::new().eval(expr)
}

#[test]
fn sum_of_list() {
    let r = eval(call(BuiltIn::Plus, vec![num(1), num(2), num(3)])).unwrap();
    assert!(eq_expr(&r, &num(6)));
}

#[test]
fn sum_of_empty_list_is_zero() {
    let r = eval(call(BuiltIn::Plus, vec![])).unwrap();
    assert!(eq_expr(&r, &num(0)));
}

#[test]
fn product_of_list() {
    let r = eval(call(BuiltIn::Times, vec![num(2), num(3), num(4)])).unwrap();
    assert!(eq_expr(&r, &num(24)));
}

#[test]
fn product_of_empty_list_is_one() {
    let r = eval(call(BuiltIn::Times, vec![])).unwrap();
    assert!(eq_expr(&r, &num(1)));
}

#[test]
fn sum_wraps_at_the_32_bit_boundary() {
    let r = eval(call(BuiltIn::Plus, vec![num(i32::MAX), num(1)])).unwrap();
    assert!(eq_expr(&r, &num(i32::MIN)));
}

#[test]
fn sum_of_non_number_is_a_type_error() {
    let e = eval(call(BuiltIn::Plus, vec![num(1), Expr::Nil])).unwrap_err();
    assert_eq!(e, Error::TypeError);
}

#[test]
fn minus_with_single_argument_returns_it() {
    let r = eval(call(BuiltIn::Minus, vec![num(41)])).unwrap();
    assert!(eq_expr(&r, &num(41)));
}

#[test]
fn minus_folds_left() {
    let r = eval(call(BuiltIn::Minus, vec![num(10), num(1), num(2)])).unwrap();
    assert!(eq_expr(&r, &num(7)));
}

#[test]
fn minus_without_arguments_is_an_arity_error() {
    let e = eval(call(BuiltIn::Minus, vec![])).unwrap_err();
    assert_eq!(e, Error::ArityError);
}

#[test]
fn minus_with_non_number_seed_is_an_arity_error() {
    let e = eval(call(BuiltIn::Minus, vec![Expr::Nil, num(1)])).unwrap_err();
    assert_eq!(e, Error::ArityError);
}

#[test]
fn divide_folds_left() {
    let r = eval(call(BuiltIn::Divide, vec![num(20), num(2), num(5)])).unwrap();
    assert!(eq_expr(&r, &num(2)));
}

#[test]
fn divide_truncates_toward_zero() {
    let r = eval(call(BuiltIn::Divide, vec![num(7), num(-2)])).unwrap();
    assert!(eq_expr(&r, &num(-3)));
}

#[test]
fn divide_by_zero_is_reported() {
    let e = eval(call(BuiltIn::Divide, vec![num(1), num(0)])).unwrap_err();
    assert_eq!(e, Error::DivisionByZero);
}

#[test]
fn divide_minimum_by_minus_one_wraps() {
    let r = eval(call(BuiltIn::Divide, vec![num(i32::MIN), num(-1)])).unwrap();
    assert!(eq_expr(&r, &num(i32::MIN)));
}

#[test]
fn chained_less_holds_for_ascending() {
    let r = eval(call(BuiltIn::Less, vec![num(1), num(2), num(3)])).unwrap();
    assert!(eq_expr(&r, &sym("T")));
}

#[test]
fn chained_less_fails_for_non_ascending() {
    let r = eval(call(BuiltIn::Less, vec![num(1), num(3), num(2)])).unwrap();
    assert!(eq_expr(&r, &Expr::Nil));
}

#[test]
fn chained_comparison_with_non_number_is_false() {
    let r = eval(call(BuiltIn::Greater, vec![num(3), Expr::Quote(vec![num(1)])])).unwrap();
    assert!(eq_expr(&r, &Expr::Nil));
}

#[test]
fn greater_equal_chain() {
    let r = eval(call(BuiltIn::GreaterEqual, vec![num(3), num(3), num(1)])).unwrap();
    assert!(eq_expr(&r, &sym("T")));
}

#[test]
fn less_equal_chain() {
    let r = eval(call(BuiltIn::LessEqual, vec![num(1), num(1), num(4)])).unwrap();
    assert!(eq_expr(&r, &sym("T")));
}

#[test]
fn equal_is_chained_and_structural() {
    let a = Expr::Quote(vec![num(1), num(2)]);
    let b = Expr::Quote(vec![num(1), num(2)]);
    let r = eval(call(BuiltIn::Equal, vec![a, b])).unwrap();
    assert!(eq_expr(&r, &sym("T")));
    let r = eval(call(BuiltIn::Equal, vec![num(2), num(3)])).unwrap();
    assert!(eq_expr(&r, &Expr::Nil));
}

#[test]
fn not_equal_checks_adjacent_pairs() {
    let r = eval(call(BuiltIn::NotEqual, vec![num(1), num(2), num(1)])).unwrap();
    assert!(eq_expr(&r, &sym("T")));
    let r = eval(call(BuiltIn::NotEqual, vec![num(1), num(1)])).unwrap();
    assert!(eq_expr(&r, &Expr::Nil));
}

#[test]
fn and_is_vacuously_true_when_empty() {
    let r = eval(call(BuiltIn::And, vec![])).unwrap();
    assert!(eq_expr(&r, &sym("T")));
}

#[test]
fn or_is_vacuously_false_when_empty() {
    let r = eval(call(BuiltIn::Or, vec![])).unwrap();
    assert!(eq_expr(&r, &Expr::Nil));
}

#[test]
fn and_over_truthiness() {
    let r = eval(call(BuiltIn::And, vec![num(0), num(5)])).unwrap();
    assert!(eq_expr(&r, &sym("T")));
    let r = eval(call(BuiltIn::And, vec![num(0), Expr::Nil])).unwrap();
    assert!(eq_expr(&r, &Expr::Nil));
}

#[test]
fn or_over_truthiness() {
    let r = eval(call(BuiltIn::Or, vec![Expr::Nil, num(1)])).unwrap();
    assert!(eq_expr(&r, &sym("T")));
    let r = eval(call(BuiltIn::Or, vec![Expr::Nil, Expr::Quote(vec![])])).unwrap();
    assert!(eq_expr(&r, &Expr::Nil));
}

#[test]
fn not_negates_truthiness() {
    let r = eval(call(BuiltIn::Not, vec![Expr::Nil])).unwrap();
    assert!(eq_expr(&r, &sym("T")));
    let r = eval(call(BuiltIn::Not, vec![num(0)])).unwrap();
    assert!(eq_expr(&r, &Expr::Nil));
}

#[test]
fn not_with_wrong_arity_is_an_arity_error() {
    let e = eval(call(BuiltIn::Not, vec![])).unwrap_err();
    assert_eq!(e, Error::ArityError);
    let e = eval(call(BuiltIn::Not, vec![num(1), num(2)])).unwrap_err();
    assert_eq!(e, Error::ArityError);
}

#[test]
fn product_wraps_at_the_32_bit_boundary() {
    let r = eval(call(BuiltIn::Times, vec![num(65536), num(65536)])).unwrap();
    assert!(eq_expr(&r, &num(0)));
}

#[test]
fn minus_wraps_below_the_32_bit_boundary() {
    let r = eval(call(BuiltIn::Minus, vec![num(i32::MIN), num(1)])).unwrap();
    assert!(eq_expr(&r, &num(i32::MAX)));
}

#[test]
fn empty_let_yields_nil() {
    let r = eval(Expr::Let(vec![])).unwrap();
    assert!(eq_expr(&r, &Expr::Nil));
}

#[test]
fn nested_calls_evaluate_applicative_order() {
    let inner = call(BuiltIn::Plus, vec![num(1), num(2)]);
    let r = eval(call(BuiltIn::Times, vec![inner, num(4)])).unwrap();
    assert!(eq_expr(&r, &num(12)));
}
