use crisp::error::Error;
use crisp::eval::Context;
use crisp::expr::{eq_expr, Atom, BuiltIn, Expr};

fn num(n: i32) -> Expr {
    Expr::Constant(Atom::Number(n))
}

fn sym(s: &str) -> Expr {
    Expr::Constant(Atom::Symbol(s.to_string()))
}

fn call(op: BuiltIn, args: Vec<Expr>) -> Expr {
    Expr::Call(Box::new(Expr::Constant(Atom::BuiltIn(op))), args)
}

fn let_one(name: &str, value: Expr) -> Expr {
    Expr::Let(vec![(Atom::Symbol(name.to_string()), value)])
}

#[test]
fn let_binds_and_lookup_finds() {
    let mut ctx = Context::new();
    let r = ctx.eval(let_one("x", num(5))).unwrap();
    assert!(eq_expr(&r, &Expr::Nil));
    let r = ctx.eval(sym("x")).unwrap();
    assert!(eq_expr(&r, &num(5)));
}

#[test]
fn let_overwrites_on_name_collision() {
    let mut ctx = Context::new();
    ctx.eval(let_one("x", num(5))).unwrap();
    ctx.eval(let_one("x", num(6))).unwrap();
    let r = ctx.eval(sym("x")).unwrap();
    assert!(eq_expr(&r, &num(6)));
}

#[test]
fn let_evaluates_the_right_hand_side() {
    let mut ctx = Context::new();
    ctx.eval(let_one("y", call(BuiltIn::Plus, vec![num(2), num(3)]))).unwrap();
    let r = ctx.eval(sym("y")).unwrap();
    assert!(eq_expr(&r, &num(5)));
}

#[test]
fn let_with_non_symbol_name_is_a_type_error() {
    let mut ctx = Context::new();
    let e = ctx.eval(Expr::Let(vec![(Atom::Number(3), num(1))])).unwrap_err();
    assert_eq!(e, Error::TypeError);
}

#[test]
fn unbound_symbol_fails_and_does_not_mutate_the_environment() {
    let mut ctx = Context::new();
    ctx.eval(let_one("kept", num(9))).unwrap();
    let e = ctx.eval(sym("missing")).unwrap_err();
    assert_eq!(e, Error::UnboundVariable("missing".to_string()));
    let e = ctx.eval(sym("missing")).unwrap_err();
    assert_eq!(e, Error::UnboundVariable("missing".to_string()));
    let r = ctx.eval(sym("kept")).unwrap();
    assert!(eq_expr(&r, &num(9)));
}

#[test]
fn bindings_committed_before_a_failure_stay_committed() {
    let mut ctx = Context::new();
    let form = Expr::Let(vec![
        (Atom::Symbol("a".to_string()), num(1)),
        (Atom::Symbol("b".to_string()), sym("missing")),
    ]);
    let e = ctx.eval(form).unwrap_err();
    assert_eq!(e, Error::UnboundVariable("missing".to_string()));
    let r = ctx.eval(sym("a")).unwrap();
    assert!(eq_expr(&r, &num(1)));
}

#[test]
fn if_with_true_predicate_takes_then() {
    let mut ctx = Context::new();
    let form = Expr::If(Box::new(num(0)), Box::new(num(1)), Some(Box::new(num(2))));
    let r = ctx.eval(form).unwrap();
    assert!(eq_expr(&r, &num(1)));
}

#[test]
fn if_with_false_predicate_takes_otherwise() {
    let mut ctx = Context::new();
    let form = Expr::If(Box::new(Expr::Nil), Box::new(num(1)), Some(Box::new(num(2))));
    let r = ctx.eval(form).unwrap();
    assert!(eq_expr(&r, &num(2)));
}

#[test]
fn if_with_false_predicate_and_no_otherwise_fails() {
    let mut ctx = Context::new();
    let form = Expr::If(Box::new(Expr::Nil), Box::new(num(1)), None);
    let e = ctx.eval(form).unwrap_err();
    assert_eq!(e, Error::NoBranchTaken);
}

#[test]
fn quote_is_not_evaluated() {
    let mut ctx = Context::new();
    let q = Expr::Quote(vec![sym("missing"), num(1)]);
    let r = ctx.eval(q).unwrap();
    assert!(eq_expr(&r, &Expr::Quote(vec![sym("missing"), num(1)])));
}

#[test]
fn calling_a_non_callable_returns_the_callee() {
    let mut ctx = Context::new();
    let form = Expr::Call(Box::new(num(7)), vec![num(8), num(9)]);
    let r = ctx.eval(form).unwrap();
    assert!(eq_expr(&r, &num(7)));
}

#[test]
fn partial_application_yields_a_reduced_arity_function() {
    let mut ctx = Context::new();
    let f = Expr::Function(
        vec![sym("x"), sym("y")],
        Box::new(call(BuiltIn::Times, vec![sym("x"), sym("x")])),
    );
    let partial = ctx.eval(Expr::Call(Box::new(f), vec![num(5)])).unwrap();
    let expected = Expr::Function(
        vec![sym("y")],
        Box::new(call(BuiltIn::Times, vec![num(5), num(5)])),
    );
    assert!(eq_expr(&partial, &expected));
}

#[test]
fn body_referencing_an_unsupplied_parameter_position_fails() {
    let mut ctx = Context::new();
    let f = Expr::Function(
        vec![sym("x"), sym("y")],
        Box::new(call(BuiltIn::Plus, vec![sym("x"), sym("y")])),
    );
    let e = ctx.eval(Expr::Call(Box::new(f), vec![num(5)])).unwrap_err();
    assert_eq!(e, Error::SubstitutionIndexError);
}

#[test]
fn saturated_call_reduces_fully() {
    let mut ctx = Context::new();
    let f = Expr::Function(
        vec![sym("x"), sym("y")],
        Box::new(call(BuiltIn::Times, vec![sym("x"), sym("y")])),
    );
    let r = ctx.eval(Expr::Call(Box::new(f), vec![num(6), num(7)])).unwrap();
    assert!(eq_expr(&r, &num(42)));
}

#[test]
fn function_value_is_irreducible() {
    let mut ctx = Context::new();
    let f = Expr::Function(vec![sym("x")], Box::new(sym("x")));
    let r = ctx.eval(f).unwrap();
    let again = Expr::Function(vec![sym("x")], Box::new(sym("x")));
    assert!(eq_expr(&r, &again));
}

#[test]
fn long_chain_of_saturated_tail_calls_runs_in_bounded_stack() {
    let mut ctx = Context::new();
    let body = Expr::If(
        Box::new(call(BuiltIn::Equal, vec![sym("n"), num(0)])),
        Box::new(num(42)),
        Some(Box::new(Expr::Call(
            Box::new(sym("f")),
            vec![call(BuiltIn::Minus, vec![sym("n"), num(1)])],
        ))),
    );
    let f = Expr::Function(vec![sym("n")], Box::new(body));
    ctx.eval(let_one("f", f)).unwrap();
    let r = ctx.eval(Expr::Call(Box::new(sym("f")), vec![num(100_000)])).unwrap();
    assert!(eq_expr(&r, &num(42)));
}

#[test]
fn exhausted_budget_is_reported() {
    let mut ctx = Context::new();
    let e = ctx.eval_with_fuel(num(1), 0).unwrap_err();
    assert_eq!(e, Error::Exhausted);
}

#[test]
fn self_application_loop_exhausts_a_finite_budget() {
    let mut ctx = Context::new();
    let g = Expr::Function(
        vec![sym("x")],
        Box::new(Expr::Call(Box::new(sym("g")), vec![sym("x")])),
    );
    ctx.eval(let_one("g", g)).unwrap();
    let e = ctx
        .eval_with_fuel(Expr::Call(Box::new(sym("g")), vec![num(1)]), 1_000)
        .unwrap_err();
    assert_eq!(e, Error::Exhausted);
}

#[test]
fn default_context_starts_empty() {
    let mut ctx = Context::default();
    let e = ctx.eval(sym("anything")).unwrap_err();
    assert_eq!(e, Error::UnboundVariable("anything".to_string()));
}

#[test]
fn environment_persists_across_top_level_evaluations() {
    let mut ctx = Context::new();
    ctx.eval(let_one("a", num(2))).unwrap();
    ctx.eval(let_one("b", num(3))).unwrap();
    let r = ctx.eval(call(BuiltIn::Plus, vec![sym("a"), sym("b")])).unwrap();
    assert!(eq_expr(&r, &num(5)));
}
