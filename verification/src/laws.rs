//! Laws of the evaluation semantics, proved once and for all: the step
//! budget is immaterial to any reduction that completes, and the built-in
//! operators, conditionals, bindings and lookups behave as stated.

use vstd::prelude::*;

use crate::builtins::{apply_builtin_spec, fold_sub, product_wrapped, sum_wrapped};
use crate::coerce::{all_numbers, number_expr, numbers_of, truthy};
use crate::error::SpecError;
use crate::eval::{eval_args_spec, eval_let_spec, eval_spec, apply_spec};
use crate::expr::{BuiltIn, SpecAtom, SpecExpr};

verus! {

/// A completed reduction is unchanged by any larger fuel: the budget never
/// picks the outcome, only whether there is one.
pub proof fn lemma_eval_fuel_monotonic(
    env: Map<Seq<char>, SpecExpr>,
    e: SpecExpr,
    n: nat,
    m: nat,
)
    requires
        n <= m,
        eval_spec(env, e, n) is Some,
    ensures
        eval_spec(env, e, m) == eval_spec(env, e, n),
    decreases n, 0int,
{
    match e {
        SpecExpr::Let(bindings) => {
            lemma_let_fuel_monotonic(env, bindings, (n - 1) as nat, (m - 1) as nat);
        }
        SpecExpr::If(p, t, o) => {
            lemma_eval_fuel_monotonic(env, *p, (n - 1) as nat, (m - 1) as nat);
            match eval_spec(env, *p, (n - 1) as nat) {
                Some((Ok(v), env2)) => {
                    if truthy(v) {
                        lemma_eval_fuel_monotonic(env2, *t, (n - 1) as nat, (m - 1) as nat);
                    } else {
                        match o {
                            Some(b) => {
                                lemma_eval_fuel_monotonic(env2, *b, (n - 1) as nat, (m - 1) as nat);
                            }
                            None => {}
                        }
                    }
                }
                _ => {}
            }
        }
        SpecExpr::Call(h, args) => {
            lemma_eval_fuel_monotonic(env, *h, (n - 1) as nat, (m - 1) as nat);
            match eval_spec(env, *h, (n - 1) as nat) {
                Some((Ok(hv), env2)) => {
                    lemma_args_fuel_monotonic(env2, args, (n - 1) as nat, (m - 1) as nat);
                    match eval_args_spec(env2, args, (n - 1) as nat) {
                        Some((Ok(vs), env3)) => {
                            lemma_apply_fuel_monotonic(env3, hv, vs, (n - 1) as nat, (m - 1) as nat);
                        }
                        _ => {}
                    }
                }
                _ => {}
            }
        }
        _ => {}
    }
}

/// Fuel monotonicity for binding lists.
pub proof fn lemma_let_fuel_monotonic(
    env: Map<Seq<char>, SpecExpr>,
    bindings: Seq<(SpecAtom, SpecExpr)>,
    n: nat,
    m: nat,
)
    requires
        n <= m,
        eval_let_spec(env, bindings, n) is Some,
    ensures
        eval_let_spec(env, bindings, m) == eval_let_spec(env, bindings, n),
    decreases n, bindings.len() + 1,
{
    if bindings.len() > 0 {
        match bindings[0].0 {
            SpecAtom::Symbol(name) => {
                lemma_eval_fuel_monotonic(env, bindings[0].1, n, m);
                match eval_spec(env, bindings[0].1, n) {
                    Some((Ok(v), env2)) => {
                        lemma_let_fuel_monotonic(
                            env2.insert(name, v),
                            bindings.drop_first(),
                            n,
                            m,
                        );
                    }
                    _ => {}
                }
            }
            _ => {}
        }
    }
}

/// Fuel monotonicity for argument lists.
pub proof fn lemma_args_fuel_monotonic(
    env: Map<Seq<char>, SpecExpr>,
    es: Seq<SpecExpr>,
    n: nat,
    m: nat,
)
    requires
        n <= m,
        eval_args_spec(env, es, n) is Some,
    ensures
        eval_args_spec(env, es, m) == eval_args_spec(env, es, n),
    decreases n, es.len() + 1,
{
    if es.len() > 0 {
        lemma_eval_fuel_monotonic(env, es[0], n, m);
        match eval_spec(env, es[0], n) {
            Some((Ok(v), env2)) => {
                lemma_args_fuel_monotonic(env2, es.drop_first(), n, m);
            }
            _ => {}
        }
    }
}

/// Fuel monotonicity for call dispatch.
pub proof fn lemma_apply_fuel_monotonic(
    env: Map<Seq<char>, SpecExpr>,
    hv: SpecExpr,
    vs: Seq<SpecExpr>,
    n: nat,
    m: nat,
)
    requires
        n <= m,
        apply_spec(env, hv, vs, n) is Some,
    ensures
        apply_spec(env, hv, vs, m) == apply_spec(env, hv, vs, n),
    decreases n, 1int,
{
    match hv {
        SpecExpr::Function(params, body) => {
            let (res, marks) = crate::curry::curry_spec(
                *body,
                params,
                vs,
                Seq::new(params.len(), |i| false),
            );
            match res {
                Ok(newbody) => {
                    if crate::curry::residual_params(params, marks).len() == 0 {
                        lemma_eval_fuel_monotonic(env, newbody, n, m);
                    }
                }
                _ => {}
            }
        }
        _ => {}
    }
}

/// The call form applying one built-in operator to arguments.
pub open spec fn call_builtin(op: BuiltIn, args: Seq<SpecExpr>) -> SpecExpr {
    SpecExpr::Call(Box::new(SpecExpr::Constant(SpecAtom::BuiltIn(op))), args)
}

/// A list of irreducible numeric constants evaluates to itself, without
/// touching the environment.
pub proof fn lemma_eval_args_numbers(
    env: Map<Seq<char>, SpecExpr>,
    args: Seq<SpecExpr>,
    fuel: nat,
)
    requires
        fuel >= 1,
        all_numbers(args),
    ensures
        eval_args_spec(env, args, fuel) == Some(
            (Ok::<Seq<SpecExpr>, SpecError>(args), env),
        ),
    decreases args.len(),
{
    if args.len() > 0 {
        assert(eval_spec(env, args[0], fuel) == Some((Ok::<SpecExpr, SpecError>(args[0]), env)));
        assert(all_numbers(args.drop_first())) by {
            assert(forall|j: int|
                0 <= j < args.drop_first().len() ==> #[trigger] args.drop_first()[j] == args[j
                    + 1]);
        }
        lemma_eval_args_numbers(env, args.drop_first(), fuel);
        let x = seq![args[0]] + args.drop_first();
        assert(x =~= args);
        assert(x == args);
        assert(eval_args_spec(env, args, fuel) == Some((Ok::<Seq<SpecExpr>, SpecError>(x), env)));
        assert(eval_args_spec(env, args, fuel) == Some(
            (Ok::<Seq<SpecExpr>, SpecError>(args), env),
        ));
    } else {
        assert(args =~= Seq::<SpecExpr>::empty());
    }
}

/// Calling a built-in operator on numeric constants consults the operator
/// table and leaves the environment unchanged.
pub proof fn lemma_builtin_on_numbers(
    env: Map<Seq<char>, SpecExpr>,
    op: BuiltIn,
    args: Seq<SpecExpr>,
    fuel: nat,
)
    requires
        fuel >= 2,
        all_numbers(args),
    ensures
        eval_spec(env, call_builtin(op, args), fuel) == Some(
            (
                match apply_builtin_spec(op, args) {
                    Ok(v) => Ok::<SpecExpr, SpecError>(v),
                    Err(e) => Err::<SpecExpr, SpecError>(e),
                },
                env,
            ),
        ),
{
    let head = SpecExpr::Constant(SpecAtom::BuiltIn(op));
    let fm1 = (fuel - 1) as nat;
    assert(eval_spec(env, head, fm1) == Some((Ok::<SpecExpr, SpecError>(head), env)));
    lemma_eval_args_numbers(env, args, fm1);
    assert(apply_spec(env, head, args, fm1) == Some(
        (
            match apply_builtin_spec(op, args) {
                Ok(v) => Ok::<SpecExpr, SpecError>(v),
                Err(e) => Err::<SpecExpr, SpecError>(e),
            },
            env,
        ),
    ));
}

/// Summing a list of numeric constants yields the number standing for the
/// wrapped sum of the list.
pub proof fn lemma_sum_of_numbers(env: Map<Seq<char>, SpecExpr>, args: Seq<SpecExpr>, fuel: nat)
    requires
        fuel >= 2,
        all_numbers(args),
    ensures
        eval_spec(env, call_builtin(BuiltIn::Plus, args), fuel) == Some(
            (Ok::<SpecExpr, SpecError>(number_expr(sum_wrapped(numbers_of(args)))), env),
        ),
{
    lemma_builtin_on_numbers(env, BuiltIn::Plus, args, fuel);
}

/// Multiplying a list of numeric constants yields the number standing for
/// the wrapped product of the list.
pub proof fn lemma_product_of_numbers(
    env: Map<Seq<char>, SpecExpr>,
    args: Seq<SpecExpr>,
    fuel: nat,
)
    requires
        fuel >= 2,
        all_numbers(args),
    ensures
        eval_spec(env, call_builtin(BuiltIn::Times, args), fuel) == Some(
            (Ok::<SpecExpr, SpecError>(number_expr(product_wrapped(numbers_of(args)))), env),
        ),
{
    lemma_builtin_on_numbers(env, BuiltIn::Times, args, fuel);
}

/// A subtraction with a single argument returns that argument unchanged:
/// the fold over the empty remainder is the seed itself.
pub proof fn lemma_minus_single(env: Map<Seq<char>, SpecExpr>, n: int, fuel: nat)
    requires
        fuel >= 2,
    ensures
        eval_spec(env, call_builtin(BuiltIn::Minus, seq![number_expr(n)]), fuel) == Some(
            (Ok::<SpecExpr, SpecError>(number_expr(n)), env),
        ),
{
    let args = seq![number_expr(n)];
    assert(all_numbers(args));
    lemma_builtin_on_numbers(env, BuiltIn::Minus, args, fuel);
    assert(args.drop_first() =~= Seq::<SpecExpr>::empty());
    assert(numbers_of(args.drop_first()) =~= Seq::<int>::empty());
    assert(fold_sub(n, Seq::<int>::empty()) == n);
}

/// How a conditional reduces, given its predicate's outcome: a true
/// predicate continues with `then`, a false one with `otherwise`, and a
/// false one without `otherwise` fails with `NoBranchTaken`.
pub proof fn lemma_if_branches(
    env: Map<Seq<char>, SpecExpr>,
    p: SpecExpr,
    t: SpecExpr,
    o: Option<Box<SpecExpr>>,
    v: SpecExpr,
    env2: Map<Seq<char>, SpecExpr>,
    fuel: nat,
)
    requires
        fuel >= 1,
        eval_spec(env, p, (fuel - 1) as nat) == Some((Ok::<SpecExpr, SpecError>(v), env2)),
    ensures
        truthy(v) ==> eval_spec(env, SpecExpr::If(Box::new(p), Box::new(t), o), fuel)
            == eval_spec(env2, t, (fuel - 1) as nat),
        !truthy(v) && o is Some ==> eval_spec(env, SpecExpr::If(Box::new(p), Box::new(t), o), fuel)
            == eval_spec(env2, *o.unwrap(), (fuel - 1) as nat),
        !truthy(v) && o is None ==> eval_spec(env, SpecExpr::If(Box::new(p), Box::new(t), o), fuel)
            == Some((Err::<SpecExpr, SpecError>(SpecError::NoBranchTaken), env2)),
{
}

/// How a call dispatches once its head is a function value: a failed
/// substitution propagates; a substitution that consumes every parameter
/// continues reducing the substituted body; one that leaves residual
/// parameters yields the reduced-arity function, and the environment is
/// untouched either way.
pub proof fn lemma_function_application(
    env: Map<Seq<char>, SpecExpr>,
    params: Seq<SpecExpr>,
    body: SpecExpr,
    vs: Seq<SpecExpr>,
    fuel: nat,
)
    ensures
        ({
            let hv = SpecExpr::Function(params, Box::new(body));
            let (res, marks) = crate::curry::curry_spec(
                body,
                params,
                vs,
                Seq::new(params.len(), |i| false),
            );
            match res {
                Err(e) => apply_spec(env, hv, vs, fuel) == Some(
                    (Err::<SpecExpr, SpecError>(e), env),
                ),
                Ok(newbody) => {
                    let rest = crate::curry::residual_params(params, marks);
                    &&& rest.len() > 0 ==> apply_spec(env, hv, vs, fuel) == Some(
                        (
                            Ok::<SpecExpr, SpecError>(
                                SpecExpr::Function(rest, Box::new(newbody)),
                            ),
                            env,
                        ),
                    )
                    &&& rest.len() == 0 ==> apply_spec(env, hv, vs, fuel) == eval_spec(
                        env,
                        newbody,
                        fuel,
                    )
                },
            }
        }),
{
}

/// Calling a value that is neither a function nor a built-in operator is
/// not an error: the call returns the callee unchanged, discarding the
/// arguments.
pub proof fn lemma_call_non_callable(
    env: Map<Seq<char>, SpecExpr>,
    hv: SpecExpr,
    vs: Seq<SpecExpr>,
    fuel: nat,
)
    requires
        !(hv matches SpecExpr::Function(_, _)),
        !(hv matches SpecExpr::Constant(SpecAtom::BuiltIn(_))),
    ensures
        apply_spec(env, hv, vs, fuel) == Some((Ok::<SpecExpr, SpecError>(hv), env)),
{
}

/// Looking up a symbol that is not bound fails with `UnboundVariable` and
/// leaves the environment unchanged.
pub proof fn lemma_unbound_symbol(env: Map<Seq<char>, SpecExpr>, name: Seq<char>, fuel: nat)
    requires
        fuel >= 1,
        !env.contains_key(name),
    ensures
        eval_spec(env, SpecExpr::Constant(SpecAtom::Symbol(name)), fuel) == Some(
            (Err::<SpecExpr, SpecError>(SpecError::UnboundVariable(name)), env),
        ),
{
}

/// Looking up a bound symbol returns the stored expression and leaves the
/// environment unchanged.
pub proof fn lemma_bound_symbol(env: Map<Seq<char>, SpecExpr>, name: Seq<char>, fuel: nat)
    requires
        fuel >= 1,
        env.contains_key(name),
    ensures
        eval_spec(env, SpecExpr::Constant(SpecAtom::Symbol(name)), fuel) == Some(
            (Ok::<SpecExpr, SpecError>(env[name]), env),
        ),
{
}

/// A single-binding `Let` stores the evaluated right-hand side under its
/// name — overwriting any prior binding, since the environment maps each
/// name to one expression — and yields `Nil`.
pub proof fn lemma_let_single(
    env: Map<Seq<char>, SpecExpr>,
    name: Seq<char>,
    rhs: SpecExpr,
    v: SpecExpr,
    env2: Map<Seq<char>, SpecExpr>,
    fuel: nat,
)
    requires
        fuel >= 2,
        eval_spec(env, rhs, (fuel - 1) as nat) == Some((Ok::<SpecExpr, SpecError>(v), env2)),
    ensures
        eval_spec(env, SpecExpr::Let(seq![(SpecAtom::Symbol(name), rhs)]), fuel) == Some(
            (Ok::<SpecExpr, SpecError>(SpecExpr::Nil), env2.insert(name, v)),
        ),
{
    let bindings = seq![(SpecAtom::Symbol(name), rhs)];
    let fm1 = (fuel - 1) as nat;
    assert(bindings[0] == (SpecAtom::Symbol(name), rhs));
    assert(eval_spec(env, bindings[0].1, fm1) == Some((Ok::<SpecExpr, SpecError>(v), env2)));
    assert(bindings.drop_first() =~= Seq::<(SpecAtom, SpecExpr)>::empty());
    assert(eval_let_spec(env2.insert(name, v), bindings.drop_first(), fm1) == Some(
        (Ok::<SpecExpr, SpecError>(SpecExpr::Nil), env2.insert(name, v)),
    ));
    assert(eval_let_spec(env, bindings, fm1) == Some(
        (Ok::<SpecExpr, SpecError>(SpecExpr::Nil), env2.insert(name, v)),
    ));
}

} // verus!
