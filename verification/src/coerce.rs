//! Coercion helpers: conversions between expressions and primitive
//! number/boolean values, including the language's truthiness rule, and the
//! classic list accessors `car` and `cdr`.

use vstd::prelude::*;

use crate::error::{Error, SpecError};
use crate::expr::{lemma_view_exprs, view_exprs, Atom, Expr, SpecAtom, SpecExpr};

verus! {

/// Whether an expression is a numeric constant.
pub open spec fn is_number(e: SpecExpr) -> bool {
    match e {
        SpecExpr::Constant(SpecAtom::Number(_)) => true,
        _ => false,
    }
}

/// The numeric value of a numeric constant.
pub open spec fn number_of(e: SpecExpr) -> int
    recommends
        is_number(e),
{
    match e {
        SpecExpr::Constant(SpecAtom::Number(n)) => n,
        _ => 0,
    }
}

/// The language's truthiness rule: `Nil` and the empty quote are false;
/// every other expression (including the number zero) is true.
pub open spec fn truthy(e: SpecExpr) -> bool {
    match e {
        SpecExpr::Nil => false,
        SpecExpr::Quote(items) => items.len() != 0,
        _ => true,
    }
}

/// The expression standing for a number.
pub open spec fn number_expr(n: int) -> SpecExpr {
    SpecExpr::Constant(SpecAtom::Number(n))
}

/// The expression standing for a boolean: `Nil` for false, the symbol `T`
/// for true.
pub open spec fn boolean_expr(b: bool) -> SpecExpr {
    if b {
        SpecExpr::Constant(SpecAtom::Symbol("T"@))
    } else {
        SpecExpr::Nil
    }
}

/// Whether every expression of the sequence is a numeric constant.
pub open spec fn all_numbers(es: Seq<SpecExpr>) -> bool {
    forall|i: int| 0 <= i < es.len() ==> is_number(#[trigger] es[i])
}

/// The numeric values of a sequence of numeric constants.
pub open spec fn numbers_of(es: Seq<SpecExpr>) -> Seq<int>
    recommends
        all_numbers(es),
{
    Seq::new(es.len(), |i: int| number_of(es[i]))
}

/// The truthiness of every expression of a sequence.
pub open spec fn booleans_of(es: Seq<SpecExpr>) -> Seq<bool> {
    Seq::new(es.len(), |i: int| truthy(es[i]))
}

/// Extracts the numeric value of a numeric constant; any other shape is a
/// type error.
pub fn expr_to_number(expr: &Expr) -> (r: Result<i32, Error>)
    ensures
        match r {
            Ok(n) => is_number(expr@) && n as int == number_of(expr@),
            Err(e) => !is_number(expr@) && e@ == SpecError::TypeError,
        },
{
    match expr {
        Expr::Constant(Atom::Number(it)) => Ok(*it),
        _ => Err(Error::TypeError),
    }
}

/// Wraps a number as an expression.
pub fn number_to_expr(number: i32) -> (r: Expr)
    ensures
        r@ == number_expr(number as int),
{
    Expr::Constant(Atom::Number(number))
}

/// Coerces any expression to a boolean by the truthiness rule.
pub fn expr_to_boolean(expr: &Expr) -> (r: bool)
    ensures
        r == truthy(expr@),
{
    match expr {
        Expr::Nil => false,
        Expr::Quote(items) => {
            proof {
                lemma_view_exprs(*items);
            }
            items.len() != 0
        }
        _ => true,
    }
}

/// Wraps a boolean as an expression: `Nil` for false, the symbol `T` for
/// true.
pub fn boolean_to_expr(boolean: bool) -> (r: Expr)
    ensures
        r@ == boolean_expr(boolean),
{
    match boolean {
        false => Expr::Nil,
        true => Expr::Constant(Atom::Symbol("T".to_owned())),
    }
}

/// Coerces every expression of the list to a number, stopping at the first
/// expression that is not one.
pub fn numbers(tail: &Vec<Expr>) -> (r: Result<Vec<i32>, Error>)
    ensures
        match r {
            Ok(ns) => {
                &&& all_numbers(view_exprs(*tail))
                &&& ns@.len() == tail@.len()
                &&& forall|i: int|
                    0 <= i < ns@.len() ==> ns@[i] as int == number_of(view_exprs(*tail)[i])
            },
            Err(e) => !all_numbers(view_exprs(*tail)) && e@ == SpecError::TypeError,
        },
{
    proof {
        lemma_view_exprs(*tail);
    }
    let mut out: Vec<i32> = Vec::new();
    let n = tail.len();
    let mut i: usize = 0;
    while i < n
        invariant
            n == tail.len(),
            0 <= i <= n,
            out.len() == i,
            view_exprs(*tail).len() == n,
            forall|j: int| 0 <= j < n ==> view_exprs(*tail)[j] == crate::expr::view_expr(tail[j]),
            forall|j: int| 0 <= j < i ==> is_number(#[trigger] view_exprs(*tail)[j]),
            forall|j: int| 0 <= j < i ==> out@[j] as int == number_of(view_exprs(*tail)[j]),
        decreases n - i,
    {
        match expr_to_number(&tail[i]) {
            Ok(v) => out.push(v),
            Err(e) => {
                proof {
                    assert(!is_number(view_exprs(*tail)[i as int]));
                }
                return Err(e);
            }
        }
        i += 1;
    }
    Ok(out)
}

/// Coerces every expression of the list after `start` to a number, stopping
/// at the first expression that is not one.
pub fn numbers_from(tail: &Vec<Expr>, start: usize) -> (r: Result<Vec<i32>, Error>)
    requires
        start <= tail.len(),
    ensures
        match r {
            Ok(ns) => {
                &&& all_numbers(view_exprs(*tail).skip(start as int))
                &&& ns@.len() == tail@.len() - start
                &&& forall|i: int|
                    0 <= i < ns@.len() ==> ns@[i] as int == number_of(
                        view_exprs(*tail)[start + i],
                    )
            },
            Err(e) => !all_numbers(view_exprs(*tail).skip(start as int)) && e@
                == SpecError::TypeError,
        },
{
    proof {
        lemma_view_exprs(*tail);
    }
    let ghost full = view_exprs(*tail);
    let mut out: Vec<i32> = Vec::new();
    let n = tail.len();
    let mut i: usize = start;
    while i < n
        invariant
            n == tail.len(),
            start <= i <= n,
            out.len() == i - start,
            full == view_exprs(*tail),
            full.len() == n,
            forall|j: int| 0 <= j < n ==> full[j] == crate::expr::view_expr(tail[j]),
            forall|j: int| start <= j < i ==> is_number(#[trigger] full[j]),
            forall|j: int| 0 <= j < out@.len() ==> out@[j] as int == number_of(full[start + j]),
        decreases n - i,
    {
        match expr_to_number(&tail[i]) {
            Ok(v) => out.push(v),
            Err(e) => {
                proof {
                    assert(full.skip(start as int)[i - start] == full[i as int]);
                    assert(!is_number(full.skip(start as int)[i - start]));
                }
                return Err(e);
            }
        }
        i += 1;
    }
    proof {
        assert(forall|j: int|
            0 <= j < full.skip(start as int).len() ==> #[trigger] full.skip(start as int)[j]
                == full[start + j]);
    }
    Ok(out)
}

/// Coerces every expression of the list to a boolean by the truthiness rule.
pub fn booleans(tail: &Vec<Expr>) -> (r: Vec<bool>)
    ensures
        r@.len() == tail@.len(),
        forall|i: int| 0 <= i < r@.len() ==> r@[i] == truthy(view_exprs(*tail)[i]),
{
    proof {
        lemma_view_exprs(*tail);
    }
    let mut out: Vec<bool> = Vec::new();
    let n = tail.len();
    let mut i: usize = 0;
    while i < n
        invariant
            n == tail.len(),
            0 <= i <= n,
            out.len() == i,
            view_exprs(*tail).len() == n,
            forall|j: int| 0 <= j < n ==> view_exprs(*tail)[j] == crate::expr::view_expr(tail[j]),
            forall|j: int| 0 <= j < i ==> out@[j] == truthy(#[trigger] view_exprs(*tail)[j]),
        decreases n - i,
    {
        let b = expr_to_boolean(&tail[i]);
        out.push(b);
        i += 1;
    }
    out
}

/// The first element of a list, if any.
pub fn car<T>(tail: &[T]) -> (r: Option<&T>)
    ensures
        match r {
            Some(x) => tail@.len() > 0 && *x == tail@[0],
            None => tail@.len() == 0,
        },
{
    tail.first()
}

/// Everything after the first element, or nothing for an empty list.
pub fn cdr<T>(tail: &[T]) -> (r: Option<&[T]>)
    ensures
        match r {
            Some(rest) => tail@.len() > 0 && rest@ == tail@.skip(1),
            None => tail@.len() == 0,
        },
{
    if tail.len() > 0 {
        let (_, rest) = tail.split_at(1);
        proof {
            assert(rest@ =~= tail@.skip(1));
        }
        Some(rest)
    } else {
        None
    }
}

} // verus!
