//! The built-in operator table: arithmetic, comparison, and logical
//! operators evaluated over already-reduced argument lists.
//!
//! Arithmetic is two's-complement wrapping over signed 32-bit numbers;
//! division by zero is reported as an error rather than a crash.

use vstd::prelude::*;

use crate::coerce::{
    all_numbers, boolean_expr, boolean_to_expr, expr_to_boolean, expr_to_number, is_number,
    number_expr, number_of, number_to_expr, numbers, numbers_from, numbers_of,
};
use crate::error::{result_matches, Error, SpecError};
use crate::expr::{eq_expr, lemma_view_exprs, view_exprs, BuiltIn, Expr, SpecExpr};

verus! {

/// The number `x` reduced to the signed 32-bit range by wrapping.
pub open spec fn wrap32(x: int) -> int {
    vstd::wrapping::i32_specs::signed_crop(x) as int
}

/// Wrapping 32-bit addition.
pub open spec fn wrap_add(a: int, b: int) -> int {
    wrap32(a + b)
}

/// Wrapping 32-bit subtraction.
pub open spec fn wrap_sub(a: int, b: int) -> int {
    wrap32(a - b)
}

/// Wrapping 32-bit multiplication.
pub open spec fn wrap_mul(a: int, b: int) -> int {
    wrap32(a * b)
}

/// Division truncated toward zero, as the host's native operator rounds.
pub open spec fn div_trunc(a: int, b: int) -> int
    recommends
        b != 0,
{
    let q = vstd::math::abs(a) as int / vstd::math::abs(b) as int;
    if (a < 0) != (b < 0) {
        -q
    } else {
        q
    }
}

/// Wrapping 32-bit division, truncated toward zero.
pub open spec fn wrap_div(a: int, b: int) -> int
    recommends
        b != 0,
{
    wrap32(div_trunc(a, b))
}

/// The wrapped sum of a sequence of numbers, folded left from zero.
pub open spec fn sum_wrapped(ns: Seq<int>) -> int
    decreases ns.len(),
{
    if ns.len() == 0 {
        0
    } else {
        wrap_add(sum_wrapped(ns.drop_last()), ns.last())
    }
}

/// The wrapped product of a sequence of numbers, folded left from one.
pub open spec fn product_wrapped(ns: Seq<int>) -> int
    decreases ns.len(),
{
    if ns.len() == 0 {
        1
    } else {
        wrap_mul(product_wrapped(ns.drop_last()), ns.last())
    }
}

/// The seed with every number of the sequence subtracted in turn.
pub open spec fn fold_sub(seed: int, ns: Seq<int>) -> int
    decreases ns.len(),
{
    if ns.len() == 0 {
        seed
    } else {
        fold_sub(wrap_sub(seed, ns[0]), ns.drop_first())
    }
}

/// The seed divided by every number of the sequence in turn; a zero divisor
/// anywhere is a division error.
pub open spec fn fold_div(seed: int, ns: Seq<int>) -> Result<int, SpecError>
    decreases ns.len(),
{
    if ns.len() == 0 {
        Ok(seed)
    } else if ns[0] == 0 {
        Err(SpecError::DivisionByZero)
    } else {
        fold_div(wrap_div(seed, ns[0]), ns.drop_first())
    }
}

/// The mathematical sum of a sequence of numbers.
pub open spec fn sum_plain(ns: Seq<int>) -> int
    decreases ns.len(),
{
    if ns.len() == 0 {
        0
    } else {
        sum_plain(ns.drop_last()) + ns.last()
    }
}

/// When no intermediate sum leaves the signed 32-bit range, the wrapped sum
/// is the mathematical sum.
pub proof fn lemma_sum_wrapped_is_plain(ns: Seq<int>)
    requires
        forall|k: int|
            0 <= k <= ns.len() ==> -0x8000_0000 <= sum_plain(#[trigger] ns.take(k)) < 0x8000_0000,
    ensures
        sum_wrapped(ns) == sum_plain(ns),
    decreases ns.len(),
{
    if ns.len() > 0 {
        let d = ns.drop_last();
        assert forall|k: int| 0 <= k <= d.len() implies -0x8000_0000 <= sum_plain(
            #[trigger] d.take(k),
        ) < 0x8000_0000 by {
            assert(d.take(k) =~= ns.take(k));
        }
        lemma_sum_wrapped_is_plain(d);
        assert(ns.take(ns.len() as int) =~= ns);
        assert(d.take(d.len() as int) =~= d);
        lemma_wrap32_small(sum_plain(d) + ns.last());
    }
}

/// Whether one numeric comparison holds of a pair; a pair that is not two
/// numbers never satisfies the relation.
pub open spec fn num_rel_holds(op: BuiltIn, a: SpecExpr, b: SpecExpr) -> bool {
    &&& is_number(a)
    &&& is_number(b)
    &&& match op {
        BuiltIn::Less => number_of(a) < number_of(b),
        BuiltIn::Greater => number_of(a) > number_of(b),
        BuiltIn::LessEqual => number_of(a) <= number_of(b),
        BuiltIn::GreaterEqual => number_of(a) >= number_of(b),
        _ => false,
    }
}

/// Whether a numeric comparison holds of every adjacent pair of the list.
pub open spec fn chain_holds(op: BuiltIn, es: Seq<SpecExpr>) -> bool {
    forall|i: int| 0 <= i < es.len() - 1 ==> num_rel_holds(op, #[trigger] es[i], es[i + 1])
}

/// Whether every adjacent pair of the list is structurally equal.
pub open spec fn all_adjacent_equal(es: Seq<SpecExpr>) -> bool {
    forall|i: int| 0 <= i < es.len() - 1 ==> #[trigger] es[i] == es[i + 1]
}

/// Whether every adjacent pair of the list is structurally unequal.
pub open spec fn all_adjacent_unequal(es: Seq<SpecExpr>) -> bool {
    forall|i: int| 0 <= i < es.len() - 1 ==> #[trigger] es[i] != es[i + 1]
}

/// Whether every expression of the list is truthy.
pub open spec fn all_truthy(es: Seq<SpecExpr>) -> bool {
    forall|i: int| 0 <= i < es.len() ==> crate::coerce::truthy(#[trigger] es[i])
}

/// Whether some expression of the list is truthy.
pub open spec fn any_truthy(es: Seq<SpecExpr>) -> bool {
    exists|i: int| 0 <= i < es.len() && crate::coerce::truthy(#[trigger] es[i])
}

/// What each built-in operator returns over an already-reduced argument
/// list, or the error it fails with.
pub open spec fn apply_builtin_spec(op: BuiltIn, tail: Seq<SpecExpr>) -> Result<
    SpecExpr,
    SpecError,
> {
    match op {
        BuiltIn::Plus => if all_numbers(tail) {
            Ok(number_expr(sum_wrapped(numbers_of(tail))))
        } else {
            Err(SpecError::TypeError)
        },
        BuiltIn::Times => if all_numbers(tail) {
            Ok(number_expr(product_wrapped(numbers_of(tail))))
        } else {
            Err(SpecError::TypeError)
        },
        BuiltIn::Minus => if tail.len() == 0 || !is_number(tail[0]) {
            Err(SpecError::ArityError)
        } else if !all_numbers(tail.drop_first()) {
            Err(SpecError::TypeError)
        } else {
            Ok(number_expr(fold_sub(number_of(tail[0]), numbers_of(tail.drop_first()))))
        },
        BuiltIn::Divide => if tail.len() == 0 || !is_number(tail[0]) {
            Err(SpecError::ArityError)
        } else if !all_numbers(tail.drop_first()) {
            Err(SpecError::TypeError)
        } else {
            match fold_div(number_of(tail[0]), numbers_of(tail.drop_first())) {
                Ok(v) => Ok(number_expr(v)),
                Err(e) => Err(e),
            }
        },
        BuiltIn::Equal => Ok(boolean_expr(all_adjacent_equal(tail))),
        BuiltIn::NotEqual => Ok(boolean_expr(all_adjacent_unequal(tail))),
        BuiltIn::Less | BuiltIn::Greater | BuiltIn::LessEqual | BuiltIn::GreaterEqual => Ok(
            boolean_expr(chain_holds(op, tail)),
        ),
        BuiltIn::And => Ok(boolean_expr(all_truthy(tail))),
        BuiltIn::Or => Ok(boolean_expr(any_truthy(tail))),
        BuiltIn::Not => if tail.len() == 1 {
            Ok(boolean_expr(!crate::coerce::truthy(tail[0])))
        } else {
            Err(SpecError::ArityError)
        },
    }
}

/// `signed_crop` leaves a number already in the signed 32-bit range alone.
pub proof fn lemma_wrap32_small(x: int)
    requires
        -0x8000_0000 <= x < 0x8000_0000,
    ensures
        wrap32(x) == x,
{
    if x >= 0 {
        assert(x % 0x1_0000_0000 == x);
    } else {
        assert(x % 0x1_0000_0000 == x + 0x1_0000_0000);
    }
}

/// The standard library's wrapping addition computes `wrap_add`.
proof fn lemma_wrapping_add(a: i32, b: i32)
    ensures
        vstd::wrapping::i32_specs::wrapping_add(a, b) as int == wrap_add(a as int, b as int),
{
    let x = a as int + b as int;
    if x > i32::MAX as int {
        assert(x % 0x1_0000_0000 == x);
    } else if x < i32::MIN as int {
        assert(x % 0x1_0000_0000 == x + 0x1_0000_0000);
    } else {
        lemma_wrap32_small(x);
    }
}

/// The standard library's wrapping subtraction computes `wrap_sub`.
proof fn lemma_wrapping_sub(a: i32, b: i32)
    ensures
        vstd::wrapping::i32_specs::wrapping_sub(a, b) as int == wrap_sub(a as int, b as int),
{
    let x = a as int - b as int;
    if x > i32::MAX as int {
        assert(x % 0x1_0000_0000 == x);
    } else if x < i32::MIN as int {
        assert(x % 0x1_0000_0000 == x + 0x1_0000_0000);
    } else {
        lemma_wrap32_small(x);
    }
}

/// Wrapping 32-bit addition, executable.
fn wadd(a: i32, b: i32) -> (r: i32)
    ensures
        r as int == wrap_add(a as int, b as int),
{
    proof {
        lemma_wrapping_add(a, b);
    }
    a.wrapping_add(b)
}

/// Wrapping 32-bit subtraction, executable.
fn wsub(a: i32, b: i32) -> (r: i32)
    ensures
        r as int == wrap_sub(a as int, b as int),
{
    proof {
        lemma_wrapping_sub(a, b);
    }
    a.wrapping_sub(b)
}

/// Wrapping 32-bit multiplication, executable.
fn wmul(a: i32, b: i32) -> (r: i32)
    ensures
        r as int == wrap_mul(a as int, b as int),
{
    a.wrapping_mul(b)
}

/// Wrapping 32-bit division truncated toward zero, executable.
fn wdiv(a: i32, b: i32) -> (r: i32)
    requires
        b != 0,
    ensures
        r as int == wrap_div(a as int, b as int),
{
    if a == i32::MIN && b == -1 {
        proof {
            assert(div_trunc(a as int, b as int) == 0x8000_0000) by {
                assert(vstd::math::abs(a as int) == 0x8000_0000nat);
                assert(vstd::math::abs(b as int) == 1nat);
            }
            assert(0x8000_0000int % 0x1_0000_0000 == 0x8000_0000);
        }
        return i32::MIN;
    }
    let neg = (a < 0) != (b < 0);
    let ua: u32 = if a >= 0 {
        a as u32
    } else {
        (-(a as i64)) as u32
    };
    let ub: u32 = if b >= 0 {
        b as u32
    } else {
        (-(b as i64)) as u32
    };
    proof {
        assert(ua as int == vstd::math::abs(a as int));
        assert(ub as int == vstd::math::abs(b as int));
    }
    let q = ua / ub;
    proof {
        assert(q as int * ub as int <= ua as int && q as int <= ua as int) by (nonlinear_arith)
            requires
                ub >= 1,
                q as int == ua as int / ub as int,
                ua >= 0,
        ;
        if ua == 0x8000_0000u32 && ub >= 2 {
            assert(q as int <= 0x4000_0000) by (nonlinear_arith)
                requires
                    ub >= 2,
                    q as int == ua as int / ub as int,
                    ua == 0x8000_0000u32,
            ;
        }
    }
    if neg {
        let r = (-(q as i64)) as i32;
        proof {
            lemma_wrap32_small(div_trunc(a as int, b as int));
        }
        r
    } else {
        proof {
            if a < 0 {
                assert(b < 0);
                if ua == 0x8000_0000u32 {
                    assert(a == i32::MIN);
                    assert(b != -1);
                    assert(ub >= 2);
                }
            }
            assert(q < 0x8000_0000u32);
            lemma_wrap32_small(div_trunc(a as int, b as int));
        }
        q as i32
    }
}

/// Applies one built-in operator to an already-reduced argument list.
#[verifier::loop_isolation(false)]
#[verifier::rlimit(60)]
pub fn apply_builtin(op: BuiltIn, tail: &Vec<Expr>) -> (r: Result<Expr, Error>)
    ensures
        result_matches(r, apply_builtin_spec(op, view_exprs(*tail))),
{
    proof {
        lemma_view_exprs(*tail);
    }
    let ghost full = view_exprs(*tail);
    match op {
        BuiltIn::Plus => {
            let ns = match numbers(tail) {
                Ok(ns) => ns,
                Err(e) => {
                    return Err(e);
                }
            };
            let ghost s = numbers_of(full);
            let mut acc: i32 = 0;
            let mut i: usize = 0;
            while i < ns.len()
                invariant
                    0 <= i <= ns.len(),
                    acc as int == sum_wrapped(s.take(i as int)),
                decreases ns.len() - i,
            {
                proof {
                    assert(s.take(i + 1).drop_last() =~= s.take(i as int));
                    assert(s.take(i + 1).last() == s[i as int]);
                }
                acc = wadd(acc, ns[i]);
                i += 1;
            }
            proof {
                assert(s.take(ns@.len() as int) =~= s);
            }
            Ok(number_to_expr(acc))
        }
        BuiltIn::Times => {
            let ns = match numbers(tail) {
                Ok(ns) => ns,
                Err(e) => {
                    return Err(e);
                }
            };
            let ghost s = numbers_of(full);
            let mut acc: i32 = 1;
            let mut i: usize = 0;
            while i < ns.len()
                invariant
                    0 <= i <= ns.len(),
                    acc as int == product_wrapped(s.take(i as int)),
                decreases ns.len() - i,
            {
                proof {
                    assert(s.take(i + 1).drop_last() =~= s.take(i as int));
                    assert(s.take(i + 1).last() == s[i as int]);
                }
                acc = wmul(acc, ns[i]);
                i += 1;
            }
            proof {
                assert(s.take(ns@.len() as int) =~= s);
            }
            Ok(number_to_expr(acc))
        }
        BuiltIn::Minus => {
            if tail.len() == 0 {
                return Err(Error::ArityError);
            }
            let seed = match expr_to_number(&tail[0]) {
                Ok(n) => n,
                Err(_) => {
                    return Err(Error::ArityError);
                }
            };
            let ns = match numbers_from(tail, 1) {
                Ok(ns) => ns,
                Err(e) => {
                    proof {
                        assert(full.skip(1) =~= full.drop_first());
                    }
                    return Err(e);
                }
            };
            let ghost s = numbers_of(full.drop_first());
            proof {
                assert(full.skip(1) =~= full.drop_first());
                assert(forall|j: int|
                    0 <= j < s.len() ==> #[trigger] s[j] == number_of(full.drop_first()[j]));
                assert(forall|j: int| 0 <= j < ns@.len() ==> ns@[j] as int == s[j]);
                assert(s.skip(0) =~= s);
            }
            let mut acc: i32 = seed;
            let mut i: usize = 0;
            while i < ns.len()
                invariant
                    0 <= i <= ns.len(),
                    fold_sub(seed as int, s) == fold_sub(acc as int, s.skip(i as int)),
                decreases ns.len() - i,
            {
                proof {
                    let rest = s.skip(i as int);
                    assert(rest[0] == s[i as int]);
                    assert(rest.drop_first() =~= s.skip(i + 1));
                }
                acc = wsub(acc, ns[i]);
                i += 1;
            }
            proof {
                assert(s.skip(ns@.len() as int) =~= Seq::<int>::empty());
            }
            Ok(number_to_expr(acc))
        }
        BuiltIn::Divide => {
            if tail.len() == 0 {
                return Err(Error::ArityError);
            }
            let seed = match expr_to_number(&tail[0]) {
                Ok(n) => n,
                Err(_) => {
                    return Err(Error::ArityError);
                }
            };
            let ns = match numbers_from(tail, 1) {
                Ok(ns) => ns,
                Err(e) => {
                    proof {
                        assert(full.skip(1) =~= full.drop_first());
                    }
                    return Err(e);
                }
            };
            let ghost s = numbers_of(full.drop_first());
            proof {
                assert(full.skip(1) =~= full.drop_first());
                assert(forall|j: int|
                    0 <= j < s.len() ==> #[trigger] s[j] == number_of(full.drop_first()[j]));
                assert(forall|j: int| 0 <= j < ns@.len() ==> ns@[j] as int == s[j]);
                assert(s.skip(0) =~= s);
            }
            let mut acc: i32 = seed;
            let mut i: usize = 0;
            while i < ns.len()
                invariant
                    0 <= i <= ns.len(),
                    fold_div(seed as int, s) == fold_div(acc as int, s.skip(i as int)),
                decreases ns.len() - i,
            {
                proof {
                    let rest = s.skip(i as int);
                    assert(rest[0] == s[i as int]);
                    assert(rest.drop_first() =~= s.skip(i + 1));
                }
                if ns[i] == 0 {
                    return Err(Error::DivisionByZero);
                }
                acc = wdiv(acc, ns[i]);
                i += 1;
            }
            proof {
                assert(s.skip(ns@.len() as int) =~= Seq::<int>::empty());
            }
            Ok(number_to_expr(acc))
        }
        BuiltIn::Equal => {
            if tail.len() > 0 {
                let mut i: usize = 0;
                while i + 1 < tail.len()
                    invariant
                        0 <= i <= tail.len() - 1,
                        forall|j: int| 0 <= j < i ==> #[trigger] full[j] == full[j + 1],
                    decreases tail.len() - i,
                {
                    if !eq_expr(&tail[i], &tail[i + 1]) {
                        proof {
                            assert(full[i as int] != full[i + 1]);
                        }
                        return Ok(boolean_to_expr(false));
                    }
                    i += 1;
                }
            }
            Ok(boolean_to_expr(true))
        }
        BuiltIn::NotEqual => {
            if tail.len() > 0 {
                let mut i: usize = 0;
                while i + 1 < tail.len()
                    invariant
                        0 <= i <= tail.len() - 1,
                        forall|j: int| 0 <= j < i ==> #[trigger] full[j] != full[j + 1],
                    decreases tail.len() - i,
                {
                    if eq_expr(&tail[i], &tail[i + 1]) {
                        proof {
                            assert(full[i as int] == full[i + 1]);
                        }
                        return Ok(boolean_to_expr(false));
                    }
                    i += 1;
                }
            }
            Ok(boolean_to_expr(true))
        }
        BuiltIn::Less | BuiltIn::Greater | BuiltIn::LessEqual | BuiltIn::GreaterEqual => {
            let r = compare_chain(op, tail);
            Ok(boolean_to_expr(r))
        }
        BuiltIn::And => {
            let mut i: usize = 0;
            while i < tail.len()
                invariant
                    0 <= i <= tail.len(),
                    forall|j: int| 0 <= j < i ==> crate::coerce::truthy(#[trigger] full[j]),
                decreases tail.len() - i,
            {
                if !expr_to_boolean(&tail[i]) {
                    proof {
                        assert(!crate::coerce::truthy(full[i as int]));
                    }
                    return Ok(boolean_to_expr(false));
                }
                i += 1;
            }
            Ok(boolean_to_expr(true))
        }
        BuiltIn::Or => {
            let mut i: usize = 0;
            while i < tail.len()
                invariant
                    0 <= i <= tail.len(),
                    forall|j: int| 0 <= j < i ==> !crate::coerce::truthy(#[trigger] full[j]),
                decreases tail.len() - i,
            {
                if expr_to_boolean(&tail[i]) {
                    proof {
                        assert(crate::coerce::truthy(full[i as int]));
                    }
                    return Ok(boolean_to_expr(true));
                }
                i += 1;
            }
            proof {
                assert(!any_truthy(full));
            }
            Ok(boolean_to_expr(false))
        }
        BuiltIn::Not => {
            if tail.len() == 1 {
                let b = expr_to_boolean(&tail[0]);
                Ok(boolean_to_expr(!b))
            } else {
                Err(Error::ArityError)
            }
        }
    }
}

/// Whether the chained numeric comparison holds of every adjacent pair.
#[verifier::loop_isolation(false)]
fn compare_chain(op: BuiltIn, tail: &Vec<Expr>) -> (r: bool)
    requires
        op == BuiltIn::Less || op == BuiltIn::Greater || op == BuiltIn::LessEqual || op
            == BuiltIn::GreaterEqual,
    ensures
        r == chain_holds(op, view_exprs(*tail)),
{
    proof {
        lemma_view_exprs(*tail);
    }
    let ghost full = view_exprs(*tail);
    if tail.len() > 0 {
        let mut i: usize = 0;
        while i + 1 < tail.len()
            invariant
                0 <= i <= tail.len() - 1,
                forall|j: int| 0 <= j < i ==> num_rel_holds(op, #[trigger] full[j], full[j + 1]),
            decreases tail.len() - i,
        {
            let a = expr_to_number(&tail[i]);
            let b = expr_to_number(&tail[i + 1]);
            let pair_ok = match (a, b) {
                (Ok(x), Ok(y)) => match op {
                    BuiltIn::Less => x < y,
                    BuiltIn::Greater => x > y,
                    BuiltIn::LessEqual => x <= y,
                    _ => x >= y,
                },
                _ => false,
            };
            if !pair_ok {
                proof {
                    assert(!num_rel_holds(op, full[i as int], full[i + 1]));
                }
                return false;
            }
            i += 1;
        }
    }
    true
}

} // verus!
