//! The curry/substitution engine: positional replacement of
//! parameter-symbol occurrences in a function body with the corresponding
//! supplied argument values, tracking which parameters were consumed.

use vstd::prelude::*;

use crate::error::{Error, SpecError};
use crate::expr::{clone_expr, eq_expr, lemma_view_exprs, view_exprs, Expr, SpecExpr};

verus! {

broadcast use vstd::seq::axiom_seq_index_decreases, vstd::seq::axiom_seq_subrange_decreases;

/// The index of the first parameter structurally equal to `e`, or `-1` when
/// none is.
pub open spec fn first_match(params: Seq<SpecExpr>, e: SpecExpr) -> int
    decreases params.len(),
{
    if params.len() == 0 {
        -1
    } else if params[0] == e {
        0
    } else {
        let rest = first_match(params.drop_first(), e);
        if rest < 0 {
            -1
        } else {
            rest + 1
        }
    }
}

/// What `first_match` finds: `-1` exactly when no parameter matches, and
/// otherwise the least matching index.
pub proof fn lemma_first_match(params: Seq<SpecExpr>, e: SpecExpr)
    ensures
        (first_match(params, e) == -1) <==> (forall|i: int|
            0 <= i < params.len() ==> params[i] != e),
        first_match(params, e) != -1 ==> {
            let m = first_match(params, e);
            &&& 0 <= m < params.len()
            &&& params[m] == e
            &&& forall|j: int| 0 <= j < m ==> params[j] != e
        },
    decreases params.len(),
{
    if params.len() > 0 && params[0] != e {
        let d = params.drop_first();
        lemma_first_match(d, e);
        assert(forall|j: int| 0 <= j < d.len() ==> #[trigger] d[j] == params[j + 1]);
        if first_match(d, e) == -1 {
            assert forall|i: int| 0 <= i < params.len() implies params[i] != e by {
                if i >= 1 {
                    assert(d[i - 1] == params[i]);
                }
            }
        } else {
            let m = first_match(d, e);
            assert(params[m + 1] == d[m]);
            assert forall|j: int| 0 <= j < m + 1 implies params[j] != e by {
                if j >= 1 {
                    assert(d[j - 1] == params[j]);
                }
            }
        }
    }
}

/// Substitution over a body, threading the marks of consumed parameters.
///
/// A body equal to some parameter becomes the argument at that parameter's
/// index (an error when no argument was supplied for it, though the mark is
/// still set); calls and conditionals are rebuilt recursively, except that a
/// failure inside an `otherwise` branch is swallowed and leaves that branch
/// unchanged; every other shape is left as it stands.
pub open spec fn curry_spec(
    body: SpecExpr,
    params: Seq<SpecExpr>,
    args: Seq<SpecExpr>,
    marks: Seq<bool>,
) -> (Result<SpecExpr, SpecError>, Seq<bool>)
    decreases body, 0int,
{
    let m = first_match(params, body);
    if m >= 0 {
        let marked = marks.update(m, true);
        if m < args.len() {
            (Ok(args[m]), marked)
        } else {
            (Err(SpecError::SubstitutionIndexError), marked)
        }
    } else {
        match body {
            SpecExpr::Call(h, tail) => {
                let (hr, m1) = curry_spec(*h, params, args, marks);
                match hr {
                    Ok(h2) => {
                        let (tr, m2) = curry_list_spec(tail, params, args, m1);
                        match tr {
                            Ok(t2) => (Ok(SpecExpr::Call(Box::new(h2), t2)), m2),
                            Err(e) => (Err(e), m2),
                        }
                    }
                    Err(e) => (Err(e), m1),
                }
            }
            SpecExpr::If(p, t, o) => {
                let (pr, m1) = curry_spec(*p, params, args, marks);
                match pr {
                    Ok(p2) => {
                        let (tr, m2) = curry_spec(*t, params, args, m1);
                        match tr {
                            Ok(t2) => match o {
                                Some(ob) => {
                                    let (orr, m3) = curry_spec(*ob, params, args, m2);
                                    match orr {
                                        Ok(o2) => (
                                            Ok(
                                                SpecExpr::If(
                                                    Box::new(p2),
                                                    Box::new(t2),
                                                    Some(Box::new(o2)),
                                                ),
                                            ),
                                            m3,
                                        ),
                                        Err(_) => (
                                            Ok(SpecExpr::If(Box::new(p2), Box::new(t2), Some(ob))),
                                            m3,
                                        ),
                                    }
                                }
                                None => (Ok(SpecExpr::If(Box::new(p2), Box::new(t2), None)), m2),
                            },
                            Err(e) => (Err(e), m2),
                        }
                    }
                    Err(e) => (Err(e), m1),
                }
            }
            _ => (Ok(body), marks),
        }
    }
}

/// Substitution over each expression of a list in turn, threading marks and
/// stopping at the first failure.
pub open spec fn curry_list_spec(
    es: Seq<SpecExpr>,
    params: Seq<SpecExpr>,
    args: Seq<SpecExpr>,
    marks: Seq<bool>,
) -> (Result<Seq<SpecExpr>, SpecError>, Seq<bool>)
    decreases es, 1int,
{
    if es.len() == 0 {
        (Ok(Seq::empty()), marks)
    } else {
        let (hr, m1) = curry_spec(es[0], params, args, marks);
        match hr {
            Ok(h2) => {
                let (tr, m2) = curry_list_spec(es.drop_first(), params, args, m1);
                match tr {
                    Ok(t2) => (Ok(seq![h2] + t2), m2),
                    Err(e) => (Err(e), m2),
                }
            }
            Err(e) => (Err(e), m1),
        }
    }
}

/// The parameters that were not consumed by substitution, in their original
/// order.
pub open spec fn residual_params(params: Seq<SpecExpr>, marks: Seq<bool>) -> Seq<SpecExpr>
    recommends
        marks.len() == params.len(),
    decreases params.len(),
{
    if params.len() == 0 {
        Seq::empty()
    } else if marks.len() > 0 && marks[0] {
        residual_params(params.drop_first(), marks.drop_first())
    } else {
        seq![params[0]] + residual_params(params.drop_first(), marks.drop_first())
    }
}

/// Keeps the parameters whose mark is unset, in their original order.
#[verifier::loop_isolation(false)]
pub fn residual(params: &Vec<Expr>, marked: &Vec<bool>) -> (r: Vec<Expr>)
    requires
        marked.len() == params.len(),
    ensures
        view_exprs(r) == residual_params(view_exprs(*params), marked@),
{
    proof {
        lemma_view_exprs(*params);
    }
    let ghost p = view_exprs(*params);
    let ghost m = marked@;
    let mut out: Vec<Expr> = Vec::new();
    let n = params.len();
    let mut i: usize = 0;
    proof {
        assert(p.skip(0) =~= p);
        assert(m.skip(0) =~= m);
    }
    while i < n
        invariant
            0 <= i <= n,
            forall|j: int| 0 <= j < out@.len() ==> crate::expr::view_expr(out[j]) == view_exprs(
                out,
            )[j],
            residual_params(p, m) == view_exprs(out) + residual_params(
                p.skip(i as int),
                m.skip(i as int),
            ),
        decreases n - i,
    {
        proof {
            let rp = p.skip(i as int);
            let rm = m.skip(i as int);
            assert(rp[0] == p[i as int]);
            assert(rm[0] == m[i as int]);
            assert(rp.drop_first() =~= p.skip(i + 1));
            assert(rm.drop_first() =~= m.skip(i + 1));
        }
        if !marked[i] {
            proof {
                lemma_view_exprs(out);
            }
            let ghost old_out = out;
            out.push(clone_expr(&params[i]));
            proof {
                lemma_view_exprs(out);
                assert(view_exprs(out) =~= view_exprs(old_out).push(p[i as int]));
                assert(view_exprs(old_out) + (seq![p[i as int]] + residual_params(
                    p.skip(i + 1),
                    m.skip(i + 1),
                )) =~= view_exprs(out) + residual_params(p.skip(i + 1), m.skip(i + 1)));
            }
        }
        i += 1;
    }
    proof {
        assert(p.skip(n as int) =~= Seq::<SpecExpr>::empty());
        assert(m.skip(n as int) =~= Seq::<bool>::empty());
        assert(view_exprs(out) + Seq::<SpecExpr>::empty() =~= view_exprs(out));
    }
    out
}

/// A vector of `n` unset marks.
pub fn false_marks(n: usize) -> (r: Vec<bool>)
    ensures
        r@ == Seq::new(n as nat, |i: int| false),
{
    let mut out: Vec<bool> = Vec::new();
    let mut i: usize = 0;
    while i < n
        invariant
            0 <= i <= n,
            out@.len() == i,
            forall|j: int| 0 <= j < i ==> !out@[j],
        decreases n - i,
    {
        out.push(false);
        i += 1;
    }
    proof {
        assert(out@ =~= Seq::new(n as nat, |i: int| false));
    }
    out
}

/// The index of the first parameter structurally equal to the expression.
fn find_param(left: &Vec<Expr>, expr: &Expr) -> (r: Option<usize>)
    ensures
        match r {
            Some(i) => first_match(view_exprs(*left), expr@) == i as int && i < left.len(),
            None => first_match(view_exprs(*left), expr@) == -1,
        },
{
    proof {
        lemma_view_exprs(*left);
        lemma_first_match(view_exprs(*left), expr@);
    }
    let ghost vs = view_exprs(*left);
    let n = left.len();
    let mut i: usize = 0;
    while i < n
        invariant
            n == left.len(),
            0 <= i <= n,
            vs == view_exprs(*left),
            vs.len() == n,
            forall|j: int| 0 <= j < n ==> vs[j] == crate::expr::view_expr(left[j]),
            forall|j: int| 0 <= j < i ==> #[trigger] vs[j] != expr@,
        decreases n - i,
    {
        if eq_expr(&left[i], expr) {
            proof {
                lemma_first_match(vs, expr@);
                let m = first_match(vs, expr@);
                assert(vs[i as int] == expr@);
                assert(m != -1);
                assert(m <= i as int);
                assert(m >= i as int);
            }
            return Some(i);
        }
        i += 1;
    }
    proof {
        lemma_first_match(vs, expr@);
    }
    None
}

/// Rewrites a function body by substituting each positional parameter's
/// occurrence with its supplied argument, marking the parameters consumed.
pub fn curry(expr: &Expr, left: &Vec<Expr>, right: &Vec<Expr>, marked: &mut Vec<bool>) -> (r:
    Result<Expr, Error>)
    requires
        old(marked).len() == left.len(),
    ensures
        final(marked).len() == old(marked).len(),
        ({
            let (res, mfin) = curry_spec(expr@, view_exprs(*left), view_exprs(*right), old(
                marked,
            )@);
            &&& final(marked)@ == mfin
            &&& match (r, res) {
                (Ok(e), Ok(se)) => e@ == se,
                (Err(e), Err(se)) => e@ == se,
                _ => false,
            }
        }),
    decreases *expr, 0int,
{
    proof {
        lemma_view_exprs(*left);
        lemma_view_exprs(*right);
    }
    match find_param(left, expr) {
        Some(i) => {
            proof {
                lemma_first_match(view_exprs(*left), expr@);
            }
            marked.set(i, true);
            if i < right.len() {
                Ok(clone_expr(&right[i]))
            } else {
                Err(Error::SubstitutionIndexError)
            }
        }
        None => {
            match expr {
                Expr::Call(h, tail) => {
                    let h2 = match curry(h, left, right, marked) {
                        Ok(x) => x,
                        Err(e) => {
                            return Err(e);
                        }
                    };
                    let t2 = match curry_list(tail, left, right, marked) {
                        Ok(x) => x,
                        Err(e) => {
                            return Err(e);
                        }
                    };
                    Ok(Expr::Call(Box::new(h2), t2))
                }
                Expr::If(p, t, o) => {
                    let p2 = match curry(p, left, right, marked) {
                        Ok(x) => x,
                        Err(e) => {
                            return Err(e);
                        }
                    };
                    let t2 = match curry(t, left, right, marked) {
                        Ok(x) => x,
                        Err(e) => {
                            return Err(e);
                        }
                    };
                    match o {
                        Some(ob) => match curry(ob, left, right, marked) {
                            Ok(o2) => Ok(
                                Expr::If(Box::new(p2), Box::new(t2), Some(Box::new(o2))),
                            ),
                            Err(_) => Ok(
                                Expr::If(
                                    Box::new(p2),
                                    Box::new(t2),
                                    Some(Box::new(clone_expr(ob))),
                                ),
                            ),
                        },
                        None => Ok(Expr::If(Box::new(p2), Box::new(t2), None)),
                    }
                }
                _ => Ok(clone_expr(expr)),
            }
        }
    }
}

/// Substitutes through each expression of a list in turn.
#[verifier::loop_isolation(false)]
fn curry_list(tail: &Vec<Expr>, left: &Vec<Expr>, right: &Vec<Expr>, marked: &mut Vec<bool>) -> (r:
    Result<Vec<Expr>, Error>)
    requires
        old(marked).len() == left.len(),
    ensures
        final(marked).len() == old(marked).len(),
        ({
            let (res, mfin) = curry_list_spec(view_exprs(*tail), view_exprs(*left), view_exprs(
                *right,
            ), old(marked)@);
            &&& final(marked)@ == mfin
            &&& match (r, res) {
                (Ok(es), Ok(ses)) => view_exprs(es) == ses,
                (Err(e), Err(se)) => e@ == se,
                _ => false,
            }
        }),
    decreases *tail, 1int,
{
    proof {
        lemma_view_exprs(*tail);
    }
    let ghost vs = view_exprs(*tail);
    let ghost p = view_exprs(*left);
    let ghost a = view_exprs(*right);
    let ghost m0 = marked@;
    let mut out: Vec<Expr> = Vec::new();
    let n = tail.len();
    let mut i: usize = 0;
    proof {
        assert(vs.skip(0) =~= vs);
    }
    while i < n
        invariant
            0 <= i <= n,
            out.len() == i,
            marked.len() == left.len(),
            forall|j: int| 0 <= j < i ==> crate::expr::view_expr(out[j]) == view_exprs(out)[j],
            ({
                let (tr, mf) = curry_list_spec(vs.skip(i as int), p, a, marked@);
                let (tr0, mf0) = curry_list_spec(vs, p, a, m0);
                &&& mf0 == mf
                &&& match (tr0, tr) {
                    (Ok(t0), Ok(t)) => t0 == view_exprs(out) + t,
                    (Err(e0), Err(e)) => e0 == e,
                    _ => false,
                }
            }),
        decreases n - i,
    {
        proof {
            let rest = vs.skip(i as int);
            assert(rest[0] == vs[i as int]);
            assert(rest.drop_first() =~= vs.skip(i + 1));
        }
        let ghost m_before = marked@;
        let r_i = curry(&tail[i], left, right, marked);
        match r_i {
            Ok(e_i) => {
                proof {
                    lemma_view_exprs(out);
                }
                let ghost old_out = out;
                out.push(e_i);
                proof {
                    lemma_view_exprs(out);
                    assert(out@ =~= old_out@.push(out[i as int]));
                    let (tr, mf) = curry_list_spec(vs.skip(i + 1), p, a, marked@);
                    if let Ok(t) = tr {
                        assert(view_exprs(old_out) + (seq![crate::expr::view_expr(out[i as int])]
                            + t) =~= view_exprs(out) + t);
                    }
                }
                i += 1;
            }
            Err(e) => {
                return Err(e);
            }
        }
    }
    proof {
        assert(vs.skip(n as int) =~= Seq::<SpecExpr>::empty());
        assert(view_exprs(out) + Seq::<SpecExpr>::empty() =~= view_exprs(out));
    }
    Ok(out)
}

} // verus!
