//! The evaluation engine: the global-binding environment and the
//! trampolined reducer that rewrites a working expression until an
//! irreducible shape is reached.
//!
//! The reducer is step-indexed: a fuel bound decreases on every nested
//! evaluation and on every trampoline continuation, and the mathematical
//! semantics [`eval_spec`] is indexed by the same fuel. Running out of fuel
//! is reported as an error; the public entry point supplies a budget that no
//! feasible computation exhausts.

use vstd::prelude::*;

use crate::builtins::{apply_builtin, apply_builtin_spec};
use crate::coerce::{expr_to_boolean, truthy};
use crate::curry::{curry, curry_spec, false_marks, residual, residual_params};
use crate::error::{Error, SpecError};
use crate::expr::{
    clone_expr, lemma_view_bindings, lemma_view_exprs, view_bindings, view_exprs, Atom, Expr,
    SpecAtom, SpecExpr,
};

verus! {

/// The fuel handed to the reducer by the public entry point.
pub const DEFAULT_FUEL: u64 = u64::MAX;

/// The mathematical model of an environment: a flat mapping from symbol
/// name to stored expression.
pub open spec fn env_view(s: Seq<(String, Expr)>) -> Map<Seq<char>, SpecExpr>
    decreases s.len(),
{
    if s.len() == 0 {
        Map::empty()
    } else {
        env_view(s.drop_last()).insert(s.last().0@, crate::expr::view_expr(s.last().1))
    }
}

/// Whether the names of an association list are pairwise distinct.
pub open spec fn keys_distinct(s: Seq<(String, Expr)>) -> bool {
    forall|i: int, j: int| 0 <= i < j < s.len() ==> #[trigger] s[i].0@ != #[trigger] s[j].0@
}

/// An evaluation context: one flat global namespace, mutated by `Let`
/// bindings and persisting across top-level evaluations.
pub struct Context {
    environment: Vec<(String, Expr)>,
}

impl View for Context {
    type V = Map<Seq<char>, SpecExpr>;

    closed spec fn view(&self) -> Map<Seq<char>, SpecExpr> {
        env_view(self.environment@)
    }
}

proof fn lemma_env_view_key(s: Seq<(String, Expr)>, k: Seq<char>)
    ensures
        env_view(s).contains_key(k) <==> (exists|i: int|
            0 <= i < s.len() && #[trigger] s[i].0@ == k),
        keys_distinct(s) ==> forall|i: int|
            0 <= i < s.len() && (#[trigger] s[i].0@) == k ==> env_view(s).contains_key(k)
                && env_view(s)[k] == crate::expr::view_expr(s[i].1),
    decreases s.len(),
{
    if s.len() > 0 {
        let d = s.drop_last();
        lemma_env_view_key(d, k);
        assert(forall|j: int| 0 <= j < d.len() ==> #[trigger] d[j] == s[j]);
        if s.last().0@ == k {
            assert(s[s.len() - 1].0@ == k);
        } else {
            if env_view(d).contains_key(k) {
                let i = choose|i: int| 0 <= i < d.len() && #[trigger] d[i].0@ == k;
                assert(s[i].0@ == k);
            }
            if exists|i: int| 0 <= i < s.len() && #[trigger] s[i].0@ == k {
                let i = choose|i: int| 0 <= i < s.len() && #[trigger] s[i].0@ == k;
                assert(i < d.len() && d[i].0@ == k);
            }
        }
    }
}

proof fn lemma_env_view_update(s: Seq<(String, Expr)>, i: int, p: (String, Expr))
    requires
        keys_distinct(s),
        0 <= i < s.len(),
        s[i].0@ == p.0@,
    ensures
        env_view(s.update(i, p)) == env_view(s).insert(p.0@, crate::expr::view_expr(p.1)),
    decreases s.len(),
{
    let t = s.update(i, p);
    assert(t.len() == s.len());
    if i == s.len() - 1 {
        assert(t.drop_last() =~= s.drop_last());
        assert(t.last() == p);
        assert(env_view(s).insert(p.0@, crate::expr::view_expr(p.1)) =~= env_view(
            s.drop_last(),
        ).insert(s.last().0@, crate::expr::view_expr(s.last().1)).insert(
            p.0@,
            crate::expr::view_expr(p.1),
        ));
        assert(env_view(s.drop_last()).insert(s.last().0@, crate::expr::view_expr(s.last().1)).insert(
            p.0@,
            crate::expr::view_expr(p.1),
        ) =~= env_view(s.drop_last()).insert(p.0@, crate::expr::view_expr(p.1)));
    } else {
        let d = s.drop_last();
        assert(forall|j: int| 0 <= j < d.len() ==> #[trigger] d[j] == s[j]);
        lemma_env_view_update(d, i, p);
        assert(t.drop_last() =~= d.update(i, p));
        assert(t.last() == s.last());
        assert(s.last().0@ != p.0@) by {
            assert(s[i].0@ == p.0@);
        }
        assert(env_view(t) == env_view(d.update(i, p)).insert(
            s.last().0@,
            crate::expr::view_expr(s.last().1),
        ));
        assert(env_view(d).insert(p.0@, crate::expr::view_expr(p.1)).insert(
            s.last().0@,
            crate::expr::view_expr(s.last().1),
        ) =~= env_view(d).insert(s.last().0@, crate::expr::view_expr(s.last().1)).insert(
            p.0@,
            crate::expr::view_expr(p.1),
        ));
    }
}

impl Context {
    /// The environment's names are pairwise distinct.
    pub closed spec fn wf(&self) -> bool {
        keys_distinct(self.environment@)
    }

    /// A fresh context with an empty environment.
    pub fn new() -> (r: Context)
        ensures
            r.wf(),
            r@ == Map::<Seq<char>, SpecExpr>::empty(),
    {
        Context { environment: Vec::new() }
    }

    /// Looks a name up in the environment.
    fn env_get(&self, name: &String) -> (r: Option<&Expr>)
        requires
            self.wf(),
        ensures
            match r {
                Some(e) => self@.contains_key(name@) && e@ == self@[name@],
                None => !self@.contains_key(name@),
            },
    {
        proof {
            lemma_env_view_key(self.environment@, name@);
        }
        let n = self.environment.len();
        let mut i: usize = 0;
        while i < n
            invariant
                n == self.environment@.len(),
                0 <= i <= n,
                self.wf(),
                forall|j: int| 0 <= j < i ==> (#[trigger] self.environment@[j].0@) != name@,
            decreases n - i,
        {
            if self.environment[i].0 == *name {
                proof {
                    lemma_env_view_key(self.environment@, name@);
                }
                return Some(&self.environment[i].1);
            }
            i += 1;
        }
        proof {
            lemma_env_view_key(self.environment@, name@);
        }
        None
    }

    /// Stores an expression under a name, overwriting any prior binding.
    #[verifier::loop_isolation(false)]
    fn env_insert(&mut self, name: String, value: Expr)
        requires
            old(self).wf(),
        ensures
            final(self).wf(),
            final(self)@ == old(self)@.insert(name@, value@),
    {
        let ghost s0 = self.environment@;
        let n = self.environment.len();
        let mut i: usize = 0;
        while i < n
            invariant
                n == self.environment@.len(),
                0 <= i <= n,
                self.environment@ == s0,
                self.wf(),
                forall|j: int| 0 <= j < i ==> (#[trigger] self.environment@[j].0@) != name@,
            decreases n - i,
        {
            if self.environment[i].0 == *(&name) {
                proof {
                    lemma_env_view_update(s0, i as int, (name, value));
                }
                self.environment.set(i, (name, value));
                proof {
                    assert(keys_distinct(self.environment@)) by {
                        assert(forall|j: int|
                            0 <= j < s0.len() && j != i ==> self.environment@[j] == s0[j]);
                    }
                }
                return ;
            }
            i += 1;
        }
        proof {
            let s1 = s0.push((name, value));
            assert(s1.drop_last() =~= s0);
            assert(s1.last() == (name, value));
            assert(keys_distinct(s1)) by {
                assert(forall|j: int| 0 <= j < s0.len() ==> s1[j] == s0[j]);
            }
        }
        self.environment.push((name, value));
    }
}

/// One step-indexed reduction of an expression against an environment.
///
/// `None` means the fuel ran out. Otherwise the outcome carries the value or
/// the failure, together with the environment as the reduction left it:
/// bindings committed before a later failure stay committed.
pub open spec fn eval_spec(env: Map<Seq<char>, SpecExpr>, e: SpecExpr, fuel: nat) -> Option<
    (Result<SpecExpr, SpecError>, Map<Seq<char>, SpecExpr>),
>
    decreases fuel, 0int,
{
    if fuel == 0 {
        None
    } else {
        match e {
            SpecExpr::Constant(SpecAtom::Symbol(name)) => Some(
                if env.contains_key(name) {
                    (Ok(env[name]), env)
                } else {
                    (Err(SpecError::UnboundVariable(name)), env)
                },
            ),
            SpecExpr::Constant(_) => Some((Ok(e), env)),
            SpecExpr::Quote(_) => Some((Ok(e), env)),
            SpecExpr::Let(bindings) => eval_let_spec(env, bindings, (fuel - 1) as nat),
            SpecExpr::If(p, t, o) => match eval_spec(env, *p, (fuel - 1) as nat) {
                None => None,
                Some((Err(err), env2)) => Some((Err(err), env2)),
                Some((Ok(v), env2)) => if truthy(v) {
                    eval_spec(env2, *t, (fuel - 1) as nat)
                } else {
                    match o {
                        Some(b) => eval_spec(env2, *b, (fuel - 1) as nat),
                        None => Some((Err(SpecError::NoBranchTaken), env2)),
                    }
                },
            },
            SpecExpr::Call(h, args) => match eval_spec(env, *h, (fuel - 1) as nat) {
                None => None,
                Some((Err(err), env2)) => Some((Err(err), env2)),
                Some((Ok(hv), env2)) => match eval_args_spec(env2, args, (fuel - 1) as nat) {
                    None => None,
                    Some((Err(err), env3)) => Some((Err(err), env3)),
                    Some((Ok(vs), env3)) => apply_spec(env3, hv, vs, (fuel - 1) as nat),
                },
            },
            _ => Some((Ok(e), env)),
        }
    }
}

/// Step-indexed reduction of a binding list: each right-hand side is
/// evaluated and stored in turn; the whole form yields `Nil`.
pub open spec fn eval_let_spec(
    env: Map<Seq<char>, SpecExpr>,
    bindings: Seq<(SpecAtom, SpecExpr)>,
    fuel: nat,
) -> Option<(Result<SpecExpr, SpecError>, Map<Seq<char>, SpecExpr>)>
    decreases fuel, bindings.len() + 1,
{
    if bindings.len() == 0 {
        Some((Ok(SpecExpr::Nil), env))
    } else {
        match bindings[0].0 {
            SpecAtom::Symbol(name) => match eval_spec(env, bindings[0].1, fuel) {
                None => None,
                Some((Err(e), env2)) => Some((Err(e), env2)),
                Some((Ok(v), env2)) => eval_let_spec(
                    env2.insert(name, v),
                    bindings.drop_first(),
                    fuel,
                ),
            },
            _ => Some((Err(SpecError::TypeError), env)),
        }
    }
}

/// Step-indexed reduction of an argument list, left to right.
pub open spec fn eval_args_spec(
    env: Map<Seq<char>, SpecExpr>,
    es: Seq<SpecExpr>,
    fuel: nat,
) -> Option<(Result<Seq<SpecExpr>, SpecError>, Map<Seq<char>, SpecExpr>)>
    decreases fuel, es.len() + 1,
{
    if es.len() == 0 {
        Some((Ok(Seq::empty()), env))
    } else {
        match eval_spec(env, es[0], fuel) {
            None => None,
            Some((Err(e), env2)) => Some((Err(e), env2)),
            Some((Ok(v), env2)) => match eval_args_spec(env2, es.drop_first(), fuel) {
                None => None,
                Some((Err(e), env3)) => Some((Err(e), env3)),
                Some((Ok(vs), env3)) => Some((Ok(seq![v] + vs), env3)),
            },
        }
    }
}

/// Dispatch on a reduced call head over reduced arguments.
///
/// A function head is curried: a fully-saturated call continues reducing the
/// substituted body; otherwise a reduced-arity function remains. A built-in
/// head consults the operator table. Any other head is returned unchanged,
/// discarding the arguments.
pub open spec fn apply_spec(
    env: Map<Seq<char>, SpecExpr>,
    hv: SpecExpr,
    vs: Seq<SpecExpr>,
    fuel: nat,
) -> Option<(Result<SpecExpr, SpecError>, Map<Seq<char>, SpecExpr>)>
    decreases fuel, 1int,
{
    match hv {
        SpecExpr::Function(params, body) => {
            let (res, marks) = curry_spec(*body, params, vs, Seq::new(params.len(), |i| false));
            match res {
                Err(e) => Some((Err(e), env)),
                Ok(newbody) => {
                    let rest = residual_params(params, marks);
                    if rest.len() == 0 {
                        eval_spec(env, newbody, fuel)
                    } else {
                        Some((Ok(SpecExpr::Function(rest, Box::new(newbody))), env))
                    }
                }
            }
        }
        SpecExpr::Constant(SpecAtom::BuiltIn(op)) => Some(
            match apply_builtin_spec(op, vs) {
                Ok(v) => (Ok(v), env),
                Err(e) => (Err(e), env),
            },
        ),
        _ => Some((Ok(hv), env)),
    }
}

impl Context {
    /// Reduces one expression against the context's environment, with an
    /// explicit step budget.
    ///
    /// The result and the final environment are exactly what [`eval_spec`]
    /// names at the same fuel; when that fuel runs out the reduction stops
    /// with [`Error::Exhausted`].
    #[verifier::loop_isolation(false)]
    pub fn eval_with_fuel(&mut self, expr: Expr, fuel: u64) -> (r: Result<Expr, Error>)
        requires
            old(self).wf(),
        ensures
            final(self).wf(),
            ({
                let o = eval_spec(old(self)@, expr@, fuel as nat);
                match o {
                    Some((res, env2)) => final(self)@ == env2 && match (r, res) {
                        (Ok(v), Ok(sv)) => v@ == sv,
                        (Err(e), Err(se)) => e@ == se,
                        _ => false,
                    },
                    None => r matches Err(e) && e@ == SpecError::Exhausted,
                }
            }),
        decreases fuel,
    {
        let ghost env0 = self@;
        let ghost e0 = expr@;
        let mut cur = expr;
        let mut f = fuel;
        loop
            invariant
                self.wf(),
                f <= fuel,
                eval_spec(env0, e0, fuel as nat) == eval_spec(self@, cur@, f as nat),
            decreases f,
        {
            let ghost envi = self@;
            let ghost cv = cur@;
            if f == 0 {
                return Err(Error::Exhausted);
            }
            match cur {
                Expr::Constant(Atom::Symbol(name)) => {
                    return match self.env_get(&name) {
                        Some(e) => Ok(clone_expr(e)),
                        None => Err(Error::UnboundVariable(name)),
                    };
                }
                Expr::Constant(a) => {
                    return Ok(Expr::Constant(a));
                }
                Expr::Quote(items) => {
                    return Ok(Expr::Quote(items));
                }
                Expr::Nil => {
                    return Ok(Expr::Nil);
                }
                Expr::Function(params, body) => {
                    return Ok(Expr::Function(params, body));
                }
                Expr::Let(bindings) => {
                    let ghost bviews = view_bindings(bindings);
                    proof {
                        lemma_view_bindings(bindings);
                        assert(bviews.skip(0) =~= bviews);
                    }
                    let n = bindings.len();
                    let mut k: usize = 0;
                    while k < n
                        invariant
                            0 <= k <= n,
                            self.wf(),
                            eval_let_spec(envi, bviews, (f - 1) as nat) == eval_let_spec(
                                self@,
                                bviews.skip(k as int),
                                (f - 1) as nat,
                            ),
                        decreases n - k,
                    {
                        proof {
                            let rest = bviews.skip(k as int);
                            assert(rest[0] == bviews[k as int]);
                            assert(rest.drop_first() =~= bviews.skip(k + 1));
                        }
                        let name = match &bindings[k].0 {
                            Atom::Symbol(s) => s.clone(),
                            _ => {
                                return Err(Error::TypeError);
                            }
                        };
                        let rhs = clone_expr(&bindings[k].1);
                        let v = match self.eval_with_fuel(rhs, f - 1) {
                            Ok(v) => v,
                            Err(e) => {
                                return Err(e);
                            }
                        };
                        self.env_insert(name, v);
                        k += 1;
                    }
                    proof {
                        assert(bviews.skip(n as int) =~= Seq::<(SpecAtom, SpecExpr)>::empty());
                    }
                    return Ok(Expr::Nil);
                }
                Expr::If(p, t, o) => {
                    let pv = match self.eval_with_fuel(*p, f - 1) {
                        Ok(v) => v,
                        Err(e) => {
                            return Err(e);
                        }
                    };
                    if expr_to_boolean(&pv) {
                        cur = *t;
                        f = f - 1;
                    } else {
                        match o {
                            Some(b) => {
                                cur = *b;
                                f = f - 1;
                            }
                            None => {
                                return Err(Error::NoBranchTaken);
                            }
                        }
                    }
                }
                Expr::Call(h, args) => {
                    let hv = match self.eval_with_fuel(*h, f - 1) {
                        Ok(v) => v,
                        Err(e) => {
                            return Err(e);
                        }
                    };
                    let ghost env_h = self@;
                    let ghost aviews = view_exprs(args);
                    proof {
                        lemma_view_exprs(args);
                        assert(aviews.skip(0) =~= aviews);
                    }
                    let mut vals: Vec<Expr> = Vec::new();
                    let n = args.len();
                    let mut k: usize = 0;
                    while k < n
                        invariant
                            0 <= k <= n,
                            self.wf(),
                            forall|j: int|
                                0 <= j < vals@.len() ==> crate::expr::view_expr(vals[j])
                                    == view_exprs(vals)[j],
                            ({
                                let o_all = eval_args_spec(env_h, aviews, (f - 1) as nat);
                                match eval_args_spec(self@, aviews.skip(k as int), (f - 1) as nat) {
                                    None => o_all is None,
                                    Some((res, envr)) => match res {
                                        Ok(vs) => o_all == Some(
                                            (
                                                Ok::<Seq<SpecExpr>, SpecError>(
                                                    view_exprs(vals) + vs,
                                                ),
                                                envr,
                                            ),
                                        ),
                                        Err(e) => o_all == Some(
                                            (Err::<Seq<SpecExpr>, SpecError>(e), envr),
                                        ),
                                    },
                                }
                            }),
                        decreases n - k,
                    {
                        proof {
                            let rest = aviews.skip(k as int);
                            assert(rest[0] == aviews[k as int]);
                            assert(rest.drop_first() =~= aviews.skip(k + 1));
                        }
                        let a = clone_expr(&args[k]);
                        let v = match self.eval_with_fuel(a, f - 1) {
                            Ok(v) => v,
                            Err(e) => {
                                return Err(e);
                            }
                        };
                        proof {
                            lemma_view_exprs(vals);
                        }
                        let ghost old_vals = vals;
                        vals.push(v);
                        proof {
                            lemma_view_exprs(vals);
                            assert(view_exprs(vals) =~= view_exprs(old_vals).push(
                                view_exprs(vals)[vals@.len() - 1],
                            ));
                            let rest = aviews.skip(k as int);
                            if let Some((res, envr)) = eval_args_spec(
                                self@,
                                aviews.skip(k + 1),
                                (f - 1) as nat,
                            ) {
                                if let Ok(vs) = res {
                                    assert(view_exprs(old_vals) + (seq![
                                        view_exprs(vals)[vals@.len() - 1],
                                    ] + vs) =~= view_exprs(vals) + vs);
                                }
                            }
                        }
                        k += 1;
                    }
                    proof {
                        assert(aviews.skip(n as int) =~= Seq::<SpecExpr>::empty());
                        assert(view_exprs(vals) + Seq::<SpecExpr>::empty() =~= view_exprs(vals));
                    }
                    let ghost env_a = self@;
                    let ghost hview = hv@;
                    match hv {
                        Expr::Function(params, fbody) => {
                            proof {
                                lemma_view_exprs(params);
                            }
                            let mut marked = false_marks(params.len());
                            proof {
                                assert(marked@ =~= Seq::new(
                                    view_exprs(params).len(),
                                    |i: int| false,
                                ));
                            }
                            let body2 = match curry(&*fbody, &params, &vals, &mut marked) {
                                Ok(b) => b,
                                Err(e) => {
                                    proof {
                                        assert(eval_spec(env0, e0, fuel as nat) == apply_spec(
                                            env_a,
                                            hview,
                                            view_exprs(vals),
                                            (f - 1) as nat,
                                        ));
                                        assert(final(self)@ == env_a);
                                    }
                                    return Err(e);
                                }
                            };
                            let rest = residual(&params, &marked);
                            proof {
                                lemma_view_exprs(rest);
                            }
                            if rest.len() == 0 {
                                cur = body2;
                                f = f - 1;
                            } else {
                                return Ok(Expr::Function(rest, Box::new(body2)));
                            }
                        }
                        Expr::Constant(Atom::BuiltIn(op)) => {
                            return apply_builtin(op, &vals);
                        }
                        other => {
                            proof {
                                assert(!(hview matches SpecExpr::Function(_, _)));
                                assert(!(hview matches SpecExpr::Constant(SpecAtom::BuiltIn(_))));
                            }
                            return Ok(other);
                        }
                    }
                }
            }
        }
    }

    /// Reduces one expression against the context's environment, mutating it
    /// as `Let` forms direct.
    pub fn eval(&mut self, expr: Expr) -> (r: Result<Expr, Error>)
        requires
            old(self).wf(),
        ensures
            final(self).wf(),
            ({
                let o = eval_spec(old(self)@, expr@, DEFAULT_FUEL as nat);
                match o {
                    Some((res, env2)) => final(self)@ == env2 && match (r, res) {
                        (Ok(v), Ok(sv)) => v@ == sv,
                        (Err(e), Err(se)) => e@ == se,
                        _ => false,
                    },
                    None => r matches Err(e) && e@ == SpecError::Exhausted,
                }
            }),
    {
        self.eval_with_fuel(expr, DEFAULT_FUEL)
    }
}

impl Default for Context {
    /// A fresh context with an empty environment.
    fn default() -> (r: Context)
        ensures
            r.wf(),
            r@ == Map::<Seq<char>, SpecExpr>::empty(),
    {
        Context::new()
    }
}

} // verus!
