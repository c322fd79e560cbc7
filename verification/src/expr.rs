//! The expression data model: atoms, expression trees, and their
//! mathematical views, together with verified deep clone and deep equality.

use vstd::prelude::*;

verus! {

broadcast use vstd::std_specs::vec::group_vec_axioms;

/// The built-in operator tags recognised by the evaluator.
#[derive(Clone, Copy, PartialEq, Eq, Structural, Debug)]
pub enum BuiltIn {
    Plus,
    Minus,
    Times,
    Divide,
    Equal,
    NotEqual,
    Less,
    Greater,
    LessEqual,
    GreaterEqual,
    And,
    Or,
    Not,
}

/// Leaf values: a signed 32-bit number, an identifier, or a built-in tag.
#[derive(Debug)]
pub enum Atom {
    Number(i32),
    Symbol(String),
    BuiltIn(BuiltIn),
}

/// The recursive expression/value tree covering all reducible and
/// irreducible forms.
#[derive(Debug)]
pub enum Expr {
    /// An irreducible literal or symbol reference.
    Constant(Atom),
    /// The canonical "false/empty" value.
    Nil,
    /// A literal list; never evaluated; the empty quote is falsy.
    Quote(Vec<Expr>),
    /// A binding form: each pair's atom must be a symbol; evaluation stores
    /// each evaluated right-hand side under that name and yields `Nil`.
    Let(Vec<(Atom, Expr)>),
    /// A conditional with an optional `otherwise` branch.
    If(Box<Expr>, Box<Expr>, Option<Box<Expr>>),
    /// Function/operator application.
    Call(Box<Expr>, Vec<Expr>),
    /// A callable value: positional parameters and a body.
    Function(Vec<Expr>, Box<Expr>),
}

/// The mathematical model of an [`Atom`].
#[verifier::ext_equal]
pub ghost enum SpecAtom {
    Number(int),
    Symbol(Seq<char>),
    BuiltIn(BuiltIn),
}

/// The mathematical model of an [`Expr`].
#[verifier::ext_equal]
pub ghost enum SpecExpr {
    Constant(SpecAtom),
    Nil,
    Quote(Seq<SpecExpr>),
    Let(Seq<(SpecAtom, SpecExpr)>),
    If(Box<SpecExpr>, Box<SpecExpr>, Option<Box<SpecExpr>>),
    Call(Box<SpecExpr>, Seq<SpecExpr>),
    Function(Seq<SpecExpr>, Box<SpecExpr>),
}

pub open spec fn view_atom(a: Atom) -> SpecAtom {
    match a {
        Atom::Number(n) => SpecAtom::Number(n as int),
        Atom::Symbol(s) => SpecAtom::Symbol(s@),
        Atom::BuiltIn(b) => SpecAtom::BuiltIn(b),
    }
}

pub open spec fn view_expr(e: Expr) -> SpecExpr
    decreases e, 0int, 0int,
{
    match e {
        Expr::Constant(a) => SpecExpr::Constant(view_atom(a)),
        Expr::Nil => SpecExpr::Nil,
        Expr::Quote(items) => SpecExpr::Quote(view_exprs_from(items, 0)),
        Expr::Let(bindings) => SpecExpr::Let(view_bindings_from(bindings, 0)),
        Expr::If(p, t, o) => SpecExpr::If(
            Box::new(view_expr(*p)),
            Box::new(view_expr(*t)),
            match o {
                Some(b) => Some(Box::new(view_expr(*b))),
                None => None,
            },
        ),
        Expr::Call(h, args) => SpecExpr::Call(Box::new(view_expr(*h)), view_exprs_from(args, 0)),
        Expr::Function(params, body) => SpecExpr::Function(
            view_exprs_from(params, 0),
            Box::new(view_expr(*body)),
        ),
    }
}

pub open spec fn view_exprs_from(v: Vec<Expr>, i: int) -> Seq<SpecExpr>
    decreases v, v.len() - i, 1int,
{
    if i < 0 || i >= v.len() {
        Seq::empty()
    } else {
        seq![view_expr(v[i])] + view_exprs_from(v, i + 1)
    }
}

pub open spec fn view_bindings_from(v: Vec<(Atom, Expr)>, i: int) -> Seq<(SpecAtom, SpecExpr)>
    decreases v, v.len() - i, 1int,
{
    if i < 0 || i >= v.len() {
        Seq::empty()
    } else {
        seq![(view_atom(v[i].0), view_expr(v[i].1))] + view_bindings_from(v, i + 1)
    }
}

/// The deep view of a vector of expressions.
pub open spec fn view_exprs(v: Vec<Expr>) -> Seq<SpecExpr> {
    view_exprs_from(v, 0)
}

/// The deep view of a vector of bindings.
pub open spec fn view_bindings(v: Vec<(Atom, Expr)>) -> Seq<(SpecAtom, SpecExpr)> {
    view_bindings_from(v, 0)
}

impl View for Atom {
    type V = SpecAtom;

    open spec fn view(&self) -> SpecAtom {
        view_atom(*self)
    }
}

impl View for Expr {
    type V = SpecExpr;

    open spec fn view(&self) -> SpecExpr {
        view_expr(*self)
    }
}

pub proof fn lemma_view_exprs_from(v: Vec<Expr>, i: int)
    requires
        0 <= i <= v.len(),
    ensures
        view_exprs_from(v, i).len() == v.len() - i,
        forall|j: int|
            i <= j < v.len() ==> view_exprs_from(v, i)[j - i] == view_expr(v[j]),
    decreases v.len() - i,
{
    if i < v.len() {
        lemma_view_exprs_from(v, i + 1);
    }
}

/// Relates the deep view of a vector of expressions to its elements.
pub broadcast proof fn lemma_view_exprs(v: Vec<Expr>)
    ensures
        (#[trigger] view_exprs(v)).len() == v.len(),
        forall|j: int| 0 <= j < v.len() ==> view_exprs(v)[j] == view_expr(v[j]),
{
    lemma_view_exprs_from(v, 0);
}

pub proof fn lemma_view_bindings_from(v: Vec<(Atom, Expr)>, i: int)
    requires
        0 <= i <= v.len(),
    ensures
        view_bindings_from(v, i).len() == v.len() - i,
        forall|j: int|
            i <= j < v.len() ==> view_bindings_from(v, i)[j - i]
                == (view_atom(v[j].0), view_expr(v[j].1)),
    decreases v.len() - i,
{
    if i < v.len() {
        lemma_view_bindings_from(v, i + 1);
    }
}

/// Relates the deep view of a vector of bindings to its elements.
pub broadcast proof fn lemma_view_bindings(v: Vec<(Atom, Expr)>)
    ensures
        (#[trigger] view_bindings(v)).len() == v.len(),
        forall|j: int|
            0 <= j < v.len() ==> view_bindings(v)[j] == (view_atom(v[j].0), view_expr(v[j].1)),
{
    lemma_view_bindings_from(v, 0);
}

/// Structural equality of atoms, decided by value.
pub fn eq_atom(a: &Atom, b: &Atom) -> (r: bool)
    ensures
        r == (a@ == b@),
{
    match (a, b) {
        (Atom::Number(x), Atom::Number(y)) => *x == *y,
        (Atom::Symbol(x), Atom::Symbol(y)) => *x == *y,
        (Atom::BuiltIn(x), Atom::BuiltIn(y)) => *x == *y,
        _ => false,
    }
}

/// Structural equality of whole expression trees, decided by value.
pub fn eq_expr(a: &Expr, b: &Expr) -> (r: bool)
    ensures
        r == (a@ == b@),
    decreases *a, 0int,
{
    match (a, b) {
        (Expr::Constant(x), Expr::Constant(y)) => eq_atom(x, y),
        (Expr::Nil, Expr::Nil) => true,
        (Expr::Quote(xs), Expr::Quote(ys)) => eq_exprs(xs, ys),
        (Expr::Let(xs), Expr::Let(ys)) => eq_bindings(xs, ys),
        (Expr::If(p1, t1, o1), Expr::If(p2, t2, o2)) => {
            let heads = eq_expr(p1, p2) && eq_expr(t1, t2);
            heads && match (o1, o2) {
                (Some(x), Some(y)) => eq_expr(x, y),
                (None, None) => true,
                _ => false,
            }
        }
        (Expr::Call(h1, t1), Expr::Call(h2, t2)) => eq_expr(h1, h2) && eq_exprs(t1, t2),
        (Expr::Function(p1, b1), Expr::Function(p2, b2)) => eq_exprs(p1, p2) && eq_expr(b1, b2),
        _ => false,
    }
}

/// Pointwise structural equality of two expression vectors.
pub fn eq_exprs(xs: &Vec<Expr>, ys: &Vec<Expr>) -> (r: bool)
    ensures
        r == (view_exprs(*xs) == view_exprs(*ys)),
    decreases *xs, 1int,
{
    proof {
        lemma_view_exprs(*xs);
        lemma_view_exprs(*ys);
    }
    if xs.len() != ys.len() {
        proof {
            assert(view_exprs(*xs).len() != view_exprs(*ys).len());
        }
        return false;
    }
    let n = xs.len();
    let mut i: usize = 0;
    while i < n
        invariant
            n == xs.len() == ys.len(),
            0 <= i <= n,
            view_exprs(*xs).len() == n,
            view_exprs(*ys).len() == n,
            forall|j: int| 0 <= j < i ==> view_exprs(*xs)[j] == view_exprs(*ys)[j],
            forall|j: int| 0 <= j < xs.len() ==> view_exprs(*xs)[j] == view_expr(xs[j]),
            forall|j: int| 0 <= j < ys.len() ==> view_exprs(*ys)[j] == view_expr(ys[j]),
        decreases n - i,
    {
        if !eq_expr(&xs[i], &ys[i]) {
            proof {
                assert(view_exprs(*xs)[i as int] != view_exprs(*ys)[i as int]);
            }
            return false;
        }
        i += 1;
    }
    proof {
        assert(view_exprs(*xs) =~= view_exprs(*ys));
    }
    true
}

/// Pointwise structural equality of two binding vectors.
pub fn eq_bindings(xs: &Vec<(Atom, Expr)>, ys: &Vec<(Atom, Expr)>) -> (r: bool)
    ensures
        r == (view_bindings(*xs) == view_bindings(*ys)),
    decreases *xs, 1int,
{
    proof {
        lemma_view_bindings(*xs);
        lemma_view_bindings(*ys);
    }
    if xs.len() != ys.len() {
        proof {
            assert(view_bindings(*xs).len() != view_bindings(*ys).len());
        }
        return false;
    }
    let n = xs.len();
    let mut i: usize = 0;
    while i < n
        invariant
            n == xs.len() == ys.len(),
            0 <= i <= n,
            view_bindings(*xs).len() == n,
            view_bindings(*ys).len() == n,
            forall|j: int| 0 <= j < i ==> view_bindings(*xs)[j] == view_bindings(*ys)[j],
            forall|j: int|
                0 <= j < xs.len() ==> view_bindings(*xs)[j]
                    == (view_atom(xs[j].0), view_expr(xs[j].1)),
            forall|j: int|
                0 <= j < ys.len() ==> view_bindings(*ys)[j]
                    == (view_atom(ys[j].0), view_expr(ys[j].1)),
        decreases n - i,
    {
        let pairs_eq = eq_atom(&xs[i].0, &ys[i].0) && eq_expr(&xs[i].1, &ys[i].1);
        if !pairs_eq {
            proof {
                assert(view_bindings(*xs)[i as int] != view_bindings(*ys)[i as int]);
            }
            return false;
        }
        i += 1;
    }
    proof {
        assert(view_bindings(*xs) =~= view_bindings(*ys));
    }
    true
}

/// A deep copy of an expression, equal to the original in its view.
pub fn clone_expr(e: &Expr) -> (r: Expr)
    ensures
        r@ == e@,
    decreases *e, 0int,
{
    match e {
        Expr::Constant(a) => Expr::Constant(a.clone()),
        Expr::Nil => Expr::Nil,
        Expr::Quote(items) => Expr::Quote(clone_exprs(items)),
        Expr::Let(bindings) => Expr::Let(clone_bindings(bindings)),
        Expr::If(p, t, o) => Expr::If(
            Box::new(clone_expr(p)),
            Box::new(clone_expr(t)),
            match o {
                Some(b) => Some(Box::new(clone_expr(b))),
                None => None,
            },
        ),
        Expr::Call(h, args) => Expr::Call(Box::new(clone_expr(h)), clone_exprs(args)),
        Expr::Function(params, body) => Expr::Function(
            clone_exprs(params),
            Box::new(clone_expr(body)),
        ),
    }
}

/// A deep copy of a vector of expressions.
pub fn clone_exprs(v: &Vec<Expr>) -> (r: Vec<Expr>)
    ensures
        view_exprs(r) == view_exprs(*v),
        r.len() == v.len(),
    decreases *v, 1int,
{
    proof {
        lemma_view_exprs(*v);
    }
    let mut out: Vec<Expr> = Vec::new();
    let n = v.len();
    let mut i: usize = 0;
    while i < n
        invariant
            n == v.len(),
            0 <= i <= n,
            out.len() == i,
            view_exprs(*v).len() == n,
            forall|j: int| 0 <= j < n ==> view_exprs(*v)[j] == view_expr(v[j]),
            forall|j: int| 0 <= j < i ==> view_expr(out[j]) == view_exprs(*v)[j],
        decreases n - i,
    {
        out.push(clone_expr(&v[i]));
        i += 1;
    }
    proof {
        lemma_view_exprs(out);
        assert(view_exprs(out) =~= view_exprs(*v));
    }
    out
}

/// A deep copy of a vector of bindings.
pub fn clone_bindings(v: &Vec<(Atom, Expr)>) -> (r: Vec<(Atom, Expr)>)
    ensures
        view_bindings(r) == view_bindings(*v),
        r.len() == v.len(),
    decreases *v, 1int,
{
    proof {
        lemma_view_bindings(*v);
    }
    let mut out: Vec<(Atom, Expr)> = Vec::new();
    let n = v.len();
    let mut i: usize = 0;
    while i < n
        invariant
            n == v.len(),
            0 <= i <= n,
            out.len() == i,
            view_bindings(*v).len() == n,
            forall|j: int|
                0 <= j < n ==> view_bindings(*v)[j] == (view_atom(v[j].0), view_expr(v[j].1)),
            forall|j: int|
                0 <= j < i ==> (view_atom(out[j].0), view_expr(out[j].1)) == view_bindings(*v)[j],
        decreases n - i,
    {
        let pair = (v[i].0.clone(), clone_expr(&v[i].1));
        out.push(pair);
        i += 1;
    }
    proof {
        lemma_view_bindings(out);
        assert(view_bindings(out) =~= view_bindings(*v));
    }
    out
}

impl Clone for Atom {
    /// A copy of the atom, equal to the original in its view.
    fn clone(&self) -> (r: Atom)
        ensures
            r@ == self@,
    {
        match self {
            Atom::Number(n) => Atom::Number(*n),
            Atom::Symbol(s) => Atom::Symbol(s.clone()),
            Atom::BuiltIn(b) => Atom::BuiltIn(*b),
        }
    }
}

impl Clone for Expr {
    /// A deep copy of the expression, equal to the original in its view.
    fn clone(&self) -> (r: Expr)
        ensures
            r@ == self@,
    {
        clone_expr(self)
    }
}

} // verus!
