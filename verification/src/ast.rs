//! The abstract syntax tree: atoms and expressions, together with the
//! mathematical models (`SpecAtom`, `SpecExpr`) that the contracts of the
//! parser and the evaluator speak of.

use vstd::prelude::*;

verus! {

/// One of the four arithmetic operators.
#[derive(Debug, Clone, Copy, PartialEq, Eq, Structural)]
pub enum Operator {
    Plus,
    Minus,
    Divide,
    Multiply,
}

/// The terminal lexical unit: a number, an operator, a bare symbol, or one
/// of the four reserved builtin words.
#[derive(Debug)]
pub enum Atom {
    Number(i64),
    Operator(Operator),
    Symbol(String),
    Quote,
    List,
    Car,
    Cdr,
}

/// An expression: a constant, a binding form, an application, an anonymous
/// function, a runtime list value, or the absence-of-value sentinel.
#[derive(Debug)]
pub enum Expr {
    Constant(Atom),
    Define(Atom, Box<Expr>),
    Call(Box<Expr>, Vec<Expr>),
    Lambda(Vec<Atom>, Box<Expr>),
    List(Vec<Expr>),
    Nil,
}

/// The mathematical model of an `Atom`: numbers are unbounded integers and
/// symbol names are character sequences.
pub enum SpecAtom {
    Number(int),
    Operator(Operator),
    Symbol(Seq<char>),
    Quote,
    List,
    Car,
    Cdr,
}

/// The mathematical model of an `Expr`.
pub enum SpecExpr {
    Constant(SpecAtom),
    Define(SpecAtom, Box<SpecExpr>),
    Call(Box<SpecExpr>, Seq<SpecExpr>),
    Lambda(Seq<SpecAtom>, Box<SpecExpr>),
    List(Seq<SpecExpr>),
    Nil,
}

impl View for Atom {
    type V = SpecAtom;

    open spec fn view(&self) -> SpecAtom {
        match self {
            Atom::Number(n) => SpecAtom::Number(*n as int),
            Atom::Operator(op) => SpecAtom::Operator(*op),
            Atom::Symbol(name) => SpecAtom::Symbol(name@),
            Atom::Quote => SpecAtom::Quote,
            Atom::List => SpecAtom::List,
            Atom::Car => SpecAtom::Car,
            Atom::Cdr => SpecAtom::Cdr,
        }
    }
}

/// The model of an expression, defined by structural recursion.
pub open spec fn view_expr(e: Expr) -> SpecExpr
    decreases e, 0int,
{
    match e {
        Expr::Constant(a) => SpecExpr::Constant(a@),
        Expr::Define(name, value) => SpecExpr::Define(name@, Box::new(view_expr(*value))),
        Expr::Call(head, tail) => SpecExpr::Call(Box::new(view_expr(*head)), view_expr_vec(tail)),
        Expr::Lambda(params, body) => SpecExpr::Lambda(
            params@.map_values(|a: Atom| a@),
            Box::new(view_expr(*body)),
        ),
        Expr::List(items) => SpecExpr::List(view_expr_vec(items)),
        Expr::Nil => SpecExpr::Nil,
    }
}

/// The models of the expressions held by a vector.
pub open spec fn view_expr_vec(v: Vec<Expr>) -> Seq<SpecExpr>
    decreases v, 1int,
{
    view_expr_seq(v@)
}

/// The models of a sequence of expressions, element by element.
pub open spec fn view_expr_seq(s: Seq<Expr>) -> Seq<SpecExpr>
    decreases s, 0int,
{
    if s.len() == 0 {
        Seq::empty()
    } else {
        seq![view_expr(s[0])] + view_expr_seq(s.subrange(1, s.len() as int))
    }
}

/// `view_expr_seq` maps `view_expr` over the sequence.
pub proof fn lemma_view_expr_seq(s: Seq<Expr>)
    ensures
        view_expr_seq(s).len() == s.len(),
        forall|i: int| 0 <= i < s.len() ==> view_expr_seq(s)[i] == view_expr(s[i]),
    decreases s.len(),
{
    if s.len() > 0 {
        lemma_view_expr_seq(s.subrange(1, s.len() as int));
    }
}

impl View for Expr {
    type V = SpecExpr;

    open spec fn view(&self) -> SpecExpr {
        view_expr(*self)
    }
}

impl Atom {
    /// An owned copy with the same model.
    pub fn dup(&self) -> (r: Atom)
        ensures
            r@ == self@,
    {
        match self {
            Atom::Number(n) => Atom::Number(*n),
            Atom::Operator(op) => Atom::Operator(*op),
            Atom::Symbol(name) => Atom::Symbol(name.clone()),
            Atom::Quote => Atom::Quote,
            Atom::List => Atom::List,
            Atom::Car => Atom::Car,
            Atom::Cdr => Atom::Cdr,
        }
    }
}

impl Expr {
    /// An owned deep copy with the same model.
    pub fn dup(&self) -> (r: Expr)
        ensures
            r@ == self@,
        decreases self, 0int,
    {
        match self {
            Expr::Constant(a) => Expr::Constant(a.dup()),
            Expr::Define(name, value) => Expr::Define(name.dup(), Box::new((**value).dup())),
            Expr::Call(head, tail) => Expr::Call(Box::new((**head).dup()), dup_exprs(tail)),
            Expr::Lambda(params, body) => Expr::Lambda(
                dup_atoms(params),
                Box::new((**body).dup()),
            ),
            Expr::List(items) => Expr::List(dup_exprs(items)),
            Expr::Nil => Expr::Nil,
        }
    }
}

/// An owned deep copy of a vector of expressions, element by element.
fn dup_exprs(v: &Vec<Expr>) -> (r: Vec<Expr>)
    ensures
        view_expr_vec(r) == view_expr_vec(*v),
    decreases v, 1int,
{
    let mut r: Vec<Expr> = Vec::new();
    let mut i: usize = 0;
    while i < v.len()
        invariant
            i <= v.len(),
            r@.len() == i,
            forall|j: int| 0 <= j < i ==> view_expr(#[trigger] r@[j]) == view_expr(v@[j]),
        decreases v@.len() - i,
    {
        proof {
            assert(decreases_to!(*v => v@));
            assert(decreases_to!(v@ => v@[i as int]));
        }
        r.push(v[i].dup());
        i += 1;
    }
    proof {
        lemma_view_expr_seq(r@);
        lemma_view_expr_seq(v@);
        assert(view_expr_seq(r@) =~= view_expr_seq(v@));
    }
    r
}

/// An owned copy of a vector of atoms, element by element.
fn dup_atoms(v: &Vec<Atom>) -> (r: Vec<Atom>)
    ensures
        r@.map_values(|a: Atom| a@) == v@.map_values(|a: Atom| a@),
{
    let mut r: Vec<Atom> = Vec::new();
    let mut i: usize = 0;
    while i < v.len()
        invariant
            i <= v.len(),
            r@.len() == i,
            forall|j: int| 0 <= j < i ==> (#[trigger] r@[j])@ == v@[j]@,
        decreases v@.len() - i,
    {
        r.push(v[i].dup());
        i += 1;
    }
    proof {
        assert(r@.map_values(|a: Atom| a@) =~= v@.map_values(|a: Atom| a@));
    }
    r
}

} // verus!
