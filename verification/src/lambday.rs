//! The terms of the core language: product, sum and function types with
//! their constructors and destructors, the type of types, and variables.

use vstd::prelude::*;
use std::rc::Rc;
use crate::jerror::Span;

verus! {

/// A term, as a mathematical value. Each form holds the region of the
/// source that it was read from.
pub ghost enum Term {
    Var((int, int), Seq<char>),
    TypeType((int, int)),
    FunType((int, int), Box<Term>, Box<Term>),
    FunConstr((int, int), Seq<char>, Box<Term>, Box<Term>),
    FunDestr((int, int), Box<Term>, Box<Term>),
    ProdType((int, int), Seq<Term>),
    ProdConstr((int, int), Box<Term>, Seq<Term>),
    ProdDestr((int, int), Box<Term>, int),
    SumType((int, int), Seq<Term>),
    SumConstr((int, int), Box<Term>, int, Box<Term>),
    SumDestr((int, int), Box<Term>, Box<Term>, Seq<Term>),
}

/// A term. Each form holds the region of the source that it was read
/// from.
#[derive(Debug, PartialEq, Eq)]
pub enum LambdayTerm {
    /// A variable, by name.
    Var(Span, String),
    /// The type of types.
    TypeType(Span),
    /// The type of functions from the first type to the second.
    FunType(Span, Rc<LambdayTerm>, Rc<LambdayTerm>),
    /// A function: the parameter's name and type, and the body.
    FunConstr(Span, String, Rc<LambdayTerm>, Rc<LambdayTerm>),
    /// An application: the function and the argument.
    FunDestr(Span, Rc<LambdayTerm>, Rc<LambdayTerm>),
    /// A product type over its component types.
    ProdType(Span, Vec<Rc<LambdayTerm>>),
    /// A tuple: its type and its components.
    ProdConstr(Span, Rc<LambdayTerm>, Vec<Rc<LambdayTerm>>),
    /// A projection: the tuple and the component's index.
    ProdDestr(Span, Rc<LambdayTerm>, usize),
    /// A sum type over its variant types.
    SumType(Span, Vec<Rc<LambdayTerm>>),
    /// An injection: the sum type, the variant's index and the value.
    SumConstr(Span, Rc<LambdayTerm>, usize, Rc<LambdayTerm>),
    /// A case analysis: the value, the result type and one branch for
    /// each variant.
    SumDestr(Span, Rc<LambdayTerm>, Rc<LambdayTerm>, Vec<Rc<LambdayTerm>>),
}

/// A region as a pair of mathematical positions.
pub open spec fn region(span: Span) -> (int, int) {
    (span.0 as int, span.1 as int)
}

/// The mathematical value of a term.
pub open spec fn term_of(t: LambdayTerm) -> Term
    decreases t, 0int,
{
    match t {
        LambdayTerm::Var(span, name) => Term::Var(region(span), name@),
        LambdayTerm::TypeType(span) => Term::TypeType(region(span)),
        LambdayTerm::FunType(span, a, b) => Term::FunType(region(span), Box::new(term_of(*a)), Box::new(term_of(*b))),
        LambdayTerm::FunConstr(span, name, a, b) => Term::FunConstr(
            region(span),
            name@,
            Box::new(term_of(*a)),
            Box::new(term_of(*b)),
        ),
        LambdayTerm::FunDestr(span, a, b) => Term::FunDestr(
            region(span),
            Box::new(term_of(*a)),
            Box::new(term_of(*b)),
        ),
        LambdayTerm::ProdType(span, ts) => Term::ProdType(region(span), terms_of(ts@, ts@.len() as int)),
        LambdayTerm::ProdConstr(span, a, ts) => Term::ProdConstr(
            region(span),
            Box::new(term_of(*a)),
            terms_of(ts@, ts@.len() as int),
        ),
        LambdayTerm::ProdDestr(span, a, n) => Term::ProdDestr(region(span), Box::new(term_of(*a)), n as int),
        LambdayTerm::SumType(span, ts) => Term::SumType(region(span), terms_of(ts@, ts@.len() as int)),
        LambdayTerm::SumConstr(span, a, n, b) => Term::SumConstr(
            region(span),
            Box::new(term_of(*a)),
            n as int,
            Box::new(term_of(*b)),
        ),
        LambdayTerm::SumDestr(span, a, b, ts) => Term::SumDestr(
            region(span),
            Box::new(term_of(*a)),
            Box::new(term_of(*b)),
            terms_of(ts@, ts@.len() as int),
        ),
    }
}

/// The mathematical values of the first `n` of `ts`, in order.
pub open spec fn terms_of(ts: Seq<Rc<LambdayTerm>>, n: int) -> Seq<Term>
    decreases ts, n,
{
    if 0 < n <= ts.len() {
        terms_of(ts, n - 1).push(term_of(*ts[n - 1]))
    } else {
        Seq::empty()
    }
}

impl View for LambdayTerm {
    type V = Term;

    open spec fn view(&self) -> Term {
        term_of(*self)
    }
}

/// `terms_of` maps the terms one by one.
pub proof fn lemma_terms_of(ts: Seq<Rc<LambdayTerm>>, n: int)
    requires
        0 <= n <= ts.len(),
    ensures
        terms_of(ts, n).len() == n,
        forall|j: int| 0 <= j < n ==> #[trigger] terms_of(ts, n)[j] == term_of(*ts[j]),
    decreases n,
{
    if n > 0 {
        lemma_terms_of(ts, n - 1);
    }
}

/// The mathematical values of the first `n` of `ts`, in order.
pub open spec fn term_list(ts: Seq<LambdayTerm>, n: int) -> Seq<Term>
    decreases n,
{
    if 0 < n <= ts.len() {
        term_list(ts, n - 1).push(term_of(ts[n - 1]))
    } else {
        Seq::empty()
    }
}

/// `term_list` maps the terms one by one.
pub proof fn lemma_term_list(ts: Seq<LambdayTerm>, n: int)
    requires
        0 <= n <= ts.len(),
    ensures
        term_list(ts, n).len() == n,
        forall|j: int| 0 <= j < n ==> #[trigger] term_list(ts, n)[j] == term_of(ts[j]),
    decreases n,
{
    if n > 0 {
        lemma_term_list(ts, n - 1);
    }
}

/// The values of a list that grew by one term.
pub proof fn lemma_term_list_push(ts: Seq<LambdayTerm>, t: LambdayTerm)
    ensures
        term_list(ts.push(t), (ts.len() + 1) as int) == term_list(ts, ts.len() as int).push(term_of(t)),
{
    lemma_term_list(ts, ts.len() as int);
    lemma_term_list(ts.push(t), (ts.len() + 1) as int);
    assert(term_list(ts.push(t), (ts.len() + 1) as int) =~= term_list(ts, ts.len() as int).push(term_of(t)));
}

/// The terms of a list, each behind a shared pointer, in the same order.
pub fn share_terms(terms: Vec<LambdayTerm>) -> (r: Vec<Rc<LambdayTerm>>)
    ensures
        terms_of(r@, r@.len() as int) == term_list(terms@, terms@.len() as int),
{
    let mut shared: Vec<Rc<LambdayTerm>> = Vec::new();
    for t in it: terms
        invariant
            shared@.len() == it.index(),
            forall|i: int| 0 <= i < shared@.len() ==> *shared@[i] == it.seq()[i],
    {
        shared.push(Rc::new(t));
    }
    proof {
        lemma_terms_of(shared@, shared@.len() as int);
        lemma_term_list(terms@, terms@.len() as int);
        assert(terms_of(shared@, shared@.len() as int) =~= term_list(terms@, terms@.len() as int));
    }
    shared
}

} // verus!
