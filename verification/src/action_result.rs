//! The values a parse produces.

use vstd::prelude::*;

verus! {

/// The mathematical value of a successful parse.
pub ghost enum Ast {
    /// The span of input from `start` up to `end`.
    Value(int, int),
    /// A literal string put in by an action.
    Literal(Seq<char>),
    /// A tagged node over its children, in order.
    Construct(Seq<char>, Seq<Ast>),
    /// What an action yields for a name that nothing captured.
    Error,
}

/// The value of a successful parse.
#[derive(Debug, PartialEq, Eq)]
pub enum ActionResult {
    /// A span of input, as start and end offsets.
    Value((usize, usize)),
    /// A literal string put in by an action.
    Literal(String),
    /// A tagged node over its children, in order.
    Construct(String, Vec<ActionResult>),
    /// What an action yields for a name that nothing captured.
    Error,
}

/// The mathematical value that `r` stands for.
pub open spec fn ast_of(r: ActionResult) -> Ast
    decreases r, 0int,
{
    match r {
        ActionResult::Value(span) => Ast::Value(span.0 as int, span.1 as int),
        ActionResult::Literal(text) => Ast::Literal(text@),
        ActionResult::Construct(tag, children) => Ast::Construct(
            tag@,
            asts_of(children@, children@.len() as int),
        ),
        ActionResult::Error => Ast::Error,
    }
}

/// The mathematical values of the first `n` of `rs`, in order.
pub open spec fn asts_of(rs: Seq<ActionResult>, n: int) -> Seq<Ast>
    decreases rs, n,
{
    if 0 < n <= rs.len() {
        asts_of(rs, n - 1).push(ast_of(rs[n - 1]))
    } else {
        Seq::empty()
    }
}

/// Two sequences with the same values one by one have the same values.
pub proof fn lemma_asts_of_same(a: Seq<ActionResult>, b: Seq<ActionResult>, n: int)
    requires
        0 <= n <= a.len(),
        n <= b.len(),
        forall|j: int| 0 <= j < n ==> ast_of(#[trigger] a[j]) == ast_of(b[j]),
    ensures
        asts_of(a, n) == asts_of(b, n),
    decreases n,
{
    if n > 0 {
        lemma_asts_of_same(a, b, n - 1);
    }
}

impl View for ActionResult {
    type V = Ast;

    open spec fn view(&self) -> Ast {
        ast_of(*self)
    }
}

impl Clone for ActionResult {
    /// A deep copy: it stands for the same value.
    fn clone(&self) -> (r: Self)
        ensures
            r@ == self@,
        decreases self,
    {
        match self {
            ActionResult::Value(span) => ActionResult::Value((span.0, span.1)),
            ActionResult::Literal(text) => ActionResult::Literal(text.clone()),
            ActionResult::Construct(tag, children) => {
                let mut copies: Vec<ActionResult> = Vec::new();
                let mut i: usize = 0;
                while i < children.len()
                    invariant
                        self matches ActionResult::Construct(_, cs) && cs == children,
                        i <= children.len(),
                        copies@.len() == i,
                        forall|j: int| 0 <= j < i ==> ast_of(#[trigger] copies@[j]) == ast_of(children@[j]),
                    decreases children.len() - i,
                {
                    copies.push(children[i].clone());
                    i += 1;
                }
                proof {
                    lemma_asts_of_same(copies@, children@, children@.len() as int);
                }
                ActionResult::Construct(tag.clone(), copies)
            },
            ActionResult::Error => ActionResult::Error,
        }
    }
}

} // verus!
