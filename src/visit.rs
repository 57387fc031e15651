//! The shared walk: the sub-expressions of each statement, in the order that
//! every pass visits them. Within an expression every pass visits children
//! left to right and handles a node after its children.
use vstd::prelude::*;
use crate::ast::{Expr, Stmt};

verus! {

/// The sub-expressions of a statement, in visiting order.
pub open spec fn operands<N>(s: Stmt<N>) -> Seq<Expr<N>> {
    match s {
        Stmt::Draw(a, b, c, d, e, f) => seq![*a, *b, *c, *d, *e, *f],
        Stmt::Rot(a) => seq![*a],
        Stmt::Scale(a, b) => seq![*a, *b],
        Stmt::Origin(a, b) => seq![*a, *b],
        Stmt::EOI => Seq::empty(),
    }
}

impl<N> Stmt<N> {
    /// The statement's sub-expressions, in the order every pass visits them.
    pub fn operands(&self) -> (r: Vec<&Expr<N>>)
        ensures
            r@.len() == operands(*self).len(),
            forall|i: int| 0 <= i < r@.len() ==> *r@[i] == #[trigger] operands(*self)[i],
    {
        match self {
            Stmt::Draw(a, b, c, d, e, f) => vec![&**a, &**b, &**c, &**d, &**e, &**f],
            Stmt::Rot(a) => vec![&**a],
            Stmt::Scale(a, b) => vec![&**a, &**b],
            Stmt::Origin(a, b) => vec![&**a, &**b],
            Stmt::EOI => Vec::new(),
        }
    }
}

} // verus!
