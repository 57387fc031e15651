//! The number domain: arithmetic handed in as pure functions.
use vstd::prelude::*;
use crate::ast::BinOp;
use crate::environment::Builtin;

verus! {

/// One arithmetic step on numbers of type `N`. The engine never computes on
/// numbers itself: it names each step and hands it to the number domain.
#[derive(Debug)]
pub enum Reduction<N> {
    /// `lhs op rhs`.
    Binary(N, BinOp, N),
    /// `-x`.
    Negate(N),
    /// A builtin function applied to a number.
    Apply(Builtin, N),
    /// The constant π.
    Pi,
    /// `from + i * step`, with the index `i` converted to a number.
    Sample(N, usize, N),
}

/// The arithmetic is a total, pure function: it accepts every step and gives
/// one result for each.
pub open spec fn pure_arith<N, F: Fn(Reduction<N>) -> N>(f: F) -> bool {
    &&& forall|x: Reduction<N>| #[trigger] f.requires((x,))
    &&& forall|x: Reduction<N>, a: N, b: N|
        #[trigger] f.ensures((x,), a) && #[trigger] f.ensures((x,), b) ==> a == b
}

/// The comparison `a > b` is a total, pure function.
pub open spec fn pure_order<N, G: Fn(N, N) -> bool>(g: G) -> bool {
    &&& forall|a: N, b: N| #[trigger] g.requires((a, b))
    &&& forall|a: N, b: N, x: bool, y: bool|
        #[trigger] g.ensures((a, b), x) && #[trigger] g.ensures((a, b), y) ==> x == y
}

/// The result of one arithmetic step.
pub open spec fn reduce<N, F: Fn(Reduction<N>) -> N>(f: F, x: Reduction<N>) -> N {
    choose|v: N| f.ensures((x,), v)
}

/// Whether `a > b`.
pub open spec fn greater<N, G: Fn(N, N) -> bool>(g: G, a: N, b: N) -> bool {
    choose|v: bool| g.ensures((a, b), v)
}

/// Performs one arithmetic step.
pub fn apply<N, F: Fn(Reduction<N>) -> N>(f: &F, x: Reduction<N>) -> (r: N)
    requires
        pure_arith(*f),
    ensures
        r == reduce(*f, x),
{
    let r = f(x);
    assert(f.ensures((x,), r));
    r
}

/// Compares two numbers.
pub fn is_greater<N, G: Fn(N, N) -> bool>(g: &G, a: N, b: N) -> (r: bool)
    requires
        pure_order(*g),
    ensures
        r == greater(*g, a, b),
{
    let r = g(a, b);
    assert(g.ensures((a, b), r));
    r
}

} // verus!
