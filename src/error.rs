//! The errors that end a run.
use vstd::prelude::*;

verus! {

/// The ways a program can fail. Every one of them ends the run.
#[derive(Clone, Copy, Debug, PartialEq, Eq, Structural)]
pub enum EngineError {
    /// An expression used in a role it cannot have: a non-constant where a
    /// constant is needed, a non-function as a call target, a draw target that
    /// is not the variable.
    RoleError,
    /// A name that the environment does not bind.
    UnknownIdentifier,
    /// A draw whose step does not fit in its range, or whose walk cannot
    /// advance towards the end of a non-empty range.
    ShapeError,
    /// A call with other than one argument.
    ArityError,
}

} // verus!
