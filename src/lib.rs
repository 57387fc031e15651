//! A small language of parametric curves: an expression tree, a role checker,
//! a constant-folding normaliser, a per-sample solver and the execution engine
//! that turns `draw` statements into transformed points.
//!
//! Numbers are kept abstract: every numeric value has a type parameter `N`,
//! and the arithmetic on it is handed in as a pure function (see `numeric`).
pub mod ast;
pub mod environment;
pub mod error;
pub mod numeric;
pub mod visit;
pub mod typeck;
pub mod fold;
pub mod runtime_solver;
pub mod interpreter;
