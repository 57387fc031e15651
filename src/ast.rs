//! The syntax tree: expressions and statements over a numeric type `N`.
use vstd::prelude::*;

verus! {

/// Binary arithmetic operators.
#[derive(Clone, Copy, Debug, PartialEq, Eq, Structural)]
pub enum BinOp {
    Plus,
    Minus,
    Asterisk,
    Slash,
}

/// Unary operators: negation and unary plus.
#[derive(Clone, Copy, Debug, PartialEq, Eq, Structural)]
pub enum UnOp {
    Neg,
    Pos,
}

/// A literal of the numeric type `N`.
#[derive(Debug)]
pub enum Lit<N> {
    Number(N),
}

/// An identifier, by name.
#[derive(Debug)]
pub struct Ident {
    pub name: String,
}

/// Expressions. `Grouping` only records parentheses.
#[derive(Debug)]
pub enum Expr<N> {
    Binary(Box<Expr<N>>, BinOp, Box<Expr<N>>),
    Unary(UnOp, Box<Expr<N>>),
    Call(Box<Expr<N>>, Vec<Expr<N>>),
    Grouping(Box<Expr<N>>),
    Lit(Lit<N>),
    Ident(Ident),
}

/// Statements; `EOI` closes a statement sequence.
#[derive(Debug)]
pub enum Stmt<N> {
    Draw(Box<Expr<N>>, Box<Expr<N>>, Box<Expr<N>>, Box<Expr<N>>, Box<Expr<N>>, Box<Expr<N>>),
    Rot(Box<Expr<N>>),
    Scale(Box<Expr<N>>, Box<Expr<N>>),
    Origin(Box<Expr<N>>, Box<Expr<N>>),
    EOI,
}

impl Ident {
    /// An identifier with the given name.
    pub fn new(name: String) -> (r: Ident)
        ensures
            r.name@ == name@,
    {
        Ident { name }
    }

    /// A copy of the identifier.
    pub fn duplicate(&self) -> (r: Ident)
        ensures
            r.name@ == self.name@,
    {
        Ident { name: self.name.clone() }
    }
}

impl<N> Expr<N> {
    /// Whether the expression is a literal.
    pub open spec fn is_literal(self) -> bool {
        self is Lit
    }

    /// The value of a literal expression.
    pub open spec fn literal_value(self) -> N
        recommends
            self is Lit,
    {
        match self {
            Expr::Lit(Lit::Number(v)) => v,
            _ => arbitrary(),
        }
    }
}

} // verus!
