//! The mathematical model of an abstract syntax tree.
//!
//! [`Expr`] is the ghost-level tree that the contracts of the lexer, the
//! grammar and the entry point speak about.  The executable side never builds
//! an `Expr`; it builds nodes in a [`crate::arena::CtorTable`] and the
//! contracts state which `Expr` the returned handle denotes.

use vstd::prelude::*;

verus! {

/// The named unary functions of the grammar.  A function keyword is always
/// followed by a parenthesized argument; it is never a bare variable.
#[derive(Clone, Copy, Debug, PartialEq, Eq, Structural)]
pub enum FuncKind {
    Abs,
    Floor,
    Ceil,
    Sin,
    Cos,
    Tan,
}

/// The binary operators of the grammar.  Implicit multiplication of two
/// adjacent atoms produces `Multiply`, exactly as the explicit `*` does.
#[derive(Clone, Copy, Debug, PartialEq, Eq, Structural)]
pub enum BinOp {
    Add,
    Subtract,
    Multiply,
    Divide,
    Modulo,
    Exponent,
}

/// One abstract-syntax tree.  `Number` keeps the literal text of the numeric
/// constant; `Variable` keeps the display name, with a subscript already
/// joined to its base character (`a_12`).  `Pi` and `E` are zero-argument
/// leaves.
pub enum Expr {
    Number(Seq<char>),
    Variable(Seq<char>),
    Binary(BinOp, Box<Expr>, Box<Expr>),
    Apply(FuncKind, Box<Expr>),
    Pi,
    E,
}

} // verus!
