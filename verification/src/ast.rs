use vstd::prelude::*;

verus! {

/// Expression tree for dice notation.
///
/// Integer literals are non-negative at the lexical level; a leading minus
/// sign is kept structurally as `Neg`, so `--1` is `Neg(Neg(Constant(1)))`.
/// In `DieRoll(count, sides)` both operands are sub-expressions of their own,
/// which lets `(2+2)d(2+2)` stand.
#[derive(Debug, PartialEq, Eq)]
pub enum Expr {
    Constant(i32),
    DieRoll(Box<Expr>, Box<Expr>),
    Neg(Box<Expr>),
    Add(Box<Expr>, Box<Expr>),
    Sub(Box<Expr>, Box<Expr>),
    Mul(Box<Expr>, Box<Expr>),
    Div(Box<Expr>, Box<Expr>),
    Pow(Box<Expr>, Box<Expr>),
}

} // verus!
