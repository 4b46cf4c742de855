//! The intermediate representation that the syntax tree is lowered to.

use vstd::prelude::*;

verus! {

/// The name of a place in the code.
pub type Label = String;

#[derive(Debug)]
pub enum Expr {
    Name(String),
    Temp(),
    ArithOp(ArithOp, Box<Expr>, Box<Expr>),
}

#[derive(Debug)]
pub enum Stmt {
    Move(Expr, Expr),
    Expr(Expr),
    Jump(Expr),
    /// Compares the two expressions and jumps to the first label where the
    /// comparison holds, to the second where it does not.
    CondJump(CompOp, Expr, Expr, Label, Label),
    Sequence(Box<Stmt>, Box<Stmt>),
    Label(Label),
}

#[derive(Debug, Clone, Copy, PartialEq, Eq, Structural)]
pub enum ArithOp {
    Add,
    Sub,
    Mul,
    Div,
    LShift,
    RShift,
    ARShift,
    And,
    Or,
    Xor,
}

#[derive(Debug, Clone, Copy, PartialEq, Eq, Structural)]
pub enum CompOp {
    Eq,
    Neq,
    Lt,
    Gt,
    Lte,
    Gte,
    ULt,
    UGt,
    ULte,
    UGte,
}

} // verus!
