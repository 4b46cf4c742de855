//! The syntax tree as the parser builds it.

use crate::symbol::Symbol;
use crate::types::{lemma_model_func, models, Ty, Type};
use vstd::prelude::*;

verus! {

/// Where a node stands in the source: the offsets of its first byte and of
/// the byte behind its last.
pub type Position = (usize, usize);

/// A path of names.
#[derive(Debug)]
pub struct Path(pub Vec<Symbol>);

#[derive(Debug, Clone, Copy, PartialEq, Eq, Structural)]
pub enum BinOp {
    LogicalOr,
    LogicalAnd,
    BitwiseOr,
    BitwiseXor,
    BitwiseAnd,
    Equals,
    NotEquals,
    LessThan,
    LessThanEquals,
    GreaterThan,
    GreaterThanEquals,
    LeftShift,
    RightShift,
    Add,
    Sub,
    Mul,
    Div,
    Mod,
}

#[derive(Debug, Clone, Copy, PartialEq, Eq, Structural)]
pub enum UnOp {
    LogicalNot,
    BitwiseNot,
}

/// What a `for` loop or a `match` binds.
#[derive(Debug)]
pub struct Pattern(pub Symbol);

/// What a `let` binds.
#[derive(Debug)]
pub struct LValue(pub Symbol);

/// A class: its name and its fields.
#[derive(Debug)]
pub struct Class {
    pub name: Symbol,
    pub fields: Vec<(Symbol, Type)>,
}

/// The import of what a path names.
#[derive(Debug)]
pub struct Use(pub Path);

#[derive(Debug)]
pub struct Program(pub Vec<Decl>);

#[derive(Debug)]
pub struct Decl {
    pub kind: DeclKind,
    pub pos: Position,
}

#[derive(Debug)]
pub enum DeclKind {
    Class(Class),
    /// A function defined elsewhere: its name, the types of its parameters,
    /// and the type of its result.
    Extern(Symbol, Vec<Type>, Type),
    Func(Func),
    Type(Type),
    Use(Use),
}

#[derive(Debug)]
pub struct Func {
    pub name: Symbol,
    pub args: Vec<(Symbol, Type)>,
    pub body: Vec<Stmt>,
    pub returns: Type,
}

#[derive(Debug)]
pub struct Stmt {
    pub kind: StmtKind,
    pub pos: Position,
}

#[derive(Debug)]
pub enum StmtKind {
    Expr(Expr),
    ForLoop(Pattern, Expr, Vec<Stmt>),
    Let(LValue, Expr),
    Return(Expr),
}

#[derive(Debug)]
pub struct Expr {
    pub kind: ExprKind,
    pub pos: Position,
}

#[derive(Debug)]
pub enum ExprKind {
    BinOp(Box<Expr>, BinOp, Box<Expr>),
    UnOp(UnOp, Box<Expr>),
    /// A call: what is called, and the argument.
    Call(Box<Expr>, Box<Expr>),
    IntLiteral(String),
    StringLiteral(String),
    Unit,
    Var(Symbol),
}

/// The models of the types of the parameters `args`, in order.
pub open spec fn arg_models(args: Seq<(Symbol, Type)>) -> Seq<Ty> {
    Seq::new(args.len(), |k: int| args[k].1@)
}

/// The name that a declaration brings, and the type of what it names: for
/// a function, defined here or elsewhere, the function type from the types
/// of its parameters to the type of its result.
pub open spec fn signature(decl: Decl) -> Option<(Symbol, Ty)> {
    match decl.kind {
        DeclKind::Extern(name, params, result) => Some(
            (name, Ty::Func(models(params@), Box::new(result@))),
        ),
        DeclKind::Func(func) => Some(
            (func.name, Ty::Func(arg_models(func.args@), Box::new(func.returns@))),
        ),
        _ => None,
    }
}

impl Decl {
    /// The name that the declaration brings, and the type of what it names.
    pub fn get_signature(&self) -> (found: Option<(Symbol, Type)>)
        ensures
            match found {
                Some((name, t)) => signature(*self) == Some((name, t@)),
                None => signature(*self).is_none(),
            },
    {
        match &self.kind {
            DeclKind::Extern(name, params, target) => {
                let mut copy: Vec<Type> = Vec::new();
                let mut k: usize = 0;
                while k < params.len()
                    invariant
                        k <= params@.len(),
                        copy@.len() == k,
                        forall|j: int| 0 <= j < k ==> copy@[j]@ == params@[j]@,
                    decreases params@.len() - k,
                {
                    copy.push(params[k].clone());
                    k += 1;
                }
                let result: Type = target.clone();
                proof {
                    lemma_model_func(copy, Box::new(result));
                    assert(models(copy@) =~= models(params@));
                }
                Some((*name, Type::Func(copy, Box::new(result))))
            },
            DeclKind::Func(func) => {
                let mut params: Vec<Type> = Vec::new();
                let mut k: usize = 0;
                while k < func.args.len()
                    invariant
                        k <= func.args@.len(),
                        params@.len() == k,
                        forall|j: int| 0 <= j < k ==> params@[j]@ == func.args@[j].1@,
                    decreases func.args@.len() - k,
                {
                    params.push(func.args[k].1.clone());
                    k += 1;
                }
                let result: Type = func.returns.clone();
                proof {
                    lemma_model_func(params, Box::new(result));
                    assert(models(params@) =~= arg_models(func.args@));
                }
                Some((func.name, Type::Func(params, Box::new(result))))
            },
            _ => None,
        }
    }
}

} // verus!
