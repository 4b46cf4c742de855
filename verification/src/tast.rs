//! The typed syntax tree: the syntax tree with a type at each expression.

use crate::ast;
use crate::ast::{BinOp, Class, LValue, Path, Pattern, Position, Use};
use crate::symbol::{Symbol, SymbolTable};
use crate::types::{lemma_model_func, models, Ty, Type};
use crate::unify::TypeError;
use vstd::prelude::*;

verus! {

#[derive(Debug)]
pub struct Program(pub Vec<Decl>);

#[derive(Debug)]
pub struct Decl {
    pub kind: DeclKind,
    pub pos: Position,
}

#[derive(Debug)]
pub enum DeclKind {
    Class(Class),
    Extern(Symbol, Vec<Type>, Type),
    Func(Func),
    Type(Type),
    Use(Use),
}

#[derive(Debug)]
pub struct Expr {
    pub kind: ExprKind,
    pub pos: Position,
    pub ty: Type,
}

#[derive(Debug)]
pub enum ExprKind {
    BinOp(Box<Expr>, BinOp, Box<Expr>),
    /// A call: what is called, and the argument.
    Call(Box<Expr>, Box<Expr>),
    IntLiteral(String),
    Path(Path),
    Range(Box<Expr>, Box<Expr>),
    StringLiteral(String),
    Unit,
    Var(Symbol),
}

#[derive(Debug)]
pub struct Func {
    pub name: Symbol,
    pub args: Vec<FuncArg>,
    pub returns: Type,
    pub body: Vec<Stmt>,
}

#[derive(Debug)]
pub struct FuncArg(pub Symbol, pub Type);

#[derive(Debug)]
pub struct Stmt {
    pub kind: StmtKind,
    pub pos: Position,
}

#[derive(Debug)]
pub enum StmtKind {
    Expr(Expr),
    ForLoop(Pattern, Expr, Vec<Stmt>),
    Let(LValue, Expr),
    Return(Expr),
}

/// How many fresh symbols the typed form of `expr` takes: one for each
/// node that the typed form keeps, but none for a unit literal.
pub open spec fn sites(expr: ast::Expr) -> nat
    decreases expr,
{
    match expr.kind {
        ast::ExprKind::BinOp(left, _, right) => sites(*left) + sites(*right) + 1,
        ast::ExprKind::Call(callee, arg) => sites(*callee) + sites(*arg) + 1,
        ast::ExprKind::Unit => 0,
        _ => 1,
    }
}

/// The unification variable under the symbol with the number `n`.
pub open spec fn variable(n: nat) -> Type {
    Type::UnificationVar(n as Symbol)
}

/// The typed form of `expr` where `first` is the next fresh symbol. The
/// operands of an operator and the parts of a call come before the node
/// itself. A unit literal has the unit type; every other node has a
/// unification variable of its own. Of an expression that is no binary
/// operation, call or literal of an integer or of unit, the typed form keeps
/// the place and a unit node.
pub open spec fn typed(expr: ast::Expr, first: nat) -> Expr
    decreases expr,
{
    match expr.kind {
        ast::ExprKind::BinOp(left, op, right) => Expr {
            kind: ExprKind::BinOp(
                Box::new(typed(*left, first)),
                op,
                Box::new(typed(*right, first + sites(*left))),
            ),
            pos: expr.pos,
            ty: variable(first + sites(*left) + sites(*right)),
        },
        ast::ExprKind::Call(callee, arg) => Expr {
            kind: ExprKind::Call(
                Box::new(typed(*callee, first)),
                Box::new(typed(*arg, first + sites(*callee))),
            ),
            pos: expr.pos,
            ty: variable(first + sites(*callee) + sites(*arg)),
        },
        ast::ExprKind::IntLiteral(digits) => Expr {
            kind: ExprKind::IntLiteral(digits),
            pos: expr.pos,
            ty: variable(first),
        },
        ast::ExprKind::Unit => Expr { kind: ExprKind::Unit, pos: expr.pos, ty: Type::Unit },
        _ => Expr { kind: ExprKind::Unit, pos: expr.pos, ty: variable(first) },
    }
}

/// `n` symbols without a name.
pub open spec fn unnamed(n: nat) -> Seq<Option<Seq<char>>> {
    Seq::new(n, |k: int| None)
}

impl Expr {
    /// The typed form of `expr`, with fresh symbols from `symbols`.
    pub fn from(expr: ast::Expr, symbols: &mut SymbolTable) -> (made: Result<Expr, TypeError>)
        requires
            old(symbols).wf(),
        ensures
            final(symbols).wf(),
            final(symbols)@ == old(symbols)@ + unnamed(sites(expr)),
            made matches Ok(tree) && tree == typed(expr, old(symbols)@.len()),
        decreases expr,
    {
        let ghost before = symbols@;
        let pos: Position = expr.pos;
        match expr.kind {
            ast::ExprKind::BinOp(left, op, right) => {
                let ghost first = sites(*left);
                let ghost second = sites(*right);
                let left: Expr = match Expr::from(*left, symbols) {
                    Ok(tree) => tree,
                    Err(error) => {
                        return Err(error);
                    },
                };
                let right: Expr = match Expr::from(*right, symbols) {
                    Ok(tree) => tree,
                    Err(error) => {
                        return Err(error);
                    },
                };
                let ty: Type = Type::gen(symbols);
                proof {
                    assert(symbols@ =~= before + unnamed(first + second + 1));
                }
                Ok(Expr { kind: ExprKind::BinOp(Box::new(left), op, Box::new(right)), pos, ty })
            },
            ast::ExprKind::Call(callee, arg) => {
                let ghost first = sites(*callee);
                let ghost second = sites(*arg);
                let callee: Expr = match Expr::from(*callee, symbols) {
                    Ok(tree) => tree,
                    Err(error) => {
                        return Err(error);
                    },
                };
                let arg: Expr = match Expr::from(*arg, symbols) {
                    Ok(tree) => tree,
                    Err(error) => {
                        return Err(error);
                    },
                };
                let ty: Type = Type::gen(symbols);
                proof {
                    assert(symbols@ =~= before + unnamed(first + second + 1));
                }
                Ok(Expr { kind: ExprKind::Call(Box::new(callee), Box::new(arg)), pos, ty })
            },
            ast::ExprKind::IntLiteral(digits) => {
                let ty: Type = Type::gen(symbols);
                proof {
                    assert(symbols@ =~= before + unnamed(1));
                }
                Ok(Expr { kind: ExprKind::IntLiteral(digits), pos, ty })
            },
            ast::ExprKind::Unit => {
                proof {
                    assert(symbols@ =~= before + unnamed(0));
                }
                Ok(Expr { kind: ExprKind::Unit, pos, ty: Type::Unit })
            },
            _ => {
                let ty: Type = Type::gen(symbols);
                proof {
                    assert(symbols@ =~= before + unnamed(1));
                }
                Ok(Expr { kind: ExprKind::Unit, pos, ty })
            },
        }
    }
}

impl Func {
    /// A function has no typed form: the conversion fails.
    pub fn from(func: ast::Func) -> (made: Result<Func, TypeError>)
        ensures
            made matches Err(TypeError::Untyped),
    {
        Err(TypeError::Untyped)
    }
}

/// The typed form of the kind of a declaration, where it has one.
pub open spec fn typed_kind(kind: ast::DeclKind) -> Option<DeclKind> {
    match kind {
        ast::DeclKind::Class(class) => Some(DeclKind::Class(class)),
        ast::DeclKind::Extern(name, params, result) => Some(DeclKind::Extern(name, params, result)),
        ast::DeclKind::Func(_) => None,
        ast::DeclKind::Type(t) => Some(DeclKind::Type(t)),
        ast::DeclKind::Use(import) => Some(DeclKind::Use(import)),
    }
}

/// The models of the types of the parameters `args`, in order.
pub open spec fn arg_models(args: Seq<FuncArg>) -> Seq<Ty> {
    Seq::new(args.len(), |k: int| args[k].1@)
}

/// The name that a declaration brings, and the type of what it names: for
/// a function, defined here or elsewhere, the function type from the types
/// of its parameters to the type of its result.
pub open spec fn signature(decl: Decl) -> Option<(Symbol, Ty)> {
    match decl.kind {
        DeclKind::Extern(name, params, result) => Some(
            (name, Ty::Func(models(params@), Box::new(result@))),
        ),
        DeclKind::Func(func) => Some(
            (func.name, Ty::Func(arg_models(func.args@), Box::new(func.returns@))),
        ),
        _ => None,
    }
}

impl Decl {
    /// The name that the declaration brings, and the type of what it names.
    pub fn get_signature(&self) -> (found: Option<(Symbol, Type)>)
        ensures
            match found {
                Some((name, t)) => signature(*self) == Some((name, t@)),
                None => signature(*self).is_none(),
            },
    {
        match &self.kind {
            DeclKind::Extern(name, params, target) => {
                let mut copy: Vec<Type> = Vec::new();
                let mut k: usize = 0;
                while k < params.len()
                    invariant
                        k <= params@.len(),
                        copy@.len() == k,
                        forall|j: int| 0 <= j < k ==> copy@[j]@ == params@[j]@,
                    decreases params@.len() - k,
                {
                    copy.push(params[k].clone());
                    k += 1;
                }
                let result: Type = target.clone();
                proof {
                    lemma_model_func(copy, Box::new(result));
                    assert(models(copy@) =~= models(params@));
                }
                Some((*name, Type::Func(copy, Box::new(result))))
            },
            DeclKind::Func(func) => {
                let mut params: Vec<Type> = Vec::new();
                let mut k: usize = 0;
                while k < func.args.len()
                    invariant
                        k <= func.args@.len(),
                        params@.len() == k,
                        forall|j: int| 0 <= j < k ==> params@[j]@ == func.args@[j].1@,
                    decreases func.args@.len() - k,
                {
                    params.push(func.args[k].1.clone());
                    k += 1;
                }
                let result: Type = func.returns.clone();
                proof {
                    lemma_model_func(params, Box::new(result));
                    assert(models(params@) =~= arg_models(func.args@));
                }
                Some((func.name, Type::Func(params, Box::new(result))))
            },
            _ => None,
        }
    }

    /// The typed form of `decl`: the declaration as it is, unless it
    /// declares a function, which has no typed form.
    pub fn from(decl: ast::Decl) -> (made: Result<Decl, TypeError>)
        ensures
            match made {
                Ok(tree) => typed_kind(decl.kind) == Some(tree.kind) && tree.pos == decl.pos,
                Err(error) => typed_kind(decl.kind).is_none() && error matches TypeError::Untyped,
            },
    {
        let pos: Position = decl.pos;
        let kind: DeclKind = match decl.kind {
            ast::DeclKind::Class(class) => DeclKind::Class(class),
            ast::DeclKind::Extern(name, params, result) => DeclKind::Extern(name, params, result),
            ast::DeclKind::Func(func) => match Func::from(func) {
                Ok(tree) => DeclKind::Func(tree),
                Err(error) => {
                    return Err(error);
                },
            },
            ast::DeclKind::Type(t) => DeclKind::Type(t),
            ast::DeclKind::Use(import) => DeclKind::Use(import),
        };
        Ok(Decl { kind, pos })
    }
}

impl Program {
    /// The typed form of `program`: that of each declaration, in order. It
    /// fails where one of them fails.
    pub fn from(program: ast::Program) -> (made: Result<Program, TypeError>)
        ensures
            match made {
                Ok(tree) => tree.0@.len() == program.0@.len() && forall|k: int|
                    0 <= k < tree.0@.len() ==> typed_kind(#[trigger] program.0@[k].kind) == Some(
                        tree.0@[k].kind,
                    ) && tree.0@[k].pos == program.0@[k].pos,
                Err(error) => error matches TypeError::Untyped && exists|k: int|
                    0 <= k < program.0@.len() && typed_kind(#[trigger] program.0@[k].kind).is_none(),
            },
    {
        let mut decls: Vec<ast::Decl> = program.0;
        let ghost all = decls@;
        let mut reversed: Vec<Decl> = Vec::new();
        while decls.len() > 0
            invariant
                all == program.0@,
                decls@.len() + reversed@.len() == all.len(),
                decls@ == all.take(decls@.len() as int),
                forall|k: int|
                    0 <= k < reversed@.len() ==> typed_kind(
                        #[trigger] all[all.len() - 1 - k].kind,
                    ) == Some(reversed@[k].kind) && reversed@[k].pos == all[all.len() - 1 - k].pos,
            decreases decls@.len(),
        {
            let ghost before = decls@;
            let decl: ast::Decl = match decls.pop() {
                Some(decl) => decl,
                None => {
                    return Err(TypeError::Untyped);
                },
            };
            proof {
                assert(decl == all[decls@.len() as int]);
                assert(decls@ =~= all.take(decls@.len() as int));
            }
            match Decl::from(decl) {
                Ok(tree) => {
                    reversed.push(tree);
                },
                Err(error) => {
                    proof {
                        assert(typed_kind(program.0@[decls@.len() as int].kind).is_none());
                    }
                    return Err(error);
                },
            }
        }
        let mut made: Vec<Decl> = Vec::new();
        while reversed.len() > 0
            invariant
                made@.len() + reversed@.len() == all.len(),
                forall|k: int|
                    0 <= k < reversed@.len() ==> typed_kind(
                        #[trigger] all[all.len() - 1 - k].kind,
                    ) == Some(reversed@[k].kind) && reversed@[k].pos == all[all.len() - 1 - k].pos,
                forall|k: int|
                    0 <= k < made@.len() ==> typed_kind(#[trigger] all[k].kind) == Some(
                        made@[k].kind,
                    ) && made@[k].pos == all[k].pos,
            decreases reversed@.len(),
        {
            let ghost n = reversed@.len();
            match reversed.pop() {
                Some(tree) => {
                    proof {
                        assert(typed_kind(all[all.len() - 1 - (n - 1)].kind) == Some(tree.kind));
                    }
                    made.push(tree);
                },
                None => {},
            }
        }
        Ok(Program(made))
    }
}

} // verus!
