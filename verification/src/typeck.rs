//! The constraint generator: walks the typed syntax tree and collects the
//! constraints that its nodes imply.

use crate::constraint::{
    lemma_with_constraints_concat, lemma_with_one_constraint, with_constraints, Constraint,
    ConstraintSet,
};
use crate::env::Environment;
use crate::symbol::Symbol;
use crate::tast::{Decl, DeclKind, Expr, ExprKind, Func, Stmt, StmtKind};
use crate::types::{lemma_model_func, models, Ty, Type};
use crate::unify::named_types;
use vstd::prelude::*;

verus! {

broadcast use vstd::std_specs::hash::group_hash_axioms;

/// The constraints that `expr` implies. A call demands that the type of
/// what is called be the type of a function from the type of the argument
/// to the type of the call, and then what the callee and the argument
/// imply. The operands of an operator and the ends of a range imply what
/// they imply. A literal or a variable implies nothing.
pub open spec fn expr_constraints(expr: Expr) -> Seq<(Ty, Ty)>
    decreases expr,
{
    match expr.kind {
        ExprKind::Call(callee, arg) => seq![
            (callee.ty@, Ty::Func(seq![arg.ty@], Box::new(expr.ty@))),
        ] + expr_constraints(*callee) + expr_constraints(*arg),
        ExprKind::BinOp(left, _, right) => expr_constraints(*left) + expr_constraints(*right),
        ExprKind::Range(from, to) => expr_constraints(*from) + expr_constraints(*to),
        _ => Seq::empty(),
    }
}

/// The constraints that `stmt` implies: those of its expression, where it
/// is one or returns one. A loop or a binding implies nothing.
pub open spec fn stmt_constraints(stmt: Stmt) -> Seq<(Ty, Ty)> {
    match stmt.kind {
        StmtKind::Expr(expr) => expr_constraints(expr),
        StmtKind::Return(expr) => expr_constraints(expr),
        _ => Seq::empty(),
    }
}

/// The constraints that the first `n` statements of `body` imply.
pub open spec fn body_constraints(body: Seq<Stmt>, n: nat) -> Seq<(Ty, Ty)>
    decreases n,
{
    if n == 0 || n > body.len() {
        Seq::empty()
    } else {
        body_constraints(body, (n - 1) as nat) + stmt_constraints(body[n - 1])
    }
}

/// The constraint on the type of a function without parameters: the type
/// that its name stands for in `names` is the type of a function from
/// nothing to the type of its result. A function with parameters, or one
/// whose name stands for nothing, has none.
pub open spec fn func_constraint(func: Func, names: Map<Symbol, Ty>) -> Seq<(Ty, Ty)> {
    if func.args@.len() == 0 && names.contains_key(func.name) {
        seq![(names[func.name], Ty::Func(Seq::empty(), Box::new(func.returns@)))]
    } else {
        Seq::empty()
    }
}

/// The constraints that `decl` implies under `names`: for a function, the
/// constraint on its type and then what its body implies. Any other
/// declaration implies nothing.
pub open spec fn decl_constraints(decl: Decl, names: Map<Symbol, Ty>) -> Seq<(Ty, Ty)> {
    match decl.kind {
        DeclKind::Func(func) => func_constraint(func, names) + body_constraints(
            func.body@,
            func.body@.len(),
        ),
        _ => Seq::empty(),
    }
}

/// Adds to `constraints` what `expr` implies.
pub fn get_constraints_expr(
    type_env: &mut Environment<Symbol, Type>,
    constraints: &mut ConstraintSet,
    expr: &Expr,
)
    requires
        old(constraints).wf(),
    ensures
        final(constraints).wf(),
        final(constraints)@ == with_constraints(old(constraints)@, expr_constraints(*expr)),
        *final(type_env) == *old(type_env),
    decreases expr,
{
    let ghost before = constraints@;
    match &expr.kind {
        ExprKind::Call(callee, arg) => {
            let mut params: Vec<Type> = Vec::new();
            params.push(arg.ty.clone());
            let result: Type = expr.ty.clone();
            proof {
                lemma_model_func(params, Box::new(result));
                assert(models(params@) =~= seq![arg.ty@]);
            }
            let own: Constraint = Constraint(callee.ty.clone(), Type::Func(params, Box::new(result)));
            let ghost first = seq![own@];
            constraints.insert(own);
            get_constraints_expr(type_env, constraints, &**callee);
            get_constraints_expr(type_env, constraints, &**arg);
            proof {
                lemma_with_one_constraint(before, first[0]);
                lemma_with_constraints_concat(before, first, expr_constraints(**callee));
                lemma_with_constraints_concat(
                    before,
                    first + expr_constraints(**callee),
                    expr_constraints(**arg),
                );
            }
        },
        ExprKind::BinOp(left, _, right) => {
            get_constraints_expr(type_env, constraints, &**left);
            get_constraints_expr(type_env, constraints, &**right);
            proof {
                lemma_with_constraints_concat(
                    before,
                    expr_constraints(**left),
                    expr_constraints(**right),
                );
            }
        },
        ExprKind::Range(from, to) => {
            get_constraints_expr(type_env, constraints, &**from);
            get_constraints_expr(type_env, constraints, &**to);
            proof {
                lemma_with_constraints_concat(
                    before,
                    expr_constraints(**from),
                    expr_constraints(**to),
                );
            }
        },
        ExprKind::IntLiteral(_) => {},
        ExprKind::Path(_) => {},
        ExprKind::StringLiteral(_) => {},
        ExprKind::Unit => {},
        ExprKind::Var(_) => {},
    }
}

/// Adds to `constraints` what `stmt` implies.
pub fn get_constraints_stmt(
    type_env: &mut Environment<Symbol, Type>,
    constraints: &mut ConstraintSet,
    stmt: &Stmt,
)
    requires
        old(constraints).wf(),
    ensures
        final(constraints).wf(),
        final(constraints)@ == with_constraints(old(constraints)@, stmt_constraints(*stmt)),
        *final(type_env) == *old(type_env),
{
    match &stmt.kind {
        StmtKind::Expr(expr) => get_constraints_expr(type_env, constraints, expr),
        StmtKind::Return(expr) => get_constraints_expr(type_env, constraints, expr),
        StmtKind::ForLoop(_, _, _) => {},
        StmtKind::Let(_, _) => {},
    }
}

/// Adds to `constraints` what `decl` implies under the bindings of `type_env`.
pub fn get_constraints_decl(
    type_env: &mut Environment<Symbol, Type>,
    constraints: &mut ConstraintSet,
    decl: &Decl,
)
    requires
        old(constraints).wf(),
    ensures
        final(constraints).wf(),
        final(constraints)@ == with_constraints(
            old(constraints)@,
            decl_constraints(*decl, named_types(old(type_env)@)),
        ),
        *final(type_env) == *old(type_env),
{
    let ghost before = constraints@;
    match &decl.kind {
        DeclKind::Func(func) => {
            let ghost head = func_constraint(*func, named_types(type_env@));
            if func.args.len() == 0 {
                match type_env.lookup(func.name) {
                    Some(declared) => {
                        let result: Type = func.returns.clone();
                        let params: Vec<Type> = Vec::new();
                        proof {
                            lemma_model_func(params, Box::new(result));
                            assert(models(params@) =~= Seq::<Ty>::empty());
                        }
                        let own: Constraint = Constraint(
                            declared.clone(),
                            Type::Func(params, Box::new(result)),
                        );
                        proof {
                            assert(head =~= seq![own@]);
                            lemma_with_one_constraint(before, own@);
                        }
                        constraints.insert(own);
                    },
                    None => {},
                }
            }
            let mut n: usize = 0;
            proof {
                assert(head + body_constraints(func.body@, 0) =~= head);
            }
            while n < func.body.len()
                invariant
                    n <= func.body@.len(),
                    constraints.wf(),
                    constraints@ == with_constraints(
                        before,
                        head + body_constraints(func.body@, n as nat),
                    ),
                    *type_env == *old(type_env),
                decreases func.body@.len() - n,
            {
                get_constraints_stmt(type_env, constraints, &func.body[n]);
                proof {
                    lemma_with_constraints_concat(
                        before,
                        head + body_constraints(func.body@, n as nat),
                        stmt_constraints(func.body@[n as int]),
                    );
                    assert(head + body_constraints(func.body@, n as nat) + stmt_constraints(
                        func.body@[n as int],
                    ) =~= head + body_constraints(func.body@, (n + 1) as nat));
                }
                n += 1;
            }
        },
        DeclKind::Class(_) => {},
        DeclKind::Extern(_, _, _) => {},
        DeclKind::Type(_) => {},
        DeclKind::Use(_) => {},
    }
}

} // verus!
