use mochi::ast;
use mochi::constraint::{Constraint, ConstraintSet};
use mochi::env::Environment;
use mochi::infer::{infer, seed};
use mochi::prelude::load_prelude;
use mochi::symbol::{Symbol, SymbolTable};
use mochi::tast;
use mochi::typeck::{get_constraints_decl, get_constraints_expr, get_constraints_stmt};
use mochi::types::Type;
use mochi::unify::{unify, unify_within, Substitution, TypeError, STEP_LIMIT};

fn func(params: Vec<Type>, result: Type) -> Type {
    Type::Func(params, Box::new(result))
}

fn set_of(pairs: Vec<(Type, Type)>) -> ConstraintSet {
    let mut set = ConstraintSet::new();
    for (first, second) in pairs {
        set.insert(Constraint(first, second));
    }
    set
}

fn pairs_of(set: &ConstraintSet) -> Vec<(Type, Type)> {
    (0..set.len())
        .map(|k| (set.get(k).0.clone(), set.get(k).1.clone()))
        .collect()
}

fn solved(result: Result<Substitution, TypeError>) -> Substitution {
    match result {
        Ok(substitution) => substitution,
        Err(error) => panic!("no solution: {:?}", error),
    }
}

fn failed(result: Result<Substitution, TypeError>) -> TypeError {
    match result {
        Ok(substitution) => panic!("a solution: {:?}", substitution),
        Err(error) => error,
    }
}

fn typed(kind: tast::ExprKind, ty: Type) -> tast::Expr {
    tast::Expr { kind, pos: (0, 0), ty }
}

fn untyped(kind: ast::ExprKind) -> ast::Expr {
    ast::Expr { kind, pos: (3, 4) }
}

#[test]
fn no_constraints_give_the_empty_substitution() {
    let env: Environment<Symbol, Type> = Environment::new();
    assert_eq!(solved(unify(ConstraintSet::new(), &env)).len(), 0);
    let mut env: Environment<Symbol, Type> = Environment::new();
    env.insert(1, Type::Bool);
    env.push_scope();
    env.insert(2, func(vec![Type::Named(1)], Type::Unit));
    assert_eq!(solved(unify(ConstraintSet::new(), &env)).len(), 0);
    assert_eq!(solved(unify_within(ConstraintSet::new(), &env, 0)).len(), 0);
}

#[test]
fn equal_types_bind_nothing() {
    let env: Environment<Symbol, Type> = Environment::new();
    let set = set_of(vec![(Type::Int32, Type::Int32)]);
    assert_eq!(solved(unify(set, &env)).len(), 0);
}

#[test]
fn variable_is_bound_to_the_other_type() {
    let env: Environment<Symbol, Type> = Environment::new();
    let a: Symbol = 7;
    let substitution = solved(unify(set_of(vec![(Type::UnificationVar(a), Type::Int32)]), &env));
    assert_eq!(substitution.len(), 1);
    assert_eq!(substitution.get(a), Some(&Type::Int32));
    assert_eq!(substitution.get(8), None);
    let substitution = solved(unify(set_of(vec![(Type::Bool, Type::UnificationVar(a))]), &env));
    assert_eq!(substitution.get(a), Some(&Type::Bool));
}

#[test]
fn function_types_of_different_arity_fail() {
    let env: Environment<Symbol, Type> = Environment::new();
    let set = set_of(vec![(
        func(vec![Type::Int32], Type::Bool),
        func(vec![Type::Int32, Type::Int32], Type::Bool),
    )]);
    assert_eq!(failed(unify(set, &env)), TypeError::ArityMismatch(1, 2));
}

#[test]
fn different_types_cannot_be_unified() {
    let env: Environment<Symbol, Type> = Environment::new();
    let set = set_of(vec![(Type::Bool, Type::Int32)]);
    assert_eq!(
        failed(unify(set, &env)),
        TypeError::CannotUnify(Type::Bool, Type::Int32)
    );
    let set = set_of(vec![(Type::Int32, func(vec![], Type::Int32))]);
    assert_eq!(
        failed(unify(set, &env)),
        TypeError::CannotUnify(Type::Int32, func(vec![], Type::Int32))
    );
}

#[test]
fn first_failure_ends_the_solving() {
    let env: Environment<Symbol, Type> = Environment::new();
    let set = set_of(vec![
        (Type::UnificationVar(1), Type::Int32),
        (Type::Bool, Type::Unit),
        (Type::Int64, Type::Sint64),
    ]);
    assert_eq!(
        failed(unify(set, &env)),
        TypeError::CannotUnify(Type::Bool, Type::Unit)
    );
}

#[test]
fn function_types_are_taken_apart() {
    let env: Environment<Symbol, Type> = Environment::new();
    let set = set_of(vec![(
        func(vec![Type::UnificationVar(1), Type::Int32], Type::UnificationVar(2)),
        func(vec![Type::Bool, Type::UnificationVar(3)], Type::Unit),
    )]);
    let substitution = solved(unify(set, &env));
    assert_eq!(substitution.len(), 3);
    assert_eq!(substitution.get(1), Some(&Type::Bool));
    assert_eq!(substitution.get(2), Some(&Type::Unit));
    assert_eq!(substitution.get(3), Some(&Type::Int32));
}

#[test]
fn mismatch_inside_function_types_fails() {
    let env: Environment<Symbol, Type> = Environment::new();
    let set = set_of(vec![(
        func(vec![Type::Int32], Type::Bool),
        func(vec![Type::Int32], Type::Unit),
    )]);
    assert_eq!(
        failed(unify(set, &env)),
        TypeError::CannotUnify(Type::Bool, Type::Unit)
    );
}

#[test]
fn later_binding_of_a_variable_wins() {
    let env: Environment<Symbol, Type> = Environment::new();
    let set = set_of(vec![
        (Type::UnificationVar(1), Type::Int32),
        (Type::UnificationVar(1), Type::Bool),
    ]);
    let substitution = solved(unify(set, &env));
    assert_eq!(substitution.len(), 1);
    assert_eq!(substitution.get(1), Some(&Type::Bool));
}

#[test]
fn variable_may_be_bound_to_a_type_that_holds_it() {
    let env: Environment<Symbol, Type> = Environment::new();
    let inside = func(vec![Type::UnificationVar(1)], Type::Unit);
    let set = set_of(vec![(Type::UnificationVar(1), inside.clone())]);
    assert_eq!(solved(unify(set, &env)).get(1), Some(&inside));
}

#[test]
fn named_type_is_replaced_by_what_its_name_is_bound_to() {
    let mut env: Environment<Symbol, Type> = Environment::new();
    env.insert(5, Type::Int32);
    let set = set_of(vec![(Type::Named(5), Type::Int32)]);
    assert_eq!(solved(unify(set, &env)).len(), 0);
    let set = set_of(vec![(Type::UnificationVar(1), Type::Named(5))]);
    assert_eq!(solved(unify(set, &env)).get(1), Some(&Type::Int32));
    let set = set_of(vec![(Type::Named(5), Type::Bool)]);
    assert_eq!(
        failed(unify(set, &env)),
        TypeError::CannotUnify(Type::Int32, Type::Bool)
    );
}

#[test]
fn name_without_binding_is_not_found() {
    let mut env: Environment<Symbol, Type> = Environment::new();
    env.insert(5, Type::Int32);
    let set = set_of(vec![(Type::Named(6), Type::Int32)]);
    assert_eq!(failed(unify(set, &env)), TypeError::NameNotFound(6));
    let set = set_of(vec![(Type::UnificationVar(1), Type::Named(6))]);
    assert_eq!(failed(unify(set, &env)), TypeError::NameNotFound(6));
}

#[test]
fn name_bound_to_itself_reaches_the_limit() {
    let mut env: Environment<Symbol, Type> = Environment::new();
    env.insert(5, Type::Named(5));
    let set = set_of(vec![(Type::Named(5), Type::Int32)]);
    assert_eq!(failed(unify_within(set, &env, 50)), TypeError::LimitReached);
    assert_eq!(STEP_LIMIT, 1000000);
}

#[test]
fn limit_counts_the_constraints_that_are_read() {
    let env: Environment<Symbol, Type> = Environment::new();
    let pairs = vec![
        (Type::UnificationVar(1), Type::Int32),
        (Type::UnificationVar(2), Type::Bool),
    ];
    assert_eq!(solved(unify_within(set_of(pairs.clone()), &env, 2)).len(), 2);
    assert_eq!(
        failed(unify_within(set_of(pairs), &env, 1)),
        TypeError::LimitReached
    );
}

#[test]
fn shadowing() {
    let mut env: Environment<Symbol, Type> = Environment::new();
    let x: Symbol = 1;
    env.insert(x, Type::Int32);
    env.push_scope();
    env.insert(x, Type::Bool);
    assert_eq!(env.lookup(x), Some(&Type::Bool));
    env.pop_scope();
    assert_eq!(env.lookup(x), Some(&Type::Int32));
}

#[test]
fn scopes_of_the_environment() {
    let mut env: Environment<u64, u32> = Environment::new();
    assert_eq!(env.depth(), 1);
    assert_eq!(env.lookup(1), None);
    env.insert(1, 10);
    env.insert(2, 20);
    env.insert(1, 11);
    assert_eq!(env.lookup(1), Some(&11));
    env.push_scope();
    assert_eq!(env.depth(), 2);
    assert_eq!(env.lookup(2), Some(&20));
    env.insert(3, 30);
    env.push_scope();
    env.insert(2, 22);
    assert_eq!(env.lookup(2), Some(&22));
    assert_eq!(env.lookup(3), Some(&30));
    env.pop_scope();
    assert_eq!(env.lookup(2), Some(&20));
    env.pop_scope();
    assert_eq!(env.depth(), 1);
    assert_eq!(env.lookup(3), None);
    assert_eq!(env.lookup(1), Some(&11));
}

#[test]
fn prelude_binds_int() {
    let mut symbols = SymbolTable::new();
    let mut env: Environment<Symbol, Type> = Environment::new();
    load_prelude(&mut env, &mut symbols);
    let name = symbols.intern("int");
    assert_eq!(symbols.len(), 1);
    assert_eq!(env.lookup(name), Some(&Type::Int32));
    let set = set_of(vec![(Type::UnificationVar(9), Type::Named(name))]);
    assert_eq!(solved(unify(set, &env)).get(9), Some(&Type::Int32));
}

#[test]
fn symbols_of_names_and_fresh_symbols() {
    let mut symbols = SymbolTable::new();
    let a = symbols.intern("a");
    let b = symbols.intern("b");
    let g = symbols.gensym();
    let h = symbols.gensym();
    assert_eq!(symbols.intern("a"), a);
    assert_eq!(symbols.intern("b"), b);
    assert_ne!(a, b);
    assert_ne!(g, h);
    assert_ne!(g, a);
    assert_ne!(g, b);
    assert_eq!(symbols.len(), 4);
    assert_eq!(symbols.name(a).map(|name| name.as_str()), Some("a"));
    assert_eq!(symbols.name(g), None);
    assert_eq!(symbols.name(99), None);
    let c = symbols.intern("c");
    assert_ne!(c, h);
    assert_eq!(symbols.len(), 5);
}

#[test]
fn fresh_variables_are_never_equal() {
    let mut symbols = SymbolTable::new();
    let mut seen: Vec<Type> = Vec::new();
    for _ in 0..20 {
        let fresh = Type::gen(&mut symbols);
        assert!(matches!(fresh, Type::UnificationVar(_)));
        assert!(!seen.contains(&fresh));
        seen.push(fresh);
    }
    assert_eq!(seen[0], Type::UnificationVar(0));
    assert_eq!(seen[19], Type::UnificationVar(19));
}

#[test]
fn free_symbols_of_types() {
    assert_eq!(Type::Unit.freevars(), Vec::<Symbol>::new());
    assert_eq!(Type::Float64.freevars(), Vec::<Symbol>::new());
    assert_eq!(Type::Named(3).freevars(), vec![3]);
    assert_eq!(Type::UnificationVar(4).freevars(), vec![4]);
    let t = func(
        vec![
            Type::Named(1),
            Type::Struct(vec![(9, Type::UnificationVar(2)), (8, Type::Named(1))]),
            Type::Int32,
        ],
        Type::App(Box::new(Type::Named(3)), Box::new(Type::UnificationVar(2))),
    );
    assert_eq!(t.freevars(), vec![1, 2, 3]);
}

#[test]
fn same_types() {
    let t = func(
        vec![Type::Named(1), Type::Struct(vec![(9, Type::Bool)])],
        Type::App(Box::new(Type::Named(3)), Box::new(Type::Unit)),
    );
    assert!(t.same(&t.clone()));
    assert_eq!(t.clone(), t);
    assert!(!t.same(&func(vec![Type::Named(1)], Type::Unit)));
    assert!(!Type::Named(1).same(&Type::UnificationVar(1)));
    assert!(!Type::Int32.same(&Type::Sint32));
    assert!(!Type::Struct(vec![(1, Type::Bool)]).same(&Type::Struct(vec![(2, Type::Bool)])));
    assert!(Type::Struct(vec![]).same(&Type::Struct(vec![])));
    assert!(!func(vec![], Type::Unit).same(&func(vec![], Type::Bool)));
}

#[test]
fn constraint_is_an_unordered_pair() {
    let c = Constraint(Type::Bool, Type::Int32);
    assert!(c.same(&Constraint(Type::Int32, Type::Bool)));
    assert!(c.same(&c.clone()));
    assert!(!c.same(&Constraint(Type::Bool, Type::Bool)));
    let mut set = ConstraintSet::new();
    assert!(set.insert(Constraint(Type::Bool, Type::Int32)));
    assert!(!set.insert(Constraint(Type::Int32, Type::Bool)));
    assert!(set.insert(Constraint(Type::Unit, Type::Unit)));
    assert!(!set.insert(Constraint(Type::Bool, Type::Int32)));
    assert_eq!(set.len(), 2);
    assert!(set.contains(&Constraint(Type::Int32, Type::Bool)));
    assert!(!set.contains(&Constraint(Type::Int32, Type::Unit)));
    assert_eq!(
        pairs_of(&set),
        vec![(Type::Bool, Type::Int32), (Type::Unit, Type::Unit)]
    );
}

#[test]
fn literals_and_variables_imply_nothing() {
    let mut env: Environment<Symbol, Type> = Environment::new();
    let mut set = ConstraintSet::new();
    for kind in [
        tast::ExprKind::IntLiteral("1".to_string()),
        tast::ExprKind::StringLiteral("s".to_string()),
        tast::ExprKind::Unit,
        tast::ExprKind::Var(1),
        tast::ExprKind::Path(ast::Path(vec![1, 2])),
    ] {
        get_constraints_expr(&mut env, &mut set, &typed(kind, Type::UnificationVar(1)));
    }
    assert_eq!(set.len(), 0);
}

#[test]
fn call_implies_a_function_type() {
    let mut env: Environment<Symbol, Type> = Environment::new();
    let mut set = ConstraintSet::new();
    let inner = typed(
        tast::ExprKind::Call(
            Box::new(typed(tast::ExprKind::Var(2), Type::UnificationVar(4))),
            Box::new(typed(tast::ExprKind::Unit, Type::Unit)),
        ),
        Type::UnificationVar(5),
    );
    let call = typed(
        tast::ExprKind::Call(
            Box::new(typed(tast::ExprKind::Var(1), Type::UnificationVar(3))),
            Box::new(inner),
        ),
        Type::UnificationVar(6),
    );
    get_constraints_expr(&mut env, &mut set, &call);
    assert_eq!(
        pairs_of(&set),
        vec![
            (
                Type::UnificationVar(3),
                func(vec![Type::UnificationVar(5)], Type::UnificationVar(6))
            ),
            (
                Type::UnificationVar(4),
                func(vec![Type::Unit], Type::UnificationVar(5))
            ),
        ]
    );
    assert_eq!(env.depth(), 1);
}

#[test]
fn operands_imply_what_they_imply() {
    let mut env: Environment<Symbol, Type> = Environment::new();
    let mut set = ConstraintSet::new();
    let call = |var: Symbol| {
        typed(
            tast::ExprKind::Call(
                Box::new(typed(tast::ExprKind::Var(1), Type::Named(1))),
                Box::new(typed(tast::ExprKind::Unit, Type::Unit)),
            ),
            Type::UnificationVar(var),
        )
    };
    let sum = typed(
        tast::ExprKind::BinOp(Box::new(call(1)), ast::BinOp::Add, Box::new(call(2))),
        Type::UnificationVar(3),
    );
    let range = typed(
        tast::ExprKind::Range(Box::new(sum), Box::new(call(1))),
        Type::UnificationVar(4),
    );
    get_constraints_expr(&mut env, &mut set, &range);
    assert_eq!(
        pairs_of(&set),
        vec![
            (
                Type::Named(1),
                func(vec![Type::Unit], Type::UnificationVar(1))
            ),
            (
                Type::Named(1),
                func(vec![Type::Unit], Type::UnificationVar(2))
            ),
        ]
    );
}

#[test]
fn statements_imply_what_their_expression_implies() {
    let mut env: Environment<Symbol, Type> = Environment::new();
    let mut set = ConstraintSet::new();
    let call = || {
        typed(
            tast::ExprKind::Call(
                Box::new(typed(tast::ExprKind::Var(1), Type::Named(1))),
                Box::new(typed(tast::ExprKind::Unit, Type::Unit)),
            ),
            Type::Bool,
        )
    };
    let binding = tast::Stmt {
        kind: tast::StmtKind::Let(ast::LValue(2), call()),
        pos: (0, 0),
    };
    get_constraints_stmt(&mut env, &mut set, &binding);
    let looping = tast::Stmt {
        kind: tast::StmtKind::ForLoop(ast::Pattern(2), call(), vec![]),
        pos: (0, 0),
    };
    get_constraints_stmt(&mut env, &mut set, &looping);
    assert_eq!(set.len(), 0);
    let plain = tast::Stmt {
        kind: tast::StmtKind::Expr(call()),
        pos: (0, 0),
    };
    get_constraints_stmt(&mut env, &mut set, &plain);
    assert_eq!(
        pairs_of(&set),
        vec![(Type::Named(1), func(vec![Type::Unit], Type::Bool))]
    );
    let mut set = ConstraintSet::new();
    let returning = tast::Stmt {
        kind: tast::StmtKind::Return(call()),
        pos: (0, 0),
    };
    get_constraints_stmt(&mut env, &mut set, &returning);
    assert_eq!(
        pairs_of(&set),
        vec![(Type::Named(1), func(vec![Type::Unit], Type::Bool))]
    );
}

fn function(name: Symbol, args: Vec<tast::FuncArg>, body: Vec<tast::Stmt>) -> tast::Decl {
    tast::Decl {
        kind: tast::DeclKind::Func(tast::Func {
            name,
            args,
            returns: Type::Int32,
            body,
        }),
        pos: (0, 0),
    }
}

#[test]
fn function_without_parameters_has_a_constraint_on_its_type() {
    let mut env: Environment<Symbol, Type> = Environment::new();
    env.insert(1, Type::UnificationVar(7));
    let body = vec![tast::Stmt {
        kind: tast::StmtKind::Expr(typed(
            tast::ExprKind::Call(
                Box::new(typed(tast::ExprKind::Var(2), Type::Named(2))),
                Box::new(typed(tast::ExprKind::Unit, Type::Unit)),
            ),
            Type::Int32,
        )),
        pos: (0, 0),
    }];
    let mut set = ConstraintSet::new();
    get_constraints_decl(&mut env, &mut set, &function(1, vec![], body));
    assert_eq!(
        pairs_of(&set),
        vec![
            (Type::UnificationVar(7), func(vec![], Type::Int32)),
            (Type::Named(2), func(vec![Type::Unit], Type::Int32)),
        ]
    );
    assert_eq!(
        solved(unify(
            set_of(vec![(Type::UnificationVar(7), func(vec![], Type::Int32))]),
            &env
        ))
        .get(7),
        Some(&func(vec![], Type::Int32))
    );
}

#[test]
fn other_declarations_imply_nothing() {
    let mut env: Environment<Symbol, Type> = Environment::new();
    env.insert(1, Type::UnificationVar(7));
    let mut set = ConstraintSet::new();
    get_constraints_decl(
        &mut env,
        &mut set,
        &function(1, vec![tast::FuncArg(3, Type::Bool)], vec![]),
    );
    get_constraints_decl(&mut env, &mut set, &function(2, vec![], vec![]));
    for kind in [
        tast::DeclKind::Class(ast::Class {
            name: 1,
            fields: vec![(2, Type::Bool)],
        }),
        tast::DeclKind::Extern(1, vec![Type::Bool], Type::Unit),
        tast::DeclKind::Type(Type::Named(1)),
        tast::DeclKind::Use(ast::Use(ast::Path(vec![1]))),
    ] {
        get_constraints_decl(&mut env, &mut set, &tast::Decl { kind, pos: (0, 0) });
    }
    assert_eq!(set.len(), 0);
}

#[test]
fn signatures_of_declarations() {
    let external = ast::Decl {
        kind: ast::DeclKind::Extern(1, vec![Type::Int32, Type::Bool], Type::Unit),
        pos: (0, 0),
    };
    assert_eq!(
        external.get_signature(),
        Some((1, func(vec![Type::Int32, Type::Bool], Type::Unit)))
    );
    let defined = ast::Decl {
        kind: ast::DeclKind::Func(ast::Func {
            name: 2,
            args: vec![(5, Type::Bool), (6, Type::Named(1))],
            body: vec![],
            returns: Type::Int64,
        }),
        pos: (0, 0),
    };
    assert_eq!(
        defined.get_signature(),
        Some((2, func(vec![Type::Bool, Type::Named(1)], Type::Int64)))
    );
    let import = ast::Decl {
        kind: ast::DeclKind::Use(ast::Use(ast::Path(vec![1]))),
        pos: (0, 0),
    };
    assert_eq!(import.get_signature(), None);
}

#[test]
fn typed_form_of_an_expression() {
    let mut symbols = SymbolTable::new();
    symbols.intern("f");
    let expr = untyped(ast::ExprKind::Call(
        Box::new(untyped(ast::ExprKind::Var(0))),
        Box::new(untyped(ast::ExprKind::BinOp(
            Box::new(untyped(ast::ExprKind::IntLiteral("1".to_string()))),
            ast::BinOp::Add,
            Box::new(untyped(ast::ExprKind::Unit)),
        ))),
    ));
    let tree = match tast::Expr::from(expr, &mut symbols) {
        Ok(tree) => tree,
        Err(error) => panic!("no typed form: {:?}", error),
    };
    assert_eq!(symbols.len(), 5);
    assert_eq!(tree.ty, Type::UnificationVar(4));
    assert_eq!(tree.pos, (3, 4));
    let (callee, arg) = match tree.kind {
        tast::ExprKind::Call(callee, arg) => (*callee, *arg),
        other => panic!("no call: {:?}", other),
    };
    assert!(matches!(callee.kind, tast::ExprKind::Unit));
    assert_eq!(callee.ty, Type::UnificationVar(1));
    assert_eq!(arg.ty, Type::UnificationVar(3));
    let (left, right) = match arg.kind {
        tast::ExprKind::BinOp(left, ast::BinOp::Add, right) => (*left, *right),
        other => panic!("no sum: {:?}", other),
    };
    assert!(matches!(left.kind, tast::ExprKind::IntLiteral(ref digits) if digits == "1"));
    assert_eq!(left.ty, Type::UnificationVar(2));
    assert!(matches!(right.kind, tast::ExprKind::Unit));
    assert_eq!(right.ty, Type::Unit);
}

#[test]
fn function_has_no_typed_form() {
    let make = || ast::Func {
        name: 1,
        args: vec![],
        body: vec![],
        returns: Type::Unit,
    };
    assert!(matches!(tast::Func::from(make()), Err(TypeError::Untyped)));
    let decl = ast::Decl {
        kind: ast::DeclKind::Func(make()),
        pos: (1, 2),
    };
    assert!(matches!(tast::Decl::from(decl), Err(TypeError::Untyped)));
    let program = ast::Program(vec![
        ast::Decl {
            kind: ast::DeclKind::Type(Type::Bool),
            pos: (0, 1),
        },
        ast::Decl {
            kind: ast::DeclKind::Func(make()),
            pos: (1, 2),
        },
    ]);
    assert!(matches!(
        tast::Program::from(program),
        Err(TypeError::Untyped)
    ));
}

#[test]
fn typed_form_of_a_program_keeps_the_declarations_in_order() {
    let program = ast::Program(vec![
        ast::Decl {
            kind: ast::DeclKind::Type(Type::Bool),
            pos: (0, 1),
        },
        ast::Decl {
            kind: ast::DeclKind::Extern(4, vec![Type::Bool], Type::Unit),
            pos: (1, 2),
        },
        ast::Decl {
            kind: ast::DeclKind::Use(ast::Use(ast::Path(vec![7, 8]))),
            pos: (2, 3),
        },
    ]);
    let tree = match tast::Program::from(program) {
        Ok(tree) => tree,
        Err(error) => panic!("no typed form: {:?}", error),
    };
    assert_eq!(tree.0.len(), 3);
    assert!(matches!(tree.0[0].kind, tast::DeclKind::Type(Type::Bool)));
    assert_eq!(tree.0[0].pos, (0, 1));
    assert!(matches!(tree.0[1].kind, tast::DeclKind::Extern(4, _, Type::Unit)));
    assert_eq!(tree.0[1].pos, (1, 2));
    assert!(matches!(tree.0[2].kind, tast::DeclKind::Use(_)));
    assert_eq!(tree.0[2].pos, (2, 3));
    assert!(matches!(tast::Program::from(ast::Program(vec![])), Ok(_)));
}

fn sample_program(callee: Type) -> tast::Program {
    let call = typed(
        tast::ExprKind::Call(
            Box::new(typed(tast::ExprKind::Var(1), callee)),
            Box::new(typed(
                tast::ExprKind::IntLiteral("1".to_string()),
                Type::UnificationVar(11),
            )),
        ),
        Type::UnificationVar(12),
    );
    tast::Program(vec![
        tast::Decl {
            kind: tast::DeclKind::Extern(1, vec![Type::Named(0)], Type::Bool),
            pos: (0, 0),
        },
        tast::Decl {
            kind: tast::DeclKind::Use(ast::Use(ast::Path(vec![5]))),
            pos: (0, 0),
        },
        function(
            2,
            vec![],
            vec![tast::Stmt {
                kind: tast::StmtKind::Expr(call),
                pos: (0, 0),
            }],
        ),
    ])
}

#[test]
fn environment_of_a_program() {
    let mut symbols = SymbolTable::new();
    assert_eq!(symbols.intern("int"), 0);
    assert_eq!(symbols.intern("f"), 1);
    assert_eq!(symbols.intern("main"), 2);
    let env = seed(&sample_program(Type::UnificationVar(10)), &mut symbols);
    assert_eq!(symbols.len(), 3);
    assert_eq!(env.depth(), 2);
    assert_eq!(env.lookup(0), Some(&Type::Int32));
    assert_eq!(env.lookup(1), Some(&func(vec![Type::Named(0)], Type::Bool)));
    assert_eq!(env.lookup(2), Some(&func(vec![], Type::Int32)));
    assert_eq!(env.lookup(5), None);
}

#[test]
fn declaration_may_take_the_name_of_a_built_in_type() {
    let mut symbols = SymbolTable::new();
    let program = tast::Program(vec![tast::Decl {
        kind: tast::DeclKind::Extern(0, vec![], Type::Unit),
        pos: (0, 0),
    }]);
    let mut env = seed(&program, &mut symbols);
    assert_eq!(symbols.intern("int"), 0);
    assert_eq!(env.lookup(0), Some(&func(vec![], Type::Unit)));
    env.pop_scope();
    assert_eq!(env.lookup(0), Some(&Type::Int32));
}

#[test]
fn types_of_a_program_are_inferred() {
    let mut symbols = SymbolTable::new();
    let substitution = solved(infer(
        &sample_program(Type::UnificationVar(10)),
        &mut symbols,
    ));
    assert_eq!(substitution.len(), 1);
    assert_eq!(
        substitution.get(10),
        Some(&func(
            vec![Type::UnificationVar(11)],
            Type::UnificationVar(12)
        ))
    );
    let substitution = solved(infer(&sample_program(Type::Named(1)), &mut symbols));
    assert_eq!(substitution.len(), 2);
    assert_eq!(substitution.get(11), Some(&Type::Int32));
    assert_eq!(substitution.get(12), Some(&Type::Bool));
}

#[test]
fn inference_fails_where_the_unifier_fails() {
    let mut symbols = SymbolTable::new();
    assert_eq!(
        failed(infer(&sample_program(Type::Named(99)), &mut symbols)),
        TypeError::NameNotFound(99)
    );
    assert_eq!(
        failed(infer(&sample_program(Type::Bool), &mut symbols)),
        TypeError::CannotUnify(
            Type::Bool,
            func(vec![Type::UnificationVar(11)], Type::UnificationVar(12))
        )
    );
    assert_eq!(
        solved(infer(&tast::Program(vec![]), &mut symbols)).len(),
        0
    );
}

#[test]
fn signatures_of_typed_declarations() {
    let program = sample_program(Type::Unit);
    assert_eq!(
        program.0[0].get_signature(),
        Some((1, func(vec![Type::Named(0)], Type::Bool)))
    );
    assert_eq!(program.0[1].get_signature(), None);
    assert_eq!(program.0[2].get_signature(), Some((2, func(vec![], Type::Int32))));
    let with_args = function(
        3,
        vec![tast::FuncArg(4, Type::Bool), tast::FuncArg(5, Type::Unit)],
        vec![],
    );
    assert_eq!(
        with_args.get_signature(),
        Some((3, func(vec![Type::Bool, Type::Unit], Type::Int32)))
    );
}

#[test]
fn limit_of_the_size_of_the_constraints_suffices() {
    let env: Environment<Symbol, Type> = Environment::new();
    let nested = |inner: Type| func(vec![inner, Type::Int32], Type::Bool);
    let first = nested(nested(Type::UnificationVar(1)));
    let second = nested(nested(Type::Unit));
    let substitution = solved(unify_within(
        set_of(vec![(first.clone(), second.clone())]),
        &env,
        14,
    ));
    assert_eq!(substitution.get(1), Some(&Type::Unit));
    assert_eq!(
        failed(unify_within(set_of(vec![(first, second)]), &env, 3)),
        TypeError::LimitReached
    );
}
