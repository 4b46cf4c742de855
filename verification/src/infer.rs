//! Type inference for a whole program: the names are bound, the
//! constraints of all declarations are collected, and the unifier solves them.

use crate::constraint::{lemma_with_constraints_concat, with_constraints, ConstraintSet};
use crate::env::{lemma_resolve_prefix, resolve, Environment};
use crate::prelude::load_prelude;
use crate::symbol::{symbol_of, Symbol, SymbolTable};
use crate::tast::{signature, Decl, Program};
use crate::typeck::{decl_constraints, get_constraints_decl};
use crate::types::{Ty, Type};
use crate::unify::{named_types, solve, unify, Substitution, TypeError, TypeFault, STEP_LIMIT};
use vstd::prelude::*;

verus! {

broadcast use vstd::std_specs::hash::group_hash_axioms;

/// What the names stand for under which the first `n` of `decls` are typed:
/// `int`, whose symbol is `int_name`, stands for the integer type of 32
/// bits, and each declaration that has a signature binds its name to the
/// type of the signature, a later one in place of an earlier one.
pub open spec fn seeded(decls: Seq<Decl>, n: nat, int_name: Symbol) -> Map<Symbol, Ty>
    decreases n,
{
    if n == 0 || n > decls.len() {
        Map::<Symbol, Ty>::empty().insert(int_name, Ty::Int32)
    } else {
        match signature(decls[n - 1]) {
            Some((name, t)) => seeded(decls, (n - 1) as nat, int_name).insert(name, t),
            None => seeded(decls, (n - 1) as nat, int_name),
        }
    }
}

/// The constraints that the first `n` of `decls` imply under `names`, those
/// of each declaration in turn.
pub open spec fn program_constraints(decls: Seq<Decl>, n: nat, names: Map<Symbol, Ty>) -> Seq<
    (Ty, Ty),
>
    decreases n,
{
    if n == 0 || n > decls.len() {
        Seq::empty()
    } else {
        program_constraints(decls, (n - 1) as nat, names) + decl_constraints(decls[n - 1], names)
    }
}

/// A binding in the innermost scope changes what that one name stands for.
pub proof fn lemma_named_types_insert(scopes: Seq<Map<Symbol, Type>>, name: Symbol, t: Type)
    requires
        scopes.len() >= 1,
    ensures
        named_types(scopes.update(scopes.len() - 1, scopes.last().insert(name, t)))
            == named_types(scopes).insert(name, t@),
{
    let bound = scopes.update(scopes.len() - 1, scopes.last().insert(name, t));
    assert forall|key: Symbol|
        resolve(bound, bound.len() as int, key) == (if key == name {
            Some(t)
        } else {
            resolve(scopes, scopes.len() as int, key)
        }) by {
        lemma_resolve_prefix(bound, scopes, scopes.len() - 1, key);
    }
    assert(named_types(bound) =~= named_types(scopes).insert(name, t@));
}

/// In one scope without bindings no name stands for anything.
pub proof fn lemma_named_types_empty()
    ensures
        named_types(seq![Map::<Symbol, Type>::empty()]) == Map::<Symbol, Ty>::empty(),
{
    reveal_with_fuel(resolve, 2);
    assert(named_types(seq![Map::<Symbol, Type>::empty()]) =~= Map::<Symbol, Ty>::empty());
}

/// A new scope, which is empty, changes nothing in what the names stand for.
pub proof fn lemma_named_types_push(scopes: Seq<Map<Symbol, Type>>)
    ensures
        named_types(scopes.push(Map::empty())) == named_types(scopes),
{
    let opened = scopes.push(Map::<Symbol, Type>::empty());
    assert forall|key: Symbol|
        resolve(opened, opened.len() as int, key) == resolve(scopes, scopes.len() as int, key) by {
        lemma_resolve_prefix(opened, scopes, scopes.len() as int, key);
    }
    assert(named_types(opened) =~= named_types(scopes));
}

/// The environment under which `program` is typed: the built-in names in
/// the outermost scope, and in a scope of their own the names of the
/// declarations with the types of their signatures.
pub fn seed(program: &Program, symbols: &mut SymbolTable) -> (env: Environment<Symbol, Type>)
    requires
        old(symbols).wf(),
    ensures
        final(symbols).wf(),
        final(symbols)@ == (if old(symbols)@.contains(Some("int"@)) {
            old(symbols)@
        } else {
            old(symbols)@.push(Some("int"@))
        }),
        env.wf(),
        env@.len() == 2,
        named_types(env@) == seeded(
            program.0@,
            program.0@.len(),
            symbol_of(final(symbols)@, "int"@) as Symbol,
        ),
{
    let mut env: Environment<Symbol, Type> = Environment::new();
    load_prelude(&mut env, symbols);
    let ghost int_name = symbol_of(symbols@, "int"@) as Symbol;
    proof {
        lemma_named_types_insert(seq![Map::<Symbol, Type>::empty()], int_name, Type::Int32);
        lemma_named_types_empty();
        lemma_named_types_push(env@);
    }
    env.push_scope();
    let mut n: usize = 0;
    while n < program.0.len()
        invariant
            n <= program.0@.len(),
            env.wf(),
            env@.len() == 2,
            named_types(env@) == seeded(program.0@, n as nat, int_name),
        decreases program.0@.len() - n,
    {
        match program.0[n].get_signature() {
            Some((name, t)) => {
                proof {
                    lemma_named_types_insert(env@, name, t);
                }
                env.insert(name, t);
            },
            None => {},
        }
        n += 1;
    }
    env
}

/// Infers the types of `program`: solves the constraints that its
/// declarations imply, under the built-in names and the signatures of the
/// declarations.
pub fn infer(program: &Program, symbols: &mut SymbolTable) -> (solved: Result<
    Substitution,
    TypeError,
>)
    requires
        old(symbols).wf(),
    ensures
        final(symbols).wf(),
        final(symbols)@ == (if old(symbols)@.contains(Some("int"@)) {
            old(symbols)@
        } else {
            old(symbols)@.push(Some("int"@))
        }),
        ({
            let names = seeded(
                program.0@,
                program.0@.len(),
                symbol_of(final(symbols)@, "int"@) as Symbol,
            );
            let constraints = with_constraints(
                Seq::empty(),
                program_constraints(program.0@, program.0@.len(), names),
            );
            match solved {
                Ok(substitution) => solve(
                    constraints,
                    names,
                    Map::<Symbol, Ty>::empty(),
                    STEP_LIMIT as nat,
                ) == Ok::<Map<Symbol, Ty>, TypeFault>(substitution@),
                Err(error) => solve(constraints, names, Map::<Symbol, Ty>::empty(), STEP_LIMIT as nat)
                    == Err::<Map<Symbol, Ty>, TypeFault>(error@),
            }
        }),
{
    let mut env: Environment<Symbol, Type> = seed(program, symbols);
    let ghost names = named_types(env@);
    let mut constraints: ConstraintSet = ConstraintSet::new();
    let mut n: usize = 0;
    while n < program.0.len()
        invariant
            n <= program.0@.len(),
            constraints.wf(),
            names == named_types(env@),
            constraints@ == with_constraints(
                Seq::empty(),
                program_constraints(program.0@, n as nat, names),
            ),
        decreases program.0@.len() - n,
    {
        get_constraints_decl(&mut env, &mut constraints, &program.0[n]);
        proof {
            lemma_with_constraints_concat(
                Seq::empty(),
                program_constraints(program.0@, n as nat, names),
                decl_constraints(program.0@[n as int], names),
            );
        }
        n += 1;
    }
    unify(constraints, &env)
}

} // verus!
