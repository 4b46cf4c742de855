//! The unifier: solves a set of constraints into a substitution.

use crate::constraint::{Constraint, ConstraintSet};
use crate::env::{resolve, Environment};
use crate::symbol::Symbol;
use crate::types::{lemma_model_func, models, Ty, Type};
use std::collections::HashMap;
use std::collections::VecDeque;
use vstd::prelude::*;
use vstd::string::*;

verus! {

broadcast use vstd::std_specs::hash::group_hash_axioms;

/// Why a set of constraints has no solution.
#[derive(Debug, PartialEq, Eq)]
pub enum TypeError {
    /// A type is known by a name that the environment does not bind.
    NameNotFound(Symbol),
    /// The two types cannot be made equal.
    CannotUnify(Type, Type),
    /// Two function types differ in the number of their parameters: the
    /// number in the first type, and the number in the second.
    ArityMismatch(usize, usize),
    /// The constraints were not solved within the limit of steps.
    LimitReached,
    /// The tree has no typed form.
    Untyped,
}

/// An error of typing as specifications see it.
pub enum TypeFault {
    NameNotFound(Symbol),
    CannotUnify(Ty, Ty),
    ArityMismatch(int, int),
    LimitReached,
    Untyped,
}

impl View for TypeError {
    type V = TypeFault;

    open spec fn view(&self) -> TypeFault {
        match *self {
            TypeError::NameNotFound(name) => TypeFault::NameNotFound(name),
            TypeError::CannotUnify(first, second) => TypeFault::CannotUnify(first@, second@),
            TypeError::ArityMismatch(first, second) => TypeFault::ArityMismatch(
                first as int,
                second as int,
            ),
            TypeError::LimitReached => TypeFault::LimitReached,
            TypeError::Untyped => TypeFault::Untyped,
        }
    }
}

/// What `fault` is called in a message.
pub open spec fn type_error_text(fault: TypeFault) -> Seq<char> {
    match fault {
        TypeFault::NameNotFound(_) => "name not found"@,
        TypeFault::CannotUnify(_, _) => "cannot unify"@,
        TypeFault::ArityMismatch(_, _) => "arity mismatch"@,
        TypeFault::LimitReached => "limit reached"@,
        TypeFault::Untyped => "no typed form"@,
    }
}

impl TypeError {
    /// What the error is called in a message.
    pub fn describe(&self) -> (text: String)
        ensures
            text@ == type_error_text(self@),
    {
        match self {
            TypeError::NameNotFound(_) => String::from_str("name not found"),
            TypeError::CannotUnify(_, _) => String::from_str("cannot unify"),
            TypeError::ArityMismatch(_, _) => String::from_str("arity mismatch"),
            TypeError::LimitReached => String::from_str("limit reached"),
            TypeError::Untyped => String::from_str("no typed form"),
        }
    }
}

/// What one constraint makes of the work that is left.
pub enum Step {
    /// The constraint holds as it stands.
    Discard,
    /// The variable is bound to the type.
    Bind(Symbol, Ty),
    /// The constraints take the place of the one that was read.
    Requeue(Seq<(Ty, Ty)>),
    /// The constraints have no solution.
    Fail(TypeFault),
}

/// The types that the names stand for that are visible in `scopes`: each
/// name with the model of the type that it resolves to.
pub open spec fn named_types(scopes: Seq<Map<Symbol, Type>>) -> Map<Symbol, Ty> {
    Map::new(
        |name: Symbol| resolve(scopes, scopes.len() as int, name).is_some(),
        |name: Symbol| resolve(scopes, scopes.len() as int, name).unwrap()@,
    )
}

/// The pairs of the types that stand at the same place in `first` and in `second`.
pub open spec fn pairs(first: Seq<Ty>, second: Seq<Ty>) -> Seq<(Ty, Ty)> {
    Seq::new(first.len(), |k: int| (first[k], second[k]))
}

/// What the constraint that `first` equal `second` asks for. The cases are
/// tried in this order: equal types ask for nothing; a named type, the first
/// before the second, is replaced by what its name stands for in `names`;
/// a unification variable, the first before the second, is bound to the
/// other type; two function types with as many parameters ask that their
/// parameters be equal, each to the one at its place, and their results;
/// anything else fails.
pub open spec fn step(first: Ty, second: Ty, names: Map<Symbol, Ty>) -> Step {
    if first == second {
        Step::Discard
    } else if first is Named {
        if names.contains_key(first->Named_0) {
            Step::Requeue(seq![(names[first->Named_0], second)])
        } else {
            Step::Fail(TypeFault::NameNotFound(first->Named_0))
        }
    } else if second is Named {
        if names.contains_key(second->Named_0) {
            Step::Requeue(seq![(first, names[second->Named_0])])
        } else {
            Step::Fail(TypeFault::NameNotFound(second->Named_0))
        }
    } else if first is UnificationVar {
        Step::Bind(first->UnificationVar_0, second)
    } else if second is UnificationVar {
        Step::Bind(second->UnificationVar_0, first)
    } else if first is Func && second is Func {
        if first->Func_0.len() != second->Func_0.len() {
            Step::Fail(
                TypeFault::ArityMismatch(
                    first->Func_0.len() as int,
                    second->Func_0.len() as int,
                ),
            )
        } else {
            Step::Requeue(
                pairs(first->Func_0, second->Func_0).push((*first->Func_1, *second->Func_1)),
            )
        }
    } else {
        Step::Fail(TypeFault::CannotUnify(first, second))
    }
}

/// The solution of the constraints `work`, read from the first to the last,
/// under the names `names` and on top of the bindings `bound`, in at most
/// `limit` steps. What a step requeues is read after all that was waiting. A
/// variable that is bound twice keeps the later type.
pub open spec fn solve(
    work: Seq<(Ty, Ty)>,
    names: Map<Symbol, Ty>,
    bound: Map<Symbol, Ty>,
    limit: nat,
) -> Result<Map<Symbol, Ty>, TypeFault>
    decreases limit,
{
    if work.len() == 0 {
        Ok(bound)
    } else if limit == 0 {
        Err(TypeFault::LimitReached)
    } else {
        match step(work[0].0, work[0].1, names) {
            Step::Discard => solve(work.skip(1), names, bound, (limit - 1) as nat),
            Step::Bind(name, t) => solve(
                work.skip(1),
                names,
                bound.insert(name, t),
                (limit - 1) as nat,
            ),
            Step::Requeue(more) => solve(work.skip(1) + more, names, bound, (limit - 1) as nat),
            Step::Fail(fault) => Err(fault),
        }
    }
}

/// The most steps that `unify` takes.
pub const STEP_LIMIT: usize = 1000000;

/// A substitution: the types that unification variables are bound to.
#[derive(Debug)]
pub struct Substitution {
    bound: HashMap<Symbol, Type>,
}

impl View for Substitution {
    type V = Map<Symbol, Ty>;

    closed spec fn view(&self) -> Map<Symbol, Ty> {
        Map::new(|name: Symbol| self.bound@.contains_key(name), |name: Symbol| self.bound@[name]@)
    }
}

impl Substitution {
    /// The empty substitution.
    pub fn new() -> (empty: Substitution)
        ensures
            empty@ =~= Map::<Symbol, Ty>::empty(),
    {
        Substitution { bound: HashMap::new() }
    }

    /// The number of variables that are bound.
    pub fn len(&self) -> (n: usize)
        ensures
            n == self@.len(),
    {
        proof {
            assert(self@.dom() =~= self.bound@.dom());
        }
        self.bound.len()
    }

    /// The type that the variable `name` is bound to.
    pub fn get(&self, name: Symbol) -> (found: Option<&Type>)
        ensures
            match found {
                Some(t) => self@.contains_key(name) && self@[name] == t@,
                None => !self@.contains_key(name),
            },
    {
        self.bound.get(&name)
    }

    /// Binds the variable `name` to `t`, whatever it was bound to.
    pub fn bind(&mut self, name: Symbol, t: Type)
        ensures
            final(self)@ == old(self)@.insert(name, t@),
    {
        self.bound.insert(name, t);
        proof {
            assert(self@ =~= old(self)@.insert(name, t@));
        }
    }
}

/// The models of the pairs of types in `work`.
pub open spec fn work_model(work: Seq<(Type, Type)>) -> Seq<(Ty, Ty)> {
    Seq::new(work.len(), |k: int| (work[k].0@, work[k].1@))
}

/// Solves `constraints` under the bindings of `env`, reading them in the
/// order in which they were added, in at most `limit` steps.
pub fn unify_within(constraints: ConstraintSet, env: &Environment<Symbol, Type>, limit: usize) -> (solved:
    Result<Substitution, TypeError>)
    ensures
        match solved {
            Ok(substitution) => solve(
                constraints@,
                named_types(env@),
                Map::<Symbol, Ty>::empty(),
                limit as nat,
            ) == Ok::<Map<Symbol, Ty>, TypeFault>(substitution@),
            Err(error) => solve(constraints@, named_types(env@), Map::<Symbol, Ty>::empty(), limit as nat)
                == Err::<Map<Symbol, Ty>, TypeFault>(error@),
        },
{
    let ghost goal = solve(constraints@, named_types(env@), Map::<Symbol, Ty>::empty(), limit as nat);
    let mut work: VecDeque<(Type, Type)> = VecDeque::new();
    let mut k: usize = 0;
    while k < constraints.len()
        invariant
            k <= constraints@.len(),
            work@.len() == k,
            forall|j: int| 0 <= j < k ==> (#[trigger] work@[j]).0@ == constraints@[j].0 && work@[j].1@
                == constraints@[j].1,
        decreases constraints@.len() - k,
    {
        let c: &Constraint = constraints.get(k);
        work.push_back((c.0.clone(), c.1.clone()));
        k += 1;
    }
    assert(work_model(work@) =~= constraints@);
    let mut substitution: Substitution = Substitution::new();
    let mut left: usize = limit;
    loop
        invariant
            goal == solve(work_model(work@), named_types(env@), substitution@, left as nat),
            goal == solve(constraints@, named_types(env@), Map::<Symbol, Ty>::empty(), limit as nat),
        decreases left,
    {
        let ghost waiting = work@;
        let (first, second) = match work.pop_front() {
            Some(pair) => pair,
            None => {
                return Ok(substitution);
            },
        };
        if left == 0 {
            return Err(TypeError::LimitReached);
        }
        left -= 1;
        proof {
            assert(work_model(waiting)[0] == (first@, second@));
            assert(work_model(work@) =~= work_model(waiting).skip(1));
        }
        let ghost rest = work_model(work@);
        if first.same(&second) {
            continue ;
        }
        match (first, second) {
            (Type::Named(name), second) => {
                match env.lookup(name) {
                    Some(t) => {
                        work.push_back((t.clone(), second));
                        proof {
                            assert(work_model(work@) =~= rest + seq![(t@, second@)]);
                        }
                    },
                    None => {
                        return Err(TypeError::NameNotFound(name));
                    },
                }
            },
            (first, Type::Named(name)) => {
                match env.lookup(name) {
                    Some(t) => {
                        work.push_back((first, t.clone()));
                        proof {
                            assert(work_model(work@) =~= rest + seq![(first@, t@)]);
                        }
                    },
                    None => {
                        return Err(TypeError::NameNotFound(name));
                    },
                }
            },
            (Type::UnificationVar(name), second) => {
                substitution.bind(name, second);
            },
            (first, Type::UnificationVar(name)) => {
                substitution.bind(name, first);
            },
            (Type::Func(params, result), Type::Func(their_params, their_result)) => {
                proof {
                    lemma_model_func(params, result);
                    lemma_model_func(their_params, their_result);
                }
                if params.len() != their_params.len() {
                    return Err(TypeError::ArityMismatch(params.len(), their_params.len()));
                }
                let ghost matched = pairs(models(params@), models(their_params@));
                let mut n: usize = 0;
                while n < params.len()
                    invariant
                        n <= params@.len(),
                        params@.len() == their_params@.len(),
                        matched == pairs(models(params@), models(their_params@)),
                        work_model(work@) == rest + matched.take(n as int),
                    decreases params@.len() - n,
                {
                    let ghost queued = work@;
                    let pair: (Type, Type) = (params[n].clone(), their_params[n].clone());
                    work.push_back(pair);
                    n += 1;
                    proof {
                        assert(work@ =~= queued.push(pair));
                        assert(work_model(work@) =~= work_model(queued).push((pair.0@, pair.1@)));
                        assert(matched[n - 1] == (pair.0@, pair.1@));
                        assert(matched.take(n as int) =~= matched.take(n - 1).push(matched[n - 1]));
                        assert(work_model(work@) =~= rest + matched.take(n as int));
                    }
                }
                let ghost queued = work@;
                let pair: (Type, Type) = (*result, *their_result);
                work.push_back(pair);
                proof {
                    assert(matched.take(n as int) =~= matched);
                    assert(work@ =~= queued.push(pair));
                    assert(work_model(work@) =~= work_model(queued).push((pair.0@, pair.1@)));
                    assert(work_model(work@) =~= rest + matched.push((pair.0@, pair.1@)));
                }
            },
            (first, second) => {
                return Err(TypeError::CannotUnify(first, second));
            },
        }
    }
}

/// Solves `constraints` under the bindings of `env`, in at most `STEP_LIMIT` steps.
pub fn unify(constraints: ConstraintSet, env: &Environment<Symbol, Type>) -> (solved: Result<
    Substitution,
    TypeError,
>)
    ensures
        match solved {
            Ok(substitution) => solve(
                constraints@,
                named_types(env@),
                Map::<Symbol, Ty>::empty(),
                STEP_LIMIT as nat,
            ) == Ok::<Map<Symbol, Ty>, TypeFault>(substitution@),
            Err(error) => solve(
                constraints@,
                named_types(env@),
                Map::<Symbol, Ty>::empty(),
                STEP_LIMIT as nat,
            ) == Err::<Map<Symbol, Ty>, TypeFault>(error@),
        },
{
    unify_within(constraints, env, STEP_LIMIT)
}

/// No constraints give the empty substitution, whatever the names stand for.
pub proof fn lemma_no_constraints(names: Map<Symbol, Ty>, limit: nat)
    ensures
        solve(Seq::empty(), names, Map::empty(), limit) == Ok::<Map<Symbol, Ty>, TypeFault>(
            Map::empty(),
        ),
{
}

/// The constraint that a type equal itself binds nothing.
pub proof fn lemma_equal_types(t: Ty, names: Map<Symbol, Ty>, limit: nat)
    requires
        limit >= 1,
    ensures
        solve(seq![(t, t)], names, Map::empty(), limit) == Ok::<Map<Symbol, Ty>, TypeFault>(
            Map::empty(),
        ),
{
    reveal_with_fuel(solve, 2);
    assert(seq![(t, t)].skip(1) =~= Seq::<(Ty, Ty)>::empty());
}

/// The constraint that a unification variable equal a type, which is no
/// named type and not the variable itself, binds the variable to the type.
/// So does the constraint with the variable in the second place, unless
/// the type is a unification variable, which is then bound itself.
pub proof fn lemma_variable_is_bound(
    name: Symbol,
    t: Ty,
    names: Map<Symbol, Ty>,
    limit: nat,
)
    requires
        limit >= 1,
        t != Ty::UnificationVar(name),
        !(t is Named),
    ensures
        solve(seq![(Ty::UnificationVar(name), t)], names, Map::empty(), limit) == Ok::<
            Map<Symbol, Ty>,
            TypeFault,
        >(Map::<Symbol, Ty>::empty().insert(name, t)),
        !(t is UnificationVar) ==> solve(
            seq![(t, Ty::UnificationVar(name))],
            names,
            Map::empty(),
            limit,
        ) == Ok::<Map<Symbol, Ty>, TypeFault>(Map::<Symbol, Ty>::empty().insert(name, t)),
{
    reveal_with_fuel(solve, 2);
    assert(seq![(Ty::UnificationVar(name), t)].skip(1) =~= Seq::<(Ty, Ty)>::empty());
    assert(seq![(t, Ty::UnificationVar(name))].skip(1) =~= Seq::<(Ty, Ty)>::empty());
}

/// Two function types that differ in the number of their parameters fail
/// with the two numbers.
pub proof fn lemma_arity_mismatch(
    params: Seq<Ty>,
    result: Ty,
    their_params: Seq<Ty>,
    their_result: Ty,
    names: Map<Symbol, Ty>,
    limit: nat,
)
    requires
        limit >= 1,
        params.len() != their_params.len(),
    ensures
        solve(
            seq![(Ty::Func(params, Box::new(result)), Ty::Func(their_params, Box::new(their_result)))],
            names,
            Map::empty(),
            limit,
        ) == Err::<Map<Symbol, Ty>, TypeFault>(
            TypeFault::ArityMismatch(params.len() as int, their_params.len() as int),
        ),
{
}

/// Two types that differ, of which neither is a named type or a
/// unification variable and not both are function types, fail with the two.
pub proof fn lemma_cannot_unify(first: Ty, second: Ty, names: Map<Symbol, Ty>, limit: nat)
    requires
        limit >= 1,
        first != second,
        !(first is Named) && !(second is Named),
        !(first is UnificationVar) && !(second is UnificationVar),
        !(first is Func && second is Func),
    ensures
        solve(seq![(first, second)], names, Map::empty(), limit) == Err::<
            Map<Symbol, Ty>,
            TypeFault,
        >(TypeFault::CannotUnify(first, second)),
{
}

/// A first failure ends the solving: what stands behind the constraint that
/// fails makes no difference, and nothing of what was bound is kept.
pub proof fn lemma_first_failure_is_final(
    work: Seq<(Ty, Ty)>,
    names: Map<Symbol, Ty>,
    bound: Map<Symbol, Ty>,
    limit: nat,
)
    requires
        limit >= 1,
        work.len() >= 1,
        step(work[0].0, work[0].1, names) is Fail,
    ensures
        solve(work, names, bound, limit) == Err::<Map<Symbol, Ty>, TypeFault>(
            step(work[0].0, work[0].1, names)->Fail_0,
        ),
{
}

} // verus!
