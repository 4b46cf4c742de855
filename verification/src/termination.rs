//! Why the unifier comes to an end on constraints that hold no named type
//! where it looks: every step makes the work smaller.

use crate::symbol::Symbol;
use crate::types::Ty;
use crate::unify::{pairs, solve, step, Step, TypeFault};
use vstd::prelude::*;

verus! {

/// The size of a type as the unifier sees it: a function type counts with
/// its parameters and its result, any other type counts as one.
pub open spec fn size(t: Ty) -> nat
    decreases t, 0nat,
{
    match t {
        Ty::Func(params, result) => 1 + size(*result) + list_size(params, params.len()),
        _ => 1,
    }
}

/// The size of the first `n` types of `list` together.
pub open spec fn list_size(list: Seq<Ty>, n: nat) -> nat
    decreases list, n,
{
    if n == 0 || n > list.len() {
        0
    } else {
        list_size(list, (n - 1) as nat) + size(list[n - 1])
    }
}

/// Whether the unifier meets no named type in `t`: `t` is none, and where it
/// is a function type, it meets none in its parameters and its result.
pub open spec fn nameless(t: Ty) -> bool
    decreases t, 0nat,
{
    match t {
        Ty::Named(_) => false,
        Ty::Func(params, result) => nameless(*result) && list_nameless(params, params.len()),
        _ => true,
    }
}

/// Whether the unifier meets no named type in the first `n` types of `list`.
pub open spec fn list_nameless(list: Seq<Ty>, n: nat) -> bool
    decreases list, n,
{
    n == 0 || n > list.len() || (list_nameless(list, (n - 1) as nat) && nameless(list[n - 1]))
}

/// The size of the constraints `work` together.
pub open spec fn work_size(work: Seq<(Ty, Ty)>) -> nat
    decreases work.len(),
{
    if work.len() == 0 {
        0
    } else {
        work_size(work.drop_last()) + size(work.last().0) + size(work.last().1)
    }
}

/// Whether the unifier meets no named type in the constraints `work`.
pub open spec fn work_nameless(work: Seq<(Ty, Ty)>) -> bool {
    forall|k: int| 0 <= k < work.len() ==> nameless((#[trigger] work[k]).0) && nameless(work[k].1)
}

/// Every type has a size.
pub proof fn lemma_size_positive(t: Ty)
    ensures
        size(t) >= 1,
{
}

/// The size of constraints joined is the sum of their sizes.
pub proof fn lemma_work_size_concat(first: Seq<(Ty, Ty)>, second: Seq<(Ty, Ty)>)
    ensures
        work_size(first + second) == work_size(first) + work_size(second),
    decreases second.len(),
{
    if second.len() == 0 {
        assert(first + second =~= first);
    } else {
        assert((first + second).drop_last() =~= first + second.drop_last());
        lemma_work_size_concat(first, second.drop_last());
    }
}

/// The size of constraints is that of the first and that of the rest.
pub proof fn lemma_work_size_skip(work: Seq<(Ty, Ty)>)
    requires
        work.len() >= 1,
    ensures
        work_size(work) == size(work[0].0) + size(work[0].1) + work_size(work.skip(1)),
{
    let head = seq![work[0]];
    assert(head + work.skip(1) =~= work);
    lemma_work_size_concat(head, work.skip(1));
    assert(head.drop_last() =~= Seq::<(Ty, Ty)>::empty());
    assert(work_size(head) == size(work[0].0) + size(work[0].1)) by {
        reveal_with_fuel(work_size, 2);
    }
}

/// The pairs of the first `n` parameters of two function types are as large
/// as those parameters, and hold no named type where the parameters hold none.
pub proof fn lemma_pairs(first: Seq<Ty>, second: Seq<Ty>, n: nat)
    requires
        first.len() == second.len(),
        n <= first.len(),
    ensures
        work_size(pairs(first, second).take(n as int)) == list_size(first, n) + list_size(
            second,
            n,
        ),
        list_nameless(first, n) && list_nameless(second, n) ==> work_nameless(
            pairs(first, second).take(n as int),
        ),
    decreases n,
{
    let all = pairs(first, second);
    if n > 0 {
        let m = (n - 1) as nat;
        lemma_pairs(first, second, m);
        assert(all.take(n as int).drop_last() =~= all.take(m as int));
        assert(all.take(n as int).last() == (first[m as int], second[m as int]));
        if list_nameless(first, n) && list_nameless(second, n) {
            assert forall|k: int| 0 <= k < n implies nameless((#[trigger] all.take(n as int)[k]).0)
                && nameless(all.take(n as int)[k].1) by {
                if k < m {
                    assert(all.take(n as int)[k] == all.take(m as int)[k]);
                }
            }
        }
    } else {
        assert(all.take(0) =~= Seq::<(Ty, Ty)>::empty());
    }
}

/// What a step requeues for two function types is smaller than the two, and
/// holds no named type where they hold none.
pub proof fn lemma_requeue_shrinks(first: Ty, second: Ty, names: Map<Symbol, Ty>)
    requires
        nameless(first),
        nameless(second),
        step(first, second, names) is Requeue,
    ensures
        work_size(step(first, second, names)->Requeue_0) < size(first) + size(second),
        work_nameless(step(first, second, names)->Requeue_0),
{
    let params = first->Func_0;
    let their_params = second->Func_0;
    let matched = pairs(params, their_params);
    let last = (*first->Func_1, *second->Func_1);
    let more = matched.push(last);
    lemma_pairs(params, their_params, params.len());
    assert(matched.take(params.len() as int) =~= matched);
    assert(more.drop_last() =~= matched);
    assert forall|k: int| 0 <= k < more.len() implies nameless((#[trigger] more[k]).0)
        && nameless(more[k].1) by {
        if k < matched.len() {
            assert(more[k] == matched[k]);
        }
    }
}

/// On constraints in which it meets no named type, the unifier takes fewer
/// steps than the constraints are large: within a limit of their size it
/// comes to a solution or to a failure of the constraints themselves.
pub proof fn lemma_limit_suffices(
    work: Seq<(Ty, Ty)>,
    names: Map<Symbol, Ty>,
    bound: Map<Symbol, Ty>,
    limit: nat,
)
    requires
        work_nameless(work),
        work_size(work) <= limit,
    ensures
        solve(work, names, bound, limit) != Err::<Map<Symbol, Ty>, TypeFault>(
            TypeFault::LimitReached,
        ),
    decreases limit,
{
    if work.len() > 0 {
        lemma_work_size_skip(work);
        lemma_size_positive(work[0].0);
        let rest = work.skip(1);
        assert forall|k: int| 0 <= k < rest.len() implies nameless((#[trigger] rest[k]).0)
            && nameless(rest[k].1) by {
            assert(rest[k] == work[k + 1]);
        }
        match step(work[0].0, work[0].1, names) {
            Step::Discard => {
                lemma_limit_suffices(rest, names, bound, (limit - 1) as nat);
            },
            Step::Bind(name, t) => {
                lemma_limit_suffices(rest, names, bound.insert(name, t), (limit - 1) as nat);
            },
            Step::Requeue(more) => {
                lemma_requeue_shrinks(work[0].0, work[0].1, names);
                lemma_work_size_concat(rest, more);
                assert forall|k: int| 0 <= k < (rest + more).len() implies nameless(
                    (#[trigger] (rest + more)[k]).0,
                ) && nameless((rest + more)[k].1) by {
                    if k < rest.len() {
                        assert((rest + more)[k] == rest[k]);
                    } else {
                        assert((rest + more)[k] == more[k - rest.len()]);
                    }
                }
                lemma_limit_suffices(rest + more, names, bound, (limit - 1) as nat);
            },
            Step::Fail(fault) => {},
        }
    }
}

} // verus!
