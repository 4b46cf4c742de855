//! A scoped table from keys to values: a stack of scopes in which inner
//! bindings shadow outer ones.

use std::collections::HashMap;
use std::hash::Hash;
use vstd::prelude::*;
use vstd::std_specs::hash::*;

verus! {

broadcast use vstd::std_specs::hash::group_hash_axioms;

/// Whether hash maps keyed by `K` behave as the mathematical maps that model them.
pub open spec fn key_model<K>() -> bool {
    obeys_key_model::<K>()
}

/// The binding that `key` resolves to in the first `depth` scopes of `scopes`,
/// searching from the innermost of them outwards.
pub open spec fn resolve<K, V>(scopes: Seq<Map<K, V>>, depth: int, key: K) -> Option<V>
    decreases depth,
{
    if depth <= 0 || depth > scopes.len() {
        None
    } else if scopes[depth - 1].contains_key(key) {
        Some(scopes[depth - 1][key])
    } else {
        resolve(scopes, depth - 1, key)
    }
}

/// A stack of scopes, the innermost last. It is never empty.
#[derive(Debug)]
pub struct Environment<K, V> {
    scopes: Vec<HashMap<K, V>>,
}

impl<K, V> View for Environment<K, V> {
    type V = Seq<Map<K, V>>;

    closed spec fn view(&self) -> Seq<Map<K, V>> {
        Seq::new(self.scopes@.len(), |i: int| self.scopes@[i]@)
    }
}

impl<K: Eq + Hash, V> Environment<K, V> {
    /// The invariant of the type: at least one scope is open.
    pub open spec fn wf(&self) -> bool {
        self@.len() >= 1
    }

    /// What `key` is bound to, innermost binding first.
    pub open spec fn binding(&self, key: K) -> Option<V> {
        resolve(self@, self@.len() as int, key)
    }

    /// An environment with one empty scope.
    pub fn new() -> (env: Self)
        ensures
            env.wf(),
            env@ =~= seq![Map::<K, V>::empty()],
    {
        let mut scopes: Vec<HashMap<K, V>> = Vec::new();
        scopes.push(HashMap::new());
        Environment { scopes }
    }

    /// The number of open scopes.
    pub fn depth(&self) -> (n: usize)
        ensures
            n == self@.len(),
    {
        self.scopes.len()
    }

    /// Opens a new innermost scope, with no bindings.
    pub fn push_scope(&mut self)
        ensures
            final(self).wf(),
            final(self)@ =~= old(self)@.push(Map::<K, V>::empty()),
    {
        self.scopes.push(HashMap::new());
    }

    /// Closes the innermost scope and forgets its bindings.
    pub fn pop_scope(&mut self)
        requires
            old(self)@.len() >= 2,
        ensures
            final(self).wf(),
            final(self)@ =~= old(self)@.drop_last(),
    {
        self.scopes.pop();
    }

    /// Binds `key` to `value` in the innermost scope, replacing what it was
    /// bound to there.
    pub fn insert(&mut self, key: K, value: V)
        requires
            old(self).wf(),
        ensures
            final(self).wf(),
            key_model::<K>() ==> final(self)@ =~= old(self)@.update(
                old(self)@.len() - 1,
                old(self)@.last().insert(key, value),
            ),
            final(self)@.len() == old(self)@.len(),
    {
        let last = self.scopes.len() - 1;
        self.scopes[last].insert(key, value);
    }

    /// The value that `key` is bound to in the innermost scope that binds it.
    pub fn lookup(&self, key: K) -> (found: Option<&V>)
        ensures
            key_model::<K>() ==> match found {
                Some(value) => self.binding(key) == Some(*value),
                None => self.binding(key).is_none(),
            },
    {
        let mut depth = self.scopes.len();
        while depth > 0
            invariant
                depth <= self.scopes@.len(),
                key_model::<K>() ==> self.binding(key) == resolve(self@, depth as int, key),
            decreases depth,
        {
            depth -= 1;
            if let Some(value) = self.scopes[depth].get(&key) {
                return Some(value);
            }
        }
        None
    }
}

/// The innermost scope that binds a key decides what the key resolves to.
pub proof fn lemma_resolve_innermost<K, V>(scopes: Seq<Map<K, V>>, key: K)
    requires
        scopes.len() >= 1,
    ensures
        scopes.last().contains_key(key) ==> resolve(scopes, scopes.len() as int, key) == Some(
            scopes.last()[key],
        ),
        !scopes.last().contains_key(key) ==> resolve(scopes, scopes.len() as int, key) == resolve(
            scopes.drop_last(),
            scopes.len() - 1,
            key,
        ),
{
    lemma_resolve_prefix(scopes, scopes.drop_last(), scopes.len() - 1, key);
}

/// What a key resolves to in the first scopes depends on those scopes alone.
pub proof fn lemma_resolve_prefix<K, V>(
    scopes: Seq<Map<K, V>>,
    others: Seq<Map<K, V>>,
    depth: int,
    key: K,
)
    requires
        0 <= depth <= scopes.len(),
        depth <= others.len(),
        forall|k: int| 0 <= k < depth ==> scopes[k] == others[k],
    ensures
        resolve(scopes, depth, key) == resolve(others, depth, key),
    decreases depth,
{
    if depth > 0 {
        lemma_resolve_prefix(scopes, others, depth - 1, key);
    }
}

/// Shadowing: a binding in a new scope hides the binding of the same key
/// in the scopes around it, and comes to light again when the new scope is
/// closed.
pub proof fn lemma_shadowing<K, V>(scopes: Seq<Map<K, V>>, key: K, outer: V, inner: V)
    requires
        scopes.len() >= 1,
    ensures
        ({
            let bound = scopes.update(scopes.len() - 1, scopes.last().insert(key, outer));
            let nested = bound.push(Map::<K, V>::empty().insert(key, inner));
            &&& resolve(bound, bound.len() as int, key) == Some(outer)
            &&& resolve(nested, nested.len() as int, key) == Some(inner)
            &&& nested.drop_last() == bound
        }),
{
    let bound = scopes.update(scopes.len() - 1, scopes.last().insert(key, outer));
    let nested = bound.push(Map::<K, V>::empty().insert(key, inner));
    assert(nested.drop_last() =~= bound);
}

/// A scope that is opened and closed again leaves the bindings as they were.
pub proof fn lemma_scope_brackets<K, V>(scopes: Seq<Map<K, V>>, key: K)
    ensures
        scopes.push(Map::<K, V>::empty()).drop_last() == scopes,
        resolve(
            scopes.push(Map::<K, V>::empty()),
            (scopes.len() + 1) as int,
            key,
        ) == resolve(scopes, scopes.len() as int, key),
{
    let opened = scopes.push(Map::<K, V>::empty());
    assert(opened.drop_last() =~= scopes);
    lemma_resolve_prefix(opened, scopes, scopes.len() as int, key);
}

} // verus!
