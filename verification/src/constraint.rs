//! Constraints between types, and sets of them.

use crate::types::{Ty, Type};
use vstd::prelude::*;

verus! {

/// The demand that two types be equal. Which of the two stands first makes
/// no difference.
#[derive(Debug)]
pub struct Constraint(pub Type, pub Type);

impl View for Constraint {
    type V = (Ty, Ty);

    open spec fn view(&self) -> (Ty, Ty) {
        (self.0@, self.1@)
    }
}

/// Whether `c` and `d` demand the same: they hold the same two types, in
/// the same order or in the other.
pub open spec fn equivalent(c: (Ty, Ty), d: (Ty, Ty)) -> bool {
    (c.0 == d.0 && c.1 == d.1) || (c.0 == d.1 && c.1 == d.0)
}

/// Whether `set` holds a constraint that demands what `c` demands.
pub open spec fn holds(set: Seq<(Ty, Ty)>, c: (Ty, Ty)) -> bool {
    exists|k: int| 0 <= k < set.len() && equivalent(#[trigger] set[k], c)
}

/// Whether no two constraints of `set` demand the same.
pub open spec fn distinct(set: Seq<(Ty, Ty)>) -> bool {
    forall|j: int, k: int| 0 <= j < k < set.len() ==> !equivalent(#[trigger] set[j], #[trigger] set[k])
}

/// `set` with `c` added behind its last constraint, unless `set` holds what
/// `c` demands.
pub open spec fn with_constraint(set: Seq<(Ty, Ty)>, c: (Ty, Ty)) -> Seq<(Ty, Ty)> {
    if holds(set, c) {
        set
    } else {
        set.push(c)
    }
}

/// `set` with the constraints of `added`, each in its turn.
pub open spec fn with_constraints(set: Seq<(Ty, Ty)>, added: Seq<(Ty, Ty)>) -> Seq<(Ty, Ty)>
    decreases added.len(),
{
    if added.len() == 0 {
        set
    } else {
        with_constraint(with_constraints(set, added.drop_last()), added.last())
    }
}

/// Adding the constraints of a list of one is adding the one.
pub proof fn lemma_with_one_constraint(set: Seq<(Ty, Ty)>, c: (Ty, Ty))
    ensures
        with_constraints(set, seq![c]) == with_constraint(set, c),
{
    reveal_with_fuel(with_constraints, 2);
    assert(seq![c].drop_last() =~= Seq::<(Ty, Ty)>::empty());
}

/// Adding the constraints of two lists, one list after the other, is
/// adding those of the lists joined.
pub proof fn lemma_with_constraints_concat(
    set: Seq<(Ty, Ty)>,
    first: Seq<(Ty, Ty)>,
    second: Seq<(Ty, Ty)>,
)
    ensures
        with_constraints(with_constraints(set, first), second) == with_constraints(
            set,
            first + second,
        ),
    decreases second.len(),
{
    if second.len() == 0 {
        assert(first + second =~= first);
    } else {
        assert((first + second).drop_last() =~= first + second.drop_last());
        lemma_with_constraints_concat(set, first, second.drop_last());
    }
}

impl Constraint {
    /// Tells whether `self` and `other` demand the same.
    pub fn same(&self, other: &Constraint) -> (same: bool)
        ensures
            same == equivalent(self@, other@),
    {
        (self.0.same(&other.0) && self.1.same(&other.1)) || (self.0.same(&other.1)
            && self.1.same(&other.0))
    }
}

impl Clone for Constraint {
    fn clone(&self) -> (copy: Constraint)
        ensures
            copy@ == self@,
    {
        Constraint(self.0.clone(), self.1.clone())
    }
}

/// A set of constraints, kept in the order in which they were added.
#[derive(Debug)]
pub struct ConstraintSet {
    items: Vec<Constraint>,
}

impl View for ConstraintSet {
    type V = Seq<(Ty, Ty)>;

    closed spec fn view(&self) -> Seq<(Ty, Ty)> {
        Seq::new(self.items@.len(), |k: int| self.items@[k]@)
    }
}

impl ConstraintSet {
    /// The invariant of the type: no two of its constraints demand the same.
    pub open spec fn wf(&self) -> bool {
        distinct(self@)
    }

    /// The empty set.
    pub fn new() -> (set: ConstraintSet)
        ensures
            set.wf(),
            set@ =~= Seq::<(Ty, Ty)>::empty(),
    {
        ConstraintSet { items: Vec::new() }
    }

    /// The number of constraints in the set.
    pub fn len(&self) -> (n: usize)
        ensures
            n == self@.len(),
    {
        self.items.len()
    }

    /// The constraint with the number `k`, counted in the order of adding.
    pub fn get(&self, k: usize) -> (c: &Constraint)
        requires
            k < self@.len(),
        ensures
            c@ == self@[k as int],
    {
        &self.items[k]
    }

    /// Tells whether the set holds a constraint that demands what `c` demands.
    pub fn contains(&self, c: &Constraint) -> (found: bool)
        ensures
            found == holds(self@, c@),
    {
        let mut k: usize = 0;
        while k < self.items.len()
            invariant
                k <= self.items@.len(),
                forall|j: int| 0 <= j < k ==> !equivalent(#[trigger] self@[j], c@),
            decreases self.items@.len() - k,
        {
            if self.items[k].same(c) {
                assert(equivalent(self@[k as int], c@));
                return true;
            }
            k += 1;
        }
        false
    }

    /// Adds `c` unless the set holds what it demands. Tells whether it was added.
    pub fn insert(&mut self, c: Constraint) -> (added: bool)
        requires
            old(self).wf(),
        ensures
            final(self).wf(),
            final(self)@ == with_constraint(old(self)@, c@),
            added == !holds(old(self)@, c@),
    {
        if self.contains(&c) {
            return false;
        }
        let ghost before = self@;
        self.items.push(c);
        proof {
            assert(self@ =~= before.push(c@));
            assert forall|j: int, k: int| 0 <= j < k < self@.len() implies !equivalent(
                #[trigger] self@[j],
                #[trigger] self@[k],
            ) by {
                if k == before.len() {
                    assert(!equivalent(before[j], c@));
                } else {
                    assert(!equivalent(before[j], before[k]));
                }
            }
        }
        true
    }
}

} // verus!
