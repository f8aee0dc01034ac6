use std::marker::PhantomData;

use vstd::prelude::*;

use crate::entities::{Allocator, VerifiedEntity};
use crate::ids::{GenId, IdIndex};

verus! {

/// A dense column of a generational table: the value of row `i` sits at
/// position `i`. Rows are filled in the order the allocator hands out fresh
/// indices, so the column never has a gap.
#[derive(Debug)]
pub struct IndexedVec<ID, T> {
    pub values: Vec<T>,
    pub(crate) marker: PhantomData<ID>,
}

impl<ID, T> IndexedVec<ID, T> {
    /// The column's values, by row index.
    pub open(crate) spec fn spec_values(&self) -> Seq<T> {
        self.values@
    }

    /// The value that `insert` leaves at `index`, and the column after it: an
    /// overwrite below the length, an append at the length.
    pub open(crate) spec fn inserted(old_values: Seq<T>, index: nat, value: T) -> Seq<T> {
        if index < old_values.len() {
            old_values.update(index as int, value)
        } else {
            old_values.push(value)
        }
    }

    /// The value of the row at `index`, if the column reaches it.
    pub open(crate) spec fn spec_get(&self, index: nat) -> Option<T> {
        if index < self.values@.len() {
            Some(self.values@[index as int])
        } else {
            None
        }
    }

    /// An empty column.
    pub fn new() -> (r: Self)
        ensures
            r.spec_values() == Seq::<T>::empty(),
    {
        IndexedVec { values: Vec::new(), marker: PhantomData }
    }

    /// An empty column with room for `capacity` rows.
    pub fn with_capacity(capacity: usize) -> (r: Self)
        ensures
            r.spec_values() == Seq::<T>::empty(),
    {
        IndexedVec { values: Vec::with_capacity(capacity), marker: PhantomData }
    }

    /// Number of rows the column holds.
    pub fn len(&self) -> (r: usize)
        ensures
            r as nat == self.spec_values().len(),
    {
        self.values.len()
    }

    /// Whether the column holds no row.
    pub fn is_empty(&self) -> (r: bool)
        ensures
            r == (self.spec_values().len() == 0),
    {
        self.values.len() == 0
    }

    /// Sets the row's value: overwrites it when the row is already in the
    /// column, appends it when the row is the next one. A row further on
    /// would leave a gap and is ruled out.
    pub fn insert(&mut self, id: &VerifiedEntity<ID>, value: T)
        requires
            id.spec_index() <= old(self).spec_values().len(),
        ensures
            final(self).spec_values() == Self::inserted(old(self).spec_values(), id.spec_index(), value),
    {
        let index = id.index();
        if index < self.values.len() {
            self.values.set(index, value);
        } else {
            self.values.push(value);
        }
    }

    /// The row's value, if the column reaches the row.
    pub fn get(&self, id: &VerifiedEntity<ID>) -> (r: Option<&T>)
        ensures
            match r {
                Some(v) => self.spec_get(id.spec_index()) == Some(*v),
                None => self.spec_get(id.spec_index()) is None,
            },
    {
        let index = id.index();
        if index < self.values.len() {
            Some(&self.values[index])
        } else {
            None
        }
    }

    /// Allocates a row from `allocator` and stores `value` for it. The
    /// column must be in step with the allocator, and stays so.
    pub fn create(&mut self, value: T, allocator: &mut Allocator<ID>) -> (r: VerifiedEntity<ID>)
        requires
            old(allocator).wf(),
            old(allocator).can_create(),
            old(self).spec_values().len() == old(allocator).gens().len(),
        ensures
            final(allocator).wf(),
            old(allocator).created(*final(allocator), r.entity),
            final(allocator).spec_is_alive(r.entity),
            final(self).spec_values() == Self::inserted(old(self).spec_values(), r.entity.spec_index(), value),
            final(self).spec_values().len() == final(allocator).gens().len(),
    {
        let id = allocator.create_entity();
        self.insert(&id, value);
        id
    }
}

impl<ID, T> Default for IndexedVec<ID, T> {
    fn default() -> (r: Self)
        ensures
            r.spec_values() == Seq::<T>::empty(),
    {
        IndexedVec::new()
    }
}

/// What reconciliation leaves of a stored link: a link to a row that is no
/// longer alive becomes empty.
pub open spec fn reconciled<B>(allocator: Allocator<B>, link: Option<GenId<B>>) -> Option<GenId<B>> {
    match link {
        Some(b) => if allocator.spec_is_alive(b) {
            Some(b)
        } else {
            None
        },
        None => None,
    }
}

impl<A, B> IndexedVec<A, Option<GenId<B>>> {
    /// Clears every stored link whose target is no longer alive.
    pub fn retain(&mut self, allocator: &Allocator<B>)
        ensures
            final(self).spec_values().len() == old(self).spec_values().len(),
            forall|i: int|
                0 <= i < old(self).spec_values().len() ==> #[trigger] final(self).spec_values()[i]
                    == reconciled(*allocator, old(self).spec_values()[i]),
    {
        let mut i: usize = 0;
        while i < self.values.len()
            invariant
                self.values@.len() == old(self).values@.len(),
                i <= self.values@.len(),
                forall|j: int| 0 <= j < i ==> #[trigger] self.values@[j] == reconciled(*allocator, old(self).values@[j]),
                forall|j: int| i <= j < self.values@.len() ==> #[trigger] self.values@[j] == old(self).values@[j],
            decreases self.values@.len() - i,
        {
            if let Some(b) = self.values[i] {
                if !allocator.is_alive(b) {
                    self.values.set(i, None);
                }
            }
            i += 1;
        }
    }
}

impl<A, B> IndexedVec<A, GenId<B>> {
    /// Every live row of table A whose stored B handle is alive too, paired
    /// with that handle, in A's index order. The column must reach every
    /// slot of A.
    pub fn verified_both(&self, allocator_a: &Allocator<A>, allocator_b: &Allocator<B>) -> (r: Vec<
        (VerifiedEntity<A>, VerifiedEntity<B>),
    >)
        requires
            allocator_a.wf(),
            allocator_a.gens().len() <= self.spec_values().len(),
        ensures
            forall|m: int|
                0 <= m < r@.len() ==> {
                    &&& allocator_a.spec_is_alive((#[trigger] r@[m]).0.entity)
                    &&& r@[m].1.entity == self.spec_values()[r@[m].0.entity.spec_index() as int]
                    &&& allocator_b.spec_is_alive(r@[m].1.entity)
                },
            forall|m1: int, m2: int|
                0 <= m1 < m2 < r@.len() ==> r@[m1].0.entity.spec_index() < r@[m2].0.entity.spec_index(),
            forall|i: nat|
                #[trigger] allocator_a.live().contains(i) && allocator_b.spec_is_alive(self.spec_values()[i as int])
                    ==> exists|m: int| 0 <= m < r@.len() && #[trigger] r@[m].0.entity.spec_index() == i,
    {
        let ids = allocator_a.ids();
        let mut out: Vec<(VerifiedEntity<A>, VerifiedEntity<B>)> = Vec::new();
        let mut k: usize = 0;
        while k < ids.len()
            invariant
                k <= ids@.len(),
                allocator_a.gens().len() <= self.values@.len(),
                forall|j: int| 0 <= j < ids@.len() ==> allocator_a.spec_is_alive(#[trigger] ids@[j].entity),
                forall|j1: int, j2: int|
                    0 <= j1 < j2 < ids@.len() ==> ids@[j1].entity.spec_index() < ids@[j2].entity.spec_index(),
                forall|m: int|
                    0 <= m < out@.len() ==> {
                        &&& allocator_a.spec_is_alive((#[trigger] out@[m]).0.entity)
                        &&& out@[m].1.entity == self.values@[out@[m].0.entity.spec_index() as int]
                        &&& allocator_b.spec_is_alive(out@[m].1.entity)
                    },
                forall|m1: int, m2: int|
                    0 <= m1 < m2 < out@.len() ==> out@[m1].0.entity.spec_index() < out@[m2].0.entity.spec_index(),
                forall|m: int, j: int|
                    0 <= m < out@.len() && k <= j < ids@.len() ==> (#[trigger] out@[m]).0.entity.spec_index()
                        < (#[trigger] ids@[j]).entity.spec_index(),
                forall|j: int|
                    0 <= j < k && allocator_b.spec_is_alive(self.values@[#[trigger] ids@[j].entity.spec_index() as int])
                        ==> exists|m: int| 0 <= m < out@.len() && #[trigger] out@[m].0.entity.spec_index() == ids@[j].entity.spec_index(),
            decreases ids@.len() - k,
        {
            let a = ids[k];
            let b = self.values[a.index()];
            if let Some(vb) = allocator_b.verify(b) {
                let ghost before = out@;
                out.push((a, vb));
                proof {
                    assert forall|j: int|
                        0 <= j < k + 1 && allocator_b.spec_is_alive(self.values@[#[trigger] ids@[j].entity.spec_index() as int])
                        implies exists|m: int| 0 <= m < out@.len() && #[trigger] out@[m].0.entity.spec_index() == ids@[j].entity.spec_index() by {
                        if j < k {
                            let m = choose|m: int| 0 <= m < before.len() && #[trigger] before[m].0.entity.spec_index() == ids@[j].entity.spec_index();
                            assert(out@[m] == before[m]);
                        } else {
                            assert(out@[out@.len() - 1].0.entity.spec_index() == ids@[j].entity.spec_index());
                        }
                    }
                }
            }
            k += 1;
        }
        proof {
            assert forall|i: nat|
                #[trigger] allocator_a.live().contains(i) && allocator_b.spec_is_alive(self.values@[i as int])
                implies exists|m: int| 0 <= m < out@.len() && #[trigger] out@[m].0.entity.spec_index() == i by {
                let j = choose|j: int| 0 <= j < ids@.len() && #[trigger] ids@[j].entity.spec_index() == i;
                assert(allocator_b.spec_is_alive(self.values@[ids@[j].entity.spec_index() as int]));
            }
        }
        out
    }
}

/// What `insert` then `get` on the same row gives: the value inserted.
pub proof fn lemma_insert_then_get<ID, T>(before: IndexedVec<ID, T>, after: IndexedVec<ID, T>, index: nat, value: T)
    requires
        index <= before.spec_values().len(),
        after.spec_values() == IndexedVec::<ID, T>::inserted(before.spec_values(), index, value),
    ensures
        after.spec_get(index) == Some(value),
{
}

} // verus!
