use std::marker::PhantomData;

use vstd::prelude::*;

use crate::allocators::FixedAllocator;
use crate::ids::{Id, IdIndex};

verus! {

/// A dense column that every row of its table has: the value of row `i`
/// sits at position `i`, and it is filled in the order rows are created.
/// Keyed by any handle kind of table `ID`.
#[derive(Debug)]
pub struct Component<ID, T> {
    pub values: Vec<T>,
    pub(crate) marker: PhantomData<ID>,
}

impl<ID, T> Component<ID, T> {
    /// The column's values, by row index.
    pub open(crate) spec fn spec_values(&self) -> Seq<T> {
        self.values@
    }

    /// An empty column.
    pub fn new() -> (r: Self)
        ensures
            r.spec_values() == Seq::<T>::empty(),
    {
        Component { values: Vec::new(), marker: PhantomData }
    }

    /// Number of rows the column holds.
    pub fn len(&self) -> (r: usize)
        ensures
            r as nat == self.spec_values().len(),
    {
        self.values.len()
    }

    /// Sets the row's value: overwrites it when the row is already in the
    /// column, appends it when the row is the next one. A row further on
    /// would leave a gap and is ruled out.
    pub fn insert<I: IdIndex<Arena = ID>>(&mut self, id: &I, value: T)
        requires
            id.spec_index() <= old(self).spec_values().len(),
        ensures
            id.spec_index() < old(self).spec_values().len() ==> final(self).spec_values()
                == old(self).spec_values().update(id.spec_index() as int, value),
            id.spec_index() == old(self).spec_values().len() ==> final(self).spec_values()
                == old(self).spec_values().push(value),
    {
        let index = id.index();
        if index < self.values.len() {
            self.values.set(index, value);
        } else {
            self.values.push(value);
        }
    }

    /// The row's value. Every row that has been created has one.
    pub fn get<I: IdIndex<Arena = ID>>(&self, id: &I) -> (r: &T)
        requires
            id.spec_index() < self.spec_values().len(),
        ensures
            *r == self.spec_values()[id.spec_index() as int],
    {
        &self.values[id.index()]
    }

    /// The row's value, to change in place.
    pub fn get_mut<I: IdIndex<Arena = ID>>(&mut self, id: &I) -> (r: &mut T)
        requires
            id.spec_index() < old(self).spec_values().len(),
        ensures
            *r == old(self).spec_values()[id.spec_index() as int],
            final(self).spec_values() == old(self).spec_values().update(id.spec_index() as int, *final(r)),
    {
        let index = id.index();
        &mut self.values[index]
    }

    /// Allocates a row from `allocator` and stores `value` for it. The
    /// column must be in step with the allocator, and stays so.
    pub fn create(&mut self, value: T, allocator: &mut FixedAllocator<ID>) -> (r: Id<ID>)
        requires
            old(allocator).wf(),
            old(allocator).spec_len() <= u32::MAX,
            old(self).spec_values().len() == old(allocator).spec_len(),
        ensures
            final(allocator).wf(),
            final(allocator).spec_len() == old(allocator).spec_len() + 1,
            r.spec_index() == old(allocator).spec_len(),
            final(self).spec_values() == old(self).spec_values().push(value),
    {
        let id = allocator.create();
        self.insert(&id, value);
        id
    }
}

impl<ID, T> Default for Component<ID, T> {
    fn default() -> (r: Self)
        ensures
            r.spec_values() == Seq::<T>::empty(),
    {
        Component::new()
    }
}

} // verus!
