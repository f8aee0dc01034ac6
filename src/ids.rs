use std::marker::PhantomData;
use vstd::prelude::*;

use crate::entities::Generation;

verus! {

/// Anything that names a row of one table by its position in that table.
pub trait IdIndex {
    /// The table the handle belongs to.
    type Arena;

    /// The row position, as a mathematical integer.
    spec fn spec_index(&self) -> nat;

    /// The row position.
    fn index(&self) -> (r: usize)
        ensures
            r as nat == self.spec_index(),
    ;
}

/// A handle into a table whose rows are never deleted: just the row position.
#[derive(Debug)]
pub struct Id<T> {
    pub(crate) index: u32,
    pub(crate) marker: PhantomData<T>,
}

impl<T> Clone for Id<T> {
    fn clone(&self) -> Self {
        *self
    }
}

impl<T> Copy for Id<T> {
}

impl<T> Id<T> {
    pub(crate) fn new(index: u32) -> (r: Self)
        ensures
            r.spec_index() == index,
    {
        Id { index, marker: PhantomData }
    }
}

impl<T> IdIndex for Id<T> {
    type Arena = T;

    open(crate) spec fn spec_index(&self) -> nat {
        self.index as nat
    }

    fn index(&self) -> (r: usize) {
        self.index as usize
    }
}

impl<T> PartialEq for Id<T> {
    fn eq(&self, other: &Self) -> (r: bool) {
        self.index == other.index
    }
}

impl<T> vstd::std_specs::cmp::PartialEqSpecImpl for Id<T> {
    open spec fn obeys_eq_spec() -> bool {
        true
    }

    open spec fn eq_spec(&self, other: &Self) -> bool {
        self.spec_index() == other.spec_index()
    }
}

impl<T> Eq for Id<T> {
}

/// A handle into a table whose slots are recycled: the row position and the
/// generation that the slot had when the handle was issued.
#[derive(Debug)]
pub struct GenId<T> {
    pub(crate) index: u32,
    pub(crate) generation: Generation,
    pub(crate) marker: PhantomData<T>,
}

impl<T> Clone for GenId<T> {
    fn clone(&self) -> Self {
        *self
    }
}

impl<T> Copy for GenId<T> {
}

impl<T> GenId<T> {
    /// The generation carried by the handle.
    pub open(crate) spec fn spec_generation(&self) -> nat {
        self.generation.spec_value()
    }

    /// The pair that identifies the handle in hashed storage.
    pub open(crate) spec fn spec_key(&self) -> (u32, u32) {
        (self.index, self.generation.value)
    }

    pub fn new(index: u32, generation: Generation) -> (r: Self)
        ensures
            r.spec_index() == index,
            r.spec_generation() == generation.spec_value(),
    {
        GenId { index, generation, marker: PhantomData }
    }

    /// Rebuilds a handle from the pair that identifies it.
    pub(crate) fn from_key(key: (u32, u32)) -> (r: Self)
        ensures
            r.spec_key() == key,
    {
        GenId { index: key.0, generation: Generation { value: key.1 }, marker: PhantomData }
    }

    /// The pair that identifies the handle in hashed storage.
    pub(crate) fn key(&self) -> (r: (u32, u32))
        ensures
            r == self.spec_key(),
    {
        (self.index, self.generation.value)
    }

    /// The generation carried by the handle.
    pub fn generation(&self) -> (r: Generation)
        ensures
            r.spec_value() == self.spec_generation(),
    {
        self.generation
    }
}

impl<T> IdIndex for GenId<T> {
    type Arena = T;

    open(crate) spec fn spec_index(&self) -> nat {
        self.index as nat
    }

    fn index(&self) -> (r: usize) {
        self.index as usize
    }
}

impl<T> PartialEq for GenId<T> {
    fn eq(&self, other: &Self) -> (r: bool) {
        self.index == other.index && self.generation.value == other.generation.value
    }
}

impl<T> vstd::std_specs::cmp::PartialEqSpecImpl for GenId<T> {
    open spec fn obeys_eq_spec() -> bool {
        true
    }

    open spec fn eq_spec(&self, other: &Self) -> bool {
        self.spec_key() == other.spec_key()
    }
}

impl<T> Eq for GenId<T> {
}

} // verus!
