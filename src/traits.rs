use vstd::prelude::*;

verus! {

/// Builds a compound record across several tables from one value and
/// returns the handle of its root row. Implemented by the state type of an
/// application, which knows the tables that make up the record.
pub trait Construct<ID, T> {
    fn construct(&mut self, value: T) -> ID;
}

/// Tears down the compound record rooted at `id`: dependent rows first, the
/// root last, and nothing at all when the root is already dead.
pub trait Deconstruct<ID> {
    fn deconstruct(&mut self, id: ID);
}

/// One pass of an application's update over its state.
pub trait Update<T> {
    fn update(state: &mut T);
}

/// Splits a combined state into its allocators and its columns, so that a
/// handle can be allocated from one while the other is written.
pub trait Split<E, S> {
    fn split(&mut self) -> (&mut E, &mut S);
}

} // verus!
