use vstd::prelude::*;

use crate::ids::{Id, IdIndex};

verus! {

/// The allocator of an append-only table: every create takes the next index
/// and no row is ever deleted.
#[derive(Debug)]
pub struct FixedAllocator<T> {
    ids: Vec<Id<T>>,
}

impl<T> FixedAllocator<T> {
    /// Number of rows created so far.
    pub closed spec fn spec_len(&self) -> nat {
        self.ids@.len()
    }

    /// The handle at position `k` is the one for row `k`.
    pub closed spec fn wf(&self) -> bool {
        &&& self.ids@.len() <= u32::MAX as nat + 1
        &&& forall|k: int| 0 <= k < self.ids@.len() ==> (#[trigger] self.ids@[k]).spec_index() == k
    }

    /// An allocator with no rows.
    pub fn new() -> (r: Self)
        ensures
            r.wf(),
            r.spec_len() == 0,
    {
        FixedAllocator { ids: Vec::new() }
    }

    /// Issues the handle of a new row: the index after the last one.
    pub fn create(&mut self) -> (r: Id<T>)
        requires
            old(self).wf(),
            old(self).spec_len() <= u32::MAX,
        ensures
            final(self).wf(),
            r.spec_index() == old(self).spec_len(),
            final(self).spec_len() == old(self).spec_len() + 1,
    {
        let index = self.ids.len();
        let id = Id::new(index as u32);
        self.ids.push(id);
        id
    }

    /// Number of rows created so far.
    pub fn len(&self) -> (r: usize)
        ensures
            r as nat == self.spec_len(),
    {
        self.ids.len()
    }

    /// Every handle issued so far, in creation order.
    pub fn ids(&self) -> (r: Vec<Id<T>>)
        requires
            self.wf(),
        ensures
            r@.len() == self.spec_len(),
            forall|k: int| 0 <= k < r@.len() ==> (#[trigger] r@[k]).spec_index() == k,
    {
        let mut out: Vec<Id<T>> = Vec::new();
        let mut k: usize = 0;
        while k < self.ids.len()
            invariant
                self.wf(),
                k <= self.ids@.len(),
                out@.len() == k,
                forall|j: int| 0 <= j < out@.len() ==> (#[trigger] out@[j]).spec_index() == j,
            decreases self.ids@.len() - k,
        {
            out.push(self.ids[k]);
            k += 1;
        }
        out
    }
}

impl<T> Default for FixedAllocator<T> {
    fn default() -> (r: Self)
        ensures
            r.wf(),
            r.spec_len() == 0,
    {
        FixedAllocator::new()
    }
}

} // verus!
