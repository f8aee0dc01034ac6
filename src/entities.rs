use std::marker::PhantomData;

use bit_set::BitSet;
use vstd::prelude::*;

use crate::bitset::{bit_set_members, bits_contains, bits_insert, bits_new, bits_remove};
use crate::fxhash::HandleKey;
use crate::ids::{GenId, IdIndex};

verus! {

/// A slot's version number: strictly positive, starts at one, and only ever
/// moves up by one when the slot's row is deleted.
#[derive(Debug, Clone, Copy, PartialEq, Eq, Structural)]
pub struct Generation {
    pub(crate) value: u32,
}

impl Generation {
    /// The number this generation stands for.
    pub open(crate) spec fn spec_value(&self) -> nat {
        self.value as nat
    }

    /// The generation after this one. The count never wraps around.
    pub fn next(self) -> (r: Self)
        requires
            self.spec_value() < u32::MAX,
        ensures
            r.spec_value() == self.spec_value() + 1,
    {
        Generation { value: self.value + 1 }
    }

    /// The number this generation stands for.
    pub fn value(self) -> (r: u32)
        ensures
            r as nat == self.spec_value(),
    {
        self.value
    }
}

impl Default for Generation {
    /// The generation of a slot that has never been recycled.
    fn default() -> (r: Self)
        ensures
            r.spec_value() == 1,
    {
        Generation { value: 1 }
    }
}

/// A handle that was found alive in its allocator at the moment it was made.
/// It says nothing about later deletions.
#[derive(Debug)]
pub struct VerifiedEntity<T> {
    pub entity: GenId<T>,
}

impl<T> Clone for VerifiedEntity<T> {
    fn clone(&self) -> Self {
        VerifiedEntity { entity: self.entity }
    }
}

impl<T> Copy for VerifiedEntity<T> {
}

impl<T> VerifiedEntity<T> {
    /// Wraps a handle that the caller knows to be alive.
    pub fn assert_valid(entity: GenId<T>) -> (r: Self)
        ensures
            r.entity == entity,
    {
        VerifiedEntity { entity }
    }
}

impl<T> IdIndex for VerifiedEntity<T> {
    type Arena = T;

    open spec fn spec_index(&self) -> nat {
        self.entity.spec_index()
    }

    fn index(&self) -> (r: usize) {
        self.entity.index()
    }
}

/// The generational allocator of one table: issues handles, recycles the
/// slots of deleted rows, and tells live handles from stale ones.
#[derive(Debug)]
pub struct Allocator<T> {
    generations: Vec<Generation>,
    dead: Vec<usize>,
    living: BitSet,
    marker: PhantomData<T>,
}

impl<T> Allocator<T> {
    /// Current generation of every slot, by index.
    pub closed spec fn gens(&self) -> Seq<nat> {
        Seq::new(self.generations@.len(), |i: int| self.generations@[i].spec_value())
    }

    /// Indices waiting for reuse; the last one is reused first.
    pub closed spec fn free_list(&self) -> Seq<nat> {
        Seq::new(self.dead@.len(), |k: int| self.dead@[k] as nat)
    }

    /// Indices whose slot currently holds a live row.
    pub closed spec fn live(&self) -> Set<nat> {
        bit_set_members(self.living)
    }

    /// Every slot is either live or waiting, once, on the free list; every
    /// index fits in a handle; no generation is zero.
    pub closed spec fn wf(&self) -> bool {
        &&& self.generations@.len() <= u32::MAX as nat + 1
        &&& forall|i: int| 0 <= i < self.generations@.len() ==> #[trigger] self.generations@[i].spec_value() >= 1
        &&& forall|k: int| 0 <= k < self.dead@.len() ==> {
            &&& #[trigger] self.dead@[k] < self.generations@.len()
            &&& !self.live().contains(self.dead@[k] as nat)
        }
        &&& self.dead@.no_duplicates()
        &&& forall|i: nat| #[trigger] self.live().contains(i) ==> i < self.generations@.len()
        &&& forall|i: usize| i < self.generations@.len() && !(#[trigger] self.live().contains(i as nat)) ==> self.dead@.contains(i)
    }

    /// The slot at `key.0` is live and carries generation `key.1`.
    pub open spec fn key_alive(&self, key: HandleKey) -> bool {
        &&& key.0 < self.gens().len()
        &&& self.live().contains(key.0 as nat)
        &&& self.gens()[key.0 as int] == key.1
    }

    /// The handle's slot is live and still carries the handle's generation.
    pub open spec fn spec_is_alive(&self, id: GenId<T>) -> bool {
        self.key_alive(id.spec_key())
    }

    /// A new row can be given a slot: one is waiting for reuse, or a fresh
    /// index still fits in a handle.
    pub open spec fn can_create(&self) -> bool {
        self.free_list().len() > 0 || self.gens().len() <= u32::MAX
    }

    /// `next` is `self` after a create that returned `id`: the most recently
    /// freed index comes back with its bumped generation, else a fresh index
    /// is appended with generation one.
    pub open spec fn created(&self, next: Self, id: GenId<T>) -> bool {
        &&& if self.free_list().len() > 0 {
            let i = self.free_list().last();
            &&& i < self.gens().len()
            &&& id.spec_index() == i
            &&& id.spec_generation() == self.gens()[i as int]
            &&& next.free_list() == self.free_list().drop_last()
            &&& next.gens() == self.gens()
        } else {
            &&& id.spec_index() == self.gens().len()
            &&& id.spec_generation() == 1
            &&& next.free_list() == self.free_list()
            &&& next.gens() == self.gens().push(1)
        }
        &&& next.live() == self.live().insert(id.spec_index())
    }

    /// `next` is `self` after a kill of `id`: a live handle's slot gets the
    /// next generation and goes on top of the free list; anything else
    /// changes nothing.
    pub open spec fn killed(&self, next: Self, id: GenId<T>) -> bool {
        if self.spec_is_alive(id) {
            let i = id.spec_index();
            &&& next.gens() == self.gens().update(i as int, self.gens()[i as int] + 1)
            &&& next.free_list() == self.free_list().push(i)
            &&& next.live() == self.live().remove(i)
        } else {
            &&& next.gens() == self.gens()
            &&& next.free_list() == self.free_list()
            &&& next.live() == self.live()
        }
    }

    /// Every live slot can take one more kill without its generation
    /// running out.
    pub open spec fn live_below_max(&self) -> bool {
        forall|i: nat| #[trigger] self.live().contains(i) ==> self.gens()[i as int] < u32::MAX
    }

    /// No slot disappears and no generation goes down from `self` to `later`.
    pub open spec fn generations_advance(&self, later: Self) -> bool {
        &&& self.gens().len() <= later.gens().len()
        &&& forall|i: int| 0 <= i < self.gens().len() ==> self.gens()[i] <= #[trigger] later.gens()[i]
    }

    pub proof fn lemma_wf_bounds(&self)
        requires
            self.wf(),
        ensures
            self.gens().len() <= u32::MAX as nat + 1,
            forall|i: int| 0 <= i < self.gens().len() ==> #[trigger] self.gens()[i] >= 1,
            forall|i: nat| #[trigger] self.live().contains(i) ==> i < self.gens().len(),
    {
        assert forall|i: int| 0 <= i < self.gens().len() implies #[trigger] self.gens()[i] >= 1 by {
            assert(self.generations@[i].spec_value() >= 1);
        }
    }

    /// An allocator with no slots.
    pub fn new() -> (r: Self)
        ensures
            r.wf(),
            r.gens() == Seq::<nat>::empty(),
            r.free_list() == Seq::<nat>::empty(),
            r.live() == Set::<nat>::empty(),
    {
        let r = Allocator { generations: Vec::new(), dead: Vec::new(), living: bits_new(), marker: PhantomData };
        assert(r.free_list() =~= Seq::<nat>::empty());
        assert(r.gens() =~= Seq::<nat>::empty());
        r
    }

    fn get_new_index(&self) -> (r: usize)
        ensures
            r as nat == self.gens().len(),
    {
        self.generations.len()
    }

    /// Issues a handle for a new row: reuses the most recently freed slot,
    /// whose generation was bumped when it was freed, or appends a fresh slot
    /// with generation one. The handle is alive afterwards.
    pub fn create_entity(&mut self) -> (r: VerifiedEntity<T>)
        requires
            old(self).wf(),
            old(self).can_create(),
        ensures
            final(self).wf(),
            old(self).created(*final(self), r.entity),
            final(self).spec_is_alive(r.entity),
            old(self).generations_advance(*final(self)),
    {
        proof {
            self.lemma_wf_bounds();
        }
        if let Some(index) = self.dead.pop() {
            proof {
                assert(old(self).dead@.contains(index));
                assert(self.dead@ =~= old(self).dead@.drop_last());
                assert(self.free_list() =~= old(self).free_list().drop_last());
            }
            let generation = self.generations[index];
            let entity = GenId::new(index as u32, generation);
            bits_insert(&mut self.living, index);
            proof {
                assert forall|k: int| 0 <= k < self.dead@.len() implies !self.live().contains(
                    #[trigger] self.dead@[k] as nat,
                ) by {
                    assert(old(self).dead@[k] == self.dead@[k]);
                    if self.dead@[k] == index {
                        assert(old(self).dead@[k] == old(self).dead@[old(self).dead@.len() - 1]);
                    }
                }
                assert forall|i: usize|
                    i < self.generations@.len() && !(#[trigger] self.live().contains(
                        i as nat,
                    )) implies self.dead@.contains(i) by {
                    assert(old(self).dead@.contains(i));
                    let k = old(self).dead@.index_of(i);
                    assert(k != old(self).dead@.len() - 1);
                    assert(self.dead@[k] == i);
                }
                assert(self.gens() =~= old(self).gens());
                assert forall|i: nat| #[trigger] self.live().contains(i) implies i < self.generations@.len() by {
                    if i != index as nat {
                        assert(old(self).live().contains(i));
                    }
                }
            }
            VerifiedEntity::assert_valid(entity)
        } else {
            let index = self.get_new_index();
            let generation = Generation::default();
            let entity = GenId::new(index as u32, generation);
            self.generations.push(generation);
            bits_insert(&mut self.living, index);
            proof {
                assert(self.gens() =~= old(self).gens().push(1));
                assert(self.free_list() =~= old(self).free_list());
                assert forall|i: nat| #[trigger] self.live().contains(i) implies i < self.generations@.len() by {
                    if i != index as nat {
                        assert(old(self).live().contains(i));
                    }
                }
                assert forall|i: usize|
                    i < self.generations@.len() && !(#[trigger] self.live().contains(
                        i as nat,
                    )) implies self.dead@.contains(i) by {
                    assert(i < old(self).generations@.len());
                    assert(!old(self).live().contains(i as nat));
                }
            }
            VerifiedEntity::assert_valid(entity)
        }
    }

    /// The live handles, in index order, each made from its slot's current
    /// generation.
    pub fn ids(&self) -> (r: Vec<VerifiedEntity<T>>)
        requires
            self.wf(),
        ensures
            forall|k: int| 0 <= k < r@.len() ==> self.spec_is_alive(#[trigger] r@[k].entity),
            forall|k1: int, k2: int|
                0 <= k1 < k2 < r@.len() ==> r@[k1].entity.spec_index() < r@[k2].entity.spec_index(),
            forall|i: nat| #[trigger] self.live().contains(i) ==> exists|k: int|
                0 <= k < r@.len() && #[trigger] r@[k].entity.spec_index() == i,
    {
        proof {
            self.lemma_wf_bounds();
        }
        let mut out: Vec<VerifiedEntity<T>> = Vec::new();
        let mut i: usize = 0;
        while i < self.generations.len()
            invariant
                self.wf(),
                i <= self.generations@.len(),
                forall|k: int| 0 <= k < out@.len() ==> self.spec_is_alive(#[trigger] out@[k].entity),
                forall|k: int| 0 <= k < out@.len() ==> #[trigger] out@[k].entity.spec_index() < i,
                forall|k1: int, k2: int|
                    0 <= k1 < k2 < out@.len() ==> out@[k1].entity.spec_index()
                        < out@[k2].entity.spec_index(),
                forall|j: nat| j < i && #[trigger] self.live().contains(j) ==> exists|k: int|
                    0 <= k < out@.len() && #[trigger] out@[k].entity.spec_index() == j,
            decreases self.generations@.len() - i,
        {
            if bits_contains(&self.living, i) {
                let entity = GenId::new(i as u32, self.generations[i]);
                let ghost before = out@;
                out.push(VerifiedEntity::assert_valid(entity));
                proof {
                    assert(out@[out@.len() - 1].entity.spec_index() == i);
                    assert forall|j: nat| j < i + 1 && #[trigger] self.live().contains(j) implies exists|k: int|
                        0 <= k < out@.len() && #[trigger] out@[k].entity.spec_index() == j by {
                        if j < i {
                            let k = choose|k: int| 0 <= k < before.len() && #[trigger] before[k].entity.spec_index() == j;
                            assert(out@[k] == before[k]);
                        } else {
                            assert(out@[out@.len() - 1].entity.spec_index() == j);
                        }
                    }
                }
            } else {
                proof {
                    assert forall|j: nat| j < i + 1 && #[trigger] self.live().contains(j) implies exists|k: int|
                        0 <= k < out@.len() && #[trigger] out@[k].entity.spec_index() == j by {
                        if j == i {
                            assert(!self.live().contains(i as nat));
                        }
                    }
                }
            }
            i += 1;
        }
        out
    }

    /// Deletes the handle's row when the handle is alive: the slot gets the
    /// next generation, which makes every copy of the handle stale, and is
    /// queued for reuse. Returns whether that happened; a stale handle
    /// changes nothing.
    pub fn kill(&mut self, id: GenId<T>) -> (r: Option<()>)
        requires
            old(self).wf(),
            old(self).spec_is_alive(id) ==> id.spec_generation() < u32::MAX,
        ensures
            final(self).wf(),
            r is Some <==> old(self).spec_is_alive(id),
            old(self).killed(*final(self), id),
            old(self).generations_advance(*final(self)),
            !final(self).spec_is_alive(id),
    {
        proof {
            self.lemma_wf_bounds();
        }
        if self.is_alive(id) {
            let index = id.index();
            let next = self.generations[index].next();
            self.generations.set(index, next);
            self.dead.push(index);
            bits_remove(&mut self.living, index);
            proof {
                assert(self.gens() =~= old(self).gens().update(index as int, old(self).gens()[index as int] + 1));
                assert(self.free_list() =~= old(self).free_list().push(index as nat));
                assert forall|k: int| 0 <= k < self.dead@.len() implies {
                    &&& #[trigger] self.dead@[k] < self.generations@.len()
                    &&& !self.live().contains(self.dead@[k] as nat)
                } by {
                    if k < old(self).dead@.len() {
                        assert(old(self).dead@[k] == self.dead@[k]);
                    }
                }
                assert forall|i: int| 0 <= i < self.generations@.len() implies #[trigger] self.generations@[i].spec_value() >= 1 by {
                    if i != index {
                        assert(self.generations@[i] == old(self).generations@[i]);
                    }
                }
                assert(!old(self).dead@.contains(index)) by {
                    if old(self).dead@.contains(index) {
                        let k = old(self).dead@.index_of(index);
                        assert(!old(self).live().contains(old(self).dead@[k] as nat));
                    }
                }
                assert forall|i: usize|
                    i < self.generations@.len() && !(#[trigger] self.live().contains(
                        i as nat,
                    )) implies self.dead@.contains(i) by {
                    if i != index {
                        assert(old(self).dead@.contains(i));
                        let k = old(self).dead@.index_of(i);
                        assert(self.dead@[k] == i);
                    } else {
                        assert(self.dead@[self.dead@.len() - 1] == i);
                    }
                }
            }
            Some(())
        } else {
            None
        }
    }

    /// Whether the handle's slot is live and still carries its generation.
    pub fn is_alive(&self, entity: GenId<T>) -> (r: bool)
        ensures
            r == self.spec_is_alive(entity),
    {
        let index = entity.index();
        if index < self.generations.len() {
            bits_contains(&self.living, index) && entity.generation().value() == self.generations[index].value()
        } else {
            false
        }
    }

    /// The handle as a verified handle when it is alive, else nothing.
    pub fn verify(&self, entity: GenId<T>) -> (r: Option<VerifiedEntity<T>>)
        ensures
            match r {
                Some(v) => self.spec_is_alive(entity) && v.entity == entity,
                None => !self.spec_is_alive(entity),
            },
    {
        if self.is_alive(entity) {
            Some(VerifiedEntity::assert_valid(entity))
        } else {
            None
        }
    }
}

impl<T> Default for Allocator<T> {
    fn default() -> (r: Self)
        ensures
            r.wf(),
            r.gens() == Seq::<nat>::empty(),
            r.free_list() == Seq::<nat>::empty(),
            r.live() == Set::<nat>::empty(),
    {
        Allocator::new()
    }
}

/// Generations never go down: if no generation went down from `a` to `b`
/// nor from `b` to `c`, none went down from `a` to `c`. Since every create
/// and every kill lets generations advance, so does any sequence of them.
pub proof fn lemma_generations_advance_transitive<T>(a: Allocator<T>, b: Allocator<T>, c: Allocator<T>)
    requires
        a.generations_advance(b),
        b.generations_advance(c),
    ensures
        a.generations_advance(c),
{
    assert forall|i: int| 0 <= i < a.gens().len() implies a.gens()[i] <= #[trigger] c.gens()[i] by {
        assert(a.gens()[i] <= b.gens()[i]);
    }
}

/// Killing a live handle raises its slot's generation by exactly one, so the
/// generation seen at an index strictly increases with each kill there.
pub proof fn lemma_kill_raises_generation<T>(a: Allocator<T>, b: Allocator<T>, id: GenId<T>)
    requires
        a.wf(),
        a.spec_is_alive(id),
        a.killed(b, id),
    ensures
        b.gens()[id.spec_index() as int] == a.gens()[id.spec_index() as int] + 1,
        b.gens()[id.spec_index() as int] > id.spec_generation(),
{
}

/// Once a handle has been killed it is never alive again, whatever creates
/// and kills follow, including ones that reuse its index.
pub proof fn lemma_killed_handle_stays_dead<T>(
    a: Allocator<T>,
    b: Allocator<T>,
    c: Allocator<T>,
    id: GenId<T>,
)
    requires
        a.wf(),
        a.spec_is_alive(id),
        a.killed(b, id),
        b.generations_advance(c),
    ensures
        !b.spec_is_alive(id),
        !c.spec_is_alive(id),
{
    let i = id.spec_index() as int;
    assert(b.gens()[i] <= c.gens()[i]);
}

/// After a live handle is killed, the next create reuses its index with the
/// generation one above the handle's.
pub proof fn lemma_index_reuse<T>(
    a: Allocator<T>,
    b: Allocator<T>,
    c: Allocator<T>,
    id: GenId<T>,
    r: GenId<T>,
)
    requires
        a.wf(),
        a.spec_is_alive(id),
        a.killed(b, id),
        b.created(c, r),
    ensures
        r.spec_index() == id.spec_index(),
        r.spec_generation() == id.spec_generation() + 1,
{
}

} // verus!
