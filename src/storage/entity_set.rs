use std::marker::PhantomData;

use vstd::prelude::*;

use crate::entities::{Allocator, VerifiedEntity};
use crate::fxhash::{
    fx_set_clear, fx_set_contains, fx_set_insert, fx_set_keys, fx_set_len, fx_set_members, fx_set_new,
    fx_set_remove, HandleKey, KeySet,
};
use crate::ids::GenId;

verus! {

/// A hashed set of handles of table `ID`, keyed by index and generation so
/// that a stale handle never stands for a live one at the same index. Holds
/// the "many" side of a one-to-many link, or any set of pending rows.
#[derive(Debug)]
pub struct EntitySet<ID> {
    values: KeySet,
    marker: PhantomData<ID>,
}

impl<ID> EntitySet<ID> {
    /// The keys of the handles held.
    pub closed spec fn keys(&self) -> Set<HandleKey> {
        fx_set_members(self.values)
    }

    /// The set holds finitely many keys.
    pub closed spec fn wf(&self) -> bool {
        self.keys().finite()
    }

    /// The keys held whose handle is alive in `allocator`.
    pub open spec fn live_keys(&self, allocator: Allocator<ID>) -> Set<HandleKey> {
        self.keys().filter(|k: HandleKey| allocator.key_alive(k))
    }

    /// An empty set.
    pub fn new() -> (r: Self)
        ensures
            r.wf(),
            r.keys() == Set::<HandleKey>::empty(),
    {
        EntitySet { values: fx_set_new(), marker: PhantomData }
    }

    /// Adds the handle.
    pub fn insert(&mut self, value: GenId<ID>)
        requires
            old(self).wf(),
        ensures
            final(self).wf(),
            final(self).keys() == old(self).keys().insert(value.spec_key()),
    {
        fx_set_insert(&mut self.values, value.key());
    }

    /// Takes the handle out; gives it back when it was held.
    pub fn remove(&mut self, value: &GenId<ID>) -> (r: Option<GenId<ID>>)
        requires
            old(self).wf(),
        ensures
            final(self).wf(),
            final(self).keys() == old(self).keys().remove(value.spec_key()),
            match r {
                Some(v) => v == *value && old(self).keys().contains(value.spec_key()),
                None => !old(self).keys().contains(value.spec_key()),
            },
    {
        if fx_set_remove(&mut self.values, &value.key()) {
            Some(*value)
        } else {
            None
        }
    }

    /// Whether the handle is held.
    pub fn contains(&self, value: &GenId<ID>) -> (r: bool)
        ensures
            r == self.keys().contains(value.spec_key()),
    {
        fx_set_contains(&self.values, &value.key())
    }

    /// Number of handles held, stale ones included.
    pub fn len(&self) -> (r: usize)
        ensures
            r as nat == self.keys().len(),
    {
        fx_set_len(&self.values)
    }

    /// Whether no handle is held.
    pub fn is_empty(&self) -> (r: bool)
        ensures
            r == (self.keys().len() == 0),
    {
        fx_set_len(&self.values) == 0
    }

    /// Drops every handle.
    pub fn clear(&mut self)
        ensures
            final(self).wf(),
            final(self).keys() == Set::<HandleKey>::empty(),
    {
        fx_set_clear(&mut self.values);
    }

    /// Every handle held, stale ones included, each once, in no set order.
    pub fn iter(&self) -> (r: Vec<GenId<ID>>)
        ensures
            forall|k: int| 0 <= k < r@.len() ==> self.keys().contains(#[trigger] r@[k].spec_key()),
            forall|key: HandleKey| #[trigger] self.keys().contains(key) ==> exists|k: int|
                0 <= k < r@.len() && #[trigger] r@[k].spec_key() == key,
            forall|k1: int, k2: int|
                0 <= k1 < r@.len() && 0 <= k2 < r@.len() && k1 != k2 ==> r@[k1].spec_key() != r@[k2].spec_key(),
    {
        let keys = fx_set_keys(&self.values);
        let mut out: Vec<GenId<ID>> = Vec::new();
        let mut i: usize = 0;
        while i < keys.len()
            invariant
                i <= keys@.len(),
                keys@.no_duplicates(),
                keys@.to_set() == self.keys(),
                out@.len() == i,
                forall|k: int| 0 <= k < i ==> (#[trigger] out@[k]).spec_key() == keys@[k],
            decreases keys@.len() - i,
        {
            out.push(GenId::from_key(keys[i]));
            i += 1;
        }
        proof {
            assert forall|key: HandleKey| #[trigger] self.keys().contains(key) implies exists|k: int|
                0 <= k < out@.len() && #[trigger] out@[k].spec_key() == key by {
                assert(keys@.to_set().contains(key));
                let k = keys@.index_of(key);
                assert(out@[k].spec_key() == key);
            }
            assert forall|k: int| 0 <= k < out@.len() implies self.keys().contains(#[trigger] out@[k].spec_key()) by {
                assert(keys@.to_set().contains(keys@[k]));
            }
        }
        out
    }

    /// The held handles that are alive in `allocator`, each once, in no set
    /// order. The set itself is left as it is.
    pub fn verified(&self, allocator: &Allocator<ID>) -> (r: Vec<VerifiedEntity<ID>>)
        ensures
            forall|k: int| 0 <= k < r@.len() ==> self.live_keys(*allocator).contains(#[trigger] r@[k].entity.spec_key()),
            forall|key: HandleKey| #[trigger] self.live_keys(*allocator).contains(key) ==> exists|k: int|
                0 <= k < r@.len() && #[trigger] r@[k].entity.spec_key() == key,
            forall|k1: int, k2: int|
                0 <= k1 < r@.len() && 0 <= k2 < r@.len() && k1 != k2 ==> r@[k1].entity.spec_key()
                    != r@[k2].entity.spec_key(),
    {
        let keys = fx_set_keys(&self.values);
        let mut out: Vec<VerifiedEntity<ID>> = Vec::new();
        let mut i: usize = 0;
        while i < keys.len()
            invariant
                i <= keys@.len(),
                keys@.no_duplicates(),
                keys@.to_set() == self.keys(),
                forall|k: int| 0 <= k < out@.len() ==> self.live_keys(*allocator).contains(#[trigger] out@[k].entity.spec_key()),
                forall|k: int| 0 <= k < out@.len() ==> exists|j: int| 0 <= j < i && keys@[j] == (#[trigger] out@[k]).entity.spec_key(),
                forall|j: int| 0 <= j < i && allocator.key_alive(#[trigger] keys@[j]) ==> exists|k: int|
                    0 <= k < out@.len() && #[trigger] out@[k].entity.spec_key() == keys@[j],
                forall|k1: int, k2: int|
                    0 <= k1 < out@.len() && 0 <= k2 < out@.len() && k1 != k2 ==> out@[k1].entity.spec_key()
                        != out@[k2].entity.spec_key(),
            decreases keys@.len() - i,
        {
            let id = GenId::from_key(keys[i]);
            proof {
                assert(keys@.to_set().contains(keys@[i as int]));
            }
            if let Some(v) = allocator.verify(id) {
                let ghost before = out@;
                out.push(v);
                proof {
                    assert forall|k: int| 0 <= k < out@.len() implies exists|j: int| 0 <= j < i + 1 && keys@[j] == (#[trigger] out@[k]).entity.spec_key() by {
                        if k < before.len() {
                            assert(out@[k] == before[k]);
                            let j = choose|j: int| 0 <= j < i && keys@[j] == before[k].entity.spec_key();
                            assert(keys@[j] == out@[k].entity.spec_key());
                        } else {
                            assert(keys@[i as int] == out@[k].entity.spec_key());
                        }
                    }
                    assert forall|j: int| 0 <= j < i + 1 && allocator.key_alive(#[trigger] keys@[j]) implies exists|k: int|
                        0 <= k < out@.len() && #[trigger] out@[k].entity.spec_key() == keys@[j] by {
                        if j < i {
                            let k = choose|k: int| 0 <= k < before.len() && #[trigger] before[k].entity.spec_key() == keys@[j];
                            assert(out@[k] == before[k]);
                        } else {
                            assert(out@[out@.len() - 1].entity.spec_key() == keys@[j]);
                        }
                    }
                    assert forall|k1: int, k2: int|
                        0 <= k1 < out@.len() && 0 <= k2 < out@.len() && k1 != k2 implies out@[k1].entity.spec_key()
                            != out@[k2].entity.spec_key() by {
                        if k1 < before.len() && k2 < before.len() {
                            assert(out@[k1] == before[k1] && out@[k2] == before[k2]);
                        } else if k1 < before.len() {
                            assert(out@[k1] == before[k1]);
                            let j = choose|j: int| 0 <= j < i && keys@[j] == before[k1].entity.spec_key();
                            assert(keys@[j] != keys@[i as int]);
                        } else if k2 < before.len() {
                            assert(out@[k2] == before[k2]);
                            let j = choose|j: int| 0 <= j < i && keys@[j] == before[k2].entity.spec_key();
                            assert(keys@[j] != keys@[i as int]);
                        }
                    }
                }
            }
            i += 1;
        }
        proof {
            assert forall|key: HandleKey| #[trigger] self.live_keys(*allocator).contains(key) implies exists|k: int|
                0 <= k < out@.len() && #[trigger] out@[k].entity.spec_key() == key by {
                assert(keys@.to_set().contains(key));
                let j = keys@.index_of(key);
                assert(allocator.key_alive(keys@[j]));
            }
        }
        out
    }
    /// Drops every held handle that is no longer alive in `allocator`.
    pub fn retain(&mut self, allocator: &Allocator<ID>)
        requires
            old(self).wf(),
        ensures
            final(self).wf(),
            final(self).keys() == old(self).live_keys(*allocator),
    {
        let keys = fx_set_keys(&self.values);
        let ghost start = self.keys();
        proof {
            assert(start.filter(|k: HandleKey| allocator.key_alive(k) || keys@.subrange(0, keys@.len() as int).contains(k)) =~= start) by {
                assert(keys@.subrange(0, keys@.len() as int) =~= keys@);
                assert forall|k: HandleKey| #[trigger] start.contains(k) implies keys@.contains(k) by {
                    assert(keys@.to_set().contains(k));
                }
            }
        }
        let mut i: usize = 0;
        while i < keys.len()
            invariant
                i <= keys@.len(),
                keys@.no_duplicates(),
                keys@.to_set() == start,
                start == old(self).keys(),
                self.wf(),
                self.keys() == start.filter(|k: HandleKey| allocator.key_alive(k) || keys@.subrange(i as int, keys@.len() as int).contains(k)),
            decreases keys@.len() - i,
        {
            let ghost prev = self.keys();
            let key = keys[i];
            let id = GenId::from_key(key);
            if !allocator.is_alive(id) {
                fx_set_remove(&mut self.values, &key);
            }
            proof {
                let n = keys@.len() as int;
                assert forall|k: HandleKey| #[trigger] keys@.subrange(i as int, n).contains(k)
                    <==> (k == key || keys@.subrange(i as int + 1, n).contains(k)) by {
                    if keys@.subrange(i as int, n).contains(k) {
                        let j = keys@.subrange(i as int, n).index_of(k);
                        if j > 0 {
                            assert(keys@.subrange(i as int + 1, n)[j - 1] == k);
                        }
                    }
                    if keys@.subrange(i as int + 1, n).contains(k) {
                        let j = keys@.subrange(i as int + 1, n).index_of(k);
                        assert(keys@.subrange(i as int, n)[j + 1] == k);
                    }
                    if k == key {
                        assert(keys@.subrange(i as int, n)[0] == k);
                    }
                }
                assert(!keys@.subrange(i as int + 1, n).contains(key)) by {
                    if keys@.subrange(i as int + 1, n).contains(key) {
                        let j = keys@.subrange(i as int + 1, n).index_of(key);
                        assert(keys@[i as int + 1 + j] == key);
                    }
                }
                assert(self.keys() =~= start.filter(|k: HandleKey| allocator.key_alive(k) || keys@.subrange(i as int + 1, n).contains(k)));
            }
            i += 1;
        }
        proof {
            assert(keys@.subrange(keys@.len() as int, keys@.len() as int) =~= Seq::<HandleKey>::empty());
            assert(self.keys() =~= old(self).live_keys(*allocator));
        }
    }

    /// Drops every held handle that is no longer alive in `allocator`, then
    /// gives the ones left, each once, in no set order.
    pub fn retain_verified(&mut self, allocator: &Allocator<ID>) -> (r: Vec<VerifiedEntity<ID>>)
        requires
            old(self).wf(),
        ensures
            final(self).wf(),
            final(self).keys() == old(self).live_keys(*allocator),
            forall|k: int| 0 <= k < r@.len() ==> final(self).keys().contains(#[trigger] r@[k].entity.spec_key()),
            forall|key: HandleKey| #[trigger] final(self).keys().contains(key) ==> exists|k: int|
                0 <= k < r@.len() && #[trigger] r@[k].entity.spec_key() == key,
            forall|k1: int, k2: int|
                0 <= k1 < r@.len() && 0 <= k2 < r@.len() && k1 != k2 ==> r@[k1].entity.spec_key()
                    != r@[k2].entity.spec_key(),
    {
        self.retain(allocator);
        let all = self.iter();
        let mut out: Vec<VerifiedEntity<ID>> = Vec::new();
        let mut i: usize = 0;
        while i < all.len()
            invariant
                i <= all@.len(),
                out@.len() == i,
                forall|k: int| 0 <= k < i ==> (#[trigger] out@[k]).entity == all@[k],
            decreases all@.len() - i,
        {
            out.push(VerifiedEntity::assert_valid(all[i]));
            i += 1;
        }
        proof {
            assert forall|key: HandleKey| #[trigger] self.keys().contains(key) implies exists|k: int|
                0 <= k < out@.len() && #[trigger] out@[k].entity.spec_key() == key by {
                let k = choose|k: int| 0 <= k < all@.len() && #[trigger] all@[k].spec_key() == key;
                assert(out@[k].entity == all@[k]);
            }
            assert forall|k: int| 0 <= k < out@.len() implies self.keys().contains(#[trigger] out@[k].entity.spec_key()) by {
                assert(out@[k].entity == all@[k]);
            }
            assert forall|k1: int, k2: int|
                0 <= k1 < out@.len() && 0 <= k2 < out@.len() && k1 != k2 implies out@[k1].entity.spec_key()
                    != out@[k2].entity.spec_key() by {
                assert(out@[k1].entity == all@[k1]);
                assert(out@[k2].entity == all@[k2]);
            }
        }
        out
    }
}

/// Reconciliation is lazy: once a held handle's row is killed, `verified`
/// leaves it out while the set itself (what `iter` lists) still holds it,
/// and only `retain` drops it.
pub proof fn lemma_lazy_reconciliation<ID>(
    set: EntitySet<ID>,
    retained: EntitySet<ID>,
    before: Allocator<ID>,
    after: Allocator<ID>,
    id: GenId<ID>,
)
    requires
        before.wf(),
        before.spec_is_alive(id),
        before.killed(after, id),
        set.keys().contains(id.spec_key()),
        retained.keys() == set.live_keys(after),
    ensures
        set.keys().contains(id.spec_key()),
        !set.live_keys(after).contains(id.spec_key()),
        !retained.keys().contains(id.spec_key()),
{
}

impl<ID> Default for EntitySet<ID> {
    fn default() -> (r: Self)
        ensures
            r.wf(),
            r.keys() == Set::<HandleKey>::empty(),
    {
        EntitySet::new()
    }
}

} // verus!
