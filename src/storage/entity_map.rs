use std::marker::PhantomData;

use vstd::prelude::*;

use crate::entities::{Allocator, VerifiedEntity};
use crate::fxhash::{fx_map_entries, fx_map_get, fx_map_insert, fx_map_new, fx_map_remove, HandleKey, KeyIndex};
use crate::ids::GenId;

verus! {

/// A hashed column of table `ID` for attributes that only some rows have:
/// a value per handle, keyed by index and generation so that a stale handle
/// never reads a live row's value. The values sit densely in `entries`; a
/// hashed index gives each key's position there.
#[derive(Debug)]
pub struct EntityMap<ID, T> {
    index: KeyIndex,
    entries: Vec<(GenId<ID>, T)>,
    marker: PhantomData<ID>,
}

impl<ID, T> EntityMap<ID, T> {
    /// The position of each key's entry.
    closed spec fn positions(&self) -> Map<HandleKey, usize> {
        fx_map_entries(self.index)
    }

    /// Each key's position holds that key's entry, and each entry's key
    /// points at it.
    pub closed spec fn wf(&self) -> bool {
        &&& forall|k: HandleKey| #[trigger] self.positions().contains_key(k) ==> {
            &&& self.positions()[k] < self.entries@.len()
            &&& self.entries@[self.positions()[k] as int].0.spec_key() == k
        }
        &&& forall|p: int| 0 <= p < self.entries@.len() ==> {
            &&& self.positions().contains_key((#[trigger] self.entries@[p]).0.spec_key())
            &&& self.positions()[self.entries@[p].0.spec_key()] == p
        }
    }

    /// The value of each handle key held.
    pub closed spec fn spec_map(&self) -> Map<HandleKey, T> {
        Map::new(
            |k: HandleKey| self.positions().contains_key(k),
            |k: HandleKey| self.entries@[self.positions()[k] as int].1,
        )
    }

    /// The entries whose handle is alive in `allocator`.
    pub open spec fn live_map(&self, allocator: Allocator<ID>) -> Map<HandleKey, T> {
        self.spec_map().restrict(self.spec_map().dom().filter(|k: HandleKey| allocator.key_alive(k)))
    }

    proof fn lemma_len(&self)
        requires
            self.wf(),
        ensures
            self.spec_map().dom().finite(),
            self.spec_map().dom().len() == self.entries@.len(),
    {
        let ks = self.entries@.map_values(|e: (GenId<ID>, T)| e.0.spec_key());
        assert(ks.no_duplicates()) by {
            assert forall|q1: int, q2: int| 0 <= q1 < ks.len() && 0 <= q2 < ks.len() && q1 != q2 implies ks[q1] != ks[q2] by {
                assert(self.positions()[self.entries@[q1].0.spec_key()] == q1);
                assert(self.positions()[self.entries@[q2].0.spec_key()] == q2);
            }
        }
        assert(self.spec_map().dom() =~= ks.to_set()) by {
            assert forall|k: HandleKey| self.spec_map().dom().contains(k) implies ks.to_set().contains(k) by {
                let p = self.positions()[k] as int;
                assert(ks[p] == k);
            }
            assert forall|k: HandleKey| ks.to_set().contains(k) implies self.spec_map().dom().contains(k) by {
                let p = ks.index_of(k);
                assert(self.entries@[p].0.spec_key() == k);
            }
        }
        ks.unique_seq_to_set();
    }

    /// An empty map.
    pub fn new() -> (r: Self)
        ensures
            r.wf(),
            r.spec_map() == Map::<HandleKey, T>::empty(),
    {
        let r = EntityMap { index: fx_map_new(), entries: Vec::new(), marker: PhantomData };
        assert(r.spec_map() =~= Map::<HandleKey, T>::empty());
        r
    }

    /// Number of entries, stale ones included.
    pub fn len(&self) -> (r: usize)
        requires
            self.wf(),
        ensures
            self.spec_map().dom().finite(),
            r as nat == self.spec_map().dom().len(),
    {
        proof {
            self.lemma_len();
        }
        self.entries.len()
    }

    /// Whether there is no entry.
    pub fn is_empty(&self) -> (r: bool)
        requires
            self.wf(),
        ensures
            r == (self.spec_map().dom().len() == 0),
    {
        proof {
            self.lemma_len();
        }
        self.entries.len() == 0
    }

    /// Gives the handle the value, replacing any value it had.
    pub(crate) fn insert_id(&mut self, id: GenId<ID>, value: T)
        requires
            old(self).wf(),
        ensures
            final(self).wf(),
            final(self).spec_map() == old(self).spec_map().insert(id.spec_key(), value),
    {
        let key = id.key();
        match fx_map_get(&self.index, &key) {
            Some(p) => {
                proof {
                    assert(self.positions().contains_key(key));
                }
                self.entries.set(p, (id, value));
                proof {
                    assert forall|q: int| 0 <= q < self.entries@.len() implies {
                        &&& self.positions().contains_key((#[trigger] self.entries@[q]).0.spec_key())
                        &&& self.positions()[self.entries@[q].0.spec_key()] == q
                    } by {
                        if q != p {
                            assert(self.entries@[q] == old(self).entries@[q]);
                        }
                    }
                }
            },
            None => {
                let p = self.entries.len();
                self.entries.push((id, value));
                fx_map_insert(&mut self.index, key, p);
                proof {
                    assert forall|q: int| 0 <= q < self.entries@.len() implies {
                        &&& self.positions().contains_key((#[trigger] self.entries@[q]).0.spec_key())
                        &&& self.positions()[self.entries@[q].0.spec_key()] == q
                    } by {
                        if q != p {
                            assert(self.entries@[q] == old(self).entries@[q]);
                            assert(old(self).positions().contains_key(old(self).entries@[q].0.spec_key()));
                        }
                    }
                }
            },
        }
        proof {
            assert(self.spec_map() =~= old(self).spec_map().insert(id.spec_key(), value));
        }
    }

    /// Gives the handle the value, replacing any value it had.
    pub fn insert(&mut self, id: &VerifiedEntity<ID>, value: T)
        requires
            old(self).wf(),
        ensures
            final(self).wf(),
            final(self).spec_map() == old(self).spec_map().insert(id.entity.spec_key(), value),
    {
        self.insert_id(id.entity, value)
    }

    /// The handle's value, if it has one.
    pub(crate) fn get_id(&self, id: GenId<ID>) -> (r: Option<&T>)
        requires
            self.wf(),
        ensures
            match r {
                Some(v) => self.spec_map().contains_key(id.spec_key()) && self.spec_map()[id.spec_key()]
                    == *v,
                None => !self.spec_map().contains_key(id.spec_key()),
            },
    {
        match fx_map_get(&self.index, &id.key()) {
            Some(p) => {
                proof {
                    assert(self.positions().contains_key(id.spec_key()));
                }
                Some(&self.entries[p].1)
            },
            None => None,
        }
    }

    /// The handle's value, if it has one.
    pub fn get(&self, id: &VerifiedEntity<ID>) -> (r: Option<&T>)
        requires
            self.wf(),
        ensures
            match r {
                Some(v) => self.spec_map().contains_key(id.entity.spec_key()) && self.spec_map()[id.entity.spec_key()]
                    == *v,
                None => !self.spec_map().contains_key(id.entity.spec_key()),
            },
    {
        self.get_id(id.entity)
    }


    /// Takes out the entry of `key`: its slot in `entries` is filled by the
    /// last entry.
    fn remove_key(&mut self, key: HandleKey) -> (r: Option<T>)
        requires
            old(self).wf(),
        ensures
            final(self).wf(),
            final(self).spec_map() == old(self).spec_map().remove(key),
            match r {
                Some(v) => old(self).spec_map().contains_key(key) && old(self).spec_map()[key] == v,
                None => !old(self).spec_map().contains_key(key),
            },
            old(self).positions().contains_key(key) ==> final(self).entries@ == old(self).entries@.update(
                old(self).positions()[key] as int,
                old(self).entries@.last(),
            ).drop_last(),
            !old(self).positions().contains_key(key) ==> final(self).entries@ == old(self).entries@,
    {
        match fx_map_get(&self.index, &key) {
            None => None,
            Some(p) => {
                proof {
                    assert(self.positions().contains_key(key));
                }
                fx_map_remove(&mut self.index, &key);
                let removed = self.entries.swap_remove(p);
                if p < self.entries.len() {
                    let moved = self.entries[p].0.key();
                    fx_map_insert(&mut self.index, moved, p);
                }
                proof {
                    let n = old(self).entries@.len() as int;
                    let last_key = old(self).entries@[n - 1].0.spec_key();
                    assert(old(self).positions()[last_key] == n - 1);
                    assert forall|k: HandleKey| #[trigger] self.positions().contains_key(k) implies {
                        &&& self.positions()[k] < self.entries@.len()
                        &&& self.entries@[self.positions()[k] as int].0.spec_key() == k
                    } by {
                        assert(old(self).positions().contains_key(k));
                        if k != last_key {
                            let q = old(self).positions()[k] as int;
                            assert(old(self).entries@[q].0.spec_key() == k);
                            assert(q != n - 1);
                            assert(q != p);
                        }
                    }
                    assert forall|q: int| 0 <= q < self.entries@.len() implies {
                        &&& self.positions().contains_key((#[trigger] self.entries@[q]).0.spec_key())
                        &&& self.positions()[self.entries@[q].0.spec_key()] == q
                    } by {
                        if q != p {
                            assert(self.entries@[q] == old(self).entries@[q]);
                            assert(old(self).positions()[old(self).entries@[q].0.spec_key()] == q);
                        }
                    }
                    assert(self.spec_map() =~= old(self).spec_map().remove(key)) by {
                        assert forall|k: HandleKey| #[trigger] self.spec_map().contains_key(k) implies self.spec_map()[k]
                            == old(self).spec_map()[k] by {
                            assert(old(self).positions().contains_key(k));
                            if k != last_key {
                                let q = old(self).positions()[k] as int;
                                assert(q != p);
                                assert(self.entries@[q] == old(self).entries@[q]);
                            }
                        }
                    }
                }
                Some(removed.1)
            },
        }
    }

    /// Takes out the value of the handle with `key`, if it has one.
    pub(crate) fn remove_id(&mut self, key: HandleKey) -> (r: Option<T>)
        requires
            old(self).wf(),
        ensures
            final(self).wf(),
            final(self).spec_map() == old(self).spec_map().remove(key),
            match r {
                Some(v) => old(self).spec_map().contains_key(key) && old(self).spec_map()[key] == v,
                None => !old(self).spec_map().contains_key(key),
            },
    {
        self.remove_key(key)
    }

    /// Takes out the handle's value, if it has one.
    pub fn remove(&mut self, id: &VerifiedEntity<ID>) -> (r: Option<T>)
        requires
            old(self).wf(),
        ensures
            final(self).wf(),
            final(self).spec_map() == old(self).spec_map().remove(id.entity.spec_key()),
            match r {
                Some(v) => old(self).spec_map().contains_key(id.entity.spec_key()) && old(self).spec_map()[id.entity.spec_key()]
                    == v,
                None => !old(self).spec_map().contains_key(id.entity.spec_key()),
            },
    {
        self.remove_key(id.entity.key())
    }

    /// Drops every entry.
    pub fn clear(&mut self)
        ensures
            final(self).wf(),
            final(self).spec_map() == Map::<HandleKey, T>::empty(),
    {
        self.index = fx_map_new();
        self.entries = Vec::new();
        assert(self.spec_map() =~= Map::<HandleKey, T>::empty());
    }

    /// Every entry, stale ones included, each once, in no set order.
    pub fn iter(&self) -> (r: &[(GenId<ID>, T)])
        requires
            self.wf(),
        ensures
            forall|p: int|
                0 <= p < r@.len() ==> self.spec_map().contains_key((#[trigger] r@[p]).0.spec_key())
                    && self.spec_map()[r@[p].0.spec_key()] == r@[p].1,
            forall|key: HandleKey| #[trigger] self.spec_map().contains_key(key) ==> exists|p: int|
                0 <= p < r@.len() && #[trigger] r@[p].0.spec_key() == key,
            forall|q1: int, q2: int|
                0 <= q1 < r@.len() && 0 <= q2 < r@.len() && q1 != q2 ==> r@[q1].0.spec_key() != r@[q2].0.spec_key(),
    {
        let r = self.entries.as_slice();
        proof {
            assert forall|key: HandleKey| #[trigger] self.spec_map().contains_key(key) implies exists|p: int|
                0 <= p < r@.len() && #[trigger] r@[p].0.spec_key() == key by {
                let p = self.positions()[key] as int;
                assert(r@[p].0.spec_key() == key);
            }
            assert forall|q1: int, q2: int|
                0 <= q1 < r@.len() && 0 <= q2 < r@.len() && q1 != q2 implies r@[q1].0.spec_key() != r@[q2].0.spec_key() by {
                assert(self.positions()[self.entries@[q1].0.spec_key()] == q1);
                assert(self.positions()[self.entries@[q2].0.spec_key()] == q2);
            }
        }
        r
    }

    /// Drops every entry whose handle is no longer alive in `allocator`.
    pub fn retain(&mut self, allocator: &Allocator<ID>)
        requires
            old(self).wf(),
        ensures
            final(self).wf(),
            final(self).spec_map() == old(self).live_map(*allocator),
    {
        let mut i: usize = 0;
        while i < self.entries.len()
            invariant
                self.wf(),
                i <= self.entries@.len(),
                forall|k: HandleKey| #[trigger] self.spec_map().contains_key(k) ==> old(self).spec_map().contains_key(k)
                    && self.spec_map()[k] == old(self).spec_map()[k],
                forall|k: HandleKey| #[trigger] old(self).spec_map().contains_key(k) && allocator.key_alive(k)
                    ==> self.spec_map().contains_key(k),
                forall|q: int| 0 <= q < i ==> allocator.key_alive((#[trigger] self.entries@[q]).0.spec_key()),
            decreases self.entries@.len() - i,
        {
            let id = self.entries[i].0;
            if allocator.is_alive(id) {
                i += 1;
            } else {
                let ghost before = self.entries@;
                proof {
                    assert(self.positions()[id.spec_key()] == i);
                }
                self.remove_key(id.key());
                proof {
                    assert forall|q: int| 0 <= q < i implies allocator.key_alive((#[trigger] self.entries@[q]).0.spec_key()) by {
                        assert(self.entries@[q] == before[q]);
                    }
                }
            }
        }
        proof {
            assert forall|k: HandleKey| #[trigger] self.spec_map().contains_key(k) implies allocator.key_alive(k) by {
                let q = self.positions()[k] as int;
                assert(self.entries@[q].0.spec_key() == k);
            }
            assert(self.spec_map() =~= old(self).live_map(*allocator));
        }
    }

    /// The entries whose handle is alive in `allocator`, each once, in no set
    /// order. The map itself is left as it is.
    pub fn verified(&self, allocator: &Allocator<ID>) -> (r: Vec<(VerifiedEntity<ID>, &T)>)
        requires
            self.wf(),
        ensures
            forall|m: int|
                0 <= m < r@.len() ==> self.live_map(*allocator).contains_key((#[trigger] r@[m]).0.entity.spec_key())
                    && self.spec_map()[r@[m].0.entity.spec_key()] == *r@[m].1,
            forall|key: HandleKey| #[trigger] self.live_map(*allocator).contains_key(key) ==> exists|m: int|
                0 <= m < r@.len() && #[trigger] r@[m].0.entity.spec_key() == key,
            forall|m1: int, m2: int|
                0 <= m1 < r@.len() && 0 <= m2 < r@.len() && m1 != m2 ==> r@[m1].0.entity.spec_key()
                    != r@[m2].0.entity.spec_key(),
    {
        let mut out: Vec<(VerifiedEntity<ID>, &T)> = Vec::new();
        let mut i: usize = 0;
        while i < self.entries.len()
            invariant
                self.wf(),
                i <= self.entries@.len(),
                forall|m: int|
                    0 <= m < out@.len() ==> self.live_map(*allocator).contains_key((#[trigger] out@[m]).0.entity.spec_key())
                        && self.spec_map()[out@[m].0.entity.spec_key()] == *out@[m].1,
                forall|m: int| 0 <= m < out@.len() ==> self.positions()[(#[trigger] out@[m]).0.entity.spec_key()] < i,
                forall|q: int| 0 <= q < i && allocator.key_alive((#[trigger] self.entries@[q]).0.spec_key()) ==> exists|m: int|
                    0 <= m < out@.len() && #[trigger] out@[m].0.entity.spec_key() == self.entries@[q].0.spec_key(),
                forall|m1: int, m2: int|
                    0 <= m1 < out@.len() && 0 <= m2 < out@.len() && m1 != m2 ==> out@[m1].0.entity.spec_key()
                        != out@[m2].0.entity.spec_key(),
            decreases self.entries@.len() - i,
        {
            let entry = &self.entries[i];
            proof {
                assert(self.positions()[self.entries@[i as int].0.spec_key()] == i);
            }
            if let Some(v) = allocator.verify(entry.0) {
                let ghost before = out@;
                out.push((v, &entry.1));
                proof {
                    assert forall|q: int| 0 <= q < i + 1 && allocator.key_alive((#[trigger] self.entries@[q]).0.spec_key()) implies exists|m: int|
                        0 <= m < out@.len() && #[trigger] out@[m].0.entity.spec_key() == self.entries@[q].0.spec_key() by {
                        if q < i {
                            let m = choose|m: int| 0 <= m < before.len() && #[trigger] before[m].0.entity.spec_key() == self.entries@[q].0.spec_key();
                            assert(out@[m] == before[m]);
                        } else {
                            assert(out@[out@.len() - 1].0.entity.spec_key() == self.entries@[q].0.spec_key());
                        }
                    }
                    assert forall|m: int| 0 <= m < out@.len() implies self.positions()[(#[trigger] out@[m]).0.entity.spec_key()] < i + 1 by {
                        if m < before.len() {
                            assert(out@[m] == before[m]);
                        }
                    }
                    assert forall|m1: int, m2: int|
                        0 <= m1 < out@.len() && 0 <= m2 < out@.len() && m1 != m2 implies out@[m1].0.entity.spec_key()
                            != out@[m2].0.entity.spec_key() by {
                        if m1 < before.len() && m2 < before.len() {
                            assert(out@[m1] == before[m1] && out@[m2] == before[m2]);
                        } else if m1 < before.len() {
                            assert(out@[m1] == before[m1]);
                        } else if m2 < before.len() {
                            assert(out@[m2] == before[m2]);
                        }
                    }
                }
            }
            i += 1;
        }
        proof {
            assert forall|key: HandleKey| #[trigger] self.live_map(*allocator).contains_key(key) implies exists|m: int|
                0 <= m < out@.len() && #[trigger] out@[m].0.entity.spec_key() == key by {
                let q = self.positions()[key] as int;
                assert(self.entries@[q].0.spec_key() == key);
            }
        }
        out
    }

    /// Drops every entry whose handle is no longer alive in `allocator`, then
    /// gives the entries left, each once, in no set order.
    pub fn retain_verified(&mut self, allocator: &Allocator<ID>) -> (r: Vec<(VerifiedEntity<ID>, &T)>)
        requires
            old(self).wf(),
        ensures
            final(self).wf(),
            final(self).spec_map() == old(self).live_map(*allocator),
            forall|m: int|
                0 <= m < r@.len() ==> final(self).spec_map().contains_key((#[trigger] r@[m]).0.entity.spec_key())
                    && final(self).spec_map()[r@[m].0.entity.spec_key()] == *r@[m].1
                    && allocator.spec_is_alive(r@[m].0.entity),
            forall|key: HandleKey| #[trigger] final(self).spec_map().contains_key(key) ==> exists|m: int|
                0 <= m < r@.len() && #[trigger] r@[m].0.entity.spec_key() == key,
            forall|m1: int, m2: int|
                0 <= m1 < r@.len() && 0 <= m2 < r@.len() && m1 != m2 ==> r@[m1].0.entity.spec_key()
                    != r@[m2].0.entity.spec_key(),
    {
        self.retain(allocator);
        proof {
            assert(self.live_map(*allocator) =~= self.spec_map());
        }
        self.verified(allocator)
    }
}

impl<ID, T> Default for EntityMap<ID, T> {
    fn default() -> (r: Self)
        ensures
            r.wf(),
            r.spec_map() == Map::<HandleKey, T>::empty(),
    {
        EntityMap::new()
    }
}

impl<A, B> EntityMap<A, GenId<B>> {
    /// The entries whose key is alive in `allocator_a` and whose stored
    /// handle is alive in `allocator_b`.
    pub open spec fn live_pairs(&self, allocator_a: Allocator<A>, allocator_b: Allocator<B>) -> Map<HandleKey, GenId<B>> {
        self.spec_map().restrict(
            self.spec_map().dom().filter(
                |k: HandleKey| allocator_a.key_alive(k) && allocator_b.spec_is_alive(self.spec_map()[k]),
            ),
        )
    }

    /// Drops every entry whose key is dead in `allocator_a` or whose stored
    /// handle is dead in `allocator_b`.
    pub fn retain_both(&mut self, allocator_a: &Allocator<A>, allocator_b: &Allocator<B>)
        requires
            old(self).wf(),
        ensures
            final(self).wf(),
            final(self).spec_map() == old(self).live_pairs(*allocator_a, *allocator_b),
    {
        let mut i: usize = 0;
        while i < self.entries.len()
            invariant
                self.wf(),
                i <= self.entries@.len(),
                forall|k: HandleKey| #[trigger] self.spec_map().contains_key(k) ==> old(self).spec_map().contains_key(k)
                    && self.spec_map()[k] == old(self).spec_map()[k],
                forall|k: HandleKey| #[trigger] old(self).spec_map().contains_key(k) && allocator_a.key_alive(k)
                    && allocator_b.spec_is_alive(old(self).spec_map()[k]) ==> self.spec_map().contains_key(k),
                forall|q: int| 0 <= q < i ==> allocator_a.key_alive((#[trigger] self.entries@[q]).0.spec_key())
                    && allocator_b.spec_is_alive(self.entries@[q].1),
            decreases self.entries@.len() - i,
        {
            let id = self.entries[i].0;
            let target = self.entries[i].1;
            if allocator_a.is_alive(id) && allocator_b.is_alive(target) {
                i += 1;
            } else {
                let ghost before = self.entries@;
                proof {
                    assert(self.positions()[id.spec_key()] == i);
                    assert(self.spec_map()[id.spec_key()] == target);
                }
                self.remove_key(id.key());
                proof {
                    assert forall|q: int| 0 <= q < i implies allocator_a.key_alive((#[trigger] self.entries@[q]).0.spec_key())
                        && allocator_b.spec_is_alive(self.entries@[q].1) by {
                        assert(self.entries@[q] == before[q]);
                    }
                }
            }
        }
        proof {
            assert forall|k: HandleKey| #[trigger] self.spec_map().contains_key(k) implies allocator_a.key_alive(k)
                && allocator_b.spec_is_alive(self.spec_map()[k]) by {
                let q = self.positions()[k] as int;
                assert(self.entries@[q].0.spec_key() == k);
            }
            assert(self.spec_map() =~= old(self).live_pairs(*allocator_a, *allocator_b));
        }
    }

    /// The entries whose key is alive in `allocator_a` and whose stored
    /// handle is alive in `allocator_b`, as verified pairs, each once, in no
    /// set order. The map itself is left as it is.
    pub fn verified_both(&self, allocator_a: &Allocator<A>, allocator_b: &Allocator<B>) -> (r: Vec<
        (VerifiedEntity<A>, VerifiedEntity<B>),
    >)
        requires
            self.wf(),
        ensures
            forall|m: int|
                0 <= m < r@.len() ==> self.live_pairs(*allocator_a, *allocator_b).contains_key(
                    (#[trigger] r@[m]).0.entity.spec_key(),
                ) && self.spec_map()[r@[m].0.entity.spec_key()] == r@[m].1.entity,
            forall|key: HandleKey| #[trigger] self.live_pairs(*allocator_a, *allocator_b).contains_key(key) ==> exists|m: int|
                0 <= m < r@.len() && #[trigger] r@[m].0.entity.spec_key() == key,
            forall|m1: int, m2: int|
                0 <= m1 < r@.len() && 0 <= m2 < r@.len() && m1 != m2 ==> r@[m1].0.entity.spec_key()
                    != r@[m2].0.entity.spec_key(),
    {
        let mut out: Vec<(VerifiedEntity<A>, VerifiedEntity<B>)> = Vec::new();
        let mut i: usize = 0;
        while i < self.entries.len()
            invariant
                self.wf(),
                i <= self.entries@.len(),
                forall|m: int|
                    0 <= m < out@.len() ==> self.live_pairs(*allocator_a, *allocator_b).contains_key(
                        (#[trigger] out@[m]).0.entity.spec_key(),
                    ) && self.spec_map()[out@[m].0.entity.spec_key()] == out@[m].1.entity,
                forall|m: int| 0 <= m < out@.len() ==> self.positions()[(#[trigger] out@[m]).0.entity.spec_key()] < i,
                forall|q: int|
                    0 <= q < i && allocator_a.key_alive((#[trigger] self.entries@[q]).0.spec_key()) && allocator_b.spec_is_alive(
                        self.entries@[q].1,
                    ) ==> exists|m: int| 0 <= m < out@.len() && #[trigger] out@[m].0.entity.spec_key() == self.entries@[q].0.spec_key(),
                forall|m1: int, m2: int|
                    0 <= m1 < out@.len() && 0 <= m2 < out@.len() && m1 != m2 ==> out@[m1].0.entity.spec_key()
                        != out@[m2].0.entity.spec_key(),
            decreases self.entries@.len() - i,
        {
            let entry = &self.entries[i];
            proof {
                assert(self.positions()[self.entries@[i as int].0.spec_key()] == i);
            }
            if let Some(va) = allocator_a.verify(entry.0) {
                if let Some(vb) = allocator_b.verify(entry.1) {
                    let ghost before = out@;
                    out.push((va, vb));
                    proof {
                        assert forall|q: int|
                            0 <= q < i + 1 && allocator_a.key_alive((#[trigger] self.entries@[q]).0.spec_key())
                                && allocator_b.spec_is_alive(self.entries@[q].1) implies exists|m: int|
                            0 <= m < out@.len() && #[trigger] out@[m].0.entity.spec_key() == self.entries@[q].0.spec_key() by {
                            if q < i {
                                let m = choose|m: int| 0 <= m < before.len() && #[trigger] before[m].0.entity.spec_key() == self.entries@[q].0.spec_key();
                                assert(out@[m] == before[m]);
                            } else {
                                assert(out@[out@.len() - 1].0.entity.spec_key() == self.entries@[q].0.spec_key());
                            }
                        }
                        assert forall|m: int| 0 <= m < out@.len() implies self.positions()[(#[trigger] out@[m]).0.entity.spec_key()] < i + 1 by {
                            if m < before.len() {
                                assert(out@[m] == before[m]);
                            }
                        }
                        assert forall|m1: int, m2: int|
                            0 <= m1 < out@.len() && 0 <= m2 < out@.len() && m1 != m2 implies out@[m1].0.entity.spec_key()
                                != out@[m2].0.entity.spec_key() by {
                            if m1 < before.len() && m2 < before.len() {
                                assert(out@[m1] == before[m1] && out@[m2] == before[m2]);
                            } else if m1 < before.len() {
                                assert(out@[m1] == before[m1]);
                            } else if m2 < before.len() {
                                assert(out@[m2] == before[m2]);
                            }
                        }
                    }
                }
            }
            i += 1;
        }
        proof {
            assert forall|key: HandleKey| #[trigger] self.live_pairs(*allocator_a, *allocator_b).contains_key(key) implies exists|m: int|
                0 <= m < out@.len() && #[trigger] out@[m].0.entity.spec_key() == key by {
                let q = self.positions()[key] as int;
                assert(self.entries@[q].0.spec_key() == key);
            }
        }
        out
    }

    /// Drops every entry with a dead end, then gives the pairs left, each
    /// once, in no set order.
    pub fn retain_verified_both(&mut self, allocator_a: &Allocator<A>, allocator_b: &Allocator<B>) -> (r: Vec<
        (VerifiedEntity<A>, VerifiedEntity<B>),
    >)
        requires
            old(self).wf(),
        ensures
            final(self).wf(),
            final(self).spec_map() == old(self).live_pairs(*allocator_a, *allocator_b),
            forall|m: int|
                0 <= m < r@.len() ==> final(self).spec_map().contains_key((#[trigger] r@[m]).0.entity.spec_key())
                    && final(self).spec_map()[r@[m].0.entity.spec_key()] == r@[m].1.entity
                    && allocator_a.spec_is_alive(r@[m].0.entity) && allocator_b.spec_is_alive(r@[m].1.entity),
            forall|key: HandleKey| #[trigger] final(self).spec_map().contains_key(key) ==> exists|m: int|
                0 <= m < r@.len() && #[trigger] r@[m].0.entity.spec_key() == key,
            forall|m1: int, m2: int|
                0 <= m1 < r@.len() && 0 <= m2 < r@.len() && m1 != m2 ==> r@[m1].0.entity.spec_key()
                    != r@[m2].0.entity.spec_key(),
    {
        self.retain_both(allocator_a, allocator_b);
        proof {
            assert(self.live_pairs(*allocator_a, *allocator_b) =~= self.spec_map());
        }
        self.verified_both(allocator_a, allocator_b)
    }
}

/// Reconciliation is lazy: once an entry's row is killed, `verified` leaves
/// the entry out while the map itself (what `iter` lists) still holds it,
/// and only `retain` drops it.
pub proof fn lemma_map_lazy_reconciliation<ID, T>(
    map: EntityMap<ID, T>,
    retained: EntityMap<ID, T>,
    before: Allocator<ID>,
    after: Allocator<ID>,
    id: GenId<ID>,
)
    requires
        before.wf(),
        before.spec_is_alive(id),
        before.killed(after, id),
        map.spec_map().contains_key(id.spec_key()),
        retained.spec_map() == map.live_map(after),
    ensures
        map.spec_map().contains_key(id.spec_key()),
        !map.live_map(after).contains_key(id.spec_key()),
        !retained.spec_map().contains_key(id.spec_key()),
{
}

} // verus!
