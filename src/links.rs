use vstd::prelude::*;

use crate::entities::{Allocator, VerifiedEntity};
use crate::fxhash::HandleKey;
use crate::ids::{GenId, IdIndex};
use crate::storage::entity_map::EntityMap;
use crate::storage::indexed_vec::IndexedVec;
use crate::storage::entity_set::EntitySet;

verus! {

/// What is left of a one-sided link map once `ka`'s link and every link to
/// `kb` are taken out.
pub open spec fn without_pair<V>(m: Map<HandleKey, GenId<V>>, ka: HandleKey, kb: HandleKey) -> Map<
    HandleKey,
    GenId<V>,
> {
    m.restrict(m.dom().filter(|k: HandleKey| k != ka && m[k].spec_key() != kb))
}

/// The link maps `forward` and `backward` mirror each other: every link is
/// stored on both sides.
pub open spec fn mirrored<A, B>(forward: Map<HandleKey, GenId<B>>, backward: Map<HandleKey, GenId<A>>) -> bool {
    &&& forall|ka: HandleKey| #[trigger] forward.contains_key(ka) ==> backward.contains_key(forward[ka].spec_key())
        && backward[forward[ka].spec_key()].spec_key() == ka
    &&& forall|kb: HandleKey| #[trigger] backward.contains_key(kb) ==> forward.contains_key(backward[kb].spec_key())
        && forward[backward[kb].spec_key()].spec_key() == kb
}

/// A one-to-one link between rows of table A and rows of table B, stored on
/// both sides. Linking a row that is already linked replaces its old link,
/// and the old partner's side is cleared with it. Links are not cleared
/// when a row is killed: a stored handle may be stale, and is checked when
/// it is looked up.
#[derive(Debug)]
pub struct OneToOne<A, B> {
    forward: EntityMap<A, GenId<B>>,
    backward: EntityMap<B, GenId<A>>,
}

impl<A, B> OneToOne<A, B> {
    /// The B handle each A key is linked to.
    pub closed spec fn forward_map(&self) -> Map<HandleKey, GenId<B>> {
        self.forward.spec_map()
    }

    /// The A handle each B key is linked to.
    pub closed spec fn backward_map(&self) -> Map<HandleKey, GenId<A>> {
        self.backward.spec_map()
    }

    /// Both sides are well formed and mirror each other.
    pub closed spec fn wf(&self) -> bool {
        &&& self.forward.wf()
        &&& self.backward.wf()
        &&& mirrored(self.forward.spec_map(), self.backward.spec_map())
    }

    /// `next` is `self` after linking `a` with `b`.
    pub open spec fn linked(&self, next: Self, a: GenId<A>, b: GenId<B>) -> bool {
        &&& next.forward_map() == without_pair(self.forward_map(), a.spec_key(), b.spec_key()).insert(a.spec_key(), b)
        &&& next.backward_map() == without_pair(self.backward_map(), b.spec_key(), a.spec_key()).insert(b.spec_key(), a)
    }

    /// No link yet.
    pub fn new() -> (r: Self)
        ensures
            r.wf(),
            r.forward_map() == Map::<HandleKey, GenId<B>>::empty(),
            r.backward_map() == Map::<HandleKey, GenId<A>>::empty(),
    {
        OneToOne { forward: EntityMap::new(), backward: EntityMap::new() }
    }

    /// Links `a` with `b` on both sides, first clearing any link either of
    /// them had, on both sides too.
    pub fn link(&mut self, a: &VerifiedEntity<A>, b: &VerifiedEntity<B>)
        requires
            old(self).wf(),
        ensures
            final(self).wf(),
            old(self).linked(*final(self), a.entity, b.entity),
    {
        let ka = a.entity.key();
        let kb = b.entity.key();
        let ghost f0 = self.forward.spec_map();
        let ghost b0 = self.backward.spec_map();
        if let Some(old_b) = self.forward.remove_id(ka) {
            self.backward.remove_id(old_b.key());
        }
        let ghost f1 = self.forward.spec_map();
        let ghost b1 = self.backward.spec_map();
        if let Some(old_a) = self.backward.remove_id(kb) {
            self.forward.remove_id(old_a.key());
        }
        let ghost f2 = self.forward.spec_map();
        let ghost b2 = self.backward.spec_map();
        proof {
            assert(f2 =~= without_pair(f0, ka, kb)) by {
                assert forall|k: HandleKey| #[trigger] f2.contains_key(k) <==> without_pair(f0, ka, kb).contains_key(k) by {
                    if f0.contains_key(k) && k != ka && f0[k].spec_key() == kb {
                        assert(b0[kb].spec_key() == k);
                    }
                }
            }
            assert(b2 =~= without_pair(b0, kb, ka)) by {
                assert forall|k: HandleKey| #[trigger] b2.contains_key(k) <==> without_pair(b0, kb, ka).contains_key(k) by {
                    if b0.contains_key(k) && k != kb && b0[k].spec_key() == ka {
                        assert(f0[ka].spec_key() == k);
                    }
                }
            }
        }
        self.forward.insert(a, b.entity);
        self.backward.insert(b, a.entity);
        proof {
            let f3 = self.forward.spec_map();
            let b3 = self.backward.spec_map();
            assert forall|k: HandleKey| #[trigger] f3.contains_key(k) implies b3.contains_key(f3[k].spec_key())
                && b3[f3[k].spec_key()].spec_key() == k by {
                if k != ka {
                    assert(f2.contains_key(k));
                    assert(f0.contains_key(k) && f0[k].spec_key() != kb);
                    assert(b0.contains_key(f0[k].spec_key()));
                }
            }
            assert forall|k: HandleKey| #[trigger] b3.contains_key(k) implies f3.contains_key(b3[k].spec_key())
                && f3[b3[k].spec_key()].spec_key() == k by {
                if k != kb {
                    assert(b2.contains_key(k));
                    assert(b0.contains_key(k) && b0[k].spec_key() != ka);
                    assert(f0.contains_key(b0[k].spec_key()));
                }
            }
        }
    }

    /// The B handle stored for `a`, which may be stale.
    pub fn get(&self, a: &VerifiedEntity<A>) -> (r: Option<GenId<B>>)
        requires
            self.wf(),
        ensures
            match r {
                Some(b) => self.forward_map().contains_key(a.entity.spec_key()) && self.forward_map()[a.entity.spec_key()] == b,
                None => !self.forward_map().contains_key(a.entity.spec_key()),
            },
    {
        match self.forward.get(a) {
            Some(b) => Some(*b),
            None => None,
        }
    }

    /// The A handle stored for `b`, which may be stale.
    pub fn get_back(&self, b: &VerifiedEntity<B>) -> (r: Option<GenId<A>>)
        requires
            self.wf(),
        ensures
            match r {
                Some(a) => self.backward_map().contains_key(b.entity.spec_key()) && self.backward_map()[b.entity.spec_key()] == a,
                None => !self.backward_map().contains_key(b.entity.spec_key()),
            },
    {
        match self.backward.get(b) {
            Some(a) => Some(*a),
            None => None,
        }
    }

    /// The B row linked to the A row `a`, when `a` is alive, has a link, and
    /// the linked row is alive too.
    pub fn lookup(&self, a: GenId<A>, alloc_a: &Allocator<A>, alloc_b: &Allocator<B>) -> (r: Option<VerifiedEntity<B>>)
        requires
            self.wf(),
        ensures
            match r {
                Some(vb) => {
                    &&& alloc_a.spec_is_alive(a)
                    &&& self.forward_map().contains_key(a.spec_key())
                    &&& vb.entity == self.forward_map()[a.spec_key()]
                    &&& alloc_b.spec_is_alive(vb.entity)
                },
                None => !alloc_a.spec_is_alive(a) || !self.forward_map().contains_key(a.spec_key())
                    || !alloc_b.spec_is_alive(self.forward_map()[a.spec_key()]),
            },
    {
        match alloc_a.verify(a) {
            Some(va) => match self.get(&va) {
                Some(b) => alloc_b.verify(b),
                None => None,
            },
            None => None,
        }
    }

    /// The A row linked to the B row `b`, when `b` is alive, has a link, and
    /// the linked row is alive too.
    pub fn lookup_back(&self, b: GenId<B>, alloc_a: &Allocator<A>, alloc_b: &Allocator<B>) -> (r: Option<VerifiedEntity<A>>)
        requires
            self.wf(),
        ensures
            match r {
                Some(va) => {
                    &&& alloc_b.spec_is_alive(b)
                    &&& self.backward_map().contains_key(b.spec_key())
                    &&& va.entity == self.backward_map()[b.spec_key()]
                    &&& alloc_a.spec_is_alive(va.entity)
                },
                None => !alloc_b.spec_is_alive(b) || !self.backward_map().contains_key(b.spec_key())
                    || !alloc_a.spec_is_alive(self.backward_map()[b.spec_key()]),
            },
    {
        match alloc_b.verify(b) {
            Some(vb) => match self.get_back(&vb) {
                Some(a) => alloc_a.verify(a),
                None => None,
            },
            None => None,
        }
    }

    /// Deletes the B row linked to `a`, if there is a link: kills that row
    /// (a stale one is left as it is) and clears the link on both sides.
    pub fn delete(&mut self, a: &VerifiedEntity<A>, alloc_b: &mut Allocator<B>)
        requires
            old(self).wf(),
            old(alloc_b).wf(),
            old(alloc_b).live_below_max(),
        ensures
            final(self).wf(),
            final(alloc_b).wf(),
            old(self).forward_map().contains_key(a.entity.spec_key()) ==> {
                let b = old(self).forward_map()[a.entity.spec_key()];
                &&& old(alloc_b).killed(*final(alloc_b), b)
                &&& !final(alloc_b).spec_is_alive(b)
                &&& final(self).forward_map() == old(self).forward_map().remove(a.entity.spec_key())
                &&& final(self).backward_map() == old(self).backward_map().remove(b.spec_key())
            },
            !old(self).forward_map().contains_key(a.entity.spec_key()) ==> *final(self) == *old(self) && *final(alloc_b)
                == *old(alloc_b),
    {
        if let Some(b) = self.get(a) {
            proof {
                old(alloc_b).lemma_wf_bounds();
            }
            alloc_b.kill(b);
            self.forward.remove_id(a.entity.key());
            self.backward.remove_id(b.key());
            proof {
                let ka = a.entity.spec_key();
                let kb = b.spec_key();
                let f0 = old(self).forward.spec_map();
                let b0 = old(self).backward.spec_map();
                assert forall|k: HandleKey| #[trigger] self.forward.spec_map().contains_key(k) implies self.backward.spec_map().contains_key(
                    self.forward.spec_map()[k].spec_key(),
                ) && self.backward.spec_map()[self.forward.spec_map()[k].spec_key()].spec_key() == k by {
                    assert(f0.contains_key(k));
                    assert(b0.contains_key(f0[k].spec_key()));
                }
                assert forall|k: HandleKey| #[trigger] self.backward.spec_map().contains_key(k) implies self.forward.spec_map().contains_key(
                    self.backward.spec_map()[k].spec_key(),
                ) && self.forward.spec_map()[self.backward.spec_map()[k].spec_key()].spec_key() == k by {
                    assert(b0.contains_key(k));
                    assert(f0.contains_key(b0[k].spec_key()));
                }
            }
        }
    }
}

/// A one-to-many link: each A row (the owner) has a set of B rows (its
/// members), and each B row stores its one owner. Linking a member to a new
/// owner takes it out of its old owner's set. Killing a member leaves it in
/// its owner's set until the set is reconciled.
#[derive(Debug)]
pub struct OneToMany<A, B> {
    members: EntityMap<A, EntitySet<B>>,
    owners: EntityMap<B, GenId<A>>,
}

impl<A, B> OneToMany<A, B> {
    /// The owner stored for each B key.
    pub closed spec fn owner_map(&self) -> Map<HandleKey, GenId<A>> {
        self.owners.spec_map()
    }

    /// The member keys stored for the A key `ka`, stale ones included.
    pub closed spec fn member_keys(&self, ka: HandleKey) -> Set<HandleKey> {
        if self.members.spec_map().contains_key(ka) {
            self.members.spec_map()[ka].keys()
        } else {
            Set::empty()
        }
    }

    /// Both sides are well formed, every member set is finite, and each
    /// member is in the set of exactly the owner it stores.
    pub closed spec fn wf(&self) -> bool {
        &&& self.members.wf()
        &&& self.owners.wf()
        &&& forall|ka: HandleKey| #[trigger] self.members.spec_map().contains_key(ka) ==> self.members.spec_map()[ka].wf()
        &&& forall|kb: HandleKey| #[trigger] self.owners.spec_map().contains_key(kb) ==> self.member_keys(
            self.owners.spec_map()[kb].spec_key(),
        ).contains(kb)
        &&& forall|ka: HandleKey, kb: HandleKey| #[trigger] self.member_keys(ka).contains(kb) ==> self.owners.spec_map().contains_key(kb)
            && self.owners.spec_map()[kb].spec_key() == ka
    }

    /// No link yet.
    pub fn new() -> (r: Self)
        ensures
            r.wf(),
            r.owner_map() == Map::<HandleKey, GenId<A>>::empty(),
            forall|ka: HandleKey| #[trigger] r.member_keys(ka) == Set::<HandleKey>::empty(),
    {
        OneToMany { members: EntityMap::new(), owners: EntityMap::new() }
    }

    /// Takes the member set of `owner` out of the map, or a new empty one.
    fn take_members(&mut self, owner: GenId<A>) -> (r: EntitySet<B>)
        requires
            old(self).members.wf(),
            forall|ka: HandleKey| #[trigger] old(self).members.spec_map().contains_key(ka) ==> old(self).members.spec_map()[ka].wf(),
        ensures
            final(self).members.wf(),
            final(self).owners == old(self).owners,
            final(self).members.spec_map() == old(self).members.spec_map().remove(owner.spec_key()),
            r.wf(),
            r.keys() == old(self).member_keys(owner.spec_key()),
    {
        match self.members.remove_id(owner.key()) {
            Some(set) => set,
            None => EntitySet::new(),
        }
    }

    /// Makes `a` the owner of `b`, on both sides; `b` leaves the set of the
    /// owner it had.
    pub fn link(&mut self, a: &VerifiedEntity<A>, b: &VerifiedEntity<B>)
        requires
            old(self).wf(),
        ensures
            final(self).wf(),
            final(self).owner_map() == old(self).owner_map().insert(b.entity.spec_key(), a.entity),
            forall|ka: HandleKey| #[trigger] final(self).member_keys(ka) == if ka == a.entity.spec_key() {
                old(self).member_keys(ka).insert(b.entity.spec_key())
            } else {
                old(self).member_keys(ka).remove(b.entity.spec_key())
            },
    {
        let ka = a.entity.key();
        let kb = b.entity.key();
        let old_owner = match self.owners.get(b) {
            Some(o) => Some(*o),
            None => None,
        };
        if let Some(o) = old_owner {
            let mut set = self.take_members(o);
            set.remove(&b.entity);
            self.members.insert_id(o, set);
        }
        let ghost mid = *self;
        proof {
            assert forall|x: HandleKey| #[trigger] mid.member_keys(x) == old(self).member_keys(x).remove(kb) by {
                if old(self).member_keys(x).contains(kb) {
                    assert(old_owner is Some && old_owner.unwrap().spec_key() == x);
                }
                assert(mid.member_keys(x) =~= old(self).member_keys(x).remove(kb));
            }
        }
        let mut set = self.take_members(a.entity);
        set.insert(b.entity);
        self.members.insert(a, set);
        self.owners.insert(b, a.entity);
        proof {
            assert forall|x: HandleKey| #[trigger] self.member_keys(x) == if x == ka {
                old(self).member_keys(x).insert(kb)
            } else {
                old(self).member_keys(x).remove(kb)
            } by {
                if x == ka {
                    assert(self.member_keys(x) =~= mid.member_keys(x).insert(kb));
                    assert(old(self).member_keys(x).remove(kb).insert(kb) =~= old(self).member_keys(x).insert(kb));
                } else {
                    assert(self.member_keys(x) == mid.member_keys(x));
                }
            }
            assert forall|x: HandleKey| #[trigger] self.members.spec_map().contains_key(x) implies self.members.spec_map()[x].wf() by {
                if x != ka {
                    assert(mid.members.spec_map().contains_key(x));
                }
            }
            assert forall|k: HandleKey| #[trigger] self.owners.spec_map().contains_key(k) implies self.member_keys(
                self.owners.spec_map()[k].spec_key(),
            ).contains(k) by {
                if k != kb {
                    assert(old(self).owners.spec_map().contains_key(k));
                    assert(old(self).member_keys(old(self).owners.spec_map()[k].spec_key()).contains(k));
                }
            }
            assert forall|x: HandleKey, k: HandleKey| #[trigger] self.member_keys(x).contains(k) implies self.owners.spec_map().contains_key(k)
                && self.owners.spec_map()[k].spec_key() == x by {
                if k != kb {
                    assert(old(self).member_keys(x).contains(k));
                }
            }
        }
    }

    /// Takes `b` out of `a`'s members, and clears `b`'s owner with it. Gives
    /// `b` back when it was a member.
    pub fn remove_from(&mut self, a: &VerifiedEntity<A>, b: GenId<B>) -> (r: Option<GenId<B>>)
        requires
            old(self).wf(),
        ensures
            final(self).wf(),
            r is Some <==> old(self).member_keys(a.entity.spec_key()).contains(b.spec_key()),
            r is Some ==> r->0 == b,
            final(self).owner_map() == if r is Some {
                old(self).owner_map().remove(b.spec_key())
            } else {
                old(self).owner_map()
            },
            forall|ka: HandleKey| #[trigger] final(self).member_keys(ka) == if ka == a.entity.spec_key() {
                old(self).member_keys(ka).remove(b.spec_key())
            } else {
                old(self).member_keys(ka)
            },
    {
        let ka = a.entity.key();
        let mut set = self.take_members(a.entity);
        let r = set.remove(&b);
        self.members.insert(a, set);
        if r.is_some() {
            self.owners.remove_id(b.key());
        }
        proof {
            let kb = b.spec_key();
            assert forall|x: HandleKey| #[trigger] self.member_keys(x) == if x == ka {
                old(self).member_keys(x).remove(kb)
            } else {
                old(self).member_keys(x)
            } by {
                if x != ka {
                    assert(self.member_keys(x) == old(self).member_keys(x));
                }
            }
            assert forall|x: HandleKey| #[trigger] self.members.spec_map().contains_key(x) implies self.members.spec_map()[x].wf() by {
                if x != ka {
                    assert(old(self).members.spec_map().contains_key(x));
                }
            }
            assert forall|k: HandleKey| #[trigger] self.owners.spec_map().contains_key(k) implies self.member_keys(
                self.owners.spec_map()[k].spec_key(),
            ).contains(k) by {
                assert(old(self).owners.spec_map().contains_key(k));
                assert(old(self).member_keys(old(self).owners.spec_map()[k].spec_key()).contains(k));
            }
            assert forall|x: HandleKey, k: HandleKey| #[trigger] self.member_keys(x).contains(k) implies self.owners.spec_map().contains_key(k)
                && self.owners.spec_map()[k].spec_key() == x by {
                assert(old(self).member_keys(x).contains(k));
            }
        }
        r
    }

    /// The owner stored for `b`, which may be stale.
    pub fn owner_of(&self, b: &VerifiedEntity<B>) -> (r: Option<GenId<A>>)
        requires
            self.wf(),
        ensures
            match r {
                Some(a) => self.owner_map().contains_key(b.entity.spec_key()) && self.owner_map()[b.entity.spec_key()] == a,
                None => !self.owner_map().contains_key(b.entity.spec_key()),
            },
    {
        match self.owners.get(b) {
            Some(a) => Some(*a),
            None => None,
        }
    }

    /// The owner of the B row `b`, when `b` is alive, has an owner, and the
    /// owner is alive too.
    pub fn lookup_owner(&self, b: GenId<B>, alloc_a: &Allocator<A>, alloc_b: &Allocator<B>) -> (r: Option<VerifiedEntity<A>>)
        requires
            self.wf(),
        ensures
            match r {
                Some(va) => {
                    &&& alloc_b.spec_is_alive(b)
                    &&& self.owner_map().contains_key(b.spec_key())
                    &&& va.entity == self.owner_map()[b.spec_key()]
                    &&& alloc_a.spec_is_alive(va.entity)
                },
                None => !alloc_b.spec_is_alive(b) || !self.owner_map().contains_key(b.spec_key())
                    || !alloc_a.spec_is_alive(self.owner_map()[b.spec_key()]),
            },
    {
        match alloc_b.verify(b) {
            Some(vb) => match self.owner_of(&vb) {
                Some(a) => alloc_a.verify(a),
                None => None,
            },
            None => None,
        }
    }

    /// Number of members stored for `a`, stale ones included.
    pub fn count_members(&self, a: &VerifiedEntity<A>) -> (r: usize)
        requires
            self.wf(),
        ensures
            r as nat == self.member_keys(a.entity.spec_key()).len(),
    {
        match self.members.get(a) {
            Some(set) => set.len(),
            None => {
                proof {
                    assert(self.member_keys(a.entity.spec_key()) =~= Set::<HandleKey>::empty());
                }
                0
            },
        }
    }

    /// The members stored for `a`, stale ones included, each once, in no set
    /// order.
    pub fn members(&self, a: &VerifiedEntity<A>) -> (r: Vec<GenId<B>>)
        requires
            self.wf(),
        ensures
            forall|k: int| 0 <= k < r@.len() ==> self.member_keys(a.entity.spec_key()).contains(#[trigger] r@[k].spec_key()),
            forall|key: HandleKey| #[trigger] self.member_keys(a.entity.spec_key()).contains(key) ==> exists|k: int|
                0 <= k < r@.len() && #[trigger] r@[k].spec_key() == key,
            forall|k1: int, k2: int|
                0 <= k1 < r@.len() && 0 <= k2 < r@.len() && k1 != k2 ==> r@[k1].spec_key() != r@[k2].spec_key(),
    {
        match self.members.get(a) {
            Some(set) => set.iter(),
            None => Vec::new(),
        }
    }

    /// The members of `a` that are alive in `alloc_b`, each once, in no set
    /// order. The stored set is left as it is.
    pub fn verified_members(&self, a: &VerifiedEntity<A>, alloc_b: &Allocator<B>) -> (r: Vec<VerifiedEntity<B>>)
        requires
            self.wf(),
        ensures
            forall|k: int| 0 <= k < r@.len() ==> self.member_keys(a.entity.spec_key()).contains(#[trigger] r@[k].entity.spec_key())
                && alloc_b.spec_is_alive(r@[k].entity),
            forall|key: HandleKey| #[trigger] self.member_keys(a.entity.spec_key()).contains(key) && alloc_b.key_alive(key)
                ==> exists|k: int| 0 <= k < r@.len() && #[trigger] r@[k].entity.spec_key() == key,
            forall|k1: int, k2: int|
                0 <= k1 < r@.len() && 0 <= k2 < r@.len() && k1 != k2 ==> r@[k1].entity.spec_key() != r@[k2].entity.spec_key(),
    {
        match self.members.get(a) {
            Some(set) => {
                let r = set.verified(alloc_b);
                proof {
                    assert forall|key: HandleKey| #[trigger] self.member_keys(a.entity.spec_key()).contains(key) && alloc_b.key_alive(key)
                        implies exists|k: int| 0 <= k < r@.len() && #[trigger] r@[k].entity.spec_key() == key by {
                        assert(set.live_keys(*alloc_b).contains(key));
                    }
                }
                r
            },
            None => Vec::new(),
        }
    }

    /// Drops from `a`'s set every member that is no longer alive in
    /// `alloc_b`, and the owner entries of those members with them.
    pub fn retain_members(&mut self, a: &VerifiedEntity<A>, alloc_b: &Allocator<B>)
        requires
            old(self).wf(),
        ensures
            final(self).wf(),
            forall|ka: HandleKey| #[trigger] final(self).member_keys(ka) == if ka == a.entity.spec_key() {
                old(self).member_keys(ka).filter(|k: HandleKey| alloc_b.key_alive(k))
            } else {
                old(self).member_keys(ka)
            },
            final(self).owner_map() == old(self).owner_map().restrict(
                old(self).owner_map().dom().filter(
                    |k: HandleKey| !(old(self).member_keys(a.entity.spec_key()).contains(k) && !alloc_b.key_alive(k)),
                ),
            ),
    {
        let ka = a.entity.key();
        let mut set = self.take_members(a.entity);
        let ghost start = set.keys();
        let all = set.iter();
        let mut i: usize = 0;
        while i < all.len()
            invariant
                i <= all@.len(),
                self.owners.wf(),
                self.members.wf(),
                self.members.spec_map() == old(self).members.spec_map().remove(ka),
                set.wf(),
                set.keys() == start,
                start == old(self).member_keys(ka),
                forall|k: int| 0 <= k < all@.len() ==> start.contains(#[trigger] all@[k].spec_key()),
                forall|k1: int, k2: int|
                    0 <= k1 < all@.len() && 0 <= k2 < all@.len() && k1 != k2 ==> all@[k1].spec_key() != all@[k2].spec_key(),
                forall|kb: HandleKey| #[trigger] self.owners.spec_map().contains_key(kb) <==> old(self).owners.spec_map().contains_key(kb)
                    && !(exists|j: int| 0 <= j < i && (#[trigger] all@[j]).spec_key() == kb && !alloc_b.key_alive(kb)),
                forall|kb: HandleKey| #[trigger] self.owners.spec_map().contains_key(kb) ==> self.owners.spec_map()[kb]
                    == old(self).owners.spec_map()[kb],
            decreases all@.len() - i,
        {
            let b = all[i];
            if !alloc_b.is_alive(b) {
                self.owners.remove_id(b.key());
            }
            proof {
                assert forall|kb: HandleKey| #[trigger] self.owners.spec_map().contains_key(kb) <==> old(self).owners.spec_map().contains_key(kb)
                    && !(exists|j: int| 0 <= j < i + 1 && (#[trigger] all@[j]).spec_key() == kb && !alloc_b.key_alive(kb)) by {
                    if exists|j: int| 0 <= j < i + 1 && (#[trigger] all@[j]).spec_key() == kb && !alloc_b.key_alive(kb) {
                        let j = choose|j: int| 0 <= j < i + 1 && (#[trigger] all@[j]).spec_key() == kb && !alloc_b.key_alive(kb);
                        if j < i {
                            assert(!self.owners.spec_map().contains_key(kb));
                        }
                    }
                }
            }
            i += 1;
        }
        set.retain(alloc_b);
        self.members.insert(a, set);
        proof {
            let dead = |k: HandleKey| start.contains(k) && !alloc_b.key_alive(k);
            assert forall|kb: HandleKey| #[trigger] self.owners.spec_map().contains_key(kb) <==> old(self).owners.spec_map().contains_key(kb)
                && !dead(kb) by {
                if start.contains(kb) && !alloc_b.key_alive(kb) && old(self).owners.spec_map().contains_key(kb) {
                    let k = choose|k: int| 0 <= k < all@.len() && #[trigger] all@[k].spec_key() == kb;
                    assert(all@[k].spec_key() == kb);
                }
            }
            assert(self.owners.spec_map() =~= old(self).owners.spec_map().restrict(
                old(self).owners.spec_map().dom().filter(
                    |k: HandleKey| !(old(self).member_keys(ka).contains(k) && !alloc_b.key_alive(k)),
                ),
            ));
            assert forall|x: HandleKey| #[trigger] self.member_keys(x) == if x == ka {
                old(self).member_keys(x).filter(|k: HandleKey| alloc_b.key_alive(k))
            } else {
                old(self).member_keys(x)
            } by {
                if x != ka {
                    assert(self.member_keys(x) == old(self).member_keys(x));
                }
            }
            assert forall|x: HandleKey| #[trigger] self.members.spec_map().contains_key(x) implies self.members.spec_map()[x].wf() by {
                if x != ka {
                    assert(old(self).members.spec_map().contains_key(x));
                }
            }
            assert forall|k: HandleKey| #[trigger] self.owners.spec_map().contains_key(k) implies self.member_keys(
                self.owners.spec_map()[k].spec_key(),
            ).contains(k) by {
                assert(old(self).owners.spec_map().contains_key(k));
                assert(old(self).member_keys(old(self).owners.spec_map()[k].spec_key()).contains(k));
            }
            assert forall|x: HandleKey, k: HandleKey| #[trigger] self.member_keys(x).contains(k) implies self.owners.spec_map().contains_key(k)
                && self.owners.spec_map()[k].spec_key() == x by {
                assert(old(self).member_keys(x).contains(k));
            }
        }
    }

    /// Builds a member row of the live owner `owner`: checks the owner first
    /// and, when it is not alive, fails before anything is allocated.
    /// Otherwise allocates the row, stores `row` in `column` (which is kept
    /// in step with `alloc_b`), and links the row to its owner.
    pub fn create_member<T>(
        &mut self,
        column: &mut IndexedVec<B, T>,
        owner: GenId<A>,
        alloc_a: &Allocator<A>,
        alloc_b: &mut Allocator<B>,
        row: T,
    ) -> (r: Option<VerifiedEntity<B>>)
        requires
            old(self).wf(),
            old(alloc_b).wf(),
            old(alloc_b).can_create(),
            old(column).spec_values().len() == old(alloc_b).gens().len(),
        ensures
            r is Some <==> alloc_a.spec_is_alive(owner),
            r is None ==> *final(self) == *old(self) && *final(column) == *old(column) && *final(alloc_b) == *old(alloc_b),
            r is Some ==> {
                &&& final(alloc_b).wf()
                &&& old(alloc_b).created(*final(alloc_b), r->0.entity)
                &&& final(alloc_b).spec_is_alive(r->0.entity)
                &&& final(column).spec_values() == IndexedVec::<B, T>::inserted(
                    old(column).spec_values(),
                    r->0.entity.spec_index(),
                    row,
                )
                &&& final(column).spec_values().len() == final(alloc_b).gens().len()
                &&& final(self).wf()
                &&& final(self).owner_map() == old(self).owner_map().insert(r->0.entity.spec_key(), owner)
                &&& forall|ka: HandleKey| #[trigger] final(self).member_keys(ka) == if ka == owner.spec_key() {
                    old(self).member_keys(ka).insert(r->0.entity.spec_key())
                } else {
                    old(self).member_keys(ka).remove(r->0.entity.spec_key())
                }
            },
    {
        match alloc_a.verify(owner) {
            None => None,
            Some(va) => {
                let vb = alloc_b.create_entity();
                column.insert(&vb, row);
                self.link(&va, &vb);
                Some(vb)
            },
        }
    }

    /// Deletes the owner `owner` with its members: when the owner is alive,
    /// kills each of its live members, then the owner. A dead owner changes
    /// nothing. The link maps are left to be reconciled later. Returns
    /// whether the owner was alive.
    pub fn delete_owner(&self, owner: GenId<A>, alloc_a: &mut Allocator<A>, alloc_b: &mut Allocator<B>) -> (r: bool)
        requires
            self.wf(),
            old(alloc_a).wf(),
            old(alloc_b).wf(),
            old(alloc_a).spec_is_alive(owner) ==> owner.spec_generation() < u32::MAX,
            old(alloc_b).live_below_max(),
        ensures
            r == old(alloc_a).spec_is_alive(owner),
            final(alloc_a).wf(),
            final(alloc_b).wf(),
            old(alloc_a).killed(*final(alloc_a), owner),
            !final(alloc_a).spec_is_alive(owner),
            !r ==> *final(alloc_b) == *old(alloc_b),
            r ==> forall|k: HandleKey| #[trigger] self.member_keys(owner.spec_key()).contains(k) ==> !final(alloc_b).key_alive(k),
            forall|k: HandleKey| #[trigger] old(alloc_b).key_alive(k) && !(r && self.member_keys(owner.spec_key()).contains(k))
                ==> final(alloc_b).key_alive(k),
            forall|k: HandleKey| #[trigger] final(alloc_b).key_alive(k) ==> old(alloc_b).key_alive(k),
            final(alloc_b).live_below_max(),
            old(alloc_b).generations_advance(*final(alloc_b)),
    {
        match alloc_a.verify(owner) {
            None => {
                alloc_a.kill(owner);
                false
            },
            Some(va) => {
                let members = self.verified_members(&va, alloc_b);
                let mut i: usize = 0;
                while i < members.len()
                    invariant
                        i <= members@.len(),
                        *alloc_a == *old(alloc_a),
                        alloc_b.wf(),
                        alloc_b.live_below_max(),
                        old(alloc_b).generations_advance(*alloc_b),
                        forall|j: int| 0 <= j < members@.len() ==> self.member_keys(owner.spec_key()).contains(#[trigger] members@[j].entity.spec_key()),
                        forall|key: HandleKey| #[trigger] self.member_keys(owner.spec_key()).contains(key) && old(alloc_b).key_alive(key)
                            ==> exists|j: int| 0 <= j < members@.len() && #[trigger] members@[j].entity.spec_key() == key,
                        forall|k: HandleKey| #[trigger] alloc_b.key_alive(k) ==> old(alloc_b).key_alive(k),
                        forall|k: HandleKey| #[trigger] old(alloc_b).key_alive(k) && !self.member_keys(owner.spec_key()).contains(k)
                            ==> alloc_b.key_alive(k),
                        forall|j: int| 0 <= j < i ==> !alloc_b.key_alive((#[trigger] members@[j]).entity.spec_key()),
                    decreases members@.len() - i,
                {
                    let m = members[i].entity;
                    let ghost before = *alloc_b;
                    alloc_b.kill(m);
                    proof {
                        crate::entities::lemma_generations_advance_transitive(*old(alloc_b), before, *alloc_b);
                        before.lemma_wf_bounds();
                        assert forall|k: HandleKey| #[trigger] alloc_b.key_alive(k) implies before.key_alive(k) by {
                            if before.spec_is_alive(m) {
                                if k.0 as nat != m.spec_index() {
                                    assert(alloc_b.gens()[k.0 as int] == before.gens()[k.0 as int]);
                                }
                            }
                        }
                        assert forall|j: nat| #[trigger] alloc_b.live().contains(j) implies alloc_b.gens()[j as int] < u32::MAX by {
                            assert(before.live().contains(j));
                            if before.spec_is_alive(m) {
                                assert(j != m.spec_index());
                            }
                        }
                        assert forall|k: HandleKey| #[trigger] old(alloc_b).key_alive(k) && !self.member_keys(owner.spec_key()).contains(k)
                            implies alloc_b.key_alive(k) by {
                            assert(before.key_alive(k));
                            if before.spec_is_alive(m) && k.0 as nat == m.spec_index() {
                                assert(k == m.spec_key());
                            }
                        }
                    }
                    i += 1;
                }
                alloc_a.kill(owner);
                proof {
                    assert forall|k: HandleKey| #[trigger] self.member_keys(owner.spec_key()).contains(k) implies !alloc_b.key_alive(k) by {
                        if old(alloc_b).key_alive(k) {
                            let j = choose|j: int| 0 <= j < members@.len() && #[trigger] members@[j].entity.spec_key() == k;
                            assert(!alloc_b.key_alive(members@[j].entity.spec_key()));
                        }
                    }
                }
                true
            },
        }
    }
}

/// Follows two one-to-one links in turn, from an A row to a C row through a
/// B row, checking every row on the way.
pub fn lookup2<A, B, C>(
    ab: &OneToOne<A, B>,
    bc: &OneToOne<B, C>,
    a: GenId<A>,
    alloc_a: &Allocator<A>,
    alloc_b: &Allocator<B>,
    alloc_c: &Allocator<C>,
) -> (r: Option<VerifiedEntity<C>>)
    requires
        ab.wf(),
        bc.wf(),
    ensures
        match r {
            Some(vc) => {
                &&& alloc_a.spec_is_alive(a)
                &&& ab.forward_map().contains_key(a.spec_key())
                &&& alloc_b.spec_is_alive(ab.forward_map()[a.spec_key()])
                &&& bc.forward_map().contains_key(ab.forward_map()[a.spec_key()].spec_key())
                &&& vc.entity == bc.forward_map()[ab.forward_map()[a.spec_key()].spec_key()]
                &&& alloc_c.spec_is_alive(vc.entity)
            },
            None => !alloc_a.spec_is_alive(a) || !ab.forward_map().contains_key(a.spec_key()) || !alloc_b.spec_is_alive(
                ab.forward_map()[a.spec_key()],
            ) || !bc.forward_map().contains_key(ab.forward_map()[a.spec_key()].spec_key()) || !alloc_c.spec_is_alive(
                bc.forward_map()[ab.forward_map()[a.spec_key()].spec_key()],
            ),
        },
{
    match ab.lookup(a, alloc_a, alloc_b) {
        Some(vb) => bc.lookup(vb.entity, alloc_b, alloc_c),
        None => None,
    }
}

/// Right after `link(a, b)`, `a`'s counterpart is `b` and `b`'s is `a`.
pub proof fn lemma_link_symmetry<A, B>(before: OneToOne<A, B>, after: OneToOne<A, B>, a: GenId<A>, b: GenId<B>)
    requires
        before.linked(after, a, b),
    ensures
        after.forward_map().contains_key(a.spec_key()),
        after.forward_map()[a.spec_key()] == b,
        after.backward_map().contains_key(b.spec_key()),
        after.backward_map()[b.spec_key()] == a,
{
}

} // verus!
