use relational_ecs::entities::Allocator;
use relational_ecs::ids::GenId;
use relational_ecs::links::{OneToMany, OneToOne};
use relational_ecs::storage::indexed_vec::IndexedVec;

#[derive(Debug)]
struct Body;

#[derive(Debug)]
struct Surface;

#[derive(Debug)]
struct Shepherd;

#[derive(Debug)]
struct Sheep;

#[test]
fn one_to_one_link_is_symmetric() {
    let mut bodies = Allocator::<Body>::new();
    let mut surfaces = Allocator::<Surface>::new();
    let mut link = OneToOne::<Body, Surface>::new();
    let a = bodies.create_entity();
    let b = surfaces.create_entity();

    link.link(&a, &b);

    assert_eq!(Some(b.entity), link.get(&a));
    assert_eq!(Some(a.entity), link.get_back(&b));
    assert_eq!(Some(b.entity), link.lookup(a.entity, &bodies, &surfaces).map(|v| v.entity));
    assert_eq!(Some(a.entity), link.lookup_back(b.entity, &bodies, &surfaces).map(|v| v.entity));
}

#[test]
fn one_to_one_relink_clears_old_partner() {
    let mut bodies = Allocator::<Body>::new();
    let mut surfaces = Allocator::<Surface>::new();
    let mut link = OneToOne::<Body, Surface>::new();
    let a = bodies.create_entity();
    let b1 = surfaces.create_entity();
    let b2 = surfaces.create_entity();

    link.link(&a, &b1);
    link.link(&a, &b2);

    assert_eq!(Some(b2.entity), link.get(&a));
    assert_eq!(Some(a.entity), link.get_back(&b2));
    assert_eq!(None, link.get_back(&b1));
}

#[test]
fn one_to_one_lookup_checks_both_ends() {
    let mut bodies = Allocator::<Body>::new();
    let mut surfaces = Allocator::<Surface>::new();
    let mut link = OneToOne::<Body, Surface>::new();
    let a = bodies.create_entity();
    let b = surfaces.create_entity();
    link.link(&a, &b);

    surfaces.kill(b.entity);

    assert_eq!(Some(b.entity), link.get(&a));
    assert!(link.lookup(a.entity, &bodies, &surfaces).is_none());
    assert!(link.lookup_back(b.entity, &bodies, &surfaces).is_none());
}

#[test]
fn create_member_with_dead_owner_allocates_nothing() {
    let mut shepherds = Allocator::<Shepherd>::new();
    let mut sheep = Allocator::<Sheep>::new();
    let mut wool = IndexedVec::<Sheep, u32>::new();
    let mut flock = OneToMany::<Shepherd, Sheep>::new();

    let owner = shepherds.create_entity().entity;
    shepherds.kill(owner);

    let made = flock.create_member(&mut wool, owner, &shepherds, &mut sheep, 3);

    assert!(made.is_none());
    assert!(sheep.ids().is_empty());
    assert!(wool.is_empty());

    let never = GenId::<Shepherd>::new(9, owner.generation());
    assert!(flock.create_member(&mut wool, never, &shepherds, &mut sheep, 3).is_none());
    assert!(sheep.ids().is_empty());
}

#[test]
fn create_member_with_live_owner_links_the_row() {
    let mut shepherds = Allocator::<Shepherd>::new();
    let mut sheep = Allocator::<Sheep>::new();
    let mut wool = IndexedVec::<Sheep, u32>::new();
    let mut flock = OneToMany::<Shepherd, Sheep>::new();

    let owner = shepherds.create_entity();
    let s = flock.create_member(&mut wool, owner.entity, &shepherds, &mut sheep, 3).unwrap();

    assert_eq!(Some(&3), wool.get(&s));
    assert_eq!(Some(owner.entity), flock.owner_of(&s));
    assert_eq!(vec![s.entity], flock.members(&owner));
    assert_eq!(1, flock.count_members(&owner));
    assert_eq!(Some(owner.entity), flock.lookup_owner(s.entity, &shepherds, &sheep).map(|v| v.entity));
}

#[test]
fn one_to_many_counts_stale_members_until_reconciled() {
    let mut shepherds = Allocator::<Shepherd>::new();
    let mut sheep = Allocator::<Sheep>::new();
    let mut wool = IndexedVec::<Sheep, u32>::new();
    let mut flock = OneToMany::<Shepherd, Sheep>::new();

    let owner = shepherds.create_entity();
    let mut members = Vec::new();
    for w in 0..4u32 {
        members.push(flock.create_member(&mut wool, owner.entity, &shepherds, &mut sheep, w).unwrap());
    }

    sheep.kill(members[1].entity);
    sheep.kill(members[3].entity);

    assert_eq!(4, flock.count_members(&owner));
    assert_eq!(4, flock.members(&owner).len());
    assert_eq!(2, flock.verified_members(&owner, &sheep).len());

    flock.retain_members(&owner, &sheep);

    assert_eq!(2, flock.count_members(&owner));
    assert_eq!(None, flock.owner_of(&members[1]));
    assert_eq!(Some(owner.entity), flock.owner_of(&members[0]));
}

#[test]
fn one_to_many_relink_moves_member() {
    let mut shepherds = Allocator::<Shepherd>::new();
    let mut sheep = Allocator::<Sheep>::new();
    let mut flock = OneToMany::<Shepherd, Sheep>::new();

    let a = shepherds.create_entity();
    let b = shepherds.create_entity();
    let s = sheep.create_entity();

    flock.link(&a, &s);
    flock.link(&b, &s);

    assert_eq!(0, flock.count_members(&a));
    assert_eq!(1, flock.count_members(&b));
    assert_eq!(Some(b.entity), flock.owner_of(&s));

    assert_eq!(None, flock.remove_from(&a, s.entity));
    assert_eq!(Some(s.entity), flock.remove_from(&b, s.entity));
    assert_eq!(0, flock.count_members(&b));
    assert_eq!(None, flock.owner_of(&s));
}

#[test]
fn delete_owner_kills_members_then_owner() {
    let mut shepherds = Allocator::<Shepherd>::new();
    let mut sheep = Allocator::<Sheep>::new();
    let mut wool = IndexedVec::<Sheep, u32>::new();
    let mut flock = OneToMany::<Shepherd, Sheep>::new();

    let owner = shepherds.create_entity();
    let other = shepherds.create_entity();
    let s0 = flock.create_member(&mut wool, owner.entity, &shepherds, &mut sheep, 1).unwrap();
    let s1 = flock.create_member(&mut wool, owner.entity, &shepherds, &mut sheep, 2).unwrap();
    let s2 = flock.create_member(&mut wool, other.entity, &shepherds, &mut sheep, 3).unwrap();

    assert!(flock.delete_owner(owner.entity, &mut shepherds, &mut sheep));

    assert!(!shepherds.is_alive(owner.entity));
    assert!(shepherds.is_alive(other.entity));
    assert!(!sheep.is_alive(s0.entity));
    assert!(!sheep.is_alive(s1.entity));
    assert!(sheep.is_alive(s2.entity));

    assert!(!flock.delete_owner(owner.entity, &mut shepherds, &mut sheep));
    assert!(sheep.is_alive(s2.entity));
}

#[test]
fn one_to_one_delete_kills_the_linked_row() {
    let mut bodies = Allocator::<Body>::new();
    let mut surfaces = Allocator::<Surface>::new();
    let mut link = OneToOne::<Body, Surface>::new();
    let a = bodies.create_entity();
    let lone = bodies.create_entity();
    let b = surfaces.create_entity();
    link.link(&a, &b);

    link.delete(&lone, &mut surfaces);
    assert!(surfaces.is_alive(b.entity));

    link.delete(&a, &mut surfaces);
    assert!(!surfaces.is_alive(b.entity));
    assert_eq!(None, link.get(&a));
    assert_eq!(None, link.get_back(&b));
    assert!(bodies.is_alive(a.entity));
}

#[test]
fn lookup2_follows_two_links() {
    let mut shepherds = Allocator::<Shepherd>::new();
    let mut bodies = Allocator::<Body>::new();
    let mut surfaces = Allocator::<Surface>::new();
    let mut ab = OneToOne::<Shepherd, Body>::new();
    let mut bc = OneToOne::<Body, Surface>::new();
    let a = shepherds.create_entity();
    let b = bodies.create_entity();
    let c = surfaces.create_entity();
    ab.link(&a, &b);
    bc.link(&b, &c);

    let found = relational_ecs::links::lookup2(&ab, &bc, a.entity, &shepherds, &bodies, &surfaces);
    assert_eq!(Some(c.entity), found.map(|v| v.entity));

    bodies.kill(b.entity);
    assert!(relational_ecs::links::lookup2(&ab, &bc, a.entity, &shepherds, &bodies, &surfaces).is_none());
}
