use relational_ecs::allocators::FixedAllocator;
use relational_ecs::entities::{Allocator, VerifiedEntity};
use relational_ecs::ids::{GenId, IdIndex};
use relational_ecs::storage::component::Component;
use relational_ecs::storage::entity_map::EntityMap;
use relational_ecs::storage::entity_set::EntitySet;
use relational_ecs::storage::indexed_vec::IndexedVec;

#[derive(Debug)]
struct Fixed;

#[derive(Debug)]
struct Gen;

#[derive(Debug)]
struct TestId;

#[derive(Debug)]
struct Other;

#[test]
fn insert_and_retrieve() {
    let mut allocator = FixedAllocator::<Fixed>::default();
    let mut component = Component::<Fixed, u32>::new();

    let id = allocator.create();
    component.insert(&id, 3);

    assert_eq!(&3, component.get(&id));
}

#[test]
fn reuse_index() {
    let mut allocator = Allocator::<Gen>::default();
    let mut component = Component::<Gen, u32>::new();

    let id_0_1 = allocator.create_entity();
    component.insert(&id_0_1, 2);
    let id_0_1 = id_0_1.entity;
    allocator.kill(id_0_1);

    let id_0_2 = allocator.create_entity();
    component.insert(&id_0_2, 3);

    assert_eq!(id_0_1.index(), id_0_2.entity.index());
    assert_ne!(id_0_1.generation(), id_0_2.entity.generation());
    assert_eq!(&3, component.get(&id_0_2));
}

#[test]
fn component_get_mut_changes_the_row() {
    let mut allocator = FixedAllocator::<Fixed>::default();
    let mut component = Component::<Fixed, u32>::default();
    let a = allocator.create();
    let b = allocator.create();
    component.insert(&a, 10);
    component.insert(&b, 20);

    *component.get_mut(&b) += 5;

    assert_eq!(&10, component.get(&a));
    assert_eq!(&25, component.get(&b));
    assert_eq!(2, component.len());
}

#[test]
fn insert_and_get() {
    let mut allocator = Allocator::<TestId>::new();
    let mut storage = IndexedVec::<TestId, u32>::new();

    let id = allocator.create_entity();

    storage.insert(&id, 5);

    assert_eq!(Some(&5), storage.get(&id));
}

#[test]
fn insert_to_update_value() {
    let mut allocator = Allocator::<TestId>::new();
    let mut storage = IndexedVec::<TestId, u32>::new();

    let id = allocator.create_entity();

    storage.insert(&id, 2);
    storage.insert(&id, 3);

    assert_eq!(Some(&3), storage.get(&id));
}

#[test]
fn indexed_vec_get_past_the_end_is_none() {
    let mut allocator = Allocator::<TestId>::new();
    let mut storage = IndexedVec::<TestId, u32>::with_capacity(4);
    let a = allocator.create_entity();
    let b = allocator.create_entity();
    storage.insert(&a, 1);

    assert_eq!(None, storage.get(&b));
    assert_eq!(1, storage.len());
    assert!(!storage.is_empty());
    assert!(IndexedVec::<TestId, u32>::default().is_empty());
}

#[test]
fn indexed_vec_retain_clears_dead_links() {
    let mut owners = Allocator::<TestId>::new();
    let mut others = Allocator::<Other>::new();
    let mut links = IndexedVec::<TestId, Option<GenId<Other>>>::new();

    let a0 = owners.create_entity();
    let a1 = owners.create_entity();
    let a2 = owners.create_entity();
    let b0 = others.create_entity().entity;
    let b1 = others.create_entity().entity;
    links.insert(&a0, Some(b0));
    links.insert(&a1, Some(b1));
    links.insert(&a2, None);

    others.kill(b1);
    links.retain(&others);

    assert_eq!(vec![Some(b0), None, None], links.values);
}

#[test]
fn indexed_vec_verified_both_pairs_live_rows() {
    let mut owners = Allocator::<TestId>::new();
    let mut others = Allocator::<Other>::new();
    let mut links = IndexedVec::<TestId, GenId<Other>>::new();

    let a0 = owners.create_entity();
    let a1 = owners.create_entity();
    let a2 = owners.create_entity();
    let b0 = others.create_entity().entity;
    let b1 = others.create_entity().entity;
    let b2 = others.create_entity().entity;
    links.insert(&a0, b0);
    links.insert(&a1, b1);
    links.insert(&a2, b2);

    others.kill(b1);
    owners.kill(a2.entity);

    let pairs = links.verified_both(&owners, &others);
    assert_eq!(1, pairs.len());
    assert_eq!(a0.entity, pairs[0].0.entity);
    assert_eq!(b0, pairs[0].1.entity);
}

#[test]
fn entity_set_insert_contains_remove() {
    let mut allocator = Allocator::<TestId>::new();
    let mut set = EntitySet::<TestId>::new();
    let a = allocator.create_entity().entity;
    let b = allocator.create_entity().entity;

    assert!(set.is_empty());
    set.insert(a);
    set.insert(a);
    set.insert(b);
    assert_eq!(2, set.len());
    assert!(set.contains(&a));

    assert_eq!(Some(a), set.remove(&a));
    assert_eq!(None, set.remove(&a));
    assert!(!set.contains(&a));
    assert!(set.contains(&b));
    assert_eq!(1, set.len());

    set.clear();
    assert!(set.is_empty());
}

#[test]
fn entity_set_keeps_stale_and_live_handles_apart() {
    let mut allocator = Allocator::<TestId>::new();
    let mut set = EntitySet::<TestId>::default();
    let old = allocator.create_entity().entity;
    set.insert(old);
    allocator.kill(old);
    let new = allocator.create_entity().entity;

    assert_eq!(old.index(), new.index());
    assert!(set.contains(&old));
    assert!(!set.contains(&new));
}

#[test]
fn entity_set_lazy_reconciliation() {
    let mut allocator = Allocator::<TestId>::new();
    let mut set = EntitySet::<TestId>::new();
    let a = allocator.create_entity().entity;
    let b = allocator.create_entity().entity;
    set.insert(a);
    set.insert(b);

    allocator.kill(a);

    let live: Vec<GenId<TestId>> = set.verified(&allocator).iter().map(|v| v.entity).collect();
    assert_eq!(vec![b], live);
    let all = set.iter();
    assert_eq!(2, all.len());
    assert!(all.contains(&a));

    set.retain(&allocator);
    assert_eq!(vec![b], set.iter());
    assert!(!set.contains(&a));
}

#[test]
fn entity_set_retain_verified_gives_the_survivors() {
    let mut allocator = Allocator::<TestId>::new();
    let mut set = EntitySet::<TestId>::new();
    let a = allocator.create_entity().entity;
    let b = allocator.create_entity().entity;
    let c = allocator.create_entity().entity;
    set.insert(a);
    set.insert(b);
    set.insert(c);
    allocator.kill(b);

    let mut left: Vec<usize> = set.retain_verified(&allocator).iter().map(|v| v.entity.index()).collect();
    left.sort();
    assert_eq!(vec![0, 2], left);
    assert_eq!(2, set.len());
}

#[test]
fn entity_map_insert_get_remove() {
    let mut allocator = Allocator::<TestId>::new();
    let mut map = EntityMap::<TestId, String>::new();
    let a = allocator.create_entity();
    let b = allocator.create_entity();
    let c = allocator.create_entity();

    map.insert(&a, String::from("a"));
    map.insert(&b, String::from("b"));
    map.insert(&c, String::from("c"));
    map.insert(&a, String::from("A"));

    assert_eq!(3, map.len());
    assert_eq!(Some(&String::from("A")), map.get(&a));
    assert_eq!(Some(String::from("a").to_uppercase()), map.remove(&a));
    assert_eq!(None, map.get(&a));
    assert_eq!(None, map.remove(&a));
    assert_eq!(Some(&String::from("b")), map.get(&b));
    assert_eq!(Some(&String::from("c")), map.get(&c));
    assert_eq!(2, map.len());

    map.clear();
    assert!(map.is_empty());
    assert_eq!(None, map.get(&b));
}

#[test]
fn entity_map_stale_key_does_not_read_live_row() {
    let mut allocator = Allocator::<TestId>::new();
    let mut map = EntityMap::<TestId, u32>::default();
    let old = allocator.create_entity();
    map.insert(&old, 7);
    allocator.kill(old.entity);
    let new = allocator.create_entity();

    assert_eq!(None, map.get(&new));
    assert_eq!(Some(&7), map.get(&old));
}

#[test]
fn entity_map_lazy_reconciliation() {
    let mut allocator = Allocator::<TestId>::new();
    let mut map = EntityMap::<TestId, u32>::new();
    let a = allocator.create_entity();
    let b = allocator.create_entity();
    let c = allocator.create_entity();
    map.insert(&a, 1);
    map.insert(&b, 2);
    map.insert(&c, 3);

    allocator.kill(b.entity);

    let mut live: Vec<u32> = map.verified(&allocator).iter().map(|(_, v)| **v).collect();
    live.sort();
    assert_eq!(vec![1, 3], live);
    assert_eq!(3, map.iter().len());

    map.retain(&allocator);
    assert_eq!(2, map.len());
    assert_eq!(None, map.get(&b));
    assert_eq!(Some(&1), map.get(&a));
    assert_eq!(Some(&3), map.get(&c));
    let mut keys: Vec<usize> = map.iter().iter().map(|(k, _)| k.index()).collect();
    keys.sort();
    assert_eq!(vec![0, 2], keys);
}

#[test]
fn verified_entity_wraps_the_handle() {
    let mut allocator = Allocator::<TestId>::new();
    let a = allocator.create_entity().entity;
    let v = VerifiedEntity::assert_valid(a);
    assert_eq!(a, v.entity);
    assert_eq!(0, v.index());
}

#[test]
fn entity_map_retain_verified_gives_the_survivors() {
    let mut allocator = Allocator::<TestId>::new();
    let mut map = EntityMap::<TestId, u32>::new();
    let a = allocator.create_entity();
    let b = allocator.create_entity();
    map.insert(&a, 10);
    map.insert(&b, 20);
    allocator.kill(a.entity);

    let left: Vec<(GenId<TestId>, u32)> = map.retain_verified(&allocator).iter().map(|(k, v)| (k.entity, **v)).collect();
    assert_eq!(vec![(b.entity, 20)], left);
    assert_eq!(1, map.len());
}

#[test]
fn entity_map_both_ends_checked() {
    let mut owners = Allocator::<TestId>::new();
    let mut others = Allocator::<Other>::new();
    let mut map = EntityMap::<TestId, GenId<Other>>::new();
    let a0 = owners.create_entity();
    let a1 = owners.create_entity();
    let a2 = owners.create_entity();
    let b0 = others.create_entity().entity;
    let b1 = others.create_entity().entity;
    let b2 = others.create_entity().entity;
    map.insert(&a0, b0);
    map.insert(&a1, b1);
    map.insert(&a2, b2);

    owners.kill(a1.entity);
    others.kill(b2);

    let pairs: Vec<(usize, usize)> = map
        .verified_both(&owners, &others)
        .iter()
        .map(|(a, b)| (a.entity.index(), b.entity.index()))
        .collect();
    assert_eq!(vec![(0, 0)], pairs);
    assert_eq!(3, map.len());

    let kept = map.retain_verified_both(&owners, &others);
    assert_eq!(1, kept.len());
    assert_eq!(a0.entity, kept[0].0.entity);
    assert_eq!(1, map.len());
}

#[test]
fn entity_map_retain_both_drops_dead_ends() {
    let mut owners = Allocator::<TestId>::new();
    let mut others = Allocator::<Other>::new();
    let mut map = EntityMap::<TestId, GenId<Other>>::new();
    let a0 = owners.create_entity();
    let a1 = owners.create_entity();
    let b0 = others.create_entity().entity;
    let b1 = others.create_entity().entity;
    map.insert(&a0, b0);
    map.insert(&a1, b1);

    others.kill(b0);
    map.retain_both(&owners, &others);

    assert_eq!(None, map.get(&a0));
    assert_eq!(Some(&b1), map.get(&a1));
}

#[test]
fn indexed_vec_create_keeps_column_in_step() {
    let mut allocator = Allocator::<TestId>::new();
    let mut column = IndexedVec::<TestId, u32>::new();
    let a = column.create(7, &mut allocator);
    let b = column.create(8, &mut allocator);
    allocator.kill(a.entity);
    let c = column.create(9, &mut allocator);

    assert_eq!(a.entity.index(), c.entity.index());
    assert_eq!(vec![9, 8], column.values);
    assert_eq!(Some(&8), column.get(&b));
}

#[test]
fn component_create_appends() {
    let mut allocator = FixedAllocator::<Fixed>::new();
    let mut column = Component::<Fixed, u32>::new();
    let a = column.create(4, &mut allocator);
    let b = column.create(5, &mut allocator);

    assert_eq!(0, a.index());
    assert_eq!(1, b.index());
    assert_eq!(&4, column.get(&a));
    assert_eq!(&5, column.get(&b));
    assert_eq!(2, allocator.len());
}
