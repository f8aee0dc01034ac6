use relational_ecs::allocators::FixedAllocator;
use relational_ecs::entities::{Allocator, Generation};
use relational_ecs::ids::{GenId, IdIndex};

#[derive(Debug)]
struct Test;

#[test]
fn flex_allocator() {
    let mut allocator = Allocator::<Test>::default();

    let id_0_gen_1 = allocator.create_entity().entity;
    let id_1_gen_1 = allocator.create_entity().entity;

    assert_eq!(id_0_gen_1, GenId::<Test>::new(0, Generation::default()));
    assert_eq!(id_1_gen_1, GenId::<Test>::new(1, Generation::default()));
}

#[test]
fn verify_when_id_is_alive_returns_some() {
    let mut allocator = Allocator::<Test>::default();

    let id_0_gen_1 = allocator.create_entity().entity;

    assert!(allocator.verify(id_0_gen_1).is_some());
}

#[test]
fn verify_when_id_is_not_alive_returns_none() {
    let mut allocator = Allocator::<Test>::default();

    let _id_0_gen_1 = allocator.create_entity().entity;

    assert!(allocator.verify(GenId::new(1, Generation::default())).is_none());
    assert!(allocator.verify(GenId::new(0, Generation::default().next())).is_none());
}

#[test]
fn is_alive_when_id_is_alive_returns_true() {
    let mut allocator = Allocator::<Test>::default();

    let id_0_gen_1 = allocator.create_entity().entity;

    assert!(allocator.is_alive(id_0_gen_1));
}

#[test]
fn is_alive_when_id_is_not_alive_returns_false() {
    let mut allocator = Allocator::<Test>::default();

    let _id_0_gen_1 = allocator.create_entity().entity;

    assert!(!allocator.is_alive(GenId::new(1, Generation::default())));
    assert!(!allocator.is_alive(GenId::new(0, Generation::default().next())));
}

#[test]
fn kill_given_live_entity_is_no_longer_alive() {
    let mut allocator = Allocator::<Test>::default();

    let id_0_gen_1 = allocator.create_entity().entity;

    allocator.kill(id_0_gen_1);

    assert!(!allocator.is_alive(id_0_gen_1))
}

#[test]
fn create_when_dead_index_returns_reused_index() {
    let mut allocator = Allocator::<Test>::default();

    let id_0_gen_1 = allocator.create_entity().entity;

    allocator.kill(id_0_gen_1);

    let id_0_gen_2 = allocator.create_entity().entity;

    assert_eq!(id_0_gen_2, GenId::new(0, Generation::default().next()));
}

#[test]
fn fixed_allocator_lists_rows_in_creation_order() {
    let mut allocator = FixedAllocator::<Test>::new();
    let a = allocator.create();
    let b = allocator.create();
    let c = allocator.create();

    let ids = allocator.ids();
    assert_eq!(vec![a, b, c], ids);
    assert_eq!(vec![0, 1, 2], ids.iter().map(|id| id.index()).collect::<Vec<_>>());
    assert_eq!(3, allocator.len());
}

#[test]
fn fixed_allocator_starts_empty() {
    let allocator = FixedAllocator::<Test>::default();
    assert!(allocator.ids().is_empty());
    assert_eq!(0, allocator.len());
}
