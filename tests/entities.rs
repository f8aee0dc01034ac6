use relational_ecs::entities::{Allocator, Generation};
use relational_ecs::ids::{GenId, IdIndex};

#[derive(Debug)]
struct TestId;

fn assert_id(id: GenId<TestId>, index: u32, generation: u32) {
    assert_eq!(index as usize, id.index());
    assert_eq!(generation, id.generation().value());
}

#[test]
fn create_entity() {
    let mut allocator = Allocator::<TestId>::new();
    let id = allocator.create_entity().entity;

    assert_id(id, 0, 1);
    assert!(allocator.is_alive(id));
}

#[test]
fn kill_entity() {
    let mut allocator = Allocator::<TestId>::new();
    let id = allocator.create_entity().entity;

    allocator.kill(id);

    assert!(!allocator.is_alive(id));
}

#[test]
fn reuses_dead() {
    let mut allocator = Allocator::<TestId>::new();
    let id = allocator.create_entity().entity;
    allocator.kill(id);

    let id = allocator.create_entity().entity;

    assert!(allocator.is_alive(id));
    assert_id(id, 0, 2);
}

#[test]
fn create_second() {
    let mut allocator = Allocator::<TestId>::new();
    let _ = allocator.create_entity();
    let id = allocator.create_entity().entity;

    assert_id(id, 1, 1);
    assert!(allocator.is_alive(id));
}

#[test]
fn dead_id_is_not_alive1() {
    let mut allocator = Allocator::<TestId>::new();
    let dead = allocator.create_entity().entity;
    allocator.kill(dead);

    assert!(!allocator.is_alive(dead));
}

#[test]
fn dead_id_is_not_alive2() {
    let mut allocator = Allocator::<TestId>::new();
    let dead = allocator.create_entity().entity;
    allocator.kill(dead);
    let live = allocator.create_entity().entity;

    assert_eq!(dead.index(), live.index());
    assert!(!allocator.is_alive(dead));
    assert!(allocator.is_alive(live));
}

#[test]
fn verify_returns_some_if_alive() {
    let mut allocator = Allocator::<TestId>::new();
    let id = allocator.create_entity().entity;

    assert!(allocator.verify(id).is_some());
}

#[test]
fn verify_returns_none_if_dead() {
    let mut allocator = Allocator::<TestId>::new();
    let id = allocator.create_entity().entity;
    allocator.kill(id);

    assert!(allocator.verify(id).is_none());
}

#[test]
fn ids_returns_iterator_of_the_living() {
    let mut allocator = Allocator::<TestId>::new();

    let id0 = allocator.create_entity().entity;
    let id1 = allocator.create_entity().entity;
    let id2 = allocator.create_entity().entity;

    allocator.kill(id1);

    let ids = allocator.ids();
    let ids = &mut ids.iter();

    assert_eq!(id0, ids.next().unwrap().entity);
    assert_eq!(id2, ids.next().unwrap().entity);
    assert!(ids.next().is_none());
}

#[test]
fn generation_starts_at_one_and_counts_up() {
    let first = Generation::default();
    assert_eq!(1, first.value());
    assert_eq!(2, first.next().value());
    assert_eq!(3, first.next().next().value());
}

#[test]
fn kill_reports_whether_it_killed() {
    let mut allocator = Allocator::<TestId>::new();
    let id = allocator.create_entity().entity;

    assert_eq!(Some(()), allocator.kill(id));
    assert_eq!(None, allocator.kill(id));
    assert!(!allocator.is_alive(id));
}

#[test]
fn generation_rises_with_each_kill_at_one_index() {
    let mut allocator = Allocator::<TestId>::new();
    let mut seen = Vec::new();
    for _ in 0..5 {
        let id = allocator.create_entity().entity;
        assert_eq!(0, id.index());
        seen.push(id.generation().value());
        allocator.kill(id);
    }
    assert_eq!(vec![1, 2, 3, 4, 5], seen);
}

#[test]
fn killed_handle_stays_dead_after_reuse() {
    let mut allocator = Allocator::<TestId>::new();
    let h = allocator.create_entity().entity;
    assert!(allocator.is_alive(h));
    allocator.kill(h);
    for _ in 0..3 {
        let again = allocator.create_entity().entity;
        assert!(!allocator.is_alive(h));
        allocator.kill(again);
        assert!(!allocator.is_alive(h));
    }
}

#[test]
fn freed_indices_come_back_last_in_first_out() {
    let mut allocator = Allocator::<TestId>::new();
    let a = allocator.create_entity().entity;
    let b = allocator.create_entity().entity;
    let c = allocator.create_entity().entity;
    allocator.kill(a);
    allocator.kill(c);

    let first = allocator.create_entity().entity;
    let second = allocator.create_entity().entity;
    let third = allocator.create_entity().entity;

    assert_id(first, 2, 2);
    assert_id(second, 0, 2);
    assert_id(third, 3, 1);
    assert!(allocator.is_alive(b));
}

#[test]
fn kill_then_reuse_index_zero() {
    let mut allocator = Allocator::<TestId>::new();
    let h0 = allocator.create_entity().entity;
    assert_id(h0, 0, 1);
    allocator.kill(h0);
    let h1 = allocator.create_entity().entity;
    assert_id(h1, 0, 2);

    assert!(!allocator.is_alive(h0));
    assert!(allocator.is_alive(h1));
    assert!(allocator.verify(h0).is_none());
}

#[test]
fn verify_beyond_allocated_range_is_none() {
    let mut allocator = Allocator::<TestId>::new();
    let _ = allocator.create_entity();
    assert!(allocator.verify(GenId::new(7, Generation::default())).is_none());
    assert!(!allocator.is_alive(GenId::new(7, Generation::default())));
}

#[test]
fn ids_are_rebuilt_from_current_generations() {
    let mut allocator = Allocator::<TestId>::new();
    let a = allocator.create_entity().entity;
    allocator.kill(a);
    let b = allocator.create_entity().entity;
    let ids = allocator.ids();
    assert_eq!(1, ids.len());
    assert_eq!(b, ids[0].entity);
    assert_ne!(a, ids[0].entity);
}
