use ecs_core::allocator::EntityAllocator;
use ecs_core::allocator::EntityId;
use ecs_core::component::AccessError;
use ecs_core::component::CellState;
use ecs_core::component::Component;
use ecs_core::component::ComponentStorage;
use ecs_core::component_array::ComponentArray;
use ecs_core::entity_builder::EntityBuilder;
use ecs_core::query::Query;
use ecs_core::world::World;

#[derive(Debug, PartialEq, Clone, Copy)]
enum Comp {
    A(i32),
    B(i32),
}

impl Component for Comp {}

const KA: u64 = 100;
const KB: u64 = 200;
const RES: u64 = 300;

fn get_a(w: &World<Comp>, e: EntityId) -> Option<i32> {
    match w.get_component(e, KA) {
        Ok(Some(Comp::A(v))) => Some(*v),
        Ok(_) => None,
        Err(err) => panic!("aliasing violation: {:?}", err),
    }
}

#[test]
fn fresh_identities_are_distinct() {
    let mut alloc = EntityAllocator::new();
    let mut seen: Vec<EntityId> = Vec::new();
    for _ in 0..8 {
        let e = alloc.allocate();
        assert!(!seen.contains(&e));
        seen.push(e);
    }
    // Release and reuse: the lowest slot comes back with a newer generation,
    // so the stale identity never names the new entity.
    let first = seen[0];
    alloc.release(first);
    let again = alloc.allocate();
    assert_eq!(first.index, again.index);
    assert_ne!(first.generation, again.generation);
    assert_ne!(first, again);
    assert!(!alloc.contains(first));
    assert!(alloc.contains(again));
}

#[test]
fn released_identity_lookups_absent() {
    let mut world: World<Comp> = World::new();
    world.register(KA);
    let e = EntityBuilder::new().with(KA, Comp::A(7)).build(&mut world).unwrap();
    world.remove_entity(e).unwrap();
    assert_eq!(None, get_a(&world, e));
    assert_eq!(false, world.contains_component(e, KA));
    assert_eq!(Ok(false), world.get_components(e, &Query::new()));
    // The reused slot's new entity is invisible through the stale identity.
    let e2 = world.new_entity();
    world.add_component(e2, KA, Comp::A(9)).unwrap();
    assert_eq!(None, get_a(&world, e));
    assert_eq!(Some(9), get_a(&world, e2));
}

#[test]
fn attach_round_trip() {
    let mut world: World<Comp> = World::new();
    world.register(KA);
    let e = world.new_entity();
    assert_eq!(None, world.add_component(e, KA, Comp::A(42)).unwrap());
    assert_eq!(Some(42), get_a(&world, e));
}

#[test]
fn attach_overwrite_returns_prior() {
    let mut world: World<Comp> = World::new();
    world.register(KA);
    let e = world.new_entity();
    assert_eq!(None, world.add_component(e, KA, Comp::A(1)).unwrap());
    assert_eq!(Some(Comp::A(1)), world.add_component(e, KA, Comp::A(2)).unwrap());
    assert_eq!(Some(2), get_a(&world, e));
}

#[test]
fn resource_replacement_returns_prior() {
    let mut world: World<Comp> = World::new();
    assert_eq!(None, world.add_resource(RES, Comp::A(1)).unwrap());
    assert_eq!(Some(Comp::A(1)), world.add_resource(RES, Comp::A(2)).unwrap());
    assert_eq!(Some(&Comp::A(2)), world.get_resource(RES).unwrap());
}

#[test]
fn query_counts() {
    // Entity i carries A = i; only even i also carries B = i. The joined
    // query yields one pair per even i, the single-key query every entity.
    let n: i32 = 7;
    let mut world: World<Comp> = World::new();
    world.register(KA);
    world.register(KB);
    for i in 0..n {
        let e = world.new_entity();
        world.add_component(e, KA, Comp::A(i)).unwrap();
        if i % 2 == 0 {
            world.add_component(e, KB, Comp::B(i)).unwrap();
        }
    }

    let both = world.query(&Query::new().with(KA).with(KB)).unwrap();
    assert_eq!(4, both.len());
    for e in both.iter() {
        let a = match world.get_component(*e, KA).unwrap().unwrap() {
            Comp::A(v) => *v,
            other => panic!("unexpected component: {:?}", other),
        };
        let b = match world.get_component(*e, KB).unwrap().unwrap() {
            Comp::B(v) => *v,
            other => panic!("unexpected component: {:?}", other),
        };
        assert_eq!(a, b);
    }

    let only_a = world.query(&Query::new().with(KA)).unwrap();
    assert_eq!(7, only_a.len());
}

#[test]
fn exclusive_write_visible_to_read() {
    let mut world: World<Comp> = World::new();
    world.register(KA);
    let e = world.new_entity();
    world.add_component(e, KA, Comp::A(1)).unwrap();
    let taken = world.get_component_mut(e, KA).unwrap().unwrap();
    assert_eq!(Comp::A(1), taken);
    world.release_component(e, KA, Comp::A(5)).unwrap();
    assert_eq!(Some(5), get_a(&world, e));
    let ids = world.query(&Query::new().with(KA)).unwrap();
    assert_eq!(1, ids.len());
    assert_eq!(Some(5), get_a(&world, ids[0]));
}

#[test]
fn overlapping_borrows_fault() {
    let mut world: World<Comp> = World::new();
    world.register(KA);
    let e = world.new_entity();
    world.add_component(e, KA, Comp::A(1)).unwrap();

    let taken = world.get_component_mut(e, KA).unwrap().unwrap();
    // While the exclusive borrow is outstanding, every other access to the
    // same (entity, type) pair is the fatal aliasing error, never stale data.
    assert_eq!(Err(AccessError::Borrowed), world.get_component(e, KA));
    assert_eq!(Err(AccessError::Borrowed), world.get_component_mut(e, KA));
    assert_eq!(
        Err(AccessError::Borrowed),
        world.query(&Query::new().with(KA))
    );
    assert_eq!(Err(AccessError::Borrowed), world.remove_component(e, KA));
    assert_eq!(Err(AccessError::Borrowed), world.remove_entity(e));

    world.release_component(e, KA, taken).unwrap();
    assert_eq!(Some(1), get_a(&world, e));
}

#[test]
fn query_short_circuits_before_conflict() {
    let mut world: World<Comp> = World::new();
    world.register(KA);
    world.register(KB);
    let e = world.new_entity();
    world.add_component(e, KB, Comp::B(1)).unwrap();
    let taken = world.get_component_mut(e, KB).unwrap().unwrap();

    // Probing KA first: absent, so the entity is skipped and the
    // borrowed-out KB cell is never reached.
    assert_eq!(Ok(Vec::new()), world.query(&Query::new().with(KA).with(KB)));
    // Probing KB first hits the outstanding exclusive borrow.
    assert_eq!(
        Err(AccessError::Borrowed),
        world.query(&Query::new().with(KB).with(KA))
    );

    world.release_component(e, KB, taken).unwrap();
}

#[test]
fn query_single_stops_at_first_match() {
    let mut world: World<Comp> = World::new();
    world.register(KA);
    let e0 = world.new_entity();
    world.add_component(e0, KA, Comp::A(0)).unwrap();
    let e1 = world.new_entity();
    world.add_component(e1, KA, Comp::A(1)).unwrap();

    let taken = world.get_component_mut(e1, KA).unwrap().unwrap();
    // The lazy scan ends at the first match, so the conflict on the later
    // entity goes unseen; the full scan reports it.
    assert_eq!(Ok(Some(e0)), world.query_single(&Query::new().with(KA)));
    assert_eq!(
        Err(AccessError::Borrowed),
        world.query(&Query::new().with(KA))
    );
    world.release_component(e1, KA, taken).unwrap();
}

#[test]
fn unregistered_component_is_fatal() {
    let mut world: World<Comp> = World::new();
    let e = world.new_entity();
    assert_eq!(
        Err(AccessError::NotRegistered),
        world.add_component(e, KA, Comp::A(1))
    );
    assert_eq!(Err(AccessError::NotRegistered), world.remove_component(e, KA));
    // Lookups collapse the unregistered case to plain absence.
    assert_eq!(Ok(None), world.get_component(e, KA));
    let b = EntityBuilder::new().with(KA, Comp::A(1)).build(&mut world);
    assert_eq!(Err(AccessError::NotRegistered), b);
    // The rejected build created nothing.
    assert_eq!(1, world.query(&Query::new()).unwrap().len());
}

#[test]
fn stale_attach_is_rejected() {
    let mut world: World<Comp> = World::new();
    world.register(KA);
    let e = world.new_entity();
    world.remove_entity(e).unwrap();
    assert_eq!(
        Err(AccessError::NoSuchEntity),
        world.add_component(e, KA, Comp::A(1))
    );
}

#[test]
fn release_without_borrow_is_fatal() {
    let mut world: World<Comp> = World::new();
    world.register(KA);
    let e = world.new_entity();
    world.add_component(e, KA, Comp::A(1)).unwrap();
    assert_eq!(
        Err(AccessError::NotBorrowed),
        world.release_component(e, KA, Comp::A(2))
    );
    assert_eq!(Err(AccessError::NotBorrowed), world.put_resource(RES, Comp::A(2)));
    // The stray release did not disturb the stored value.
    assert_eq!(Some(1), get_a(&world, e));
}

#[test]
fn resource_borrow_guard() {
    let mut world: World<Comp> = World::new();
    world.add_resource(RES, Comp::A(1)).unwrap();
    let taken = world.get_resource_mut(RES).unwrap().unwrap();
    assert_eq!(Err(AccessError::Borrowed), world.get_resource(RES));
    assert_eq!(Err(AccessError::Borrowed), world.get_resource_mut(RES));
    assert_eq!(Err(AccessError::Borrowed), world.add_resource(RES, Comp::A(9)));
    world.put_resource(RES, taken).unwrap();
    assert_eq!(Some(&Comp::A(1)), world.get_resource(RES).unwrap());
}

#[test]
fn reregistration_discards_values() {
    let mut world: World<Comp> = World::new();
    world.register(KA);
    let e = world.new_entity();
    world.add_component(e, KA, Comp::A(1)).unwrap();
    world.register(KA);
    assert!(world.contains_storage(KA));
    assert_eq!(None, get_a(&world, e));
}

#[derive(Debug, PartialEq, Clone, Copy)]
struct Val(i32);

impl Component for Val {}

#[test]
fn storage_rejects_stale_generation() {
    let mut storage: ComponentStorage<Val> = ComponentStorage::new();
    let old_id = EntityId { index: 0, generation: 0 };
    let new_id = EntityId { index: 0, generation: 1 };
    assert_eq!(Ok(None), storage.insert(old_id, Val(7)));
    assert!(storage.contains(old_id));
    assert_eq!(Ok(None), storage.get(new_id));
    // Writing under the newer generation replaces the stale cell outright.
    assert_eq!(Ok(None), storage.insert(new_id, Val(8)));
    assert_eq!(Ok(None), storage.get(old_id));
    assert_eq!(Ok(Some(&Val(8))), storage.get(new_id));
    assert_eq!(Ok(Some(Val(8))), storage.remove(new_id));
    assert!(!storage.contains(new_id));
}

#[test]
fn storage_guard_cycle() {
    let mut storage: ComponentStorage<Val> = ComponentStorage::new();
    let id = EntityId { index: 3, generation: 0 };
    assert_eq!(Ok(None), storage.insert(id, Val(1)));
    assert_eq!(Ok(Some(Val(1))), storage.get_mut(id));
    assert_eq!(Err(AccessError::Borrowed), storage.get(id));
    assert_eq!(Err(AccessError::Borrowed), storage.get_mut(id));
    assert_eq!(Ok(()), storage.put_back(id, Val(2)));
    assert_eq!(Ok(Some(&Val(2))), storage.get(id));
    assert_eq!(Err(AccessError::NotBorrowed), storage.put_back(id, Val(3)));
}

#[test]
fn component_array_resize_and_unset() {
    let mut cells: Vec<Option<i32>> = vec![Some(1), Some(2)];
    cells.resize_with_none(4);
    assert_eq!(vec![Some(1), Some(2), None, None], cells);
    cells.unset(0);
    assert_eq!(vec![None, Some(2), None, None], cells);
    cells.resize_with_none(1);
    assert_eq!(vec![None], cells);
}

fn is_present(cell: Option<&CellState<Val>>) -> bool {
    match cell {
        Some(CellState::Present(_)) => true,
        _ => false,
    }
}

#[test]
fn storage_cells_track_guard_state() {
    let mut storage: ComponentStorage<Val> = ComponentStorage::new();
    let id = EntityId { index: 0, generation: 0 };
    storage.insert(id, Val(5)).unwrap();
    assert!(is_present(match &storage.cells[0] {
        Some(c) => Some(&c.state),
        None => None,
    }));
    storage.get_mut(id).unwrap();
    assert!(!is_present(match &storage.cells[0] {
        Some(c) => Some(&c.state),
        None => None,
    }));
}
