use ecs_core::allocator::EntityId;
use ecs_core::entity_builder::EntityBuilder;
use ecs_core::component::Component;
use ecs_core::query::Query;
use ecs_core::world::World;

#[derive(Debug, PartialEq, Clone, Copy)]
struct Position {
    x: i32,
    y: i32,
}

#[derive(Debug, PartialEq, Clone)]
enum Comp {
    Int(i32),
    Flt(f32),
    Pos(Position),
    Player,
}

impl Component for Comp {}

const INT: u64 = 0;
const FLT: u64 = 1;
const POS: u64 = 2;
const PLAYER: u64 = 3;
const RES_INT: u64 = 10;
const RES_POS: u64 = 11;

fn get_int(w: &World<Comp>, e: EntityId) -> Option<i32> {
    match w.get_component(e, INT) {
        Ok(Some(Comp::Int(v))) => Some(*v),
        Ok(_) => None,
        Err(err) => panic!("aliasing violation: {:?}", err),
    }
}

fn get_pos(w: &World<Comp>, e: EntityId) -> Option<Position> {
    match w.get_component(e, POS) {
        Ok(Some(Comp::Pos(p))) => Some(*p),
        Ok(_) => None,
        Err(err) => panic!("aliasing violation: {:?}", err),
    }
}

fn bump_pos(w: &mut World<Comp>, e: EntityId, dx: i32, dy: i32) {
    let taken = w.get_component_mut(e, POS).unwrap().unwrap();
    let next = match taken {
        Comp::Pos(p) => Comp::Pos(Position { x: p.x + dx, y: p.y + dy }),
        other => other,
    };
    w.release_component(e, POS, next).unwrap();
}

#[test]
fn basic_operations() {
    let mut world: World<Comp> = World::new();

    world.register(INT);
    world.register(POS);

    let e1 = EntityBuilder::new()
        .with(POS, Comp::Pos(Position { x: 100, y: 100 }))
        .with(INT, Comp::Int(50))
        .build(&mut world)
        .unwrap();
    let e2 = EntityBuilder::new().with(INT, Comp::Int(20)).build(&mut world).unwrap();

    bump_pos(&mut world, e1, 10, 0);

    assert_eq!(Some(Position { x: 110, y: 100 }), get_pos(&world, e1));
    assert_eq!(Some(20), get_int(&world, e2));
    assert_eq!(None, get_pos(&world, e2));

    assert_eq!(Some(Comp::Int(50)), world.remove_component(e1, INT).unwrap());
    assert_eq!(None, get_int(&world, e1));

    world.remove_entity(e1).unwrap();
    assert_eq!(None, get_pos(&world, e1));
}

#[test]
fn multi_mut_borrow() {
    let mut world: World<Comp> = World::new();

    world.register(INT);
    world.register(POS);

    let id = EntityBuilder::new()
        .with(INT, Comp::Int(0))
        .with(POS, Comp::Pos(Position { x: 0, y: 0 }))
        .build(&mut world)
        .unwrap();

    // Exclusive borrows of two different types of the same entity overlap
    // freely: borrows of different (entity, type) pairs never interact.
    let value1 = world.get_component_mut(id, INT).unwrap().unwrap();
    let value2 = world.get_component_mut(id, POS).unwrap().unwrap();
    assert_eq!(Comp::Int(0), value1);
    assert_eq!(Comp::Pos(Position { x: 0, y: 0 }), value2);

    world.release_component(id, INT, Comp::Int(1)).unwrap();
    world.release_component(id, POS, Comp::Pos(Position { x: 1, y: 0 })).unwrap();

    assert_eq!(Some(1), get_int(&world, id));
    assert_eq!(Some(Position { x: 1, y: 0 }), get_pos(&world, id));
}

#[test]
fn queries1() {
    let mut world: World<Comp> = World::new();

    world.register(INT);
    world.register(POS);

    for i in 0..50 {
        let _ = EntityBuilder::new()
            .with(INT, Comp::Int(i))
            .with(POS, Comp::Pos(Position { x: i, y: i }))
            .build(&mut world)
            .unwrap();
    }

    let q1 = Query::new().with(INT).with(POS);
    let ids = world.query(&q1).unwrap();

    assert_eq!(50, ids.len());
    for (i, e) in ids.iter().enumerate() {
        assert_eq!(Some(i as i32), get_int(&world, *e));
        assert_eq!(
            Some(Position {
                x: i as i32,
                y: i as i32
            }),
            get_pos(&world, *e)
        );
    }
}

#[test]
fn queries2() {
    let mut world: World<Comp> = World::new();

    world.register(INT);
    world.register(FLT);
    world.register(POS);

    for i in 0..50 {
        let _ = EntityBuilder::new()
            .with(INT, Comp::Int(i))
            .with(POS, Comp::Pos(Position { x: i, y: i }))
            .build(&mut world)
            .unwrap();

        let _ = EntityBuilder::new()
            .with(FLT, Comp::Flt(i as f32))
            .with(POS, Comp::Pos(Position { x: i, y: i }))
            .build(&mut world)
            .unwrap();
    }

    let q2 = world.query_mut(&Query::new().with(INT).with(POS)).unwrap();
    for e in q2.iter() {
        let num = get_int(&world, *e).unwrap();
        if num % 2 == 0 {
            bump_pos(&mut world, *e, 1, -1);
        }
    }

    let q2 = world.query(&Query::new().with(INT).with(POS)).unwrap();
    for (i, e) in q2.iter().enumerate() {
        let num = get_int(&world, *e).unwrap();
        let expected_pos = {
            if num % 2 == 0 {
                Position {
                    x: i as i32 + 1,
                    y: i as i32 - 1,
                }
            } else {
                Position {
                    x: i as i32,
                    y: i as i32,
                }
            }
        };
        assert_eq!(i as i32, num);
        assert_eq!(expected_pos, get_pos(&world, *e).unwrap());
    }

    // Both joins can be run and walked together: materialised results of
    // different queries never contend.
    let q1 = world.query(&Query::new().with(INT).with(POS)).unwrap();
    let q2 = world.query_mut(&Query::new().with(FLT).with(POS)).unwrap();

    for _ in q1.iter().zip(q2.iter()) {}
}

#[test]
fn resources() {
    let mut world: World<Comp> = World::new();

    assert_eq!(None, world.add_resource(RES_INT, Comp::Int(0)).unwrap());
    assert_eq!(
        Some(Comp::Int(0)),
        world.add_resource(RES_INT, Comp::Int(0)).unwrap()
    );

    {
        let counter = world.get_resource_mut(RES_INT).unwrap().unwrap();
        let next = match counter {
            Comp::Int(v) => Comp::Int(v + 1),
            other => other,
        };
        world.put_resource(RES_INT, next).unwrap();
    }

    assert_eq!(
        Some(&Comp::Int(1)),
        world.get_resource(RES_INT).unwrap()
    );
    assert_eq!(
        Some(Comp::Int(1)),
        world.add_resource(RES_INT, Comp::Int(10)).unwrap()
    );
    assert_eq!(None, world.get_resource(RES_POS).unwrap());
}

#[test]
fn rand_test() {
    let mut world: World<Comp> = World::new();

    world.register(POS);
    world.register(PLAYER);

    let _ = EntityBuilder::new()
        .with(POS, Comp::Pos(Position { x: 0, y: 0 }))
        .with(PLAYER, Comp::Player)
        .build(&mut world)
        .unwrap();
    let _ = (0..10).map(|_| world.new_entity()).collect::<Vec<_>>();

    let positions = world.query_mut(&Query::new().with(POS)).unwrap();

    for e in positions.iter() {
        bump_pos(&mut world, *e, 1, 0);
    }

    {
        let e = world
            .query_single_mut(&Query::new().with(PLAYER).with(POS))
            .unwrap()
            .unwrap();
        bump_pos(&mut world, e, 1, 0);
    }

    let e = world
        .query_single(&Query::new().with(PLAYER).with(POS))
        .unwrap()
        .unwrap();

    assert_eq!(Some(Position { x: 2, y: 0 }), get_pos(&world, e));
}

#[test]
fn id_as_component() {
    let mut world: World<Comp> = World::new();

    let e1 = world.new_entity();
    let e2 = world.new_entity();
    let e3 = world.new_entity();

    {
        let ids = world.query(&Query::new()).unwrap();

        assert!(ids.iter().position(|cell| *cell == e1).is_some());
        assert!(ids.iter().position(|cell| *cell == e2).is_some());
        assert!(ids.iter().position(|cell| *cell == e3).is_some());
    }

    world.remove_entity(e1).unwrap();

    {
        let ids = world.query(&Query::new()).unwrap();
        assert!(ids.iter().position(|cell| *cell == e1).is_none());
        assert_eq!(Ok(false), world.get_components(e1, &Query::new()));
        assert!(ids.iter().position(|cell| *cell == e2).is_some());
        assert!(ids.iter().position(|cell| *cell == e3).is_some());
    }
}
