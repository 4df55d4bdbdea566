use ecs_core::allocator::EntityId;
use ecs_core::app::App;
use ecs_core::commands::Command;
use ecs_core::component::AccessError;
use ecs_core::component::Component;
use ecs_core::query::Query;
use ecs_core::system::StartUpSystem;
use ecs_core::system::System;
use ecs_core::world::World;

#[derive(Debug, PartialEq, Clone)]
enum Comp {
    A(i32),
    Log(Vec<i32>),
}

impl Component for Comp {}

const KA: u64 = 1;
const LOG: u64 = 50;
const UNREGISTERED: u64 = 99;

fn get_a(w: &World<Comp>, e: EntityId) -> Option<i32> {
    match w.get_component(e, KA) {
        Ok(Some(Comp::A(v))) => Some(*v),
        Ok(_) => None,
        Err(err) => panic!("aliasing violation: {:?}", err),
    }
}

fn append_log(world: &mut World<Comp>, tag: i32) {
    let taken = world.get_resource_mut(LOG).unwrap().unwrap();
    let next = match taken {
        Comp::Log(mut entries) => {
            entries.push(tag);
            Comp::Log(entries)
        },
        other => other,
    };
    world.put_resource(LOG, next).unwrap();
}

fn read_log(world: &World<Comp>) -> Vec<i32> {
    match world.get_resource(LOG).unwrap().unwrap() {
        Comp::Log(entries) => entries.clone(),
        other => panic!("unexpected resource: {:?}", other),
    }
}

#[derive(Debug)]
enum Startup {
    S1,
    S2,
    S3,
}

impl StartUpSystem<Comp> for Startup {
    fn run(&self, world: &mut World<Comp>) {
        match self {
            Startup::S1 => append_log(world, 1),
            Startup::S2 => append_log(world, 2),
            Startup::S3 => append_log(world, 3),
        }
    }
}

#[derive(Debug)]
enum Cycle {
    T1,
    T2,
}

impl System<Comp> for Cycle {
    fn run(&self, world: &mut World<Comp>) {
        match self {
            Cycle::T1 => {
                append_log(world, 11);
                let runs = read_log(world).iter().filter(|t| **t == 11).count();
                if runs == 2 {
                    // Shutdown requested partway through the cycle: the rest
                    // of the cycle, drain included, must still run.
                    world.shutdown();
                }
            },
            Cycle::T2 => append_log(world, 12),
        }
    }
}

#[test]
fn startup_then_cycles_in_order() {
    let mut app: App<Comp, Startup, Cycle> = App::new();
    app.world.add_resource(LOG, Comp::Log(Vec::new())).unwrap();
    app.add_startup_system(Startup::S1);
    app.add_startup_system(Startup::S2);
    app.add_startup_system(Startup::S3);
    app.add_system(Cycle::T1);
    app.add_system(Cycle::T2);

    let outcome = app.run(10).unwrap();
    assert!(outcome);
    assert!(!app.world.active());

    // Startup units ran once, in order; then whole cycles in order; the
    // cycle that requested shutdown still completed.
    assert_eq!(vec![1, 2, 3, 11, 12, 11, 12], read_log(&app.world));
}

#[test]
fn run_out_of_cycles_leaves_world_active() {
    let mut app: App<Comp, Startup, Cycle> = App::new();
    app.world.add_resource(LOG, Comp::Log(Vec::new())).unwrap();
    app.add_system(Cycle::T2);
    let outcome = app.run(3).unwrap();
    assert!(!outcome);
    assert!(app.world.active());
    assert_eq!(vec![12, 12, 12], read_log(&app.world));
}

#[test]
fn command_visible_only_after_drain() {
    let mut world: World<Comp> = World::new();
    world.register(KA);
    let e = world.new_entity();

    world.add_command(Command::Attach(e, KA, Comp::A(5)));

    // Enqueued, not applied: no visible effect on the world.
    assert_eq!(None, get_a(&world, e));
    assert_eq!(1, world.get_commands().queue.len());

    let mut queue = world.take_commands();
    queue.run_commands(&mut world).unwrap();

    // Applied exactly once by the drain.
    assert_eq!(Some(5), get_a(&world, e));
    assert_eq!(0, world.get_commands().queue.len());

    // A second drain finds an empty queue and changes nothing.
    let mut queue = world.take_commands();
    queue.run_commands(&mut world).unwrap();
    assert_eq!(Some(5), get_a(&world, e));
}

#[test]
fn command_variants_apply_in_order() {
    let mut world: World<Comp> = World::new();
    world.register(KA);
    let e = world.new_entity();
    world.add_component(e, KA, Comp::A(1)).unwrap();

    world.add_command(Command::Spawn(vec![(KA, Comp::A(2))]));
    world.add_command(Command::Detach(e, KA));
    world.add_command(Command::AddResource(LOG, Comp::Log(vec![7])));
    world.add_command(Command::Despawn(e));
    world.add_command(Command::Shutdown);

    assert!(world.active());
    let mut queue = world.take_commands();
    queue.run_commands(&mut world).unwrap();

    assert!(!world.active());
    assert_eq!(vec![7], read_log(&world));
    assert_eq!(None, get_a(&world, e));
    assert_eq!(Ok(false), world.get_components(e, &Query::new()));
    let survivors = world.query(&Query::new().with(KA)).unwrap();
    assert_eq!(1, survivors.len());
    assert_eq!(Some(2), get_a(&world, survivors[0]));
}

#[test]
fn drain_stops_at_fatal_error() {
    let mut world: World<Comp> = World::new();
    world.register(KA);
    let e = world.new_entity();

    world.add_command(Command::Attach(e, KA, Comp::A(1)));
    world.add_command(Command::Attach(e, UNREGISTERED, Comp::A(2)));
    world.add_command(Command::Attach(e, KA, Comp::A(3)));

    let mut queue = world.take_commands();
    assert_eq!(
        Err(AccessError::NotRegistered),
        queue.run_commands(&mut world)
    );

    // The prefix before the fault was applied; the rest was discarded.
    assert_eq!(Some(1), get_a(&world, e));
    assert_eq!(0, queue.queue.len());
}

#[derive(Debug)]
enum Spawner {
    Once,
}

impl System<Comp> for Spawner {
    fn run(&self, world: &mut World<Comp>) {
        let already = world.query(&Query::new().with(KA)).unwrap().len();
        if already == 0 {
            // Request the structural change; it must not land mid-cycle.
            world.add_command(Command::Spawn(vec![(KA, Comp::A(8))]));
            assert_eq!(0, world.query(&Query::new().with(KA)).unwrap().len());
        } else {
            world.shutdown();
        }
    }
}

impl StartUpSystem<Comp> for Spawner {
    fn run(&self, _world: &mut World<Comp>) {}
}

#[test]
fn mid_cycle_spawn_lands_at_drain() {
    let mut app: App<Comp, Spawner, Spawner> = App::new();
    app.world.register(KA);
    app.add_system(Spawner::Once);

    // First cycle: the spawn is only enqueued; the drain then applies it.
    let cont = app.run_cycle().unwrap();
    assert!(cont);
    let ids = app.world.query(&Query::new().with(KA)).unwrap();
    assert_eq!(1, ids.len());
    assert_eq!(Some(8), get_a(&app.world, ids[0]));

    // Second cycle: the system sees the spawned entity and shuts down.
    let cont = app.run_cycle().unwrap();
    assert!(!cont);
}
