//! The scheduler: an ordered list of startup units and an ordered list of
//! per-cycle units. There is no dependency graph and no parallelism:
//! registration order is the schedule, by design, so ordering is fully
//! deterministic and auditable.

use vstd::prelude::*;

use crate::component::Component;
use crate::system::StartUpSystem;
use crate::system::System;
use crate::world::World;

verus! {

/// Holds the registered logic units, each list in registration order.
pub struct Scheduler<U, S> {
    pub startup_systems: Vec<U>,
    pub systems: Vec<S>,
}

impl<U, S> Scheduler<U, S> {
    /// A scheduler with no units registered.
    pub fn new() -> (s: Self)
        ensures
            s.startup_systems@ == Seq::<U>::empty(),
            s.systems@ == Seq::<S>::empty(),
    {
        let startup_systems = Vec::new();
        let systems = Vec::new();
        proof {
            assert(startup_systems@ =~= Seq::<U>::empty());
            assert(systems@ =~= Seq::<S>::empty());
        }
        Scheduler { startup_systems, systems }
    }

    /// Registers a startup unit. Units registered first run first.
    pub fn add_startup_system(&mut self, startup_system: U)
        ensures
            final(self).startup_systems@ == old(self).startup_systems@.push(startup_system),
            final(self).systems@ == old(self).systems@,
    {
        self.startup_systems.push(startup_system);
    }

    /// Registers a per-cycle unit. Units registered first run first.
    pub fn add_system(&mut self, system: S)
        ensures
            final(self).systems@ == old(self).systems@.push(system),
            final(self).startup_systems@ == old(self).startup_systems@,
    {
        self.systems.push(system);
    }

    /// Runs every startup unit once, strictly in registration order, each
    /// against exclusive access to the world.
    pub fn run_startup_systems<C: Component>(&self, world: &mut World<C>) where
        U: StartUpSystem<C>,

        requires
            old(world)@.wf(),
        ensures
            final(world)@.wf(),
    {
        let n = self.startup_systems.len();
        let mut i: usize = 0;
        while i < n
            invariant
                0 <= i <= n,
                n == self.startup_systems@.len(),
                world@.wf(),
            decreases n - i,
        {
            let u = &self.startup_systems[i];
            u.run(world);
            i = i + 1;
        }
    }

    /// Runs every per-cycle unit once, strictly in registration order, each
    /// against exclusive access to the world.
    pub fn run_systems<C: Component>(&self, world: &mut World<C>) where S: System<C>
        requires
            old(world)@.wf(),
        ensures
            final(world)@.wf(),
    {
        let n = self.systems.len();
        let mut i: usize = 0;
        while i < n
            invariant
                0 <= i <= n,
                n == self.systems@.len(),
                world@.wf(),
            decreases n - i,
        {
            let s = &self.systems[i];
            s.run(world);
            i = i + 1;
        }
    }
}

} // verus!
