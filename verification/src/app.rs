//! The driver: a world and a scheduler, and the loop that runs them.
//!
//! `run` executes every startup unit once, in registration order, then
//! cycles: every per-cycle unit in order, then a drain of the command
//! queue, then the check of the world's active flag. Shutdown is
//! cooperative and observed only at that cycle boundary, so a cycle always
//! runs to completion, drain included, even when shutdown was requested
//! partway through it.

use vstd::prelude::*;

use crate::component::AccessError;
use crate::component::Component;
use crate::scheduler::Scheduler;
use crate::system::StartUpSystem;
use crate::system::System;
use crate::world::World;
use crate::world::WorldM;

verus! {

/// The application: the world and the scheduler that drives it.
pub struct App<C: Component, U, S> {
    pub world: World<C>,
    pub scheduler: Scheduler<U, S>,
}

impl<C: Component, U: StartUpSystem<C>, S: System<C>> App<C, U, S> {
    /// A fresh application: an empty, active world and an empty schedule.
    pub fn new() -> (a: Self)
        ensures
            a.world@ == WorldM::<C>::spec_init(),
            a.world@.wf(),
            a.scheduler.startup_systems@ == Seq::<U>::empty(),
            a.scheduler.systems@ == Seq::<S>::empty(),
    {
        App { world: World::new(), scheduler: Scheduler::new() }
    }

    /// Registers a startup unit. Units registered first run first.
    pub fn add_startup_system(&mut self, startup_system: U)
        ensures
            final(self).world == old(self).world,
            final(self).scheduler.startup_systems@ == old(
                self,
            ).scheduler.startup_systems@.push(startup_system),
            final(self).scheduler.systems@ == old(self).scheduler.systems@,
    {
        self.scheduler.add_startup_system(startup_system);
    }

    /// Registers a per-cycle unit. Units registered first run first.
    pub fn add_system(&mut self, system: S)
        ensures
            final(self).world == old(self).world,
            final(self).scheduler.systems@ == old(self).scheduler.systems@.push(system),
            final(self).scheduler.startup_systems@ == old(self).scheduler.startup_systems@,
    {
        self.scheduler.add_system(system);
    }

    /// Drains the world's command queue: takes the whole queue, leaving an
    /// empty one (intents recorded during the drain run next cycle), and
    /// applies its intents in order, exactly once each.
    fn run_commands(&mut self) -> (r: Result<(), AccessError>)
        requires
            old(self).world@.wf(),
        ensures
            (final(self).world@, r) == old(self).world@.spec_drain(),
            final(self).world@.wf(),
            final(self).scheduler == old(self).scheduler,
    {
        let mut queue = self.world.take_commands();
        queue.run_commands(&mut self.world)
    }

    /// One full cycle: every per-cycle unit in order, then the command
    /// drain. Returns whether the world is still active afterwards; the
    /// active flag is observed only here, at the cycle boundary, so a cycle
    /// always runs to completion, drain included. Fails, stopping the
    /// drain, when a drained intent reports a fatal usage error.
    pub fn run_cycle(&mut self) -> (r: Result<bool, AccessError>)
        requires
            old(self).world@.wf(),
        ensures
            final(self).world@.wf(),
            r matches Ok(cont) ==> cont == final(self).world@.active,
    {
        self.scheduler.run_systems(&mut self.world);
        let drained = self.run_commands();
        if let Err(er) = drained {
            return Err(er);
        }
        Ok(self.world.active())
    }

    /// Drives the application: every startup unit once, in order, then
    /// repeated cycles while the world remains active, up to `max_cycles`
    /// of them. Returns `Ok(true)` when the loop ended because the world
    /// shut down, `Ok(false)` when the cycle budget ran out first, and the
    /// error when a drained intent reported a fatal usage error. A host
    /// that wants an unbounded loop drives `run_cycle` itself.
    pub fn run(&mut self, max_cycles: u64) -> (r: Result<bool, AccessError>)
        requires
            old(self).world@.wf(),
        ensures
            final(self).world@.wf(),
            r == Ok::<bool, AccessError>(true) ==> !final(self).world@.active,
    {
        self.scheduler.run_startup_systems(&mut self.world);
        let mut left = max_cycles;
        while left > 0
            invariant
                self.world@.wf(),
            decreases left,
        {
            if !self.world.active() {
                return Ok(true);
            }
            let cycle = self.run_cycle();
            if let Err(er) = cycle {
                return Err(er);
            }
            left = left - 1;
        }
        if !self.world.active() {
            return Ok(true);
        }
        Ok(false)
    }
}

} // verus!
