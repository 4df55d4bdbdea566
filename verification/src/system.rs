//! The logic-unit boundary: the only contract between the core and
//! host-supplied behaviour. A unit is called with exclusive access to the
//! `World` and may do anything the `World`'s public operations allow; the
//! one obligation is that the world it hands back is well formed, which
//! every public `World` operation preserves.

use vstd::prelude::*;

use crate::component::Component;
use crate::world::World;

verus! {

/// A startup logic unit: run once, in registration order, before any
/// per-cycle unit.
pub trait StartUpSystem<C: Component> {
    /// One execution of the unit against the world.
    fn run(&self, world: &mut World<C>)
        requires
            old(world)@.wf(),
        ensures
            final(world)@.wf(),
    ;
}

/// A per-cycle logic unit: run once per cycle, in registration order.
pub trait System<C: Component> {
    /// One execution of the unit against the world.
    fn run(&self, world: &mut World<C>)
        requires
            old(world)@.wf(),
        ensures
            final(world)@.wf(),
    ;
}

} // verus!
