//! A builder that collects an entity's initial components before the entity
//! is created. `build` hands the collected list to the `World`, which
//! allocates the identity and attaches every component in order before the
//! identity is yielded.

use vstd::prelude::*;

use crate::allocator::EntityId;
use crate::component::AccessError;
use crate::component::Component;
use crate::world::World;

verus! {

/// An entity under construction: the components it will carry, in the order
/// they will be attached.
pub struct EntityBuilder<C: Component> {
    pub components: Vec<(u64, C)>,
}

impl<C: Component> EntityBuilder<C> {
    /// A builder with no components yet.
    pub fn new() -> (b: Self)
        ensures
            b.components@ == Seq::<(u64, C)>::empty(),
    {
        let components = Vec::new();
        proof {
            assert(components@ =~= Seq::<(u64, C)>::empty());
        }
        EntityBuilder { components }
    }

    /// This builder with one more component to attach, under `key`.
    pub fn with(self, key: u64, value: C) -> (b: Self)
        ensures
            b.components@ == self.components@.push((key, value)),
    {
        let mut components = self.components;
        components.push((key, value));
        EntityBuilder { components }
    }

    /// Creates the entity: a fresh identity carrying the collected
    /// components, attached in order. Rejected with `NotRegistered`,
    /// creating nothing, unless every collected key has a registered store.
    pub fn build(self, world: &mut World<C>) -> (r: Result<EntityId, AccessError>)
        requires
            old(world)@.wf(),
        ensures
            final(world)@ == old(world)@.spec_spawn(self.components@).0,
            r == old(world)@.spec_spawn(self.components@).1,
            final(world)@.wf(),
            r matches Ok(e) ==> !old(world)@.live(e) && final(world)@.live(e),
    {
        world.spawn(self.components)
    }
}

} // verus!
