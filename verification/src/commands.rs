//! Deferred mutation intents and the queue that holds them.
//!
//! A `Command` is a captured structural change, recorded while code holds
//! only the access level of the query phase and applied later against
//! exclusive access to the `World`. Intents are tagged variants rather than
//! opaque callables, so replay is deterministic and auditable. The queue is
//! drained at a defined point per cycle: the driver takes the whole queue
//! (leaving an empty one, so intents recorded during the drain run next
//! cycle) and applies each intent in insertion order, exactly once.

use vstd::prelude::*;

use crate::allocator::EntityId;
use crate::allocator::slot_live;
use crate::component::AccessError;
use crate::component::Component;
use crate::world::World;
use crate::world::WorldM;

verus! {

/// A deferred mutation intent against the `World`.
pub enum Command<C> {
    /// Create an entity carrying the given components, in order.
    Spawn(Vec<(u64, C)>),
    /// Attach a component value to an entity.
    Attach(EntityId, u64, C),
    /// Detach a component from an entity.
    Detach(EntityId, u64),
    /// Remove an entity and every component attached to it.
    Despawn(EntityId),
    /// Insert or replace the singleton resource under a key.
    AddResource(u64, C),
    /// Clear the world's active flag, ending the driver loop.
    Shutdown,
}

/// An ordered queue of deferred mutation intents.
pub struct Commands<C> {
    pub queue: Vec<Command<C>>,
}

impl<C: Component> Commands<C> {
    /// An empty queue.
    pub fn new() -> (c: Self)
        ensures
            c.queue@ == Seq::<Command<C>>::empty(),
    {
        let queue = Vec::new();
        proof {
            assert(queue@ =~= Seq::<Command<C>>::empty());
        }
        Commands { queue }
    }

    /// Appends an intent to the queue. Nothing becomes visible in any
    /// `World` until the queue is drained.
    pub fn add_command(&mut self, command: Command<C>)
        ensures
            final(self).queue@ == old(self).queue@.push(command),
    {
        self.queue.push(command);
    }

    /// Applies every queued intent to `world`, in insertion order, exactly
    /// once, leaving this queue empty. Application stops at the first
    /// intent that reports a fatal usage error, discarding the rest: the
    /// world is then exactly the fold of the applied prefix.
    pub fn run_commands(&mut self, world: &mut World<C>) -> (r: Result<(), AccessError>)
        requires
            old(world)@.wf(),
        ensures
            final(world)@ == old(world)@.spec_apply_all(old(self).queue@).0,
            r == old(world)@.spec_apply_all(old(self).queue@).1,
            final(world)@.wf(),
            final(self).queue@ == Seq::<Command<C>>::empty(),
    {
        let ghost q0 = self.queue@;
        let ghost w0 = world@;
        while self.queue.len() > 0
            invariant
                w0 == old(world)@,
                q0 == old(self).queue@,
                world@.wf(),
                w0.spec_apply_all(q0) == world@.spec_apply_all(self.queue@),
            decreases self.queue@.len(),
        {
            let ghost qcur = self.queue@;
            let c = self.queue.remove(0);
            proof {
                assert(c == qcur[0]);
                assert(self.queue@ =~= qcur.drop_first());
            }
            let ghost wcur = world@;
            let rr = apply_command(world, c);
            if let Err(er) = rr {
                self.queue.clear();
                proof {
                    assert(wcur.spec_apply_all(qcur) == (world@, Err::<(), AccessError>(er)));
                }
                return Err(er);
            }
        }
        proof {
            assert(world@.spec_apply_all(self.queue@) == (world@, Ok::<(), AccessError>(())));
        }
        Ok(())
    }
}

/// Applies one intent to `world`: each variant is exactly the corresponding
/// direct `World` operation, its returned value discarded and its error kept.
fn apply_command<C: Component>(world: &mut World<C>, c: Command<C>) -> (r: Result<
    (),
    AccessError,
>)
    requires
        old(world)@.wf(),
    ensures
        final(world)@ == old(world)@.spec_apply(c).0,
        r == old(world)@.spec_apply(c).1,
        final(world)@.wf(),
{
    match c {
        Command::Spawn(comps) => match world.spawn(comps) {
            Ok(_) => Ok(()),
            Err(er) => Err(er),
        },
        Command::Attach(e, key, v) => match world.add_component(e, key, v) {
            Ok(_) => Ok(()),
            Err(er) => Err(er),
        },
        Command::Detach(e, key) => match world.remove_component(e, key) {
            Ok(_) => Ok(()),
            Err(er) => Err(er),
        },
        Command::Despawn(e) => world.remove_entity(e),
        Command::AddResource(key, v) => match world.add_resource(key, v) {
            Ok(_) => Ok(()),
            Err(er) => Err(er),
        },
        Command::Shutdown => {
            world.shutdown();
            Ok(())
        },
    }
}

impl<C: Component> WorldM<C> {
    /// Whether every key in `comps` has a registered store.
    pub open spec fn all_keys_registered(self, comps: Seq<(u64, C)>) -> bool {
        forall|i: int| 0 <= i < comps.len() ==> self.registered((#[trigger] comps[i]).0)
    }

    /// Attaching a list of components to `e`, first to last.
    pub open spec fn spec_attach_all(self, e: EntityId, comps: Seq<(u64, C)>) -> WorldM<C>
        decreases comps.len(),
    {
        if comps.len() == 0 {
            self
        } else {
            self.spec_add_component(e, comps[0].0, comps[0].1).0.spec_attach_all(
                e,
                comps.drop_first(),
            )
        }
    }

    /// Spawning: rejected, changing nothing, unless every key is
    /// registered; otherwise a fresh entity is allocated and the components
    /// attached in order.
    pub open spec fn spec_spawn(self, comps: Seq<(u64, C)>) -> (
        WorldM<C>,
        Result<EntityId, AccessError>,
    ) {
        if !self.all_keys_registered(comps) {
            (self, Err(AccessError::NotRegistered))
        } else {
            let (m1, e) = self.spec_new_entity();
            (m1.spec_attach_all(e, comps), Ok(e))
        }
    }

    /// What applying one intent does: each variant is the corresponding
    /// direct transition, its returned value discarded.
    pub open spec fn spec_apply(self, c: Command<C>) -> (WorldM<C>, Result<(), AccessError>) {
        match c {
            Command::Spawn(comps) => {
                let (m2, r) = self.spec_spawn(comps@);
                (
                    m2,
                    match r {
                        Ok(_) => Ok(()),
                        Err(er) => Err(er),
                    },
                )
            },
            Command::Attach(e, key, v) => {
                let (m2, r) = self.spec_add_component(e, key, v);
                (
                    m2,
                    match r {
                        Ok(_) => Ok(()),
                        Err(er) => Err(er),
                    },
                )
            },
            Command::Detach(e, key) => {
                let (m2, r) = self.spec_remove_component(e, key);
                (
                    m2,
                    match r {
                        Ok(_) => Ok(()),
                        Err(er) => Err(er),
                    },
                )
            },
            Command::Despawn(e) => self.spec_remove_entity(e),
            Command::AddResource(key, v) => {
                let (m2, r) = self.spec_add_resource(key, v);
                (
                    m2,
                    match r {
                        Ok(_) => Ok(()),
                        Err(er) => Err(er),
                    },
                )
            },
            Command::Shutdown => (self.spec_shutdown(), Ok(())),
        }
    }

    /// The fold of applying a whole sequence of intents, first to last,
    /// stopping at the first fatal usage error.
    pub open spec fn spec_apply_all(self, cmds: Seq<Command<C>>) -> (
        WorldM<C>,
        Result<(), AccessError>,
    )
        decreases cmds.len(),
    {
        if cmds.len() == 0 {
            (self, Ok(()))
        } else {
            let (m1, r1) = self.spec_apply(cmds[0]);
            if r1 is Err {
                (m1, r1)
            } else {
                m1.spec_apply_all(cmds.drop_first())
            }
        }
    }

    /// What draining does: the queue is emptied first (so intents recorded
    /// during the drain run next cycle), then its former contents are
    /// applied in order.
    pub open spec fn spec_drain(self) -> (WorldM<C>, Result<(), AccessError>) {
        self.with_queue(Seq::empty()).spec_apply_all(self.queue)
    }
}

impl<C: Component> World<C> {
    /// Creates an entity carrying `components`, attached in order. Rejected
    /// with `NotRegistered`, creating nothing, unless every key in the list
    /// has a registered store.
    pub fn spawn(&mut self, components: Vec<(u64, C)>) -> (r: Result<EntityId, AccessError>)
        requires
            old(self)@.wf(),
        ensures
            final(self)@ == old(self)@.spec_spawn(components@).0,
            r == old(self)@.spec_spawn(components@).1,
            final(self)@.wf(),
            r matches Ok(e) ==> !old(self)@.live(e) && final(self)@.live(e),
    {
        let ghost m0 = self@;
        let n = components.len();
        let mut i: usize = 0;
        while i < n
            invariant
                0 <= i <= n,
                n == components@.len(),
                m0 == old(self)@,
                m0.wf(),
                self@ == m0,
                forall|j: int| 0 <= j < i ==> m0.registered((#[trigger] components@[j]).0),
            decreases n - i,
        {
            let key = components[i].0;
            if !self.contains_storage(key) {
                proof {
                    assert(!m0.all_keys_registered(components@));
                }
                return Err(AccessError::NotRegistered);
            }
            i = i + 1;
        }
        proof {
            assert(m0.all_keys_registered(components@));
        }
        let ghost orig = components@;
        let e = self.new_entity();
        let ghost m1 = self@;
        let mut comps = components;
        while comps.len() > 0
            invariant
                orig == components@,
                m0 == old(self)@,
                m0.all_keys_registered(orig),
                m1 == m0.spec_new_entity().0,
                e == m0.spec_new_entity().1,
                self@.wf(),
                m1.spec_attach_all(e, orig) == self@.spec_attach_all(e, comps@),
                slot_live(self@.slots, e),
            decreases comps@.len(),
        {
            let ghost ccur = comps@;
            let (key, v) = comps.remove(0);
            proof {
                assert((key, v) == ccur[0]);
                assert(comps@ =~= ccur.drop_first());
            }
            // Each step's returned prior value is discarded, exactly as the
            // fold in `spec_attach_all` discards it.
            let _ = self.add_component(e, key, v);
        }
        proof {
            assert(self@.spec_attach_all(e, comps@) == self@);
            assert((self@, Ok::<EntityId, AccessError>(e)) == m0.spec_spawn(orig));
        }
        Ok(e)
    }
}

} // verus!
