//! The entity allocator: issues and invalidates entity identities.
//!
//! Identities are generational: the allocator keeps a dense array of slots,
//! each recording its current generation and whether it is occupied.
//! Allocation reuses the lowest-index free slot when one exists (bumping its
//! generation so that every previously issued identity for that slot is
//! detectably stale) and grows the array otherwise. Releasing an identity
//! frees its slot without touching any other slot.

use vstd::prelude::*;

verus! {

/// The identity of an entity: a slot index plus the generation the slot had
/// when the identity was issued. Two identities are equal only when both
/// fields match, so an identity whose slot has been reused no longer names
/// any live entity.
#[derive(Clone, Copy, PartialEq, Eq, Structural, Debug, Hash)]
pub struct EntityId {
    pub index: usize,
    pub generation: u64,
}

/// One slot of the allocator's dense array.
#[derive(Clone, Copy, PartialEq, Eq, Structural, Debug)]
pub struct Slot {
    pub generation: u64,
    pub occupied: bool,
}

/// Issues and invalidates entity identities.
pub struct EntityAllocator {
    pub slots: Vec<Slot>,
}

/// Whether `e` names a live entity in the slot array `slots`.
pub open spec fn slot_live(slots: Seq<Slot>, e: EntityId) -> bool {
    &&& e.index < slots.len()
    &&& slots[e.index as int].occupied
    &&& slots[e.index as int].generation == e.generation
}

/// Whether slot `i` may be handed out again: it is free and its generation
/// counter is not exhausted. A slot whose counter has reached `u64::MAX` is
/// retired for good, so bumping a generation can never overflow.
pub open spec fn slot_reusable(slots: Seq<Slot>, i: int) -> bool {
    &&& 0 <= i < slots.len()
    &&& !slots[i].occupied
    &&& slots[i].generation < u64::MAX
}

/// The lowest reusable slot index at or above `i`, if any.
pub open spec fn first_free_from(slots: Seq<Slot>, i: int) -> Option<int>
    decreases slots.len() - i when 0 <= i <= slots.len()
{
    if i < slots.len() {
        if slot_reusable(slots, i) {
            Some(i)
        } else {
            first_free_from(slots, i + 1)
        }
    } else {
        None
    }
}

/// What one allocation does: the new slot array and the identity issued.
pub open spec fn spec_allocate(slots: Seq<Slot>) -> (Seq<Slot>, EntityId) {
    match first_free_from(slots, 0) {
        Some(i) => {
            let g = (slots[i].generation + 1) as u64;
            (
                slots.update(i, Slot { generation: g, occupied: true }),
                EntityId { index: i as usize, generation: g },
            )
        },
        None => (
            slots.push(Slot { generation: 0, occupied: true }),
            EntityId { index: slots.len() as usize, generation: 0 },
        ),
    }
}

/// What releasing `e` does: its slot is freed, generation kept, if `e` is
/// live; otherwise nothing changes.
pub open spec fn spec_release(slots: Seq<Slot>, e: EntityId) -> Seq<Slot> {
    if slot_live(slots, e) {
        slots.update(e.index as int, Slot { generation: e.generation, occupied: false })
    } else {
        slots
    }
}

pub proof fn lemma_first_free_sound(slots: Seq<Slot>, i: int)
    requires
        0 <= i <= slots.len(),
    ensures
        match first_free_from(slots, i) {
            Some(j) => slot_reusable(slots, j) && i <= j,
            None => forall|j: int| i <= j < slots.len() ==> !slot_reusable(slots, j),
        },
    decreases slots.len() - i,
{
    if i < slots.len() && !slot_reusable(slots, i) {
        lemma_first_free_sound(slots, i + 1);
    }
}

impl EntityAllocator {
    /// A fresh allocator with no slots.
    pub fn new() -> (a: Self)
        ensures
            a.slots@ == Seq::<Slot>::empty(),
    {
        let slots = Vec::new();
        proof {
            assert(Seq::<Slot>::empty() =~= slots@);
        }
        EntityAllocator { slots }
    }

    /// Whether `e` names a live entity.
    pub fn contains(&self, e: EntityId) -> (r: bool)
        ensures
            r == slot_live(self.slots@, e),
            r ==> e.index < usize::MAX,
    {
        e.index < self.slots.len() && self.slots[e.index].occupied
            && self.slots[e.index].generation == e.generation
    }

    /// Issues a fresh identity: the lowest-index reusable slot if one exists
    /// (its generation bumped), a newly grown slot otherwise. The identity is
    /// live afterwards, was not live before, and no other identity changes
    /// liveness.
    pub fn allocate(&mut self) -> (e: EntityId)
        ensures
            (final(self).slots@, e) == spec_allocate(old(self).slots@),
            !slot_live(old(self).slots@, e),
            slot_live(final(self).slots@, e),
            forall|e2: EntityId| e2 != e ==> slot_live(final(self).slots@, e2) == slot_live(
                old(self).slots@,
                e2,
            ),
    {
        let ghost slots0 = self.slots@;
        let n = self.slots.len();
        let mut i: usize = 0;
        while i < n
            invariant
                0 <= i <= n,
                n == self.slots@.len(),
                slots0 == old(self).slots@,
                self.slots@ == slots0,
                first_free_from(slots0, 0) == first_free_from(slots0, i as int),
            decreases n - i,
        {
            let s = self.slots[i];
            if !s.occupied && s.generation < u64::MAX {
                let g = s.generation + 1;
                self.slots[i] = Slot { generation: g, occupied: true };
                let e = EntityId { index: i, generation: g };
                proof {
                    assert(slot_reusable(slots0, i as int));
                    assert(first_free_from(slots0, i as int) == Some(i as int));
                    assert(self.slots@ =~= slots0.update(
                        i as int,
                        Slot { generation: g, occupied: true },
                    ));
                    assert((self.slots@, e) == spec_allocate(slots0));
                    assert(forall|e2: EntityId|
                        e2 != e ==> slot_live(self.slots@, e2) == slot_live(slots0, e2)) by {
                        assert(forall|e2: EntityId|
                            e2.index != e.index ==> slot_live(self.slots@, e2) == slot_live(
                                slots0,
                                e2,
                            ));
                    }
                }
                return e;
            }
            i = i + 1;
        }
        proof {
            assert(first_free_from(slots0, n as int) is None);
        }
        self.slots.push(Slot { generation: 0, occupied: true });
        proof {
            assert(self.slots@ =~= slots0.push(Slot { generation: 0, occupied: true }));
        }
        EntityId { index: n, generation: 0 }
    }

    /// Invalidates `e`: its slot becomes free (keeping its generation, which
    /// is bumped on reuse). Releasing an identity that is not live does
    /// nothing.
    pub fn release(&mut self, e: EntityId)
        ensures
            final(self).slots@ == spec_release(old(self).slots@, e),
            !slot_live(final(self).slots@, e),
            forall|e2: EntityId| e2 != e ==> slot_live(final(self).slots@, e2) == slot_live(
                old(self).slots@,
                e2,
            ),
    {
        if e.index < self.slots.len() && self.slots[e.index].occupied
            && self.slots[e.index].generation == e.generation {
            self.slots[e.index] = Slot { generation: e.generation, occupied: false };
        }
    }
}

/// Law: a freshly issued identity was not live before the allocation and is
/// live after it; every other identity keeps its liveness.
pub proof fn lemma_allocate_fresh(slots: Seq<Slot>)
    requires
        slots.len() <= usize::MAX,
    ensures
        !slot_live(slots, spec_allocate(slots).1),
        slot_live(spec_allocate(slots).0, spec_allocate(slots).1),
        forall|e2: EntityId| e2 != spec_allocate(slots).1 ==> slot_live(
            spec_allocate(slots).0,
            e2,
        ) == slot_live(slots, e2),
{
    lemma_first_free_sound(slots, 0);
}

/// Law: two identities issued one after the other are distinct.
pub proof fn lemma_successive_allocations_distinct(slots: Seq<Slot>)
    requires
        slots.len() < usize::MAX,
    ensures
        spec_allocate(slots).1 != spec_allocate(spec_allocate(slots).0).1,
{
    lemma_allocate_fresh(slots);
    lemma_first_free_sound(slots, 0);
    assert(spec_allocate(slots).0.len() <= slots.len() + 1);
    lemma_allocate_fresh(spec_allocate(slots).0);
}

/// Law: an identity issued after `e` was released is distinct from `e`: if
/// the allocation reuses `e`'s slot the generation has moved on, and any
/// other slot gives a different index.
pub proof fn lemma_reallocation_distinct(slots: Seq<Slot>, e: EntityId)
    requires
        slots.len() <= usize::MAX,
        slot_live(slots, e),
    ensures
        spec_allocate(spec_release(slots, e)).1 != e,
{
    let released = spec_release(slots, e);
    lemma_first_free_sound(released, 0);
}

/// Law: no slot's generation ever decreases, under allocation or release.
pub proof fn lemma_generation_monotone(slots: Seq<Slot>, e: EntityId)
    ensures
        forall|i: int| 0 <= i < slots.len() ==> spec_allocate(slots).0[i].generation
            >= slots[i].generation,
        forall|i: int| 0 <= i < slots.len() ==> spec_release(slots, e)[i].generation
            >= slots[i].generation,
{
    lemma_first_free_sound(slots, 0);
}

} // verus!
