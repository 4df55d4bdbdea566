//! The library's laws: properties that relate several operations, stated
//! over the same model transitions the operations' own contracts use, and
//! proved once and for all. The allocator's own laws (fresh identities are
//! distinct) live beside the allocator.

use vstd::prelude::*;

use crate::allocator::EntityId;
use crate::commands::Command;
use crate::component::AccessError;
use crate::component::CellState;
use crate::component::Component;
use crate::world::WorldM;
use crate::world::lemma_find_store_sound;

verus! {

/// Law: after an entity is removed, every lookup against its identity
/// returns absent: it is no longer live, and no store, under any key, keeps
/// a cell for it.
pub proof fn lemma_released_entity_lookups_absent<C: Component>(m: WorldM<C>, e: EntityId)
    requires
        m.wf(),
        m.spec_remove_entity(e).1 is Ok,
    ensures
        !m.spec_remove_entity(e).0.live(e),
        forall|key: u64| m.spec_remove_entity(e).0.cell(key, e) is None,
        forall|key: u64| m.spec_remove_entity(e).0.component(key, e) is None,
{
    let m2 = m.spec_remove_entity(e).0;
    crate::allocator::lemma_generation_monotone(m.slots, e);
    assert forall|key: u64| m2.cell(key, e) is None by {
        lemma_find_store_sound(m2.stores, key, 0);
    }
}

/// Law (round trip): attaching `v` under a registered key to a live entity
/// whose cell is not borrowed out succeeds, and a subsequent fetch of that
/// key for that entity yields exactly `v`.
pub proof fn lemma_attach_then_fetch<C: Component>(m: WorldM<C>, e: EntityId, key: u64, v: C)
    requires
        m.wf(),
        m.registered(key),
        m.live(e),
        m.cell(key, e) != Some(CellState::<C>::Taken),
    ensures
        m.spec_add_component(e, key, v).1 is Ok,
        m.spec_add_component(e, key, v).0.component(key, e) == Some(v),
{
    lemma_find_store_sound(m.stores, key, 0);
    let m2 = m.spec_add_component(e, key, v).0;
    assert(forall|j: int|
        0 <= j < m.stores.len() ==> m.stores[j].key == (#[trigger] m2.stores[j]).key);
    crate::world::lemma_find_store_same_keys(m.stores, m2.stores, key, 0);
}

/// Law (overwrite): attaching `v2` after `v1` for the same entity and key
/// returns `v1` as the prior value, and a subsequent fetch yields `v2`.
pub proof fn lemma_attach_overwrites<C: Component>(
    m: WorldM<C>,
    e: EntityId,
    key: u64,
    v1: C,
    v2: C,
)
    requires
        m.wf(),
        m.registered(key),
        m.live(e),
        m.cell(key, e) != Some(CellState::<C>::Taken),
    ensures
        m.spec_add_component(e, key, v1).0.spec_add_component(e, key, v2).1 == Ok::<
            Option<C>,
            AccessError,
        >(Some(v1)),
        m.spec_add_component(e, key, v1).0.spec_add_component(e, key, v2).0.component(key, e)
            == Some(v2),
{
    lemma_find_store_sound(m.stores, key, 0);
    let m1 = m.spec_add_component(e, key, v1).0;
    crate::world::lemma_add_component_wf(m, e, key, v1);
    assert(forall|j: int|
        0 <= j < m.stores.len() ==> m.stores[j].key == (#[trigger] m1.stores[j]).key);
    crate::world::lemma_find_store_same_keys(m.stores, m1.stores, key, 0);
    lemma_attach_then_fetch(m1, e, key, v2);
}

/// Law (resource replacement): adding `r2` after `r1` under the same key
/// returns `r1` as the prior value, and a subsequent fetch yields `r2`.
pub proof fn lemma_resource_replaces<C: Component>(m: WorldM<C>, key: u64, r1: C, r2: C)
    requires
        m.wf(),
        m.res_cell(key) != Some(CellState::<C>::Taken),
    ensures
        m.spec_add_resource(key, r1).1 is Ok,
        m.spec_add_resource(key, r1).0.spec_add_resource(key, r2).1 == Ok::<
            Option<C>,
            AccessError,
        >(Some(r1)),
        m.spec_add_resource(key, r1).0.spec_add_resource(key, r2).0.resource(key) == Some(r2),
{
    crate::world::lemma_find_resource_sound(m.resources, key, 0);
    let m1 = m.spec_add_resource(key, r1).0;
    assert(forall|j: int|
        0 <= j < m.resources.len() ==> m.resources[j].key == (#[trigger] m1.resources[j]).key);
    if m.resource_index(key) is None {
        assert(m1.resources[m1.resources.len() - 1].key == key);
        crate::world::lemma_find_resource_sound(m1.resources, key, 0);
    } else {
        crate::world::lemma_find_resource_same_keys(m.resources, m1.resources, key, 0);
    }
    let m2 = m1.spec_add_resource(key, r2).0;
    assert(forall|j: int|
        0 <= j < m1.resources.len() ==> m1.resources[j].key == (#[trigger] m2.resources[j]).key);
    crate::world::lemma_find_resource_same_keys(m1.resources, m2.resources, key, 0);
}

/// Law (write-then-read): returning a value through the exclusive-borrow
/// path makes it visible to every subsequent shared read: after
/// `release_component` of `v`, the fetched value is exactly `v`.
pub proof fn lemma_exclusive_write_then_read<C: Component>(m: WorldM<C>, e: EntityId, key: u64, v: C)
    requires
        m.wf(),
        m.cell(key, e) == Some(CellState::<C>::Taken),
    ensures
        m.spec_put_component(e, key, v).1 is Ok,
        m.spec_put_component(e, key, v).0.component(key, e) == Some(v),
{
    lemma_find_store_sound(m.stores, key, 0);
    let m2 = m.spec_put_component(e, key, v).0;
    assert(forall|j: int|
        0 <= j < m.stores.len() ==> m.stores[j].key == (#[trigger] m2.stores[j]).key);
    crate::world::lemma_find_store_same_keys(m.stores, m2.stores, key, 0);
}

/// Law (aliasing is a fault, never stale data): while an exclusive borrow
/// of a cell is outstanding, that cell is marked `Taken`, and a second
/// exclusive borrow of the same (entity, key) pair reports the violation as
/// `Borrowed` and changes nothing. The shared path holds by the contract of
/// `get_component`, which returns `Borrowed` exactly on a `Taken` cell.
pub proof fn lemma_overlapping_borrows_fault<C: Component>(m: WorldM<C>, e: EntityId, key: u64)
    requires
        m.wf(),
        m.component(key, e) is Some,
    ensures
        m.spec_take_component(e, key).1 == Ok::<Option<C>, AccessError>(m.component(key, e)),
        m.spec_take_component(e, key).0.cell(key, e) == Some(CellState::<C>::Taken),
        m.spec_take_component(e, key).0.spec_take_component(e, key).1 == Err::<
            Option<C>,
            AccessError,
        >(AccessError::Borrowed),
        m.spec_take_component(e, key).0.spec_take_component(e, key).0 == m.spec_take_component(
            e,
            key,
        ).0,
{
    lemma_find_store_sound(m.stores, key, 0);
    let m2 = m.spec_take_component(e, key).0;
    assert(forall|j: int|
        0 <= j < m.stores.len() ==> m.stores[j].key == (#[trigger] m2.stores[j]).key);
    crate::world::lemma_find_store_same_keys(m.stores, m2.stores, key, 0);
}

/// Law (deferral): an enqueued intent has no visible effect on the world
/// until the drain: a world whose queue alone differs answers every
/// liveness, component and resource lookup identically, and its active flag
/// is unchanged.
pub proof fn lemma_enqueue_invisible<C: Component>(
    m: WorldM<C>,
    queue: Seq<Command<C>>,
    key: u64,
    e: EntityId,
)
    ensures
        m.with_queue(queue).live(e) == m.live(e),
        m.with_queue(queue).cell(key, e) == m.cell(key, e),
        m.with_queue(queue).component(key, e) == m.component(key, e),
        m.with_queue(queue).res_cell(key) == m.res_cell(key),
        m.with_queue(queue).active == m.active,
{
}

/// Law (drain applies in order, exactly once): as long as no fatal usage
/// error stops the drain, applying a queue with one more intent at its end
/// is applying the queue and then applying that intent, once, to the
/// result.
pub proof fn lemma_drain_applies_in_order<C: Component>(
    m: WorldM<C>,
    cmds: Seq<Command<C>>,
    c: Command<C>,
)
    requires
        m.spec_apply_all(cmds).1 is Ok,
    ensures
        m.spec_apply_all(cmds.push(c)) == m.spec_apply_all(cmds).0.spec_apply(c),
    decreases cmds.len(),
{
    if cmds.len() == 0 {
        assert(cmds.push(c).drop_first() =~= cmds);
        assert(cmds.push(c)[0] == c);
        let (m1, r1) = m.spec_apply(c);
        if r1 is Ok {
            assert(m.spec_apply_all(cmds.push(c)) == m1.spec_apply_all(cmds));
            assert(m1.spec_apply_all(cmds) == (m1, Ok::<(), AccessError>(())));
            assert(r1 == Ok::<(), AccessError>(()));
        } else {
            assert(m.spec_apply_all(cmds.push(c)) == (m1, r1));
        }
        assert(m.spec_apply_all(cmds).0 == m);
    } else {
        let (m1, r1) = m.spec_apply(cmds[0]);
        assert(cmds.push(c)[0] == cmds[0]);
        assert(cmds.push(c).drop_first() =~= cmds.drop_first().push(c));
        if r1 is Err {
            assert(m.spec_apply_all(cmds) == (m1, r1));
            assert(false);
        }
        assert(m.spec_apply_all(cmds) == m1.spec_apply_all(cmds.drop_first()));
        assert(m.spec_apply_all(cmds.push(c)) == m1.spec_apply_all(cmds.push(c).drop_first()));
        lemma_drain_applies_in_order(m1, cmds.drop_first(), c);
        assert(m1.spec_apply_all(cmds.drop_first().push(c)) == m1.spec_apply_all(
            cmds.drop_first(),
        ).0.spec_apply(c));
    }
}

} // verus!
