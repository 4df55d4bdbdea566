//! The World: the registry at the centre of the data model.
//!
//! A `World` owns the entity allocator, a collection of component stores
//! addressed by a stable per-type key, a collection of singleton resources
//! addressed the same way, the deferred command queue, and the active flag
//! that controls the driver loop.
//!
//! Component types have no global identity here: a host registers a store
//! under a key of its choosing and uses that key for all later access. Every
//! operation is specified against the world's mathematical model `WorldM`,
//! and the model-level transition functions compose: draining the command
//! queue is a fold of the same transitions the direct calls make.

use vstd::prelude::*;

use crate::allocator::EntityAllocator;
use crate::allocator::EntityId;
use crate::allocator::Slot;
use crate::allocator::slot_live;
use crate::allocator::spec_allocate;
use crate::allocator::spec_release;
use crate::commands::Command;
use crate::commands::Commands;
use crate::component::AccessError;
use crate::component::CellState;
use crate::component::Component;
use crate::component::ComponentStorage;
use crate::component::StoreCell;
use crate::component::cell_at;
use crate::component::spec_store_insert;
use crate::component::spec_store_put;
use crate::component::spec_store_remove;
use crate::component::spec_store_take;

verus! {

/// One registered component store and the key it is registered under.
pub struct Store<C: Component> {
    pub key: u64,
    pub storage: ComponentStorage<C>,
}

/// One singleton resource and the key it is kept under. The value is
/// guarded like a component cell: exclusive access moves it out and marks
/// the slot `Taken` until it is returned.
pub struct ResourceSlot<C: Component> {
    pub key: u64,
    pub state: CellState<C>,
}

/// The mathematical model of one registered store.
#[verifier::ext_equal]
pub struct StoreM<C> {
    pub key: u64,
    pub cells: Seq<Option<StoreCell<C>>>,
}

/// The mathematical model of a `World`: the allocator's slots, the
/// registered stores, the resources, the pending command queue and the
/// active flag.
#[verifier::ext_equal]
pub struct WorldM<C: Component> {
    pub slots: Seq<Slot>,
    pub stores: Seq<StoreM<C>>,
    pub resources: Seq<ResourceSlot<C>>,
    pub queue: Seq<Command<C>>,
    pub active: bool,
}

/// The first index at or after `i` whose store is registered under `key`.
pub open spec fn find_store_from<C>(stores: Seq<StoreM<C>>, key: u64, i: int) -> Option<int>
    decreases stores.len() - i when 0 <= i <= stores.len()
{
    if i < stores.len() {
        if stores[i].key == key {
            Some(i)
        } else {
            find_store_from(stores, key, i + 1)
        }
    } else {
        None
    }
}

/// The first index at or after `i` whose resource is kept under `key`.
pub open spec fn find_resource_from<C: Component>(
    resources: Seq<ResourceSlot<C>>,
    key: u64,
    i: int,
) -> Option<int>
    decreases resources.len() - i when 0 <= i <= resources.len()
{
    if i < resources.len() {
        if resources[i].key == key {
            Some(i)
        } else {
            find_resource_from(resources, key, i + 1)
        }
    } else {
        None
    }
}


pub proof fn lemma_find_store_same_keys<C>(
    s1: Seq<StoreM<C>>,
    s2: Seq<StoreM<C>>,
    key: u64,
    i: int,
)
    requires
        0 <= i <= s1.len(),
        s1.len() == s2.len(),
        forall|j: int| 0 <= j < s1.len() ==> s1[j].key == s2[j].key,
    ensures
        find_store_from(s1, key, i) == find_store_from(s2, key, i),
    decreases s1.len() - i,
{
    if i < s1.len() && s1[i].key != key {
        lemma_find_store_same_keys(s1, s2, key, i + 1);
    }
}

pub proof fn lemma_find_resource_same_keys<C: Component>(
    s1: Seq<ResourceSlot<C>>,
    s2: Seq<ResourceSlot<C>>,
    key: u64,
    i: int,
)
    requires
        0 <= i <= s1.len(),
        s1.len() == s2.len(),
        forall|j: int| 0 <= j < s1.len() ==> s1[j].key == s2[j].key,
    ensures
        find_resource_from(s1, key, i) == find_resource_from(s2, key, i),
    decreases s1.len() - i,
{
    if i < s1.len() && s1[i].key != key {
        lemma_find_resource_same_keys(s1, s2, key, i + 1);
    }
}

pub proof fn lemma_find_store_sound<C>(stores: Seq<StoreM<C>>, key: u64, i: int)
    requires
        0 <= i <= stores.len(),
    ensures
        match find_store_from(stores, key, i) {
            Some(j) => i <= j < stores.len() && stores[j].key == key,
            None => forall|j: int| i <= j < stores.len() ==> stores[j].key != key,
        },
    decreases stores.len() - i,
{
    if i < stores.len() && stores[i].key != key {
        lemma_find_store_sound(stores, key, i + 1);
    }
}

pub proof fn lemma_find_resource_sound<C: Component>(
    resources: Seq<ResourceSlot<C>>,
    key: u64,
    i: int,
)
    requires
        0 <= i <= resources.len(),
    ensures
        match find_resource_from(resources, key, i) {
            Some(j) => i <= j < resources.len() && resources[j].key == key,
            None => forall|j: int| i <= j < resources.len() ==> resources[j].key != key,
        },
    decreases resources.len() - i,
{
    if i < resources.len() && resources[i].key != key {
        lemma_find_resource_sound(resources, key, i + 1);
    }
}

impl<C: Component> WorldM<C> {
    /// The model of a freshly created world: nothing allocated, nothing
    /// registered, no resources, an empty queue, and the active flag set.
    pub open spec fn spec_init() -> WorldM<C> {
        WorldM {
            slots: Seq::empty(),
            stores: Seq::empty(),
            resources: Seq::empty(),
            queue: Seq::empty(),
            active: true,
        }
    }

    /// Whether `e` names a live entity.
    pub open spec fn live(self, e: EntityId) -> bool {
        slot_live(self.slots, e)
    }

    /// The index of the store registered under `key`, if any.
    pub open spec fn store_index(self, key: u64) -> Option<int> {
        find_store_from(self.stores, key, 0)
    }

    /// Whether a store is registered under `key`.
    pub open spec fn registered(self, key: u64) -> bool {
        self.store_index(key) is Some
    }

    /// The guard cell recorded under `key` for `e`: `None` when the key is
    /// unregistered, the entity has no value of the type, or the identity is
    /// stale.
    pub open spec fn cell(self, key: u64, e: EntityId) -> Option<CellState<C>> {
        match self.store_index(key) {
            Some(i) => cell_at(self.stores[i].cells, e),
            None => None,
        }
    }

    /// The component value under `key` for `e`, when present and not
    /// borrowed out.
    pub open spec fn component(self, key: u64, e: EntityId) -> Option<C> {
        match self.cell(key, e) {
            Some(CellState::Present(v)) => Some(v),
            _ => None,
        }
    }

    /// The index of the resource kept under `key`, if any.
    pub open spec fn resource_index(self, key: u64) -> Option<int> {
        find_resource_from(self.resources, key, 0)
    }

    /// The guard cell of the resource kept under `key`, if any.
    pub open spec fn res_cell(self, key: u64) -> Option<CellState<C>> {
        match self.resource_index(key) {
            Some(i) => Some(self.resources[i].state),
            None => None,
        }
    }

    /// The resource value kept under `key`, when present and not borrowed
    /// out.
    pub open spec fn resource(self, key: u64) -> Option<C> {
        match self.res_cell(key) {
            Some(CellState::Present(v)) => Some(v),
            _ => None,
        }
    }

    /// Well-formedness of one store's cells against the slot array:
    /// components exist only for live entities, under the slot's current
    /// generation, and the cell array never outgrows the slot array.
    pub open spec fn cells_wf(self, cells: Seq<Option<StoreCell<C>>>) -> bool {
        &&& cells.len() <= self.slots.len()
        &&& forall|x: int|
            0 <= x < cells.len() ==> ((#[trigger] cells[x]) matches Some(c)
                ==> self.slots[x].occupied && self.slots[x].generation == c.generation)
    }

    /// The world's invariant: store keys are pairwise distinct, resource
    /// keys are pairwise distinct, and every store's cells are in sync with
    /// the allocator.
    pub open spec fn wf(self) -> bool {
        &&& forall|i: int, j: int|
            0 <= i < j < self.stores.len() ==> (#[trigger] self.stores[i].key) != (
            #[trigger] self.stores[j].key)
        &&& forall|i: int, j: int|
            0 <= i < j < self.resources.len() ==> (#[trigger] self.resources[i].key) != (
            #[trigger] self.resources[j].key)
        &&& forall|i: int| 0 <= i < self.stores.len() ==> self.cells_wf(#[trigger] self.stores[i].cells)
    }

    /// Registering under `key`: a fresh, empty store replaces any store
    /// already registered under that key (discarding all its values), or is
    /// appended.
    pub open spec fn spec_register(self, key: u64) -> WorldM<C> {
        match self.store_index(key) {
            Some(i) => WorldM {
                stores: self.stores.update(i, StoreM { key, cells: Seq::empty() }),
                ..self
            },
            None => WorldM { stores: self.stores.push(StoreM { key, cells: Seq::empty() }), ..self },
        }
    }

    /// Allocating a fresh entity: only the slot array changes.
    pub open spec fn spec_new_entity(self) -> (WorldM<C>, EntityId) {
        let (slots2, e) = spec_allocate(self.slots);
        (WorldM { slots: slots2, ..self }, e)
    }

    /// Attaching `v` under `key` to `e`: a fatal usage error when the key is
    /// unregistered, rejected when `e` is not live, an aliasing error when
    /// `e`'s value is borrowed out; otherwise the store's insert, returning
    /// the prior value.
    pub open spec fn spec_add_component(self, e: EntityId, key: u64, v: C) -> (
        WorldM<C>,
        Result<Option<C>, AccessError>,
    ) {
        match self.store_index(key) {
            None => (self, Err(AccessError::NotRegistered)),
            Some(i) => if !self.live(e) {
                (self, Err(AccessError::NoSuchEntity))
            } else {
                let (cells2, r) = spec_store_insert(self.stores[i].cells, e, v);
                (WorldM { stores: self.stores.update(i, StoreM { key, cells: cells2 }), ..self }, r)
            },
        }
    }

    /// Detaching `key` from `e`: a fatal usage error when the key is
    /// unregistered, an aliasing error when the value is borrowed out;
    /// otherwise the store's remove, returning the detached value.
    pub open spec fn spec_remove_component(self, e: EntityId, key: u64) -> (
        WorldM<C>,
        Result<Option<C>, AccessError>,
    ) {
        match self.store_index(key) {
            None => (self, Err(AccessError::NotRegistered)),
            Some(i) => {
                let (cells2, r) = spec_store_remove(self.stores[i].cells, e);
                (WorldM { stores: self.stores.update(i, StoreM { key, cells: cells2 }), ..self }, r)
            },
        }
    }

    /// Beginning an exclusive borrow of `e`'s value under `key`: absence (of
    /// the key or the value) is reported as absent, a second borrow of the
    /// same cell is an aliasing error; otherwise the value moves out.
    pub open spec fn spec_take_component(self, e: EntityId, key: u64) -> (
        WorldM<C>,
        Result<Option<C>, AccessError>,
    ) {
        match self.store_index(key) {
            None => (self, Ok(None)),
            Some(i) => {
                let (cells2, r) = spec_store_take(self.stores[i].cells, e);
                (WorldM { stores: self.stores.update(i, StoreM { key, cells: cells2 }), ..self }, r)
            },
        }
    }

    /// Ending an exclusive borrow of `e`'s value under `key`: the value
    /// moves back in; a cell with no outstanding borrow rejects the return.
    pub open spec fn spec_put_component(self, e: EntityId, key: u64, v: C) -> (
        WorldM<C>,
        Result<(), AccessError>,
    ) {
        match self.store_index(key) {
            None => (self, Err(AccessError::NotRegistered)),
            Some(i) => {
                let (cells2, r) = spec_store_put(self.stores[i].cells, e, v);
                (WorldM { stores: self.stores.update(i, StoreM { key, cells: cells2 }), ..self }, r)
            },
        }
    }

    /// Whether any store's value for `e` is exclusively borrowed out.
    pub open spec fn any_taken_for(self, e: EntityId) -> bool {
        exists|i: int|
            0 <= i < self.stores.len() && cell_at(#[trigger] self.stores[i].cells, e) == Some(
                CellState::<C>::Taken,
            )
    }

    /// Removing an entity: rejected while any of its values is borrowed out;
    /// otherwise its slot is released and every store drops its value for
    /// `e` (removal cascades, so no store keeps a component of an entity
    /// that no longer exists). Removing a stale identity does nothing.
    pub open spec fn spec_remove_entity(self, e: EntityId) -> (
        WorldM<C>,
        Result<(), AccessError>,
    ) {
        if self.any_taken_for(e) {
            (self, Err(AccessError::Borrowed))
        } else {
            (
                WorldM {
                    slots: spec_release(self.slots, e),
                    stores: Seq::new(
                        self.stores.len(),
                        |i: int|
                            StoreM {
                                key: self.stores[i].key,
                                cells: spec_store_remove(self.stores[i].cells, e).0,
                            },
                    ),
                    ..self
                },
                Ok(()),
            )
        }
    }

    /// Inserting or replacing the resource under `key`: the prior value
    /// comes back; replacing while the resource is borrowed out is an
    /// aliasing error.
    pub open spec fn spec_add_resource(self, key: u64, v: C) -> (
        WorldM<C>,
        Result<Option<C>, AccessError>,
    ) {
        match self.resource_index(key) {
            Some(i) => match self.resources[i].state {
                CellState::Present(u) => (
                    WorldM {
                        resources: self.resources.update(
                            i,
                            ResourceSlot { key, state: CellState::Present(v) },
                        ),
                        ..self
                    },
                    Ok(Some(u)),
                ),
                CellState::Taken => (self, Err(AccessError::Borrowed)),
            },
            None => (
                WorldM {
                    resources: self.resources.push(
                        ResourceSlot { key, state: CellState::Present(v) },
                    ),
                    ..self
                },
                Ok(None),
            ),
        }
    }

    /// Beginning an exclusive borrow of the resource under `key`.
    pub open spec fn spec_take_resource(self, key: u64) -> (
        WorldM<C>,
        Result<Option<C>, AccessError>,
    ) {
        match self.resource_index(key) {
            Some(i) => match self.resources[i].state {
                CellState::Present(u) => (
                    WorldM {
                        resources: self.resources.update(
                            i,
                            ResourceSlot { key, state: CellState::Taken },
                        ),
                        ..self
                    },
                    Ok(Some(u)),
                ),
                CellState::Taken => (self, Err(AccessError::Borrowed)),
            },
            None => (self, Ok(None)),
        }
    }

    /// Ending an exclusive borrow of the resource under `key`.
    pub open spec fn spec_put_resource(self, key: u64, v: C) -> (
        WorldM<C>,
        Result<(), AccessError>,
    ) {
        match self.resource_index(key) {
            Some(i) => match self.resources[i].state {
                CellState::Taken => (
                    WorldM {
                        resources: self.resources.update(
                            i,
                            ResourceSlot { key, state: CellState::Present(v) },
                        ),
                        ..self
                    },
                    Ok(()),
                ),
                CellState::Present(_) => (self, Err(AccessError::NotBorrowed)),
            },
            None => (self, Err(AccessError::NotBorrowed)),
        }
    }

    /// Clearing the active flag.
    pub open spec fn spec_shutdown(self) -> WorldM<C> {
        WorldM { active: false, ..self }
    }

    /// Replacing the pending command queue.
    pub open spec fn with_queue(self, queue: Seq<Command<C>>) -> WorldM<C> {
        WorldM { queue, ..self }
    }
}

/// The World itself; see the module documentation.
pub struct World<C: Component> {
    pub allocator: EntityAllocator,
    pub stores: Vec<Store<C>>,
    pub resources: Vec<ResourceSlot<C>>,
    pub commands: Commands<C>,
    pub active: bool,
}

impl<C: Component> View for World<C> {
    type V = WorldM<C>;

    open spec fn view(&self) -> WorldM<C> {
        WorldM {
            slots: self.allocator.slots@,
            stores: Seq::new(
                self.stores@.len(),
                |i: int| StoreM { key: self.stores@[i].key, cells: self.stores@[i].storage@ },
            ),
            resources: self.resources@,
            queue: self.commands.queue@,
            active: self.active,
        }
    }
}

impl<C: Component> World<C> {
    /// Creates a new, empty, active `World`.
    pub fn new() -> (w: Self)
        ensures
            w@ == WorldM::<C>::spec_init(),
            w@.wf(),
    {
        let w = World {
            allocator: EntityAllocator::new(),
            stores: Vec::new(),
            resources: Vec::new(),
            commands: Commands::new(),
            active: true,
        };
        proof {
            assert(w@ =~~= WorldM::<C>::spec_init());
        }
        w
    }

    /// The index of the store registered under `key`, if any.
    pub(crate) fn find_store(&self, key: u64) -> (r: Option<usize>)
        ensures
            match r {
                Some(i) => i < self.stores@.len() && self@.store_index(key) == Some(i as int)
                    && self@.stores[i as int].key == key,
                None => self@.store_index(key) is None,
            },
    {
        let n = self.stores.len();
        let mut i: usize = 0;
        while i < n
            invariant
                0 <= i <= n,
                n == self.stores@.len(),
                self@.stores.len() == n,
                find_store_from(self@.stores, key, 0) == find_store_from(
                    self@.stores,
                    key,
                    i as int,
                ),
            decreases n - i,
        {
            if self.stores[i].key == key {
                proof {
                    assert(self@.stores[i as int].key == key);
                }
                return Some(i);
            }
            proof {
                assert(self@.stores[i as int].key != key);
            }
            i = i + 1;
        }
        None
    }

    /// The index of the resource kept under `key`, if any.
    fn find_resource(&self, key: u64) -> (r: Option<usize>)
        ensures
            match r {
                Some(i) => i < self.resources@.len() && self@.resource_index(key) == Some(
                    i as int,
                ) && self@.resources[i as int].key == key,
                None => self@.resource_index(key) is None,
            },
    {
        let n = self.resources.len();
        let mut i: usize = 0;
        while i < n
            invariant
                0 <= i <= n,
                n == self.resources@.len(),
                find_resource_from(self@.resources, key, 0) == find_resource_from(
                    self@.resources,
                    key,
                    i as int,
                ),
            decreases n - i,
        {
            if self.resources[i].key == key {
                return Some(i);
            }
            i = i + 1;
        }
        None
    }

    /// Registers a fresh, empty component store under `key`. Registering a
    /// key that is already registered discards every value previously stored
    /// under it: a documented destructive operation, not an error.
    pub fn register(&mut self, key: u64)
        requires
            old(self)@.wf(),
        ensures
            final(self)@ == old(self)@.spec_register(key),
            final(self)@.wf(),
            final(self)@.registered(key),
    {
        let ghost m0 = self@;
        let fresh = Store { key, storage: ComponentStorage::new() };
        match self.find_store(key) {
            Some(i) => {
                self.stores[i] = fresh;
                proof {
                    assert(self@ =~~= m0.spec_register(key));
                    assert(self@.stores[i as int].key == key);
                    lemma_find_store_sound(self@.stores, key, 0);
                }
            },
            None => {
                self.stores.push(fresh);
                proof {
                    assert(self@ =~~= m0.spec_register(key));
                    assert(self@.stores[self@.stores.len() - 1].key == key);
                    lemma_find_store_sound(self@.stores, key, 0);
                }
            },
        }
        proof {
            lemma_register_wf(m0, key);
        }
    }

    /// Whether a component store is registered under `key`.
    pub fn contains_storage(&self, key: u64) -> (r: bool)
        ensures
            r == self@.registered(key),
    {
        self.find_store(key).is_some()
    }

    /// Allocates a fresh entity identity carrying no components. The
    /// identity was not live before the call, is live after it, and no other
    /// identity changes liveness.
    pub fn new_entity(&mut self) -> (e: EntityId)
        requires
            old(self)@.wf(),
        ensures
            (final(self)@, e) == old(self)@.spec_new_entity(),
            final(self)@.wf(),
            !old(self)@.live(e),
            final(self)@.live(e),
            forall|e2: EntityId| e2 != e ==> final(self)@.live(e2) == old(self)@.live(e2),
    {
        let ghost m0 = self@;
        let e = self.allocator.allocate();
        proof {
            assert(self@ =~~= m0.spec_new_entity().0);
            lemma_new_entity_wf(m0);
        }
        e
    }

    /// Whether `e` is live and has a value under `key`, borrowed out or not.
    pub fn contains_component(&self, e: EntityId, key: u64) -> (r: bool)
        ensures
            r == (self@.live(e) && self@.cell(key, e) is Some),
    {
        if !self.allocator.contains(e) {
            return false;
        }
        match self.find_store(key) {
            Some(i) => self.stores[i].storage.contains(e),
            None => false,
        }
    }

    /// Attaches `value` under `key` to `e`, returning the prior value if one
    /// was attached. Fails with `NotRegistered` when no store is registered
    /// under `key` (a fatal usage error), with `NoSuchEntity` when `e` is
    /// not live, and with `Borrowed` when `e`'s value under `key` is
    /// exclusively borrowed out.
    pub fn add_component(&mut self, e: EntityId, key: u64, value: C) -> (r: Result<
        Option<C>,
        AccessError,
    >)
        requires
            old(self)@.wf(),
        ensures
            final(self)@ == old(self)@.spec_add_component(e, key, value).0,
            r == old(self)@.spec_add_component(e, key, value).1,
            final(self)@.wf(),
            r == Err::<Option<C>, AccessError>(AccessError::NotRegistered) <==> !old(
                self,
            )@.registered(key),
            old(self)@.registered(key) && !old(self)@.live(e) <==> r == Err::<
                Option<C>,
                AccessError,
            >(AccessError::NoSuchEntity),
            r is Ok ==> final(self)@.component(key, e) == Some(value) && r == Ok::<
                Option<C>,
                AccessError,
            >(old(self)@.component(key, e)),
    {
        let ghost m0 = self@;
        let si = match self.find_store(key) {
            None => {
                return Err(AccessError::NotRegistered);
            },
            Some(i) => i,
        };
        if !self.allocator.contains(e) {
            return Err(AccessError::NoSuchEntity);
        }
        let st = &mut self.stores[si];
        let r = st.storage.insert(e, value);
        proof {
            assert(self@ =~~= m0.spec_add_component(e, key, value).0);
            lemma_add_component_wf(m0, e, key, value);
            assert(forall|j: int|
                0 <= j < m0.stores.len() ==> m0.stores[j].key == (#[trigger] self@.stores[j]).key);
            lemma_find_store_same_keys(m0.stores, self@.stores, key, 0);
        }
        r
    }

    /// Detaches and returns the value under `key` for `e`, if one is
    /// attached. Fails with `NotRegistered` when no store is registered
    /// under `key` (a fatal usage error) and with `Borrowed` when the value
    /// is exclusively borrowed out.
    pub fn remove_component(&mut self, e: EntityId, key: u64) -> (r: Result<
        Option<C>,
        AccessError,
    >)
        requires
            old(self)@.wf(),
        ensures
            final(self)@ == old(self)@.spec_remove_component(e, key).0,
            r == old(self)@.spec_remove_component(e, key).1,
            final(self)@.wf(),
            r == Err::<Option<C>, AccessError>(AccessError::NotRegistered) <==> !old(
                self,
            )@.registered(key),
            r is Ok ==> final(self)@.component(key, e) is None && r == Ok::<
                Option<C>,
                AccessError,
            >(old(self)@.component(key, e)),
    {
        let ghost m0 = self@;
        let si = match self.find_store(key) {
            None => {
                return Err(AccessError::NotRegistered);
            },
            Some(i) => i,
        };
        let st = &mut self.stores[si];
        let r = st.storage.remove(e);
        proof {
            assert(self@ =~~= m0.spec_remove_component(e, key).0);
            lemma_remove_component_wf(m0, e, key);
            assert(forall|j: int|
                0 <= j < m0.stores.len() ==> m0.stores[j].key == (#[trigger] self@.stores[j]).key);
            lemma_find_store_same_keys(m0.stores, self@.stores, key, 0);
        }
        r
    }

    /// A shared borrow of the value under `key` for `e`. Absence of the
    /// store, of the entity or of the value all collapse to `Ok(None)`; a
    /// value that is exclusively borrowed out is an aliasing violation,
    /// reported as `Borrowed`.
    pub fn get_component(&self, e: EntityId, key: u64) -> (r: Result<Option<&C>, AccessError>)
        ensures
            match r {
                Ok(Some(v)) => self@.cell(key, e) == Some(CellState::Present(*v)),
                Ok(None) => self@.cell(key, e) is None,
                Err(err) => err == AccessError::Borrowed && self@.cell(key, e) == Some(
                    CellState::<C>::Taken,
                ),
            },
    {
        match self.find_store(key) {
            None => Ok(None),
            Some(i) => self.stores[i].storage.get(e),
        }
    }

    /// Begins an exclusive borrow of the value under `key` for `e`: the
    /// value moves out of the store and its cell is marked until
    /// `release_component` returns it. Absence collapses to `Ok(None)`; a
    /// cell already borrowed out is an aliasing violation, reported as
    /// `Borrowed`.
    pub fn get_component_mut(&mut self, e: EntityId, key: u64) -> (r: Result<
        Option<C>,
        AccessError,
    >)
        requires
            old(self)@.wf(),
        ensures
            final(self)@ == old(self)@.spec_take_component(e, key).0,
            r == old(self)@.spec_take_component(e, key).1,
            final(self)@.wf(),
            r matches Ok(Some(v)) ==> old(self)@.component(key, e) == Some(v)
                && final(self)@.cell(key, e) == Some(CellState::<C>::Taken),
            r is Err ==> final(self)@ == old(self)@ && old(self)@.cell(key, e) == Some(
                CellState::<C>::Taken,
            ),
    {
        let ghost m0 = self@;
        let si = match self.find_store(key) {
            None => {
                return Ok(None);
            },
            Some(i) => i,
        };
        let st = &mut self.stores[si];
        let r = st.storage.get_mut(e);
        proof {
            assert(self@ =~~= m0.spec_take_component(e, key).0);
            lemma_take_component_wf(m0, e, key);
            assert(forall|j: int|
                0 <= j < m0.stores.len() ==> m0.stores[j].key == (#[trigger] self@.stores[j]).key);
            lemma_find_store_same_keys(m0.stores, self@.stores, key, 0);
        }
        r
    }

    /// Ends an exclusive borrow begun by `get_component_mut`, moving `value`
    /// back into `e`'s cell under `key`. Returning to a cell that has no
    /// outstanding exclusive borrow is a fatal usage error, reported as
    /// `NotBorrowed` (`NotRegistered` when the key has no store), and the
    /// value is discarded.
    pub fn release_component(&mut self, e: EntityId, key: u64, value: C) -> (r: Result<
        (),
        AccessError,
    >)
        requires
            old(self)@.wf(),
        ensures
            final(self)@ == old(self)@.spec_put_component(e, key, value).0,
            r == old(self)@.spec_put_component(e, key, value).1,
            final(self)@.wf(),
            r is Ok ==> final(self)@.component(key, e) == Some(value),
            r is Ok <==> old(self)@.cell(key, e) == Some(CellState::<C>::Taken),
    {
        let ghost m0 = self@;
        let si = match self.find_store(key) {
            None => {
                return Err(AccessError::NotRegistered);
            },
            Some(i) => i,
        };
        let st = &mut self.stores[si];
        let r = st.storage.put_back(e, value);
        proof {
            assert(self@ =~~= m0.spec_put_component(e, key, value).0);
            lemma_put_component_wf(m0, e, key, value);
            assert(forall|j: int|
                0 <= j < m0.stores.len() ==> m0.stores[j].key == (#[trigger] self@.stores[j]).key);
            lemma_find_store_same_keys(m0.stores, self@.stores, key, 0);
        }
        r
    }

    /// Removes the entity `e`: releases its slot and detaches every
    /// component attached to it, so no store keeps a value of an entity that
    /// no longer exists. Fails with `Borrowed`, changing nothing, while any
    /// of `e`'s values is exclusively borrowed out. Removing an identity
    /// that is not live does nothing.
    pub fn remove_entity(&mut self, e: EntityId) -> (r: Result<(), AccessError>)
        requires
            old(self)@.wf(),
        ensures
            final(self)@ == old(self)@.spec_remove_entity(e).0,
            r == old(self)@.spec_remove_entity(e).1,
            final(self)@.wf(),
            r is Ok ==> !final(self)@.live(e) && forall|key: u64|
                final(self)@.cell(key, e) is None,
            r is Ok ==> forall|e2: EntityId| e2 != e ==> final(self)@.live(e2) == old(
                self,
            )@.live(e2),
    {
        let ghost m0 = self@;
        let n = self.stores.len();
        let mut i: usize = 0;
        while i < n
            invariant
                0 <= i <= n,
                n == self@.stores.len(),
                m0 == old(self)@,
                m0.wf(),
                self@ == m0,
                forall|j: int|
                    0 <= j < i ==> cell_at(#[trigger] m0.stores[j].cells, e) != Some(
                        CellState::<C>::Taken,
                    ),
            decreases n - i,
        {
            let taken = match self.stores[i].storage.get(e) {
                Err(_) => true,
                Ok(_) => false,
            };
            if taken {
                proof {
                    assert(cell_at(m0.stores[i as int].cells, e) == Some(CellState::<C>::Taken));
                    assert(m0.any_taken_for(e));
                }
                return Err(AccessError::Borrowed);
            }
            i = i + 1;
        }
        proof {
            assert(!m0.any_taken_for(e));
        }
        let mut i: usize = 0;
        while i < n
            invariant
                0 <= i <= n,
                n == self@.stores.len(),
                m0 == old(self)@,
                m0.wf(),
                !m0.any_taken_for(e),
                self@.slots == m0.slots,
                self@.resources == m0.resources,
                self@.queue == m0.queue,
                self@.active == m0.active,
                forall|j: int|
                    i <= j < n ==> (#[trigger] self@.stores[j]) == m0.stores[j],
                forall|j: int|
                    0 <= j < i ==> (#[trigger] self@.stores[j]) == (StoreM {
                        key: m0.stores[j].key,
                        cells: spec_store_remove(m0.stores[j].cells, e).0,
                    }),
                forall|j: int|
                    0 <= j < n ==> cell_at(#[trigger] self@.stores[j].cells, e) != Some(
                        CellState::<C>::Taken,
                    ),
            decreases n - i,
        {
            let ghost prev = self@;
            proof {
                assert(cell_at(prev.stores[i as int].cells, e) != Some(CellState::<C>::Taken));
            }
            let st = &mut self.stores[i];
            let rr = st.storage.remove(e);
            proof {
                assert(rr is Ok);
                assert(self@.stores =~~= prev.stores.update(
                    i as int,
                    StoreM {
                        key: prev.stores[i as int].key,
                        cells: spec_store_remove(prev.stores[i as int].cells, e).0,
                    },
                ));
            }
            i = i + 1;
        }
        self.allocator.release(e);
        proof {
            assert(self@ =~~= m0.spec_remove_entity(e).0);
            lemma_remove_entity_wf(m0, e);
            assert(forall|j: int|
                0 <= j < self@.stores.len() ==> cell_at(
                    #[trigger] self@.stores[j].cells,
                    e,
                ) is None);
            assert forall|key: u64| self@.cell(key, e) is None by {
                lemma_find_store_sound(self@.stores, key, 0);
            }
        }
        Ok(())
    }

    /// Inserts or replaces the singleton resource under `key`, returning the
    /// prior value if one was kept. Resources need no registration step.
    /// Replacing while the resource is exclusively borrowed out is an
    /// aliasing violation, reported as `Borrowed`.
    pub fn add_resource(&mut self, key: u64, value: C) -> (r: Result<Option<C>, AccessError>)
        requires
            old(self)@.wf(),
        ensures
            final(self)@ == old(self)@.spec_add_resource(key, value).0,
            r == old(self)@.spec_add_resource(key, value).1,
            final(self)@.wf(),
            r is Ok ==> final(self)@.resource(key) == Some(value) && r == Ok::<
                Option<C>,
                AccessError,
            >(old(self)@.resource(key)),
    {
        let ghost m0 = self@;
        match self.find_resource(key) {
            Some(i) => {
                let slot = &mut self.resources[i];
                let mut prior = CellState::Taken;
                core::mem::swap(&mut prior, &mut slot.state);
                match prior {
                    CellState::Present(u) => {
                        slot.state = CellState::Present(value);
                        proof {
                            assert(self@ =~~= m0.spec_add_resource(key, value).0);
                            lemma_add_resource_wf(m0, key, value);
                            assert(forall|j: int|
                                0 <= j < m0.resources.len() ==> m0.resources[j].key == (
                                #[trigger] self@.resources[j]).key);
                            lemma_find_resource_same_keys(m0.resources, self@.resources, key, 0);
                        }
                        Ok(Some(u))
                    },
                    CellState::Taken => {
                        slot.state = CellState::Taken;
                        proof {
                            assert(self@ =~~= m0);
                        }
                        Err(AccessError::Borrowed)
                    },
                }
            },
            None => {
                self.resources.push(ResourceSlot { key, state: CellState::Present(value) });
                proof {
                    assert(self@ =~~= m0.spec_add_resource(key, value).0);
                    lemma_add_resource_wf(m0, key, value);
                    assert(self@.resources[self@.resources.len() - 1].key == key);
                    lemma_find_resource_sound(self@.resources, key, 0);
                }
                Ok(None)
            },
        }
    }

    /// A shared borrow of the resource under `key`: `Ok(None)` when none was
    /// ever added, `Borrowed` when it is exclusively borrowed out.
    pub fn get_resource(&self, key: u64) -> (r: Result<Option<&C>, AccessError>)
        ensures
            match r {
                Ok(Some(v)) => self@.res_cell(key) == Some(CellState::Present(*v)),
                Ok(None) => self@.res_cell(key) is None,
                Err(err) => err == AccessError::Borrowed && self@.res_cell(key) == Some(
                    CellState::<C>::Taken,
                ),
            },
    {
        match self.find_resource(key) {
            None => Ok(None),
            Some(i) => match &self.resources[i].state {
                CellState::Present(v) => Ok(Some(v)),
                CellState::Taken => Err(AccessError::Borrowed),
            },
        }
    }

    /// Begins an exclusive borrow of the resource under `key`: the value
    /// moves out and the slot is marked until `put_resource` returns it.
    /// `Ok(None)` when no resource was ever added under `key`; `Borrowed`
    /// when it is already borrowed out.
    pub fn get_resource_mut(&mut self, key: u64) -> (r: Result<Option<C>, AccessError>)
        requires
            old(self)@.wf(),
        ensures
            final(self)@ == old(self)@.spec_take_resource(key).0,
            r == old(self)@.spec_take_resource(key).1,
            final(self)@.wf(),
            r matches Ok(Some(v)) ==> old(self)@.resource(key) == Some(v)
                && final(self)@.res_cell(key) == Some(CellState::<C>::Taken),
    {
        let ghost m0 = self@;
        match self.find_resource(key) {
            None => Ok(None),
            Some(i) => {
                let slot = &mut self.resources[i];
                let mut prior = CellState::Taken;
                core::mem::swap(&mut prior, &mut slot.state);
                match prior {
                    CellState::Present(u) => {
                        proof {
                            assert(self@ =~~= m0.spec_take_resource(key).0);
                            lemma_take_resource_wf(m0, key);
                            assert(forall|j: int|
                                0 <= j < m0.resources.len() ==> m0.resources[j].key == (
                                #[trigger] self@.resources[j]).key);
                            lemma_find_resource_same_keys(m0.resources, self@.resources, key, 0);
                        }
                        Ok(Some(u))
                    },
                    CellState::Taken => {
                        proof {
                            assert(self@ =~~= m0);
                        }
                        Err(AccessError::Borrowed)
                    },
                }
            },
        }
    }

    /// Ends an exclusive borrow begun by `get_resource_mut`, moving `value`
    /// back in. Returning a resource that is not borrowed out is a fatal
    /// usage error, reported as `NotBorrowed`, and the value is discarded.
    pub fn put_resource(&mut self, key: u64, value: C) -> (r: Result<(), AccessError>)
        requires
            old(self)@.wf(),
        ensures
            final(self)@ == old(self)@.spec_put_resource(key, value).0,
            r == old(self)@.spec_put_resource(key, value).1,
            final(self)@.wf(),
            r is Ok ==> final(self)@.resource(key) == Some(value),
            r is Ok <==> old(self)@.res_cell(key) == Some(CellState::<C>::Taken),
    {
        let ghost m0 = self@;
        match self.find_resource(key) {
            None => Err(AccessError::NotBorrowed),
            Some(i) => {
                let slot = &mut self.resources[i];
                let mut prior = CellState::Taken;
                core::mem::swap(&mut prior, &mut slot.state);
                match prior {
                    CellState::Taken => {
                        slot.state = CellState::Present(value);
                        proof {
                            assert(self@ =~~= m0.spec_put_resource(key, value).0);
                            lemma_put_resource_wf(m0, key, value);
                            assert(forall|j: int|
                                0 <= j < m0.resources.len() ==> m0.resources[j].key == (
                                #[trigger] self@.resources[j]).key);
                            lemma_find_resource_same_keys(m0.resources, self@.resources, key, 0);
                        }
                        Ok(())
                    },
                    CellState::Present(u) => {
                        slot.state = CellState::Present(u);
                        proof {
                            assert(self@ =~~= m0);
                        }
                        Err(AccessError::NotBorrowed)
                    },
                }
            },
        }
    }

    /// A shared view of the pending command queue.
    pub fn get_commands(&self) -> (r: &Commands<C>)
        ensures
            r.queue@ == self@.queue,
    {
        &self.commands
    }

    /// Appends a deferred intent to the command queue. Nothing else about
    /// the world changes: the intent has no visible effect until the queue
    /// is drained.
    pub fn add_command(&mut self, command: Command<C>)
        ensures
            final(self)@ == old(self)@.with_queue(old(self)@.queue.push(command)),
            old(self)@.wf() ==> final(self)@.wf(),
    {
        let ghost m0 = self@;
        self.commands.add_command(command);
        proof {
            assert(self@ =~~= m0.with_queue(m0.queue.push(command)));
        }
    }

    /// Takes the whole pending queue, leaving an empty one behind.
    pub fn take_commands(&mut self) -> (q: Commands<C>)
        ensures
            q.queue@ == old(self)@.queue,
            final(self)@ == old(self)@.with_queue(Seq::empty()),
            old(self)@.wf() ==> final(self)@.wf(),
    {
        let ghost m0 = self@;
        let mut q = Commands::new();
        core::mem::swap(&mut q, &mut self.commands);
        proof {
            assert(self@ =~~= m0.with_queue(Seq::empty()));
        }
        q
    }

    /// Whether the world is still active: the driver loop keeps cycling
    /// while this holds.
    pub fn active(&self) -> (r: bool)
        ensures
            r == self@.active,
    {
        self.active
    }

    /// Requests shutdown by clearing the active flag. The driver observes
    /// the flag only at its cycle boundary, so the current cycle always runs
    /// to completion.
    pub fn shutdown(&mut self)
        ensures
            final(self)@ == old(self)@.spec_shutdown(),
            old(self)@.wf() ==> final(self)@.wf(),
    {
        let ghost m0 = self@;
        self.active = false;
        proof {
            assert(self@ =~~= m0.spec_shutdown());
        }
    }
}

pub proof fn lemma_register_wf<C: Component>(m: WorldM<C>, key: u64)
    requires
        m.wf(),
    ensures
        m.spec_register(key).wf(),
{
    lemma_find_store_sound(m.stores, key, 0);
    let m2 = m.spec_register(key);
    assert(m2.cells_wf(Seq::empty()));
    assert forall|i: int| 0 <= i < m2.stores.len() implies m2.cells_wf(
        #[trigger] m2.stores[i].cells,
    ) by {
        if m2.stores[i].cells != Seq::<Option<StoreCell<C>>>::empty() {
            assert(m2.stores[i].cells == m.stores[i].cells);
        }
    }
    match m.store_index(key) {
        Some(_) => {},
        None => {
            assert forall|i: int, j: int| 0 <= i < j < m2.stores.len() implies (
            #[trigger] m2.stores[i].key) != (#[trigger] m2.stores[j].key) by {
                if j == m2.stores.len() - 1 {
                    assert(m.stores[i].key != key);
                }
            }
        },
    }
}

pub proof fn lemma_new_entity_wf<C: Component>(m: WorldM<C>)
    requires
        m.wf(),
    ensures
        m.spec_new_entity().0.wf(),
{
    crate::allocator::lemma_first_free_sound(m.slots, 0);
    let m2 = m.spec_new_entity().0;
    assert forall|i: int| 0 <= i < m2.stores.len() implies m2.cells_wf(
        #[trigger] m2.stores[i].cells,
    ) by {
        assert(m.cells_wf(m.stores[i].cells));
        let cells = m2.stores[i].cells;
        assert forall|x: int|
            0 <= x < cells.len() && (#[trigger] cells[x]) is Some implies m2.slots[x].occupied
            && m2.slots[x].generation == cells[x]->Some_0.generation by {
            assert(m.slots[x].occupied);
            assert(m2.slots[x] == m.slots[x]);
        }
    }
}

pub proof fn lemma_add_component_wf<C: Component>(m: WorldM<C>, e: EntityId, key: u64, v: C)
    requires
        m.wf(),
    ensures
        m.spec_add_component(e, key, v).0.wf(),
{
    lemma_find_store_sound(m.stores, key, 0);
    let m2 = m.spec_add_component(e, key, v).0;
    if m.registered(key) && m.live(e) {
        let si = m.store_index(key)->Some_0;
        let cells2 = spec_store_insert(m.stores[si].cells, e, v).0;
        assert(m.cells_wf(m.stores[si].cells));
        assert forall|i: int| 0 <= i < m2.stores.len() implies m2.cells_wf(
            #[trigger] m2.stores[i].cells,
        ) by {
            assert(m.cells_wf(m.stores[i].cells));
            if i == si {
                assert(m2.stores[i].cells == cells2);
                assert(m2.cells_wf(cells2)) by {
                    let old_cells = m.stores[si].cells;
                    assert forall|x: int|
                        0 <= x < cells2.len() && (#[trigger] cells2[x]) is Some implies
                        m2.slots[x].occupied && m2.slots[x].generation
                            == cells2[x]->Some_0.generation by {
                        if x != e.index {
                            assert(cells2[x] == if x < old_cells.len() {
                                old_cells[x]
                            } else {
                                None
                            });
                        }
                    }
                }
            }
        }
    }
}

pub proof fn lemma_remove_component_wf<C: Component>(m: WorldM<C>, e: EntityId, key: u64)
    requires
        m.wf(),
    ensures
        m.spec_remove_component(e, key).0.wf(),
{
    lemma_find_store_sound(m.stores, key, 0);
    let m2 = m.spec_remove_component(e, key).0;
    if m.registered(key) {
        let si = m.store_index(key)->Some_0;
        assert forall|i: int| 0 <= i < m2.stores.len() implies m2.cells_wf(
            #[trigger] m2.stores[i].cells,
        ) by {
            assert(m.cells_wf(m.stores[i].cells));
            if i == si {
                let cells2 = m2.stores[i].cells;
                let old_cells = m.stores[si].cells;
                assert forall|x: int|
                    0 <= x < cells2.len() && (#[trigger] cells2[x]) is Some implies
                    m2.slots[x].occupied && m2.slots[x].generation
                        == cells2[x]->Some_0.generation by {
                    assert(cells2[x] == old_cells[x] || cells2[x] is None);
                }
            }
        }
    }
}

pub proof fn lemma_take_component_wf<C: Component>(m: WorldM<C>, e: EntityId, key: u64)
    requires
        m.wf(),
    ensures
        m.spec_take_component(e, key).0.wf(),
{
    lemma_find_store_sound(m.stores, key, 0);
    let m2 = m.spec_take_component(e, key).0;
    if m.registered(key) {
        let si = m.store_index(key)->Some_0;
        assert forall|i: int| 0 <= i < m2.stores.len() implies m2.cells_wf(
            #[trigger] m2.stores[i].cells,
        ) by {
            assert(m.cells_wf(m.stores[i].cells));
            if i == si {
                let cells2 = m2.stores[i].cells;
                let old_cells = m.stores[si].cells;
                assert forall|x: int|
                    0 <= x < cells2.len() && (#[trigger] cells2[x]) is Some implies
                    m2.slots[x].occupied && m2.slots[x].generation
                        == cells2[x]->Some_0.generation by {
                    if x != e.index {
                        assert(cells2[x] == old_cells[x]);
                    } else {
                        assert(cells2[x] is Some ==> old_cells[x] is Some
                            && cells2[x]->Some_0.generation == old_cells[x]->Some_0.generation);
                    }
                }
            }
        }
    }
}

pub proof fn lemma_put_component_wf<C: Component>(m: WorldM<C>, e: EntityId, key: u64, v: C)
    requires
        m.wf(),
    ensures
        m.spec_put_component(e, key, v).0.wf(),
{
    lemma_find_store_sound(m.stores, key, 0);
    let m2 = m.spec_put_component(e, key, v).0;
    if m.registered(key) {
        let si = m.store_index(key)->Some_0;
        assert forall|i: int| 0 <= i < m2.stores.len() implies m2.cells_wf(
            #[trigger] m2.stores[i].cells,
        ) by {
            assert(m.cells_wf(m.stores[i].cells));
            if i == si {
                let cells2 = m2.stores[i].cells;
                let old_cells = m.stores[si].cells;
                assert forall|x: int|
                    0 <= x < cells2.len() && (#[trigger] cells2[x]) is Some implies
                    m2.slots[x].occupied && m2.slots[x].generation
                        == cells2[x]->Some_0.generation by {
                    if x != e.index {
                        assert(cells2[x] == old_cells[x]);
                    } else {
                        assert(cells2[x] is Some ==> old_cells[x] is Some
                            && cells2[x]->Some_0.generation == old_cells[x]->Some_0.generation);
                    }
                }
            }
        }
    }
}

pub proof fn lemma_remove_entity_wf<C: Component>(m: WorldM<C>, e: EntityId)
    requires
        m.wf(),
    ensures
        m.spec_remove_entity(e).0.wf(),
{
    let m2 = m.spec_remove_entity(e).0;
    if !m.any_taken_for(e) {
        assert forall|i: int| 0 <= i < m2.stores.len() implies m2.cells_wf(
            #[trigger] m2.stores[i].cells,
        ) by {
            assert(m.cells_wf(m.stores[i].cells));
            let cells2 = m2.stores[i].cells;
            let old_cells = m.stores[i].cells;
            assert(cells2 == spec_store_remove(old_cells, e).0);
            assert forall|x: int|
                0 <= x < cells2.len() && (#[trigger] cells2[x]) is Some implies
                m2.slots[x].occupied && m2.slots[x].generation
                    == cells2[x]->Some_0.generation by {
                assert(cells2[x] == old_cells[x] || cells2[x] is None);
                if x == e.index && slot_live(m.slots, e) {
                    assert(cell_at(old_cells, e) is None || cells2[x] is None);
                }
            }
        }
    }
}

pub proof fn lemma_add_resource_wf<C: Component>(m: WorldM<C>, key: u64, v: C)
    requires
        m.wf(),
    ensures
        m.spec_add_resource(key, v).0.wf(),
{
    lemma_find_resource_sound(m.resources, key, 0);
    let m2 = m.spec_add_resource(key, v).0;
    match m.resource_index(key) {
        Some(_) => {},
        None => {
            if m2.resources.len() == m.resources.len() + 1 {
                assert forall|i: int, j: int| 0 <= i < j < m2.resources.len() implies (
                #[trigger] m2.resources[i].key) != (#[trigger] m2.resources[j].key) by {
                    if j == m2.resources.len() - 1 {
                        assert(m.resources[i].key != key);
                    }
                }
            }
        },
    }
}

pub proof fn lemma_take_resource_wf<C: Component>(m: WorldM<C>, key: u64)
    requires
        m.wf(),
    ensures
        m.spec_take_resource(key).0.wf(),
{
    lemma_find_resource_sound(m.resources, key, 0);
}

pub proof fn lemma_put_resource_wf<C: Component>(m: WorldM<C>, key: u64, v: C)
    requires
        m.wf(),
    ensures
        m.spec_put_resource(key, v).0.wf(),
{
    lemma_find_resource_sound(m.resources, key, 0);
}

} // verus!
