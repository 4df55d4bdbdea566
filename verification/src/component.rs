//! Component values and the per-type component store.
//!
//! A `ComponentStorage<T>` holds at most one value of type `T` per entity,
//! in a dense array indexed by the entity's slot index. Each stored value
//! carries the generation of the identity it was attached under, so a stale
//! identity never observes a newer entity's value.
//!
//! Every stored value is guarded independently. Shared access hands out
//! plain references, which the borrow checker already keeps apart from
//! mutation. Exclusive access is an explicit pair of moves tracked by the
//! guard: `get_mut` moves the value out and marks the cell `Taken`, and
//! `put_back` returns it. Any access to a cell that is `Taken` reports the
//! aliasing violation as `AccessError::Borrowed` instead of handing out
//! stale data.

use vstd::prelude::*;

use crate::allocator::EntityId;
use crate::component_array::ComponentArray;
use crate::component_array::spec_resize_none;

verus! {

/// The marker capability for values that may be stored in a `World`, either
/// attached to entities as components or kept as singleton resources.
pub trait Component {}

/// How a usage error or an aliasing violation is reported.
///
/// `NotRegistered`, `Borrowed` and `NotBorrowed` are fatal usage errors: they
/// mean a bug in calling code, and a host should treat them as unrecoverable.
/// `NoSuchEntity` rejects attaching a value to an identity that is not live.
/// Expected absence is never an error: lookups of missing values return
/// `None` inside `Ok`.
#[derive(Clone, Copy, PartialEq, Eq, Structural, Debug)]
pub enum AccessError {
    /// A component type was used before a store was registered for it.
    NotRegistered,
    /// The value is moved out through an outstanding exclusive borrow.
    Borrowed,
    /// An exclusive borrow was returned to a cell that has none outstanding.
    NotBorrowed,
    /// The entity identity is not live, so nothing can be attached to it.
    NoSuchEntity,
}

/// The guard state of one stored value: present and free to borrow, or moved
/// out through an outstanding exclusive borrow.
pub enum CellState<T> {
    Present(T),
    Taken,
}

/// One cell of a component store: the generation of the identity the value
/// was attached under, and the guarded value itself.
pub struct StoreCell<T> {
    pub generation: u64,
    pub state: CellState<T>,
}

/// The guard cell that `cells` records for identity `e`: its slot's cell, if
/// that cell was written under `e`'s generation.
pub open spec fn cell_at<T>(cells: Seq<Option<StoreCell<T>>>, e: EntityId) -> Option<
    CellState<T>,
> {
    if e.index < cells.len() {
        match cells[e.index as int] {
            Some(c) => if c.generation == e.generation {
                Some(c.state)
            } else {
                None
            },
            None => None,
        }
    } else {
        None
    }
}

/// The value `cells` holds for `e`, when it is present and not borrowed out.
pub open spec fn value_at<T>(cells: Seq<Option<StoreCell<T>>>, e: EntityId) -> Option<T> {
    match cell_at(cells, e) {
        Some(CellState::Present(v)) => Some(v),
        _ => None,
    }
}

/// What inserting `v` for `e` does to the cells, and what it returns: the
/// prior value if `e` already had one, an aliasing error if `e`'s value is
/// borrowed out, and otherwise a fresh cell (replacing any cell left by a
/// different generation of the same slot).
pub open spec fn spec_store_insert<T>(cells: Seq<Option<StoreCell<T>>>, e: EntityId, v: T) -> (
    Seq<Option<StoreCell<T>>>,
    Result<Option<T>, AccessError>,
) {
    match cell_at(cells, e) {
        Some(CellState::Present(u)) => (
            cells.update(
                e.index as int,
                Some(StoreCell { generation: e.generation, state: CellState::Present(v) }),
            ),
            Ok(Some(u)),
        ),
        Some(CellState::Taken) => (cells, Err(AccessError::Borrowed)),
        None => (
            spec_resize_none(cells, vstd::math::max(cells.len() as int, e.index + 1)).update(
                e.index as int,
                Some(StoreCell { generation: e.generation, state: CellState::Present(v) }),
            ),
            Ok(None),
        ),
    }
}

/// What removing `e`'s value does: the value comes out and the cell is
/// cleared; removing while borrowed out is an aliasing error; removing an
/// absent value does nothing.
pub open spec fn spec_store_remove<T>(cells: Seq<Option<StoreCell<T>>>, e: EntityId) -> (
    Seq<Option<StoreCell<T>>>,
    Result<Option<T>, AccessError>,
) {
    match cell_at(cells, e) {
        Some(CellState::Present(u)) => (cells.update(e.index as int, None), Ok(Some(u))),
        Some(CellState::Taken) => (cells, Err(AccessError::Borrowed)),
        None => (cells, Ok(None)),
    }
}

/// What beginning an exclusive borrow does: the value moves out and the cell
/// is marked `Taken`; a second exclusive borrow of the same cell is an
/// aliasing error; an absent value is reported as absent.
pub open spec fn spec_store_take<T>(cells: Seq<Option<StoreCell<T>>>, e: EntityId) -> (
    Seq<Option<StoreCell<T>>>,
    Result<Option<T>, AccessError>,
) {
    match cell_at(cells, e) {
        Some(CellState::Present(u)) => (
            cells.update(
                e.index as int,
                Some(StoreCell { generation: e.generation, state: CellState::Taken }),
            ),
            Ok(Some(u)),
        ),
        Some(CellState::Taken) => (cells, Err(AccessError::Borrowed)),
        None => (cells, Ok(None)),
    }
}

/// What ending an exclusive borrow does: the value moves back into the cell;
/// a cell with no outstanding exclusive borrow rejects the return.
pub open spec fn spec_store_put<T>(cells: Seq<Option<StoreCell<T>>>, e: EntityId, v: T) -> (
    Seq<Option<StoreCell<T>>>,
    Result<(), AccessError>,
) {
    match cell_at(cells, e) {
        Some(CellState::Taken) => (
            cells.update(
                e.index as int,
                Some(StoreCell { generation: e.generation, state: CellState::Present(v) }),
            ),
            Ok(()),
        ),
        _ => (cells, Err(AccessError::NotBorrowed)),
    }
}

/// A component store: the values of one component type for all entities,
/// each in an independently guarded cell.
pub struct ComponentStorage<T: Component> {
    pub cells: Vec<Option<StoreCell<T>>>,
}

impl<T: Component> View for ComponentStorage<T> {
    type V = Seq<Option<StoreCell<T>>>;

    open spec fn view(&self) -> Seq<Option<StoreCell<T>>> {
        self.cells@
    }
}

impl<T: Component> ComponentStorage<T> {
    /// A fresh store holding no values.
    pub fn new() -> (s: Self)
        ensures
            s@ == Seq::<Option<StoreCell<T>>>::empty(),
    {
        let cells = Vec::new();
        proof {
            assert(cells@ =~= Seq::<Option<StoreCell<T>>>::empty());
        }
        ComponentStorage { cells }
    }

    /// Attaches `value` to `e`, returning the prior value if `e` already had
    /// one. Fails with `Borrowed` when `e`'s value is exclusively borrowed
    /// out, leaving the store unchanged.
    pub fn insert(&mut self, e: EntityId, value: T) -> (r: Result<Option<T>, AccessError>)
        requires
            e.index < usize::MAX,
        ensures
            final(self)@ == spec_store_insert(old(self)@, e, value).0,
            r == spec_store_insert(old(self)@, e, value).1,
            r is Ok ==> cell_at(final(self)@, e) == Some(CellState::Present(value)),
            r is Ok ==> r == Ok::<Option<T>, AccessError>(value_at(old(self)@, e)),
            r is Err ==> final(self)@ == old(self)@ && r == Err::<Option<T>, AccessError>(
                AccessError::Borrowed,
            ) && cell_at(old(self)@, e) == Some(CellState::<T>::Taken),
            forall|e2: EntityId| e2.index != e.index ==> cell_at(final(self)@, e2) == cell_at(
                old(self)@,
                e2,
            ),
    {
        let ghost cells0 = self.cells@;
        if e.index >= self.cells.len() {
            self.cells.resize_with_none(e.index + 1);
            proof {
                assert(cell_at(self.cells@, e) is None);
                assert(spec_resize_none(cells0, vstd::math::max(cells0.len() as int, e.index + 1))
                    == spec_resize_none(cells0, e.index + 1));
            }
        }
        let ghost grown = self.cells@;
        proof {
            assert(forall|e2: EntityId| cell_at(grown, e2) == cell_at(cells0, e2)) by {
                assert(forall|e2: EntityId|
                    e2.index < cells0.len() ==> grown[e2.index as int] == cells0[e2.index as int]);
                assert(forall|e2: EntityId|
                    cells0.len() <= e2.index < grown.len() ==> grown[e2.index as int] is None);
            }
        }
        let idx = e.index;
        let taken = self.cells[idx].take();
        match taken {
            Some(c) => {
                if c.generation == e.generation {
                    let StoreCell { generation, state } = c;
                    match state {
                        CellState::Present(u) => {
                            self.cells[idx] = Some(
                                StoreCell { generation, state: CellState::Present(value) },
                            );
                            proof {
                                assert(self.cells@ =~= spec_store_insert(cells0, e, value).0);
                            }
                            Ok(Some(u))
                        },
                        CellState::Taken => {
                            self.cells[idx] = Some(
                                StoreCell { generation, state: CellState::Taken },
                            );
                            proof {
                                assert(self.cells@ =~= cells0);
                            }
                            Err(AccessError::Borrowed)
                        },
                    }
                } else {
                    self.cells[idx] = Some(
                        StoreCell { generation: e.generation, state: CellState::Present(value) },
                    );
                    proof {
                        assert(self.cells@ =~= spec_store_insert(cells0, e, value).0);
                    }
                    Ok(None)
                }
            },
            None => {
                self.cells[idx] = Some(
                    StoreCell { generation: e.generation, state: CellState::Present(value) },
                );
                proof {
                    assert(self.cells@ =~= spec_store_insert(cells0, e, value).0);
                }
                Ok(None)
            },
        }
    }

    /// Detaches and returns `e`'s value if present. Fails with `Borrowed`
    /// when the value is exclusively borrowed out.
    pub fn remove(&mut self, e: EntityId) -> (r: Result<Option<T>, AccessError>)
        ensures
            final(self)@ == spec_store_remove(old(self)@, e).0,
            r == spec_store_remove(old(self)@, e).1,
            r is Ok ==> cell_at(final(self)@, e) is None && r == Ok::<Option<T>, AccessError>(
                value_at(old(self)@, e),
            ),
            r is Err ==> final(self)@ == old(self)@ && r == Err::<Option<T>, AccessError>(
                AccessError::Borrowed,
            ),
            forall|e2: EntityId| e2.index != e.index ==> cell_at(final(self)@, e2) == cell_at(
                old(self)@,
                e2,
            ),
    {
        if e.index >= self.cells.len() {
            return Ok(None);
        }
        let ghost cells0 = self.cells@;
        let idx = e.index;
        let taken = self.cells[idx].take();
        match taken {
            Some(c) => {
                if c.generation == e.generation {
                    let StoreCell { generation, state } = c;
                    match state {
                        CellState::Present(u) => {
                            proof {
                                assert(self.cells@ =~= spec_store_remove(cells0, e).0);
                            }
                            Ok(Some(u))
                        },
                        CellState::Taken => {
                            self.cells[idx] = Some(
                                StoreCell { generation, state: CellState::Taken },
                            );
                            proof {
                                assert(self.cells@ =~= cells0);
                            }
                            Err(AccessError::Borrowed)
                        },
                    }
                } else {
                    self.cells[idx] = Some(c);
                    proof {
                        assert(self.cells@ =~= cells0);
                    }
                    Ok(None)
                }
            },
            None => {
                proof {
                    assert(self.cells@ =~= cells0);
                }
                Ok(None)
            },
        }
    }

    /// Whether `e` has a value in this store, borrowed out or not.
    pub fn contains(&self, e: EntityId) -> (r: bool)
        ensures
            r == (cell_at(self@, e) is Some),
    {
        if e.index >= self.cells.len() {
            return false;
        }
        match &self.cells[e.index] {
            Some(c) => c.generation == e.generation,
            None => false,
        }
    }

    /// A shared borrow of `e`'s value: absent values are reported as absent,
    /// and a value that is exclusively borrowed out is an aliasing violation,
    /// reported as `Borrowed`.
    pub fn get(&self, e: EntityId) -> (r: Result<Option<&T>, AccessError>)
        ensures
            match r {
                Ok(Some(v)) => cell_at(self@, e) == Some(CellState::Present(*v)),
                Ok(None) => cell_at(self@, e) is None,
                Err(err) => err == AccessError::Borrowed && cell_at(self@, e) == Some(
                    CellState::<T>::Taken,
                ),
            },
    {
        if e.index >= self.cells.len() {
            return Ok(None);
        }
        match &self.cells[e.index] {
            Some(c) => {
                if c.generation != e.generation {
                    Ok(None)
                } else {
                    match &c.state {
                        CellState::Present(v) => Ok(Some(v)),
                        CellState::Taken => Err(AccessError::Borrowed),
                    }
                }
            },
            None => Ok(None),
        }
    }

    /// Begins an exclusive borrow of `e`'s value: the value moves out and the
    /// cell is marked until `put_back` returns it. A cell already borrowed
    /// out is an aliasing violation, reported as `Borrowed`.
    pub fn get_mut(&mut self, e: EntityId) -> (r: Result<Option<T>, AccessError>)
        ensures
            final(self)@ == spec_store_take(old(self)@, e).0,
            r == spec_store_take(old(self)@, e).1,
            r matches Ok(Some(v)) ==> cell_at(old(self)@, e) == Some(CellState::Present(v))
                && cell_at(final(self)@, e) == Some(CellState::<T>::Taken),
            r is Err ==> final(self)@ == old(self)@ && cell_at(old(self)@, e) == Some(
                CellState::<T>::Taken,
            ),
            forall|e2: EntityId| e2.index != e.index ==> cell_at(final(self)@, e2) == cell_at(
                old(self)@,
                e2,
            ),
    {
        if e.index >= self.cells.len() {
            return Ok(None);
        }
        let ghost cells0 = self.cells@;
        let idx = e.index;
        let taken = self.cells[idx].take();
        match taken {
            Some(c) => {
                if c.generation == e.generation {
                    let StoreCell { generation, state } = c;
                    match state {
                        CellState::Present(u) => {
                            self.cells[idx] = Some(
                                StoreCell { generation, state: CellState::Taken },
                            );
                            proof {
                                assert(self.cells@ =~= spec_store_take(cells0, e).0);
                            }
                            Ok(Some(u))
                        },
                        CellState::Taken => {
                            self.cells[idx] = Some(
                                StoreCell { generation, state: CellState::Taken },
                            );
                            proof {
                                assert(self.cells@ =~= cells0);
                            }
                            Err(AccessError::Borrowed)
                        },
                    }
                } else {
                    self.cells[idx] = Some(c);
                    proof {
                        assert(self.cells@ =~= cells0);
                    }
                    Ok(None)
                }
            },
            None => {
                proof {
                    assert(self.cells@ =~= cells0);
                }
                Ok(None)
            },
        }
    }

    /// Ends an exclusive borrow of `e`'s value, moving `value` back into the
    /// cell. A cell with no outstanding exclusive borrow rejects the return
    /// with `NotBorrowed`, and `value` is discarded.
    pub fn put_back(&mut self, e: EntityId, value: T) -> (r: Result<(), AccessError>)
        ensures
            final(self)@ == spec_store_put(old(self)@, e, value).0,
            r == spec_store_put(old(self)@, e, value).1,
            r is Ok ==> cell_at(old(self)@, e) == Some(CellState::<T>::Taken) && cell_at(
                final(self)@,
                e,
            ) == Some(CellState::Present(value)),
            r is Err ==> final(self)@ == old(self)@ && r == Err::<(), AccessError>(
                AccessError::NotBorrowed,
            ),
            forall|e2: EntityId| e2.index != e.index ==> cell_at(final(self)@, e2) == cell_at(
                old(self)@,
                e2,
            ),
    {
        if e.index >= self.cells.len() {
            return Err(AccessError::NotBorrowed);
        }
        let ghost cells0 = self.cells@;
        let idx = e.index;
        let taken = self.cells[idx].take();
        match taken {
            Some(c) => {
                if c.generation == e.generation {
                    let StoreCell { generation, state } = c;
                    match state {
                        CellState::Taken => {
                            self.cells[idx] = Some(
                                StoreCell { generation, state: CellState::Present(value) },
                            );
                            proof {
                                assert(self.cells@ =~= spec_store_put(cells0, e, value).0);
                            }
                            Ok(())
                        },
                        CellState::Present(u) => {
                            self.cells[idx] = Some(
                                StoreCell { generation, state: CellState::Present(u) },
                            );
                            proof {
                                assert(self.cells@ =~= cells0);
                            }
                            Err(AccessError::NotBorrowed)
                        },
                    }
                } else {
                    self.cells[idx] = Some(c);
                    proof {
                        assert(self.cells@ =~= cells0);
                    }
                    Err(AccessError::NotBorrowed)
                }
            },
            None => {
                proof {
                    assert(self.cells@ =~= cells0);
                }
                Err(AccessError::NotBorrowed)
            },
        }
    }
}

} // verus!
