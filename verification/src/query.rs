//! The query engine: read and read-write joins across component stores.
//!
//! A query is an ordered list of component-type keys. Running one scans
//! every currently live entity in slot order and, for each, probes the
//! requested keys in order, short-circuiting the moment one is absent: a
//! partial match is skipped with no error, and keys after the first absent
//! one are never examined, so they can never raise an aliasing violation.
//! A key whose value is exclusively borrowed out is a conflict, reported as
//! `AccessError::Borrowed`.
//!
//! Results are the matching entity identities, materialised in scan order;
//! the entity identity itself is always available alongside the components,
//! and the empty query matches every live entity. Component values are then
//! read through `World::get_component` or taken through
//! `World::get_component_mut`. Nothing is cached between runs: each run
//! re-scans.

use vstd::prelude::*;

use crate::allocator::EntityId;
use crate::component::AccessError;
use crate::component::CellState;
use crate::component::Component;
use crate::world::World;
use crate::world::WorldM;

verus! {

/// The outcome of probing one entity against a query's key list.
#[derive(Clone, Copy, PartialEq, Eq, Structural, Debug)]
pub enum Probe {
    /// Every requested key holds a value for the entity.
    Matched,
    /// Some requested key holds no value; the entity is passed over.
    Skipped,
    /// A requested key's value is exclusively borrowed out: an aliasing
    /// violation.
    Conflict,
}

/// A query: an ordered list of component-type keys to join. The empty query
/// requests the entity identity alone.
pub struct Query {
    pub keys: Vec<u64>,
}

impl View for Query {
    type V = Seq<u64>;

    open spec fn view(&self) -> Seq<u64> {
        self.keys@
    }
}

impl Query {
    /// The empty query, matching every live entity.
    pub fn new() -> (q: Self)
        ensures
            q@ == Seq::<u64>::empty(),
    {
        let keys = Vec::new();
        proof {
            assert(keys@ =~= Seq::<u64>::empty());
        }
        Query { keys }
    }

    /// This query extended by one more requested key.
    pub fn with(self, key: u64) -> (q: Self)
        ensures
            q@ == self@.push(key),
    {
        let mut keys = self.keys;
        keys.push(key);
        Query { keys }
    }
}

impl<C: Component> WorldM<C> {
    /// Probing `e` against `keys`, first key first: the first key without a
    /// value for `e` skips the entity, the first key whose value is borrowed
    /// out is a conflict, and later keys are never examined.
    pub open spec fn spec_probe(self, e: EntityId, keys: Seq<u64>) -> Probe
        decreases keys.len(),
    {
        if keys.len() == 0 {
            Probe::Matched
        } else {
            match self.cell(keys[0], e) {
                None => Probe::Skipped,
                Some(CellState::Taken) => Probe::Conflict,
                Some(CellState::Present(_)) => self.spec_probe(e, keys.drop_first()),
            }
        }
    }

    /// The identity currently held by slot `i`.
    pub open spec fn id_at(self, i: int) -> EntityId {
        EntityId { index: i as usize, generation: self.slots[i].generation }
    }

    /// Whether the entity in slot `i` is live and matches `keys`.
    pub open spec fn query_matches(self, keys: Seq<u64>, i: int) -> bool {
        &&& 0 <= i < self.slots.len()
        &&& self.slots[i].occupied
        &&& self.spec_probe(self.id_at(i), keys) is Matched
    }

    /// Whether some live entity's probe against `keys` hits a borrowed-out
    /// value before an absent one.
    pub open spec fn query_conflict(self, keys: Seq<u64>) -> bool {
        exists|i: int|
            0 <= i < self.slots.len() && (#[trigger] self.slots[i]).occupied && self.spec_probe(
                self.id_at(i),
                keys,
            ) is Conflict
    }

    /// The identities of the matching entities among slots `0..i`, in slot
    /// order.
    pub open spec fn query_upto(self, keys: Seq<u64>, i: int) -> Seq<EntityId>
        decreases i,
    {
        if i <= 0 {
            Seq::empty()
        } else {
            let r = self.query_upto(keys, i - 1);
            if self.query_matches(keys, i - 1) {
                r.push(self.id_at(i - 1))
            } else {
                r
            }
        }
    }

    /// The identities of all matching entities, in slot order.
    pub open spec fn query_ids(self, keys: Seq<u64>) -> Seq<EntityId> {
        self.query_upto(keys, self.slots.len() as int)
    }

    /// The first match of a lazy scan from slot `i` on: the first live
    /// entity that matches, a conflict if one is hit first, absent if the
    /// scan runs out. Entities after the first match are never probed.
    pub open spec fn spec_first_match(self, keys: Seq<u64>, i: int) -> Result<
        Option<EntityId>,
        AccessError,
    >
        decreases self.slots.len() - i when 0 <= i <= self.slots.len()
    {
        if i < self.slots.len() {
            if self.slots[i].occupied {
                match self.spec_probe(self.id_at(i), keys) {
                    Probe::Conflict => Err(AccessError::Borrowed),
                    Probe::Matched => Ok(Some(self.id_at(i))),
                    Probe::Skipped => self.spec_first_match(keys, i + 1),
                }
            } else {
                self.spec_first_match(keys, i + 1)
            }
        } else {
            Ok(None)
        }
    }
}

impl<C: Component> World<C> {
    /// Probes `e` against the query's keys, in order, short-circuiting at
    /// the first absent key.
    fn probe_entity(&self, e: EntityId, q: &Query) -> (p: Probe)
        ensures
            p == self@.spec_probe(e, q@),
    {
        let n = q.keys.len();
        let mut j: usize = 0;
        proof {
            assert(q@.skip(0) =~= q@);
        }
        while j < n
            invariant
                0 <= j <= n,
                n == q@.len(),
                self@.spec_probe(e, q@) == self@.spec_probe(e, q@.skip(j as int)),
            decreases n - j,
        {
            let key = q.keys[j];
            proof {
                assert(q@.skip(j as int)[0] == key);
                assert(q@.skip(j as int).drop_first() =~= q@.skip(j as int + 1));
            }
            let hit = match self.find_store(key) {
                None => Ok(None),
                Some(si) => self.stores[si].storage.get(e),
            };
            match hit {
                Err(_) => {
                    return Probe::Conflict;
                },
                Ok(None) => {
                    return Probe::Skipped;
                },
                Ok(Some(_)) => {},
            }
            j = j + 1;
        }
        proof {
            assert(q@.skip(n as int) =~= Seq::<u64>::empty());
        }
        Probe::Matched
    }

    /// Runs the query: every live entity carrying a value under every
    /// requested key, in slot order. Fails with `Borrowed`, reporting the
    /// aliasing violation, when some live entity's probe hits a borrowed-out
    /// value before an absent one. Nothing is cached: each call re-scans.
    pub fn query(&self, q: &Query) -> (r: Result<Vec<EntityId>, AccessError>)
        ensures
            match r {
                Ok(ids) => !self@.query_conflict(q@) && ids@ == self@.query_ids(q@),
                Err(err) => err == AccessError::Borrowed && self@.query_conflict(q@),
            },
    {
        let mut out: Vec<EntityId> = Vec::new();
        let n = self.allocator.slots.len();
        let mut i: usize = 0;
        proof {
            assert(out@ =~= self@.query_upto(q@, 0));
        }
        while i < n
            invariant
                0 <= i <= n,
                n == self@.slots.len(),
                out@ == self@.query_upto(q@, i as int),
                forall|j: int|
                    0 <= j < i ==> !((#[trigger] self@.slots[j]).occupied && self@.spec_probe(
                        self@.id_at(j),
                        q@,
                    ) is Conflict),
            decreases n - i,
        {
            let slot = self.allocator.slots[i];
            if slot.occupied {
                let e = EntityId { index: i, generation: slot.generation };
                proof {
                    assert(e == self@.id_at(i as int));
                }
                match self.probe_entity(e, q) {
                    Probe::Conflict => {
                        proof {
                            assert(self@.slots[i as int].occupied && self@.spec_probe(
                                self@.id_at(i as int),
                                q@,
                            ) is Conflict);
                        }
                        return Err(AccessError::Borrowed);
                    },
                    Probe::Matched => {
                        out.push(e);
                    },
                    Probe::Skipped => {},
                }
            }
            i = i + 1;
            proof {
                assert(out@ =~= self@.query_upto(q@, i as int));
            }
        }
        Ok(out)
    }

    /// The read-write join: the same scan and the same conflict rule as
    /// `query`, since an exclusive borrow conflicts with exactly the
    /// outstanding borrows a shared one does. Exclusive access to each
    /// yielded entity's values is then taken one at a time through
    /// `get_component_mut`.
    pub fn query_mut(&self, q: &Query) -> (r: Result<Vec<EntityId>, AccessError>)
        ensures
            match r {
                Ok(ids) => !self@.query_conflict(q@) && ids@ == self@.query_ids(q@),
                Err(err) => err == AccessError::Borrowed && self@.query_conflict(q@),
            },
    {
        self.query(q)
    }

    /// The first match of a lazy scan in slot order: entities after the
    /// first match are never probed, so a conflict beyond it goes unseen,
    /// exactly as with a lazy sequence stopped after one element.
    pub fn query_single(&self, q: &Query) -> (r: Result<Option<EntityId>, AccessError>)
        ensures
            r == self@.spec_first_match(q@, 0),
    {
        let n = self.allocator.slots.len();
        let mut i: usize = 0;
        while i < n
            invariant
                0 <= i <= n,
                n == self@.slots.len(),
                self@.spec_first_match(q@, 0) == self@.spec_first_match(q@, i as int),
            decreases n - i,
        {
            let slot = self.allocator.slots[i];
            if slot.occupied {
                let e = EntityId { index: i, generation: slot.generation };
                proof {
                    assert(e == self@.id_at(i as int));
                }
                match self.probe_entity(e, q) {
                    Probe::Conflict => {
                        return Err(AccessError::Borrowed);
                    },
                    Probe::Matched => {
                        return Ok(Some(e));
                    },
                    Probe::Skipped => {},
                }
            }
            i = i + 1;
        }
        Ok(None)
    }

    /// The first match for a read-write join; the scan is the one
    /// `query_single` makes.
    pub fn query_single_mut(&self, q: &Query) -> (r: Result<Option<EntityId>, AccessError>)
        ensures
            r == self@.spec_first_match(q@, 0),
    {
        self.query_single(q)
    }

    /// Whether the joined read view of `q` exists for `e`: `Ok(true)` when
    /// `e` is live and carries a value under every requested key, `Ok(false)`
    /// when it is stale or some key's value is absent, `Borrowed` when the
    /// probe hits a borrowed-out value first.
    pub fn get_components(&self, e: EntityId, q: &Query) -> (r: Result<bool, AccessError>)
        ensures
            match r {
                Ok(true) => self@.live(e) && self@.spec_probe(e, q@) is Matched,
                Ok(false) => !self@.live(e) || self@.spec_probe(e, q@) is Skipped,
                Err(err) => err == AccessError::Borrowed && self@.live(e) && self@.spec_probe(
                    e,
                    q@,
                ) is Conflict,
            },
    {
        if !self.allocator.contains(e) {
            return Ok(false);
        }
        match self.probe_entity(e, q) {
            Probe::Matched => Ok(true),
            Probe::Skipped => Ok(false),
            Probe::Conflict => Err(AccessError::Borrowed),
        }
    }

    /// Whether the joined read-write view of `q` exists for `e`: the same
    /// probe as `get_components`; exclusive access is then taken per key
    /// through `get_component_mut`.
    pub fn get_components_mut(&self, e: EntityId, q: &Query) -> (r: Result<bool, AccessError>)
        ensures
            match r {
                Ok(true) => self@.live(e) && self@.spec_probe(e, q@) is Matched,
                Ok(false) => !self@.live(e) || self@.spec_probe(e, q@) is Skipped,
                Err(err) => err == AccessError::Borrowed && self@.live(e) && self@.spec_probe(
                    e,
                    q@,
                ) is Conflict,
            },
    {
        self.get_components(e, q)
    }
}

} // verus!
