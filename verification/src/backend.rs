//! Trusted boundary around the `ic_stable_structures` crate: a durable
//! memory pool divided into two regions, one holding the persisted id
//! counter cell and one holding the persisted ordered byte map.
//!
//! The pool's manager hands out disjoint regions of one flat memory, so a
//! write through one region never changes what the other holds; that is
//! what lets the counter cell and the byte map carry independent contents
//! below. Each constructor here builds the whole chain — memory, manager,
//! both regions, cell and map — in one step, so no claim about a region's
//! contents outlives a later write to it.
use vstd::prelude::*;

use ic_stable_structures::{DefaultMemoryImpl, VectorMemory};
use ic_stable_structures::memory_manager::{MemoryId, MemoryManager, VirtualMemory};
use ic_stable_structures::cell::Cell as StableCell;
use ic_stable_structures::btreemap::BTreeMap as StableBTreeMap;

verus! {

/// The persisted id counter: an 8-byte cell in one region of the pool.
#[verifier::external_body]
pub struct CounterCell {
    cell: StableCell<u64, VirtualMemory<DefaultMemoryImpl>>,
}

/// The persisted record store: an ordered map from 8-byte key to record
/// bytes in another region of the pool.
#[verifier::external_body]
pub struct ByteMap {
    map: StableBTreeMap<u64, Vec<u8>, VirtualMemory<DefaultMemoryImpl>>,
}

/// The value persisted in the counter cell.
pub uninterp spec fn cell_value(c: &CounterCell) -> u64;

/// The entries persisted in the ordered byte map.
pub uninterp spec fn btree_contents(m: &ByteMap) -> Map<u64, Seq<u8>>;

/// The contents of a byte map that holds nothing.
pub open spec fn no_bytes() -> Map<u64, Seq<u8>> {
    Map::empty()
}

/// Relies on `MemoryManager::init`, `MemoryManager::get`, `Cell::init` and
/// `BTreeMap::init`, all over a brand-new, zero-sized `VectorMemory`: on an
/// empty memory the manager starts with every region empty, the cell writes
/// and holds the given zero, and the map starts empty. Volatile by
/// construction: for the durable medium see `open_backend`.
#[verifier::external_body]
pub(crate) fn fresh_backend() -> (r: (CounterCell, ByteMap))
    ensures
        cell_value(&r.0) == 0,
        btree_contents(&r.1) == no_bytes(),
{
    let manager = MemoryManager::init(VectorMemory::default());
    let counter = StableCell::init(manager.get(MemoryId::new(0)), 0);
    let records = StableBTreeMap::init(manager.get(MemoryId::new(1)));
    (CounterCell { cell: counter }, ByteMap { map: records })
}

/// Relies on the same four functions over `DefaultMemoryImpl::default()`:
/// the process's persistent medium where the host provides one (where it
/// does not, a fresh vector). The counter and the map come back holding
/// whatever the medium holds — nothing is promised of their contents, and
/// the caller must validate what it finds. A medium whose bytes are not a
/// layout these structures wrote makes initialization trap, the fatal
/// boot-time failure.
#[verifier::external_body]
pub(crate) fn open_backend() -> (r: (CounterCell, ByteMap))
{
    let manager = MemoryManager::init(DefaultMemoryImpl::default());
    let counter = StableCell::init(manager.get(MemoryId::new(0)), 0);
    let records = StableBTreeMap::init(manager.get(MemoryId::new(1)));
    (CounterCell { cell: counter }, ByteMap { map: records })
}

impl CounterCell {
    /// Relies on `Cell::get`: returns the held value.
    #[verifier::external_body]
    pub(crate) fn get(&self) -> (r: u64)
        ensures
            r == cell_value(self),
    {
        *self.cell.get()
    }

    /// Relies on `Cell::set`: persists the new value and returns the
    /// previous one.
    #[verifier::external_body]
    pub(crate) fn set(&mut self, value: u64) -> (prev: u64)
        ensures
            cell_value(final(self)) == value,
            prev == cell_value(old(self)),
    {
        self.cell.set(value)
    }
}

impl ByteMap {
    /// Relies on `BTreeMap::get`: a point lookup with no side effect.
    #[verifier::external_body]
    pub(crate) fn get(&self, key: u64) -> (r: Option<Vec<u8>>)
        ensures
            r is Some <==> btree_contents(self).dom().contains(key),
            r is Some ==> r->Some_0@ == btree_contents(self)[key],
    {
        self.map.get(&key)
    }

    /// Relies on `BTreeMap::insert`: upserts the entry and returns the
    /// value it replaced, if any.
    #[verifier::external_body]
    pub(crate) fn insert(&mut self, key: u64, value: Vec<u8>) -> (prev: Option<Vec<u8>>)
        ensures
            btree_contents(final(self)) == btree_contents(old(self)).insert(key, value@),
            prev is Some <==> btree_contents(old(self)).dom().contains(key),
            prev is Some ==> prev->Some_0@ == btree_contents(old(self))[key],
    {
        self.map.insert(key, value)
    }

    /// Relies on `BTreeMap::remove`: deletes the entry and returns the
    /// value it held, if any.
    #[verifier::external_body]
    pub(crate) fn remove(&mut self, key: u64) -> (r: Option<Vec<u8>>)
        ensures
            btree_contents(final(self)) == btree_contents(old(self)).remove(key),
            r is Some <==> btree_contents(old(self)).dom().contains(key),
            r is Some ==> r->Some_0@ == btree_contents(old(self))[key],
    {
        self.map.remove(&key)
    }

    /// Relies on `BTreeMap::iter`: yields every entry exactly once, in
    /// ascending key order.
    #[verifier::external_body]
    pub(crate) fn entries(&self) -> (r: Vec<(u64, Vec<u8>)>)
        ensures
            forall|i: int| 0 <= i < r@.len() ==> btree_contents(self).dom().contains(#[trigger] r@[i].0),
            forall|i: int| 0 <= i < r@.len() ==> (#[trigger] r@[i].1)@ == btree_contents(self)[r@[i].0],
            forall|k: u64| #[trigger] btree_contents(self).dom().contains(k) ==> exists|i: int| 0 <= i < r@.len() && r@[i].0 == k,
            forall|i: int, j: int| 0 <= i < j < r@.len() ==> (#[trigger] r@[i].0) < (#[trigger] r@[j].0),
    {
        self.map.iter().map(|e| e.into_pair()).collect()
    }
}

} // verus!
