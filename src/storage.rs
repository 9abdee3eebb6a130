//! Durable storage: one memory region split into numbered partitions, an
//! ordered map from `u64` keys to byte strings over a partition, and a durable
//! `u64` cell over a partition.
//!
//! The types of `ic_stable_structures` carry bounds on that crate's own
//! traits, which Verus cannot take in a type declaration, so each is held in a
//! private field of a struct whose contents are given a name.

use ic_stable_structures::memory_manager::{MemoryId, MemoryManager, VirtualMemory};
use ic_stable_structures::{Cell, DefaultMemoryImpl, StableBTreeMap};
use vstd::prelude::*;

verus! {

/// The identifier of the partition that no partition may use.
pub const RESERVED_PARTITION: u8 = 255;

/// One durable memory region, divided into partitions by number.
#[verifier::external_body]
pub struct MemoryRegion {
    manager: MemoryManager<DefaultMemoryImpl>,
}

/// An independently growable partition of a `MemoryRegion`.
#[verifier::external_body]
pub struct Partition {
    memory: VirtualMemory<DefaultMemoryImpl>,
}

/// A durable map from `u64` keys to byte strings, ordered by key.
#[verifier::external_body]
pub struct RecordMap {
    map: StableBTreeMap<u64, Vec<u8>, VirtualMemory<DefaultMemoryImpl>>,
}

/// A durable `u64`.
#[verifier::external_body]
pub struct DurableCell {
    cell: Cell<u64, VirtualMemory<DefaultMemoryImpl>>,
}

/// What a `RecordMap` holds.
pub uninterp spec fn map_entries(m: RecordMap) -> Map<u64, Seq<u8>>;

/// What a `DurableCell` holds.
pub uninterp spec fn cell_value(c: DurableCell) -> u64;

/// The number of the partition that a `Partition` addresses.
pub uninterp spec fn partition_number(p: Partition) -> u8;

/// The number of the partition that a `RecordMap` lives in.
pub uninterp spec fn map_partition(m: RecordMap) -> u8;

/// The number of the partition that a `DurableCell` lives in.
pub uninterp spec fn cell_partition(c: DurableCell) -> u8;

impl MemoryRegion {
    /// Relies on `MemoryManager::init`: it lays a partition table over the
    /// platform's default durable memory, or loads the one already there.
    #[verifier::external_body]
    pub(crate) fn open() -> (r: MemoryRegion) {
        MemoryRegion { manager: MemoryManager::init(DefaultMemoryImpl::default()) }
    }

    /// Relies on `MemoryManager::get`: the same number always gives the same
    /// partition, the one with that number. `MemoryId::new` refuses the
    /// reserved number.
    #[verifier::external_body]
    pub(crate) fn partition(&self, id: u8) -> (r: Partition)
        requires
            id != RESERVED_PARTITION,
        ensures
            partition_number(r) == id,
    {
        Partition { memory: self.manager.get(MemoryId::new(id)) }
    }
}

impl RecordMap {
    /// Relies on `BTreeMap::init`: it loads the map stored in the partition,
    /// or starts an empty one there.
    #[verifier::external_body]
    pub(crate) fn open(p: Partition) -> (r: RecordMap)
        ensures
            map_partition(r) == partition_number(p),
    {
        RecordMap { map: StableBTreeMap::init(p.memory) }
    }

    /// Relies on `BTreeMap::get`: the value stored under the key, if any.
    #[verifier::external_body]
    pub(crate) fn get(&self, key: u64) -> (r: Option<Vec<u8>>)
        ensures
            r is Some <==> map_entries(*self).contains_key(key),
            r matches Some(v) ==> v@ == map_entries(*self)[key],
    {
        self.map.get(&key)
    }

    /// Relies on `BTreeMap::insert`: the key maps to the value afterwards, no
    /// other entry changes, and the map stays in its partition.
    #[verifier::external_body]
    pub(crate) fn insert(&mut self, key: u64, value: Vec<u8>)
        ensures
            map_entries(*final(self)) == map_entries(*old(self)).insert(key, value@),
            map_partition(*final(self)) == map_partition(*old(self)),
    {
        self.map.insert(key, value);
    }

    /// Relies on `BTreeMap::remove`: the key is gone afterwards, no other
    /// entry changes, and the map stays in its partition.
    #[verifier::external_body]
    pub(crate) fn remove(&mut self, key: u64)
        ensures
            map_entries(*final(self)) == map_entries(*old(self)).remove(key),
            map_partition(*final(self)) == map_partition(*old(self)),
    {
        self.map.remove(&key);
    }

    /// Relies on `BTreeMap::iter`: every entry once, sorted by key.
    #[verifier::external_body]
    pub(crate) fn entries(&self) -> (r: Vec<(u64, Vec<u8>)>)
        ensures
            forall|i: int, j: int| 0 <= i < j < r@.len() ==> r@[i].0 < r@[j].0,
            forall|i: int|
                0 <= i < r@.len() ==> {
                    &&& map_entries(*self).contains_key(#[trigger] r@[i].0)
                    &&& map_entries(*self)[r@[i].0] == r@[i].1@
                },
            forall|k: u64|
                map_entries(*self).contains_key(k) ==> exists|i: int|
                    0 <= i < r@.len() && #[trigger] r@[i].0 == k,
    {
        self.map.iter().map(|e| e.into_pair()).collect()
    }
}

impl DurableCell {
    /// Relies on `Cell::init`: it loads the value stored in the partition, or
    /// stores the given one there when there is none.
    #[verifier::external_body]
    pub(crate) fn open(p: Partition, initial: u64) -> (r: DurableCell)
        ensures
            cell_partition(r) == partition_number(p),
    {
        DurableCell { cell: Cell::init(p.memory, initial) }
    }

    /// Relies on `Cell::get`: the current value.
    #[verifier::external_body]
    pub(crate) fn get(&self) -> (r: u64)
        ensures
            r == cell_value(*self),
    {
        *self.cell.get()
    }

    /// Relies on `Cell::set`: the cell holds the value afterwards and stays in
    /// its partition.
    #[verifier::external_body]
    pub(crate) fn set(&mut self, value: u64)
        ensures
            cell_value(*final(self)) == value,
            cell_partition(*final(self)) == cell_partition(*old(self)),
    {
        self.cell.set(value);
    }
}

} // verus!
