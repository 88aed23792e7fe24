//! The durable key-value stores that every table of the ledger lives in.
//!
//! The stores are B-trees of the `ic-stable-structures` crate, kept in
//! regions of stable memory. Nothing in this file is proved: each function
//! states what the crate's source shows of the call it makes, over the
//! contents of the store as a mathematical map. The types of the crate are
//! held in structs of this file, because their own declarations are bound
//! by traits of the crate. A call can still stop the program when stable
//! memory cannot grow any further, as a `Vec` can when the heap is
//! exhausted.

use ic_stable_structures::btreemap::BTreeMap as StableBTreeMap;
use ic_stable_structures::memory_manager::{MemoryId, MemoryManager, VirtualMemory};
use ic_stable_structures::DefaultMemoryImpl;
use vstd::prelude::*;

verus! {

/// The number of regions that stable memory is divided into.
pub const REGION_COUNT: u8 = 255;

/// The stable memory of the program, divided into regions: a
/// `MemoryManager` of `ic-stable-structures`.
#[verifier::external_body]
pub struct StableMemory {
    manager: MemoryManager<DefaultMemoryImpl>,
}

/// One region of stable memory as the program finds it when it starts: a
/// `VirtualMemory` of `ic-stable-structures`. A store is made on a region
/// and takes it along: a region is never under two stores.
#[verifier::external_body]
pub struct Region {
    memory: VirtualMemory<DefaultMemoryImpl>,
}

/// A region that a [`RecordStore`] has lived on and has handed back: a
/// `VirtualMemory` that holds the map of that store.
#[verifier::external_body]
pub struct RecordRegion {
    memory: VirtualMemory<DefaultMemoryImpl>,
}

/// A region that a [`KeyedStore`] has lived on and has handed back: a
/// `VirtualMemory` that holds the map of that store.
#[verifier::external_body]
pub struct KeyedRegion {
    memory: VirtualMemory<DefaultMemoryImpl>,
}

/// A store of byte records under numeric keys, in ascending key order: a
/// `StableBTreeMap` of `ic-stable-structures` from `u64` to `Vec<u8>`.
#[verifier::external_body]
pub struct RecordStore {
    map: StableBTreeMap<u64, Vec<u8>, VirtualMemory<DefaultMemoryImpl>>,
}

/// A store of byte records under byte-string keys, in lexicographic key
/// order: a `StableBTreeMap` of `ic-stable-structures` from `Vec<u8>` to
/// `Vec<u8>`.
#[verifier::external_body]
pub struct KeyedStore {
    map: StableBTreeMap<Vec<u8>, Vec<u8>, VirtualMemory<DefaultMemoryImpl>>,
}

/// What a [`RecordStore`] holds: the entries of its map.
pub uninterp spec fn numbered_records(store: RecordStore) -> Map<u64, Seq<u8>>;

/// What a [`KeyedStore`] holds: the entries of its map.
pub uninterp spec fn keyed_records(store: KeyedStore) -> Map<Seq<u8>, Seq<u8>>;

/// The region that a [`RecordStore`] lives on: the memory of its map,
/// which `StableBTreeMap::into_memory` hands back.
pub uninterp spec fn record_store_region(store: RecordStore) -> RecordRegion;

/// The region that a [`KeyedStore`] lives on: the memory of its map, which
/// `StableBTreeMap::into_memory` hands back.
pub uninterp spec fn keyed_store_region(store: KeyedStore) -> KeyedRegion;

impl View for RecordStore {
    type V = Map<u64, Seq<u8>>;

    open spec fn view(&self) -> Map<u64, Seq<u8>> {
        numbered_records(*self)
    }
}

impl View for KeyedStore {
    type V = Map<Seq<u8>, Seq<u8>>;

    open spec fn view(&self) -> Map<Seq<u8>, Seq<u8>> {
        keyed_records(*self)
    }
}

/// Lexicographic order on byte strings: how `Vec<u8>` is ordered.
pub open spec fn bytes_before(a: Seq<u8>, b: Seq<u8>) -> bool
    decreases a.len(),
{
    if b.len() == 0 {
        false
    } else if a.len() == 0 {
        true
    } else if a[0] != b[0] {
        a[0] < b[0]
    } else {
        bytes_before(a.drop_first(), b.drop_first())
    }
}

/// `records` has no entry.
pub open spec fn holds_nothing<K>(records: Map<K, Seq<u8>>) -> bool {
    records == Map::<K, Seq<u8>>::empty()
}

/// `count` is the number of entries of `records`, which are finitely many.
pub open spec fn counts<K>(records: Map<K, Seq<u8>>, count: u64) -> bool {
    records.dom().finite() && records.dom().len() == count
}

/// `found` is what `records` holds under `key`.
pub open spec fn holds<K>(records: Map<K, Seq<u8>>, key: K, found: Option<Vec<u8>>) -> bool {
    match found {
        Some(value) => records.contains_key(key) && records[key] == value@,
        None => !records.contains_key(key),
    }
}

/// `items` are the entries of `records` with a key of at least `start`,
/// each once, in ascending key order.
pub open spec fn lists_from(
    records: Map<u64, Seq<u8>>,
    start: u64,
    items: Seq<(u64, Vec<u8>)>,
) -> bool {
    &&& forall|i: int|
        0 <= i < items.len() ==> {
            &&& (#[trigger] items[i]).0 >= start
            &&& records.contains_key(items[i].0)
            &&& records[items[i].0] == items[i].1@
        }
    &&& forall|i: int, j: int|
        0 <= i < j < items.len() ==> (#[trigger] items[i]).0 < (#[trigger] items[j]).0
    &&& forall|key: u64|
        records.contains_key(key) && key >= start ==> exists|i: int|
            0 <= i < items.len() && (#[trigger] items[i]).0 == key
}

/// `items` are the entries of `records`, each once, in ascending key order.
pub open spec fn lists_all(
    records: Map<Seq<u8>, Seq<u8>>,
    items: Seq<(Vec<u8>, Vec<u8>)>,
) -> bool {
    &&& forall|i: int|
        0 <= i < items.len() ==> {
            &&& records.contains_key((#[trigger] items[i]).0@)
            &&& records[items[i].0@] == items[i].1@
        }
    &&& forall|i: int, j: int|
        0 <= i < j < items.len() ==> bytes_before(
            (#[trigger] items[i]).0@,
            (#[trigger] items[j]).0@,
        ) && items[i].0@ != items[j].0@
    &&& forall|key: Seq<u8>|
        records.contains_key(key) ==> exists|i: int|
            0 <= i < items.len() && (#[trigger] items[i]).0@ == key
}

impl StableMemory {
    /// `MemoryManager::init` on the default memory: the stable memory of
    /// the program, divided as it was left if it has been divided before.
    /// The call panics on memory that another version of the crate has
    /// laid out.
    #[verifier::external_body]
    pub(crate) fn new() -> StableMemory {
        StableMemory { manager: MemoryManager::init(DefaultMemoryImpl::default()) }
    }

    /// `MemoryManager::get`: the region with this number. `MemoryId::new`
    /// panics on 255, which `requires` leaves out. Asked twice for one
    /// number, it gives two regions that share their bytes: each number is
    /// asked for once, by `StableRegions::new`.
    #[verifier::external_body]
    pub(crate) fn region(&self, number: u8) -> Region
        requires
            number < REGION_COUNT,
    {
        Region { memory: self.manager.get(MemoryId::new(number)) }
    }
}

impl RecordStore {
    /// `StableBTreeMap::new` on the region: a new, empty map, whatever the
    /// region held.
    #[verifier::external_body]
    pub(crate) fn new(region: Region) -> (store: RecordStore)
        ensures
            holds_nothing(numbered_records(store)),
    {
        RecordStore { map: StableBTreeMap::new(region.memory) }
    }

    /// `StableBTreeMap::into_memory`: the region that the map lives on,
    /// as one that holds a map of this kind.
    #[verifier::external_body]
    pub(crate) fn into_region(self) -> (region: RecordRegion)
        ensures
            region == record_store_region(self),
    {
        RecordRegion { memory: self.map.into_memory() }
    }

    /// `StableBTreeMap::init` on a region that a store of this kind has
    /// handed back: the map that the region holds, living on the region.
    /// Nothing is claimed of its entries.
    #[verifier::external_body]
    pub(crate) fn reopen(region: RecordRegion) -> (store: RecordStore)
        ensures
            record_store_region(store) == region,
    {
        RecordStore { map: StableBTreeMap::init(region.memory) }
    }

    /// `StableBTreeMap::init` on a region as the program has found it: the
    /// map that the region holds, or a new one where it holds none.
    /// Nothing is claimed of its entries. What the region held before the
    /// program started is beyond any contract: the call, or a later one on
    /// the map, panics where that was laid out by another version of the
    /// crate or is a map of another kind.
    #[verifier::external_body]
    pub(crate) fn open(region: Region) -> RecordStore {
        RecordStore { map: StableBTreeMap::init(region.memory) }
    }

    /// `StableBTreeMap::get`: the value under the key, if there is one.
    #[verifier::external_body]
    pub(crate) fn get(&self, key: u64) -> (found: Option<Vec<u8>>)
        ensures
            holds(numbered_records(*self), key, found),
    {
        self.map.get(&key)
    }

    /// `StableBTreeMap::insert`: the map then holds the value under the key
    /// and is otherwise as before; the value that the key had is returned.
    #[verifier::external_body]
    pub(crate) fn insert(&mut self, key: u64, value: Vec<u8>) -> (previous: Option<Vec<u8>>)
        ensures
            numbered_records(*final(self)) == numbered_records(*old(self)).insert(key, value@),
            holds(numbered_records(*old(self)), key, previous),
    {
        self.map.insert(key, value)
    }

    /// `StableBTreeMap::iter`: every entry, in ascending key order.
    #[verifier::external_body]
    pub(crate) fn entries(&self) -> (items: Vec<(u64, Vec<u8>)>)
        ensures
            lists_from(numbered_records(*self), 0, items@),
    {
        self.map.iter().collect()
    }

    /// `StableBTreeMap::range` from `start` on: every entry whose key is at
    /// least `start`, in ascending key order.
    #[verifier::external_body]
    pub(crate) fn range_from(&self, start: u64) -> (items: Vec<(u64, Vec<u8>)>)
        ensures
            lists_from(numbered_records(*self), start, items@),
    {
        self.map.range(start..).collect()
    }
}

impl KeyedStore {
    /// `StableBTreeMap::new` on the region: a new, empty map, whatever the
    /// region held.
    #[verifier::external_body]
    pub(crate) fn new(region: Region) -> (store: KeyedStore)
        ensures
            holds_nothing(keyed_records(store)),
    {
        KeyedStore { map: StableBTreeMap::new(region.memory) }
    }

    /// `StableBTreeMap::into_memory`: the region that the map lives on,
    /// as one that holds a map of this kind.
    #[verifier::external_body]
    pub(crate) fn into_region(self) -> (region: KeyedRegion)
        ensures
            region == keyed_store_region(self),
    {
        KeyedRegion { memory: self.map.into_memory() }
    }

    /// `StableBTreeMap::init` on a region that a store of this kind has
    /// handed back: the map that the region holds, living on the region.
    /// Nothing is claimed of its entries.
    #[verifier::external_body]
    pub(crate) fn reopen(region: KeyedRegion) -> (store: KeyedStore)
        ensures
            keyed_store_region(store) == region,
    {
        KeyedStore { map: StableBTreeMap::init(region.memory) }
    }

    /// `StableBTreeMap::init` on a region as the program has found it: the
    /// map that the region holds, or a new one where it holds none.
    /// Nothing is claimed of its entries. What the region held before the
    /// program started is beyond any contract: the call, or a later one on
    /// the map, panics where that was laid out by another version of the
    /// crate or is a map of another kind.
    #[verifier::external_body]
    pub(crate) fn open(region: Region) -> KeyedStore {
        KeyedStore { map: StableBTreeMap::init(region.memory) }
    }

    /// `StableBTreeMap::len`: the number of entries.
    #[verifier::external_body]
    pub(crate) fn len(&self) -> (count: u64)
        ensures
            counts(keyed_records(*self), count),
    {
        self.map.len()
    }

    /// `StableBTreeMap::get`: the value under the key, if there is one.
    #[verifier::external_body]
    pub(crate) fn get(&self, key: &Vec<u8>) -> (found: Option<Vec<u8>>)
        ensures
            holds(keyed_records(*self), key@, found),
    {
        self.map.get(key)
    }

    /// `StableBTreeMap::contains_key`: whether the key has a value.
    #[verifier::external_body]
    pub(crate) fn contains_key(&self, key: &Vec<u8>) -> (present: bool)
        ensures
            present == keyed_records(*self).contains_key(key@),
    {
        self.map.contains_key(key)
    }

    /// `StableBTreeMap::insert`: the map then holds the value under the key
    /// and is otherwise as before; the value that the key had is returned.
    #[verifier::external_body]
    pub(crate) fn insert(&mut self, key: Vec<u8>, value: Vec<u8>) -> (previous: Option<Vec<u8>>)
        ensures
            keyed_records(*final(self)) == keyed_records(*old(self)).insert(key@, value@),
            holds(keyed_records(*old(self)), key@, previous),
    {
        self.map.insert(key, value)
    }

    /// `StableBTreeMap::iter`: every entry, in ascending key order.
    #[verifier::external_body]
    pub(crate) fn entries(&self) -> (items: Vec<(Vec<u8>, Vec<u8>)>)
        ensures
            lists_all(keyed_records(*self), items@),
    {
        self.map.iter().collect()
    }
}

} // verus!
