//! The durable containers that hold the store's state, and what is taken on
//! trust about them.
//!
//! Nothing in this file is proved. Each container is spoken of through a
//! name for what it holds, and each operation on it through a small function
//! whose contract says, over those names, what the container's source shows.
//! A memory on which the containers would stop the program when they are
//! opened is left out by a name, `opens`; a container may still stop the
//! program where its memory cannot grow. The containers are held in structs
//! of their own, whose insides are hidden from the verifier, because their
//! types are bounded by traits that it does not know.

use ic_stable_structures::cell::{InitError, ValueError};
use ic_stable_structures::memory_manager::{MemoryId, MemoryManager, VirtualMemory};
use ic_stable_structures::storable::Blob;
use ic_stable_structures::{Cell, DefaultMemoryImpl, Memory, StableBTreeMap};
use vstd::prelude::*;

verus! {

/// `cell::InitError`: why a durable cell could not be loaded or laid out.
#[verifier::external_type_specification]
#[verifier::external_body]
pub struct ExInitError(InitError);

/// `cell::ValueError`: why a durable cell could not be written.
#[verifier::external_type_specification]
#[verifier::external_body]
pub struct ExValueError(ValueError);

/// The region of the memory that holds the counter of identifiers.
pub const COUNTER_REGION: u8 = 0;

/// The region of the memory that holds the observations.
pub const RECORDS_REGION: u8 = 1;

/// A `DefaultMemoryImpl`: the memory beneath a store, which nothing else
/// holds while the store has it.
#[verifier::external_body]
pub struct StoreMemory {
    inner: DefaultMemoryImpl,
}

/// A `MemoryManager`, which divides one memory into regions, each of which
/// grows on its own, with the memory that it divides.
#[verifier::external_body]
pub struct Regions {
    inner: MemoryManager<DefaultMemoryImpl>,
    memory: DefaultMemoryImpl,
}

/// A `StableBTreeMap`: the durable ordered map from identifier to stored
/// bytes, of which a value holds at most 1024.
#[verifier::external_body]
pub struct RecordMap {
    inner: StableBTreeMap<u64, Blob<1024>, VirtualMemory<DefaultMemoryImpl>>,
}

/// A `Cell`: the durable cell that holds one 64-bit integer.
#[verifier::external_body]
pub struct IdCell {
    inner: Cell<u64, VirtualMemory<DefaultMemoryImpl>>,
}

/// The containers of a store, as they come when they are opened.
pub struct Opened {
    pub counter: Result<IdCell, InitError>,
    pub records: RecordMap,
    pub regions: Regions,
}

/// The number of pages that a memory has.
pub uninterp spec fn memory_pages(memory: &StoreMemory) -> nat;

/// Whether the containers of a store can be opened on a memory: whether
/// `MemoryManager::init` on it, and then `Cell::init` for a 64-bit integer on
/// the region of the counter and `StableBTreeMap::init` on the region of the
/// records, return rather than stop the program. They do on a memory of no
/// pages, and on one that the containers of a store have laid out.
pub uninterp spec fn opens(memory: &StoreMemory) -> bool;

/// What a durable map holds: each key with the bytes stored under it.
pub uninterp spec fn map_entries(map: &RecordMap) -> Map<u64, Seq<u8>>;

/// The integer that a durable cell holds.
pub uninterp spec fn cell_value(cell: &IdCell) -> u64;

/// What a durable map holds that holds nothing.
pub open spec fn no_entries() -> Map<u64, Seq<u8>> {
    Map::empty()
}

/// Whether `list` gives what `entries` holds in ascending order of the keys:
/// the keys grow strictly, every pair is an entry, and every key occurs.
pub open spec fn lists_entries(list: Seq<(u64, Vec<u8>)>, entries: Map<u64, Seq<u8>>) -> bool {
    &&& forall|i: int, j: int|
        0 <= i < j < list.len() ==> (#[trigger] list[i]).0 < (#[trigger] list[j]).0
    &&& forall|i: int|
        0 <= i < list.len() ==> entries.contains_key((#[trigger] list[i]).0)
            && entries[list[i].0] == list[i].1@
    &&& forall|k: u64| #[trigger]
        entries.contains_key(k) ==> exists|i: int|
            0 <= i < list.len() && (#[trigger] list[i]).0 == k
}

/// `DefaultMemoryImpl::default`: the memory that the platform gives, which
/// off a canister is a new memory with every call and on a canister is the
/// canister's one stable memory. Nothing is claimed of what it holds.
#[verifier::external_body]
pub(crate) fn default_memory() -> StoreMemory {
    StoreMemory { inner: DefaultMemoryImpl::default() }
}

/// `Memory::size`: the number of pages that the memory has. On a memory of no
/// pages every container lays itself out anew, so the containers of a store
/// can be opened on it.
#[verifier::external_body]
pub(crate) fn memory_size(memory: &StoreMemory) -> (pages: u64)
    ensures
        pages == memory_pages(memory),
        pages == 0 ==> opens(memory),
{
    memory.inner.size()
}

/// `MemoryManager::init` on `memory`, then `Cell::init` with `first` on the
/// region `counter_region` and `StableBTreeMap::init` on the region
/// `records_region` (each region through `MemoryManager::get` of
/// `MemoryId::new`). Each loads what its memory holds, or lays itself out
/// anew where its memory has no pages or does not begin with its mark. On a
/// memory of no pages the cell is made and holds `first`, and the map holds
/// nothing. Of any other outcome nothing is claimed.
#[verifier::external_body]
pub(crate) fn open_containers(
    memory: StoreMemory,
    counter_region: u8,
    records_region: u8,
    first: u64,
) -> (parts: Opened)
    requires
        opens(&memory),
        counter_region == COUNTER_REGION,
        records_region == RECORDS_REGION,
    ensures
        memory_pages(&memory) == 0 ==> parts.counter is Ok,
        memory_pages(&memory) == 0 ==> cell_value(&parts.counter->Ok_0) == first,
        memory_pages(&memory) == 0 ==> map_entries(&parts.records) == no_entries(),
{
    let manager = MemoryManager::init(memory.inner.clone());
    let cell = Cell::init(manager.get(MemoryId::new(counter_region)), first);
    let map = StableBTreeMap::init(manager.get(MemoryId::new(records_region)));
    let regions = Regions { inner: manager, memory: memory.inner };
    let counter = cell.map(|inner| IdCell { inner });
    Opened { counter, records: RecordMap { inner: map }, regions }
}

/// `Cell::into_memory` and `StableBTreeMap::into_memory`: gives up the
/// containers and hands back the memory beneath them. Every container writes
/// each change through to its memory, so the memory holds the manager, the
/// cell and the map as they stood, and the containers of a store can be
/// opened on it again.
#[verifier::external_body]
pub(crate) fn release_containers(regions: Regions, cell: IdCell, map: RecordMap) -> (memory:
    StoreMemory)
    ensures
        opens(&memory),
{
    drop(cell.inner.into_memory());
    drop(map.inner.into_memory());
    drop(regions.inner);
    StoreMemory { inner: regions.memory }
}

/// `Cell::get`: the integer that the cell holds.
#[verifier::external_body]
pub(crate) fn cell_get(cell: &IdCell) -> (value: u64)
    ensures
        value == cell_value(cell),
{
    *cell.inner.get()
}

/// `Cell::set`: writes `value` through to the memory and returns the integer
/// that the cell held. The write fails only where the memory has to grow and
/// cannot. A cell that exists lies in a memory of at least one page, in which
/// the eight bytes of an integer fit behind the eight of the header, so the
/// memory need not grow and the write does not fail.
#[verifier::external_body]
pub(crate) fn cell_set(cell: &mut IdCell, value: u64) -> (outcome: Result<u64, ValueError>)
    ensures
        outcome is Ok,
        outcome->Ok_0 == cell_value(old(cell)),
        cell_value(final(cell)) == value,
{
    cell.inner.set(value)
}

/// `StableBTreeMap::get`: the bytes stored under `key`, if the map holds the
/// key.
#[verifier::external_body]
pub(crate) fn map_get(map: &RecordMap, key: u64) -> (found: Option<Vec<u8>>)
    ensures
        found is Some <==> map_entries(map).contains_key(key),
        found is Some ==> found->0@ == map_entries(map)[key],
{
    map.inner.get(&key).map(|blob| blob.as_slice().to_vec())
}

/// `StableBTreeMap::insert`: stores `value` under `key`, in place of what was
/// stored under it, and returns what was. The map refuses a value of more
/// than 1024 bytes.
#[verifier::external_body]
pub(crate) fn map_insert(map: &mut RecordMap, key: u64, value: &Vec<u8>) -> (previous: Option<
    Vec<u8>,
>)
    requires
        value@.len() <= 1024,
    ensures
        map_entries(final(map)) == map_entries(old(map)).insert(key, value@),
        previous is Some <==> map_entries(old(map)).contains_key(key),
        previous is Some ==> previous->0@ == map_entries(old(map))[key],
{
    let blob = Blob::<1024>::try_from(value.as_slice()).unwrap();
    map.inner.insert(key, blob).map(|blob| blob.as_slice().to_vec())
}

/// `StableBTreeMap::remove`: takes `key` out of the map and returns the
/// bytes that were stored under it, if the map held the key.
#[verifier::external_body]
pub(crate) fn map_remove(map: &mut RecordMap, key: u64) -> (previous: Option<Vec<u8>>)
    ensures
        map_entries(final(map)) == map_entries(old(map)).remove(key),
        previous is Some <==> map_entries(old(map)).contains_key(key),
        previous is Some ==> previous->0@ == map_entries(old(map))[key],
{
    map.inner.remove(&key).map(|blob| blob.as_slice().to_vec())
}

/// `StableBTreeMap::iter`, collected: every entry of the map, in ascending
/// order of the keys.
#[verifier::external_body]
pub(crate) fn map_list(map: &RecordMap) -> (list: Vec<(u64, Vec<u8>)>)
    ensures
        lists_entries(list@, map_entries(map)),
{
    map.inner.iter().map(|(key, blob)| (key, blob.as_slice().to_vec())).collect()
}

} // verus!
