//! The durable regions the ledger lives in: keyed record maps and the
//! identifier cell, both kept in stable memory by `ic_stable_structures`.
//!
//! Nothing in this module is proved. Each function makes one call into the
//! storage crate and states what that call does to the contents of the
//! structure; the ledger is verified against these statements.
//!
//! No structure is loaded from what a memory holds: every map and cell is
//! made afresh, in a partition of its own of a memory that the ledger
//! takes for itself and hands to nobody. Only the table of the partitions
//! is read from the memory, after it was found in order (see `layout`).
//! The storage crate stops the program where the memory cannot grow.

use ic_stable_structures::cell::ValueError;
use ic_stable_structures::memory_manager::{MemoryId, MemoryManager, VirtualMemory};
use ic_stable_structures::storable::Blob;
use crate::layout::{manager_region_ok, PAGE_LEN};
use ic_stable_structures::{Cell, DefaultMemoryImpl, Memory, StableBTreeMap};
use vstd::prelude::*;

verus! {

/// The largest record, in bytes, that a record map stores.
pub const RECORD_MAX: usize = 1024;

/// `std::cell::RefCell`, which the vector-backed stable memory is made of.
#[verifier::external_type_specification]
#[verifier::external_body]
#[verifier::reject_recursive_types(T)]
pub struct ExRefCell<T: ?Sized>(std::cell::RefCell<T>);

/// `ic_stable_structures::cell::ValueError`: a value did not fit into the
/// memory of a cell.
#[verifier::external_type_specification]
#[verifier::external_body]
pub struct ExValueError(ValueError);

/// A `MemoryManager` over the stable memory: it divides the one memory into
/// partitions that grow independently.
#[verifier::external_body]
pub struct Partitions {
    inner: MemoryManager<DefaultMemoryImpl>,
}

/// One partition (a `VirtualMemory`) of the stable memory.
#[verifier::external_body]
pub struct Partition {
    inner: VirtualMemory<DefaultMemoryImpl>,
}

/// A `StableBTreeMap` from 64-bit keys to records of at most `RECORD_MAX`
/// bytes, in a partition of its own.
#[verifier::external_body]
pub struct RecordMap {
    inner: StableBTreeMap<u64, Blob<RECORD_MAX>, VirtualMemory<DefaultMemoryImpl>>,
}

/// A `Cell` that keeps one `u64` in a partition of its own.
#[verifier::external_body]
pub struct IdCell {
    inner: Cell<u64, VirtualMemory<DefaultMemoryImpl>>,
}

/// The records that a map holds, by key.
pub uninterp spec fn record_map_entries(map: RecordMap) -> Map<u64, Seq<u8>>;

/// The number that a cell holds.
pub uninterp spec fn id_cell_value(cell: IdCell) -> u64;

/// The bytes that the stable memory holds, before a structure is opened in
/// it.
pub uninterp spec fn memory_bytes(memory: DefaultMemoryImpl) -> Seq<u8>;

/// `DefaultMemoryImpl::default`: the stable memory of the canister; off a
/// canister, a vector memory of its own that is empty. What it holds is not
/// known here.
#[verifier::external_body]
pub(crate) fn memory_default() -> DefaultMemoryImpl {
    DefaultMemoryImpl::default()
}

/// `Memory::size` of the stable memory: its length in pages.
#[verifier::external_body]
pub(crate) fn memory_pages(memory: &DefaultMemoryImpl) -> (pages: u64)
    ensures
        pages * PAGE_LEN == memory_bytes(*memory).len(),
{
    memory.size()
}

/// `Memory::read` on the stable memory: a copy of `length` bytes from
/// `offset` on. The memory refuses a read beyond its end.
#[verifier::external_body]
pub(crate) fn memory_read(memory: &DefaultMemoryImpl, offset: u64, length: usize) -> (bytes: Vec<
    u8,
>)
    requires
        offset + length <= memory_bytes(*memory).len(),
    ensures
        bytes@ == memory_bytes(*memory).subrange(offset as int, offset + length),
{
    let mut bytes = vec![0; length];
    memory.read(offset, &mut bytes);
    bytes
}

/// `MemoryManager::init`: takes over `memory`, reading the partition table
/// that it holds or writing an empty one. Nothing is claimed of the result.
/// From then on the memory belongs to the partitions. A table of another
/// layout version is refused, and one that is out of order sends reads and
/// writes of its partitions astray, so such a memory is not admitted.
#[verifier::external_body]
pub(crate) fn partitions_open(memory: DefaultMemoryImpl) -> Partitions
    requires
        manager_region_ok(memory_bytes(memory)),
{
    Partitions { inner: MemoryManager::init(memory) }
}

/// `MemoryManager::get` on `MemoryId::new(id)`: the partition with that
/// number. `MemoryId::new` refuses 255, which marks unallocated buckets.
#[verifier::external_body]
pub(crate) fn partitions_get(partitions: &Partitions, id: u8) -> Partition
    requires
        id < 255,
{
    Partition { inner: partitions.inner.get(MemoryId::new(id)) }
}

/// `StableBTreeMap::new`: writes a fresh header into the partition, which
/// is reserved for this map; the map made this way holds no entry.
#[verifier::external_body]
pub(crate) fn record_map_new(partition: Partition) -> (made: RecordMap)
    ensures
        forall|key: u64| !record_map_entries(made).contains_key(key),
{
    RecordMap { inner: StableBTreeMap::new(partition.inner) }
}

/// `StableBTreeMap::get`: the record stored under `key`, if there is one.
#[verifier::external_body]
pub(crate) fn record_map_get(map: &RecordMap, key: u64) -> (found: Option<Vec<u8>>)
    ensures
        found is Some <==> record_map_entries(*map).contains_key(key),
        found matches Some(bytes) ==> bytes@ == record_map_entries(*map)[key],
{
    map.inner.get(&key).map(|blob| blob.as_slice().to_vec())
}

/// `StableBTreeMap::insert`: stores `record` under `key`, replacing what was
/// there, and returns the record it replaced. The map refuses a record
/// longer than its bound, so such a record is not admitted.
#[verifier::external_body]
pub(crate) fn record_map_insert(map: &mut RecordMap, key: u64, record: &Vec<u8>) -> (previous:
    Option<Vec<u8>>)
    requires
        record@.len() <= RECORD_MAX,
    ensures
        record_map_entries(*final(map)) == record_map_entries(*old(map)).insert(key, record@),
        previous is Some <==> record_map_entries(*old(map)).contains_key(key),
        previous matches Some(bytes) ==> bytes@ == record_map_entries(*old(map))[key],
{
    let blob = Blob::<RECORD_MAX>::try_from(record.as_slice()).unwrap();
    map.inner.insert(key, blob).map(|old| old.as_slice().to_vec())
}

/// `StableBTreeMap::remove`: takes the entry under `key` out of the map and
/// returns its record; a map without that key is left as it was.
#[verifier::external_body]
pub(crate) fn record_map_remove(map: &mut RecordMap, key: u64) -> (removed: Option<Vec<u8>>)
    ensures
        record_map_entries(*final(map)) == record_map_entries(*old(map)).remove(key),
        removed is Some <==> record_map_entries(*old(map)).contains_key(key),
        removed matches Some(bytes) ==> bytes@ == record_map_entries(*old(map))[key],
{
    map.inner.remove(&key).map(|old| old.as_slice().to_vec())
}

/// `StableBTreeMap::iter`: every entry of the map, once, in ascending order
/// of the keys.
#[verifier::external_body]
pub(crate) fn record_map_list(map: &RecordMap) -> (entries: Vec<(u64, Vec<u8>)>)
    ensures
        forall|i: int|
            0 <= i < entries@.len() ==> record_map_entries(*map).contains_key(
                (#[trigger] entries@[i]).0,
            ) && record_map_entries(*map)[entries@[i].0] == entries@[i].1@,
        forall|i: int, j: int|
            0 <= i < j < entries@.len() ==> (#[trigger] entries@[i]).0 < (#[trigger] entries@[j]).0,
        forall|key: u64| #[trigger]
            record_map_entries(*map).contains_key(key) ==> exists|i: int|
                0 <= i < entries@.len() && (#[trigger] entries@[i]).0 == key,
{
    map.inner.iter().map(|(key, blob)| (key, blob.as_slice().to_vec())).collect()
}

/// `Cell::new`: writes `value` into the partition, over what it held. The
/// partition is reserved for this cell. The cell that comes back holds
/// `value`; an error comes back where the memory could not grow to take
/// it.
#[verifier::external_body]
pub(crate) fn id_cell_new(partition: Partition, value: u64) -> (made: Result<IdCell, ValueError>)
    ensures
        made matches Ok(cell) ==> id_cell_value(cell) == value,
{
    match Cell::new(partition.inner, value) {
        Ok(inner) => Ok(IdCell { inner }),
        Err(error) => Err(error),
    }
}

/// `Cell::get`: the number in the cell.
#[verifier::external_body]
pub(crate) fn id_cell_get(cell: &IdCell) -> (value: u64)
    ensures
        value == id_cell_value(*cell),
{
    *cell.inner.get()
}

/// `Cell::set`: puts `value` into the cell and hands back the number it
/// held. `set` has an error for a value that does not fit into the memory;
/// a `u64` takes eight bytes after the header, and a cell exists only in a
/// memory of at least one page, so the write never has to grow the memory
/// and that error does not come back.
#[verifier::external_body]
pub(crate) fn id_cell_set(cell: &mut IdCell, value: u64) -> (previous: u64)
    ensures
        previous == id_cell_value(*old(cell)),
        id_cell_value(*final(cell)) == value,
{
    cell.inner.set(value).expect("eight bytes fit into the first page")
}

} // verus!
