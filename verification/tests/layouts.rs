use ic_stable_structures::cell::Cell;
use ic_stable_structures::memory_manager::{MemoryId, MemoryManager};
use ic_stable_structures::storable::Blob;
use ic_stable_structures::{DefaultMemoryImpl, Memory, StableBTreeMap};
use stable_ledger::layout::is_manager_header;
use stable_ledger::ledger::memory_in_order;

/// A partition table with `used` buckets of `bucket_pages` pages, none of
/// them owned, and no partition with a page.
fn table(version: u8, used: u16, bucket_pages: u16) -> Vec<u8> {
    let mut bytes = vec![0u8; 34848];
    bytes[..3].copy_from_slice(b"MGR");
    bytes[3] = version;
    bytes[4..6].copy_from_slice(&used.to_le_bytes());
    bytes[6..8].copy_from_slice(&bucket_pages.to_le_bytes());
    for owner in bytes[2080..].iter_mut() {
        *owner = 255;
    }
    bytes
}

fn with_pages(mut table: Vec<u8>, partition: usize, pages: u64) -> Vec<u8> {
    table[40 + 8 * partition..48 + 8 * partition].copy_from_slice(&pages.to_le_bytes());
    table
}

fn with_owner(mut table: Vec<u8>, bucket: usize, owner: u8) -> Vec<u8> {
    table[2080 + bucket] = owner;
    table
}

#[test]
fn a_header_without_a_mark_is_in_order() {
    for start in [&b""[..], &b"XYZ\x09"[..], &b"MG"[..], &b"BT"[..], &b"SC"[..]] {
        let mut long = vec![0u8; 34848];
        long[..start.len()].copy_from_slice(start);
        assert!(is_manager_header(&long, 1));
    }
    assert!(is_manager_header(&b"MGR\x02".to_vec(), 1));
    assert!(is_manager_header(&Vec::new(), 0));
}

#[test]
fn a_partition_table_is_in_order_in_version_one() {
    assert!(is_manager_header(&table(1, 0, 128), 1));
    assert!(!is_manager_header(&table(0, 0, 128), 1));
    assert!(!is_manager_header(&table(2, 0, 128), 1));
}

#[test]
fn the_buckets_of_a_partition_table_have_pages_and_lie_in_the_memory() {
    assert!(!is_manager_header(&table(1, 0, 0), 1));
    assert!(is_manager_header(&table(1, 0, 1), 1));
    assert!(is_manager_header(&table(1, 3, 128), 385));
    assert!(!is_manager_header(&table(1, 3, 128), 384));
    assert!(!is_manager_header(&table(1, 0, 128), 0));
    assert!(is_manager_header(&table(1, 32768, 1), 32769));
    assert!(!is_manager_header(&table(1, 32769, 1), 40000));
    assert!(is_manager_header(&table(1, 32768, 65535), 32768 * 65535 + 1));
}

#[test]
fn a_bucket_beyond_those_in_use_has_no_owner() {
    assert!(is_manager_header(&with_owner(table(1, 3, 128), 2, 7), 385));
    assert!(!is_manager_header(&with_owner(table(1, 3, 128), 3, 7), 385));
    assert!(!is_manager_header(&with_owner(table(1, 3, 128), 32767, 0), 385));
    assert!(is_manager_header(&with_owner(table(1, 3, 128), 32767, 255), 385));
}

#[test]
fn a_partition_owns_buckets_enough_for_its_pages() {
    let owned = with_owner(with_owner(table(1, 3, 128), 0, 5), 2, 5);
    assert!(is_manager_header(&with_pages(owned.clone(), 5, 0), 385));
    assert!(is_manager_header(&with_pages(owned.clone(), 5, 129), 385));
    assert!(is_manager_header(&with_pages(owned.clone(), 5, 256), 385));
    assert!(!is_manager_header(&with_pages(owned.clone(), 5, 257), 385));
    assert!(!is_manager_header(&with_pages(owned.clone(), 5, 1 << 40), 385));
    assert!(!is_manager_header(&with_pages(owned.clone(), 4, 1), 385));
    assert!(!is_manager_header(&with_pages(owned.clone(), 254, 1), 385));
    assert!(is_manager_header(&with_pages(with_owner(owned, 1, 254), 254, 128), 385));
}

#[test]
fn the_table_that_the_partitions_write_is_in_order() {
    let memory = DefaultMemoryImpl::default();
    assert!(memory_in_order(&memory));
    let manager = MemoryManager::init(memory.clone());
    assert!(memory_in_order(&memory));
    Cell::new(manager.get(MemoryId::new(0)), 7u64).unwrap();
    let mut map: StableBTreeMap<u64, Blob<1024>, _> =
        StableBTreeMap::new(manager.get(MemoryId::new(1)));
    assert!(memory_in_order(&memory));
    for key in 0..400u64 {
        map.insert(key, Blob::try_from(&[1u8; 1000][..]).unwrap());
    }
    drop(map);
    let pages = memory.size();
    assert_eq!(pages, 1 + 128 * 2);
    assert!(memory_in_order(&memory));
    assert!(is_manager_header(&memory.borrow()[..34848].to_vec(), pages));
    assert!(!is_manager_header(&memory.borrow()[..34848].to_vec(), pages - 1));
    let sizes = (manager.get(MemoryId::new(0)).size(), manager.get(MemoryId::new(1)).size());
    let expected = with_pages(with_pages(table(1, 2, 128), 0, sizes.0), 1, sizes.1);
    let expected = with_owner(with_owner(expected, 0, 0), 1, 1);
    assert_eq!(memory.borrow()[..34848], expected[..]);
}

#[test]
fn a_memory_with_a_table_out_of_order_is_not_in_order() {
    let memory = DefaultMemoryImpl::default();
    let manager = MemoryManager::init(memory.clone());
    Cell::new(manager.get(MemoryId::new(0)), 7u64).unwrap();
    drop(manager);
    let sound = memory.borrow().clone();
    assert!(memory_in_order(&memory));

    memory.borrow_mut()[3] = 2;
    assert!(!memory_in_order(&memory));
    *memory.borrow_mut() = sound.clone();
    memory.borrow_mut()[6..8].copy_from_slice(&[0, 0]);
    assert!(!memory_in_order(&memory));
    *memory.borrow_mut() = sound.clone();
    memory.borrow_mut()[2080] = 255;
    assert!(!memory_in_order(&memory));
    *memory.borrow_mut() = sound.clone();
    memory.borrow_mut().truncate(65536 * 100);
    assert!(!memory_in_order(&memory));
    *memory.borrow_mut() = sound;
    memory.borrow_mut()[0] = b'X';
    assert!(memory_in_order(&memory));
}
