//! The table of the partitions at the start of the stable memory, as far
//! as the ledger looks at it before it opens the partitions.
//!
//! The table starts with the three bytes `MGR` and a byte for the version
//! of its layout. A memory that is marked so is loaded; one that is not is
//! written afresh. The ledger opens a marked memory only where the table
//! is in version 1 and in order.
//!
//! The partition table divides the memory behind its first page into
//! buckets of equally many pages. It holds the number of buckets in use,
//! the pages of a bucket, the pages of each of the 255 partitions, and for
//! each of the 32768 buckets the partition that owns it, or 255 where it is
//! free. Numbers stand least significant byte first.

use vstd::prelude::*;

verus! {

/// The bytes of a page, in which the length of a region is counted.
pub const PAGE_LEN: u64 = 65536;

/// The bytes of a partition table.
pub const MANAGER_LEN: usize = 34848;

/// The buckets that a partition table has room for.
pub const BUCKETS: usize = 32768;

/// The partitions that a partition table has room for.
pub const PARTITIONS: usize = 255;

/// The owner of a bucket that is free.
pub const FREE: u8 = 255;

/// Where the partition table holds the number of buckets in use.
pub const BUCKETS_USED_AT: usize = 4;

/// Where the partition table holds the pages of a bucket.
pub const BUCKET_PAGES_AT: usize = 6;

/// Where the partition table holds the pages of the partitions, eight bytes
/// each.
pub const SIZES_AT: usize = 40;

/// Where the partition table holds the owners of the buckets, a byte each.
pub const OWNERS_AT: usize = 2080;

/// Whether the three bytes at `at` are the mark `first`, `second`, `third`.
pub open spec fn marked(header: Seq<u8>, at: int, first: u8, second: u8, third: u8) -> bool {
    header[at] == first && header[at + 1] == second && header[at + 2] == third
}

/// The number that the four bytes at `at` stand for, least significant
/// first.
pub open spec fn number_at(header: Seq<u8>, at: int) -> int {
    header[at] + 256 * header[at + 1] + 65536 * header[at + 2] + 16777216 * header[at + 3]
}

/// The number that the two bytes at `at` stand for.
pub open spec fn short_at(header: Seq<u8>, at: int) -> int {
    header[at] + 256 * header[at + 1]
}

/// The number that the eight bytes at `at` stand for.
pub open spec fn long_at(header: Seq<u8>, at: int) -> int {
    number_at(header, at) + 4294967296 * number_at(header, at + 4)
}

/// The pages that a partition has by the table.
pub open spec fn pages_of(header: Seq<u8>, partition: int) -> int {
    long_at(header, SIZES_AT + 8 * partition)
}

/// The owner of a bucket by the table.
pub open spec fn owner_of(header: Seq<u8>, bucket: int) -> u8 {
    header[OWNERS_AT + bucket]
}

/// How many of the first `upto` buckets a partition owns.
pub open spec fn owned(header: Seq<u8>, partition: u8, upto: int) -> int
    decreases upto,
{
    if upto <= 0 {
        0
    } else if owner_of(header, upto - 1) == partition {
        owned(header, partition, upto - 1) + 1
    } else {
        owned(header, partition, upto - 1)
    }
}

/// Whether a partition table is in order in a memory of `pages` pages: it
/// is in version 1, a bucket has a page at least, the buckets in use lie
/// within the memory, no bucket beyond them has an owner, and each
/// partition owns buckets enough for its pages.
pub open spec fn table_in_order(header: Seq<u8>, pages: int) -> bool {
    &&& header[3] == 1
    &&& short_at(header, BUCKET_PAGES_AT as int) > 0
    &&& short_at(header, BUCKETS_USED_AT as int) <= BUCKETS
    &&& 1 + short_at(header, BUCKET_PAGES_AT as int) * short_at(header, BUCKETS_USED_AT as int)
        <= pages
    &&& forall|bucket: int|
        0 <= bucket < BUCKETS && #[trigger] owner_of(header, bucket) != FREE ==> bucket < short_at(
            header,
            BUCKETS_USED_AT as int,
        )
    &&& forall|partition: int|
        0 <= partition < PARTITIONS ==> #[trigger] pages_of(header, partition) <= short_at(
            header,
            BUCKET_PAGES_AT as int,
        ) * owned(header, partition as u8, BUCKETS as int)
}

/// Whether a header is not that of a partition table, or that of one in
/// order in a memory of `pages` pages. The mark of a partition table is
/// `MGR`.
pub open spec fn manager_header_ok(header: Seq<u8>, pages: int) -> bool {
    header.len() >= MANAGER_LEN && marked(header, 0, 0x4d, 0x47, 0x52) ==> table_in_order(
        header,
        pages,
    )
}

/// Whether a memory is empty or starts with a header in order for a
/// partition table.
pub open spec fn manager_region_ok(region: Seq<u8>) -> bool {
    region.len() >= MANAGER_LEN ==> manager_header_ok(
        region.take(MANAGER_LEN as int),
        (region.len() as int) / (PAGE_LEN as int),
    )
}

/// Whether the three bytes at `at` are the mark `first`, `second`, `third`.
fn is_marked(header: &Vec<u8>, at: usize, first: u8, second: u8, third: u8) -> (found: bool)
    requires
        at + 3 <= header@.len(),
    ensures
        found == marked(header@, at as int, first, second, third),
{
    assert(header@.len() == header.len());
    header[at] == first && header[at + 1] == second && header[at + 2] == third
}

/// The number that the four bytes at `at` stand for.
fn read_number_at(header: &Vec<u8>, at: usize) -> (number: u64)
    requires
        at + 4 <= header@.len(),
    ensures
        number == number_at(header@, at as int),
{
    assert(header@.len() == header.len());
    header[at] as u64 + 256 * (header[at + 1] as u64) + 65536 * (header[at + 2] as u64) + 16777216
        * (header[at + 3] as u64)
}

/// The number that the two bytes at `at` stand for.
fn read_short_at(header: &Vec<u8>, at: usize) -> (number: u64)
    requires
        at + 2 <= header@.len(),
    ensures
        number == short_at(header@, at as int),
{
    assert(header@.len() == header.len());
    header[at] as u64 + 256 * (header[at + 1] as u64)
}

/// The number that the eight bytes at `at` stand for.
fn read_long_at(header: &Vec<u8>, at: usize) -> (number: u64)
    requires
        at + 8 <= header@.len(),
    ensures
        number == long_at(header@, at as int),
{
    assert(header@.len() == header.len());
    read_number_at(header, at) + 4294967296 * read_number_at(header, at + 4)
}

/// How many buckets each partition owns, if no bucket from `used` on has
/// an owner; `None` where one has.
fn count_owned(header: &Vec<u8>, used: u64) -> (counts: Option<Vec<u64>>)
    requires
        header@.len() >= MANAGER_LEN,
    ensures
        counts is Some <==> forall|bucket: int|
            0 <= bucket < BUCKETS && #[trigger] owner_of(header@, bucket) != FREE ==> bucket < used,
        counts matches Some(list) ==> list@.len() == PARTITIONS && forall|partition: int|
            0 <= partition < PARTITIONS ==> #[trigger] list@[partition] == owned(
                header@,
                partition as u8,
                BUCKETS as int,
            ) && list@[partition] <= BUCKETS,
{
    let mut counts: Vec<u64> = Vec::new();
    while counts.len() < PARTITIONS
        invariant
            counts@.len() <= PARTITIONS,
            forall|partition: int|
                0 <= partition < counts@.len() ==> #[trigger] counts@[partition] == 0,
        decreases PARTITIONS - counts@.len(),
    {
        counts.push(0);
    }
    let mut bucket: usize = 0;
    while bucket < BUCKETS
        invariant
            bucket <= BUCKETS,
            header@.len() >= MANAGER_LEN,
            counts@.len() == PARTITIONS,
            forall|partition: int|
                0 <= partition < PARTITIONS ==> #[trigger] counts@[partition] == owned(
                    header@,
                    partition as u8,
                    bucket as int,
                ) && counts@[partition] <= bucket,
            forall|other: int|
                0 <= other < bucket && #[trigger] owner_of(header@, other) != FREE ==> other < used,
        decreases BUCKETS - bucket,
    {
        let owner: u8 = header[OWNERS_AT + bucket];
        if owner != FREE {
            if bucket as u64 >= used {
                assert(owner_of(header@, bucket as int) != FREE);
                return None;
            }
            let before: u64 = counts[owner as usize];
            counts.set(owner as usize, before + 1);
        }
        bucket = bucket + 1;
    }
    Some(counts)
}

/// Whether a header is in order for a partition table in a memory of
/// `pages` pages.
pub fn is_manager_header(header: &Vec<u8>, pages: u64) -> (ok: bool)
    ensures
        ok == manager_header_ok(header@, pages as int),
{
    if header.len() < MANAGER_LEN || !is_marked(header, 0, 0x4d, 0x47, 0x52) {
        return true;
    }
    let used: u64 = read_short_at(header, BUCKETS_USED_AT);
    let bucket_pages: u64 = read_short_at(header, BUCKET_PAGES_AT);
    if header[3] != 1 || bucket_pages == 0 || used > BUCKETS as u64 {
        return false;
    }
    assert(bucket_pages * used <= 65535 * 32768) by (nonlinear_arith)
        requires
            bucket_pages <= 65535,
            used <= 32768,
    ;
    if bucket_pages * used >= pages {
        return false;
    }
    let counts: Vec<u64> = match count_owned(header, used) {
        Some(counts) => counts,
        None => { return false; },
    };
    let mut partition: usize = 0;
    while partition < PARTITIONS
        invariant
            partition <= PARTITIONS,
            header@.len() >= MANAGER_LEN,
            marked(header@, 0, 0x4d, 0x47, 0x52),
            bucket_pages == short_at(header@, BUCKET_PAGES_AT as int),
            counts@.len() == PARTITIONS,
            forall|other: int|
                0 <= other < PARTITIONS ==> #[trigger] counts@[other] == owned(
                    header@,
                    other as u8,
                    BUCKETS as int,
                ) && counts@[other] <= BUCKETS,
            forall|other: int|
                0 <= other < partition ==> #[trigger] pages_of(header@, other) <= bucket_pages
                    * owned(header@, other as u8, BUCKETS as int),
        decreases PARTITIONS - partition,
    {
        let size: u64 = read_long_at(header, SIZES_AT + 8 * partition);
        let count: u64 = counts[partition];
        assert(bucket_pages * count <= 65535 * 32768) by (nonlinear_arith)
            requires
                bucket_pages <= 65535,
                count <= 32768,
        ;
        if size > bucket_pages * count {
            assert(pages_of(header@, partition as int) > bucket_pages * owned(
                header@,
                partition as u8,
                BUCKETS as int,
            ));
            return false;
        }
        partition = partition + 1;
    }
    true
}

} // verus!
