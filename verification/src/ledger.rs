//! The ledger: the identifier counter, the users and the log of
//! transactions, each in a durable region of its own.
//!
//! A ledger is made empty (`Ledger::new`) or from what was read from a
//! ledger before (`Ledger::rebuild`). Either way its regions are written
//! afresh in a memory that the ledger takes for itself: on a canister the
//! stable memory, of which there is one, so that there is one ledger.

use crate::codec::{
    decode_transaction, decode_user, encode_transaction, encode_user,
    lemma_transaction_round_trip, lemma_user_canonical, lemma_user_round_trip, parse_transaction,
    parse_user, user_fits, Record,
};
use crate::layout::{is_manager_header, manager_region_ok, MANAGER_LEN, PAGE_LEN};
use crate::model::{Transaction, User, UserView};
use crate::store::{
    id_cell_get, id_cell_new, id_cell_set, id_cell_value, memory_bytes, memory_default,
    memory_pages, memory_read, partitions_get, partitions_open, record_map_entries,
    record_map_get, record_map_insert, record_map_list, record_map_new, record_map_remove, IdCell,
    RecordMap, RECORD_MAX,
};
use ic_stable_structures::DefaultMemoryImpl;
use vstd::prelude::*;
use vstd::seq_lib::seq_to_set_is_finite;
use vstd::set_lib::lemma_len_subset;

verus! {

/// The partition of the identifier counter.
pub const COUNTER_PARTITION: u8 = 0;

/// The partition of the users.
pub const USERS_PARTITION: u8 = 1;

/// The partition of the log of transactions.
pub const TRANSACTIONS_PARTITION: u8 = 2;

/// The ledger. Its regions are reached only through its operations, which
/// hand out copies of the records.
pub struct Ledger {
    next_id: IdCell,
    users: RecordMap,
    transactions: RecordMap,
}

/// What a ledger holds: the next identifier to issue, the users by
/// identifier and the transactions by identifier.
pub struct LedgerView {
    pub next_id: u64,
    pub users: Map<u64, UserView>,
    pub transactions: Map<u64, Transaction>,
}

/// Why a ledger could not be opened.
#[derive(Debug, Clone, Copy, PartialEq, Eq)]
pub enum StorageError {
    /// The memory holds a table of partitions of another layout version, or
    /// one that is out of order.
    PartitionTable,
    /// The region of the identifier counter could not be written.
    Counter,
    /// The record under this key is too long or no user record in order.
    UserRecord(u64),
    /// The record under this key is too long or no transaction record in
    /// order.
    TransactionRecord(u64),
}

impl LedgerView {
    /// A ledger without users and transactions that has issued no
    /// identifier.
    pub open spec fn empty() -> LedgerView {
        LedgerView { next_id: 0, users: Map::empty(), transactions: Map::empty() }
    }

    /// There are finitely many records, every record is stored under its
    /// own identifier, and every identifier in use was issued: it lies
    /// below the next one.
    pub open spec fn consistent(self) -> bool {
        &&& self.users.dom().finite()
        &&& self.transactions.dom().finite()
        &&& forall|id: u64| #[trigger]
            self.users.contains_key(id) ==> self.users[id].id == id && id < self.next_id
        &&& forall|id: u64| #[trigger]
            self.transactions.contains_key(id) ==> self.transactions[id].id == id && id
                < self.next_id
    }
}

/// The users that the records of a map stand for.
pub open spec fn users_of(entries: Map<u64, Seq<u8>>) -> Map<u64, UserView> {
    Map::new(|id: u64| entries.contains_key(id), |id: u64| parse_user(entries[id]).unwrap())
}

/// The transactions that the records of a map stand for.
pub open spec fn transactions_of(entries: Map<u64, Seq<u8>>) -> Map<u64, Transaction> {
    Map::new(
        |id: u64| entries.contains_key(id),
        |id: u64| parse_transaction(entries[id]).unwrap(),
    )
}

/// Whether the record under `id` is a user record of the bounded size.
pub open spec fn user_record_ok(entries: Map<u64, Seq<u8>>, id: u64) -> bool {
    parse_user(entries[id]) is Some && entries[id].len() <= RECORD_MAX
}

/// Whether the record under `id` is a transaction record.
pub open spec fn transaction_record_ok(entries: Map<u64, Seq<u8>>, id: u64) -> bool {
    parse_transaction(entries[id]) is Some
}

/// Whether the record under `id` is a user record in order: one of the
/// bounded size with that identifier, which lies below `next`, and with an
/// email address that no user with a lesser identifier has.
pub open spec fn user_entry_ok(entries: Map<u64, Seq<u8>>, id: u64, next: u64) -> bool {
    &&& user_record_ok(entries, id)
    &&& parse_user(entries[id]).unwrap().id == id
    &&& id < next
    &&& forall|other: u64| #[trigger]
        entries.contains_key(other) && other < id && parse_user(entries[other]) is Some
            ==> parse_user(entries[other]).unwrap().email != parse_user(
            entries[id],
        ).unwrap().email
}

/// Whether the record under `id` is a transaction record in order: one
/// with that identifier, which lies below `next`, and of a transfer of more
/// than nothing between two of the `users`.
pub open spec fn transaction_entry_ok(
    entries: Map<u64, Seq<u8>>,
    users: Map<u64, Seq<u8>>,
    id: u64,
    next: u64,
) -> bool {
    &&& transaction_record_ok(entries, id)
    &&& parse_transaction(entries[id]).unwrap().id == id
    &&& id < next
    &&& parse_transaction(entries[id]).unwrap().amount > 0
    &&& users.contains_key(parse_transaction(entries[id]).unwrap().from_user_id)
    &&& users.contains_key(parse_transaction(entries[id]).unwrap().to_user_id)
}

/// A map whose keys all stand in a list has finitely many keys.
proof fn lemma_listed_keys_are_finite(entries: Map<u64, Seq<u8>>, list: Seq<(u64, Vec<u8>)>)
    requires
        forall|key: u64| #[trigger]
            entries.contains_key(key) ==> exists|i: int|
                0 <= i < list.len() && (#[trigger] list[i]).0 == key,
    ensures
        entries.dom().finite(),
{
    let keys = Seq::new(list.len(), |i: int| list[i].0);
    seq_to_set_is_finite(keys);
    assert forall|key: u64| entries.dom().contains(key) implies keys.to_set().contains(key) by {
        let i = choose|i: int| 0 <= i < list.len() && (#[trigger] list[i]).0 == key;
        assert(keys[i] == key);
    }
    lemma_len_subset(entries.dom(), keys.to_set());
}

/// Whether `list` holds every entry of `entries` once, in ascending order
/// of the keys.
pub open spec fn lists(entries: Map<u64, Seq<u8>>, list: Seq<(u64, Vec<u8>)>) -> bool {
    &&& forall|i: int|
        0 <= i < list.len() ==> entries.contains_key((#[trigger] list[i]).0)
            && entries[list[i].0] == list[i].1@
    &&& forall|i: int, j: int|
        0 <= i < j < list.len() ==> (#[trigger] list[i]).0 < (#[trigger] list[j]).0
    &&& forall|key: u64| #[trigger]
        entries.contains_key(key) ==> exists|i: int|
            0 <= i < list.len() && (#[trigger] list[i]).0 == key
}

/// The place of a key of the map in the list of its entries.
proof fn lemma_listed_at(entries: Map<u64, Seq<u8>>, list: Seq<(u64, Vec<u8>)>, key: u64) -> (at:
    int)
    requires
        lists(entries, list),
        entries.contains_key(key),
    ensures
        0 <= at < list.len(),
        list[at].0 == key,
{
    choose|i: int| 0 <= i < list.len() && (#[trigger] list[i]).0 == key
}

/// Whether one of `emails` is `email`.
fn holds_email(emails: &Vec<String>, email: &String) -> (held: bool)
    ensures
        held == exists|i: int| 0 <= i < emails@.len() && (#[trigger] emails@[i])@ == email@,
{
    let mut at: usize = 0;
    while at < emails.len()
        invariant
            at <= emails@.len(),
            forall|i: int| 0 <= i < at ==> (#[trigger] emails@[i])@ != email@,
        decreases emails@.len() - at,
    {
        if emails[at] == *email {
            return true;
        }
        at = at + 1;
    }
    false
}

/// The least key of `map` whose record is no user record in order; `None`
/// where every record is one.
fn first_bad_user(map: &RecordMap, next: u64) -> (bad: Option<u64>)
    ensures
        match bad {
            Some(key) => first_user_out_of_order(record_map_entries(*map), next, key),
            None => record_map_entries(*map).dom().finite() && users_in_order(
                record_map_entries(*map),
                next,
            ),
        },
{
    let entries = record_map_list(map);
    let ghost held = record_map_entries(*map);
    let mut emails: Vec<String> = Vec::new();
    let mut at: usize = 0;
    while at < entries.len()
        invariant
            at <= entries@.len(),
            held == record_map_entries(*map),
            lists(held, entries@),
            emails@.len() == at,
            forall|i: int| 0 <= i < at ==> user_entry_ok(held, (#[trigger] entries@[i]).0, next),
            forall|i: int|
                0 <= i < at ==> (#[trigger] emails@[i])@ == parse_user(
                    held[entries@[i].0],
                ).unwrap().email,
        decreases entries@.len() - at,
    {
        let key: u64 = entries[at].0;
        assert(held.contains_key(entries@[at as int].0));
        proof {
            assert forall|id: u64| #[trigger]
                held.contains_key(id) && id < key implies user_entry_ok(held, id, next) by {
                let i = lemma_listed_at(held, entries@, id);
                if i > at {
                    assert(entries@[at as int].0 < entries@[i].0);
                }
                assert(user_entry_ok(held, entries@[i].0, next));
            }
        }
        if entries[at].1.len() > RECORD_MAX || key >= next {
            return Some(key);
        }
        let user: User = match decode_user(&entries[at].1) {
            Some(user) => user,
            None => { return Some(key); },
        };
        if user.id != key {
            return Some(key);
        }
        if holds_email(&emails, &user.email) {
            proof {
                let i = choose|i: int|
                    0 <= i < emails@.len() && (#[trigger] emails@[i])@ == user.email@;
                assert(user_entry_ok(held, entries@[i].0, next));
                assert(held.contains_key(entries@[i].0) && entries@[i].0 < key);
            }
            return Some(key);
        }
        proof {
            assert forall|other: u64| #[trigger]
                held.contains_key(other) && other < key && parse_user(
                    held[other],
                ) is Some implies parse_user(held[other]).unwrap().email != user@.email by {
                let i = lemma_listed_at(held, entries@, other);
                if i >= at {
                    assert(entries@[at as int].0 <= entries@[i].0);
                }
                assert(emails@[i]@ != user.email@);
            }
        }
        emails.push(user.email);
        at = at + 1;
    }
    proof {
        lemma_listed_keys_are_finite(held, entries@);
        assert forall|id: u64| #[trigger] held.contains_key(id) implies user_entry_ok(
            held,
            id,
            next,
        ) by {
            let i = lemma_listed_at(held, entries@, id);
            assert(user_entry_ok(held, entries@[i].0, next));
        }
    }
    None
}

/// The least key of `map` whose record is no transaction record in order;
/// `None` where every record is one.
fn first_bad_transaction(map: &RecordMap, users: &RecordMap, next: u64) -> (bad: Option<u64>)
    ensures
        match bad {
            Some(key) => first_transaction_out_of_order(
                record_map_entries(*map),
                record_map_entries(*users),
                next,
                key,
            ),
            None => record_map_entries(*map).dom().finite() && transactions_in_order(
                record_map_entries(*map),
                record_map_entries(*users),
                next,
            ),
        },
{
    let entries = record_map_list(map);
    let ghost held = record_map_entries(*map);
    let ghost people = record_map_entries(*users);
    let mut at: usize = 0;
    while at < entries.len()
        invariant
            at <= entries@.len(),
            held == record_map_entries(*map),
            people == record_map_entries(*users),
            lists(held, entries@),
            forall|i: int|
                0 <= i < at ==> transaction_entry_ok(
                    held,
                    people,
                    (#[trigger] entries@[i]).0,
                    next,
                ),
        decreases entries@.len() - at,
    {
        let key: u64 = entries[at].0;
        assert(held.contains_key(entries@[at as int].0));
        proof {
            assert forall|id: u64| #[trigger]
                held.contains_key(id) && id < key implies transaction_entry_ok(
                held,
                people,
                id,
                next,
            ) by {
                let i = lemma_listed_at(held, entries@, id);
                if i > at {
                    assert(entries@[at as int].0 < entries@[i].0);
                }
                assert(transaction_entry_ok(held, people, entries@[i].0, next));
            }
        }
        if key >= next {
            return Some(key);
        }
        let transaction: Transaction = match decode_transaction(&entries[at].1) {
            Some(transaction) => transaction,
            None => { return Some(key); },
        };
        if transaction.id != key || transaction.amount == 0 {
            return Some(key);
        }
        if record_map_get(users, transaction.from_user_id).is_none() || record_map_get(
            users,
            transaction.to_user_id,
        ).is_none() {
            return Some(key);
        }
        at = at + 1;
    }
    proof {
        lemma_listed_keys_are_finite(held, entries@);
        assert forall|id: u64| #[trigger] held.contains_key(id) implies transaction_entry_ok(
            held,
            people,
            id,
            next,
        ) by {
            let i = lemma_listed_at(held, entries@, id);
            assert(transaction_entry_ok(held, people, entries@[i].0, next));
        }
    }
    None
}

/// A region of `pages` pages holds a page at least, unless it is empty.
proof fn lemma_region_has_header(region: Seq<u8>, pages: u64)
    requires
        pages * PAGE_LEN == region.len(),
    ensures
        pages > 0 ==> PAGE_LEN <= region.len(),
        (region.len() as int) / (PAGE_LEN as int) == pages,
{
    assert(pages > 0 ==> pages * PAGE_LEN >= PAGE_LEN) by (nonlinear_arith)
        requires
            PAGE_LEN == 65536,
    ;
    assert(((pages * PAGE_LEN) as int) / (PAGE_LEN as int) == pages) by (nonlinear_arith)
        requires
            PAGE_LEN == 65536,
    ;
}

/// Whether the memory is empty or starts with a header in order for a
/// partition table.
pub fn memory_in_order(memory: &DefaultMemoryImpl) -> (ok: bool)
    ensures
        ok == manager_region_ok(memory_bytes(*memory)),
{
    let pages: u64 = memory_pages(memory);
    proof {
        lemma_region_has_header(memory_bytes(*memory), pages);
    }
    if pages == 0 {
        return true;
    }
    let header = memory_read(memory, 0, MANAGER_LEN);
    assert(header@ =~= memory_bytes(*memory).take(MANAGER_LEN as int));
    is_manager_header(&header, pages)
}

/// What the first `upto` entries of a list store: each record under its
/// key, a later one in place of an earlier one with the same key.
pub open spec fn stored_by(list: Seq<(u64, Vec<u8>)>, upto: int) -> Map<u64, Seq<u8>>
    decreases upto,
{
    if upto <= 0 {
        Map::empty()
    } else {
        stored_by(list, upto - 1).insert(list[upto - 1].0, list[upto - 1].1@)
    }
}

/// What a list of records stores.
pub open spec fn records_of(list: Seq<(u64, Vec<u8>)>) -> Map<u64, Seq<u8>> {
    stored_by(list, list.len() as int)
}

/// Whether every record of the list fits into a map.
pub open spec fn all_fit(list: Seq<(u64, Vec<u8>)>) -> bool {
    forall|i: int| 0 <= i < list.len() ==> (#[trigger] list[i]).1@.len() <= RECORD_MAX
}

/// Whether the record at `at` is the first of the list that is too long.
pub open spec fn first_too_long_at(list: Seq<(u64, Vec<u8>)>, at: int) -> bool {
    &&& 0 <= at < list.len()
    &&& list[at].1@.len() > RECORD_MAX
    &&& forall|i: int| 0 <= i < at ==> (#[trigger] list[i]).1@.len() <= RECORD_MAX
}

/// Whether `key` is the key of the first record of the list that is too
/// long.
pub open spec fn first_too_long_is(list: Seq<(u64, Vec<u8>)>, key: u64) -> bool {
    exists|at: int| first_too_long_at(list, at) && (#[trigger] list[at]).0 == key
}

/// Whether what a ledger is to be rebuilt from is in order: every record
/// fits, and what the lists store is in order for the users and for the
/// log.
pub open spec fn in_order(
    next: u64,
    users: Seq<(u64, Vec<u8>)>,
    transactions: Seq<(u64, Vec<u8>)>,
) -> bool {
    &&& all_fit(users)
    &&& all_fit(transactions)
    &&& users_in_order(records_of(users), next)
    &&& transactions_in_order(records_of(transactions), records_of(users), next)
}

/// Whether `error` is what refuses the lists: the first record that is too
/// long, of the users before the log; else the least key whose record is
/// out of order, of the users before the log.
pub open spec fn refuses(
    next: u64,
    users: Seq<(u64, Vec<u8>)>,
    transactions: Seq<(u64, Vec<u8>)>,
    error: StorageError,
) -> bool {
    match error {
        StorageError::UserRecord(key) => first_too_long_is(users, key) || (all_fit(users)
            && all_fit(transactions) && first_user_out_of_order(records_of(users), next, key)),
        StorageError::TransactionRecord(key) => all_fit(users) && (first_too_long_is(
            transactions,
            key,
        ) || (all_fit(transactions) && users_in_order(records_of(users), next)
            && first_transaction_out_of_order(
            records_of(transactions),
            records_of(users),
            next,
            key,
        ))),
        StorageError::Counter => false,
        StorageError::PartitionTable => false,
    }
}

/// What a ledger holds that was rebuilt from the number and the lists.
pub open spec fn rebuilt(
    next: u64,
    users: Seq<(u64, Vec<u8>)>,
    transactions: Seq<(u64, Vec<u8>)>,
) -> LedgerView {
    LedgerView {
        next_id: next,
        users: users_of(records_of(users)),
        transactions: transactions_of(records_of(transactions)),
    }
}

/// The key of the first record of the list that is too long for a map;
/// `None` where every record fits.
pub fn first_too_long(list: &Vec<(u64, Vec<u8>)>) -> (found: Option<u64>)
    ensures
        match found {
            Some(key) => first_too_long_is(list@, key),
            None => all_fit(list@),
        },
{
    let mut at: usize = 0;
    while at < list.len()
        invariant
            at <= list@.len(),
            forall|i: int| 0 <= i < at ==> (#[trigger] list@[i]).1@.len() <= RECORD_MAX,
        decreases list@.len() - at,
    {
        if list[at].1.len() > RECORD_MAX {
            assert(first_too_long_at(list@, at as int));
            return Some(list[at].0);
        }
        at = at + 1;
    }
    None
}

/// Stores every record of the list in the map, which is empty, in the
/// order of the list.
pub fn store_all(map: &mut RecordMap, list: &Vec<(u64, Vec<u8>)>)
    requires
        forall|key: u64| !record_map_entries(*old(map)).contains_key(key),
        all_fit(list@),
    ensures
        record_map_entries(*final(map)) == records_of(list@),
{
    assert(record_map_entries(*map) =~= stored_by(list@, 0));
    let mut at: usize = 0;
    while at < list.len()
        invariant
            at <= list@.len(),
            all_fit(list@),
            record_map_entries(*map) == stored_by(list@, at as int),
        decreases list@.len() - at,
    {
        record_map_insert(map, list[at].0, &list[at].1);
        at = at + 1;
    }
}

impl View for Ledger {
    type V = LedgerView;

    closed spec fn view(&self) -> LedgerView {
        LedgerView {
            next_id: id_cell_value(self.next_id),
            users: users_of(record_map_entries(self.users)),
            transactions: transactions_of(record_map_entries(self.transactions)),
        }
    }
}

impl Ledger {
    /// The ledger is in order: what is stored can be read back, and what it
    /// holds is consistent and sound.
    pub open spec fn wf(&self) -> bool {
        self.stored() && self@.sound()
    }

    /// Every stored record can be read back, and what the ledger holds is
    /// consistent.
    pub closed spec fn stored(&self) -> bool {
        &&& forall|id: u64| #[trigger]
            record_map_entries(self.users).contains_key(id) ==> user_record_ok(
                record_map_entries(self.users),
                id,
            )
        &&& forall|id: u64| #[trigger]
            record_map_entries(self.transactions).contains_key(id) ==> transaction_record_ok(
                record_map_entries(self.transactions),
                id,
            )
        &&& self@.consistent()
    }

    /// What a ledger has stored is consistent.
    pub proof fn lemma_stored_consistent(&self)
        requires
            self.stored(),
        ensures
            self@.consistent(),
    {
    }

    /// Makes an empty ledger in a memory of its own. What the memory held
    /// is written over. An error comes back where the memory holds a table
    /// of partitions that is out of order, or where the region of the
    /// counter could not be written.
    pub fn new() -> (made: Result<Ledger, StorageError>)
        ensures
            made matches Ok(ledger) ==> ledger.wf() && ledger@ == LedgerView::empty(),
            made matches Err(error) ==> error == StorageError::Counter || error
                == StorageError::PartitionTable,
    {
        let made = Ledger::rebuild(0, Vec::new(), Vec::new());
        proof {
            let none = Seq::<(u64, Vec<u8>)>::empty();
            assert(users_of(records_of(none)) =~= Map::empty());
            assert(transactions_of(records_of(none)) =~= Map::empty());
        }
        made
    }

    /// Makes a ledger in a memory of its own that holds what was read from
    /// a ledger before: the number of the counter, and the records of the
    /// users and of the log with their keys. What the memory held is
    /// written over. Where a key comes twice, the later record counts.
    ///
    /// The ledger is handed out only if what it is to hold is in order.
    /// A record that is too long is refused before the memory is touched,
    /// the users before the log, each list from its start. Then the memory
    /// is formatted and filled, and `assemble` decides on what was stored;
    /// where it refuses, the memory keeps what was stored, and no ledger
    /// is handed out.
    pub fn rebuild(
        next: u64,
        users: Vec<(u64, Vec<u8>)>,
        transactions: Vec<(u64, Vec<u8>)>,
    ) -> (opened: Result<Ledger, StorageError>)
        ensures
            match opened {
                Ok(ledger) => ledger.wf() && ledger@ == rebuilt(next, users@, transactions@)
                    && in_order(next, users@, transactions@),
                Err(error) => refuses(next, users@, transactions@, error) || (all_fit(users@)
                    && all_fit(transactions@) && (error == StorageError::Counter || error
                    == StorageError::PartitionTable)),
            },
    {
        match first_too_long(&users) {
            Some(key) => { return Err(StorageError::UserRecord(key)); },
            None => {},
        }
        match first_too_long(&transactions) {
            Some(key) => { return Err(StorageError::TransactionRecord(key)); },
            None => {},
        }
        let memory = memory_default();
        if !memory_in_order(&memory) {
            return Err(StorageError::PartitionTable);
        }
        let partitions = partitions_open(memory);
        let written = id_cell_new(partitions_get(&partitions, COUNTER_PARTITION), next);
        let next_id = match Ledger::counter_of(written) {
            Ok(cell) => cell,
            Err(error) => { return Err(error); },
        };
        let mut people = record_map_new(partitions_get(&partitions, USERS_PARTITION));
        store_all(&mut people, &users);
        let mut log = record_map_new(partitions_get(&partitions, TRANSACTIONS_PARTITION));
        store_all(&mut log, &transactions);
        Ledger::assemble(next_id, people, log)
    }

    /// The counter that was made; where that failed, the error that says
    /// so.
    pub fn counter_of<E>(made: Result<IdCell, E>) -> (counter: Result<IdCell, StorageError>)
        ensures
            match made {
                Ok(cell) => counter == Ok::<IdCell, StorageError>(cell),
                Err(_) => counter == Err::<IdCell, StorageError>(StorageError::Counter),
            },
    {
        match made {
            Ok(cell) => Ok(cell),
            Err(_) => Err(StorageError::Counter),
        }
    }

    /// Makes a ledger of the three regions, if what they hold is in order.
    /// Every record is read once: each must be a record of its kind, stored
    /// under its own identifier, which lies below the number in the
    /// counter. No two users may have one email address, and every transfer
    /// must have moved more than nothing between two of the users. The
    /// users are read first, then the log; the least key whose record fails
    /// comes back as the error.
    pub fn assemble(next_id: IdCell, users: RecordMap, transactions: RecordMap) -> (opened: Result<
        Ledger,
        StorageError,
    >)
        ensures
            match opened {
                Ok(ledger) => ledger.wf() && ledger@ == held(next_id, users, transactions)
                    && users_in_order(record_map_entries(users), id_cell_value(next_id))
                    && transactions_in_order(
                    record_map_entries(transactions),
                    record_map_entries(users),
                    id_cell_value(next_id),
                ),
                Err(StorageError::UserRecord(key)) => first_user_out_of_order(
                    record_map_entries(users),
                    id_cell_value(next_id),
                    key,
                ),
                Err(StorageError::TransactionRecord(key)) => users_in_order(
                    record_map_entries(users),
                    id_cell_value(next_id),
                ) && first_transaction_out_of_order(
                    record_map_entries(transactions),
                    record_map_entries(users),
                    id_cell_value(next_id),
                    key,
                ),
                Err(StorageError::Counter) => false,
                Err(StorageError::PartitionTable) => false,
            },
    {
        let next: u64 = id_cell_get(&next_id);
        match first_bad_user(&users, next) {
            Some(key) => { return Err(StorageError::UserRecord(key)); },
            None => {},
        }
        match first_bad_transaction(&transactions, &users, next) {
            Some(key) => { return Err(StorageError::TransactionRecord(key)); },
            None => {},
        }
        let ledger = Ledger { next_id, users, transactions };
        proof {
            let people = record_map_entries(ledger.users);
            assert(ledger@.users.dom() =~= people.dom());
            assert(ledger@.transactions.dom() =~= record_map_entries(ledger.transactions).dom());
            assert forall|a: u64, b: u64|
                ledger@.users.contains_key(a) && ledger@.users.contains_key(b)
                    && ledger@.users[a].email == ledger@.users[b].email implies a == b by {
                assert(user_entry_ok(people, a, next) && user_entry_ok(people, b, next));
                if a < b {
                    assert(people.contains_key(a) && a < b && parse_user(people[a]) is Some);
                } else if b < a {
                    assert(people.contains_key(b) && b < a && parse_user(people[b]) is Some);
                }
            }
        }
        Ok(ledger)
    }

    /// The user with this identifier, if there is one.
    pub fn find_user(&self, id: u64) -> (found: Option<User>)
        requires
            self.stored(),
        ensures
            match found {
                Some(user) => self@.users.contains_key(id) && user@ == self@.users[id] && user.id
                    == id && id < self@.next_id && user_fits(user@),
                None => !self@.users.contains_key(id),
            },
    {
        match record_map_get(&self.users, id) {
            None => None,
            Some(bytes) => {
                proof {
                    assert(user_record_ok(record_map_entries(self.users), id));
                    assert(self@.users.contains_key(id));
                    lemma_user_canonical(bytes@);
                }
                decode_user(&bytes)
            },
        }
    }

    /// Stores `user` under its identifier, in place of the record that was
    /// there.
    pub(crate) fn put_user(&mut self, user: &User)
        requires
            old(self).stored(),
            user.id < old(self)@.next_id,
            user_fits(user@),
        ensures
            final(self).stored(),
            final(self)@ == (LedgerView {
                users: old(self)@.users.insert(user.id, user@),
                ..old(self)@
            }),
    {
        let bytes = encode_user(user);
        proof {
            lemma_user_round_trip(user@);
        }
        record_map_insert(&mut self.users, user.id, &bytes);
        proof {
            assert(self@.users =~= old(self)@.users.insert(user.id, user@));
            assert forall|id: u64| #[trigger]
                record_map_entries(self.users).contains_key(id) implies user_record_ok(
                record_map_entries(self.users),
                id,
            ) by {
                if id != user.id {
                    assert(record_map_entries(old(self).users).contains_key(id));
                }
            }
            assert forall|id: u64| #[trigger]
                self@.users.contains_key(id) implies self@.users[id].id == id && id
                < self@.next_id by {
                if id != user.id {
                    assert(old(self)@.users.contains_key(id));
                }
            }
        }
    }

    /// Takes the user with this identifier out of the ledger and hands it
    /// over, for `put_user` to store it again.
    pub(crate) fn take_user(&mut self, id: u64) -> (taken: Option<User>)
        requires
            old(self).stored(),
        ensures
            final(self).stored(),
            final(self)@ == (LedgerView { users: old(self)@.users.remove(id), ..old(self)@ }),
            match taken {
                Some(user) => old(self)@.users.contains_key(id) && user@ == old(self)@.users[id]
                    && user.id == id && id < old(self)@.next_id && user_fits(user@),
                None => !old(self)@.users.contains_key(id),
            },
    {
        let removed = record_map_remove(&mut self.users, id);
        proof {
            assert(self@.users =~= old(self)@.users.remove(id));
            assert forall|other: u64| #[trigger]
                record_map_entries(self.users).contains_key(other) implies user_record_ok(
                record_map_entries(self.users),
                other,
            ) by {
                assert(record_map_entries(old(self).users).contains_key(other));
            }
            assert forall|other: u64| #[trigger]
                self@.users.contains_key(other) implies self@.users[other].id == other && other
                < self@.next_id by {
                assert(old(self)@.users.contains_key(other));
            }
        }
        match removed {
            None => None,
            Some(bytes) => {
                proof {
                    assert(user_record_ok(record_map_entries(old(self).users), id));
                    assert(old(self)@.users.contains_key(id));
                    lemma_user_canonical(bytes@);
                }
                decode_user(&bytes)
            },
        }
    }

    /// The identifier that will be issued next.
    pub fn peek_next_id(&self) -> (id: u64)
        ensures
            id == self@.next_id,
    {
        id_cell_get(&self.next_id)
    }

    /// Issues an identifier: the next one, which no record has yet.
    pub fn next_id(&mut self) -> (id: u64)
        requires
            old(self).stored(),
            old(self)@.next_id < u64::MAX,
        ensures
            final(self).stored(),
            id == old(self)@.next_id,
            final(self)@ == (LedgerView { next_id: (id + 1) as u64, ..old(self)@ }),
    {
        let current: u64 = id_cell_get(&self.next_id);
        let issued: u64 = id_cell_set(&mut self.next_id, current + 1);
        proof {
            assert forall|id: u64| #[trigger]
                self@.users.contains_key(id) implies self@.users[id].id == id && id
                < self@.next_id by {
                assert(old(self)@.users.contains_key(id));
            }
            assert forall|id: u64| #[trigger]
                self@.transactions.contains_key(id) implies self@.transactions[id].id == id && id
                < self@.next_id by {
                assert(old(self)@.transactions.contains_key(id));
            }
        }
        issued
    }

    /// Appends `transaction` to the log under its identifier, which no
    /// record of the log has yet.
    pub(crate) fn put_transaction(&mut self, transaction: &Transaction)
        requires
            old(self).stored(),
            transaction.id < old(self)@.next_id,
            !old(self)@.transactions.contains_key(transaction.id),
        ensures
            final(self).stored(),
            final(self)@ == (LedgerView {
                transactions: old(self)@.transactions.insert(transaction.id, *transaction),
                ..old(self)@
            }),
    {
        let bytes = encode_transaction(transaction);
        proof {
            lemma_transaction_round_trip(*transaction);
        }
        record_map_insert(&mut self.transactions, transaction.id, &bytes);
        proof {
            assert(self@.transactions =~= old(self)@.transactions.insert(
                transaction.id,
                *transaction,
            ));
            assert forall|id: u64| #[trigger]
                record_map_entries(self.transactions).contains_key(
                    id,
                ) implies transaction_record_ok(record_map_entries(self.transactions), id) by {
                if id != transaction.id {
                    assert(record_map_entries(old(self).transactions).contains_key(id));
                }
            }
            assert forall|id: u64| #[trigger]
                self@.transactions.contains_key(id) implies self@.transactions[id].id == id && id
                < self@.next_id by {
                if id != transaction.id {
                    assert(old(self)@.transactions.contains_key(id));
                }
            }
        }
    }

    /// Every user, in ascending order of the identifiers.
    pub fn all_users(&self) -> (list: Vec<User>)
        requires
            self.stored(),
        ensures
            forall|i: int|
                0 <= i < list@.len() ==> self@.users.contains_key((#[trigger] list@[i]).id)
                    && self@.users[list@[i].id] == list@[i]@,
            forall|i: int, j: int|
                0 <= i < j < list@.len() ==> (#[trigger] list@[i]).id < (#[trigger] list@[j]).id,
            forall|id: u64| #[trigger]
                self@.users.contains_key(id) ==> exists|i: int|
                    0 <= i < list@.len() && (#[trigger] list@[i]).id == id,
    {
        proof {
            assert forall|id: u64| #[trigger]
                record_map_entries(self.users).contains_key(id) implies keyed::<User>(
                record_map_entries(self.users),
                id,
            ) by {
                assert(user_record_ok(record_map_entries(self.users), id));
                assert(self@.users.contains_key(id));
            }
        }
        let list = read_all::<User>(&self.users);
        proof {
            assert forall|id: u64| #[trigger] self@.users.contains_key(id) implies exists|i: int|
                0 <= i < list@.len() && (#[trigger] list@[i]).id == id by {
                assert(record_map_entries(self.users).contains_key(id));
            }
        }
        list
    }

    /// Every transaction of the log, in ascending order of the
    /// identifiers.
    pub fn all_transactions(&self) -> (list: Vec<Transaction>)
        requires
            self.stored(),
        ensures
            forall|i: int|
                0 <= i < list@.len() ==> self@.transactions.contains_key((#[trigger] list@[i]).id)
                    && self@.transactions[list@[i].id] == list@[i],
            forall|i: int, j: int|
                0 <= i < j < list@.len() ==> (#[trigger] list@[i]).id < (#[trigger] list@[j]).id,
            forall|id: u64| #[trigger]
                self@.transactions.contains_key(id) ==> exists|i: int|
                    0 <= i < list@.len() && (#[trigger] list@[i]).id == id,
    {
        proof {
            assert forall|id: u64| #[trigger]
                record_map_entries(self.transactions).contains_key(id) implies keyed::<
                Transaction,
            >(record_map_entries(self.transactions), id) by {
                assert(transaction_record_ok(record_map_entries(self.transactions), id));
                assert(self@.transactions.contains_key(id));
            }
        }
        let list = read_all::<Transaction>(&self.transactions);
        proof {
            assert forall|id: u64| #[trigger]
                self@.transactions.contains_key(id) implies exists|i: int|
                0 <= i < list@.len() && (#[trigger] list@[i]).id == id by {
                assert(record_map_entries(self.transactions).contains_key(id));
            }
        }
        list
    }
}

/// Whether the record under `id` can be read and has that identifier.
pub open spec fn keyed<R: Record>(entries: Map<u64, Seq<u8>>, id: u64) -> bool {
    R::parse(entries[id]) is Some && R::key(R::parse(entries[id]).unwrap()) == id
}

/// Every record of a map, in ascending order of the identifiers.
fn read_all<R: Record>(map: &RecordMap) -> (list: Vec<R>)
    requires
        forall|id: u64| #[trigger]
            record_map_entries(*map).contains_key(id) ==> keyed::<R>(record_map_entries(*map), id),
    ensures
        forall|i: int|
            0 <= i < list@.len() ==> record_map_entries(*map).contains_key(
                R::key((#[trigger] list@[i]).plain()),
            ) && R::parse(record_map_entries(*map)[R::key(list@[i].plain())]) == Some(
                list@[i].plain(),
            ),
        forall|i: int, j: int|
            0 <= i < j < list@.len() ==> R::key((#[trigger] list@[i]).plain()) < R::key(
                (#[trigger] list@[j]).plain(),
            ),
        forall|id: u64| #[trigger]
            record_map_entries(*map).contains_key(id) ==> exists|i: int|
                0 <= i < list@.len() && R::key((#[trigger] list@[i]).plain()) == id,
{
    let entries = record_map_list(map);
    let ghost held = record_map_entries(*map);
    let mut list: Vec<R> = Vec::new();
    let mut at: usize = 0;
    while at < entries.len()
        invariant
            at <= entries@.len(),
            list@.len() == at,
            held == record_map_entries(*map),
            lists(held, entries@),
            forall|id: u64| #[trigger] held.contains_key(id) ==> keyed::<R>(held, id),
            forall|i: int|
                0 <= i < at ==> R::key((#[trigger] list@[i]).plain()) == entries@[i].0 && R::parse(
                    held[entries@[i].0],
                ) == Some(list@[i].plain()),
        decreases entries@.len() - at,
    {
        assert(held.contains_key(entries@[at as int].0));
        assert(keyed::<R>(held, entries@[at as int].0));
        match R::read(&entries[at].1) {
            Some(record) => {
                list.push(record);
            },
            None => {
                assert(false);
            },
        }
        at = at + 1;
    }
    proof {
        assert forall|id: u64| #[trigger] held.contains_key(id) implies exists|i: int|
            0 <= i < list@.len() && R::key((#[trigger] list@[i]).plain()) == id by {
            let i = lemma_listed_at(held, entries@, id);
            assert(R::key(list@[i].plain()) == id);
        }
        assert forall|i: int| 0 <= i < list@.len() implies held.contains_key(
            R::key((#[trigger] list@[i]).plain()),
        ) && R::parse(held[R::key(list@[i].plain())]) == Some(list@[i].plain()) by {
            assert(held.contains_key(entries@[i].0));
        }
        assert forall|i: int, j: int| 0 <= i < j < list@.len() implies R::key(
            (#[trigger] list@[i]).plain(),
        ) < R::key((#[trigger] list@[j]).plain()) by {
            assert(entries@[i].0 < entries@[j].0);
        }
    }
    list
}

/// What the three regions hold, read as a ledger.
pub open spec fn held(next_id: IdCell, users: RecordMap, transactions: RecordMap) -> LedgerView {
    LedgerView {
        next_id: id_cell_value(next_id),
        users: users_of(record_map_entries(users)),
        transactions: transactions_of(record_map_entries(transactions)),
    }
}

/// Whether every record is a user record in order.
pub open spec fn users_in_order(entries: Map<u64, Seq<u8>>, next: u64) -> bool {
    forall|id: u64| #[trigger] entries.contains_key(id) ==> user_entry_ok(entries, id, next)
}

/// Whether every record is a transaction record in order.
pub open spec fn transactions_in_order(
    entries: Map<u64, Seq<u8>>,
    users: Map<u64, Seq<u8>>,
    next: u64,
) -> bool {
    forall|id: u64| #[trigger]
        entries.contains_key(id) ==> transaction_entry_ok(entries, users, id, next)
}

/// Whether `key` is the least key whose record is no user record in order.
pub open spec fn first_user_out_of_order(entries: Map<u64, Seq<u8>>, next: u64, key: u64) -> bool {
    &&& entries.contains_key(key)
    &&& !user_entry_ok(entries, key, next)
    &&& forall|id: u64| #[trigger]
        entries.contains_key(id) && id < key ==> user_entry_ok(entries, id, next)
}

/// Whether `key` is the least key whose record is no transaction record in
/// order.
pub open spec fn first_transaction_out_of_order(
    entries: Map<u64, Seq<u8>>,
    users: Map<u64, Seq<u8>>,
    next: u64,
    key: u64,
) -> bool {
    &&& entries.contains_key(key)
    &&& !transaction_entry_ok(entries, users, key, next)
    &&& forall|id: u64| #[trigger]
        entries.contains_key(id) && id < key ==> transaction_entry_ok(entries, users, id, next)
}

} // verus!
