use stable_ledger::codec::{decode_transaction, decode_user, encode_transaction, encode_user};
use stable_ledger::ledger::{first_too_long, Ledger, StorageError};
use stable_ledger::model::{DepositPayload, Transaction, TransactionPayload, User, UserPayload};

fn payload(first: &str, last: &str, email: &str, phone: &str) -> UserPayload {
    UserPayload {
        first_name: first.to_string(),
        last_name: last.to_string(),
        email: email.to_string(),
        phone_number: phone.to_string(),
    }
}

fn sample_user() -> User {
    User {
        id: 3,
        first_name: "Zoë".to_string(),
        last_name: "Q".to_string(),
        username: "zoëq".to_string(),
        email: "z@q.io".to_string(),
        phone_number: "+123".to_string(),
        created_at: 0x0102,
        balance: 1,
        points: 2,
    }
}

#[test]
fn a_transaction_record_is_five_numbers() {
    let transaction =
        Transaction { id: 1, from_user_id: 2, to_user_id: 0x0304, amount: u64::MAX, created_at: 0 };
    let bytes = encode_transaction(&transaction);
    let mut expected = vec![1, 0, 0, 0, 0, 0, 0, 0];
    expected.extend([2, 0, 0, 0, 0, 0, 0, 0]);
    expected.extend([4, 3, 0, 0, 0, 0, 0, 0]);
    expected.extend([255; 8]);
    expected.extend([0; 8]);
    assert_eq!(bytes, expected);
    assert_eq!(decode_transaction(&bytes), Some(transaction));
}

#[test]
fn a_user_record_is_its_fields_in_order() {
    let bytes = encode_user(&sample_user());
    let mut expected = vec![3, 0, 0, 0, 0, 0, 0, 0];
    expected.extend([4, 0, 0, 0, 0, 0, 0, 0]);
    expected.extend("Zoë".as_bytes());
    expected.extend([1, 0, 0, 0, 0, 0, 0, 0, b'Q']);
    expected.extend([5, 0, 0, 0, 0, 0, 0, 0]);
    expected.extend("zoëq".as_bytes());
    expected.extend([6, 0, 0, 0, 0, 0, 0, 0]);
    expected.extend(b"z@q.io");
    expected.extend([4, 0, 0, 0, 0, 0, 0, 0]);
    expected.extend(b"+123");
    expected.extend([2, 1, 0, 0, 0, 0, 0, 0]);
    expected.extend([1, 0, 0, 0, 0, 0, 0, 0]);
    expected.extend([2, 0, 0, 0, 0, 0, 0, 0]);
    assert_eq!(bytes, expected);
    assert_eq!(bytes.len(), 72 + 4 + 1 + 5 + 6 + 4);
    assert_eq!(decode_user(&bytes), Some(sample_user()));
}

#[test]
fn bytes_that_are_no_record_are_not_read() {
    let user = encode_user(&sample_user());
    assert_eq!(decode_user(&Vec::new()), None);
    assert_eq!(decode_user(&user[..user.len() - 1].to_vec()), None);
    let mut longer = user.clone();
    longer.push(0);
    assert_eq!(decode_user(&longer), None);
    let mut no_text = user.clone();
    no_text[16] = 0xff;
    assert_eq!(decode_user(&no_text), None);
    let mut too_long = user.clone();
    too_long[8] = 200;
    assert_eq!(decode_user(&too_long), None);
    let mut huge = user.clone();
    huge[15] = 0xff;
    assert_eq!(decode_user(&huge), None);

    let transaction = encode_transaction(&Transaction::default());
    assert_eq!(transaction.len(), 40);
    assert_eq!(decode_transaction(&transaction[..39].to_vec()), None);
    assert_eq!(decode_transaction(&vec![0; 41]), None);
    assert_eq!(decode_transaction(&Vec::new()), None);
    assert_eq!(decode_transaction(&user), None);
}

type Records = Vec<(u64, Vec<u8>)>;

fn users_of(ledger: &Ledger) -> Records {
    ledger.all_users().iter().map(|user| (user.id, encode_user(user))).collect()
}

fn log_of(ledger: &Ledger) -> Records {
    ledger.all_transactions().iter().map(|one| (one.id, encode_transaction(one))).collect()
}

fn stored(users: Vec<User>) -> Records {
    users.iter().map(|user| (user.id, encode_user(user))).collect()
}

fn logged(log: Vec<Transaction>) -> Records {
    log.iter().map(|one| (one.id, encode_transaction(one))).collect()
}

fn error_of(opened: Result<Ledger, StorageError>) -> StorageError {
    match opened {
        Ok(_) => panic!("rebuilt"),
        Err(error) => error,
    }
}

fn user_with(id: u64, email: &str) -> User {
    User { id, email: email.to_string(), ..sample_user() }
}

fn transfer(id: u64, from: u64, to: u64, amount: u64) -> Transaction {
    Transaction { id, from_user_id: from, to_user_id: to, amount, created_at: 1 }
}

#[test]
fn a_ledger_is_rebuilt_from_its_records() {
    let mut ledger = Ledger::new().unwrap();
    let alice = ledger.create_user(payload("Ali", "Ce", "alice@x.com", "+4915112345678"), 5).unwrap();
    let bob = ledger.create_user(payload("B", "Ob", "bob@x.com", "+4915187654321"), 6).unwrap();
    ledger.deposit_funds(DepositPayload { user_id: alice.id, amount: 100 }).unwrap();
    let sent = ledger
        .send_transaction(
            TransactionPayload { from_user_id: alice.id, to_user_id: bob.id, amount: 30 },
            7,
        )
        .unwrap();
    let users = ledger.all_users();
    let (next, people, log) = (ledger.peek_next_id(), users_of(&ledger), log_of(&ledger));
    drop(ledger);

    let mut rebuilt = Ledger::rebuild(next, people, log).unwrap();
    assert_eq!(rebuilt.all_users(), users);
    assert_eq!(rebuilt.get_user_balance(alice.id), Ok(70));
    assert_eq!(rebuilt.get_user_balance(bob.id), Ok(30));
    assert_eq!(rebuilt.get_user_points(alice.id), Ok(3));
    assert_eq!(rebuilt.all_transactions(), vec![sent]);
    assert_eq!(rebuilt.peek_next_id(), 3);
    let carol = rebuilt.create_user(payload("Ca", "Rol", "carol@x.com", "+49151000000"), 8).unwrap();
    assert_eq!(carol.id, 3);
}

#[test]
fn nothing_is_rebuilt_as_an_empty_ledger() {
    let ledger = Ledger::rebuild(0, Vec::new(), Vec::new()).unwrap();
    assert!(ledger.all_users().is_empty());
    assert!(ledger.all_transactions().is_empty());
    assert_eq!(ledger.peek_next_id(), 0);
    let later = Ledger::rebuild(17, Vec::new(), Vec::new()).unwrap();
    assert_eq!(later.peek_next_id(), 17);
}

#[test]
fn two_ledgers_are_kept_apart() {
    let mut first = Ledger::new().unwrap();
    let mut second = Ledger::new().unwrap();
    first.create_user(payload("Ali", "Ce", "alice@x.com", "+4915112345678"), 5).unwrap();
    assert!(second.all_users().is_empty());
    second.create_user(payload("B", "Ob", "bob@x.com", "+4915187654321"), 6).unwrap();
    assert_eq!(first.all_users()[0].email, "alice@x.com");
    assert_eq!(second.all_users()[0].email, "bob@x.com");
}

#[test]
fn records_in_any_order_are_rebuilt_by_their_keys() {
    let users = vec![user_with(6, "g@h.ij"), user_with(1, "a@b.cd"), user_with(4, "e@f.gh")];
    let log = vec![transfer(8, 1, 6, 5), transfer(7, 4, 4, 2)];
    let ledger = Ledger::rebuild(9, stored(users), logged(log)).unwrap();
    let ids: Vec<u64> = ledger.all_users().iter().map(|user| user.id).collect();
    assert_eq!(ids, vec![1, 4, 6]);
    assert_eq!(ledger.all_transactions(), vec![transfer(7, 4, 4, 2), transfer(8, 1, 6, 5)]);
}

#[test]
fn a_later_record_counts_where_a_key_comes_twice() {
    let mut richer = user_with(1, "a@b.cd");
    richer.balance = 77;
    let users = vec![user_with(1, "a@b.cd"), user_with(4, "e@f.gh"), richer];
    let ledger = Ledger::rebuild(9, stored(users), Vec::new()).unwrap();
    assert_eq!(ledger.all_users().len(), 2);
    assert_eq!(ledger.get_user_balance(1), Ok(77));
    let broken = vec![(1, encode_user(&user_with(1, "a@b.cd"))), (1, vec![1, 2, 3])];
    assert_eq!(error_of(Ledger::rebuild(9, broken, Vec::new())), StorageError::UserRecord(1));
}

#[test]
fn a_record_that_is_too_long_is_refused_first() {
    let long = vec![0u8; 1025];
    let fits = vec![0u8; 1024];
    assert_eq!(first_too_long(&vec![(3, fits.clone()), (9, long.clone()), (1, long.clone())]), Some(9));
    assert_eq!(first_too_long(&vec![(3, fits.clone()), (4, Vec::new())]), None);
    assert_eq!(first_too_long(&Vec::new()), None);
    let users = vec![(7, vec![1, 2, 3]), (9, long.clone()), (8, long.clone())];
    let log = vec![(2, long.clone())];
    assert_eq!(error_of(Ledger::rebuild(9, users, log.clone())), StorageError::UserRecord(9));
    assert_eq!(
        error_of(Ledger::rebuild(9, vec![(7, vec![1, 2, 3])], log)),
        StorageError::TransactionRecord(2)
    );
}

#[test]
fn a_record_that_cannot_be_read_is_not_rebuilt() {
    let users = stored(vec![sample_user()]);
    let log = logged(vec![transfer(4, 3, 3, 9)]);
    assert_eq!(
        error_of(Ledger::rebuild(5, vec![(3, vec![1, 2, 3])], log.clone())),
        StorageError::UserRecord(3)
    );
    assert_eq!(
        error_of(Ledger::rebuild(5, users.clone(), vec![(4, vec![0; 39])])),
        StorageError::TransactionRecord(4)
    );
    assert!(Ledger::rebuild(5, users, log).is_ok());
}

#[test]
fn a_record_under_another_identifier_is_not_rebuilt() {
    let user = encode_user(&sample_user());
    let transaction = encode_transaction(&transfer(4, 3, 3, 9));
    assert_eq!(
        error_of(Ledger::rebuild(5, vec![(2, user.clone())], vec![(4, transaction.clone())])),
        StorageError::UserRecord(2)
    );
    assert_eq!(
        error_of(Ledger::rebuild(5, vec![(3, user)], vec![(1, transaction)])),
        StorageError::TransactionRecord(1)
    );
}

#[test]
fn an_identifier_that_was_not_issued_is_not_rebuilt() {
    let users = stored(vec![sample_user()]);
    let log = logged(vec![transfer(4, 3, 3, 9)]);
    assert_eq!(
        error_of(Ledger::rebuild(3, users.clone(), log.clone())),
        StorageError::UserRecord(3)
    );
    assert_eq!(error_of(Ledger::rebuild(4, users, log)), StorageError::TransactionRecord(4));
}

#[test]
fn the_users_are_read_before_the_log() {
    assert_eq!(
        error_of(Ledger::rebuild(5, vec![(3, vec![1, 2, 3])], vec![(4, vec![0; 39])])),
        StorageError::UserRecord(3)
    );
}

#[test]
fn the_least_key_that_fails_is_named() {
    let users = vec![(7, vec![7u8]), (3, encode_user(&sample_user())), (5, vec![5u8])];
    assert_eq!(error_of(Ledger::rebuild(9, users, Vec::new())), StorageError::UserRecord(5));
}

#[test]
fn two_users_with_one_email_are_not_rebuilt() {
    let users = vec![user_with(1, "a@b.cd"), user_with(4, "e@f.gh"), user_with(6, "a@b.cd")];
    assert_eq!(error_of(Ledger::rebuild(9, stored(users), Vec::new())), StorageError::UserRecord(6));
    let users = vec![user_with(6, "a@b.cd"), user_with(4, "a@b.cd"), user_with(1, "a@b.cd")];
    assert_eq!(error_of(Ledger::rebuild(9, stored(users), Vec::new())), StorageError::UserRecord(4));
    let users = vec![user_with(1, "a@b.cd"), user_with(4, "A@b.cd"), user_with(6, "a@b.c")];
    assert_eq!(Ledger::rebuild(9, stored(users), Vec::new()).unwrap().all_users().len(), 3);
}

#[test]
fn a_transfer_of_nothing_is_not_rebuilt() {
    let users = vec![user_with(1, "a@b.cd"), user_with(2, "e@f.gh")];
    let log = vec![transfer(3, 1, 2, 5), transfer(4, 1, 2, 0), transfer(5, 2, 1, 0)];
    assert_eq!(
        error_of(Ledger::rebuild(9, stored(users), logged(log))),
        StorageError::TransactionRecord(4)
    );
}

#[test]
fn a_transfer_between_unknown_users_is_not_rebuilt() {
    let users = vec![user_with(1, "a@b.cd"), user_with(2, "e@f.gh")];
    let log = vec![transfer(3, 1, 2, 5), transfer(4, 1, 7, 5)];
    assert_eq!(
        error_of(Ledger::rebuild(9, stored(users.clone()), logged(log))),
        StorageError::TransactionRecord(4)
    );
    let log = vec![transfer(3, 8, 2, 5), transfer(4, 1, 2, 5)];
    assert_eq!(
        error_of(Ledger::rebuild(9, stored(users.clone()), logged(log))),
        StorageError::TransactionRecord(3)
    );
    let log = vec![transfer(3, 1, 1, 5), transfer(4, 2, 1, 5)];
    let ledger = Ledger::rebuild(9, stored(users), logged(log.clone())).unwrap();
    assert_eq!(ledger.all_transactions(), log);
}
