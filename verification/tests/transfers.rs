use stable_ledger::codec::encode_user;
use stable_ledger::ledger::Ledger;
use stable_ledger::message::Message;
use stable_ledger::model::{
    DepositPayload, PointsPayload, Transaction, TransactionPayload, UserPayload,
};

fn payload(first: &str, last: &str, email: &str, phone: &str) -> UserPayload {
    UserPayload {
        first_name: first.to_string(),
        last_name: last.to_string(),
        email: email.to_string(),
        phone_number: phone.to_string(),
    }
}

/// A ledger with alice (0) and bob (1), alice holding `funds`.
fn alice_and_bob(funds: u64) -> Ledger {
    let mut ledger = Ledger::new().unwrap();
    ledger.create_user(payload("Ali", "Ce", "alice@x.com", "+4915112345678"), 5).unwrap();
    ledger.create_user(payload("B", "Ob", "bob@x.com", "+4915187654321"), 6).unwrap();
    if funds > 0 {
        ledger.deposit_funds(DepositPayload { user_id: 0, amount: funds }).unwrap();
    }
    ledger
}

fn send(from: u64, to: u64, amount: u64) -> TransactionPayload {
    TransactionPayload { from_user_id: from, to_user_id: to, amount }
}

#[test]
fn alice_sends_thirty_to_bob() {
    let mut ledger = Ledger::new().unwrap();
    let alice = ledger.create_user(payload("Ali", "Ce", "alice@x.com", "+4915112345678"), 5).unwrap();
    let bob = ledger.create_user(payload("B", "Ob", "bob@x.com", "+4915187654321"), 6).unwrap();
    assert_eq!(alice.username, "alice");
    assert_eq!(bob.username, "bob");
    assert_eq!(alice.balance, 0);
    assert_eq!(bob.balance, 0);
    ledger.deposit_funds(DepositPayload { user_id: alice.id, amount: 100 }).unwrap();
    let points_before = ledger.get_user_points(alice.id).unwrap();
    let sent = ledger.send_transaction(send(alice.id, bob.id, 30), 7).unwrap();
    assert_eq!(sent.amount, 30);
    assert_eq!(ledger.get_user_balance(alice.id), Ok(70));
    assert_eq!(ledger.get_user_balance(bob.id), Ok(30));
    assert_eq!(ledger.get_user_points(alice.id), Ok(points_before + 3));
    let log = ledger.all_transactions();
    assert_eq!(log.len(), 1);
    assert_eq!(log[0].amount, 30);
}

#[test]
fn a_transfer_moves_the_amount() {
    let mut ledger = alice_and_bob(1000);
    ledger.deposit_funds(DepositPayload { user_id: 1, amount: 5 }).unwrap();
    let sent = ledger.send_transaction(send(0, 1, 250), 77).unwrap();
    assert_eq!(
        sent,
        Transaction { id: 2, from_user_id: 0, to_user_id: 1, amount: 250, created_at: 77 }
    );
    assert_eq!(ledger.get_user_balance(0), Ok(750));
    assert_eq!(ledger.get_user_balance(1), Ok(255));
    assert_eq!(ledger.get_user_points(0), Ok(25));
    assert_eq!(ledger.get_user_points(1), Ok(0));
    assert_eq!(ledger.peek_next_id(), 3);
}

#[test]
fn a_transfer_of_the_whole_balance_is_granted() {
    let mut ledger = alice_and_bob(40);
    assert!(ledger.send_transaction(send(0, 1, 40), 1).is_ok());
    assert_eq!(ledger.get_user_balance(0), Ok(0));
    assert_eq!(ledger.get_user_balance(1), Ok(40));
}

#[test]
fn a_transfer_of_nothing_is_refused() {
    let mut ledger = alice_and_bob(100);
    assert_eq!(
        ledger.send_transaction(send(0, 1, 0), 1),
        Err(Message::InvalidPayload("Amount must be greater than 0.".to_string()))
    );
    assert_eq!(
        ledger.send_transaction(send(8, 9, 0), 1),
        Err(Message::InvalidPayload("Amount must be greater than 0.".to_string()))
    );
    assert_eq!(ledger.get_user_balance(0), Ok(100));
    assert_eq!(ledger.get_user_balance(1), Ok(0));
    assert!(ledger.all_transactions().is_empty());
    assert_eq!(ledger.peek_next_id(), 2);
}

#[test]
fn a_transfer_beyond_the_balance_is_refused() {
    let mut ledger = alice_and_bob(100);
    assert_eq!(
        ledger.send_transaction(send(0, 1, 101), 1),
        Err(Message::Error("Insufficient balance".to_string()))
    );
    assert_eq!(ledger.get_user_balance(0), Ok(100));
    assert_eq!(ledger.get_user_balance(1), Ok(0));
    assert_eq!(ledger.get_user_points(0), Ok(0));
    assert!(ledger.all_transactions().is_empty());
    assert_eq!(ledger.peek_next_id(), 2);
}

#[test]
fn an_unknown_sender_or_recipient_is_not_found() {
    let mut ledger = alice_and_bob(100);
    assert_eq!(
        ledger.send_transaction(send(5, 1, 10), 1),
        Err(Message::NotFound("Sender not found".to_string()))
    );
    assert_eq!(
        ledger.send_transaction(send(5, 6, 10), 1),
        Err(Message::NotFound("Sender not found".to_string()))
    );
    assert_eq!(
        ledger.send_transaction(send(0, 6, 10), 1),
        Err(Message::NotFound("Recipient not found".to_string()))
    );
    assert_eq!(
        ledger.send_transaction(send(0, 6, 1000), 1),
        Err(Message::NotFound("Recipient not found".to_string()))
    );
    assert_eq!(ledger.get_user_balance(0), Ok(100));
}

#[test]
fn points_are_a_tenth_of_the_amount_rounded_down() {
    let mut ledger = alice_and_bob(1000);
    ledger.send_transaction(send(0, 1, 9), 1).unwrap();
    assert_eq!(ledger.get_user_points(0), Ok(0));
    ledger.send_transaction(send(0, 1, 10), 1).unwrap();
    assert_eq!(ledger.get_user_points(0), Ok(1));
    ledger.send_transaction(send(0, 1, 95), 1).unwrap();
    assert_eq!(ledger.get_user_points(0), Ok(10));
    ledger.send_transaction(send(0, 1, 119), 1).unwrap();
    assert_eq!(ledger.get_user_points(0), Ok(21));
    assert_eq!(ledger.get_user_points(1), Ok(0));
}

#[test]
fn a_transfer_to_oneself_keeps_the_balance() {
    let mut ledger = alice_and_bob(100);
    let sent = ledger.send_transaction(send(0, 0, 60), 3).unwrap();
    assert_eq!(sent, Transaction { id: 2, from_user_id: 0, to_user_id: 0, amount: 60, created_at: 3 });
    assert_eq!(ledger.get_user_balance(0), Ok(100));
    assert_eq!(ledger.get_user_points(0), Ok(6));
    assert_eq!(ledger.get_transaction_history(0), Ok(vec![sent]));
}

#[test]
fn the_balances_together_stay_what_they_were() {
    let mut ledger = alice_and_bob(500);
    ledger.deposit_funds(DepositPayload { user_id: 1, amount: 300 }).unwrap();
    for (from, to, amount) in [(0, 1, 20), (1, 0, 320), (0, 0, 5), (1, 0, 1), (0, 1, 799)] {
        let granted = ledger.send_transaction(send(from, to, amount), 1).is_ok();
        assert_eq!(granted, (from, to, amount) != (1, 0, 1));
        let total: u64 = ledger.all_users().iter().map(|user| user.balance).sum();
        assert_eq!(total, 800);
    }
}

#[test]
fn a_deposit_adds_to_the_balance() {
    let mut ledger = alice_and_bob(0);
    assert_eq!(
        ledger.deposit_funds(DepositPayload { user_id: 1, amount: 100 }),
        Ok(Message::Success("Deposited 100 units of currency to user 1".to_string()))
    );
    assert_eq!(
        ledger.deposit_funds(DepositPayload { user_id: 1, amount: 1 }),
        Ok(Message::Success("Deposited 1 units of currency to user 1".to_string()))
    );
    assert_eq!(ledger.get_user_balance(1), Ok(101));
    assert_eq!(ledger.get_user_balance(0), Ok(0));
    assert_eq!(ledger.get_user_points(1), Ok(0));
}

#[test]
fn a_deposit_of_nothing_or_to_nobody_is_refused() {
    let mut ledger = alice_and_bob(0);
    assert_eq!(
        ledger.deposit_funds(DepositPayload { user_id: 0, amount: 0 }),
        Err(Message::InvalidPayload("Amount must be greater than 0.".to_string()))
    );
    assert_eq!(
        ledger.deposit_funds(DepositPayload { user_id: 9, amount: 0 }),
        Err(Message::InvalidPayload("Amount must be greater than 0.".to_string()))
    );
    assert_eq!(
        ledger.deposit_funds(DepositPayload { user_id: 9, amount: 10 }),
        Err(Message::NotFound("User not found".to_string()))
    );
    assert_eq!(ledger.get_user_balance(0), Ok(0));
}

#[test]
fn a_deposit_beyond_the_greatest_number_is_refused() {
    let mut ledger = alice_and_bob(0);
    ledger.deposit_funds(DepositPayload { user_id: 0, amount: u64::MAX - 5 }).unwrap();
    let alice = ledger.find_user(0).unwrap();
    assert_eq!(
        ledger.deposit_funds(DepositPayload { user_id: 0, amount: 6 }),
        Err(Message::Error("Balance overflow".to_string()))
    );
    assert_eq!(
        ledger.deposit_funds(DepositPayload { user_id: 0, amount: u64::MAX }),
        Err(Message::Error("Balance overflow".to_string()))
    );
    assert_eq!(ledger.find_user(0), Some(alice));
    assert_eq!(
        ledger.deposit_funds(DepositPayload { user_id: 0, amount: 5 }),
        Ok(Message::Success("Deposited 5 units of currency to user 0".to_string()))
    );
    assert_eq!(ledger.get_user_balance(0), Ok(u64::MAX));
    assert_eq!(
        ledger.deposit_funds(DepositPayload { user_id: 0, amount: 0 }),
        Err(Message::InvalidPayload("Amount must be greater than 0.".to_string()))
    );
    assert_eq!(
        ledger.deposit_funds(DepositPayload { user_id: 9, amount: u64::MAX }),
        Err(Message::NotFound("User not found".to_string()))
    );
    assert_eq!(
        ledger.deposit_funds(DepositPayload { user_id: 1, amount: u64::MAX }),
        Ok(Message::Success(
            "Deposited 18446744073709551615 units of currency to user 1".to_string()
        ))
    );
}

#[test]
fn a_transfer_beyond_the_greatest_balance_is_refused() {
    let mut ledger = alice_and_bob(u64::MAX);
    ledger.deposit_funds(DepositPayload { user_id: 1, amount: 10 }).unwrap();
    let overflow = Err(Message::Error("Balance overflow".to_string()));
    assert_eq!(ledger.send_transaction(send(0, 1, u64::MAX - 9), 1), overflow);
    assert_eq!(ledger.send_transaction(send(0, 1, u64::MAX), 1), overflow);
    assert_eq!(
        ledger.send_transaction(send(1, 0, 11), 1),
        Err(Message::Error("Insufficient balance".to_string()))
    );
    assert_eq!(ledger.send_transaction(send(1, 0, 10), 1), overflow);
    assert_eq!(ledger.get_user_balance(0), Ok(u64::MAX));
    assert_eq!(ledger.get_user_balance(1), Ok(10));
    assert_eq!(ledger.get_user_points(0), Ok(0));
    assert!(ledger.all_transactions().is_empty());
    assert_eq!(ledger.peek_next_id(), 2);
    let own = ledger.send_transaction(send(0, 0, u64::MAX), 1).unwrap();
    assert_eq!(own.id, 2);
    assert_eq!(ledger.get_user_balance(0), Ok(u64::MAX));
    ledger.redeem_points(PointsPayload { user_id: 0, points: u64::MAX / 10 }).unwrap();
    ledger.send_transaction(send(0, 1, u64::MAX - 10), 1).unwrap();
    assert_eq!(ledger.get_user_balance(1), Ok(u64::MAX));
    assert_eq!(ledger.get_user_balance(0), Ok(10));
    assert_eq!(ledger.get_user_points(0), Ok((u64::MAX - 10) / 10));
}

#[test]
fn a_transfer_beyond_the_greatest_points_is_refused() {
    let mut ledger = alice_and_bob(1000);
    let mut alice = ledger.find_user(0).unwrap();
    alice.points = u64::MAX - 2;
    let users = vec![(0, encode_user(&alice)), (1, encode_user(&ledger.find_user(1).unwrap()))];
    let mut ledger = Ledger::rebuild(2, users, Vec::new()).unwrap();
    assert_eq!(
        ledger.send_transaction(send(0, 1, 30), 1),
        Err(Message::Error("Points overflow".to_string()))
    );
    assert_eq!(
        ledger.send_transaction(send(0, 0, 30), 1),
        Err(Message::Error("Points overflow".to_string()))
    );
    assert_eq!(ledger.get_user_balance(0), Ok(1000));
    assert_eq!(ledger.get_user_points(0), Ok(u64::MAX - 2));
    assert!(ledger.send_transaction(send(0, 1, 29), 1).is_ok());
    assert_eq!(ledger.get_user_points(0), Ok(u64::MAX));
    assert!(ledger.send_transaction(send(0, 1, 9), 1).is_ok());
    assert_eq!(
        ledger.send_transaction(send(0, 1, 10), 1),
        Err(Message::Error("Points overflow".to_string()))
    );
}

#[test]
fn no_transfer_is_made_when_no_identifier_is_left() {
    let ledger = alice_and_bob(1000);
    let users = vec![
        (0, encode_user(&ledger.find_user(0).unwrap())),
        (1, encode_user(&ledger.find_user(1).unwrap())),
    ];
    let mut ledger = Ledger::rebuild(u64::MAX, users, Vec::new()).unwrap();
    assert_eq!(
        ledger.send_transaction(send(0, 1, 30), 1),
        Err(Message::Error("No identifier is left".to_string()))
    );
    assert_eq!(
        ledger.send_transaction(send(0, 1, 3000), 1),
        Err(Message::Error("Insufficient balance".to_string()))
    );
    assert_eq!(ledger.get_user_balance(0), Ok(1000));
    assert_eq!(ledger.get_user_balance(1), Ok(0));
    assert!(ledger.all_transactions().is_empty());
}

#[test]
fn points_are_redeemed() {
    let mut ledger = alice_and_bob(1000);
    ledger.send_transaction(send(0, 1, 500), 1).unwrap();
    assert_eq!(
        ledger.redeem_points(PointsPayload { user_id: 0, points: 20 }),
        Ok(Message::Success("Redeemed 20 points from user 0".to_string()))
    );
    assert_eq!(ledger.get_user_points(0), Ok(30));
    assert_eq!(ledger.get_user_balance(0), Ok(500));
    assert_eq!(
        ledger.redeem_points(PointsPayload { user_id: 0, points: 30 }),
        Ok(Message::Success("Redeemed 30 points from user 0".to_string()))
    );
    assert_eq!(ledger.get_user_points(0), Ok(0));
    assert_eq!(
        ledger.redeem_points(PointsPayload { user_id: 0, points: 0 }),
        Ok(Message::Success("Redeemed 0 points from user 0".to_string()))
    );
}

#[test]
fn redeeming_more_points_than_there_are_is_refused() {
    let mut ledger = alice_and_bob(1000);
    ledger.send_transaction(send(0, 1, 500), 1).unwrap();
    let alice = ledger.find_user(0).unwrap();
    assert_eq!(
        ledger.redeem_points(PointsPayload { user_id: 0, points: 51 }),
        Err(Message::Error("Insufficient points".to_string()))
    );
    assert_eq!(ledger.get_user_points(0), Ok(50));
    assert_eq!(ledger.find_user(0), Some(alice));
    assert_eq!(
        ledger.redeem_points(PointsPayload { user_id: 1, points: 1 }),
        Err(Message::Error("Insufficient points".to_string()))
    );
    assert_eq!(
        ledger.redeem_points(PointsPayload { user_id: 9, points: 0 }),
        Err(Message::NotFound("User not found".to_string()))
    );
}

#[test]
fn the_history_holds_what_a_user_sent_and_received() {
    let mut ledger = alice_and_bob(1000);
    let carol = ledger.create_user(payload("Ca", "Rol", "carol@x.com", "+49151000000"), 7).unwrap();
    assert_eq!(carol.id, 2);
    let first = ledger.send_transaction(send(0, 1, 100), 10).unwrap();
    let second = ledger.send_transaction(send(1, 2, 50), 11).unwrap();
    let third = ledger.send_transaction(send(0, 2, 10), 12).unwrap();
    let fourth = ledger.send_transaction(send(2, 2, 60), 13).unwrap();
    assert_eq!((first.id, second.id, third.id, fourth.id), (3, 4, 5, 6));
    assert_eq!(ledger.get_transaction_history(0), Ok(vec![first, third]));
    assert_eq!(ledger.get_transaction_history(1), Ok(vec![first, second]));
    assert_eq!(ledger.get_transaction_history(2), Ok(vec![second, third, fourth]));
    assert_eq!(ledger.all_transactions(), vec![first, second, third, fourth]);
}

#[test]
fn a_user_without_transfers_has_no_history() {
    let mut ledger = alice_and_bob(1000);
    let none = Err(Message::NotFound("No transactions found".to_string()));
    assert_eq!(ledger.get_transaction_history(0), none);
    assert_eq!(ledger.get_transaction_history(9), none);
    ledger.send_transaction(send(0, 0, 1), 1).unwrap();
    assert_eq!(ledger.get_transaction_history(1), none);
    assert!(ledger.send_transaction(send(0, 1, 2000), 1).is_err());
    assert_eq!(ledger.get_transaction_history(1), none);
}
