use stable_ledger::ledger::Ledger;
use stable_ledger::message::Message;
use stable_ledger::model::{DepositPayload, Transaction, TransactionPayload, UserPayload};

fn numbered(number: u64) -> UserPayload {
    UserPayload {
        first_name: format!("First{}", number),
        last_name: format!("Last{}", number),
        email: format!("user{}@x.com", number),
        phone_number: format!("+49{}", 1000 + number),
    }
}

fn ledger_with(users: u64) -> Ledger {
    let mut ledger = Ledger::new().unwrap();
    for number in 0..users {
        assert_eq!(ledger.create_user(numbered(number), number).unwrap().id, number);
    }
    ledger
}

#[test]
fn many_users_are_kept_apart() {
    let mut ledger = ledger_with(120);
    let listed = ledger.all_users();
    assert_eq!(listed.len(), 120);
    for (at, user) in listed.iter().enumerate() {
        assert_eq!(user.id, at as u64);
        assert_eq!(user.email, format!("user{}@x.com", at));
        assert_eq!(user.username, format!("first{}last{}", at, at)[..10]);
    }
    for number in [0, 57, 119] {
        assert_eq!(
            ledger.create_user(numbered(number), 1),
            Err(Message::InvalidPayload("Email already exists".to_string()))
        );
    }
    ledger.deposit_funds(DepositPayload { user_id: 57, amount: 9 }).unwrap();
    for number in 0..120 {
        assert_eq!(ledger.get_user_balance(number), Ok(if number == 57 { 9 } else { 0 }));
    }
    assert_eq!(ledger.peek_next_id(), 120);
}

#[test]
fn a_long_log_is_read_in_the_order_it_was_written() {
    let mut ledger = ledger_with(3);
    ledger.deposit_funds(DepositPayload { user_id: 0, amount: 1_000_000 }).unwrap();
    let mut sent: Vec<Transaction> = Vec::new();
    for round in 0..150u64 {
        let to = 1 + round % 2;
        let payload = TransactionPayload { from_user_id: 0, to_user_id: to, amount: round + 1 };
        sent.push(ledger.send_transaction(payload, round).unwrap());
    }
    for (at, transaction) in sent.iter().enumerate() {
        assert_eq!(transaction.id, 3 + at as u64);
        assert_eq!(transaction.created_at, at as u64);
    }
    assert_eq!(ledger.all_transactions(), sent);
    assert_eq!(ledger.get_transaction_history(0), Ok(sent.clone()));
    let to_first: Vec<Transaction> = sent.iter().filter(|one| one.to_user_id == 1).cloned().collect();
    let to_second: Vec<Transaction> = sent.iter().filter(|one| one.to_user_id == 2).cloned().collect();
    assert_eq!(to_first.len(), 75);
    assert_eq!(ledger.get_transaction_history(1), Ok(to_first));
    assert_eq!(ledger.get_transaction_history(2), Ok(to_second));
    let total: u64 = (1..=150).sum();
    assert_eq!(ledger.get_user_balance(0), Ok(1_000_000 - total));
    let points: u64 = (1..=150u64).map(|amount| amount / 10).sum();
    assert_eq!(ledger.get_user_points(0), Ok(points));
}
