//! The operations of the ledger. Each one checks its payload before it
//! changes anything, so an operation that is refused leaves the ledger as
//! it was.

use crate::codec::{lemma_user_bytes_len, lemma_user_fits_by_texts};
use crate::laws::{
    law_deposit_keeps_ledger, law_redeem_keeps_ledger, law_registration_keeps_ledger,
    law_transfer_keeps_ledger,
};
use crate::ledger::{Ledger, LedgerView};
use crate::message::{text_no_transactions, Message, MessageView};
use crate::model::{
    DepositPayload, PointsPayload, Transaction, TransactionPayload, User, UserPayload,
};
use crate::rules::{text_deposited, text_redeemed, UNITS_PER_POINT};
use crate::text::{decimal_text, is_email, is_phone_number, make_username};
use vstd::prelude::*;
use vstd::string::*;

verus! {

/// Writes the text that reports a deposit.
fn deposited_text(amount: u64, user_id: u64) -> (text: String)
    ensures
        text@ == text_deposited(amount, user_id),
{
    let mut text: String = String::from_str("Deposited ");
    text.append(decimal_text(amount).as_str());
    text.append(" units of currency to user ");
    text.append(decimal_text(user_id).as_str());
    text
}

/// Writes the text that reports a redemption.
fn redeemed_text(points: u64, user_id: u64) -> (text: String)
    ensures
        text@ == text_redeemed(points, user_id),
{
    let mut text: String = String::from_str("Redeemed ");
    text.append(decimal_text(points).as_str());
    text.append(" points from user ");
    text.append(decimal_text(user_id).as_str());
    text
}

impl Ledger {
    /// Takes `amount` from the balance of a user, which holds at least
    /// that much.
    fn debit(&mut self, user_id: u64, amount: u64)
        requires
            old(self).stored(),
            old(self)@.users.contains_key(user_id),
            old(self)@.users[user_id].balance >= amount,
        ensures
            final(self).stored(),
            final(self)@ == (LedgerView {
                users: old(self)@.users.insert(
                    user_id,
                    old(self)@.users[user_id].with_balance(
                        (old(self)@.users[user_id].balance - amount) as u64,
                    ),
                ),
                ..old(self)@
            }),
    {
        let mut user: User = self.find_user(user_id).unwrap();
        let ghost before = user@;
        user.balance = user.balance - amount;
        proof {
            lemma_user_fits_by_texts(before, user@);
        }
        self.put_user(&user);
    }

    /// Adds `amount` to the balance of a user.
    fn credit(&mut self, user_id: u64, amount: u64)
        requires
            old(self).stored(),
            old(self)@.users.contains_key(user_id),
            old(self)@.users[user_id].balance + amount <= u64::MAX,
        ensures
            final(self).stored(),
            final(self)@ == (LedgerView {
                users: old(self)@.users.insert(
                    user_id,
                    old(self)@.users[user_id].with_balance(
                        (old(self)@.users[user_id].balance + amount) as u64,
                    ),
                ),
                ..old(self)@
            }),
    {
        let mut user: User = self.find_user(user_id).unwrap();
        let ghost before = user@;
        user.balance = user.balance + amount;
        proof {
            lemma_user_fits_by_texts(before, user@);
        }
        self.put_user(&user);
    }

    /// Appends a transfer to the log under a new identifier and hands back
    /// its record. The log checks nothing: the amount and the two users
    /// have been checked by then.
    fn append(&mut self, from_user_id: u64, to_user_id: u64, amount: u64, now: u64) -> (transaction:
        Transaction)
        requires
            old(self).stored(),
            old(self)@.next_id < u64::MAX,
        ensures
            final(self).stored(),
            transaction == (Transaction {
                id: old(self)@.next_id,
                from_user_id,
                to_user_id,
                amount,
                created_at: now,
            }),
            final(self)@ == (LedgerView {
                next_id: (old(self)@.next_id + 1) as u64,
                transactions: old(self)@.transactions.insert(old(self)@.next_id, transaction),
                ..old(self)@
            }),
    {
        proof {
            self.lemma_stored_consistent();
        }
        let id: u64 = self.next_id();
        let transaction = Transaction { id, from_user_id, to_user_id, amount, created_at: now };
        self.put_transaction(&transaction);
        transaction
    }

    /// Adds `points` to the points of a user, in a read and a write of
    /// their own.
    fn award(&mut self, user_id: u64, points: u64)
        requires
            old(self).stored(),
            old(self)@.users.contains_key(user_id),
            old(self)@.users[user_id].points + points <= u64::MAX,
        ensures
            final(self).stored(),
            final(self)@ == (LedgerView {
                users: old(self)@.users.insert(
                    user_id,
                    old(self)@.users[user_id].with_points(
                        (old(self)@.users[user_id].points + points) as u64,
                    ),
                ),
                ..old(self)@
            }),
    {
        let ghost start = self@;
        match self.take_user(user_id) {
            Some(mut user) => {
                let ghost before = user@;
                user.points = user.points + points;
                proof {
                    lemma_user_fits_by_texts(before, user@);
                }
                self.put_user(&user);
                assert(self@.users =~= start.users.insert(
                    user_id,
                    start.users[user_id].with_points((start.users[user_id].points + points) as u64),
                ));
            },
            None => {},
        }
    }

    /// Moves `amount` from one user to another, records the transfer in the
    /// log and awards the sender one point for every ten units. A transfer
    /// that is refused changes nothing.
    pub fn send_transaction(&mut self, payload: TransactionPayload, now: u64) -> (result: Result<
        Transaction,
        Message,
    >)
        requires
            old(self).wf(),
        ensures
            final(self).wf(),
            final(self)@ == old(self)@.after_transfer(payload, now),
            match result {
                Ok(transaction) => old(self)@.transfer_refusal(payload) is None && transaction
                    == old(self)@.transfer_record(payload, now),
                Err(message) => old(self)@.transfer_refusal(payload) == Some(message@),
            },
    {
        if payload.amount == 0 {
            return Err(Message::InvalidPayload(String::from_str("Amount must be greater than 0.")));
        }
        let sender: User = match self.find_user(payload.from_user_id) {
            Some(user) => user,
            None => {
                return Err(Message::NotFound(String::from_str("Sender not found")));
            },
        };
        let recipient: User = match self.find_user(payload.to_user_id) {
            Some(user) => user,
            None => {
                return Err(Message::NotFound(String::from_str("Recipient not found")));
            },
        };
        if sender.balance < payload.amount {
            return Err(Message::Error(String::from_str("Insufficient balance")));
        }
        if payload.from_user_id != payload.to_user_id && recipient.balance > u64::MAX
            - payload.amount {
            return Err(Message::Error(String::from_str("Balance overflow")));
        }
        if sender.points > u64::MAX - payload.amount / UNITS_PER_POINT {
            return Err(Message::Error(String::from_str("Points overflow")));
        }
        if self.peek_next_id() == u64::MAX {
            return Err(Message::Error(String::from_str("No identifier is left")));
        }
        self.debit(payload.from_user_id, payload.amount);
        assert(self@.users == old(self)@.debited(payload));
        self.credit(payload.to_user_id, payload.amount);
        assert(self@.users == old(self)@.credited(payload));
        let transaction: Transaction = self.append(
            payload.from_user_id,
            payload.to_user_id,
            payload.amount,
            now,
        );
        self.award(payload.from_user_id, payload.amount / UNITS_PER_POINT);
        assert(self@.users == old(self)@.rewarded(payload));
        proof {
            old(self).lemma_stored_consistent();
            law_transfer_keeps_ledger(old(self)@, payload, now);
        }
        Ok(transaction)
    }

    /// Whether a user has this email address. Every user is looked at.
    pub fn has_email(&self, email: &String) -> (taken: bool)
        requires
            self.wf(),
        ensures
            taken == self@.email_taken(email@),
    {
        let users = self.all_users();
        let mut at: usize = 0;
        while at < users.len()
            invariant
                at <= users@.len(),
                forall|i: int|
                    0 <= i < users@.len() ==> self@.users.contains_key((#[trigger] users@[i]).id)
                        && self@.users[users@[i].id] == users@[i]@,
                forall|i: int| 0 <= i < at ==> (#[trigger] users@[i])@.email != email@,
            decreases users@.len() - at,
        {
            if users[at].email == *email {
                assert(self@.users.contains_key(users@[at as int].id));
                return true;
            }
            at = at + 1;
        }
        proof {
            assert forall|id: u64| #[trigger]
                self@.users.contains_key(id) implies self@.users[id].email != email@ by {
                let i = choose|i: int| 0 <= i < users@.len() && (#[trigger] users@[i]).id == id;
                assert(users@[i]@.email != email@);
            }
        }
        false
    }

    /// Why a registration is refused, if it is. `email_ok` and `phone_ok`
    /// say whether the email address and the phone number have the form
    /// that is asked of them, and `username` is the user name to give.
    pub fn screen_registration(
        &self,
        payload: &UserPayload,
        email_ok: bool,
        phone_ok: bool,
        username: &String,
    ) -> (refusal: Option<Message>)
        requires
            self.wf(),
        ensures
            match refusal {
                Some(message) => self@.registration_refusal(
                    payload@,
                    email_ok,
                    phone_ok,
                    username@,
                ) == Some(message@),
                None => self@.registration_refusal(payload@, email_ok, phone_ok, username@)
                    is None,
            },
    {
        if payload.first_name.as_str().is_empty() || payload.last_name.as_str().is_empty()
            || payload.email.as_str().is_empty() || payload.phone_number.as_str().is_empty() {
            let text: String = String::from_str(
                "Ensure 'first_name', 'last_name', 'email', and 'phone_number' are provided.",
            );
            return Some(Message::InvalidPayload(text));
        }
        if !email_ok {
            return Some(Message::InvalidPayload(String::from_str("Invalid email address format")));
        }
        if !phone_ok {
            return Some(Message::InvalidPayload(String::from_str("Invalid phone number format")));
        }
        if self.has_email(&payload.email) {
            return Some(Message::InvalidPayload(String::from_str("Email already exists")));
        }
        if !payload.fits_with(username) {
            return Some(Message::InvalidPayload(String::from_str("Payload is too large")));
        }
        if self.peek_next_id() == u64::MAX {
            return Some(Message::Error(String::from_str("No identifier is left")));
        }
        None
    }

    /// Registers a user whose payload has been screened: `email_ok` and
    /// `phone_ok` say whether the email address and the phone number have
    /// the form that is asked of them, and `username` is the user name to
    /// give. The new user has the next identifier, no balance and no
    /// points. A registration that is refused changes nothing.
    pub fn register_user(
        &mut self,
        payload: UserPayload,
        email_ok: bool,
        phone_ok: bool,
        username: String,
        now: u64,
    ) -> (result: Result<User, Message>)
        requires
            old(self).wf(),
        ensures
            final(self).wf(),
            final(self)@ == old(self)@.after_registration(
                payload@,
                email_ok,
                phone_ok,
                username@,
                now,
            ),
            match result {
                Ok(user) => old(self)@.registration_refusal(
                    payload@,
                    email_ok,
                    phone_ok,
                    username@,
                ) is None && user@ == old(self)@.registered_user(payload@, username@, now),
                Err(message) => old(self)@.registration_refusal(
                    payload@,
                    email_ok,
                    phone_ok,
                    username@,
                ) == Some(message@),
            },
    {
        match self.screen_registration(&payload, email_ok, phone_ok, &username) {
            Some(message) => { return Err(message); },
            None => {},
        }
        let id: u64 = self.next_id();
        let user = User {
            id,
            first_name: payload.first_name,
            last_name: payload.last_name,
            username,
            email: payload.email,
            phone_number: payload.phone_number,
            created_at: now,
            balance: 0,
            points: 0,
        };
        proof {
            lemma_user_bytes_len(user@);
        }
        self.put_user(&user);
        proof {
            old(self).lemma_stored_consistent();
            law_registration_keeps_ledger(
                old(self)@,
                payload@,
                email_ok,
                phone_ok,
                user@.username,
                now,
            );
        }
        Ok(user)
    }

    /// Creates a user from a payload. The payload is refused where a field
    /// is empty, the email address or the phone number is malformed, a user
    /// has the email address already, the user does not fit into a record,
    /// or no identifier is left. The new user has the next identifier, a
    /// user name made from its names, no balance and no points.
    pub fn create_user(&mut self, payload: UserPayload, now: u64) -> (result: Result<User, Message>)
        requires
            old(self).wf(),
        ensures
            final(self).wf(),
            final(self)@ == old(self)@.after_create_user(payload@, now),
            match result {
                Ok(user) => old(self)@.create_user_refusal(payload@) is None && user@ == old(
                    self,
                )@.created_user(payload@, now),
                Err(message) => old(self)@.create_user_refusal(payload@) == Some(message@),
            },
    {
        let email_ok: bool = is_email(payload.email.as_str());
        let phone_ok: bool = is_phone_number(payload.phone_number.as_str());
        let username: String = make_username(
            payload.first_name.as_str(),
            payload.last_name.as_str(),
        );
        self.register_user(payload, email_ok, phone_ok, username, now)
    }

    /// Adds an amount, which is not zero, to the balance of a user. Where
    /// the balance would pass the greatest number, the record is written
    /// back as it was and the deposit is refused.
    pub fn deposit_funds(&mut self, payload: DepositPayload) -> (result: Result<Message, Message>)
        requires
            old(self).wf(),
        ensures
            final(self).wf(),
            final(self)@ == old(self)@.after_deposit(payload),
            match result {
                Ok(message) => old(self)@.deposit_refusal(payload) is None && message@
                    == MessageView::Success(text_deposited(payload.amount, payload.user_id)),
                Err(message) => old(self)@.deposit_refusal(payload) == Some(message@),
            },
    {
        if payload.amount == 0 {
            return Err(Message::InvalidPayload(String::from_str("Amount must be greater than 0.")));
        }
        match self.take_user(payload.user_id) {
            Some(mut user) => {
                if user.balance <= u64::MAX - payload.amount {
                    let ghost before = user@;
                    user.balance = user.balance + payload.amount;
                    proof {
                        lemma_user_fits_by_texts(before, user@);
                    }
                    self.put_user(&user);
                    assert(self@.users =~= old(self)@.after_deposit(payload).users);
                    proof {
                        old(self).lemma_stored_consistent();
                        law_deposit_keeps_ledger(old(self)@, payload);
                    }
                    Ok(Message::Success(deposited_text(payload.amount, payload.user_id)))
                } else {
                    self.put_user(&user);
                    assert(self@.users =~= old(self)@.users);
                    Err(Message::Error(String::from_str("Balance overflow")))
                }
            },
            None => {
                assert(self@.users =~= old(self)@.users);
                Err(Message::NotFound(String::from_str("User not found")))
            },
        }
    }

    /// Takes points from a user. Where the user has fewer, its record is
    /// written back as it was and the redemption is refused.
    pub fn redeem_points(&mut self, payload: PointsPayload) -> (result: Result<Message, Message>)
        requires
            old(self).wf(),
        ensures
            final(self).wf(),
            final(self)@ == old(self)@.after_redeem(payload),
            match result {
                Ok(message) => old(self)@.redeem_refusal(payload) is None && message@
                    == MessageView::Success(text_redeemed(payload.points, payload.user_id)),
                Err(message) => old(self)@.redeem_refusal(payload) == Some(message@),
            },
    {
        match self.take_user(payload.user_id) {
            Some(mut user) => {
                if user.points >= payload.points {
                    let ghost before = user@;
                    user.points = user.points - payload.points;
                    proof {
                        lemma_user_fits_by_texts(before, user@);
                    }
                    self.put_user(&user);
                    assert(self@.users =~= old(self)@.after_redeem(payload).users);
                    proof {
                        old(self).lemma_stored_consistent();
                        law_redeem_keeps_ledger(old(self)@, payload);
                    }
                    Ok(Message::Success(redeemed_text(payload.points, payload.user_id)))
                } else {
                    self.put_user(&user);
                    assert(self@.users =~= old(self)@.users);
                    Err(Message::Error(String::from_str("Insufficient points")))
                }
            },
            None => {
                assert(self@.users =~= old(self)@.users);
                Err(Message::NotFound(String::from_str("User not found")))
            },
        }
    }

    /// The transfers that a user sent or received, in ascending order of
    /// their identifiers; `NotFound` where there is none.
    pub fn get_transaction_history(&self, user_id: u64) -> (result: Result<
        Vec<Transaction>,
        Message,
    >)
        requires
            self.wf(),
        ensures
            match result {
                Ok(list) => self@.has_history(user_id) && self@.is_history(user_id, list@),
                Err(message) => !self@.has_history(user_id) && message@ == MessageView::NotFound(
                    text_no_transactions(),
                ),
            },
    {
        let log = self.all_transactions();
        let mut list: Vec<Transaction> = Vec::new();
        let mut at: usize = 0;
        while at < log.len()
            invariant
                at <= log@.len(),
                forall|i: int|
                    0 <= i < list@.len() ==> exists|k: int|
                        0 <= k < at && (#[trigger] log@[k]) == (#[trigger] list@[i]),
                forall|i: int| 0 <= i < list@.len() ==> (#[trigger] list@[i]).involves(user_id),
                forall|i: int, j: int|
                    0 <= i < j < list@.len() ==> (#[trigger] list@[i]).id < (
                    #[trigger] list@[j]).id,
                forall|k: int|
                    0 <= k < at && (#[trigger] log@[k]).involves(user_id) ==> exists|i: int|
                        0 <= i < list@.len() && (#[trigger] list@[i]) == log@[k],
                forall|i: int, j: int|
                    0 <= i < j < log@.len() ==> (#[trigger] log@[i]).id < (#[trigger] log@[j]).id,
            decreases log@.len() - at,
        {
            let transaction: Transaction = log[at];
            if transaction.from_user_id == user_id || transaction.to_user_id == user_id {
                let ghost before = list@;
                list.push(transaction);
                proof {
                    assert forall|i: int| 0 <= i < list@.len() implies exists|k: int|
                        0 <= k < at + 1 && (#[trigger] log@[k]) == (#[trigger] list@[i]) by {
                        if i < before.len() {
                            let k = choose|k: int|
                                0 <= k < at && (#[trigger] log@[k]) == (#[trigger] before[i]);
                            assert(log@[k] == list@[i]);
                        } else {
                            assert(log@[at as int] == list@[i]);
                        }
                    }
                    assert forall|i: int, j: int| 0 <= i < j < list@.len() implies (
                    #[trigger] list@[i]).id < (#[trigger] list@[j]).id by {
                        if j == before.len() {
                            let k = choose|k: int|
                                0 <= k < at && (#[trigger] log@[k]) == (#[trigger] before[i]);
                            assert(log@[k].id < log@[at as int].id);
                        }
                    }
                    assert forall|k: int|
                        0 <= k < at + 1 && (#[trigger] log@[k]).involves(
                            user_id,
                        ) implies exists|i: int|
                        0 <= i < list@.len() && (#[trigger] list@[i]) == log@[k] by {
                        if k < at {
                            let i = choose|i: int|
                                0 <= i < before.len() && (#[trigger] before[i]) == log@[k];
                            assert(list@[i] == log@[k]);
                        } else {
                            assert(list@[before.len() as int] == log@[k]);
                        }
                    }
                }
            }
            at = at + 1;
        }
        proof {
            assert forall|i: int| 0 <= i < list@.len() implies self@.transactions.contains_key(
                (#[trigger] list@[i]).id,
            ) && self@.transactions[list@[i].id] == list@[i] by {
                let k = choose|k: int| 0 <= k < at && (#[trigger] log@[k]) == (#[trigger] list@[i]);
                assert(self@.transactions.contains_key(log@[k].id));
            }
            assert forall|id: u64| #[trigger]
                self@.transactions.contains_key(id) && self@.transactions[id].involves(
                    user_id,
                ) implies exists|i: int|
                0 <= i < list@.len() && (#[trigger] list@[i]) == self@.transactions[id] by {
                let k = choose|k: int| 0 <= k < log@.len() && (#[trigger] log@[k]).id == id;
                assert(self@.transactions.contains_key(log@[k].id));
                assert(log@[k].involves(user_id));
            }
            if list@.len() > 0 {
                assert(self@.transactions.contains_key(list@[0].id));
            }
        }
        if list.is_empty() {
            Err(Message::NotFound(String::from_str("No transactions found")))
        } else {
            Ok(list)
        }
    }

    /// The balance of a user.
    pub fn get_user_balance(&self, user_id: u64) -> (result: Result<u64, Message>)
        requires
            self.wf(),
        ensures
            match result {
                Ok(balance) => self@.balance_of(user_id) == Ok::<u64, MessageView>(balance),
                Err(message) => self@.balance_of(user_id) == Err::<u64, MessageView>(message@),
            },
    {
        match self.find_user(user_id) {
            Some(user) => Ok(user.balance),
            None => Err(Message::NotFound(String::from_str("User not found"))),
        }
    }

    /// The points of a user.
    pub fn get_user_points(&self, user_id: u64) -> (result: Result<u64, Message>)
        requires
            self.wf(),
        ensures
            match result {
                Ok(points) => self@.points_of(user_id) == Ok::<u64, MessageView>(points),
                Err(message) => self@.points_of(user_id) == Err::<u64, MessageView>(message@),
            },
    {
        match self.find_user(user_id) {
            Some(user) => Ok(user.points),
            None => Err(Message::NotFound(String::from_str("User not found"))),
        }
    }
}

} // verus!
