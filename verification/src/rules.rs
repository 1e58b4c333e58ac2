//! What each operation does to the ledger, as functions on what the ledger
//! holds. The operations are verified against these, and the laws are
//! proved of them.

use crate::ledger::LedgerView;
use crate::codec::USER_FRAME_LEN;
use crate::message::{
    text_amount_zero, text_balance_overflow, text_email_exists, text_fields_missing,
    text_insufficient_balance, text_insufficient_points, text_invalid_email, text_invalid_phone,
    text_no_identifier, text_points_overflow, text_recipient_not_found, text_sender_not_found,
    text_too_large, text_user_not_found, MessageView,
};
use crate::model::{
    DepositPayload, PointsPayload, Transaction, TransactionPayload, UserPayload, UserPayloadView,
    UserView,
};
use crate::store::RECORD_MAX;
use crate::text::{decimal, email_well_formed, lowercase_of, phone_well_formed, username_of};
use vstd::prelude::*;
use vstd::string::*;
use vstd::utf8::*;

verus! {

/// One point is awarded for this many units sent.
pub const UNITS_PER_POINT: u64 = 10;

impl UserPayloadView {
    /// The bytes that the four texts take together in UTF-8.
    pub open spec fn text_len(self) -> nat {
        encode_utf8(self.first_name).len() + encode_utf8(self.last_name).len() + encode_utf8(
            self.email,
        ).len() + encode_utf8(self.phone_number).len()
    }

    /// Whether one of the four texts is empty.
    pub open spec fn has_empty_field(self) -> bool {
        self.first_name.len() == 0 || self.last_name.len() == 0 || self.email.len() == 0
            || self.phone_number.len() == 0
    }

    /// Whether the user made from this payload and a user name fits into a
    /// record.
    pub open spec fn fits_with(self, username: Seq<char>) -> bool {
        USER_FRAME_LEN + self.text_len() + encode_utf8(username).len() <= RECORD_MAX
    }
}

impl UserPayload {
    /// Whether the user made from this payload and a user name fits into a
    /// record.
    pub fn fits_with(&self, username: &String) -> (fits: bool)
        ensures
            fits == self@.fits_with(username@),
    {
        let room: usize = RECORD_MAX - USER_FRAME_LEN;
        let first: usize = self.first_name.as_str().as_bytes().len();
        let last: usize = self.last_name.as_str().as_bytes().len();
        let email: usize = self.email.as_str().as_bytes().len();
        let phone: usize = self.phone_number.as_str().as_bytes().len();
        let name: usize = username.as_str().as_bytes().len();
        first <= room && last <= room - first && email <= room - first - last && phone <= room
            - first - last - email && name <= room - first - last - email - phone
    }
}

/// The text that reports a deposit.
pub open spec fn text_deposited(amount: u64, user_id: u64) -> Seq<char> {
    "Deposited "@ + decimal(amount as nat) + " units of currency to user "@ + decimal(
        user_id as nat,
    )
}

/// The text that reports a redemption.
pub open spec fn text_redeemed(points: u64, user_id: u64) -> Seq<char> {
    "Redeemed "@ + decimal(points as nat) + " points from user "@ + decimal(user_id as nat)
}

impl LedgerView {
    /// Whether a user has this email address.
    pub open spec fn email_taken(self, email: Seq<char>) -> bool {
        exists|id: u64| #[trigger] self.users.contains_key(id) && self.users[id].email == email
    }

    /// Why a registration is refused, if it is: a field is empty, the email
    /// address or the phone number is malformed, a user has the email
    /// address already, the user does not fit into a record, or no
    /// identifier is left, asked in this order. `email_ok` and `phone_ok`
    /// say whether the two texts have the form that is asked of them.
    pub open spec fn registration_refusal(
        self,
        payload: UserPayloadView,
        email_ok: bool,
        phone_ok: bool,
        username: Seq<char>,
    ) -> Option<MessageView> {
        if payload.has_empty_field() {
            Some(MessageView::InvalidPayload(text_fields_missing()))
        } else if !email_ok {
            Some(MessageView::InvalidPayload(text_invalid_email()))
        } else if !phone_ok {
            Some(MessageView::InvalidPayload(text_invalid_phone()))
        } else if self.email_taken(payload.email) {
            Some(MessageView::InvalidPayload(text_email_exists()))
        } else if !payload.fits_with(username) {
            Some(MessageView::InvalidPayload(text_too_large()))
        } else if self.next_id == u64::MAX {
            Some(MessageView::Error(text_no_identifier()))
        } else {
            None
        }
    }

    /// The user that a registration makes: the next identifier, the texts
    /// of the payload, no balance and no points.
    pub open spec fn registered_user(
        self,
        payload: UserPayloadView,
        username: Seq<char>,
        now: u64,
    ) -> UserView {
        UserView {
            id: self.next_id,
            first_name: payload.first_name,
            last_name: payload.last_name,
            username,
            email: payload.email,
            phone_number: payload.phone_number,
            created_at: now,
            balance: 0,
            points: 0,
        }
    }

    /// The ledger after a registration: unchanged where it is refused, else
    /// with the new user and the next identifier.
    pub open spec fn after_registration(
        self,
        payload: UserPayloadView,
        email_ok: bool,
        phone_ok: bool,
        username: Seq<char>,
        now: u64,
    ) -> LedgerView {
        if self.registration_refusal(payload, email_ok, phone_ok, username) is Some {
            self
        } else {
            LedgerView {
                next_id: (self.next_id + 1) as u64,
                users: self.users.insert(
                    self.next_id,
                    self.registered_user(payload, username, now),
                ),
                ..self
            }
        }
    }

    /// Why `create_user` refuses a payload, if it does.
    pub open spec fn create_user_refusal(self, payload: UserPayloadView) -> Option<MessageView> {
        self.registration_refusal(
            payload,
            email_well_formed(payload.email),
            phone_well_formed(payload.phone_number),
            username_of(lowercase_of(payload.first_name), lowercase_of(payload.last_name)),
        )
    }

    /// The user that `create_user` makes. Its user name is the first and
    /// the last name in lower case, joined and cut after ten characters.
    pub open spec fn created_user(self, payload: UserPayloadView, now: u64) -> UserView {
        self.registered_user(
            payload,
            username_of(lowercase_of(payload.first_name), lowercase_of(payload.last_name)),
            now,
        )
    }

    /// The ledger after `create_user`.
    pub open spec fn after_create_user(self, payload: UserPayloadView, now: u64) -> LedgerView {
        self.after_registration(
            payload,
            email_well_formed(payload.email),
            phone_well_formed(payload.phone_number),
            username_of(lowercase_of(payload.first_name), lowercase_of(payload.last_name)),
            now,
        )
    }

    /// Why a deposit is refused, if it is: the amount is zero, the user is
    /// unknown, or the balance would pass the greatest number, asked in
    /// this order.
    pub open spec fn deposit_refusal(self, payload: DepositPayload) -> Option<MessageView> {
        if payload.amount == 0 {
            Some(MessageView::InvalidPayload(text_amount_zero()))
        } else if !self.users.contains_key(payload.user_id) {
            Some(MessageView::NotFound(text_user_not_found()))
        } else if self.users[payload.user_id].balance + payload.amount > u64::MAX {
            Some(MessageView::Error(text_balance_overflow()))
        } else {
            None
        }
    }

    /// The ledger after a deposit: unchanged where it is refused, else with
    /// the amount added to the balance of the user.
    pub open spec fn after_deposit(self, payload: DepositPayload) -> LedgerView {
        if self.deposit_refusal(payload) is Some {
            self
        } else {
            let user = self.users[payload.user_id];
            LedgerView {
                users: self.users.insert(
                    payload.user_id,
                    user.with_balance((user.balance + payload.amount) as u64),
                ),
                ..self
            }
        }
    }

    /// Why a transfer is refused, if it is: the amount is zero, the sender
    /// or the recipient is unknown, the balance of the sender is below the
    /// amount, the balance of another recipient or the points of the
    /// sender would pass the greatest number, or no identifier is left,
    /// asked in this order.
    pub open spec fn transfer_refusal(self, payload: TransactionPayload) -> Option<MessageView> {
        if payload.amount == 0 {
            Some(MessageView::InvalidPayload(text_amount_zero()))
        } else if !self.users.contains_key(payload.from_user_id) {
            Some(MessageView::NotFound(text_sender_not_found()))
        } else if !self.users.contains_key(payload.to_user_id) {
            Some(MessageView::NotFound(text_recipient_not_found()))
        } else if self.users[payload.from_user_id].balance < payload.amount {
            Some(MessageView::Error(text_insufficient_balance()))
        } else if payload.from_user_id != payload.to_user_id
            && self.users[payload.to_user_id].balance + payload.amount > u64::MAX {
            Some(MessageView::Error(text_balance_overflow()))
        } else if self.users[payload.from_user_id].points + payload.amount / UNITS_PER_POINT
            > u64::MAX {
            Some(MessageView::Error(text_points_overflow()))
        } else if self.next_id == u64::MAX {
            Some(MessageView::Error(text_no_identifier()))
        } else {
            None
        }
    }

    /// The users after the amount has left the balance of the sender.
    pub open spec fn debited(self, payload: TransactionPayload) -> Map<u64, UserView> {
        let sender = self.users[payload.from_user_id];
        self.users.insert(
            payload.from_user_id,
            sender.with_balance((sender.balance - payload.amount) as u64),
        )
    }

    /// The users after the amount has then reached the balance of the
    /// recipient.
    pub open spec fn credited(self, payload: TransactionPayload) -> Map<u64, UserView> {
        let recipient = self.debited(payload)[payload.to_user_id];
        self.debited(payload).insert(
            payload.to_user_id,
            recipient.with_balance((recipient.balance + payload.amount) as u64),
        )
    }

    /// The users after the sender has then been awarded its points: one
    /// for every ten units sent.
    pub open spec fn rewarded(self, payload: TransactionPayload) -> Map<u64, UserView> {
        let sender = self.credited(payload)[payload.from_user_id];
        self.credited(payload).insert(
            payload.from_user_id,
            sender.with_points((sender.points + payload.amount / UNITS_PER_POINT) as u64),
        )
    }

    /// The record of a transfer: the next identifier, the payload and the
    /// time.
    pub open spec fn transfer_record(self, payload: TransactionPayload, now: u64) -> Transaction {
        Transaction {
            id: self.next_id,
            from_user_id: payload.from_user_id,
            to_user_id: payload.to_user_id,
            amount: payload.amount,
            created_at: now,
        }
    }

    /// The ledger after a transfer: unchanged where it is refused, else
    /// with the sender debited, the recipient credited, the transfer in
    /// the log under the next identifier, and the sender rewarded.
    pub open spec fn after_transfer(self, payload: TransactionPayload, now: u64) -> LedgerView {
        if self.transfer_refusal(payload) is Some {
            self
        } else {
            LedgerView {
                next_id: (self.next_id + 1) as u64,
                users: self.rewarded(payload),
                transactions: self.transactions.insert(
                    self.next_id,
                    self.transfer_record(payload, now),
                ),
            }
        }
    }

    /// Why a redemption is refused, if it is: the user is unknown, or has
    /// fewer points than are to be redeemed.
    pub open spec fn redeem_refusal(self, payload: PointsPayload) -> Option<MessageView> {
        if !self.users.contains_key(payload.user_id) {
            Some(MessageView::NotFound(text_user_not_found()))
        } else if self.users[payload.user_id].points < payload.points {
            Some(MessageView::Error(text_insufficient_points()))
        } else {
            None
        }
    }

    /// The ledger after a redemption: unchanged where it is refused, else
    /// with the points taken from the user.
    pub open spec fn after_redeem(self, payload: PointsPayload) -> LedgerView {
        if self.redeem_refusal(payload) is Some {
            self
        } else {
            let user = self.users[payload.user_id];
            LedgerView {
                users: self.users.insert(
                    payload.user_id,
                    user.with_points((user.points - payload.points) as u64),
                ),
                ..self
            }
        }
    }

    /// The balance of a user, or that the user is unknown.
    pub open spec fn balance_of(self, user_id: u64) -> Result<u64, MessageView> {
        if self.users.contains_key(user_id) {
            Ok(self.users[user_id].balance)
        } else {
            Err(MessageView::NotFound(text_user_not_found()))
        }
    }

    /// The points of a user, or that the user is unknown.
    pub open spec fn points_of(self, user_id: u64) -> Result<u64, MessageView> {
        if self.users.contains_key(user_id) {
            Ok(self.users[user_id].points)
        } else {
            Err(MessageView::NotFound(text_user_not_found()))
        }
    }

    /// Whether the log holds a transfer that `user_id` sent or received.
    pub open spec fn has_history(self, user_id: u64) -> bool {
        exists|id: u64| #[trigger]
            self.transactions.contains_key(id) && self.transactions[id].involves(user_id)
    }

    /// Whether `list` is the history of `user_id`: the transfers of the log
    /// that the user sent or received, each once, in ascending order of
    /// their identifiers.
    pub open spec fn is_history(self, user_id: u64, list: Seq<Transaction>) -> bool {
        &&& forall|i: int|
            0 <= i < list.len() ==> self.transactions.contains_key((#[trigger] list[i]).id)
                && self.transactions[list[i].id] == list[i] && list[i].involves(user_id)
        &&& forall|i: int, j: int|
            0 <= i < j < list.len() ==> (#[trigger] list[i]).id < (#[trigger] list[j]).id
        &&& forall|id: u64| #[trigger]
            self.transactions.contains_key(id) && self.transactions[id].involves(user_id)
                ==> exists|i: int|
                0 <= i < list.len() && (#[trigger] list[i]) == self.transactions[id]
    }

    /// Whether the records are sound: no two users have the same email
    /// address, and every transfer in the log moved an amount above zero
    /// between two users of the ledger.
    pub open spec fn sound(self) -> bool {
        &&& forall|a: u64, b: u64|
            #![trigger self.users.contains_key(a), self.users.contains_key(b)]
            self.users.contains_key(a) && self.users.contains_key(b) && self.users[a].email
                == self.users[b].email ==> a == b
        &&& forall|id: u64| #[trigger]
            self.transactions.contains_key(id) ==> self.transactions[id].amount > 0
                && self.users.contains_key(self.transactions[id].from_user_id)
                && self.users.contains_key(self.transactions[id].to_user_id)
    }

    /// Whether this ledger grew out of `earlier`: no identifier was taken
    /// back, every user is still there with the identifier, the texts and
    /// the time it was created with, and every transfer is still in the
    /// log as it was written.
    pub open spec fn extends(self, earlier: LedgerView) -> bool {
        &&& earlier.next_id <= self.next_id
        &&& forall|id: u64| #[trigger]
            earlier.users.contains_key(id) ==> self.users.contains_key(id)
                && self.users[id].same_person(earlier.users[id])
        &&& forall|id: u64| #[trigger]
            earlier.transactions.contains_key(id) ==> self.transactions.contains_key(id)
                && self.transactions[id] == earlier.transactions[id]
    }
}

} // verus!
