//! The records of the ledger and the payloads of its operations.

use vstd::prelude::*;

verus! {

/// An account holder. The identifier never changes; balance and points
/// change only through the ledger's operations.
#[derive(Debug, Clone, PartialEq, Eq, Default)]
pub struct User {
    pub id: u64,
    pub first_name: String,
    pub last_name: String,
    pub username: String,
    pub email: String,
    pub phone_number: String,
    pub created_at: u64,
    pub balance: u64,
    pub points: u64,
}

/// A `User` with its texts as sequences of characters.
pub struct UserView {
    pub id: u64,
    pub first_name: Seq<char>,
    pub last_name: Seq<char>,
    pub username: Seq<char>,
    pub email: Seq<char>,
    pub phone_number: Seq<char>,
    pub created_at: u64,
    pub balance: u64,
    pub points: u64,
}

impl View for User {
    type V = UserView;

    open spec fn view(&self) -> UserView {
        UserView {
            id: self.id,
            first_name: self.first_name@,
            last_name: self.last_name@,
            username: self.username@,
            email: self.email@,
            phone_number: self.phone_number@,
            created_at: self.created_at,
            balance: self.balance,
            points: self.points,
        }
    }
}

impl UserView {
    /// The same user with another balance.
    pub open spec fn with_balance(self, balance: u64) -> UserView {
        UserView { balance, ..self }
    }

    /// Whether the two records are of one person: all but balance and
    /// points is the same.
    pub open spec fn same_person(self, other: UserView) -> bool {
        &&& self.id == other.id
        &&& self.first_name == other.first_name
        &&& self.last_name == other.last_name
        &&& self.username == other.username
        &&& self.email == other.email
        &&& self.phone_number == other.phone_number
        &&& self.created_at == other.created_at
    }

    /// The same user with another number of points.
    pub open spec fn with_points(self, points: u64) -> UserView {
        UserView { points, ..self }
    }
}

/// One transfer of `amount` from one user to another. A transaction is
/// never changed once it is in the log.
#[derive(Debug, Clone, Copy, PartialEq, Eq, Default)]
pub struct Transaction {
    pub id: u64,
    pub from_user_id: u64,
    pub to_user_id: u64,
    pub amount: u64,
    pub created_at: u64,
}

impl Transaction {
    /// Whether `user_id` sent or received this transfer.
    pub open spec fn involves(self, user_id: u64) -> bool {
        self.from_user_id == user_id || self.to_user_id == user_id
    }
}

/// What a new user is made from.
#[derive(Debug, Clone, PartialEq, Eq)]
pub struct UserPayload {
    pub first_name: String,
    pub last_name: String,
    pub email: String,
    pub phone_number: String,
}

/// A `UserPayload` with its texts as sequences of characters.
pub struct UserPayloadView {
    pub first_name: Seq<char>,
    pub last_name: Seq<char>,
    pub email: Seq<char>,
    pub phone_number: Seq<char>,
}

impl View for UserPayload {
    type V = UserPayloadView;

    open spec fn view(&self) -> UserPayloadView {
        UserPayloadView {
            first_name: self.first_name@,
            last_name: self.last_name@,
            email: self.email@,
            phone_number: self.phone_number@,
        }
    }
}

/// A transfer to carry out.
#[derive(Debug, Clone, Copy, PartialEq, Eq)]
pub struct TransactionPayload {
    pub from_user_id: u64,
    pub to_user_id: u64,
    pub amount: u64,
}

/// Points to redeem.
#[derive(Debug, Clone, Copy, PartialEq, Eq)]
pub struct PointsPayload {
    pub user_id: u64,
    pub points: u64,
}

/// Funds to deposit.
#[derive(Debug, Clone, Copy, PartialEq, Eq)]
pub struct DepositPayload {
    pub user_id: u64,
    pub amount: u64,
}

} // verus!
