//! What an operation of the ledger answers with: a kind and a text.

use vstd::prelude::*;

verus! {

/// The answer of an operation. `Success` comes back in `Ok`, the other
/// kinds in `Err`.
#[derive(Debug, Clone, PartialEq, Eq)]
pub enum Message {
    /// The operation was carried out.
    Success(String),
    /// A rule of the ledger was violated: a balance or the points did not
    /// suffice.
    Error(String),
    /// An identifier does not resolve to a record.
    NotFound(String),
    /// The caller's input is missing or malformed; nothing was changed.
    InvalidPayload(String),
    /// Reserved; no operation answers with it.
    Unauthorized(String),
}

/// A `Message` with its text as a sequence of characters.
pub enum MessageView {
    Success(Seq<char>),
    Error(Seq<char>),
    NotFound(Seq<char>),
    InvalidPayload(Seq<char>),
    Unauthorized(Seq<char>),
}

impl View for Message {
    type V = MessageView;

    open spec fn view(&self) -> MessageView {
        match self {
            Message::Success(text) => MessageView::Success(text@),
            Message::Error(text) => MessageView::Error(text@),
            Message::NotFound(text) => MessageView::NotFound(text@),
            Message::InvalidPayload(text) => MessageView::InvalidPayload(text@),
            Message::Unauthorized(text) => MessageView::Unauthorized(text@),
        }
    }
}

impl Message {
    /// The text of the message, whatever its kind.
    pub fn text(&self) -> (text: &String)
        ensures
            text@ == self@.text(),
    {
        match self {
            Message::Success(text) => text,
            Message::Error(text) => text,
            Message::NotFound(text) => text,
            Message::InvalidPayload(text) => text,
            Message::Unauthorized(text) => text,
        }
    }
}

impl MessageView {
    /// The text of the message, whatever its kind.
    pub open spec fn text(self) -> Seq<char> {
        match self {
            MessageView::Success(text) => text,
            MessageView::Error(text) => text,
            MessageView::NotFound(text) => text,
            MessageView::InvalidPayload(text) => text,
            MessageView::Unauthorized(text) => text,
        }
    }
}

/// The text that rejects an amount of zero.
pub open spec fn text_amount_zero() -> Seq<char> {
    "Amount must be greater than 0."@
}

/// The text that reports an unknown user.
pub open spec fn text_user_not_found() -> Seq<char> {
    "User not found"@
}

/// The text that reports an unknown sender.
pub open spec fn text_sender_not_found() -> Seq<char> {
    "Sender not found"@
}

/// The text that reports an unknown recipient.
pub open spec fn text_recipient_not_found() -> Seq<char> {
    "Recipient not found"@
}

/// The text that reports a balance below the amount to send.
pub open spec fn text_insufficient_balance() -> Seq<char> {
    "Insufficient balance"@
}

/// The text that reports a balance that would pass the greatest number.
pub open spec fn text_balance_overflow() -> Seq<char> {
    "Balance overflow"@
}

/// The text that reports points that would pass the greatest number.
pub open spec fn text_points_overflow() -> Seq<char> {
    "Points overflow"@
}

/// The text that reports that every identifier has been issued.
pub open spec fn text_no_identifier() -> Seq<char> {
    "No identifier is left"@
}

/// The text that rejects a payload whose user does not fit into a record.
pub open spec fn text_too_large() -> Seq<char> {
    "Payload is too large"@
}

/// The text that reports fewer points than were to be redeemed.
pub open spec fn text_insufficient_points() -> Seq<char> {
    "Insufficient points"@
}

/// The text that reports a user without any transaction.
pub open spec fn text_no_transactions() -> Seq<char> {
    "No transactions found"@
}

/// The text that rejects a payload with an empty field.
pub open spec fn text_fields_missing() -> Seq<char> {
    "Ensure 'first_name', 'last_name', 'email', and 'phone_number' are provided."@
}

/// The text that rejects a malformed email address.
pub open spec fn text_invalid_email() -> Seq<char> {
    "Invalid email address format"@
}

/// The text that rejects a malformed phone number.
pub open spec fn text_invalid_phone() -> Seq<char> {
    "Invalid phone number format"@
}

/// The text that rejects an email address that a user already has.
pub open spec fn text_email_exists() -> Seq<char> {
    "Email already exists"@
}

} // verus!
