//! How a record is laid out in bytes.
//!
//! A number is its eight bytes, least significant first. A text is the
//! number of bytes of its UTF-8 form, then those bytes. A record is its
//! fields in the order of the struct, with nothing before, between or
//! after them. Reading a record back yields the record that was written
//! (`lemma_user_round_trip`, `lemma_transaction_round_trip`), and only the
//! bytes that writing produces can be read as a record
//! (`lemma_user_canonical`, `lemma_transaction_canonical`).

use crate::model::{Transaction, User, UserView};
use crate::store::RECORD_MAX;
use crate::text::text_from_utf8;
use vstd::bytes::*;
use vstd::prelude::*;
use vstd::slice::*;
use vstd::string::*;
use vstd::utf8::*;

verus! {

/// The bytes of a number.
pub open spec fn number_bytes(number: u64) -> Seq<u8> {
    spec_u64_to_le_bytes(number)
}

/// The bytes of a text: the length of its UTF-8 form, then that form.
pub open spec fn text_bytes(text: Seq<char>) -> Seq<u8> {
    number_bytes(encode_utf8(text).len() as u64) + encode_utf8(text)
}

/// The bytes of a user record.
pub open spec fn user_bytes(user: UserView) -> Seq<u8> {
    number_bytes(user.id) + (text_bytes(user.first_name) + (text_bytes(user.last_name) + (
    text_bytes(user.username) + (text_bytes(user.email) + (text_bytes(user.phone_number) + (
    number_bytes(user.created_at) + (number_bytes(user.balance) + number_bytes(
        user.points,
    ))))))))
}

/// The bytes of a transaction record.
pub open spec fn transaction_bytes(transaction: Transaction) -> Seq<u8> {
    number_bytes(transaction.id) + (number_bytes(transaction.from_user_id) + (number_bytes(
        transaction.to_user_id,
    ) + (number_bytes(transaction.amount) + number_bytes(transaction.created_at))))
}

/// Reads a number off the front of `bytes`: the number and what follows it.
pub open spec fn take_number(bytes: Seq<u8>) -> Option<(u64, Seq<u8>)> {
    if bytes.len() < 8 {
        None
    } else {
        Some((spec_u64_from_le_bytes(bytes.take(8)), bytes.skip(8)))
    }
}

/// Reads a text off the front of `bytes`: the text and what follows it.
pub open spec fn take_text(bytes: Seq<u8>) -> Option<(Seq<char>, Seq<u8>)> {
    match take_number(bytes) {
        None => None,
        Some((length, rest)) => {
            if length > rest.len() || !valid_utf8(rest.take(length as int)) {
                None
            } else {
                Some((decode_utf8(rest.take(length as int)), rest.skip(length as int)))
            }
        },
    }
}

/// The user record that `bytes` holds, if they hold exactly one.
pub open spec fn parse_user(bytes: Seq<u8>) -> Option<UserView> {
    match take_number(bytes) {
        None => None,
        Some((id, b1)) => match take_text(b1) {
            None => None,
            Some((first_name, b2)) => match take_text(b2) {
                None => None,
                Some((last_name, b3)) => match take_text(b3) {
                    None => None,
                    Some((username, b4)) => match take_text(b4) {
                        None => None,
                        Some((email, b5)) => match take_text(b5) {
                            None => None,
                            Some((phone_number, b6)) => match parse_counters(b6) {
                                None => None,
                                Some((created_at, balance, points)) => Some(
                                    UserView {
                                        id,
                                        first_name,
                                        last_name,
                                        username,
                                        email,
                                        phone_number,
                                        created_at,
                                        balance,
                                        points,
                                    },
                                ),
                            },
                        },
                    },
                },
            },
        },
    }
}

/// The three numbers that end a user record, if `bytes` hold exactly them.
pub open spec fn parse_counters(bytes: Seq<u8>) -> Option<(u64, u64, u64)> {
    match take_number(bytes) {
        None => None,
        Some((first, b1)) => match take_number(b1) {
            None => None,
            Some((second, b2)) => match take_number(b2) {
                None => None,
                Some((third, b3)) => if b3.len() == 0 {
                    Some((first, second, third))
                } else {
                    None
                },
            },
        },
    }
}

/// The transaction record that `bytes` hold, if they hold exactly one.
pub open spec fn parse_transaction(bytes: Seq<u8>) -> Option<Transaction> {
    match take_number(bytes) {
        None => None,
        Some((id, b1)) => match take_number(b1) {
            None => None,
            Some((from_user_id, b2)) => match parse_counters(b2) {
                None => None,
                Some((to_user_id, amount, created_at)) => Some(
                    Transaction { id, from_user_id, to_user_id, amount, created_at },
                ),
            },
        },
    }
}

/// The number of bytes that the texts of a user take in UTF-8.
pub open spec fn user_text_len(user: UserView) -> nat {
    encode_utf8(user.first_name).len() + encode_utf8(user.last_name).len() + encode_utf8(
        user.username,
    ).len() + encode_utf8(user.email).len() + encode_utf8(user.phone_number).len()
}

/// The bytes that a user record takes besides its texts: four numbers and
/// five lengths.
pub const USER_FRAME_LEN: usize = 72;

/// The bytes that a transaction record takes.
pub const TRANSACTION_LEN: usize = 40;

/// A number takes eight bytes, and reading them back gives the number.
pub proof fn lemma_take_number(number: u64, rest: Seq<u8>)
    ensures
        number_bytes(number).len() == 8,
        take_number(number_bytes(number) + rest) == Some((number, rest)),
{
    lemma_auto_spec_u64_to_from_le_bytes();
    let all = number_bytes(number) + rest;
    assert(all.take(8) =~= number_bytes(number));
    assert(all.skip(8) =~= rest);
}

/// Reading a text back gives the text.
pub proof fn lemma_take_text(text: Seq<char>, rest: Seq<u8>)
    requires
        encode_utf8(text).len() <= u64::MAX,
    ensures
        text_bytes(text).len() == 8 + encode_utf8(text).len(),
        take_text(text_bytes(text) + rest) == Some((text, rest)),
{
    let body = encode_utf8(text);
    let length = body.len() as u64;
    lemma_take_number(length, body + rest);
    assert(text_bytes(text) + rest =~= number_bytes(length) + (body + rest));
    assert((body + rest).take(length as int) =~= body);
    assert((body + rest).skip(length as int) =~= rest);
    encode_utf8_valid_utf8(text);
    encode_utf8_decode_utf8(text);
}

/// Bytes that a number can be read from start with the bytes of that number.
pub proof fn lemma_number_canonical(bytes: Seq<u8>)
    requires
        take_number(bytes) is Some,
    ensures
        bytes == number_bytes(take_number(bytes).unwrap().0) + take_number(bytes).unwrap().1,
{
    lemma_auto_spec_u64_to_from_le_bytes();
    let head = bytes.take(8);
    assert(spec_u64_to_le_bytes(spec_u64_from_le_bytes(head)) == head);
    assert(bytes =~= head + bytes.skip(8));
}

/// Bytes that a text can be read from start with the bytes of that text.
pub proof fn lemma_text_canonical(bytes: Seq<u8>)
    requires
        take_text(bytes) is Some,
    ensures
        bytes == text_bytes(take_text(bytes).unwrap().0) + take_text(bytes).unwrap().1,
        encode_utf8(take_text(bytes).unwrap().0).len() <= u64::MAX,
{
    lemma_number_canonical(bytes);
    let (length, rest) = take_number(bytes)->0;
    let body = rest.take(length as int);
    decode_utf8_encode_utf8(body);
    assert(rest =~= body + rest.skip(length as int));
    assert(bytes =~= (number_bytes(length) + body) + rest.skip(length as int));
}

/// The length of a user record: its frame and its texts.
pub proof fn lemma_user_bytes_len(user: UserView)
    ensures
        user_bytes(user).len() == USER_FRAME_LEN + user_text_len(user),
{
    lemma_auto_spec_u64_to_from_le_bytes();
}

/// Whether each text of the user has a UTF-8 form whose length a number
/// can hold.
pub open spec fn user_texts_bounded(user: UserView) -> bool {
    &&& encode_utf8(user.first_name).len() <= u64::MAX
    &&& encode_utf8(user.last_name).len() <= u64::MAX
    &&& encode_utf8(user.username).len() <= u64::MAX
    &&& encode_utf8(user.email).len() <= u64::MAX
    &&& encode_utf8(user.phone_number).len() <= u64::MAX
}

/// Whether the user can be stored: the lengths of its texts are numbers,
/// and its record has the bounded size.
pub open spec fn user_fits(user: UserView) -> bool {
    user_texts_bounded(user) && user_bytes(user).len() <= RECORD_MAX
}

/// Whether a user fits into a record depends on its texts alone.
pub proof fn lemma_user_fits_by_texts(user: UserView, other: UserView)
    requires
        user_fits(user),
        other.first_name == user.first_name,
        other.last_name == user.last_name,
        other.username == user.username,
        other.email == user.email,
        other.phone_number == user.phone_number,
    ensures
        user_fits(other),
{
    lemma_user_bytes_len(user);
    lemma_user_bytes_len(other);
}

/// A user record that is written and read back is the same record.
pub proof fn lemma_user_round_trip(user: UserView)
    requires
        user_texts_bounded(user),
    ensures
        parse_user(user_bytes(user)) == Some(user),
{
    let t9 = Seq::<u8>::empty();
    let t8 = number_bytes(user.points);
    let t7 = number_bytes(user.balance) + t8;
    let t6 = number_bytes(user.created_at) + t7;
    let t5 = text_bytes(user.phone_number) + t6;
    let t4 = text_bytes(user.email) + t5;
    let t3 = text_bytes(user.username) + t4;
    let t2 = text_bytes(user.last_name) + t3;
    let t1 = text_bytes(user.first_name) + t2;
    assert(t8 =~= number_bytes(user.points) + t9);
    lemma_take_number(user.points, t9);
    lemma_take_number(user.balance, t8);
    lemma_take_number(user.created_at, t7);
    assert(parse_counters(t6) == Some((user.created_at, user.balance, user.points)));
    lemma_take_text(user.phone_number, t6);
    lemma_take_text(user.email, t5);
    lemma_take_text(user.username, t4);
    lemma_take_text(user.last_name, t3);
    lemma_take_text(user.first_name, t2);
    lemma_take_number(user.id, t1);
}

/// Bytes that hold a user record are the bytes of that record.
pub proof fn lemma_user_canonical(bytes: Seq<u8>)
    requires
        parse_user(bytes) is Some,
    ensures
        user_bytes(parse_user(bytes).unwrap()) == bytes,
        user_texts_bounded(parse_user(bytes).unwrap()),
{
    let user = parse_user(bytes).unwrap();
    let b1 = take_number(bytes).unwrap().1;
    let b2 = take_text(b1).unwrap().1;
    let b3 = take_text(b2).unwrap().1;
    let b4 = take_text(b3).unwrap().1;
    let b5 = take_text(b4).unwrap().1;
    let b6 = take_text(b5).unwrap().1;
    lemma_counters_canonical(b6);
    assert(b6 == number_bytes(user.created_at) + (number_bytes(user.balance) + number_bytes(
        user.points,
    )));
    lemma_text_canonical(b5);
    assert(b5 == text_bytes(user.phone_number) + b6);
    lemma_text_canonical(b4);
    assert(b4 == text_bytes(user.email) + b5);
    lemma_text_canonical(b3);
    assert(b3 == text_bytes(user.username) + b4);
    lemma_text_canonical(b2);
    assert(b2 == text_bytes(user.last_name) + b3);
    lemma_text_canonical(b1);
    assert(b1 == text_bytes(user.first_name) + b2);
    lemma_number_canonical(bytes);
    assert(bytes == number_bytes(user.id) + b1);
}

/// Bytes that hold three closing numbers are the bytes of those numbers.
pub proof fn lemma_counters_canonical(bytes: Seq<u8>)
    requires
        parse_counters(bytes) is Some,
    ensures
        bytes == number_bytes(parse_counters(bytes).unwrap().0) + (number_bytes(
            parse_counters(bytes).unwrap().1,
        ) + number_bytes(parse_counters(bytes).unwrap().2)),
{
    let b1 = take_number(bytes).unwrap().1;
    let b2 = take_number(b1).unwrap().1;
    let b3 = take_number(b2).unwrap().1;
    lemma_number_canonical(bytes);
    lemma_number_canonical(b1);
    lemma_number_canonical(b2);
    assert(b2 =~= number_bytes(parse_counters(bytes).unwrap().2));
}

/// A transaction record takes forty bytes, and one that is written and
/// read back is the same record.
pub proof fn lemma_transaction_round_trip(transaction: Transaction)
    ensures
        transaction_bytes(transaction).len() == TRANSACTION_LEN,
        parse_transaction(transaction_bytes(transaction)) == Some(transaction),
{
    let t5 = Seq::<u8>::empty();
    let t4 = number_bytes(transaction.created_at);
    let t3 = number_bytes(transaction.amount) + t4;
    let t2 = number_bytes(transaction.to_user_id) + t3;
    let t1 = number_bytes(transaction.from_user_id) + t2;
    assert(t4 =~= number_bytes(transaction.created_at) + t5);
    lemma_take_number(transaction.created_at, t5);
    lemma_take_number(transaction.amount, t4);
    lemma_take_number(transaction.to_user_id, t3);
    assert(parse_counters(t2) == Some(
        (transaction.to_user_id, transaction.amount, transaction.created_at),
    ));
    lemma_take_number(transaction.from_user_id, t2);
    lemma_take_number(transaction.id, t1);
}

/// Bytes that hold a transaction record are the bytes of that record.
pub proof fn lemma_transaction_canonical(bytes: Seq<u8>)
    requires
        parse_transaction(bytes) is Some,
    ensures
        transaction_bytes(parse_transaction(bytes)->0) == bytes,
{
    let b1 = take_number(bytes).unwrap().1;
    let b2 = take_number(b1).unwrap().1;
    lemma_number_canonical(bytes);
    lemma_number_canonical(b1);
    lemma_counters_canonical(b2);
}

/// Appends the bytes of `number` to `out`.
fn put_number(out: &mut Vec<u8>, number: u64)
    ensures
        final(out)@ == old(out)@ + number_bytes(number),
{
    let mut bytes = u64_to_le_bytes(number);
    out.append(&mut bytes);
}

/// Appends the bytes of `text` to `out`.
fn put_text(out: &mut Vec<u8>, text: &String)
    ensures
        final(out)@ == old(out)@ + text_bytes(text@),
{
    let body = text.as_str().as_bytes();
    let mut copy = slice_to_vec(body);
    put_number(out, body.len() as u64);
    out.append(&mut copy);
    assert(final(out)@ =~= old(out)@ + text_bytes(text@));
}

/// Writes a user record.
pub fn encode_user(user: &User) -> (bytes: Vec<u8>)
    ensures
        bytes@ == user_bytes(user@),
{
    let mut out: Vec<u8> = Vec::new();
    put_number(&mut out, user.id);
    put_text(&mut out, &user.first_name);
    put_text(&mut out, &user.last_name);
    put_text(&mut out, &user.username);
    put_text(&mut out, &user.email);
    put_text(&mut out, &user.phone_number);
    put_number(&mut out, user.created_at);
    put_number(&mut out, user.balance);
    put_number(&mut out, user.points);
    assert(out@ =~= user_bytes(user@));
    out
}

/// Writes a transaction record.
pub fn encode_transaction(transaction: &Transaction) -> (bytes: Vec<u8>)
    ensures
        bytes@ == transaction_bytes(*transaction),
{
    let mut out: Vec<u8> = Vec::new();
    put_number(&mut out, transaction.id);
    put_number(&mut out, transaction.from_user_id);
    put_number(&mut out, transaction.to_user_id);
    put_number(&mut out, transaction.amount);
    put_number(&mut out, transaction.created_at);
    assert(out@ =~= transaction_bytes(*transaction));
    out
}

/// Reads the number that starts at `at`, and says where the next field
/// starts.
fn get_number(bytes: &[u8], at: usize) -> (read: Option<(u64, usize)>)
    requires
        at <= bytes@.len(),
    ensures
        match read {
            Some((number, next)) => next == at + 8 && next <= bytes@.len() && take_number(
                bytes@.skip(at as int),
            ) == Some((number, bytes@.skip(next as int))),
            None => take_number(bytes@.skip(at as int)) is None,
        },
{
    if bytes.len() - at < 8 {
        return None;
    }
    let field = slice_subrange(bytes, at, at + 8);
    let number: u64 = u64_from_le_bytes(field);
    proof {
        assert(bytes@.skip(at as int).take(8) =~= field@);
        assert(bytes@.skip(at as int).skip(8) =~= bytes@.skip(at + 8));
    }
    Some((number, at + 8))
}

/// Reads the text that starts at `at`, and says where the next field starts.
fn get_text(bytes: &[u8], at: usize) -> (read: Option<(String, usize)>)
    requires
        at <= bytes@.len(),
    ensures
        match read {
            Some((text, next)) => at <= next <= bytes@.len() && take_text(bytes@.skip(at as int))
                == Some((text@, bytes@.skip(next as int))),
            None => take_text(bytes@.skip(at as int)) is None,
        },
{
    let (length, start): (u64, usize) = match get_number(bytes, at) {
        Some(read) => read,
        None => { return None; },
    };
    if length > (bytes.len() - start) as u64 {
        return None;
    }
    let end: usize = start + length as usize;
    let body = slice_to_vec(slice_subrange(bytes, start, end));
    proof {
        assert(bytes@.skip(start as int).take(length as int) =~= body@);
        assert(bytes@.skip(start as int).skip(length as int) =~= bytes@.skip(end as int));
    }
    match text_from_utf8(body) {
        Ok(text) => Some((text, end)),
        Err(_) => None,
    }
}

/// Reads the three numbers that end a record at `at`.
fn get_counters(bytes: &[u8], at: usize) -> (read: Option<(u64, u64, u64)>)
    requires
        at <= bytes@.len(),
    ensures
        read == parse_counters(bytes@.skip(at as int)),
{
    let (first, at1): (u64, usize) = match get_number(bytes, at) {
        Some(read) => read,
        None => { return None; },
    };
    let (second, at2): (u64, usize) = match get_number(bytes, at1) {
        Some(read) => read,
        None => { return None; },
    };
    let (third, at3): (u64, usize) = match get_number(bytes, at2) {
        Some(read) => read,
        None => { return None; },
    };
    if at3 != bytes.len() {
        return None;
    }
    Some((first, second, third))
}

/// Reads a user record; `None` where `bytes` do not hold exactly one.
pub fn decode_user(bytes: &Vec<u8>) -> (user: Option<User>)
    ensures
        match user {
            Some(user) => parse_user(bytes@) == Some(user@),
            None => parse_user(bytes@) is None,
        },
{
    let all = bytes.as_slice();
    assert(all@.skip(0) =~= all@);
    let (id, at1): (u64, usize) = match get_number(all, 0) {
        Some(read) => read,
        None => { return None; },
    };
    let (first_name, at2): (String, usize) = match get_text(all, at1) {
        Some(read) => read,
        None => { return None; },
    };
    let (last_name, at3): (String, usize) = match get_text(all, at2) {
        Some(read) => read,
        None => { return None; },
    };
    let (username, at4): (String, usize) = match get_text(all, at3) {
        Some(read) => read,
        None => { return None; },
    };
    let (email, at5): (String, usize) = match get_text(all, at4) {
        Some(read) => read,
        None => { return None; },
    };
    let (phone_number, at6): (String, usize) = match get_text(all, at5) {
        Some(read) => read,
        None => { return None; },
    };
    let (created_at, balance, points): (u64, u64, u64) = match get_counters(all, at6) {
        Some(read) => read,
        None => { return None; },
    };
    Some(
        User {
            id,
            first_name,
            last_name,
            username,
            email,
            phone_number,
            created_at,
            balance,
            points,
        },
    )
}

/// Reads a transaction record; `None` where `bytes` do not hold exactly
/// one.
pub fn decode_transaction(bytes: &Vec<u8>) -> (transaction: Option<Transaction>)
    ensures
        transaction == parse_transaction(bytes@),
{
    let all = bytes.as_slice();
    assert(all@.skip(0) =~= all@);
    let (id, at1): (u64, usize) = match get_number(all, 0) {
        Some(read) => read,
        None => { return None; },
    };
    let (from_user_id, at2): (u64, usize) = match get_number(all, at1) {
        Some(read) => read,
        None => { return None; },
    };
    let (to_user_id, amount, created_at): (u64, u64, u64) = match get_counters(all, at2) {
        Some(read) => read,
        None => { return None; },
    };
    Some(Transaction { id, from_user_id, to_user_id, amount, created_at })
}

/// A record of the ledger: it is stored as bytes under an identifier of
/// its own.
pub trait Record: Sized {
    /// The record with its texts as sequences of characters.
    type Plain;

    /// The record with its texts as sequences of characters.
    spec fn plain(&self) -> Self::Plain;

    /// The identifier of a record.
    spec fn key(plain: Self::Plain) -> u64;

    /// The record that `bytes` hold, if they hold exactly one.
    spec fn parse(bytes: Seq<u8>) -> Option<Self::Plain>;

    /// Reads a record; `None` where `bytes` do not hold exactly one.
    fn read(bytes: &Vec<u8>) -> (record: Option<Self>)
        ensures
            match record {
                Some(record) => Self::parse(bytes@) == Some(record.plain()),
                None => Self::parse(bytes@) is None,
            },
    ;
}

impl Record for User {
    type Plain = UserView;

    open spec fn plain(&self) -> UserView {
        self@
    }

    open spec fn key(plain: UserView) -> u64 {
        plain.id
    }

    open spec fn parse(bytes: Seq<u8>) -> Option<UserView> {
        parse_user(bytes)
    }

    fn read(bytes: &Vec<u8>) -> (record: Option<User>) {
        decode_user(bytes)
    }
}

impl Record for Transaction {
    type Plain = Transaction;

    open spec fn plain(&self) -> Transaction {
        *self
    }

    open spec fn key(plain: Transaction) -> u64 {
        plain.id
    }

    open spec fn parse(bytes: Seq<u8>) -> Option<Transaction> {
        parse_transaction(bytes)
    }

    fn read(bytes: &Vec<u8>) -> (record: Option<Transaction>) {
        decode_transaction(bytes)
    }
}

} // verus!
