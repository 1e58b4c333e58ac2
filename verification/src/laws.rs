//! What holds of the ledger whatever is asked of it. Each law is proved of
//! the functions in `rules`, which the operations are verified against.

use crate::ledger::LedgerView;
use crate::message::{
    text_amount_zero, text_balance_overflow, text_email_exists, text_insufficient_balance,
    text_insufficient_points, MessageView,
};
use crate::model::{
    DepositPayload, PointsPayload, Transaction, TransactionPayload, UserPayloadView, UserView,
};
use crate::rules::UNITS_PER_POINT;
use crate::text::{email_well_formed, lowercase_of, phone_well_formed, username_of};
use vstd::prelude::*;

verus! {

/// A ledger that has issued no identifier is consistent and sound.
pub proof fn law_empty_ledger_is_sound()
    ensures
        LedgerView::empty().consistent(),
        LedgerView::empty().sound(),
{
}

/// The next identifier is new: no user and no transfer has it.
pub proof fn law_next_identifier_is_new(ledger: LedgerView)
    requires
        ledger.consistent(),
    ensures
        !ledger.users.contains_key(ledger.next_id),
        !ledger.transactions.contains_key(ledger.next_id),
{
}

/// An operation that is refused changes nothing.
pub proof fn law_refusal_changes_nothing(
    ledger: LedgerView,
    user: UserPayloadView,
    deposit: DepositPayload,
    transfer: TransactionPayload,
    redemption: PointsPayload,
    now: u64,
)
    ensures
        ledger.create_user_refusal(user) is Some ==> ledger.after_create_user(user, now) == ledger,
        ledger.deposit_refusal(deposit) is Some ==> ledger.after_deposit(deposit) == ledger,
        ledger.transfer_refusal(transfer) is Some ==> ledger.after_transfer(transfer, now)
            == ledger,
        ledger.redeem_refusal(redemption) is Some ==> ledger.after_redeem(redemption) == ledger,
{
}

/// A user that was just created has no balance and no points, and is
/// found under the identifier it was given.
pub proof fn law_new_user_has_no_balance(ledger: LedgerView, payload: UserPayloadView, now: u64)
    requires
        ledger.create_user_refusal(payload) is None,
    ensures
        ledger.created_user(payload, now).id == ledger.next_id,
        ledger.after_create_user(payload, now).balance_of(ledger.next_id) == Ok::<u64, MessageView>(
            0,
        ),
        ledger.after_create_user(payload, now).points_of(ledger.next_id) == Ok::<u64, MessageView>(
            0,
        ),
{
}

/// A payload with no empty field, a well-formed email address that no user
/// has and a well-formed phone number is granted, where its user fits into
/// a record and an identifier is left. The user is stored under the next
/// identifier with the email address of the payload, no balance and no
/// points.
pub proof fn law_valid_payload_is_granted(ledger: LedgerView, payload: UserPayloadView, now: u64)
    requires
        !payload.has_empty_field(),
        email_well_formed(payload.email),
        phone_well_formed(payload.phone_number),
        !ledger.email_taken(payload.email),
        payload.fits_with(
            username_of(lowercase_of(payload.first_name), lowercase_of(payload.last_name)),
        ),
        ledger.next_id < u64::MAX,
    ensures
        ledger.create_user_refusal(payload) is None,
        ledger.after_create_user(payload, now).users.contains_key(ledger.next_id),
        ledger.after_create_user(payload, now).users[ledger.next_id] == ledger.created_user(
            payload,
            now,
        ),
        ledger.created_user(payload, now).email == payload.email,
        ledger.created_user(payload, now).balance == 0,
        ledger.created_user(payload, now).points == 0,
{
}

/// A transfer that would take the balance of the recipient or the points
/// of the sender past the greatest number is refused as an error, and so
/// is one for which no identifier is left. It changes nothing.
pub proof fn law_transfer_beyond_all_is_refused(
    ledger: LedgerView,
    payload: TransactionPayload,
    now: u64,
)
    requires
        payload.amount > 0,
        ledger.users.contains_key(payload.from_user_id),
        ledger.users.contains_key(payload.to_user_id),
        ledger.users[payload.from_user_id].balance >= payload.amount,
        (payload.from_user_id != payload.to_user_id && ledger.users[payload.to_user_id].balance
            + payload.amount > u64::MAX) || ledger.users[payload.from_user_id].points
            + payload.amount / UNITS_PER_POINT > u64::MAX || ledger.next_id == u64::MAX,
    ensures
        ledger.transfer_refusal(payload) is Some,
        ledger.transfer_refusal(payload).unwrap() is Error,
        ledger.after_transfer(payload, now) == ledger,
{
}

/// Once a user has been created with an email address, every payload with
/// that address is refused as invalid; one that is well-formed otherwise is
/// told that the address exists.
pub proof fn law_email_is_taken_once(
    ledger: LedgerView,
    first: UserPayloadView,
    second: UserPayloadView,
    now: u64,
)
    requires
        ledger.create_user_refusal(first) is None,
        second.email == first.email,
    ensures
        ledger.after_create_user(first, now).create_user_refusal(second) is Some,
        ledger.after_create_user(first, now).create_user_refusal(second).unwrap()
            is InvalidPayload,
        ledger.create_user_refusal(second) is None ==> ledger.after_create_user(
            first,
            now,
        ).create_user_refusal(second) == Some(MessageView::InvalidPayload(text_email_exists())),
{
    let after = ledger.after_create_user(first, now);
    assert(after.users.contains_key(ledger.next_id));
    assert(after.users[ledger.next_id].email == second.email);
    assert(after.email_taken(second.email));
}

/// A transfer between two different users takes the amount from the
/// balance of the sender and adds it to the balance of the recipient, so
/// the two balances together are what they were.
pub proof fn law_transfer_moves_amount(ledger: LedgerView, payload: TransactionPayload, now: u64)
    requires
        ledger.transfer_refusal(payload) is None,
        payload.from_user_id != payload.to_user_id,
    ensures
        ledger.after_transfer(payload, now).users[payload.from_user_id].balance
            == ledger.users[payload.from_user_id].balance - payload.amount,
        ledger.after_transfer(payload, now).users[payload.to_user_id].balance
            == ledger.users[payload.to_user_id].balance + payload.amount,
        ledger.after_transfer(payload, now).users[payload.from_user_id].balance
            + ledger.after_transfer(payload, now).users[payload.to_user_id].balance
            == ledger.users[payload.from_user_id].balance
            + ledger.users[payload.to_user_id].balance,
{
}

/// A transfer from a user to itself leaves its balance as it was.
pub proof fn law_transfer_to_oneself_keeps_balance(
    ledger: LedgerView,
    payload: TransactionPayload,
    now: u64,
)
    requires
        ledger.transfer_refusal(payload) is None,
        payload.from_user_id == payload.to_user_id,
    ensures
        ledger.after_transfer(payload, now).users[payload.from_user_id].balance
            == ledger.users[payload.from_user_id].balance,
{
}

/// A transfer changes the balance of no user but the sender and the
/// recipient, and the points of no user but the sender: nothing is made
/// and nothing is lost.
pub proof fn law_transfer_touches_two_users(
    ledger: LedgerView,
    payload: TransactionPayload,
    now: u64,
    other: u64,
)
    requires
        ledger.users.contains_key(other),
        other != payload.from_user_id,
    ensures
        ledger.after_transfer(payload, now).users.contains_key(other),
        other != payload.to_user_id ==> ledger.after_transfer(payload, now).users[other]
            == ledger.users[other],
        ledger.after_transfer(payload, now).users[other].points == ledger.users[other].points,
{
}

/// A transfer of nothing is refused as invalid, and changes nothing.
pub proof fn law_zero_amount_is_refused(ledger: LedgerView, payload: TransactionPayload, now: u64)
    requires
        payload.amount == 0,
    ensures
        ledger.transfer_refusal(payload) == Some(MessageView::InvalidPayload(text_amount_zero())),
        ledger.after_transfer(payload, now) == ledger,
{
}

/// A transfer of more than the sender has is refused as an error, and
/// changes nothing.
pub proof fn law_overdraft_is_refused(ledger: LedgerView, payload: TransactionPayload, now: u64)
    requires
        ledger.users.contains_key(payload.from_user_id),
        ledger.users.contains_key(payload.to_user_id),
        ledger.users[payload.from_user_id].balance < payload.amount,
    ensures
        ledger.transfer_refusal(payload) == Some(MessageView::Error(text_insufficient_balance())),
        ledger.after_transfer(payload, now) == ledger,
{
}

/// A transfer awards the sender one point for every ten units, and the
/// rest of the division is dropped.
pub proof fn law_transfer_awards_points(ledger: LedgerView, payload: TransactionPayload, now: u64)
    requires
        ledger.transfer_refusal(payload) is None,
    ensures
        ledger.after_transfer(payload, now).users[payload.from_user_id].points
            == ledger.users[payload.from_user_id].points + payload.amount / UNITS_PER_POINT,
{
}

/// A transfer is written to the log under the identifier that was next,
/// with the payload and the time, and that identifier is then used up.
pub proof fn law_transfer_is_logged(ledger: LedgerView, payload: TransactionPayload, now: u64)
    requires
        ledger.transfer_refusal(payload) is None,
    ensures
        ledger.after_transfer(payload, now).transactions.contains_key(ledger.next_id),
        ledger.after_transfer(payload, now).transactions[ledger.next_id]
            == ledger.transfer_record(payload, now),
        ledger.after_transfer(payload, now).next_id == ledger.next_id + 1,
        ledger.after_transfer(payload, now).has_history(payload.from_user_id),
        ledger.after_transfer(payload, now).has_history(payload.to_user_id),
{
    let after = ledger.after_transfer(payload, now);
    let record = after.transactions[ledger.next_id];
    assert(after.transactions.contains_key(ledger.next_id));
    assert(record.involves(payload.from_user_id) && record.involves(payload.to_user_id));
}

/// A deposit that would take the balance past the greatest number is
/// refused as an error, and changes nothing.
pub proof fn law_deposit_beyond_all_is_refused(ledger: LedgerView, payload: DepositPayload)
    requires
        payload.amount > 0,
        ledger.users.contains_key(payload.user_id),
        ledger.users[payload.user_id].balance + payload.amount > u64::MAX,
    ensures
        ledger.deposit_refusal(payload) == Some(MessageView::Error(text_balance_overflow())),
        ledger.after_deposit(payload) == ledger,
{
}

/// A redemption of more points than the user has is refused as an error,
/// and changes nothing.
pub proof fn law_redeeming_too_much_is_refused(ledger: LedgerView, payload: PointsPayload)
    requires
        ledger.users.contains_key(payload.user_id),
        payload.points > ledger.users[payload.user_id].points,
    ensures
        ledger.redeem_refusal(payload) == Some(MessageView::Error(text_insufficient_points())),
        ledger.after_redeem(payload) == ledger,
        ledger.after_redeem(payload).points_of(payload.user_id) == ledger.points_of(
            payload.user_id,
        ),
{
}

/// A redemption that is granted takes exactly the points from the user and
/// leaves its balance alone.
pub proof fn law_redemption_takes_points(ledger: LedgerView, payload: PointsPayload)
    requires
        ledger.redeem_refusal(payload) is None,
    ensures
        ledger.after_redeem(payload).users[payload.user_id].points
            == ledger.users[payload.user_id].points - payload.points,
        ledger.after_redeem(payload).users[payload.user_id].balance
            == ledger.users[payload.user_id].balance,
{
}

/// A deposit that is granted adds exactly the amount to the balance of the
/// user and leaves its points alone.
pub proof fn law_deposit_adds_amount(ledger: LedgerView, payload: DepositPayload)
    requires
        ledger.deposit_refusal(payload) is None,
    ensures
        ledger.after_deposit(payload).users[payload.user_id].balance
            == ledger.users[payload.user_id].balance + payload.amount,
        ledger.after_deposit(payload).users[payload.user_id].points
            == ledger.users[payload.user_id].points,
{
}

/// There is one history of a user: two lists that both are its history are
/// the same list.
pub proof fn law_history_is_unique(
    ledger: LedgerView,
    user_id: u64,
    first: Seq<Transaction>,
    second: Seq<Transaction>,
)
    requires
        ledger.is_history(user_id, first),
        ledger.is_history(user_id, second),
    ensures
        first == second,
{
    assert forall|i: int| 0 <= i < first.len() implies occurs(second, #[trigger] first[i]) by {
        assert(ledger.transactions.contains_key(first[i].id));
    }
    assert forall|j: int| 0 <= j < second.len() implies occurs(first, #[trigger] second[j]) by {
        assert(ledger.transactions.contains_key(second[j].id));
    }
    lemma_ascending_lists_agree(first, second);
}

/// Whether the identifiers of the list ascend.
pub open spec fn ascending(list: Seq<Transaction>) -> bool {
    forall|i: int, j: int|
        0 <= i < j < list.len() ==> (#[trigger] list[i]).id < (#[trigger] list[j]).id
}

/// Whether `entry` is an entry of `list`.
pub open spec fn occurs(list: Seq<Transaction>, entry: Transaction) -> bool {
    exists|i: int| 0 <= i < list.len() && (#[trigger] list[i]) == entry
}

/// Whether every entry of `list` is an entry of `other`.
pub open spec fn within(list: Seq<Transaction>, other: Seq<Transaction>) -> bool {
    forall|i: int| 0 <= i < list.len() ==> occurs(other, #[trigger] list[i])
}

/// A place at which an entry that occurs in the list stands.
proof fn lemma_place(list: Seq<Transaction>, entry: Transaction) -> (at: int)
    requires
        occurs(list, entry),
    ensures
        0 <= at < list.len(),
        list[at] == entry,
{
    choose|i: int| 0 <= i < list.len() && (#[trigger] list[i]) == entry
}

/// Two lists with ascending identifiers and the same entries are the same
/// list.
pub proof fn lemma_ascending_lists_agree(first: Seq<Transaction>, second: Seq<Transaction>)
    requires
        ascending(first),
        ascending(second),
        within(first, second),
        within(second, first),
    ensures
        first == second,
    decreases first.len(),
{
    if first.len() == 0 {
        if second.len() > 0 {
            assert(occurs(first, second[0]));
            let i = lemma_place(first, second[0]);
        }
        assert(first =~= second);
    } else {
        let last = first.len() - 1;
        assert(occurs(second, first[last]));
        let j = lemma_place(second, first[last]);
        let end = second.len() - 1;
        assert(occurs(first, second[end]));
        let i = lemma_place(first, second[end]);
        assert(second[end] == first[last]) by {
            if j < end {
                assert(second[j].id < second[end].id);
                if i < last {
                    assert(first[i].id < first[last].id);
                }
            }
        }
        let shorter = first.drop_last();
        let other = second.drop_last();
        assert forall|a: int| 0 <= a < shorter.len() implies occurs(
            other,
            #[trigger] shorter[a],
        ) by {
            assert(occurs(second, first[a]));
            let b = lemma_place(second, first[a]);
            assert(first[a].id < first[last].id);
            if b == end {
                assert(false);
            }
            assert(other[b] == shorter[a]);
        }
        assert forall|b: int| 0 <= b < other.len() implies occurs(
            shorter,
            #[trigger] other[b],
        ) by {
            assert(occurs(first, second[b]));
            let a = lemma_place(first, second[b]);
            assert(second[b].id < second[end].id);
            if a == last {
                assert(false);
            }
            assert(shorter[a] == other[b]);
        }
        assert(ascending(shorter)) by {
            assert forall|x: int, y: int| 0 <= x < y < shorter.len() implies (
            #[trigger] shorter[x]).id < (#[trigger] shorter[y]).id by {
                assert(first[x].id < first[y].id);
            }
        }
        assert(ascending(other)) by {
            assert forall|x: int, y: int| 0 <= x < y < other.len() implies (#[trigger] other[x]).id
                < (#[trigger] other[y]).id by {
                assert(second[x].id < second[y].id);
            }
        }
        lemma_ascending_lists_agree(shorter, other);
        assert(first =~= shorter.push(first[last]));
        assert(second =~= other.push(second[end]));
    }
}

/// The balances of all users together. The ledger holds finitely many
/// users.
pub open spec fn total_balance(users: Map<u64, UserView>) -> int
    decreases users.dom().len(),
    when users.dom().finite()
{
    if users.dom().len() == 0 {
        0
    } else {
        let id = users.dom().choose();
        users[id].balance + total_balance(users.remove(id))
    }
}

/// The total is the balance of any one user and the total of the others.
pub proof fn lemma_total_balance_split(users: Map<u64, UserView>, id: u64)
    requires
        users.dom().finite(),
        users.contains_key(id),
    ensures
        total_balance(users) == users[id].balance + total_balance(users.remove(id)),
    decreases users.dom().len(),
{
    let chosen = users.dom().choose();
    if chosen != id {
        lemma_total_balance_split(users.remove(chosen), id);
        lemma_total_balance_split(users.remove(id), chosen);
        assert(users.remove(chosen).remove(id) =~= users.remove(id).remove(chosen));
    }
}

/// Giving one user another balance changes the total by the difference.
pub proof fn lemma_total_balance_update(users: Map<u64, UserView>, id: u64, user: UserView)
    requires
        users.dom().finite(),
        users.contains_key(id),
    ensures
        total_balance(users.insert(id, user)) == total_balance(users) - users[id].balance
            + user.balance,
{
    lemma_total_balance_split(users, id);
    lemma_total_balance_split(users.insert(id, user), id);
    assert(users.insert(id, user).remove(id) =~= users.remove(id));
}

/// A transfer leaves the balances of all users together as they were:
/// what the sender loses the recipient gains.
pub proof fn law_transfer_conserves_total(ledger: LedgerView, payload: TransactionPayload, now: u64)
    requires
        ledger.consistent(),
    ensures
        total_balance(ledger.after_transfer(payload, now).users) == total_balance(ledger.users),
{
    if ledger.transfer_refusal(payload) is None {
        let debited = ledger.debited(payload);
        let credited = ledger.credited(payload);
        lemma_total_balance_update(
            ledger.users,
            payload.from_user_id,
            debited[payload.from_user_id],
        );
        lemma_total_balance_update(debited, payload.to_user_id, credited[payload.to_user_id]);
        lemma_total_balance_update(
            credited,
            payload.from_user_id,
            ledger.rewarded(payload)[payload.from_user_id],
        );
    }
}

/// A deposit that is granted raises the balances of all users together by
/// the amount; creating a user and redeeming points leave them as they
/// were.
pub proof fn law_total_balance_changes_by_deposits(
    ledger: LedgerView,
    user: UserPayloadView,
    deposit: DepositPayload,
    redemption: PointsPayload,
    now: u64,
)
    requires
        ledger.consistent(),
    ensures
        total_balance(ledger.after_deposit(deposit).users) == total_balance(ledger.users) + (
        if ledger.deposit_refusal(deposit) is None {
            deposit.amount as int
        } else {
            0
        }),
        total_balance(ledger.after_create_user(user, now).users) == total_balance(ledger.users),
        total_balance(ledger.after_redeem(redemption).users) == total_balance(ledger.users),
{
    if ledger.deposit_refusal(deposit) is None {
        lemma_total_balance_update(
            ledger.users,
            deposit.user_id,
            ledger.after_deposit(deposit).users[deposit.user_id],
        );
    }
    if ledger.redeem_refusal(redemption) is None {
        lemma_total_balance_update(
            ledger.users,
            redemption.user_id,
            ledger.after_redeem(redemption).users[redemption.user_id],
        );
    }
    if ledger.create_user_refusal(user) is None {
        let after = ledger.after_create_user(user, now).users;
        lemma_total_balance_split(after, ledger.next_id);
        assert(after.remove(ledger.next_id) =~= ledger.users);
    }
}

/// A registration keeps the ledger consistent and sound, and takes
/// nothing back of what it held.
pub proof fn law_registration_keeps_ledger(
    ledger: LedgerView,
    payload: UserPayloadView,
    email_ok: bool,
    phone_ok: bool,
    username: Seq<char>,
    now: u64,
)
    requires
        ledger.consistent(),
        ledger.sound(),
    ensures
        ledger.after_registration(payload, email_ok, phone_ok, username, now).consistent(),
        ledger.after_registration(payload, email_ok, phone_ok, username, now).sound(),
        ledger.after_registration(payload, email_ok, phone_ok, username, now).extends(ledger),
{
    let after = ledger.after_registration(payload, email_ok, phone_ok, username, now);
    if ledger.registration_refusal(payload, email_ok, phone_ok, username) is None {
        assert forall|a: u64, b: u64|
            after.users.contains_key(a) && after.users.contains_key(b) && after.users[a].email
                == after.users[b].email implies a == b by {
            if a != b {
                if a == ledger.next_id {
                    assert(ledger.users.contains_key(b));
                } else if b == ledger.next_id {
                    assert(ledger.users.contains_key(a));
                } else {
                    assert(ledger.users.contains_key(a) && ledger.users.contains_key(b));
                }
            }
        }
    }
}

/// Creating a user keeps the ledger consistent and sound, and takes
/// nothing back of what it held.
pub proof fn law_create_user_keeps_ledger(ledger: LedgerView, payload: UserPayloadView, now: u64)
    requires
        ledger.consistent(),
        ledger.sound(),
    ensures
        ledger.after_create_user(payload, now).consistent(),
        ledger.after_create_user(payload, now).sound(),
        ledger.after_create_user(payload, now).extends(ledger),
{
    law_registration_keeps_ledger(
        ledger,
        payload,
        email_well_formed(payload.email),
        phone_well_formed(payload.phone_number),
        username_of(lowercase_of(payload.first_name), lowercase_of(payload.last_name)),
        now,
    );
}

/// A deposit keeps the ledger consistent and sound, and takes nothing back
/// of what it held.
pub proof fn law_deposit_keeps_ledger(ledger: LedgerView, payload: DepositPayload)
    requires
        ledger.consistent(),
        ledger.sound(),
    ensures
        ledger.after_deposit(payload).consistent(),
        ledger.after_deposit(payload).sound(),
        ledger.after_deposit(payload).extends(ledger),
{
    let after = ledger.after_deposit(payload);
    assert forall|a: u64, b: u64|
        after.users.contains_key(a) && after.users.contains_key(b) && after.users[a].email
            == after.users[b].email implies a == b by {
        assert(ledger.users.contains_key(a) && ledger.users.contains_key(b));
    }
}

/// A transfer keeps the ledger consistent and sound, and takes nothing
/// back of what it held: the log only grows.
pub proof fn law_transfer_keeps_ledger(ledger: LedgerView, payload: TransactionPayload, now: u64)
    requires
        ledger.consistent(),
        ledger.sound(),
    ensures
        ledger.after_transfer(payload, now).consistent(),
        ledger.after_transfer(payload, now).sound(),
        ledger.after_transfer(payload, now).extends(ledger),
{
    let after = ledger.after_transfer(payload, now);
    assert forall|a: u64, b: u64|
        after.users.contains_key(a) && after.users.contains_key(b) && after.users[a].email
            == after.users[b].email implies a == b by {
        assert(ledger.users.contains_key(a) && ledger.users.contains_key(b));
    }
}

/// A redemption keeps the ledger consistent and sound, and takes nothing
/// back of what it held.
pub proof fn law_redeem_keeps_ledger(ledger: LedgerView, payload: PointsPayload)
    requires
        ledger.consistent(),
        ledger.sound(),
    ensures
        ledger.after_redeem(payload).consistent(),
        ledger.after_redeem(payload).sound(),
        ledger.after_redeem(payload).extends(ledger),
{
    let after = ledger.after_redeem(payload);
    assert forall|a: u64, b: u64|
        after.users.contains_key(a) && after.users.contains_key(b) && after.users[a].email
            == after.users[b].email implies a == b by {
        assert(ledger.users.contains_key(a) && ledger.users.contains_key(b));
    }
}

} // verus!
