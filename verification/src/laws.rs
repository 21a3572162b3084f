//! What holds of every mailbox, proved from the model in [`crate::state`].

use crate::email::EmailView;
use crate::error::MailError;
use crate::index::{lemma_with_id_lists, lemma_with_next_id, lists};
use crate::quota::{StorageBalance, STORAGE_PER_MAIL};
use crate::state::{MailboxState, Op};
use vstd::prelude::*;

verus! {

/// Validity is kept by every operation, as long as identifiers have not run
/// out.
pub proof fn law_valid_is_kept(state: MailboxState, op: Op)
    requires
        state.valid(),
        state.step(op).total_created < u128::MAX,
    ensures
        state.step(op).valid(),
{
    match op {
        Op::Configure { account } => {},
        Op::Send { caller, receiver, email, balance, byte_cost } => {
            if state.accepts_send(op) {
                let id = state.next_id();
                lemma_with_next_id(state.sent, caller, id, state.total_created);
                lemma_with_next_id(state.received, receiver, id, state.total_created);
                assert(!state.emails.dom().contains(id));
            }
        },
        Op::Delete { caller, id } => {
            if state.emails.dom().contains(id) {
                assert(state.emails.remove(id).dom().len() < state.emails.dom().len());
            } else {
                assert(state.emails.remove(id) =~= state.emails);
            }
        },
    }
}

/// Validity is kept by every run of operations, as long as identifiers have
/// not run out.
pub proof fn law_valid_along_run(start: MailboxState, ops: Seq<Op>)
    requires
        start.valid(),
        start.run(ops).total_created < u128::MAX,
    ensures
        start.run(ops).valid(),
    decreases ops.len(),
{
    if ops.len() > 0 {
        law_valid_along_run(start, ops.drop_last());
        law_valid_is_kept(start.run(ops.drop_last()), ops.last());
    }
}

proof fn lemma_created_never_falls(start: MailboxState, ops: Seq<Op>, i: int, j: int)
    requires
        0 <= i <= j <= ops.len(),
    ensures
        start.run(ops.take(i)).total_created <= start.run(ops.take(j)).total_created,
    decreases j - i,
{
    if i < j {
        lemma_created_never_falls(start, ops, i, j - 1);
        assert(ops.take(j).drop_last() == ops.take(j - 1));
        assert(ops.take(j).last() == ops[j - 1]);
    }
}

/// Identifiers strictly increase: of two sends that go through in one run of
/// operations, whatever else happens in between, deletes included, the later
/// one finds more messages created, and is given the greater identifier as
/// long as identifiers have not run out.  So no identifier is given twice.
pub proof fn law_identifiers_increase(start: MailboxState, ops: Seq<Op>, i: int, j: int)
    requires
        0 <= i < j < ops.len(),
        start.run(ops.take(i)).accepts_send(ops[i]),
        start.run(ops.take(j)).accepts_send(ops[j]),
    ensures
        start.run(ops.take(i)).total_created < start.run(ops.take(j)).total_created,
        start.run(ops.take(j)).total_created <= u128::MAX ==> start.run(ops.take(i)).next_id()
            < start.run(ops.take(j)).next_id(),
{
    assert(ops.take(i + 1).drop_last() == ops.take(i));
    assert(ops.take(i + 1).last() == ops[i]);
    assert(start.run(ops.take(i + 1)).total_created == start.run(ops.take(i)).total_created + 1);
    lemma_created_never_falls(start, ops, i + 1, j);
}

/// What a send requires of the sender's credit: more than the cost of one
/// message times one more than the number of messages the sender ever sent.
/// Deleting changes neither that number nor, therefore, what is required.
pub proof fn law_quota_counts_every_send(
    state: MailboxState,
    account: Seq<char>,
    balance: StorageBalance,
    byte_cost: u128,
    caller: Seq<char>,
    id: u128,
)
    ensures
        state.can_send(account, Some(balance), byte_cost) == Ok::<bool, MailError>(
            balance.available > (state.sent_count(account) + 1) * (STORAGE_PER_MAIL * byte_cost),
        ),
        state.delete(caller, id).sent_count(account) == state.sent_count(account),
        state.delete(caller, id).can_send(account, Some(balance), byte_cost) == state.can_send(
            account,
            Some(balance),
            byte_cost,
        ),
{
}

/// A send that goes through stores the message under the identifier on its
/// receipt and lists that identifier for the sender and for the receiver.
pub proof fn law_send_stores_and_lists(
    state: MailboxState,
    caller: Seq<char>,
    receiver: Seq<char>,
    email: EmailView,
    balance: Option<StorageBalance>,
    byte_cost: u128,
)
    requires
        state.send_outcome(caller, email.fee, balance, byte_cost) is Ok,
    ensures
        ({
            let id = state.send_outcome(caller, email.fee, balance, byte_cost)->Ok_0.id;
            let after = state.send(caller, receiver, email, balance, byte_cost);
            &&& after.fetch(id) == Ok::<EmailView, MailError>(email)
            &&& lists(after.sent, caller, id)
            &&& lists(after.received, receiver, id)
            &&& after.total_created == state.total_created + 1
        }),
{
    let id = state.total_created as u128;
    lemma_with_id_lists(state.sent, caller, id, caller, id);
    lemma_with_id_lists(state.received, receiver, id, receiver, id);
}

/// A send that goes through raises the sender's count of sent messages by
/// exactly one, and no other account's.
pub proof fn law_send_is_counted(
    state: MailboxState,
    caller: Seq<char>,
    receiver: Seq<char>,
    email: EmailView,
    balance: Option<StorageBalance>,
    byte_cost: u128,
    account: Seq<char>,
)
    requires
        state.valid(),
        state.send_outcome(caller, email.fee, balance, byte_cost) is Ok,
    ensures
        state.send(caller, receiver, email, balance, byte_cost).sent_count(account)
            == state.sent_count(account) + (if account == caller {
            1nat
        } else {
            0nat
        }),
{
    let id = state.total_created as u128;
    if lists(state.sent, caller, id) {
        let i = choose|i: int| 0 <= i < state.sent[caller].len() && state.sent[caller][i] == id;
        assert(state.sent[caller][i] < state.total_created);
    }
}

/// The count of messages that an account sent is the count of its sends that
/// went through: after a run of operations, as long as identifiers have not
/// run out, it has grown by the number of such sends in the run, whatever was
/// deleted.
pub proof fn law_sent_count_is_sends_made(start: MailboxState, ops: Seq<Op>, account: Seq<char>)
    requires
        start.valid(),
        start.run(ops).total_created < u128::MAX,
    ensures
        start.run(ops).sent_count(account) == start.sent_count(account) + start.sends_by(
            ops,
            account,
        ),
    decreases ops.len(),
{
    if ops.len() > 0 {
        let before = start.run(ops.drop_last());
        law_valid_along_run(start, ops.drop_last());
        law_sent_count_is_sends_made(start, ops.drop_last(), account);
        match ops.last() {
            Op::Send { caller, receiver, email, balance, byte_cost } => {
                if before.accepts_send(ops.last()) {
                    law_send_is_counted(before, caller, receiver, email, balance, byte_cost, account);
                }
            },
            _ => {},
        }
    }
}

/// The count of messages that an account sent never falls, whatever
/// operations follow, and deletes leave it as it is.
pub proof fn law_sent_count_never_falls(start: MailboxState, ops: Seq<Op>, account: Seq<char>)
    ensures
        start.run(ops).sent_count(account) >= start.sent_count(account),
        (forall|k: int| 0 <= k < ops.len() ==> ops[k] is Delete) ==> start.run(ops).sent_count(
            account,
        ) == start.sent_count(account),
    decreases ops.len(),
{
    if ops.len() > 0 {
        law_sent_count_never_falls(start, ops.drop_last(), account);
        let before = start.run(ops.drop_last());
        if forall|k: int| 0 <= k < ops.len() ==> ops[k] is Delete {
            assert forall|k: int| 0 <= k < ops.drop_last().len() implies ops.drop_last()[k] is Delete by {
                assert(ops.drop_last()[k] == ops[k]);
            }
        }
    }
}

/// A delete goes through exactly for a caller that is recorded as a sender
/// of the message.  For any other caller it is refused as not the sender,
/// nothing changes, and so the message can be fetched as before.
pub proof fn law_delete_is_for_the_sender(state: MailboxState, caller: Seq<char>, id: u128)
    ensures
        state.delete_outcome(caller, id) is Ok <==> lists(state.sent, caller, id),
        !lists(state.sent, caller, id) ==> {
            &&& state.delete_outcome(caller, id) == Err::<(), MailError>(MailError::NotSender)
            &&& state.delete(caller, id) == state
            &&& state.delete(caller, id).fetch(id) == state.fetch(id)
        },
{
}

/// Every message has one sender, and only that sender may delete it: any
/// other caller is refused as not the sender, nothing changes, and so the
/// message can be fetched as before.
pub proof fn law_only_the_sender_deletes(
    state: MailboxState,
    sender: Seq<char>,
    other: Seq<char>,
    id: u128,
)
    requires
        state.valid(),
        lists(state.sent, sender, id),
        other != sender,
    ensures
        state.delete_outcome(sender, id) is Ok,
        state.delete_outcome(other, id) == Err::<(), MailError>(MailError::NotSender),
        state.delete(other, id) == state,
        state.delete(other, id).fetch(id) == state.fetch(id),
{
}

/// Every identifier that was given to a message stays listed for a sender
/// and for a receiver, and so every live message can be deleted by someone.
pub proof fn law_every_message_has_a_sender(state: MailboxState, id: u128)
    requires
        state.valid(),
        id < state.total_created,
    ensures
        exists|sender: Seq<char>| state.delete_outcome(sender, id) is Ok,
        crate::index::listed(state.sent, id),
        crate::index::listed(state.received, id),
{
    assert(crate::index::listed(state.sent, id));
    let sender = choose|sender: Seq<char>| lists(state.sent, sender, id);
    assert(state.delete_outcome(sender, id) is Ok);
}

/// Who is recorded as a sender: after a run of operations that stays within
/// 128-bit identifiers, an account lists an identifier exactly if it listed
/// it before the run, or some send in the run, made by that account, went
/// through and was given that identifier.
pub proof fn law_sender_is_who_sent(
    start: MailboxState,
    ops: Seq<Op>,
    account: Seq<char>,
    id: u128,
)
    requires
        start.run(ops).total_created <= u128::MAX,
    ensures
        lists(start.run(ops).sent, account, id) <==> lists(start.sent, account, id) || exists|
            k: int,
        |
            start.sends_at(ops, k, account, id as nat),
    decreases ops.len(),
{
    if ops.len() > 0 {
        let init = ops.drop_last();
        let last = ops.last();
        let before = start.run(init);
        assert(ops.take(ops.len() - 1) == init);
        assert(ops.take(ops.len() as int) == ops);
        lemma_created_never_falls(start, ops, ops.len() - 1, ops.len() as int);
        law_sender_is_who_sent(start, init, account, id);
        assert forall|k: int| 0 <= k < init.len() implies (start.sends_at(init, k, account, id as nat)
            <==> start.sends_at(ops, k, account, id as nat)) by {
            assert(init.take(k) == ops.take(k));
            assert(init[k] == ops[k]);
        }
        let n = ops.len() - 1;
        if before.accepts_send(last) {
            let given = before.total_created as u128;
            lemma_with_id_lists(before.sent, last->Send_caller, given, account, id);
            if start.sends_at(ops, n, account, id as nat) {
                assert(lists(start.run(ops).sent, account, id));
            }
            if lists(start.run(ops).sent, account, id) && !lists(before.sent, account, id) {
                assert(start.sends_at(ops, n, account, id as nat));
            }
        } else {
            assert(start.run(ops).sent == before.sent);
            assert(!start.sends_at(ops, n, account, id as nat));
        }
        if exists|k: int| start.sends_at(ops, k, account, id as nat) {
            let k = choose|k: int| start.sends_at(ops, k, account, id as nat);
            if k < n {
                assert(start.sends_at(init, k, account, id as nat));
            }
        }
        if exists|k: int| start.sends_at(init, k, account, id as nat) {
            let k = choose|k: int| start.sends_at(init, k, account, id as nat);
            assert(start.sends_at(ops, k, account, id as nat));
        }
    }
}

/// The counts add up: the messages deleted and the messages live are all the
/// messages that were ever created.
pub proof fn law_counts_add_up(state: MailboxState)
    requires
        state.valid(),
    ensures
        state.deleted_count() >= 0,
        state.deleted_count() + state.live_count() == state.total_created,
{
}

/// A delete that goes through takes the message and leaves the indexes:
/// every account's counts of sent and received messages are what they were,
/// and the message can no longer be fetched.
pub proof fn law_delete_leaves_index(
    state: MailboxState,
    caller: Seq<char>,
    id: u128,
    account: Seq<char>,
)
    requires
        lists(state.sent, caller, id),
    ensures
        state.delete(caller, id).sent_count(account) == state.sent_count(account),
        state.delete(caller, id).received_count(account) == state.received_count(account),
        lists(state.delete(caller, id).sent, caller, id),
        state.delete(caller, id).fetch(id) == Err::<EmailView, MailError>(MailError::NotFound),
{
}

/// Once an account is made the no-fee account, no send of its own with a fee
/// attached goes through, and the mailbox stays as it was.  The refusal is
/// for the fee exactly when the account is registered and its credit covers
/// the message; otherwise the earlier check refuses first.
pub proof fn law_no_fee_account_sends_free(
    state: MailboxState,
    account: Seq<char>,
    receiver: Seq<char>,
    email: EmailView,
    balance: Option<StorageBalance>,
    byte_cost: u128,
)
    requires
        email.fee is Some,
    ensures
        ({
            let configured = state.configure(account);
            let outcome = configured.send_outcome(account, email.fee, balance, byte_cost);
            &&& outcome is Err
            &&& configured.send(account, receiver, email, balance, byte_cost) == configured
            &&& configured.can_send(account, balance, byte_cost) == Ok::<bool, MailError>(true)
                <==> outcome == Err::<crate::state::Receipt, MailError>(MailError::FeeNotAllowed)
        }),
{
}

} // verus!
