//! The mailbox as a mathematical value, and what each operation does to it.
//!
//! Every executable operation of [`crate::Contract`] is specified as one of
//! the functions below, applied to the view of the contract before the call.

use crate::email::EmailView;
use crate::error::MailError;
use crate::index::{ids_of, listed_below, listed_once, lists, lists_each_once, with_id};
use crate::quota::{affords, message_cost, StorageBalance};
use vstd::prelude::*;

verus! {

/// What a successful send hands back: the identifier given to the message
/// and the credit to charge the sender's used storage with.
#[derive(Clone, Copy, Debug, PartialEq, Eq, Structural)]
pub struct Receipt {
    pub id: u128,
    pub charge: u128,
}

/// The whole state of a mailbox.
pub struct MailboxState {
    /// The live messages, by identifier.
    pub emails: Map<u128, EmailView>,
    /// How many messages were ever created.  It is also the identifier that
    /// the next message gets.
    pub total_created: nat,
    /// For each account, the identifiers of the messages it sent.
    pub sent: Map<Seq<char>, Seq<u128>>,
    /// For each account, the identifiers of the messages sent to it.
    pub received: Map<Seq<char>, Seq<u128>>,
    /// The account that may send but may never attach a fee, if one was
    /// configured.
    pub no_fee_account: Option<Seq<char>>,
}

/// One operation on a mailbox, with all that it is handed.
pub enum Op {
    /// Makes `account` the no-fee account.
    Configure { account: Seq<char> },
    /// A send by `caller`; `balance` and `byte_cost` are what the ledger and
    /// the cost of storage were when it was made.
    Send {
        caller: Seq<char>,
        receiver: Seq<char>,
        email: EmailView,
        balance: Option<StorageBalance>,
        byte_cost: u128,
    },
    /// A delete of message `id` by `caller`.
    Delete { caller: Seq<char>, id: u128 },
}

/// The messages that the identifiers in `ids` resolve to, in the order of
/// `ids`.  An identifier that no live message has is passed over.
pub open spec fn resolve(ids: Seq<u128>, emails: Map<u128, EmailView>) -> Seq<EmailView>
    decreases ids.len(),
{
    if ids.len() == 0 {
        Seq::empty()
    } else if emails.contains_key(ids.last()) {
        resolve(ids.drop_last(), emails).push(emails[ids.last()])
    } else {
        resolve(ids.drop_last(), emails)
    }
}

impl MailboxState {
    /// The mailbox in which nothing has happened yet.
    pub open spec fn empty() -> MailboxState {
        MailboxState {
            emails: Map::empty(),
            total_created: 0,
            sent: Map::empty(),
            received: Map::empty(),
            no_fee_account: None,
        }
    }

    /// What holds of a mailbox at all times, and keeps the messages and the
    /// two indexes consistent with each other.
    ///
    /// Identifiers are handed out in order, so every identifier that is
    /// stored or listed is below the count of messages created.  Every
    /// identifier below that count, whether its message is live or not, is
    /// listed for exactly one sender and for exactly one receiver, once.  The
    /// count stays below what 128 bits hold.
    pub open spec fn valid(self) -> bool {
        &&& self.emails.dom().finite()
        &&& self.emails.dom().len() <= self.total_created
        &&& forall|id: u128| #[trigger] self.emails.contains_key(id) ==> id < self.total_created
        &&& listed_below(self.sent, self.total_created)
        &&& listed_below(self.received, self.total_created)
        &&& listed_once(self.sent)
        &&& listed_once(self.received)
        &&& lists_each_once(self.sent, self.total_created)
        &&& lists_each_once(self.received, self.total_created)
        &&& self.total_created < u128::MAX
    }

    /// The identifier that the next message gets.
    pub open spec fn next_id(self) -> u128 {
        self.total_created as u128
    }

    /// How many messages are live.
    pub open spec fn live_count(self) -> nat {
        self.emails.dom().len()
    }

    /// How many messages were created and are no longer live.
    pub open spec fn deleted_count(self) -> int {
        self.total_created - self.live_count()
    }

    /// How many messages `account` has sent, deleted ones included.
    pub open spec fn sent_count(self, account: Seq<char>) -> nat {
        ids_of(self.sent, account).len()
    }

    /// How many messages were sent to `account`, deleted ones included.
    pub open spec fn received_count(self, account: Seq<char>) -> nat {
        ids_of(self.received, account).len()
    }

    /// The live messages that `account` sent, oldest first.
    pub open spec fn sent_mail(self, account: Seq<char>) -> Seq<EmailView> {
        resolve(ids_of(self.sent, account), self.emails)
    }

    /// The live messages sent to `account`, oldest first.
    pub open spec fn received_mail(self, account: Seq<char>) -> Seq<EmailView> {
        resolve(ids_of(self.received, account), self.emails)
    }

    /// The message with identifier `id`, while it is live.
    pub open spec fn fetch(self, id: u128) -> Result<EmailView, MailError> {
        if self.emails.contains_key(id) {
            Ok(self.emails[id])
        } else {
            Err(MailError::NotFound)
        }
    }

    /// The mailbox after `account` is made the no-fee account.
    pub open spec fn configure(self, account: Seq<char>) -> MailboxState {
        MailboxState { no_fee_account: Some(account), ..self }
    }

    /// Whether `account` may send one more message, given what the ledger
    /// reports of it (`None` for an account that is not registered) and the
    /// unit cost of storage.
    pub open spec fn can_send(
        self,
        account: Seq<char>,
        balance: Option<StorageBalance>,
        byte_cost: u128,
    ) -> Result<bool, MailError> {
        match balance {
            None => Err(MailError::AccountNotRegistered),
            Some(b) => Ok(
                affords(b.available as nat, self.sent_count(account), byte_cost as nat),
            ),
        }
    }

    /// How a send by `caller` ends.  The checks are made in this order: the
    /// caller is registered; its credit covers one more message; it is not
    /// the no-fee account attaching a fee.
    pub open spec fn send_outcome(
        self,
        caller: Seq<char>,
        fee: Option<u128>,
        balance: Option<StorageBalance>,
        byte_cost: u128,
    ) -> Result<Receipt, MailError> {
        match self.can_send(caller, balance, byte_cost) {
            Err(e) => Err(e),
            Ok(false) => Err(MailError::InsufficientStorage),
            Ok(true) => if fee.is_some() && self.no_fee_account == Some(caller) {
                Err(MailError::FeeNotAllowed)
            } else {
                Ok(Receipt { id: self.next_id(), charge: message_cost(byte_cost as nat) as u128 })
            },
        }
    }

    /// The mailbox after a send by `caller` to `receiver`.  A send that is
    /// refused changes nothing.
    pub open spec fn send(
        self,
        caller: Seq<char>,
        receiver: Seq<char>,
        email: EmailView,
        balance: Option<StorageBalance>,
        byte_cost: u128,
    ) -> MailboxState {
        if self.send_outcome(caller, email.fee, balance, byte_cost) is Ok {
            let id = self.next_id();
            MailboxState {
                emails: self.emails.insert(id, email),
                total_created: self.total_created + 1,
                sent: with_id(self.sent, caller, id),
                received: with_id(self.received, receiver, id),
                no_fee_account: self.no_fee_account,
            }
        } else {
            self
        }
    }

    /// Whether `op` is a send that goes through in this state.
    pub open spec fn accepts_send(self, op: Op) -> bool {
        op matches Op::Send { caller, email, balance, byte_cost, .. } && self.send_outcome(
            caller,
            email.fee,
            balance,
            byte_cost,
        ) is Ok
    }

    /// The mailbox after `op`.
    pub open spec fn step(self, op: Op) -> MailboxState {
        match op {
            Op::Configure { account } => self.configure(account),
            Op::Send { caller, receiver, email, balance, byte_cost } => self.send(
                caller,
                receiver,
                email,
                balance,
                byte_cost,
            ),
            Op::Delete { caller, id } => self.delete(caller, id),
        }
    }

    /// The mailbox after the operations `ops`, made one after the other.
    pub open spec fn run(self, ops: Seq<Op>) -> MailboxState
        decreases ops.len(),
    {
        if ops.len() == 0 {
            self
        } else {
            self.run(ops.drop_last()).step(ops.last())
        }
    }

    /// How many of the operations `ops`, made one after the other from this
    /// state, are sends by `account` that go through.
    pub open spec fn sends_by(self, ops: Seq<Op>, account: Seq<char>) -> nat
        decreases ops.len(),
    {
        if ops.len() == 0 {
            0
        } else {
            let before = self.run(ops.drop_last());
            let made: nat = if before.accepts_send(ops.last()) && ops.last()->Send_caller
                == account {
                1
            } else {
                0
            };
            self.sends_by(ops.drop_last(), account) + made
        }
    }

    /// Whether, in a run of `ops` from this state, operation `k` is a send by
    /// `account` that goes through and gives its message identifier `id`.
    pub open spec fn sends_at(self, ops: Seq<Op>, k: int, account: Seq<char>, id: nat) -> bool {
        &&& 0 <= k < ops.len()
        &&& self.run(ops.take(k)).accepts_send(ops[k])
        &&& ops[k]->Send_caller == account
        &&& self.run(ops.take(k)).total_created == id
    }

    /// How a delete of message `id` by `caller` ends: it is allowed exactly
    /// when `caller` is recorded as a sender of `id`.
    pub open spec fn delete_outcome(self, caller: Seq<char>, id: u128) -> Result<(), MailError> {
        if lists(self.sent, caller, id) {
            Ok(())
        } else {
            Err(MailError::NotSender)
        }
    }

    /// The mailbox after a delete of message `id` by `caller`.  Only the
    /// message goes: both indexes keep listing its identifier.
    pub open spec fn delete(self, caller: Seq<char>, id: u128) -> MailboxState {
        if self.delete_outcome(caller, id) is Ok {
            MailboxState { emails: self.emails.remove(id), ..self }
        } else {
            self
        }
    }
}

} // verus!
