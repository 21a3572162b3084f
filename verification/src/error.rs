//! The ways in which an operation of the mailbox can fail.

use vstd::prelude::*;

verus! {

/// Why an operation was refused.  A refused operation changes nothing.
#[derive(Clone, Copy, Debug, PartialEq, Eq, Structural)]
pub enum MailError {
    /// The account has no storage balance with the ledger.
    AccountNotRegistered,
    /// The account's available credit does not exceed what its messages
    /// reserve.
    InsufficientStorage,
    /// The no-fee account tried to attach a fee.
    FeeNotAllowed,
    /// The caller is not recorded as a sender of the message.
    NotSender,
    /// No live message has this identifier.
    NotFound,
}

} // verus!
