//! The storage budget of an account.
//!
//! Every message reserves [`STORAGE_PER_MAIL`] bytes at the unit cost of the
//! moment.  An account may send one more message only while its available
//! credit exceeds what all the messages it has ever sent, and the new one,
//! reserve at that cost.  Deleting a message frees nothing.

use vstd::prelude::*;

verus! {

/// The bytes of storage that one message reserves.
pub const STORAGE_PER_MAIL: u128 = 1000;

/// What the storage ledger reports of a registered account, in credit units.
#[derive(Clone, Copy, Debug, PartialEq, Eq, Structural)]
pub struct StorageBalance {
    pub total: u128,
    pub available: u128,
}

/// The credit that one message reserves at `byte_cost` per byte.
pub open spec fn message_cost(byte_cost: nat) -> nat {
    STORAGE_PER_MAIL as nat * byte_cost
}

/// The credit that an account must exceed to send one more message, when it
/// has already sent `sent` messages.
pub open spec fn required_credit(sent: nat, byte_cost: nat) -> nat {
    (sent + 1) * message_cost(byte_cost)
}

/// Whether `available` credit covers one more message.  The comparison is
/// strict: credit equal to what is required is not enough.
pub open spec fn affords(available: nat, sent: nat, byte_cost: nat) -> bool {
    available > required_credit(sent, byte_cost)
}

/// The credit to charge for one message, where it fits in 128 bits.
pub fn charge_for_mail(byte_cost: u128) -> (charge: Option<u128>)
    ensures
        charge == (if message_cost(byte_cost as nat) <= u128::MAX {
            Some(message_cost(byte_cost as nat) as u128)
        } else {
            None
        }),
{
    STORAGE_PER_MAIL.checked_mul(byte_cost)
}

/// The credit to charge an account for one more message, where the account
/// may send one: it has `available` credit, has sent `sent` messages so far,
/// and storage costs `byte_cost` per byte.
pub fn affordable_charge(available: u128, sent: u64, byte_cost: u128) -> (charge: Option<u128>)
    ensures
        charge == (if affords(available as nat, sent as nat, byte_cost as nat) {
            Some(message_cost(byte_cost as nat) as u128)
        } else {
            None
        }),
{
    let count: u128 = sent as u128 + 1;
    assert(required_credit(sent as nat, byte_cost as nat) >= message_cost(byte_cost as nat))
        by (nonlinear_arith)
        requires
            required_credit(sent as nat, byte_cost as nat) == (sent as nat + 1) * message_cost(
                byte_cost as nat,
            ),
    ;
    let per_mail: u128 = match charge_for_mail(byte_cost) {
        Some(per_mail) => per_mail,
        None => {
            return None;
        },
    };
    match count.checked_mul(per_mail) {
        Some(required) => if available > required {
            Some(per_mail)
        } else {
            None
        },
        None => None,
    }
}

/// Decides whether an account with `available` credit that has sent `sent`
/// messages so far may send one more at `byte_cost` per byte.
pub fn can_afford(available: u128, sent: u64, byte_cost: u128) -> (ok: bool)
    ensures
        ok == affords(available as nat, sent as nat, byte_cost as nat),
{
    affordable_charge(available, sent, byte_cost).is_some()
}

} // verus!
