//! The keys under which a host stores the parts of a mailbox.
//!
//! A host that keeps each collection under its own prefix needs the prefixes
//! to be told apart: no key's bytes may begin another key's bytes.

use vstd::bytes::{spec_u128_to_le_bytes, u128_to_le_bytes};
use vstd::prelude::*;

verus! {

/// A key for one stored collection.
#[derive(Clone, Copy, Debug, PartialEq, Eq, Structural)]
pub enum StorageKeys {
    /// The index by sender.
    Sender,
    /// The index by receiver.
    Receiver,
    /// The live messages.
    Email,
    /// The identifiers listed for the sender whose first message was
    /// `email_id`.
    SenderMail { email_id: u128 },
    /// The identifiers listed for the receiver whose first message was
    /// `email_id`.
    ReceiverMail { email_id: u128 },
    /// The storage accounts.
    Account,
}

impl StorageKeys {
    /// The byte that tells the kinds of key apart: the position of the kind
    /// in the declaration.
    pub open spec fn tag(self) -> u8 {
        match self {
            StorageKeys::Sender => 0,
            StorageKeys::Receiver => 1,
            StorageKeys::Email => 2,
            StorageKeys::SenderMail { .. } => 3,
            StorageKeys::ReceiverMail { .. } => 4,
            StorageKeys::Account => 5,
        }
    }

    /// The bytes of the key: its tag, then the identifier it carries, if
    /// any, as 16 bytes with the least significant first.
    pub open spec fn bytes(self) -> Seq<u8> {
        match self {
            StorageKeys::SenderMail { email_id } => seq![self.tag()] + spec_u128_to_le_bytes(
                email_id,
            ),
            StorageKeys::ReceiverMail { email_id } => seq![self.tag()] + spec_u128_to_le_bytes(
                email_id,
            ),
            _ => seq![self.tag()],
        }
    }

    /// The bytes of the key.
    pub fn into_storage_key(self) -> (key: Vec<u8>)
        ensures
            key@ == self.bytes(),
    {
        let mut key: Vec<u8> = Vec::new();
        match self {
            StorageKeys::Sender => {
                key.push(0);
            },
            StorageKeys::Receiver => {
                key.push(1);
            },
            StorageKeys::Email => {
                key.push(2);
            },
            StorageKeys::SenderMail { email_id } => {
                key.push(3);
                let mut id = u128_to_le_bytes(email_id);
                key.append(&mut id);
            },
            StorageKeys::ReceiverMail { email_id } => {
                key.push(4);
                let mut id = u128_to_le_bytes(email_id);
                key.append(&mut id);
            },
            StorageKeys::Account => {
                key.push(5);
            },
        }
        assert(key@ =~= self.bytes());
        key
    }

    /// No key's bytes begin another key's bytes; in particular, different
    /// keys have different bytes.
    pub proof fn lemma_prefix_free(self, other: StorageKeys)
        requires
            self.bytes().is_prefix_of(other.bytes()),
        ensures
            self == other,
    {
        vstd::bytes::lemma_auto_spec_u128_to_from_le_bytes();
        let a = self.bytes();
        let b = other.bytes();
        assert(a[0] == b[0]);
        assert(self.tag() == other.tag());
        match (self, other) {
            (StorageKeys::SenderMail { email_id: x }, StorageKeys::SenderMail { email_id: y }) => {
                assert(spec_u128_to_le_bytes(x) =~= a.subrange(1, 17));
                assert(spec_u128_to_le_bytes(y) =~= b.subrange(1, 17));
                assert(a =~= b);
            },
            (
                StorageKeys::ReceiverMail { email_id: x },
                StorageKeys::ReceiverMail { email_id: y },
            ) => {
                assert(spec_u128_to_le_bytes(x) =~= a.subrange(1, 17));
                assert(spec_u128_to_le_bytes(y) =~= b.subrange(1, 17));
                assert(a =~= b);
            },
            _ => {},
        }
    }
}

} // verus!
