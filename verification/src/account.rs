//! Account identifiers.

use vstd::prelude::*;

verus! {

/// The identifier of an account, as delivered by the host: an opaque name.
///
/// Two identifiers denote the same account exactly when their names are the
/// same sequence of characters, which is what the view of an identifier is.
#[derive(Debug, PartialEq, Eq, Hash)]
pub struct AccountId {
    name: String,
}

impl View for AccountId {
    type V = Seq<char>;

    closed spec fn view(&self) -> Seq<char> {
        self.name@
    }
}

impl Clone for AccountId {
    fn clone(&self) -> (copy: AccountId)
        ensures
            copy@ == self@,
    {
        AccountId { name: self.name.clone() }
    }
}

impl AccountId {
    /// Wraps a name.
    pub fn new(name: String) -> (account: AccountId)
        ensures
            account@ == name@,
    {
        AccountId { name }
    }

    /// The name of the account.
    pub fn as_str(&self) -> (name: &str)
        ensures
            name@ == self@,
    {
        self.name.as_str()
    }

    /// Whether `self` and `other` name the same account.
    pub fn same_as(&self, other: &AccountId) -> (same: bool)
        ensures
            same == (self@ == other@),
    {
        self.name == other.name
    }
}

} // verus!
