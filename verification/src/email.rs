//! Messages.

use vstd::prelude::*;

verus! {

/// A message as the mailbox holds it.  It is never changed once created.
#[derive(Debug, PartialEq, Eq)]
pub struct Email {
    pub title: String,
    pub content: String,
    /// When the message was created, as the host reported it.
    pub timestamp: u64,
    /// An amount the sender attached; the mailbox stores it and settles
    /// nothing.
    pub fee: Option<u128>,
}

/// What a message is, mathematically.
pub struct EmailView {
    pub title: Seq<char>,
    pub content: Seq<char>,
    pub timestamp: u64,
    pub fee: Option<u128>,
}

impl EmailView {
    /// The message with these parts.
    pub open spec fn new(
        title: Seq<char>,
        content: Seq<char>,
        timestamp: u64,
        fee: Option<u128>,
    ) -> EmailView {
        EmailView { title, content, timestamp, fee }
    }
}

impl View for Email {
    type V = EmailView;

    open spec fn view(&self) -> EmailView {
        EmailView {
            title: self.title@,
            content: self.content@,
            timestamp: self.timestamp,
            fee: self.fee,
        }
    }
}

impl Clone for Email {
    fn clone(&self) -> (copy: Email)
        ensures
            copy@ == self@,
    {
        Email {
            title: self.title.clone(),
            content: self.content.clone(),
            timestamp: self.timestamp,
            fee: self.fee,
        }
    }
}

/// The views of a sequence of messages, in the same order.
pub open spec fn views(emails: Seq<Email>) -> Seq<EmailView> {
    emails.map_values(|e: Email| e@)
}

} // verus!
