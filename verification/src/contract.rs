//! The mailbox service: the operations that callers see.

use crate::account::AccountId;
use crate::email::{views, Email, EmailView};
use crate::error::MailError;
use crate::index::{
    lemma_with_next_id, listed_below, listings_map, listings_wf, lists_each_once, total_ids,
    Listing, MailIndex,
};
use crate::quota::{affordable_charge, can_afford, StorageBalance};
use crate::state::{resolve, MailboxState, Receipt};
use crate::store::{stored_map, stored_wf, EmailStore, Stored};
use vstd::prelude::*;

verus! {

/// A mailbox.
///
/// The storage ledger and the clock are not part of it: an operation that
/// needs what they say is handed it by the caller, and `send_mail` hands back
/// the credit that the caller is to charge.
pub struct Contract {
    senders: MailIndex,
    receivers: MailIndex,
    emails: EmailStore,
    donation_contract_account: Option<AccountId>,
}

/// All that a mailbox holds, as plain values: what a host keeps between
/// calls.
#[derive(Debug, PartialEq, Eq)]
pub struct Snapshot {
    /// The index by sender.
    pub senders: Vec<Listing>,
    /// The index by receiver.
    pub receivers: Vec<Listing>,
    /// The live messages, by increasing identifier.
    pub emails: Vec<Stored>,
    /// How many messages were ever created.
    pub email_count: u128,
    /// The no-fee account, if one was configured.
    pub donation_contract_account: Option<AccountId>,
}

/// The name of an account that may be absent.
pub open spec fn name_of(account: Option<AccountId>) -> Option<Seq<char>> {
    match account {
        Some(a) => Some(a@),
        None => None,
    }
}

impl Snapshot {
    /// The mailbox that the snapshot stands for.
    pub open spec fn state(self) -> MailboxState {
        MailboxState {
            emails: stored_map(self.emails@),
            total_created: self.email_count as nat,
            sent: listings_map(self.senders@),
            received: listings_map(self.receivers@),
            no_fee_account: name_of(self.donation_contract_account),
        }
    }

    /// Whether the snapshot can stand for a mailbox: its parts are well
    /// formed; the identifiers that the senders list are those below the
    /// count of messages created, each listed for one sender, and so for the
    /// receivers; and that count is the number of identifiers that the
    /// senders list.
    pub open spec fn restorable(self) -> bool {
        &&& listings_wf(self.senders@)
        &&& listings_wf(self.receivers@)
        &&& stored_wf(self.emails@, self.email_count as nat)
        &&& listed_below(listings_map(self.senders@), self.email_count as nat)
        &&& listed_below(listings_map(self.receivers@), self.email_count as nat)
        &&& lists_each_once(listings_map(self.senders@), self.email_count as nat)
        &&& lists_each_once(listings_map(self.receivers@), self.email_count as nat)
        &&& total_ids(self.senders@) == self.email_count
    }
}

impl View for Contract {
    type V = MailboxState;

    closed spec fn view(&self) -> MailboxState {
        MailboxState {
            emails: self.emails@,
            total_created: self.emails.total_created(),
            sent: self.senders@,
            received: self.receivers@,
            no_fee_account: name_of(self.donation_contract_account),
        }
    }
}

impl Contract {
    #[verifier::type_invariant]
    spec fn inv(self) -> bool {
        &&& self.senders.wf()
        &&& self.receivers.wf()
        &&& self.emails.wf()
        &&& self.senders.total() == self.emails.total_created()
        &&& listed_below(self.senders@, self.emails.total_created())
        &&& listed_below(self.receivers@, self.emails.total_created())
        &&& lists_each_once(self.senders@, self.emails.total_created())
        &&& lists_each_once(self.receivers@, self.emails.total_created())
    }

    proof fn lemma_valid(self)
        requires
            self.inv(),
        ensures
            self@.valid(),
    {
        self.emails.lemma_live_were_created();
        self.senders.lemma_listed_once();
        self.receivers.lemma_listed_once();
        self.senders.lemma_total_bounded();
    }

    /// A mailbox in which nothing has happened yet.
    pub fn new() -> (contract: Contract)
        ensures
            contract@ == MailboxState::empty(),
            contract@.valid(),
    {
        let contract = Contract {
            senders: MailIndex::new(),
            receivers: MailIndex::new(),
            emails: EmailStore::new(),
            donation_contract_account: None,
        };
        proof {
            contract.lemma_valid();
        }
        contract
    }

    /// All that the mailbox holds, copied out.
    pub fn snapshot(&self) -> (snapshot: Snapshot)
        ensures
            snapshot.restorable(),
            snapshot.state() == self@,
            self@.valid(),
    {
        proof {
            use_type_invariant(self);
            self.lemma_valid();
        }
        Snapshot {
            senders: self.senders.export(),
            receivers: self.receivers.export(),
            emails: self.emails.export(),
            email_count: self.emails.created(),
            donation_contract_account: match &self.donation_contract_account {
                Some(a) => Some(a.clone()),
                None => None,
            },
        }
    }

    /// The mailbox that `snapshot` stands for, where it can stand for one.
    pub fn restore(snapshot: Snapshot) -> (restored: Option<Contract>)
        ensures
            restored is Some <==> snapshot.restorable(),
            restored matches Some(contract) ==> contract@ == snapshot.state() && contract@.valid(),
    {
        let Snapshot { senders, receivers, emails, email_count, donation_contract_account } =
            snapshot;
        let senders = match MailIndex::import(senders) {
            Some(index) => index,
            None => {
                return None;
            },
        };
        let receivers = match MailIndex::import(receivers) {
            Some(index) => index,
            None => {
                return None;
            },
        };
        let emails = match EmailStore::import(emails, email_count) {
            Some(store) => store,
            None => {
                return None;
            },
        };
        if !senders.all_below(email_count) {
            return None;
        }
        if !receivers.all_below(email_count) {
            return None;
        }
        if !senders.covers(email_count) {
            return None;
        }
        if !receivers.covers(email_count) {
            return None;
        }
        if senders.count_all() != email_count {
            return None;
        }
        let contract = Contract { senders, receivers, emails, donation_contract_account };
        proof {
            contract.lemma_valid();
        }
        Some(contract)
    }

    /// Makes `account` the no-fee account: it may send, but never with a fee
    /// attached.
    pub fn add_donation_contract_account(&mut self, account: AccountId)
        ensures
            final(self)@ == old(self)@.configure(account@),
            final(self)@.valid(),
    {
        proof {
            use_type_invariant(&*self);
            self.lemma_valid();
        }
        self.donation_contract_account = Some(account);
    }

    fn is_no_fee_account(&self, account: &AccountId) -> (is: bool)
        ensures
            is == (self@.no_fee_account == Some(account@)),
    {
        match &self.donation_contract_account {
            Some(a) => a.same_as(account),
            None => false,
        }
    }

    /// Whether `account_id` may send one more message, given what the ledger
    /// reports of it and the unit cost of storage.
    pub fn can_send_mail(
        &self,
        account_id: AccountId,
        balance: Option<StorageBalance>,
        byte_cost: u128,
    ) -> (allowed: Result<bool, MailError>)
        ensures
            allowed == self@.can_send(account_id@, balance, byte_cost),
            self@.valid(),
    {
        proof {
            use_type_invariant(self);
            self.lemma_valid();
        }
        match balance {
            None => Err(MailError::AccountNotRegistered),
            Some(b) => Ok(can_afford(b.available, self.senders.count(&account_id), byte_cost)),
        }
    }

    /// Sends a message from `sender` to `receiver`.
    ///
    /// `balance` is what the ledger reports of `sender`, `None` where it is
    /// not registered; `byte_cost` is the unit cost of storage and
    /// `timestamp` the time, both as of this call.  On success the caller
    /// charges `sender`'s used storage with the receipt's `charge`.
    pub fn send_mail(
        &mut self,
        sender: AccountId,
        receiver: AccountId,
        title: String,
        content: String,
        fee: Option<u128>,
        balance: Option<StorageBalance>,
        byte_cost: u128,
        timestamp: u64,
    ) -> (sent: Result<Receipt, MailError>)
        ensures
            sent == old(self)@.send_outcome(sender@, fee, balance, byte_cost),
            final(self)@ == old(self)@.send(
                sender@,
                receiver@,
                EmailView::new(title@, content@, timestamp, fee),
                balance,
                byte_cost,
            ),
            final(self)@.valid(),
    {
        proof {
            use_type_invariant(&*self);
            self.lemma_valid();
        }
        let available: u128 = match balance {
            None => {
                return Err(MailError::AccountNotRegistered);
            },
            Some(b) => b.available,
        };
        let charge: u128 = match affordable_charge(
            available,
            self.senders.count(&sender),
            byte_cost,
        ) {
            Some(charge) => charge,
            None => {
                return Err(MailError::InsufficientStorage);
            },
        };
        if fee.is_some() && self.is_no_fee_account(&sender) {
            return Err(MailError::FeeNotAllowed);
        }
        let mut taken = Contract::new();
        std::mem::swap(self, &mut taken);
        let Contract { mut senders, mut receivers, mut emails, donation_contract_account } = taken;
        proof {
            senders.lemma_total_bounded();
        }
        let ghost created = emails.total_created();
        let id: u128 = emails.insert(Email { title, content, timestamp, fee });
        senders.add(&sender, id);
        receivers.add(&receiver, id);
        proof {
            lemma_with_next_id(old(self)@.sent, sender@, id, created);
            lemma_with_next_id(old(self)@.received, receiver@, id, created);
        }
        *self = Contract { senders, receivers, emails, donation_contract_account };
        proof {
            self.lemma_valid();
        }
        Ok(Receipt { id, charge })
    }

    /// The live message with identifier `email_id`.
    pub fn get_email(&self, email_id: u128) -> (found: Result<Email, MailError>)
        ensures
            match found {
                Ok(email) => self@.fetch(email_id) == Ok::<EmailView, MailError>(email@),
                Err(e) => self@.fetch(email_id) == Err::<EmailView, MailError>(e),
            },
            self@.valid(),
    {
        proof {
            use_type_invariant(self);
            self.lemma_valid();
        }
        match self.emails.get(email_id) {
            Ok(email) => Ok(email.clone()),
            Err(e) => Err(e),
        }
    }

    /// Deletes message `email_id` on behalf of `caller`, who must be recorded
    /// as a sender of it.  The indexes keep listing the identifier, and no
    /// credit comes back.
    pub fn delete_mail(&mut self, caller: AccountId, email_id: u128) -> (deleted: Result<
        (),
        MailError,
    >)
        ensures
            deleted == old(self)@.delete_outcome(caller@, email_id),
            final(self)@ == old(self)@.delete(caller@, email_id),
            final(self)@.valid(),
    {
        proof {
            use_type_invariant(&*self);
            self.lemma_valid();
        }
        if !self.senders.contains(&caller, email_id) {
            return Err(MailError::NotSender);
        }
        let mut taken = Contract::new();
        std::mem::swap(self, &mut taken);
        let Contract { senders, receivers, mut emails, donation_contract_account } = taken;
        let _ = emails.remove(email_id);
        *self = Contract { senders, receivers, emails, donation_contract_account };
        proof {
            self.lemma_valid();
        }
        Ok(())
    }

    /// How many messages are live.
    pub fn mail_exist(&self) -> (n: u64)
        ensures
            n == self@.live_count(),
            self@.valid(),
    {
        proof {
            use_type_invariant(self);
            self.lemma_valid();
        }
        self.emails.count()
    }

    /// How many messages were created and have since been deleted.
    pub fn mail_delete(&self) -> (n: u128)
        ensures
            n == self@.deleted_count(),
            n + self@.live_count() == self@.total_created,
            self@.valid(),
    {
        proof {
            use_type_invariant(self);
            self.lemma_valid();
        }
        let live: u128 = self.emails.count() as u128;
        self.emails.created() - live
    }

    fn collect(&self, ids: &Vec<u128>) -> (mail: Vec<Email>)
        requires
            self.inv(),
        ensures
            views(mail@) == resolve(ids@, self@.emails),
    {
        let mut mail: Vec<Email> = Vec::new();
        let mut i: usize = 0;
        assert(views(mail@) =~= resolve(ids@.take(0), self@.emails));
        while i < ids.len()
            invariant
                self.inv(),
                i <= ids@.len(),
                views(mail@) == resolve(ids@.take(i as int), self@.emails),
            decreases ids@.len() - i,
        {
            let ghost so_far = mail@;
            assert(ids@.take(i + 1).drop_last() == ids@.take(i as int));
            assert(ids@.take(i + 1).last() == ids@[i as int]);
            match self.emails.get(ids[i]) {
                Ok(email) => {
                    let copy = email.clone();
                    mail.push(copy);
                    assert(views(mail@) =~= views(so_far).push(copy@));
                },
                Err(_) => {},
            }
            i += 1;
        }
        assert(ids@.take(ids@.len() as int) == ids@);
        mail
    }

    /// The live messages sent to `receiver`, oldest first.  A listed message
    /// that was deleted is passed over.
    pub fn get_mail_receive(&self, receiver: AccountId) -> (mail: Vec<Email>)
        ensures
            views(mail@) == self@.received_mail(receiver@),
            self@.valid(),
    {
        proof {
            use_type_invariant(self);
            self.lemma_valid();
        }
        let ids = self.receivers.list(&receiver);
        self.collect(&ids)
    }

    /// The live messages that `sender` sent, oldest first.  A listed message
    /// that was deleted is passed over.
    pub fn get_mail_send(&self, sender: AccountId) -> (mail: Vec<Email>)
        ensures
            views(mail@) == self@.sent_mail(sender@),
            self@.valid(),
    {
        proof {
            use_type_invariant(self);
            self.lemma_valid();
        }
        let ids = self.senders.list(&sender);
        self.collect(&ids)
    }

    /// How many messages were ever sent to `receiver`, deleted ones included.
    pub fn get_mail_receive_num(&self, receiver: AccountId) -> (n: u64)
        ensures
            n == self@.received_count(receiver@),
            self@.valid(),
    {
        proof {
            use_type_invariant(self);
            self.lemma_valid();
        }
        self.receivers.count(&receiver)
    }

    /// How many messages `sender` ever sent, deleted ones included.
    pub fn get_mail_send_num(&self, sender: AccountId) -> (n: u64)
        ensures
            n == self@.sent_count(sender@),
            self@.valid(),
    {
        proof {
            use_type_invariant(self);
            self.lemma_valid();
        }
        self.senders.count(&sender)
    }
}

} // verus!
