//! The store of live messages.
//!
//! The store is the one place that says whether a message exists.  It hands
//! out identifiers in increasing order and never hands one out twice, however
//! many messages are removed in between.

use crate::email::{Email, EmailView};
use crate::error::MailError;
use vstd::prelude::*;

verus! {

/// A live message with its identifier.
#[derive(Debug, PartialEq, Eq)]
pub struct Stored {
    pub id: u128,
    pub email: Email,
}

/// The live messages by identifier, and the count of all that were ever
/// created.
pub struct EmailStore {
    entries: Vec<Stored>,
    next_id: u128,
}

/// Whether entry `i` of `entries` is the message with identifier `id`.
pub open spec fn at(entries: Seq<Stored>, id: u128, i: int) -> bool {
    0 <= i < entries.len() && entries[i].id == id
}

spec fn ids(entries: Seq<Stored>) -> Seq<u128> {
    entries.map_values(|e: Stored| e.id)
}

/// Whether `entries` are held by increasing identifier.
pub open spec fn ascending(entries: Seq<Stored>) -> bool {
    forall|i: int, j: int| 0 <= i < j < entries.len() ==> entries[i].id < entries[j].id
}

/// Whether `entries` can stand for the live messages of a store in which
/// `created` messages were created: they are held by increasing identifier,
/// each below `created`.
pub open spec fn stored_wf(entries: Seq<Stored>, created: nat) -> bool {
    &&& ascending(entries)
    &&& forall|i: int| 0 <= i < entries.len() ==> (#[trigger] entries[i]).id < created
}

/// The live messages that `entries` stand for, by identifier.
pub open spec fn stored_map(entries: Seq<Stored>) -> Map<u128, EmailView> {
    Map::new(
        |id: u128| exists|i: int| at(entries, id, i),
        |id: u128| entries[choose|i: int| at(entries, id, i)].email@,
    )
}

/// Among entries held by increasing identifier, the entry with an
/// identifier is the message that the store gives for it.
pub proof fn lemma_stored(entries: Seq<Stored>, id: u128, i: int)
    requires
        ascending(entries),
        at(entries, id, i),
    ensures
        stored_map(entries).contains_key(id),
        stored_map(entries)[id] == entries[i].email@,
{
    let k = choose|k: int| at(entries, id, k);
    assert(at(entries, id, k));
    assert(k == i);
}

spec fn alike(a: Seq<Stored>, b: Seq<Stored>) -> bool {
    &&& a.len() == b.len()
    &&& forall|i: int| 0 <= i < a.len() ==> (#[trigger] a[i]).id == b[i].id && a[i].email@ == b[i].email@
}

proof fn lemma_alike(a: Seq<Stored>, b: Seq<Stored>, created: nat)
    requires
        alike(a, b),
        stored_wf(a, created),
    ensures
        stored_wf(b, created),
        stored_map(b) == stored_map(a),
{
    assert forall|i: int, j: int| 0 <= i < j < b.len() implies b[i].id < b[j].id by {
        assert(a[i].id == b[i].id);
        assert(a[j].id == b[j].id);
    }
    assert forall|i: int| 0 <= i < b.len() implies (#[trigger] b[i]).id < created by {
        assert(a[i].id == b[i].id);
    }
    assert forall|id: u128, i: int| at(a, id, i) <==> at(b, id, i) by {
        if 0 <= i < a.len() {
            assert(a[i].id == b[i].id);
        }
    }
    assert(stored_map(b) =~= stored_map(a)) by {
        assert forall|id: u128| #[trigger] stored_map(a).contains_key(id) implies stored_map(
            b,
        ).contains_key(id) && stored_map(b)[id] == stored_map(a)[id] by {
            let i = choose|i: int| at(a, id, i);
            assert(at(b, id, i));
            lemma_stored(a, id, i);
            lemma_stored(b, id, i);
            assert(a[i].email@ == b[i].email@);
        }
        assert forall|id: u128| #[trigger] stored_map(b).contains_key(id) implies stored_map(
            a,
        ).contains_key(id) by {
            let i = choose|i: int| at(b, id, i);
            assert(at(a, id, i));
        }
    }
}

proof fn lemma_ascending_lower_bound(entries: Seq<Stored>, i: int)
    requires
        ascending(entries),
        0 <= i < entries.len(),
    ensures
        entries[i].id >= i,
    decreases i,
{
    if i > 0 {
        lemma_ascending_lower_bound(entries, i - 1);
    }
}

impl View for EmailStore {
    type V = Map<u128, EmailView>;

    closed spec fn view(&self) -> Map<u128, EmailView> {
        stored_map(self.entries@)
    }
}

impl EmailStore {
    /// The representation is sound: the messages are held by increasing
    /// identifier, each below the next identifier to hand out.
    pub closed spec fn wf(&self) -> bool {
        stored_wf(self.entries@, self.next_id as nat)
    }

    /// How many messages were ever created, which is also the next
    /// identifier to hand out.
    pub closed spec fn total_created(&self) -> nat {
        self.next_id as nat
    }

    /// Every live message was created: its identifier is below the count of
    /// all created, and the live messages are no more than that count.
    pub proof fn lemma_live_were_created(&self)
        requires
            self.wf(),
        ensures
            self@.dom().finite(),
            self@.dom().len() <= self.total_created(),
            forall|id: u128| #[trigger] self@.contains_key(id) ==> id < self.total_created(),
    {
        self.lemma_count();
        let n = self.entries@.len() as int;
        if n > 0 {
            lemma_ascending_lower_bound(self.entries@, n - 1);
            assert(self.entries@[n - 1].id < self.next_id);
        }
        assert forall|id: u128| #[trigger] self@.contains_key(id) implies id
            < self.total_created() by {
            let i = choose|i: int| at(self.entries@, id, i);
            assert(self.entries@[i].id < self.next_id);
        }
    }

    proof fn lemma_count(&self)
        requires
            self.wf(),
        ensures
            self@.dom().finite(),
            self@.dom().len() == self.entries@.len(),
    {
        let all = ids(self.entries@);
        assert(all.no_duplicates());
        all.unique_seq_to_set();
        vstd::seq_lib::seq_to_set_is_finite(all);
        assert(self@.dom() =~= all.to_set()) by {
            assert forall|id: u128| self@.dom().contains(id) implies all.to_set().contains(
                id,
            ) by {
                let i = choose|i: int| at(self.entries@, id, i);
                assert(all[i] == id);
            }
            assert forall|id: u128| all.to_set().contains(id) implies self@.dom().contains(
                id,
            ) by {
                let i = choose|i: int| 0 <= i < all.len() && all[i] == id;
                assert(at(self.entries@, id, i));
            }
        }
    }

    proof fn lemma_entry(&self, id: u128, i: int)
        requires
            self.wf(),
            at(self.entries@, id, i),
        ensures
            self@.contains_key(id),
            self@[id] == self.entries@[i].email@,
    {
        lemma_stored(self.entries@, id, i);
    }

    /// A store in which nothing was ever created.
    pub fn new() -> (store: EmailStore)
        ensures
            store.wf(),
            store@ == Map::<u128, EmailView>::empty(),
            store.total_created() == 0,
    {
        let store = EmailStore { entries: Vec::new(), next_id: 0 };
        assert(store@ =~= Map::<u128, EmailView>::empty());
        store
    }

    fn find(&self, id: u128) -> (found: Option<usize>)
        ensures
            match found {
                Some(i) => at(self.entries@, id, i as int),
                None => forall|i: int| !at(self.entries@, id, i),
            },
    {
        let mut i: usize = 0;
        while i < self.entries.len()
            invariant
                i <= self.entries@.len(),
                forall|j: int| 0 <= j < i ==> !at(self.entries@, id, j),
            decreases self.entries@.len() - i,
        {
            if self.entries[i].id == id {
                return Some(i);
            }
            i += 1;
        }
        None
    }

    /// Stores `email` under the next unused identifier and returns that
    /// identifier.
    pub fn insert(&mut self, email: Email) -> (id: u128)
        requires
            old(self).wf(),
            old(self).total_created() < u128::MAX,
        ensures
            final(self).wf(),
            id == old(self).total_created(),
            final(self).total_created() == old(self).total_created() + 1,
            final(self)@ == old(self)@.insert(id, email@),
    {
        let ghost before = self.entries@;
        let id: u128 = self.next_id;
        self.entries.push(Stored { id, email });
        self.next_id = id + 1;
        proof {
            let after = self.entries@;
            let last = before.len() as int;
            assert(self.wf()) by {
                assert forall|i: int| 0 <= i < after.len() implies (#[trigger] after[i]).id
                    < self.next_id by {
                    if i < last {
                        assert(after[i] == before[i]);
                    }
                }
                assert forall|i: int, j: int| 0 <= i < j < after.len() implies after[i].id
                    < after[j].id by {
                    assert(after[i] == before[i]);
                    if j < last {
                        assert(after[j] == before[j]);
                    }
                }
            }
            self.lemma_entry(id, last);
            assert(self@ =~= old(self)@.insert(id, email@)) by {
                assert forall|other: u128| other != id implies (#[trigger] self@.contains_key(other)
                    <==> old(self)@.contains_key(other)) by {
                    if self@.contains_key(other) {
                        let k = choose|k: int| at(after, other, k);
                        assert(at(before, other, k));
                    }
                    if old(self)@.contains_key(other) {
                        let k = choose|k: int| at(before, other, k);
                        assert(at(after, other, k));
                    }
                }
                assert forall|other: u128| #[trigger]
                    self@.contains_key(other) && other != id implies self@[other] == old(
                    self,
                )@[other] by {
                    let k = choose|k: int| at(after, other, k);
                    assert(at(before, other, k));
                    old(self).lemma_entry(other, k);
                    self.lemma_entry(other, k);
                }
            }
        }
        id
    }

    /// The live message with identifier `id`.
    pub fn get(&self, id: u128) -> (found: Result<&Email, MailError>)
        requires
            self.wf(),
        ensures
            match found {
                Ok(email) => self@.contains_key(id) && email@ == self@[id],
                Err(e) => e == MailError::NotFound && !self@.contains_key(id),
            },
    {
        match self.find(id) {
            Some(i) => {
                proof {
                    self.lemma_entry(id, i as int);
                }
                Ok(&self.entries[i].email)
            },
            None => Err(MailError::NotFound),
        }
    }

    /// Removes the message with identifier `id`.  Where there is none, the
    /// store is left as it was.
    pub fn remove(&mut self, id: u128) -> (removed: Result<(), MailError>)
        requires
            old(self).wf(),
        ensures
            final(self).wf(),
            final(self).total_created() == old(self).total_created(),
            final(self)@ == old(self)@.remove(id),
            match removed {
                Ok(_) => old(self)@.contains_key(id),
                Err(e) => e == MailError::NotFound && !old(self)@.contains_key(id),
            },
    {
        let ghost before = self.entries@;
        match self.find(id) {
            Some(i) => {
                proof {
                    self.lemma_entry(id, i as int);
                }
                self.entries.remove(i);
                proof {
                    let after = self.entries@;
                    assert forall|k: int| 0 <= k < after.len() implies after[k] == before[if k
                        < i {
                        k
                    } else {
                        k + 1
                    }] by {}
                    assert(self.wf());
                    assert(self@ =~= old(self)@.remove(id)) by {
                        assert forall|other: u128| other != id implies (
                        #[trigger] self@.contains_key(other) <==> old(self)@.contains_key(
                            other,
                        )) by {
                            if self@.contains_key(other) {
                                let k = choose|k: int| at(after, other, k);
                                assert(at(before, other, if k < i { k } else { k + 1 }));
                            }
                            if old(self)@.contains_key(other) {
                                let k = choose|k: int| at(before, other, k);
                                assert(at(after, other, if k < i { k } else { k - 1 }));
                            }
                        }
                        assert(!self@.contains_key(id)) by {
                            if self@.contains_key(id) {
                                let k = choose|k: int| at(after, id, k);
                                assert(at(before, id, if k < i { k } else { k + 1 }));
                            }
                        }
                        assert forall|other: u128| #[trigger]
                            self@.contains_key(other) implies self@[other] == old(
                            self,
                        )@[other] by {
                            let k = choose|k: int| at(after, other, k);
                            let k0 = if k < i { k } else { k + 1 };
                            assert(at(before, other, k0));
                            old(self).lemma_entry(other, k0);
                            self.lemma_entry(other, k);
                        }
                    }
                }
                Ok(())
            },
            None => {
                assert(self@ =~= old(self)@.remove(id));
                Err(MailError::NotFound)
            },
        }
    }

    /// A copy of the live messages, by increasing identifier.
    pub fn export(&self) -> (entries: Vec<Stored>)
        requires
            self.wf(),
        ensures
            stored_wf(entries@, self.total_created()),
            stored_map(entries@) == self@,
    {
        let mut entries: Vec<Stored> = Vec::new();
        let mut i: usize = 0;
        while i < self.entries.len()
            invariant
                i <= self.entries@.len(),
                alike(self.entries@.take(i as int), entries@),
            decreases self.entries@.len() - i,
        {
            let entry = &self.entries[i];
            entries.push(Stored { id: entry.id, email: entry.email.clone() });
            i += 1;
        }
        proof {
            assert(self.entries@.take(self.entries@.len() as int) == self.entries@);
            lemma_alike(self.entries@, entries@, self.total_created());
        }
        entries
    }

    /// The store that holds `entries` and in which `created` messages were
    /// created, where the entries can stand for one.
    pub fn import(entries: Vec<Stored>, created: u128) -> (store: Option<EmailStore>)
        ensures
            store is Some <==> stored_wf(entries@, created as nat),
            store matches Some(st) ==> st.wf() && st@ == stored_map(entries@)
                && st.total_created() == created,
    {
        let mut i: usize = 0;
        while i < entries.len()
            invariant
                i <= entries@.len(),
                forall|a: int, b: int| 0 <= a < b < i ==> entries@[a].id < entries@[b].id,
                forall|a: int| 0 <= a < i ==> (#[trigger] entries@[a]).id < created,
            decreases entries@.len() - i,
        {
            if entries[i].id >= created {
                return None;
            }
            if i > 0 && entries[i - 1].id >= entries[i].id {
                return None;
            }
            i += 1;
        }
        Some(EmailStore { entries, next_id: created })
    }

    /// How many messages are live.
    pub fn count(&self) -> (n: u64)
        requires
            self.wf(),
        ensures
            self@.dom().finite(),
            n == self@.dom().len(),
    {
        proof {
            self.lemma_count();
        }
        self.entries.len() as u64
    }

    /// How many messages were ever created.
    pub fn created(&self) -> (n: u128)
        ensures
            n == self.total_created(),
    {
        self.next_id
    }
}

} // verus!
