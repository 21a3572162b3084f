//! The index from accounts to message identifiers.
//!
//! The mailbox keeps two of these: one by sender and one by receiver.  An
//! account's entry is made when the account is first referred to and is
//! never taken away; an identifier, once listed, stays listed, whatever
//! becomes of the message.  The index never looks at the messages.

use crate::account::AccountId;
use vstd::prelude::*;

verus! {

/// The identifiers listed for one account, in the order in which they were
/// first added.
#[derive(Debug, PartialEq, Eq)]
pub struct Listing {
    pub account: AccountId,
    pub ids: Vec<u128>,
}

/// For each account that was ever referred to, the identifiers listed for
/// it, in the order in which they were first added.
pub struct MailIndex {
    entries: Vec<Listing>,
}

/// The identifiers listed for `account`: none for an account never seen.
pub open spec fn ids_of(index: Map<Seq<char>, Seq<u128>>, account: Seq<char>) -> Seq<u128> {
    if index.contains_key(account) {
        index[account]
    } else {
        Seq::empty()
    }
}

/// Whether `id` is listed for `account`.
pub open spec fn lists(index: Map<Seq<char>, Seq<u128>>, account: Seq<char>, id: u128) -> bool {
    ids_of(index, account).contains(id)
}

/// The index after `id` is listed for `account`.  Listing a pair that is
/// already there changes nothing.
pub open spec fn with_id(index: Map<Seq<char>, Seq<u128>>, account: Seq<char>, id: u128) -> Map<
    Seq<char>,
    Seq<u128>,
> {
    if lists(index, account, id) {
        index
    } else {
        index.insert(account, ids_of(index, account).push(id))
    }
}

/// No account lists an identifier twice.
pub open spec fn listed_once(index: Map<Seq<char>, Seq<u128>>) -> bool {
    forall|account: Seq<char>| #[trigger]
        index.contains_key(account) ==> index[account].no_duplicates()
}

/// Every identifier that `index` lists is below `bound`.
pub open spec fn listed_below(index: Map<Seq<char>, Seq<u128>>, bound: nat) -> bool {
    forall|account: Seq<char>, i: int|
        index.contains_key(account) && 0 <= i < index[account].len() ==> (
        #[trigger] index[account][i]) < bound
}

/// Whether some account lists `id`.
pub open spec fn listed(index: Map<Seq<char>, Seq<u128>>, id: u128) -> bool {
    exists|account: Seq<char>| lists(index, account, id)
}

/// Every identifier below `bound` is listed, and no identifier is listed for
/// two accounts.
pub open spec fn lists_each_once(index: Map<Seq<char>, Seq<u128>>, bound: nat) -> bool {
    &&& forall|id: u128| id < bound ==> #[trigger] listed(index, id)
    &&& forall|a: Seq<char>, b: Seq<char>, id: u128|
        lists(index, a, id) && lists(index, b, id) ==> a == b
}

/// What listing `id` for `account` does to who lists what: the pair is
/// listed, and nothing else changes.
pub proof fn lemma_with_id_lists(
    index: Map<Seq<char>, Seq<u128>>,
    account: Seq<char>,
    id: u128,
    other: Seq<char>,
    x: u128,
)
    ensures
        lists(with_id(index, account, id), other, x) <==> lists(index, other, x) || (other
            == account && x == id),
{
    let grown = with_id(index, account, id);
    if !lists(index, account, id) && other == account {
        let before = ids_of(index, account);
        let after = before.push(id);
        assert(ids_of(grown, account) == after);
        if after.contains(x) {
            let i = choose|i: int| 0 <= i < after.len() && after[i] == x;
            if i < before.len() {
                assert(before[i] == x);
            }
        }
        if before.contains(x) {
            let i = choose|i: int| 0 <= i < before.len() && before[i] == x;
            assert(after[i] == x);
        }
        assert(after[before.len() as int] == id);
    }
}

/// Listing the next identifier keeps an index in order: where every
/// identifier below `bound` is listed once and none from `bound` on, listing
/// `bound` itself leaves every identifier up to it listed once, and none
/// beyond.
pub proof fn lemma_with_next_id(
    index: Map<Seq<char>, Seq<u128>>,
    account: Seq<char>,
    id: u128,
    bound: nat,
)
    requires
        listed_below(index, bound),
        listed_once(index),
        lists_each_once(index, bound),
        id == bound,
    ensures
        !lists(index, account, id),
        listed_below(with_id(index, account, id), bound + 1),
        listed_once(with_id(index, account, id)),
        lists_each_once(with_id(index, account, id), bound + 1),
{
    let grown = with_id(index, account, id);
    assert forall|a: Seq<char>| !lists(index, a, id) by {
        if lists(index, a, id) {
            let i = choose|i: int| 0 <= i < index[a].len() && index[a][i] == id;
            assert(index[a][i] < bound);
        }
    }
    assert forall|a: Seq<char>, i: int|
        grown.contains_key(a) && 0 <= i < grown[a].len() implies (#[trigger] grown[a][i]) < bound
        + 1 by {
        if a == account {
            if i < ids_of(index, account).len() {
                assert(grown[a][i] == index[a][i]);
            }
        } else {
            assert(grown[a][i] == index[a][i]);
        }
    }
    assert forall|a: Seq<char>| #[trigger] grown.contains_key(a) implies grown[a].no_duplicates() by {
        if a == account {
            let before = ids_of(index, account);
            if index.contains_key(account) {
                assert(index[account].no_duplicates());
            }
            assert forall|i: int, j: int|
                0 <= i < grown[a].len() && 0 <= j < grown[a].len() && i != j implies grown[a][i]
                != grown[a][j] by {
                if i < before.len() {
                    assert(before[i] == grown[a][i]);
                    assert(before.contains(grown[a][i]));
                }
                if j < before.len() {
                    assert(before[j] == grown[a][j]);
                    assert(before.contains(grown[a][j]));
                }
            }
        } else {
            assert(index.contains_key(a));
        }
    }
    assert forall|x: u128| x < bound + 1 implies #[trigger] listed(grown, x) by {
        if x == id {
            lemma_with_id_lists(index, account, id, account, id);
        } else {
            assert(listed(index, x));
            let a = choose|a: Seq<char>| lists(index, a, x);
            lemma_with_id_lists(index, account, id, a, x);
        }
    }
    assert forall|a: Seq<char>, b: Seq<char>, x: u128|
        lists(grown, a, x) && lists(grown, b, x) implies a == b by {
        lemma_with_id_lists(index, account, id, a, x);
        lemma_with_id_lists(index, account, id, b, x);
    }
}

/// Whether listing `i` of `entries` is the one for `account`.
pub open spec fn at(entries: Seq<Listing>, account: Seq<char>, i: int) -> bool {
    0 <= i < entries.len() && entries[i].account@ == account
}

/// Whether `entries` can stand for an index: no account has two listings,
/// and no listing holds an identifier twice.
pub open spec fn listings_wf(entries: Seq<Listing>) -> bool {
    &&& forall|i: int, j: int|
        0 <= i < j < entries.len() ==> entries[i].account@ != entries[j].account@
    &&& forall|i: int| 0 <= i < entries.len() ==> (#[trigger] entries[i]).ids@.no_duplicates()
}

/// The index that `entries` stand for.
pub open spec fn listings_map(entries: Seq<Listing>) -> Map<Seq<char>, Seq<u128>> {
    Map::new(
        |account: Seq<char>| exists|i: int| at(entries, account, i),
        |account: Seq<char>| entries[choose|i: int| at(entries, account, i)].ids@,
    )
}

/// How many identifiers `entries` hold, over all accounts.
pub open spec fn total_ids(entries: Seq<Listing>) -> nat
    decreases entries.len(),
{
    if entries.len() == 0 {
        0
    } else {
        total_ids(entries.drop_last()) + entries.last().ids@.len()
    }
}

/// In well-formed listings, the listing of an account is the one that the
/// index gives for it.
pub proof fn lemma_listing(entries: Seq<Listing>, account: Seq<char>, i: int)
    requires
        listings_wf(entries),
        at(entries, account, i),
    ensures
        listings_map(entries).contains_key(account),
        listings_map(entries)[account] == entries[i].ids@,
{
    let k = choose|k: int| at(entries, account, k);
    assert(at(entries, account, k));
    assert(k == i);
}

proof fn lemma_total_ids_bounded(entries: Seq<Listing>)
    ensures
        total_ids(entries) <= entries.len() * usize::MAX,
    decreases entries.len(),
{
    if entries.len() > 0 {
        lemma_total_ids_bounded(entries.drop_last());
        assert(entries.last().ids@.len() == entries.last().ids.len());
        assert((entries.len() - 1) * usize::MAX + usize::MAX == entries.len() * usize::MAX)
            by (nonlinear_arith);
    }
}

proof fn lemma_total_ids_changed(before: Seq<Listing>, after: Seq<Listing>, i: int)
    requires
        before.len() == after.len(),
        0 <= i < before.len(),
        forall|j: int| 0 <= j < before.len() && j != i ==> before[j] == after[j],
    ensures
        total_ids(after) + before[i].ids@.len() == total_ids(before) + after[i].ids@.len(),
    decreases before.len(),
{
    if i == before.len() - 1 {
        assert(before.drop_last() =~= after.drop_last());
    } else {
        lemma_total_ids_changed(before.drop_last(), after.drop_last(), i);
    }
}

spec fn alike(a: Seq<Listing>, b: Seq<Listing>) -> bool {
    &&& a.len() == b.len()
    &&& forall|i: int|
        0 <= i < a.len() ==> (#[trigger] a[i]).account@ == b[i].account@ && a[i].ids@ == b[i].ids@
}

proof fn lemma_alike_total(a: Seq<Listing>, b: Seq<Listing>)
    requires
        alike(a, b),
    ensures
        total_ids(a) == total_ids(b),
    decreases a.len(),
{
    if a.len() > 0 {
        assert(a[a.len() - 1].ids@ == b[a.len() - 1].ids@);
        assert forall|i: int| 0 <= i < a.drop_last().len() implies (#[trigger] a.drop_last()[i]).account@
            == b.drop_last()[i].account@ && a.drop_last()[i].ids@ == b.drop_last()[i].ids@ by {
            assert(a[i].account@ == b[i].account@);
        }
        lemma_alike_total(a.drop_last(), b.drop_last());
    }
}

proof fn lemma_alike(a: Seq<Listing>, b: Seq<Listing>)
    requires
        alike(a, b),
        listings_wf(a),
    ensures
        listings_wf(b),
        listings_map(b) == listings_map(a),
        total_ids(b) == total_ids(a),
{
    lemma_alike_total(a, b);
    assert forall|i: int, j: int| 0 <= i < j < b.len() implies b[i].account@ != b[j].account@ by {
        assert(a[i].account@ == b[i].account@);
        assert(a[j].account@ == b[j].account@);
    }
    assert forall|i: int| 0 <= i < b.len() implies (#[trigger] b[i]).ids@.no_duplicates() by {
        assert(a[i].ids@ == b[i].ids@);
    }
    assert forall|account: Seq<char>, i: int| at(a, account, i) <==> at(b, account, i) by {
        if 0 <= i < a.len() {
            assert(a[i].account@ == b[i].account@);
        }
    }
    assert(listings_map(b) =~= listings_map(a)) by {
        assert forall|account: Seq<char>| #[trigger]
            listings_map(a).contains_key(account) implies listings_map(b).contains_key(account)
            && listings_map(b)[account] == listings_map(a)[account] by {
            let i = choose|i: int| at(a, account, i);
            assert(at(b, account, i));
            lemma_listing(a, account, i);
            lemma_listing(b, account, i);
            assert(a[i].ids@ == b[i].ids@);
        }
        assert forall|account: Seq<char>| #[trigger]
            listings_map(b).contains_key(account) implies listings_map(a).contains_key(account) by {
            let i = choose|i: int| at(b, account, i);
            assert(at(a, account, i));
        }
    }
}

fn no_repeats(ids: &Vec<u128>) -> (ok: bool)
    ensures
        ok == ids@.no_duplicates(),
{
    let mut i: usize = 0;
    while i < ids.len()
        invariant
            i <= ids@.len(),
            forall|a: int, b: int| 0 <= a < b < i ==> ids@[a] != ids@[b],
        decreases ids@.len() - i,
    {
        let mut j: usize = 0;
        while j < i
            invariant
                j <= i < ids@.len(),
                forall|a: int| 0 <= a < j ==> ids@[a] != ids@[i as int],
            decreases i - j,
        {
            if ids[j] == ids[i] {
                return false;
            }
            j += 1;
        }
        i += 1;
    }
    true
}

fn contains_id(ids: &Vec<u128>, id: u128) -> (found: bool)
    ensures
        found == ids@.contains(id),
{
    let mut i: usize = 0;
    while i < ids.len()
        invariant
            i <= ids@.len(),
            forall|j: int| 0 <= j < i ==> ids@[j] != id,
        decreases ids@.len() - i,
    {
        if ids[i] == id {
            return true;
        }
        i += 1;
    }
    false
}

fn copy_ids(ids: &Vec<u128>) -> (copy: Vec<u128>)
    ensures
        copy@ == ids@,
{
    let mut copy: Vec<u128> = Vec::new();
    let mut i: usize = 0;
    while i < ids.len()
        invariant
            i <= ids@.len(),
            copy@ == ids@.take(i as int),
        decreases ids@.len() - i,
    {
        copy.push(ids[i]);
        assert(ids@.take(i + 1) == ids@.take(i as int).push(ids@[i as int]));
        i += 1;
    }
    assert(ids@.take(ids@.len() as int) == ids@);
    copy
}

impl View for MailIndex {
    type V = Map<Seq<char>, Seq<u128>>;

    closed spec fn view(&self) -> Map<Seq<char>, Seq<u128>> {
        listings_map(self.entries@)
    }
}

impl MailIndex {
    /// The representation is sound: no account has two entries, and no entry
    /// lists an identifier twice.
    pub closed spec fn wf(&self) -> bool {
        listings_wf(self.entries@)
    }

    /// How many identifiers the index lists, over all accounts.
    pub closed spec fn total(&self) -> nat {
        total_ids(self.entries@)
    }

    /// A well-formed index lists no identifier twice for an account.
    pub proof fn lemma_listed_once(&self)
        requires
            self.wf(),
        ensures
            listed_once(self@),
    {
        assert forall|account: Seq<char>| #[trigger] self@.contains_key(account) implies self@[account].no_duplicates() by {
            let i = choose|i: int| at(self.entries@, account, i);
            assert(self.entries@[i].ids@.no_duplicates());
        }
    }

    /// However many accounts and identifiers an index holds, their number
    /// stays below what 128 bits can count.
    pub proof fn lemma_total_bounded(&self)
        ensures
            self.total() < u128::MAX,
    {
        lemma_total_ids_bounded(self.entries@);
        assert(self.entries@.len() == self.entries.len());
        assert(self.entries@.len() * usize::MAX <= usize::MAX * usize::MAX) by (nonlinear_arith)
            requires
                self.entries@.len() <= usize::MAX,
        ;
        assert(usize::MAX * usize::MAX < u128::MAX) by (nonlinear_arith)
            requires
                usize::MAX <= 0xffff_ffff_ffff_ffff,
                u128::MAX == 0xffff_ffff_ffff_ffff_ffff_ffff_ffff_ffff,
        ;
    }

    proof fn lemma_entry(&self, account: Seq<char>, i: int)
        requires
            self.wf(),
            at(self.entries@, account, i),
        ensures
            self@.contains_key(account),
            self@[account] == self.entries@[i].ids@,
    {
        lemma_listing(self.entries@, account, i);
    }

    /// An index that has seen no account.
    pub fn new() -> (index: MailIndex)
        ensures
            index.wf(),
            index@ == Map::<Seq<char>, Seq<u128>>::empty(),
            index.total() == 0,
    {
        let index = MailIndex { entries: Vec::new() };
        assert(index@ =~= Map::<Seq<char>, Seq<u128>>::empty());
        index
    }

    fn find(&self, account: &AccountId) -> (found: Option<usize>)
        ensures
            match found {
                Some(i) => at(self.entries@, account@, i as int),
                None => forall|i: int| !at(self.entries@, account@, i),
            },
    {
        let mut i: usize = 0;
        while i < self.entries.len()
            invariant
                i <= self.entries@.len(),
                forall|j: int| 0 <= j < i ==> !at(self.entries@, account@, j),
            decreases self.entries@.len() - i,
        {
            if self.entries[i].account.same_as(account) {
                return Some(i);
            }
            i += 1;
        }
        None
    }

    /// Lists `id` for `account`, making the account's entry on first use.
    pub fn add(&mut self, account: &AccountId, id: u128)
        requires
            old(self).wf(),
        ensures
            final(self).wf(),
            final(self)@ == with_id(old(self)@, account@, id),
            final(self).total() == old(self).total() + (if lists(old(self)@, account@, id) {
                0nat
            } else {
                1nat
            }),
    {
        let ghost before = self.entries@;
        match self.find(account) {
            Some(i) => {
                proof {
                    self.lemma_entry(account@, i as int);
                }
                if !contains_id(&self.entries[i].ids, id) {
                    self.entries[i].ids.push(id);
                    proof {
                        let after = self.entries@;
                        assert(self.wf()) by {
                            assert forall|k: int| 0 <= k < after.len() implies (#[trigger] after[k]).ids@.no_duplicates() by {
                                if k != i {
                                    assert(after[k] == before[k]);
                                }
                            }
                        }
                        self.lemma_entry(account@, i as int);
                        assert forall|other: Seq<char>, k: int| at(after, other, k) <==> at(before, other, k) by {
                            if 0 <= k < before.len() && k != i {
                                assert(after[k] == before[k]);
                            }
                        }
                        assert(self@ =~= with_id(old(self)@, account@, id)) by {
                            assert forall|other: Seq<char>| #[trigger] self@.contains_key(other) && other != account@ implies self@[other] == old(self)@[other] by {
                                let k = choose|k: int| at(after, other, k);
                                assert(at(before, other, k));
                                old(self).lemma_entry(other, k);
                                self.lemma_entry(other, k);
                                assert(after[k] == before[k]);
                            }
                        }
                        lemma_total_ids_changed(before, after, i as int);
                    }
                }
            },
            None => {
                let mut ids: Vec<u128> = Vec::new();
                ids.push(id);
                self.entries.push(Listing { account: account.clone(), ids });
                proof {
                    let after = self.entries@;
                    let last = before.len() as int;
                    assert(after[last].ids@ =~= Seq::<u128>::empty().push(id));
                    assert(after.drop_last() =~= before);
                    assert(!old(self)@.contains_key(account@));
                    assert(self.wf()) by {
                        assert forall|a: int, b: int| 0 <= a < b < after.len() implies after[a].account@ != after[b].account@ by {
                            if b == last {
                                assert(!at(before, account@, a));
                            }
                        }
                    }
                    self.lemma_entry(account@, last);
                    assert(self@ =~= with_id(old(self)@, account@, id)) by {
                        assert forall|other: Seq<char>| other != account@ implies (#[trigger] self@.contains_key(other) <==> old(self)@.contains_key(other)) by {
                            if self@.contains_key(other) {
                                let k = choose|k: int| at(after, other, k);
                                assert(at(before, other, k));
                            }
                            if old(self)@.contains_key(other) {
                                let k = choose|k: int| at(before, other, k);
                                assert(at(after, other, k));
                            }
                        }
                        assert forall|other: Seq<char>| #[trigger] self@.contains_key(other) && other != account@ implies self@[other] == old(self)@[other] by {
                            let k = choose|k: int| at(after, other, k);
                            assert(at(before, other, k));
                            old(self).lemma_entry(other, k);
                            self.lemma_entry(other, k);
                        }
                    }
                }
            },
        }
    }

    /// Whether every identifier that the index lists is below `bound`.
    pub fn all_below(&self, bound: u128) -> (ok: bool)
        requires
            self.wf(),
        ensures
            ok == listed_below(self@, bound as nat),
    {
        let mut i: usize = 0;
        while i < self.entries.len()
            invariant
                self.wf(),
                i <= self.entries@.len(),
                forall|a: int, k: int|
                    0 <= a < i && 0 <= k < self.entries@[a].ids@.len() ==> (
                    #[trigger] self.entries@[a].ids@[k]) < bound,
            decreases self.entries@.len() - i,
        {
            let ids = &self.entries[i].ids;
            let mut k: usize = 0;
            while k < ids.len()
                invariant
                    self.wf(),
                    i < self.entries@.len(),
                    ids@ == self.entries@[i as int].ids@,
                    k <= ids@.len(),
                    forall|b: int| 0 <= b < k ==> ids@[b] < bound,
                decreases ids@.len() - k,
            {
                if ids[k] >= bound {
                    proof {
                        let account = self.entries@[i as int].account@;
                        self.lemma_entry(account, i as int);
                        assert(self@[account][k as int] >= bound);
                    }
                    return false;
                }
                k += 1;
            }
            i += 1;
        }
        proof {
            assert forall|account: Seq<char>, k: int|
                self@.contains_key(account) && 0 <= k < self@[account].len() implies (
            #[trigger] self@[account][k]) < bound by {
                let a = choose|a: int| at(self.entries@, account, a);
                self.lemma_entry(account, a);
                assert(self.entries@[a].ids@[k] < bound);
            }
        }
        true
    }

    /// Whether every identifier below `bound` is listed, and none for two
    /// accounts, in an index that lists none from `bound` on.
    pub fn covers(&self, bound: u128) -> (ok: bool)
        requires
            self.wf(),
            listed_below(self@, bound as nat),
        ensures
            ok == lists_each_once(self@, bound as nat),
    {
        let mut id: u128 = 0;
        while id < bound
            invariant
                self.wf(),
                id <= bound,
                forall|x: u128| x < id ==> #[trigger] listed(self@, x),
                forall|a: Seq<char>, b: Seq<char>, x: u128|
                    x < id && lists(self@, a, x) && lists(self@, b, x) ==> a == b,
            decreases bound - id,
        {
            let mut holder: Option<usize> = None;
            let mut i: usize = 0;
            while i < self.entries.len()
                invariant
                    self.wf(),
                    i <= self.entries@.len(),
                    match holder {
                        Some(h) => h < i && self.entries@[h as int].ids@.contains(id),
                        None => true,
                    },
                    forall|a: int|
                        0 <= a < i && holder != Some(a as usize) ==> !(
                        #[trigger] self.entries@[a]).ids@.contains(id),
                decreases self.entries@.len() - i,
            {
                if contains_id(&self.entries[i].ids, id) {
                    match holder {
                        Some(h) => {
                            proof {
                                let a = self.entries@[h as int].account@;
                                let b = self.entries@[i as int].account@;
                                self.lemma_entry(a, h as int);
                                self.lemma_entry(b, i as int);
                                assert(lists(self@, a, id) && lists(self@, b, id) && a != b);
                            }
                            return false;
                        },
                        None => {
                            holder = Some(i);
                        },
                    }
                }
                i += 1;
            }
            match holder {
                None => {
                    proof {
                        assert forall|a: Seq<char>| !lists(self@, a, id) by {
                            if self@.contains_key(a) {
                                let k = choose|k: int| at(self.entries@, a, k);
                                self.lemma_entry(a, k);
                                assert(!self.entries@[k].ids@.contains(id));
                            }
                        }
                        assert(!listed(self@, id));
                    }
                    return false;
                },
                Some(h) => {
                    proof {
                        let holding = self.entries@[h as int].account@;
                        self.lemma_entry(holding, h as int);
                        assert(lists(self@, holding, id));
                        assert forall|a: Seq<char>| lists(self@, a, id) implies a == holding by {
                            let k = choose|k: int| at(self.entries@, a, k);
                            self.lemma_entry(a, k);
                            assert(self.entries@[k].ids@.contains(id));
                            assert(k == h);
                        }
                    }
                },
            }
            id += 1;
        }
        proof {
            assert forall|a: Seq<char>, b: Seq<char>, x: u128|
                lists(self@, a, x) && lists(self@, b, x) implies a == b by {
                let k = choose|k: int| 0 <= k < self@[a].len() && self@[a][k] == x;
                assert(self@[a][k] < bound);
            }
        }
        true
    }

    /// How many identifiers the index lists, over all accounts.
    pub fn count_all(&self) -> (n: u128)
        ensures
            n == self.total(),
    {
        let mut n: u128 = 0;
        let mut i: usize = 0;
        assert(self.entries@.take(0) =~= Seq::<Listing>::empty());
        while i < self.entries.len()
            invariant
                i <= self.entries@.len(),
                n == total_ids(self.entries@.take(i as int)),
            decreases self.entries@.len() - i,
        {
            proof {
                lemma_total_ids_bounded(self.entries@.take(i as int));
                assert(i * usize::MAX <= (usize::MAX - 1) * usize::MAX) by (nonlinear_arith)
                    requires
                        i <= usize::MAX - 1,
                ;
                assert((usize::MAX - 1) * usize::MAX + usize::MAX < u128::MAX) by (nonlinear_arith)
                    requires
                        usize::MAX <= 0xffff_ffff_ffff_ffff,
                        u128::MAX == 0xffff_ffff_ffff_ffff_ffff_ffff_ffff_ffff,
                ;
                assert(self.entries@.take(i + 1).drop_last() == self.entries@.take(i as int));
                assert(self.entries@.take(i + 1).last() == self.entries@[i as int]);
            }
            n = n + self.entries[i].ids.len() as u128;
            i += 1;
        }
        assert(self.entries@.take(self.entries@.len() as int) == self.entries@);
        n
    }

    /// A copy of all the listings, in the order in which the accounts were
    /// first seen.
    pub fn export(&self) -> (listings: Vec<Listing>)
        requires
            self.wf(),
        ensures
            listings_wf(listings@),
            listings_map(listings@) == self@,
            total_ids(listings@) == self.total(),
    {
        let mut listings: Vec<Listing> = Vec::new();
        let mut i: usize = 0;
        while i < self.entries.len()
            invariant
                i <= self.entries@.len(),
                alike(self.entries@.take(i as int), listings@),
            decreases self.entries@.len() - i,
        {
            let entry = &self.entries[i];
            listings.push(Listing { account: entry.account.clone(), ids: copy_ids(&entry.ids) });
            i += 1;
        }
        proof {
            assert(self.entries@.take(self.entries@.len() as int) == self.entries@);
            lemma_alike(self.entries@, listings@);
        }
        listings
    }

    /// The index that `listings` stand for, where they can stand for one.
    pub fn import(listings: Vec<Listing>) -> (index: Option<MailIndex>)
        ensures
            index is Some <==> listings_wf(listings@),
            index matches Some(ix) ==> ix.wf() && ix@ == listings_map(listings@) && ix.total()
                == total_ids(listings@),
    {
        let mut i: usize = 0;
        while i < listings.len()
            invariant
                i <= listings@.len(),
                forall|a: int, b: int| 0 <= a < b < i ==> listings@[a].account@ != listings@[b].account@,
                forall|a: int| 0 <= a < i ==> (#[trigger] listings@[a]).ids@.no_duplicates(),
            decreases listings@.len() - i,
        {
            if !no_repeats(&listings[i].ids) {
                return None;
            }
            let mut j: usize = 0;
            while j < i
                invariant
                    j <= i < listings@.len(),
                    forall|a: int| 0 <= a < j ==> listings@[a].account@ != listings@[i as int].account@,
                decreases i - j,
            {
                if listings[j].account.same_as(&listings[i].account) {
                    return None;
                }
                j += 1;
            }
            i += 1;
        }
        Some(MailIndex { entries: listings })
    }

    /// Whether `id` is listed for `account`.
    pub fn contains(&self, account: &AccountId, id: u128) -> (found: bool)
        requires
            self.wf(),
        ensures
            found == lists(self@, account@, id),
    {
        match self.find(account) {
            Some(i) => {
                proof {
                    self.lemma_entry(account@, i as int);
                }
                contains_id(&self.entries[i].ids, id)
            },
            None => false,
        }
    }

    /// How many identifiers are listed for `account`: zero for an account
    /// never seen.
    pub fn count(&self, account: &AccountId) -> (n: u64)
        requires
            self.wf(),
        ensures
            n == ids_of(self@, account@).len(),
    {
        match self.find(account) {
            Some(i) => {
                proof {
                    self.lemma_entry(account@, i as int);
                }
                self.entries[i].ids.len() as u64
            },
            None => 0,
        }
    }

    /// The identifiers listed for `account`, in the order in which they were
    /// first added.
    pub fn list(&self, account: &AccountId) -> (ids: Vec<u128>)
        requires
            self.wf(),
        ensures
            ids@ == ids_of(self@, account@),
    {
        match self.find(account) {
            Some(i) => {
                proof {
                    self.lemma_entry(account@, i as int);
                }
                copy_ids(&self.entries[i].ids)
            },
            None => Vec::new(),
        }
    }
}

} // verus!
