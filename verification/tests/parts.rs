use mailbox::quota::{affordable_charge, can_afford, charge_for_mail};
use mailbox::{
    AccountId, Email, EmailStore, Listing, MailError, MailIndex, StorageKeys, Stored,
    STORAGE_PER_MAIL,
};

fn account(name: &str) -> AccountId {
    AccountId::new(name.to_string())
}

fn email(title: &str) -> Email {
    Email { title: title.to_string(), content: String::new(), timestamp: 0, fee: None }
}

#[test]
fn account_names_compare_by_text() {
    let a = account("alice.near");
    assert!(a.same_as(&account("alice.near")));
    assert!(!a.same_as(&account("alice.neas")));
    assert!(!a.same_as(&account("")));
    assert_eq!(a.as_str(), "alice.near");
    assert_eq!(a.clone(), a);
}

#[test]
fn charge_is_the_reserved_bytes_times_the_cost() {
    assert_eq!(charge_for_mail(0), Some(0));
    assert_eq!(charge_for_mail(7), Some(7 * STORAGE_PER_MAIL));
    assert_eq!(charge_for_mail(u128::MAX / STORAGE_PER_MAIL), Some(u128::MAX / STORAGE_PER_MAIL * STORAGE_PER_MAIL));
    assert_eq!(charge_for_mail(u128::MAX / STORAGE_PER_MAIL + 1), None);
}

#[test]
fn affording_needs_more_than_the_reserve() {
    let per_mail = 3 * STORAGE_PER_MAIL;
    assert!(!can_afford(per_mail, 0, 3));
    assert!(can_afford(per_mail + 1, 0, 3));
    assert!(!can_afford(5 * per_mail, 4, 3));
    assert!(can_afford(5 * per_mail + 1, 4, 3));
    assert!(!can_afford(u128::MAX, u64::MAX, u128::MAX / STORAGE_PER_MAIL));
    assert!(!can_afford(0, 0, 0));
    assert!(can_afford(1, u64::MAX, 0));
}

#[test]
fn index_lists_in_order_and_once() {
    let mut index = MailIndex::new();
    assert_eq!(index.count(&account("a")), 0);
    assert_eq!(index.list(&account("a")), Vec::<u128>::new());
    assert!(!index.contains(&account("a"), 0));

    index.add(&account("a"), 5);
    index.add(&account("b"), 5);
    index.add(&account("a"), 2);
    index.add(&account("a"), 5);

    assert_eq!(index.list(&account("a")), vec![5, 2]);
    assert_eq!(index.list(&account("b")), vec![5]);
    assert_eq!(index.count(&account("a")), 2);
    assert_eq!(index.count(&account("b")), 1);
    assert_eq!(index.count(&account("c")), 0);
    assert!(index.contains(&account("a"), 2));
    assert!(!index.contains(&account("b"), 2));
    assert!(!index.contains(&account("c"), 5));
}

#[test]
fn store_never_reuses_an_identifier() {
    let mut store = EmailStore::new();
    assert_eq!(store.count(), 0);
    assert_eq!(store.created(), 0);
    assert_eq!(store.insert(email("zero")), 0);
    assert_eq!(store.insert(email("one")), 1);
    assert_eq!(store.remove(1), Ok(()));
    assert_eq!(store.remove(0), Ok(()));
    assert_eq!(store.insert(email("two")), 2);
    assert_eq!(store.count(), 1);
    assert_eq!(store.created(), 3);
    assert_eq!(store.get(2), Ok(&email("two")));
    assert_eq!(store.get(0), Err(MailError::NotFound));
}

#[test]
fn store_remove_of_a_missing_message_changes_nothing() {
    let mut store = EmailStore::new();
    store.insert(email("zero"));
    assert_eq!(store.remove(7), Err(MailError::NotFound));
    assert_eq!(store.get(7), Err(MailError::NotFound));
    assert_eq!(store.count(), 1);
    assert_eq!(store.remove(0), Ok(()));
    assert_eq!(store.remove(0), Err(MailError::NotFound));
    assert_eq!(store.count(), 0);
    assert_eq!(store.created(), 1);
}

#[test]
fn store_removes_from_the_middle() {
    let mut store = EmailStore::new();
    store.insert(email("zero"));
    store.insert(email("one"));
    store.insert(email("two"));
    assert_eq!(store.remove(1), Ok(()));
    assert_eq!(store.get(0), Ok(&email("zero")));
    assert_eq!(store.get(1), Err(MailError::NotFound));
    assert_eq!(store.get(2), Ok(&email("two")));
    assert_eq!(store.count(), 2);
}

#[test]
fn storage_keys_are_a_tag_and_the_identifier() {
    assert_eq!(StorageKeys::Sender.into_storage_key(), vec![0]);
    assert_eq!(StorageKeys::Receiver.into_storage_key(), vec![1]);
    assert_eq!(StorageKeys::Email.into_storage_key(), vec![2]);
    assert_eq!(StorageKeys::Account.into_storage_key(), vec![5]);
    assert_eq!(
        StorageKeys::SenderMail { email_id: 0x0102 }.into_storage_key(),
        vec![3, 2, 1, 0, 0, 0, 0, 0, 0, 0, 0, 0, 0, 0, 0, 0, 0]
    );
    let mut high = vec![4u8];
    high.extend_from_slice(&[0; 15]);
    high.push(0x80);
    assert_eq!(StorageKeys::ReceiverMail { email_id: 1 << 127 }.into_storage_key(), high);
}

#[test]
fn index_goes_out_and_comes_back() {
    let mut index = MailIndex::new();
    index.add(&account("a"), 5);
    index.add(&account("b"), 1);
    index.add(&account("a"), 2);
    let listings = index.export();
    assert_eq!(
        listings,
        vec![
            Listing { account: account("a"), ids: vec![5, 2] },
            Listing { account: account("b"), ids: vec![1] },
        ]
    );
    let back = MailIndex::import(listings).unwrap();
    assert_eq!(back.list(&account("a")), vec![5, 2]);
    assert_eq!(back.list(&account("b")), vec![1]);
    assert_eq!(back.count_all(), 3);
}

#[test]
fn index_import_refuses_repeats() {
    let twice = vec![
        Listing { account: account("a"), ids: vec![1] },
        Listing { account: account("a"), ids: vec![2] },
    ];
    assert!(MailIndex::import(twice).is_none());
    let repeated = vec![Listing { account: account("a"), ids: vec![1, 2, 1] }];
    assert!(MailIndex::import(repeated).is_none());
    let empty = vec![Listing { account: account("a"), ids: vec![] }];
    assert_eq!(MailIndex::import(empty).unwrap().count(&account("a")), 0);
}

#[test]
fn index_counts_and_bounds_all_it_lists() {
    let mut index = MailIndex::new();
    assert_eq!(index.count_all(), 0);
    assert!(index.all_below(0));
    index.add(&account("a"), 5);
    index.add(&account("b"), 7);
    index.add(&account("b"), 7);
    index.add(&account("b"), 0);
    assert_eq!(index.count_all(), 3);
    assert!(index.all_below(8));
    assert!(!index.all_below(7));
    assert!(!index.all_below(0));
}

#[test]
fn store_goes_out_and_comes_back() {
    let mut store = EmailStore::new();
    store.insert(email("zero"));
    store.insert(email("one"));
    store.insert(email("two"));
    store.remove(1).unwrap();
    let entries = store.export();
    assert_eq!(
        entries,
        vec![Stored { id: 0, email: email("zero") }, Stored { id: 2, email: email("two") }]
    );
    let mut back = EmailStore::import(entries, 3).unwrap();
    assert_eq!(back.count(), 2);
    assert_eq!(back.created(), 3);
    assert_eq!(back.get(2), Ok(&email("two")));
    assert_eq!(back.insert(email("three")), 3);
}

#[test]
fn store_import_refuses_disorder() {
    let entry = |id: u128| Stored { id, email: email("m") };
    assert!(EmailStore::import(vec![entry(1), entry(0)], 2).is_none());
    assert!(EmailStore::import(vec![entry(1), entry(1)], 2).is_none());
    assert!(EmailStore::import(vec![entry(0), entry(2)], 2).is_none());
    assert!(EmailStore::import(vec![entry(0)], 0).is_none());
    assert!(EmailStore::import(vec![], 0).is_some());
    assert!(EmailStore::import(vec![entry(0), entry(2)], 3).is_some());
}

#[test]
fn index_covers_when_every_identifier_has_one_account() {
    let mut index = MailIndex::new();
    assert!(index.covers(0));
    index.add(&account("a"), 0);
    index.add(&account("b"), 1);
    index.add(&account("a"), 2);
    assert!(index.covers(3));
    index.add(&account("b"), 4);
    assert!(!index.covers(5));
    index.add(&account("c"), 3);
    assert!(index.covers(5));
    index.add(&account("c"), 0);
    assert!(!index.covers(5));
}

#[test]
fn the_charge_comes_with_the_permission() {
    let per_mail = 3 * STORAGE_PER_MAIL;
    assert_eq!(affordable_charge(2 * per_mail, 1, 3), None);
    assert_eq!(affordable_charge(2 * per_mail + 1, 1, 3), Some(per_mail));
    assert_eq!(affordable_charge(1, 7, 0), Some(0));
    assert_eq!(affordable_charge(u128::MAX, 0, u128::MAX), None);
    assert_eq!(
        affordable_charge(u128::MAX, 0, u128::MAX / STORAGE_PER_MAIL - 1),
        Some((u128::MAX / STORAGE_PER_MAIL - 1) * STORAGE_PER_MAIL)
    );
}
