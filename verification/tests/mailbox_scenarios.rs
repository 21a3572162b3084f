use mailbox::{AccountId, Contract, Email, MailError, Receipt, StorageBalance, STORAGE_PER_MAIL};

const BYTE_COST: u128 = 10_000_000_000_000_000_000;

fn account(name: &str) -> AccountId {
    AccountId::new(name.to_string())
}

fn credit(available: u128) -> Option<StorageBalance> {
    Some(StorageBalance { total: available, available })
}

fn send(
    contract: &mut Contract,
    from: &str,
    to: &str,
    title: &str,
    content: &str,
    available: u128,
) -> Result<Receipt, MailError> {
    contract.send_mail(
        account(from),
        account(to),
        title.to_string(),
        content.to_string(),
        None,
        credit(available),
        BYTE_COST,
        42,
    )
}

#[test]
fn fetch_on_empty_store_is_not_found() {
    let contract = Contract::new();
    assert_eq!(contract.get_email(999), Err(MailError::NotFound));
    assert_eq!(contract.mail_exist(), 0);
    assert_eq!(contract.mail_delete(), 0);
}

#[test]
fn credit_for_two_messages_sends_two_and_no_third_after_delete() {
    let per_mail = STORAGE_PER_MAIL * BYTE_COST;
    let available = 2 * per_mail + 1;
    let mut contract = Contract::new();

    assert_eq!(
        send(&mut contract, "a.near", "b.near", "t1", "c1", available),
        Ok(Receipt { id: 0, charge: per_mail })
    );
    assert_eq!(
        send(&mut contract, "a.near", "b.near", "t2", "c2", available),
        Ok(Receipt { id: 1, charge: per_mail })
    );
    assert_eq!(contract.delete_mail(account("a.near"), 0), Ok(()));
    assert_eq!(
        send(&mut contract, "a.near", "b.near", "t3", "c3", available),
        Err(MailError::InsufficientStorage)
    );
    assert_eq!(contract.get_mail_send_num(account("a.near")), 2);
    assert_eq!(contract.mail_exist(), 1);
}

#[test]
fn credit_of_exactly_two_messages_sends_one() {
    let per_mail = STORAGE_PER_MAIL * BYTE_COST;
    let available = 2 * per_mail;
    let mut contract = Contract::new();

    assert_eq!(
        send(&mut contract, "a.near", "b.near", "t1", "c1", available),
        Ok(Receipt { id: 0, charge: per_mail })
    );
    assert_eq!(
        send(&mut contract, "a.near", "b.near", "t2", "c2", available),
        Err(MailError::InsufficientStorage)
    );
    assert_eq!(contract.get_mail_send_num(account("a.near")), 1);
    assert_eq!(contract.get_email(1), Err(MailError::NotFound));
}

#[test]
fn list_sent_passes_over_deleted_messages() {
    let available = 3 * STORAGE_PER_MAIL * BYTE_COST;
    let mut contract = Contract::new();
    send(&mut contract, "a.near", "b.near", "t1", "c1", available).unwrap();
    send(&mut contract, "a.near", "b.near", "t2", "c2", available).unwrap();
    contract.delete_mail(account("a.near"), 0).unwrap();

    let second = Email {
        title: "t2".to_string(),
        content: "c2".to_string(),
        timestamp: 42,
        fee: None,
    };
    assert_eq!(contract.get_mail_send(account("a.near")), vec![second.clone()]);
    assert_eq!(contract.get_mail_receive(account("b.near")), vec![second]);
    assert_eq!(contract.get_mail_send_num(account("a.near")), 2);
    assert_eq!(contract.get_mail_receive_num(account("b.near")), 2);
}

#[test]
fn lists_keep_the_order_of_sending() {
    let available = 100 * STORAGE_PER_MAIL * BYTE_COST;
    let mut contract = Contract::new();
    send(&mut contract, "a.near", "b.near", "first", "1", available).unwrap();
    send(&mut contract, "c.near", "b.near", "second", "2", available).unwrap();
    send(&mut contract, "a.near", "c.near", "third", "3", available).unwrap();

    let titles = |mail: Vec<Email>| mail.into_iter().map(|e| e.title).collect::<Vec<String>>();
    assert_eq!(titles(contract.get_mail_send(account("a.near"))), vec!["first", "third"]);
    assert_eq!(titles(contract.get_mail_receive(account("b.near"))), vec!["first", "second"]);
    assert_eq!(titles(contract.get_mail_receive(account("c.near"))), vec!["third"]);
    assert_eq!(titles(contract.get_mail_send(account("b.near"))), Vec::<String>::new());
}

#[test]
fn a_sent_message_is_fetched_as_it_was_sent() {
    let mut contract = Contract::new();
    let sent = contract.send_mail(
        account("a.near"),
        account("b.near"),
        "hello".to_string(),
        "world".to_string(),
        Some(7),
        credit(u128::MAX),
        1,
        1_700_000_000,
    );
    assert_eq!(sent, Ok(Receipt { id: 0, charge: STORAGE_PER_MAIL }));
    assert_eq!(
        contract.get_email(0),
        Ok(Email {
            title: "hello".to_string(),
            content: "world".to_string(),
            timestamp: 1_700_000_000,
            fee: Some(7),
        })
    );
}

#[test]
fn identifiers_increase_across_deletes() {
    let available = 100 * STORAGE_PER_MAIL * BYTE_COST;
    let mut contract = Contract::new();
    let first = send(&mut contract, "a.near", "b.near", "t", "c", available).unwrap();
    contract.delete_mail(account("a.near"), first.id).unwrap();
    let second = send(&mut contract, "b.near", "a.near", "t", "c", available).unwrap();
    contract.delete_mail(account("b.near"), second.id).unwrap();
    let third = send(&mut contract, "a.near", "a.near", "t", "c", available).unwrap();
    assert_eq!((first.id, second.id, third.id), (0, 1, 2));
    assert_eq!(contract.mail_exist(), 1);
    assert_eq!(contract.mail_delete(), 2);
}

#[test]
fn delete_is_for_the_sender_only() {
    let available = 100 * STORAGE_PER_MAIL * BYTE_COST;
    let mut contract = Contract::new();
    send(&mut contract, "a.near", "b.near", "t", "c", available).unwrap();

    assert_eq!(contract.delete_mail(account("b.near"), 0), Err(MailError::NotSender));
    assert_eq!(contract.delete_mail(account("stranger.near"), 0), Err(MailError::NotSender));
    assert_eq!(contract.delete_mail(account("a.near"), 1), Err(MailError::NotSender));
    assert!(contract.get_email(0).is_ok());
    assert_eq!(contract.mail_exist(), 1);

    assert_eq!(contract.delete_mail(account("a.near"), 0), Ok(()));
    assert_eq!(contract.get_email(0), Err(MailError::NotFound));
}

#[test]
fn delete_leaves_the_indexes_as_they_were() {
    let available = 100 * STORAGE_PER_MAIL * BYTE_COST;
    let mut contract = Contract::new();
    send(&mut contract, "a.near", "b.near", "t", "c", available).unwrap();
    contract.delete_mail(account("a.near"), 0).unwrap();

    assert_eq!(contract.get_mail_send_num(account("a.near")), 1);
    assert_eq!(contract.get_mail_receive_num(account("b.near")), 1);
    assert_eq!(contract.get_email(0), Err(MailError::NotFound));
    assert_eq!(contract.get_mail_send(account("a.near")), Vec::<Email>::new());
    assert_eq!(contract.get_mail_receive(account("b.near")), Vec::<Email>::new());
}

#[test]
fn deleting_twice_counts_once() {
    let available = 100 * STORAGE_PER_MAIL * BYTE_COST;
    let mut contract = Contract::new();
    send(&mut contract, "a.near", "b.near", "t", "c", available).unwrap();
    send(&mut contract, "a.near", "b.near", "t", "c", available).unwrap();
    assert_eq!(contract.delete_mail(account("a.near"), 0), Ok(()));
    assert_eq!(contract.delete_mail(account("a.near"), 0), Ok(()));
    assert_eq!(contract.mail_exist(), 1);
    assert_eq!(contract.mail_delete(), 1);
}

#[test]
fn deleted_and_live_add_up_to_created() {
    let available = 100 * STORAGE_PER_MAIL * BYTE_COST;
    let mut contract = Contract::new();
    let mut created: u128 = 0;
    for round in 0..6u128 {
        send(&mut contract, "a.near", "b.near", "t", "c", available).unwrap();
        created += 1;
        if round % 2 == 0 {
            contract.delete_mail(account("a.near"), round).unwrap();
        }
        assert_eq!(contract.mail_delete() + contract.mail_exist() as u128, created);
    }
    assert_eq!(contract.mail_exist(), 3);
    assert_eq!(contract.mail_delete(), 3);
}

#[test]
fn the_no_fee_account_cannot_attach_a_fee() {
    let mut contract = Contract::new();
    contract.add_donation_contract_account(account("donation.near"));
    let with_fee = |contract: &mut Contract, from: &str, fee: Option<u128>| {
        contract.send_mail(
            account(from),
            account("b.near"),
            "t".to_string(),
            "c".to_string(),
            fee,
            credit(u128::MAX),
            BYTE_COST,
            0,
        )
    };
    assert_eq!(
        with_fee(&mut contract, "donation.near", Some(1)),
        Err(MailError::FeeNotAllowed)
    );
    assert_eq!(
        with_fee(&mut contract, "donation.near", Some(0)),
        Err(MailError::FeeNotAllowed)
    );
    assert_eq!(contract.mail_exist(), 0);
    assert_eq!(contract.get_mail_send_num(account("donation.near")), 0);
    assert_eq!(contract.get_mail_receive_num(account("b.near")), 0);

    assert!(with_fee(&mut contract, "donation.near", None).is_ok());
    assert!(with_fee(&mut contract, "a.near", Some(1)).is_ok());
}

#[test]
fn the_no_fee_account_is_the_last_one_configured() {
    let mut contract = Contract::new();
    contract.add_donation_contract_account(account("old.near"));
    contract.add_donation_contract_account(account("new.near"));
    let mut with_fee = |from: &str| {
        contract.send_mail(
            account(from),
            account("b.near"),
            "t".to_string(),
            "c".to_string(),
            Some(5),
            credit(u128::MAX),
            1,
            0,
        )
    };
    assert!(with_fee("old.near").is_ok());
    assert_eq!(with_fee("new.near"), Err(MailError::FeeNotAllowed));
}

#[test]
fn refusals_come_in_order() {
    let mut contract = Contract::new();
    contract.add_donation_contract_account(account("donation.near"));
    let unregistered = contract.send_mail(
        account("donation.near"),
        account("b.near"),
        "t".to_string(),
        "c".to_string(),
        Some(1),
        None,
        BYTE_COST,
        0,
    );
    assert_eq!(unregistered, Err(MailError::AccountNotRegistered));
    let poor = contract.send_mail(
        account("donation.near"),
        account("b.near"),
        "t".to_string(),
        "c".to_string(),
        Some(1),
        credit(STORAGE_PER_MAIL * BYTE_COST),
        BYTE_COST,
        0,
    );
    assert_eq!(poor, Err(MailError::InsufficientStorage));
    assert_eq!(contract.mail_exist(), 0);
    assert_eq!(contract.mail_delete(), 0);
}

#[test]
fn quota_is_strict_at_the_boundary() {
    let per_mail = STORAGE_PER_MAIL * BYTE_COST;
    let contract = Contract::new();
    assert_eq!(
        contract.can_send_mail(account("a.near"), credit(per_mail), BYTE_COST),
        Ok(false)
    );
    assert_eq!(
        contract.can_send_mail(account("a.near"), credit(per_mail + 1), BYTE_COST),
        Ok(true)
    );
    assert_eq!(
        contract.can_send_mail(account("a.near"), None, BYTE_COST),
        Err(MailError::AccountNotRegistered)
    );
}

#[test]
fn quota_counts_deleted_messages() {
    let per_mail = STORAGE_PER_MAIL * BYTE_COST;
    let mut contract = Contract::new();
    for _ in 0..3 {
        send(&mut contract, "a.near", "b.near", "t", "c", 10 * per_mail).unwrap();
    }
    for id in 0..3 {
        contract.delete_mail(account("a.near"), id).unwrap();
    }
    assert_eq!(contract.mail_exist(), 0);
    assert_eq!(
        contract.can_send_mail(account("a.near"), credit(4 * per_mail), BYTE_COST),
        Ok(false)
    );
    assert_eq!(
        contract.can_send_mail(account("a.near"), credit(4 * per_mail + 1), BYTE_COST),
        Ok(true)
    );
    assert_eq!(
        contract.can_send_mail(account("b.near"), credit(per_mail + 1), BYTE_COST),
        Ok(true)
    );
}

#[test]
fn a_cost_beyond_128_bits_is_never_covered() {
    let mut contract = Contract::new();
    assert_eq!(
        contract.can_send_mail(account("a.near"), credit(u128::MAX), u128::MAX),
        Ok(false)
    );
    assert_eq!(
        contract.can_send_mail(
            account("a.near"),
            credit(u128::MAX),
            u128::MAX / STORAGE_PER_MAIL
        ),
        Ok(true)
    );
    let sent = contract.send_mail(
        account("a.near"),
        account("b.near"),
        "t".to_string(),
        "c".to_string(),
        None,
        credit(u128::MAX),
        u128::MAX / STORAGE_PER_MAIL + 1,
        0,
    );
    assert_eq!(sent, Err(MailError::InsufficientStorage));
}

#[test]
fn free_storage_still_needs_some_credit() {
    let mut contract = Contract::new();
    assert_eq!(contract.can_send_mail(account("a.near"), credit(0), 0), Ok(false));
    assert_eq!(contract.can_send_mail(account("a.near"), credit(1), 0), Ok(true));
    let sent = contract.send_mail(
        account("a.near"),
        account("b.near"),
        "t".to_string(),
        "c".to_string(),
        None,
        credit(1),
        0,
        0,
    );
    assert_eq!(sent, Ok(Receipt { id: 0, charge: 0 }));
}

#[test]
fn unknown_accounts_have_no_mail() {
    let contract = Contract::new();
    assert_eq!(contract.get_mail_send_num(account("nobody.near")), 0);
    assert_eq!(contract.get_mail_receive_num(account("nobody.near")), 0);
    assert_eq!(contract.get_mail_send(account("nobody.near")), Vec::<Email>::new());
    assert_eq!(contract.get_mail_receive(account("nobody.near")), Vec::<Email>::new());
}

#[test]
fn sending_to_oneself_lists_the_message_on_both_sides() {
    let mut contract = Contract::new();
    send(&mut contract, "a.near", "a.near", "t", "c", u128::MAX).unwrap();
    assert_eq!(contract.get_mail_send_num(account("a.near")), 1);
    assert_eq!(contract.get_mail_receive_num(account("a.near")), 1);
    assert_eq!(contract.get_mail_send(account("a.near")).len(), 1);
}
