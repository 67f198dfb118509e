use dtrack::apis;
use dtrack::repository;
use dtrack::repository::Repository;
use dtrack::types::{
    eq_stored_account, CustomTransaction, IcrcAccount, IdentityKey, LabeledAccount, RepoError,
    StoredAccount,
};

fn owner(tag: u8) -> IdentityKey {
    IdentityKey::new(vec![tag, 1, 2, 3])
}

fn onchain(n: u8) -> StoredAccount {
    StoredAccount::Icrc1(IcrcAccount { owner: vec![n, n, n], subaccount: None })
}

fn labeled(n: u8, label: &str) -> LabeledAccount {
    LabeledAccount { account: onchain(n), label: label.to_string(), product: None }
}

#[test]
fn accounts_in_insertion_order() {
    let mut repo = Repository::new();
    let me = owner(1);
    for n in 0..3u8 {
        let r = repository::add_account(&mut repo, &me, labeled(n, "acct"));
        assert!(r.is_ok());
    }
    let got = repository::get_accounts(&repo, &me);
    assert_eq!(got.len(), 3);
    for n in 0..3u8 {
        assert!(eq_stored_account(&got[n as usize].account, &onchain(n)));
        assert_eq!(got[n as usize].label, "acct");
    }
}

#[test]
fn twenty_first_account_hits_capacity() {
    let mut repo = Repository::new();
    let me = owner(2);
    for n in 0..20u8 {
        assert!(repository::add_account(&mut repo, &me, labeled(n, "a")).is_ok());
    }
    let r = repository::add_account(&mut repo, &me, labeled(20, "a"));
    assert_eq!(r, Err(RepoError::CapacityExceeded));
    let got = repository::get_accounts(&repo, &me);
    assert_eq!(got.len(), 20);
    for n in 0..20u8 {
        assert!(eq_stored_account(&got[n as usize].account, &onchain(n)));
    }
}

#[test]
fn duplicate_account_rejected() {
    let mut repo = Repository::new();
    let me = owner(3);
    assert!(repository::add_account(&mut repo, &me, labeled(7, "first")).is_ok());
    let r = repository::add_account(&mut repo, &me, labeled(7, "second"));
    assert_eq!(r, Err(RepoError::AlreadyExists));
    let got = repository::get_accounts(&repo, &me);
    assert_eq!(got.len(), 1);
    assert_eq!(got[0].label, "first");
}

#[test]
fn removing_last_account_cascades() {
    let mut repo = Repository::new();
    let me = owner(4);
    assert!(repository::add_account(&mut repo, &me, labeled(1, "a")).is_ok());
    assert!(repository::set_transaction_label(&mut repo, &me, 42, "rent".to_string()).is_ok());
    let tx = CustomTransaction {
        id: "x1".to_string(),
        timestamp_ms: 5,
        label: "food".to_string(),
        amount: 10,
    };
    assert!(repository::create_custom_transaction(&mut repo, &me, tx, 0).is_ok());
    let acct = onchain(1);
    assert!(repository::remove_account(&mut repo, &me, &acct).is_ok());
    assert!(repository::get_accounts(&repo, &me).is_empty());
    assert!(repository::get_transaction_labels(&repo, &me).is_empty());
    assert!(repository::get_custom_transactions(&repo, &me).is_empty());
}

#[test]
fn removing_one_of_two_accounts_clears_only_tx_labels() {
    let mut repo = Repository::new();
    let me = owner(5);
    assert!(repository::add_account(&mut repo, &me, labeled(1, "a")).is_ok());
    assert!(repository::add_account(&mut repo, &me, labeled(2, "b")).is_ok());
    assert!(repository::set_transaction_label(&mut repo, &me, 9, "x".to_string()).is_ok());
    let tx = CustomTransaction {
        id: "keep".to_string(),
        timestamp_ms: 1,
        label: "keep".to_string(),
        amount: 1,
    };
    assert!(repository::create_custom_transaction(&mut repo, &me, tx, 0).is_ok());
    let first = onchain(1);
    assert!(repository::remove_account(&mut repo, &me, &first).is_ok());
    let got = repository::get_accounts(&repo, &me);
    assert_eq!(got.len(), 1);
    assert!(eq_stored_account(&got[0].account, &onchain(2)));
    assert!(repository::get_transaction_labels(&repo, &me).is_empty());
    assert_eq!(repository::get_custom_transactions(&repo, &me).len(), 1);
}

#[test]
fn remove_account_not_found() {
    let mut repo = Repository::new();
    let me = owner(6);
    let acct = onchain(1);
    assert_eq!(repository::remove_account(&mut repo, &me, &acct), Err(RepoError::NotFound));
    assert!(repository::add_account(&mut repo, &me, labeled(2, "a")).is_ok());
    assert_eq!(repository::remove_account(&mut repo, &me, &acct), Err(RepoError::NotFound));
}

#[test]
fn blank_id_creations_same_second_conflict() {
    let mut repo = Repository::new();
    let me = owner(7);
    let now: u64 = 1_700_000_000_123_456_789;
    let tx1 = CustomTransaction {
        id: "   ".to_string(),
        timestamp_ms: 1,
        label: "one".to_string(),
        amount: 1,
    };
    let tx2 = CustomTransaction {
        id: String::new(),
        timestamp_ms: 2,
        label: "two".to_string(),
        amount: 2,
    };
    let first = repository::create_custom_transaction(&mut repo, &me, tx1, now);
    assert_eq!(first, Ok("C#1700000000".to_string()));
    let second = repository::create_custom_transaction(&mut repo, &me, tx2, now + 999);
    assert_eq!(second, Err(RepoError::Conflict));
    let stored = repository::get_custom_transactions(&repo, &me);
    assert_eq!(stored.len(), 1);
    assert_eq!(stored[0].id, "C#1700000000");
    assert_eq!(stored[0].label, "one");
}

#[test]
fn blank_id_creations_next_second_both_pass() {
    let mut repo = Repository::new();
    let me = owner(8);
    let tx1 = CustomTransaction {
        id: String::new(),
        timestamp_ms: 1,
        label: "one".to_string(),
        amount: 1,
    };
    let tx2 = CustomTransaction {
        id: String::new(),
        timestamp_ms: 2,
        label: "two".to_string(),
        amount: 2,
    };
    assert_eq!(
        repository::create_custom_transaction(&mut repo, &me, tx1, 5_000_000_000),
        Ok("C#5".to_string())
    );
    assert_eq!(
        repository::create_custom_transaction(&mut repo, &me, tx2, 6_000_000_000),
        Ok("C#6".to_string())
    );
    assert_eq!(repository::get_custom_transactions(&repo, &me).len(), 2);
}

#[test]
fn supplied_custom_id_is_trimmed_and_kept() {
    let mut repo = Repository::new();
    let me = owner(9);
    let tx = CustomTransaction {
        id: "  trip-1  ".to_string(),
        timestamp_ms: 7,
        label: "travel".to_string(),
        amount: 30,
    };
    assert_eq!(
        repository::create_custom_transaction(&mut repo, &me, tx, 0),
        Ok("trip-1".to_string())
    );
    let stored = repository::get_custom_transactions(&repo, &me);
    assert_eq!(stored[0].id, "trip-1");
    assert_eq!(stored[0].timestamp_ms, 7);
    assert_eq!(stored[0].amount, 30);
}

#[test]
fn set_transaction_label_upserts() {
    let mut repo = Repository::new();
    let me = owner(10);
    assert!(repository::set_transaction_label(&mut repo, &me, 5, "first".to_string()).is_ok());
    assert!(repository::set_transaction_label(&mut repo, &me, 5, "second".to_string()).is_ok());
    let got = repository::get_transaction_labels(&repo, &me);
    assert_eq!(got.len(), 1);
    assert_eq!(got[0].id, 5);
    assert_eq!(got[0].label, "second");
}

#[test]
fn update_and_delete_custom_transaction() {
    let mut repo = Repository::new();
    let me = owner(11);
    let tx = CustomTransaction {
        id: "a".to_string(),
        timestamp_ms: 1,
        label: "old".to_string(),
        amount: 1,
    };
    assert!(repository::create_custom_transaction(&mut repo, &me, tx, 0).is_ok());
    let absent = CustomTransaction {
        id: "zz".to_string(),
        timestamp_ms: 1,
        label: "x".to_string(),
        amount: 1,
    };
    assert_eq!(
        repository::update_custom_transaction(&mut repo, &me, absent),
        Err(RepoError::NotFound)
    );
    let newer = CustomTransaction {
        id: "a".to_string(),
        timestamp_ms: 2,
        label: "new".to_string(),
        amount: 9,
    };
    assert!(repository::update_custom_transaction(&mut repo, &me, newer).is_ok());
    let got = repository::get_custom_transactions(&repo, &me);
    assert_eq!(got[0].label, "new");
    assert_eq!(got[0].amount, 9);
    assert_eq!(repository::delete_custom_transaction(&mut repo, &me, "nope"), Err(RepoError::NotFound));
    assert!(repository::delete_custom_transaction(&mut repo, &me, "a").is_ok());
    assert!(repository::get_custom_transactions(&repo, &me).is_empty());
    assert_eq!(repository::delete_custom_transaction(&mut repo, &me, "a"), Err(RepoError::NotFound));
}

#[test]
fn labels_capacity_and_dedup() {
    let mut repo = Repository::new();
    let me = owner(12);
    for n in 0..50u32 {
        assert!(repository::add_label(&mut repo, &me, format!("label-{}", n)).is_ok());
    }
    assert_eq!(
        repository::add_label(&mut repo, &me, "label-over".to_string()),
        Err(RepoError::CapacityExceeded)
    );
    let mut repo2 = Repository::new();
    assert!(repository::add_label(&mut repo2, &me, "dup".to_string()).is_ok());
    assert_eq!(
        repository::add_label(&mut repo2, &me, "dup".to_string()),
        Err(RepoError::AlreadyExists)
    );
    let got = repository::get_labels(&repo2, &me);
    assert_eq!(got, vec!["dup".to_string()]);
}

#[test]
fn remove_product_is_idempotent() {
    let mut repo = Repository::new();
    let me = owner(13);
    assert_eq!(repository::remove_product(&mut repo, &me, "x"), Ok(()));
    assert!(repository::add_product(&mut repo, &me, "card".to_string()).is_ok());
    assert_eq!(repository::remove_product(&mut repo, &me, "x"), Ok(()));
    assert_eq!(repository::get_products(&repo, &me), vec!["card".to_string()]);
    assert_eq!(repository::remove_product(&mut repo, &me, "card"), Ok(()));
    assert!(repository::get_products(&repo, &me).is_empty());
}

#[test]
fn owners_are_isolated() {
    let mut repo = Repository::new();
    let alice = owner(20);
    let bob = owner(21);
    assert!(repository::add_account(&mut repo, &alice, labeled(1, "mine")).is_ok());
    assert!(repository::get_accounts(&repo, &bob).is_empty());
    assert!(repository::add_label(&mut repo, &bob, "only-bob".to_string()).is_ok());
    assert!(repository::get_labels(&repo, &alice).is_empty());
}

#[test]
fn unicode_label_round_trip() {
    let mut repo = Repository::new();
    let me = owner(22);
    let acct = StoredAccount::Offchain("Épargne € compte".to_string());
    let la = LabeledAccount {
        account: acct,
        label: "Épargne €".to_string(),
        product: Some("carte ñ".to_string()),
    };
    assert!(repository::add_account(&mut repo, &me, la).is_ok());
    let got = repository::get_accounts(&repo, &me);
    assert_eq!(got.len(), 1);
    assert_eq!(got[0].label, "Épargne €");
    assert_eq!(got[0].product, Some("carte ñ".to_string()));
    match &got[0].account {
        StoredAccount::Offchain(s) => assert_eq!(s, "Épargne € compte"),
        StoredAccount::Icrc1(_) => panic!("wrong variant"),
    }
}

#[test]
fn update_account_replaces_entry() {
    let mut repo = Repository::new();
    let me = owner(23);
    assert!(repository::add_account(&mut repo, &me, labeled(1, "old")).is_ok());
    let replacement = LabeledAccount {
        account: onchain(1),
        label: "new".to_string(),
        product: Some("prod".to_string()),
    };
    assert!(repository::update_account(&mut repo, &me, replacement).is_ok());
    let got = repository::get_accounts(&repo, &me);
    assert_eq!(got.len(), 1);
    assert_eq!(got[0].label, "new");
    assert_eq!(got[0].product, Some("prod".to_string()));
    let missing = LabeledAccount {
        account: onchain(9),
        label: "x".to_string(),
        product: None,
    };
    assert_eq!(repository::update_account(&mut repo, &me, missing), Err(RepoError::NotFound));
}

#[test]
fn get_account_finds_by_identifier() {
    let mut repo = Repository::new();
    let me = owner(24);
    assert!(repository::add_account(&mut repo, &me, labeled(1, "one")).is_ok());
    assert!(repository::add_account(&mut repo, &me, labeled(2, "two")).is_ok());
    let acct = onchain(2);
    let got = repository::get_account(&repo, &me, &acct).expect("present");
    assert_eq!(got.label, "two");
    let absent = onchain(9);
    assert!(repository::get_account(&repo, &me, &absent).is_none());
}

#[test]
fn subaccounts_distinguish_accounts() {
    let mut repo = Repository::new();
    let me = owner(25);
    let plain = StoredAccount::Icrc1(IcrcAccount { owner: vec![1], subaccount: None });
    let subbed = StoredAccount::Icrc1(IcrcAccount { owner: vec![1], subaccount: Some(vec![0; 32]) });
    let a = LabeledAccount { account: plain, label: "plain".to_string(), product: None };
    let b = LabeledAccount { account: subbed, label: "sub".to_string(), product: None };
    assert!(repository::add_account(&mut repo, &me, a).is_ok());
    assert!(repository::add_account(&mut repo, &me, b).is_ok());
    assert_eq!(repository::get_accounts(&repo, &me).len(), 2);
}

#[test]
fn api_create_labeled_account_trims_and_stores() {
    let mut repo = Repository::new();
    let me = owner(30);
    let req = apis::CreateLabeledAccountRequest {
        account: onchain(1),
        label: "  Savings  ".to_string(),
        product: None,
    };
    let stored = apis::create_labeled_account(&mut repo, &me, req).expect("accepted");
    assert_eq!(stored.label, "Savings");
    let listed = apis::get_labeled_accounts(&repo, &me).expect("never fails");
    assert_eq!(listed.len(), 1);
    assert_eq!(listed[0].label, "Savings");
    assert!(eq_stored_account(&listed[0].account, &onchain(1)));
}

#[test]
fn api_validation_boundaries() {
    let mut repo = Repository::new();
    let me = owner(31);
    let hundred = "a".repeat(100);
    let req = apis::CreateLabeledAccountRequest {
        account: onchain(1),
        label: hundred.clone(),
        product: None,
    };
    assert!(apis::create_labeled_account(&mut repo, &me, req).is_ok());
    let too_long = "a".repeat(101);
    let req = apis::CreateLabeledAccountRequest {
        account: onchain(2),
        label: too_long,
        product: None,
    };
    assert!(matches!(
        apis::create_labeled_account(&mut repo, &me, req),
        Err(RepoError::ValidationError)
    ));
    let req = apis::CreateLabeledAccountRequest {
        account: onchain(3),
        label: "   \t  ".to_string(),
        product: None,
    };
    assert!(matches!(
        apis::create_labeled_account(&mut repo, &me, req),
        Err(RepoError::ValidationError)
    ));
    let padded_hundred = format!("  {}  ", hundred);
    assert_eq!(
        apis::add_label(&mut repo, &me, padded_hundred),
        Ok(())
    );
    assert_eq!(
        apis::add_label(&mut repo, &me, "a".repeat(101)),
        Err(RepoError::ValidationError)
    );
    let req = apis::ProductRequest { product: "  ".to_string() };
    assert_eq!(apis::add_product(&mut repo, &me, req), Err(RepoError::ValidationError));
}

#[test]
fn api_update_labeled_account_keeps_product() {
    let mut repo = Repository::new();
    let me = owner(32);
    let req = apis::CreateLabeledAccountRequest {
        account: onchain(1),
        label: "old".to_string(),
        product: Some("prod".to_string()),
    };
    assert!(apis::create_labeled_account(&mut repo, &me, req).is_ok());
    let upd = apis::UpdateLabeledAccountRequest {
        account: onchain(1),
        label: "  new  ".to_string(),
    };
    assert_eq!(apis::update_labeled_account(&mut repo, &me, upd), Ok(()));
    let got = apis::get_labeled_accounts(&repo, &me).expect("never fails");
    assert_eq!(got[0].label, "new");
    assert_eq!(got[0].product, Some("prod".to_string()));
    let upd = apis::UpdateLabeledAccountRequest {
        account: onchain(9),
        label: "fine".to_string(),
    };
    assert_eq!(apis::update_labeled_account(&mut repo, &me, upd), Err(RepoError::NotFound));
    let upd = apis::UpdateLabeledAccountRequest {
        account: onchain(1),
        label: "  ".to_string(),
    };
    assert_eq!(
        apis::update_labeled_account(&mut repo, &me, upd),
        Err(RepoError::ValidationError)
    );
}

#[test]
fn api_set_transaction_label_validates_and_trims() {
    let mut repo = Repository::new();
    let me = owner(33);
    let req = apis::SetTransactionLabelRequest {
        transaction_id: 3,
        label: " groceries ".to_string(),
    };
    assert_eq!(apis::set_transaction_label(&mut repo, &me, req), Ok(()));
    let got = apis::get_transaction_labels(&repo, &me).expect("never fails");
    assert_eq!(got[0].label, "groceries");
    let req = apis::SetTransactionLabelRequest { transaction_id: 4, label: "  ".to_string() };
    assert_eq!(
        apis::set_transaction_label(&mut repo, &me, req),
        Err(RepoError::ValidationError)
    );
}

#[test]
fn api_custom_transaction_label_validated() {
    let mut repo = Repository::new();
    let me = owner(34);
    let req = apis::CreateCustomTransactionRequest {
        transaction: CustomTransaction {
            id: "t".to_string(),
            timestamp_ms: 1,
            label: "  ".to_string(),
            amount: 1,
        },
    };
    assert_eq!(
        apis::create_custom_transaction(&mut repo, &me, req, 0),
        Err(RepoError::ValidationError)
    );
    let req = apis::CreateCustomTransactionRequest {
        transaction: CustomTransaction {
            id: "t".to_string(),
            timestamp_ms: 1,
            label: "ok".to_string(),
            amount: 1,
        },
    };
    assert_eq!(apis::create_custom_transaction(&mut repo, &me, req, 0), Ok("t".to_string()));
    let bad = CustomTransaction {
        id: "t".to_string(),
        timestamp_ms: 1,
        label: " ".to_string(),
        amount: 2,
    };
    assert_eq!(
        apis::update_custom_transaction(&mut repo, &me, bad),
        Err(RepoError::ValidationError)
    );
    assert_eq!(apis::delete_custom_transaction(&mut repo, &me, "t".to_string()), Ok(()));
}

#[test]
fn api_remove_product_succeeds_without_product() {
    let mut repo = Repository::new();
    let me = owner(35);
    assert_eq!(apis::remove_product(&mut repo, &me, "x".to_string()), Ok(()));
    let req = apis::ProductRequest { product: " visa ".to_string() };
    assert_eq!(apis::add_product(&mut repo, &me, req), Ok(()));
    let got = apis::get_products(&repo, &me).expect("never fails");
    assert_eq!(got, vec!["visa".to_string()]);
    assert_eq!(apis::remove_product(&mut repo, &me, "visa".to_string()), Ok(()));
    let got = apis::get_products(&repo, &me).expect("never fails");
    assert!(got.is_empty());
}

#[test]
fn validate_label_boundaries() {
    assert!(dtrack::text::validate_label(&"a".repeat(100)));
    assert!(!dtrack::text::validate_label(&"a".repeat(101)));
    assert!(dtrack::text::validate_label(&format!("  {}  ", "a".repeat(100))));
    assert!(!dtrack::text::validate_label("   "));
    assert!(!dtrack::text::validate_label(""));
    assert!(dtrack::text::validate_product("p"));
    assert!(!dtrack::text::validate_product("\t\n"));
}

#[test]
fn trim_text_behaviour() {
    assert_eq!(dtrack::text::trim_text("  Savings  "), "Savings");
    assert_eq!(dtrack::text::trim_text("nothing"), "nothing");
    assert_eq!(dtrack::text::trim_text("   "), "");
    assert_eq!(dtrack::text::trim_text(""), "");
    assert_eq!(dtrack::text::trim_text("\t a b \n"), "a b");
}

#[test]
fn derived_id_format() {
    assert_eq!(dtrack::text::derived_custom_id(0), "C#0");
    assert_eq!(dtrack::text::derived_custom_id(999_999_999), "C#0");
    assert_eq!(dtrack::text::derived_custom_id(1_000_000_000), "C#1");
    assert_eq!(dtrack::text::derived_custom_id(1_700_000_000_999_999_999), "C#1700000000");
}

#[test]
fn oversized_aggregate_is_refused() {
    let mut repo = Repository::new();
    let me = owner(40);
    let huge = LabeledAccount {
        account: onchain(1),
        label: "a".repeat(5000),
        product: None,
    };
    assert_eq!(repository::add_account(&mut repo, &me, huge), Err(RepoError::TooLarge));
    assert!(repository::get_accounts(&repo, &me).is_empty());
    let big_tx = CustomTransaction {
        id: "big".to_string(),
        timestamp_ms: 1,
        label: "b".repeat(9000),
        amount: 1,
    };
    assert_eq!(
        repository::create_custom_transaction(&mut repo, &me, big_tx, 0),
        Err(RepoError::TooLarge)
    );
    assert_eq!(
        repository::set_transaction_label(&mut repo, &me, 1, "c".repeat(5000)),
        Err(RepoError::TooLarge)
    );
}

#[test]
fn transaction_labels_have_no_count_cap() {
    let mut repo = Repository::new();
    let me = owner(41);
    for id in 0..60u64 {
        assert!(repository::set_transaction_label(&mut repo, &me, id, format!("t{}", id)).is_ok());
    }
    assert_eq!(repository::get_transaction_labels(&repo, &me).len(), 60);
}
