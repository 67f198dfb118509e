use dtrack::hour_summaries_store;
use dtrack::hour_summaries_store::HourSummariesStore;
use dtrack::labeled_address;
use dtrack::labeled_address::{CreateLabeledAddressRequest, LabeledAddressError};
use dtrack::labeled_address_store;
use dtrack::labeled_address_store::LabeledAddressStore;
use dtrack::models::{Account, LabeledAddress, TransactionSummary};

fn account(n: u8) -> Account {
    Account { owner: vec![n; 5], subaccount: None }
}

fn address_record(n: u8, label: &str, at: u64) -> LabeledAddress {
    LabeledAddress { address: account(n), label: label.to_string(), created_at: at, updated_at: at }
}

#[test]
fn address_store_round_trip() {
    let mut store = LabeledAddressStore::new();
    assert!(labeled_address_store::is_empty(&store));
    assert_eq!(labeled_address_store::len(&store), 0);
    assert!(labeled_address_store::get(&store, &account(1)).is_none());
    let prev = labeled_address_store::insert(&mut store, account(1), address_record(1, "home", 7));
    assert!(prev.is_none());
    assert_eq!(labeled_address_store::len(&store), 1);
    assert!(!labeled_address_store::is_empty(&store));
    assert!(labeled_address_store::contains_key(&store, &account(1)));
    assert!(!labeled_address_store::contains_key(&store, &account(2)));
    let got = labeled_address_store::get(&store, &account(1)).expect("present");
    assert_eq!(got.label, "home");
    assert_eq!(got.created_at, 7);
    assert_eq!(got.address.owner, vec![1; 5]);
    let prev = labeled_address_store::insert(&mut store, account(1), address_record(1, "work", 9));
    assert_eq!(prev.expect("had one").label, "home");
    let removed = labeled_address_store::remove(&mut store, &account(1)).expect("present");
    assert_eq!(removed.label, "work");
    assert!(labeled_address_store::remove(&mut store, &account(1)).is_none());
    assert!(labeled_address_store::is_empty(&store));
}

#[test]
fn address_store_get_all_lists_every_entry() {
    let mut store = LabeledAddressStore::new();
    for n in 1..4u8 {
        labeled_address_store::insert(&mut store, account(n), address_record(n, "spot", n as u64));
    }
    let all = labeled_address_store::get_all(&store);
    assert_eq!(all.len(), 3);
    for (acct, la) in &all {
        assert_eq!(acct.owner, la.address.owner);
        assert_eq!(la.label, "spot");
    }
}

#[test]
fn create_labeled_address_rules() {
    let mut store = LabeledAddressStore::new();
    let req = CreateLabeledAddressRequest { address: account(1), label: "  ".to_string() };
    assert!(matches!(
        labeled_address::create_labeled_address(&mut store, req, 5),
        Err(LabeledAddressError::InvalidLabel)
    ));
    let req = CreateLabeledAddressRequest { address: account(1), label: " Home ".to_string() };
    let resp = labeled_address::create_labeled_address(&mut store, req, 5).expect("accepted");
    assert_eq!(resp.label, "Home");
    assert_eq!(resp.created_at, 5);
    assert_eq!(resp.updated_at, 5);
    let req = CreateLabeledAddressRequest { address: account(1), label: "Other".to_string() };
    assert!(matches!(
        labeled_address::create_labeled_address(&mut store, req, 6),
        Err(LabeledAddressError::AddressAlreadyExists)
    ));
}

#[test]
fn get_and_delete_labeled_address() {
    let mut store = LabeledAddressStore::new();
    assert!(matches!(
        labeled_address::get_labeled_address(&store, account(1)),
        Err(LabeledAddressError::AddressNotFound)
    ));
    let req = CreateLabeledAddressRequest { address: account(1), label: "Home".to_string() };
    assert!(labeled_address::create_labeled_address(&mut store, req, 5).is_ok());
    let got = labeled_address::get_labeled_address(&store, account(1)).expect("present");
    assert_eq!(got.label, "Home");
    let deleted = labeled_address::delete_labeled_address(&mut store, account(1)).expect("present");
    assert_eq!(deleted.label, "Home");
    assert!(matches!(
        labeled_address::delete_labeled_address(&mut store, account(1)),
        Err(LabeledAddressError::AddressNotFound)
    ));
    assert!(labeled_address::get_all_labeled_addresses(&store).is_empty());
}

fn summary(n: u8, count: u32) -> TransactionSummary {
    TransactionSummary {
        account: account(n),
        total_sent: 100 + n as u64,
        total_received: 200 + n as u64,
        transaction_count: count,
        period_start: 1_000,
        period_end: 2_000,
    }
}

#[test]
fn hour_summaries_round_trip() {
    let mut store = HourSummariesStore::new();
    assert!(hour_summaries_store::is_empty(&store));
    assert!(hour_summaries_store::get(&store, "2024-01-01-00").is_none());
    let prev = hour_summaries_store::insert(&mut store, "2024-01-01-00".to_string(), summary(1, 3));
    assert!(prev.is_none());
    assert!(hour_summaries_store::contains_key(&store, "2024-01-01-00"));
    assert!(!hour_summaries_store::contains_key(&store, "2024-01-01-01"));
    assert_eq!(hour_summaries_store::len(&store), 1);
    let got = hour_summaries_store::get(&store, "2024-01-01-00").expect("present");
    assert_eq!(got.total_sent, 101);
    assert_eq!(got.total_received, 201);
    assert_eq!(got.transaction_count, 3);
    assert_eq!(got.period_start, 1_000);
    assert_eq!(got.account.owner, vec![1; 5]);
    let prev = hour_summaries_store::insert(&mut store, "2024-01-01-00".to_string(), summary(2, 9));
    assert_eq!(prev.expect("had one").transaction_count, 3);
    let removed = hour_summaries_store::remove(&mut store, "2024-01-01-00").expect("present");
    assert_eq!(removed.transaction_count, 9);
    assert!(hour_summaries_store::is_empty(&store));
}

#[test]
fn hour_summaries_get_all() {
    let mut store = HourSummariesStore::new();
    hour_summaries_store::insert(&mut store, "k-α".to_string(), summary(1, 1));
    hour_summaries_store::insert(&mut store, "k-β".to_string(), summary(2, 2));
    let all = hour_summaries_store::get_all(&store);
    assert_eq!(all.len(), 2);
    let mut keys: Vec<String> = all.iter().map(|p| p.0.clone()).collect();
    keys.sort();
    assert_eq!(keys, vec!["k-α".to_string(), "k-β".to_string()]);
}
