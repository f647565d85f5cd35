use stake_ledger::StakeInfo;
use stake_ledger::StakeStore;
use stake_ledger::StorageKey;

#[test]
fn new_store_is_empty() {
    let store = StakeStore::new();
    assert_eq!(store.len(), 0);
    assert!(!store.contains("alice.near"));
    assert_eq!(store.get("alice.near"), None);
    assert!(store.stakers().is_empty());
}

#[test]
fn put_then_get_returns_the_record() {
    let mut store = StakeStore::new();
    let record = StakeInfo::open(500, 9);
    store.put("alice.near", record);
    assert!(store.contains("alice.near"));
    assert_eq!(store.get("alice.near"), Some(record));
    assert_eq!(store.get("bob.near"), None);
    assert!(!store.contains("alice"));
    assert_eq!(store.len(), 1);
}

#[test]
fn put_again_replaces_without_a_second_listing() {
    let mut store = StakeStore::new();
    store.put("alice.near", StakeInfo::open(500, 9));
    store.put("bob.near", StakeInfo::open(1, 10));
    store.put("alice.near", StakeInfo::open(800, 11));
    assert_eq!(store.get("alice.near"), Some(StakeInfo::open(800, 11)));
    assert_eq!(store.get("bob.near"), Some(StakeInfo::open(1, 10)));
    assert_eq!(store.len(), 2);
    assert_eq!(store.stakers(), vec!["alice.near".to_string(), "bob.near".to_string()]);
}

#[test]
fn stakers_are_listed_in_order_of_first_record() {
    let mut store = StakeStore::new();
    for name in ["d", "a", "c", "b", "a", "d"] {
        store.put(name, StakeInfo::open(1, 0));
    }
    assert_eq!(
        store.stakers(),
        vec!["d".to_string(), "a".to_string(), "c".to_string(), "b".to_string()]
    );
}

#[test]
fn empty_account_name_is_a_key_like_any_other() {
    let mut store = StakeStore::new();
    store.put("", StakeInfo::open(3, 0));
    assert!(store.contains(""));
    assert_eq!(store.len(), 1);
}

#[test]
fn stake_records_are_kept_under_prefix_zero() {
    assert_eq!(StorageKey::StakeInfoKey.into_storage_key(), vec![0u8]);
}
