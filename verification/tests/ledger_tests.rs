use channel_sync::ledger::LedgerStore;

#[test]
fn ledger_is_created_once_and_starts_empty() {
    let mut store = LedgerStore::new();
    assert!(!store.has_ledger("Alpha"));
    assert!(store.ensure_exists("Alpha"));
    assert!(store.has_ledger("Alpha"));
    assert_eq!(store.ledger_size("Alpha"), Some(0));
    assert!(!store.ensure_exists("Alpha"));
    assert_eq!(store.ledger_size("Alpha"), Some(0));
}

#[test]
fn ledgers_of_different_channels_are_disjoint() {
    let mut store = LedgerStore::new();
    store.ensure_exists("Alpha");
    store.ensure_exists("Beta");
    store.record("Alpha", "v1");
    assert!(store.contains_video("Alpha", "v1"));
    assert!(!store.contains_video("Beta", "v1"));
    assert_eq!(store.ledger_size("Alpha"), Some(1));
    assert_eq!(store.ledger_size("Beta"), Some(0));
}

#[test]
fn recording_appends_and_keeps_earlier_records() {
    let mut store = LedgerStore::new();
    store.ensure_exists("Alpha");
    store.record("Alpha", "v1");
    store.record("Alpha", "v2");
    assert!(store.contains_video("Alpha", "v1"));
    assert!(store.contains_video("Alpha", "v2"));
    assert!(!store.contains_video("Alpha", "v3"));
    assert_eq!(store.ledger_size("Alpha"), Some(2));
}

#[test]
fn missing_ledger_records_nothing() {
    let store = LedgerStore::new();
    assert!(!store.contains_video("Alpha", "v1"));
    assert_eq!(store.ledger_size("Alpha"), None);
}
