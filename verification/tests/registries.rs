use wallet::keys::KeyRegistry;
use wallet::transactions::TransactionLedger;
use wallet::wallets::WalletRegistry;
use wallet::{Identity, KeyPair, LedgerError, Metadata, Transaction, TransactionStatus};

fn identity(bytes: &[u8]) -> Identity {
    Identity::from_bytes(bytes.to_vec()).expect("at most 29 bytes")
}

fn transaction(id: &str, from: &[u8], to: &[u8], amount: u64, timestamp: u64) -> Transaction {
    Transaction {
        id: id.to_string(),
        from: identity(from),
        to: identity(to),
        amount,
        currency: "ICP".to_string(),
        status: TransactionStatus::Pending,
        timestamp,
        tx_hash: None,
        metadata: Metadata::new(),
    }
}

fn key(name: &str, created_at: u64) -> KeyPair {
    KeyPair {
        public_key: name.to_string(),
        encrypted_private_key: format!("sealed-{}", name),
        derivation_path: "m".to_string(),
        created_at,
    }
}

#[test]
fn registry_creates_and_finds_wallets() {
    let mut registry = WalletRegistry::new();
    let a = identity(&[1]);
    assert_eq!(registry.get(&a, "ICP"), Err(LedgerError::OwnerNotFound));
    assert!(!registry.has_owner(&a));
    let wallet = registry.create(&a, "ICP", "addr".to_string(), 3).expect("a new wallet");
    assert_eq!(wallet.address, "addr");
    assert_eq!(wallet.balance, 0);
    assert!(wallet.is_active);
    assert!(registry.contains(&a, "ICP"));
    assert!(registry.has_owner(&a));
    assert_eq!(registry.get(&a, "ICP"), Ok(wallet));
    assert_eq!(registry.get(&a, "ETH"), Err(LedgerError::WalletNotFound));
    assert_eq!(
        registry.create(&a, "ICP", "other".to_string(), 4),
        Err(LedgerError::AlreadyExists)
    );
    assert_eq!(registry.get(&a, "ICP").expect("still there").address, "addr");
}

#[test]
fn registry_debits_only_what_is_there() {
    let mut registry = WalletRegistry::new();
    let a = identity(&[1]);
    registry.create(&a, "ICP", "addr".to_string(), 1).expect("a new wallet");
    assert!(registry.credit(&a, "ICP", 10, 2));
    assert_eq!(registry.debit(&a, "ICP", 11, 3), Err(LedgerError::InsufficientFunds));
    let wallet = registry.get(&a, "ICP").expect("exists");
    assert_eq!(wallet.balance, 10);
    assert_eq!(wallet.last_activity, 2);
    assert_eq!(registry.debit(&a, "ICP", 10, 4), Ok(()));
    let wallet = registry.get(&a, "ICP").expect("exists");
    assert_eq!(wallet.balance, 0);
    assert_eq!(wallet.last_activity, 4);
    assert_eq!(registry.debit(&a, "ICP", 0, 5), Ok(()));
    assert_eq!(registry.get(&a, "ICP").expect("exists").last_activity, 5);
}

#[test]
fn registry_credit_reports_whether_it_applied() {
    let mut registry = WalletRegistry::new();
    let a = identity(&[1]);
    assert!(!registry.credit(&a, "ICP", 10, 1));
    registry.create(&a, "ICP", "addr".to_string(), 1).expect("a new wallet");
    assert!(registry.credit(&a, "ICP", 10, 2));
    assert!(registry.credit(&a, "ICP", 0, 3));
    assert!(!registry.credit(&a, "BTC", 10, 4));
    let wallet = registry.get(&a, "ICP").expect("exists");
    assert_eq!(wallet.balance, 10);
    assert_eq!(wallet.last_activity, 3);
    assert_eq!(wallet.created_at, 1);
    assert_eq!(registry.total_supply("ICP"), 10);
    assert_eq!(registry.total_supply("BTC"), 0);
}

#[test]
fn registry_lists_an_owners_wallets_oldest_first() {
    let mut registry = WalletRegistry::new();
    let a = identity(&[1]);
    let b = identity(&[1, 0]);
    assert!(registry.list(&a).is_empty());
    registry.create(&a, "ETH", "a-eth".to_string(), 1).expect("a new wallet");
    registry.create(&b, "ICP", "b-icp".to_string(), 2).expect("a new wallet");
    registry.create(&a, "BTC", "a-btc".to_string(), 3).expect("a new wallet");
    registry.create(&a, "ICP", "a-icp".to_string(), 4).expect("a new wallet");
    let addresses: Vec<String> = registry.list(&a).into_iter().map(|w| w.address).collect();
    assert_eq!(addresses, vec!["a-eth".to_string(), "a-btc".to_string(), "a-icp".to_string()]);
    let addresses: Vec<String> = registry.list(&b).into_iter().map(|w| w.address).collect();
    assert_eq!(addresses, vec!["b-icp".to_string()]);
}

#[test]
fn key_registry_keeps_one_record_per_owner() {
    let mut registry = KeyRegistry::new();
    let a = identity(&[1]);
    let b = identity(&[2]);
    assert_eq!(registry.get(&a), Err(LedgerError::KeyNotFound));
    registry.put(&a, key("first", 1));
    registry.put(&b, key("other", 2));
    assert_eq!(registry.get(&a), Ok(key("first", 1)));
    registry.put(&a, key("second", 3));
    assert_eq!(registry.get(&a), Ok(key("second", 3)));
    assert_eq!(registry.get(&b), Ok(key("other", 2)));
    assert_eq!(registry.get(&identity(&[])), Err(LedgerError::KeyNotFound));
}

#[test]
fn transaction_ledger_records_and_files() {
    let mut ledger = TransactionLedger::new();
    let a = identity(&[1]);
    let b = identity(&[2]);
    assert_eq!(ledger.get("t1"), Err(LedgerError::TransactionNotFound));
    assert_eq!(ledger.count(&a), 0);
    ledger.record(transaction("t1", &[1], &[2], 5, 100));
    assert_eq!(ledger.get("t1"), Ok(transaction("t1", &[1], &[2], 5, 100)));
    assert_eq!(ledger.count(&a), 1);
    assert_eq!(ledger.count(&b), 1);
    assert_eq!(ledger.count(&identity(&[3])), 0);
    ledger.record(transaction("t2", &[1], &[1], 5, 100));
    assert_eq!(ledger.count(&a), 3);
    assert_eq!(ledger.count(&b), 1);
}

#[test]
fn transaction_ledger_confirms_a_record() {
    let mut ledger = TransactionLedger::new();
    ledger.record(transaction("t1", &[1], &[2], 5, 100));
    ledger.record(transaction("t2", &[1], &[2], 6, 101));
    assert_eq!(ledger.get("t1").expect("on record").status, TransactionStatus::Pending);
    ledger.confirm("t1");
    assert_eq!(ledger.get("t1").expect("on record").status, TransactionStatus::Confirmed);
    assert_eq!(ledger.get("t2").expect("on record").status, TransactionStatus::Pending);
    ledger.confirm("t1");
    assert_eq!(ledger.get("t1").expect("on record").status, TransactionStatus::Confirmed);
    ledger.confirm("nothing");
    assert_eq!(ledger.get("nothing"), Err(LedgerError::TransactionNotFound));
    let mut expected = transaction("t1", &[1], &[2], 5, 100);
    expected.status = TransactionStatus::Confirmed;
    assert_eq!(ledger.get("t1"), Ok(expected));
    assert_eq!(ledger.count(&identity(&[1])), 2);
}

#[test]
fn transaction_ledger_replaces_a_record_with_the_same_identifier() {
    let mut ledger = TransactionLedger::new();
    ledger.record(transaction("t1", &[1], &[2], 5, 100));
    ledger.record(transaction("t1", &[1], &[2], 9, 200));
    let found = ledger.get("t1").expect("on record");
    assert_eq!(found.amount, 9);
    assert_eq!(found.timestamp, 200);
    let history = ledger.history(&identity(&[1]));
    assert_eq!(history.len(), 2);
    assert_eq!(history[0], found);
    assert_eq!(history[1], found);
}

#[test]
fn transaction_ledger_orders_history_by_recency() {
    let mut ledger = TransactionLedger::new();
    for (id, timestamp) in [("c", 3), ("a", 1), ("e", 5), ("b", 1), ("d", 3), ("f", 0)] {
        ledger.record(transaction(id, &[1], &[2], 1, timestamp));
    }
    let ids: Vec<String> = ledger.history(&identity(&[1])).into_iter().map(|t| t.id).collect();
    assert_eq!(ids, vec!["e", "c", "d", "a", "b", "f"]);
    let ids: Vec<String> = ledger.history(&identity(&[2])).into_iter().map(|t| t.id).collect();
    assert_eq!(ids, vec!["e", "c", "d", "a", "b", "f"]);
    assert!(ledger.history(&identity(&[3])).is_empty());
}

#[test]
fn transaction_copy_equals_what_it_copies() {
    let mut record = transaction("t1", &[1], &[2], 5, 100);
    record.tx_hash = Some("hash".to_string());
    record.metadata.insert("memo".to_string(), "rent".to_string());
    record.metadata.insert("note".to_string(), String::new());
    let copy = record.clone();
    assert_eq!(copy, record);
}

#[test]
fn metadata_is_a_mapping() {
    let mut metadata = Metadata::new();
    assert_eq!(metadata.get("memo"), None);
    assert!(metadata.entries().is_empty());
    metadata.insert("memo".to_string(), "rent".to_string());
    metadata.insert("note".to_string(), "first".to_string());
    assert_eq!(metadata.get("memo"), Some("rent".to_string()));
    assert_eq!(metadata.get("note"), Some("first".to_string()));
    assert_eq!(metadata.get("Memo"), None);
    metadata.insert("memo".to_string(), "food".to_string());
    assert_eq!(metadata.get("memo"), Some("food".to_string()));
    assert_eq!(metadata.get("note"), Some("first".to_string()));
    assert_eq!(
        metadata.entries(),
        vec![
            ("memo".to_string(), "food".to_string()),
            ("note".to_string(), "first".to_string()),
        ]
    );
    assert_eq!(metadata.clone(), metadata);
}
