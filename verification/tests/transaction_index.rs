use banking_stage_sidecar::clock::Timestamp;
use banking_stage_sidecar::events::{AccountAccess, BlockTransaction, TransactionNotification};
use banking_stage_sidecar::transaction_index::{aged, TransactionIndex};

fn note(signature: &str, slot: u64, error: Option<&str>) -> TransactionNotification {
    TransactionNotification {
        signature: signature.to_string(),
        slot,
        error: error.map(|e| e.to_string()),
    }
}

fn tx(signature: &str) -> BlockTransaction {
    BlockTransaction {
        signature: signature.to_string(),
        is_successful: true,
        cu_consumed: 100,
        cu_requested: 200,
        prioritization_fees: 7,
        accounts: vec![AccountAccess { key: "acc".to_string(), writable: true }],
    }
}

fn stamp(secs: i64) -> Timestamp {
    Timestamp { secs, nanos: 0 }
}

#[test]
fn new_index_is_empty() {
    let index = TransactionIndex::new();
    assert!(!index.contains(&"sig1".to_string()));
    assert!(index.get(&"sig1".to_string()).is_none());
}

#[test]
fn upsert_notification_creates_then_merges() {
    let mut index = TransactionIndex::new();
    index.upsert_notification(&note("sig1", 100, Some("AccountInUse")), stamp(1));
    assert!(index.contains(&"sig1".to_string()));
    index.upsert_notification(&note("sig1", 105, Some("AccountInUse")), stamp(2));
    index.upsert_notification(&note("sig1", 100, Some("AccountInUse")), stamp(3));
    let info = index.get(&"sig1".to_string()).unwrap();
    assert_eq!(info.first_notification_slot, 100);
    assert_eq!(info.utc_timestamp, stamp(1));
    assert_eq!(info.errors.len(), 2);
    assert_eq!((info.errors[0].slot, info.errors[0].count), (100, 2));
    assert_eq!((info.errors[1].slot, info.errors[1].count), (105, 1));
    assert_eq!(info.error_count(), 3);
}

#[test]
fn notification_without_cause_is_ignored() {
    let mut index = TransactionIndex::new();
    index.upsert_notification(&note("sig1", 100, None), stamp(1));
    assert!(!index.contains(&"sig1".to_string()));
    index.upsert_notification(&note("sig1", 101, Some("AccountInUse")), stamp(2));
    index.upsert_notification(&note("sig1", 102, None), stamp(3));
    let info = index.get(&"sig1".to_string()).unwrap();
    assert_eq!(info.first_notification_slot, 101);
    assert_eq!(info.error_count(), 1);
}

#[test]
fn signatures_do_not_share_entries() {
    let mut index = TransactionIndex::new();
    index.upsert_notification(&note("sig1", 100, Some("AccountInUse")), stamp(1));
    index.upsert_notification(&note("sig2", 200, Some("AccountInUse")), stamp(2));
    index.upsert_notification(&note("sig2", 200, Some("AccountInUse")), stamp(3));
    assert_eq!(index.get(&"sig1".to_string()).unwrap().error_count(), 1);
    assert_eq!(index.get(&"sig2".to_string()).unwrap().error_count(), 2);
    assert_eq!(index.get(&"sig2".to_string()).unwrap().first_notification_slot, 200);
}

#[test]
fn upsert_inclusion_creates_a_minimal_entry() {
    let mut index = TransactionIndex::new();
    index.upsert_inclusion(77, &tx("sig1"), stamp(9));
    let info = index.get(&"sig1".to_string()).unwrap();
    assert_eq!(info.first_notification_slot, 77);
    assert_eq!(info.processed_slot, Some(77));
    assert!(info.is_executed && info.is_confirmed);
    assert!(info.errors.is_empty());
    assert_eq!(info.utc_timestamp, stamp(9));
}

#[test]
fn upsert_inclusion_keeps_errors_and_first_slot() {
    let mut index = TransactionIndex::new();
    index.upsert_notification(&note("sig1", 100, Some("AccountInUse")), stamp(1));
    index.upsert_inclusion(102, &tx("sig1"), stamp(2));
    index.upsert_notification(&note("sig1", 103, Some("AccountInUse")), stamp(3));
    let info = index.get(&"sig1".to_string()).unwrap();
    assert_eq!(info.first_notification_slot, 100);
    assert_eq!(info.processed_slot, Some(102));
    assert_eq!(info.cu_requested, Some(200));
    assert_eq!(info.prioritization_fees, Some(7));
    assert_eq!(info.accounts_used.len(), 1);
    assert_eq!(info.error_count(), 2);
    assert!(info.is_executed);
}

#[test]
fn merge_inclusion_leaves_unknown_signatures_out() {
    let mut index = TransactionIndex::new();
    index.upsert_notification(&note("sig1", 100, Some("AccountInUse")), stamp(1));
    assert!(!index.merge_inclusion(101, &tx("sig2")));
    assert!(!index.contains(&"sig2".to_string()));
    assert!(index.merge_inclusion(101, &tx("sig1")));
    assert_eq!(index.get(&"sig1".to_string()).unwrap().processed_slot, Some(101));
}

#[test]
fn merge_block_touches_known_signatures_only() {
    let mut index = TransactionIndex::new();
    index.upsert_notification(&note("sig1", 100, Some("AccountInUse")), stamp(1));
    index.upsert_notification(&note("sig3", 100, Some("AccountInUse")), stamp(1));
    index.merge_block(100, &vec![tx("sig1"), tx("sig2")]);
    assert_eq!(index.get(&"sig1".to_string()).unwrap().processed_slot, Some(100));
    assert!(!index.contains(&"sig2".to_string()));
    assert_eq!(index.get(&"sig3".to_string()).unwrap().processed_slot, None);
}

#[test]
fn aged_is_strictly_beyond_the_lag_window() {
    assert!(aged(650, 1000, 300));
    assert!(aged(699, 1000, 300));
    assert!(!aged(700, 1000, 300));
    assert!(!aged(1000, 1000, 300));
    assert!(!aged(2000, 1000, 300));
    assert!(aged(0, u64::MAX, 300));
    assert!(!aged(0, 5, u64::MAX));
}

#[test]
fn entry_is_evicted_only_beyond_the_lag_window() {
    let mut index = TransactionIndex::new();
    index.upsert_notification(&note("old", 699, Some("AccountInUse")), stamp(1));
    index.upsert_notification(&note("edge", 700, Some("AccountInUse")), stamp(1));
    index.upsert_notification(&note("young", 950, Some("AccountInUse")), stamp(1));
    let evicted = index.evict(1000, 300);
    assert_eq!(evicted.len(), 1);
    assert_eq!(evicted[0].signature, "old");
    assert_eq!(evicted[0].first_notification_slot, 699);
    assert!(!index.contains(&"old".to_string()));
    assert!(index.contains(&"edge".to_string()));
    assert!(index.contains(&"young".to_string()));
}

#[test]
fn evicted_entries_leave_the_index_once() {
    let mut index = TransactionIndex::new();
    for i in 0..50u64 {
        index.upsert_notification(&note(&format!("sig{}", i), i, Some("AccountInUse")), stamp(1));
    }
    let mut evicted: Vec<String> =
        index.evict(330, 300).into_iter().map(|info| info.signature).collect();
    evicted.sort();
    let mut expected: Vec<String> = (0..30u64).map(|i| format!("sig{}", i)).collect();
    expected.sort();
    assert_eq!(evicted, expected);
    for i in 0..50u64 {
        assert_eq!(index.contains(&format!("sig{}", i)), i >= 30);
    }
    assert!(index.evict(330, 300).is_empty());
}

#[test]
fn never_included_entry_is_evicted_unexecuted() {
    let mut index = TransactionIndex::new();
    index.upsert_notification(&note("sig1", 100, Some("AccountInUse")), stamp(1));
    index.upsert_notification(&note("sig1", 101, Some("AccountInUse")), stamp(2));
    assert!(index.evict(400, 300).is_empty());
    let evicted = index.evict(401, 300);
    assert_eq!(evicted.len(), 1);
    assert_eq!(evicted[0].signature, "sig1");
    assert!(!evicted[0].is_executed);
    assert!(!evicted[0].is_confirmed);
    assert_eq!(evicted[0].processed_slot, None);
    assert_eq!(evicted[0].error_count(), 2);
    assert!(!index.contains(&"sig1".to_string()));
}
