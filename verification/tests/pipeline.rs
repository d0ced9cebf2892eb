use banking_stage_sidecar::clock::Timestamp;
use banking_stage_sidecar::block_info::BlockInfo;
use banking_stage_sidecar::events::{
    AccountAccess, BlockEvent, BlockTransaction, TransactionNotification,
};
use banking_stage_sidecar::pipeline::{
    BlockStep, Pipeline, BATCH_SIZE, BLOCK_HOLD_MILLIS, EVICTION_PERIOD_MILLIS, LAG_WINDOW_SLOTS,
};

fn note(signature: &str, slot: u64, error: Option<&str>) -> TransactionNotification {
    TransactionNotification {
        signature: signature.to_string(),
        slot,
        error: error.map(|e| e.to_string()),
    }
}

fn tx(signature: &str, ok: bool) -> BlockTransaction {
    BlockTransaction {
        signature: signature.to_string(),
        is_successful: ok,
        cu_consumed: 100,
        cu_requested: 200,
        prioritization_fees: 7,
        accounts: vec![AccountAccess { key: "acc".to_string(), writable: true }],
    }
}

fn block(slot: u64, transactions: Vec<BlockTransaction>) -> BlockEvent {
    BlockEvent {
        slot,
        block_hash: format!("hash{}", slot),
        leader_identity: "leader".to_string(),
        transactions,
    }
}

fn stamp() -> Timestamp {
    Timestamp { secs: 1_700_000_000, nanos: 0 }
}

fn processed(p: &mut Pipeline, now: u64) -> BlockInfo {
    match p.advance(now) {
        BlockStep::Persist(info) => info,
        BlockStep::WaitUntil(until) => panic!("waiting until {}", until),
        BlockStep::Idle => panic!("idle"),
    }
}

#[test]
fn reference_settings() {
    assert_eq!(BLOCK_HOLD_MILLIS, 30_000);
    assert_eq!(EVICTION_PERIOD_MILLIS, 60_000);
    assert_eq!(LAG_WINDOW_SLOTS, 300);
    assert_eq!(BATCH_SIZE, 8);
}

#[test]
fn error_before_release_is_counted() {
    let mut p = Pipeline::new(BLOCK_HOLD_MILLIS);
    p.on_block(block(100, vec![tx("tx1", false), tx("tx2", true)]), 0);
    p.on_notification(&note("tx1", 100, Some("AccountInUse")), stamp());
    assert!(matches!(p.advance(2_000), BlockStep::WaitUntil(30_000)));
    let info = processed(&mut p, 30_000);
    assert_eq!(info.banking_stage_errors, Some(1));
    assert_eq!(info.slot, 100);
    assert_eq!(info.processed_transactions, 2);
    assert_eq!(info.successful_transactions, 1);
    assert_eq!(p.watermark(), 100);
    let entry = p.index().get(&"tx1".to_string()).unwrap();
    assert_eq!(entry.processed_slot, Some(100));
    assert_eq!(entry.error_count(), 1);
    assert!(!p.index().contains(&"tx2".to_string()));
    assert_eq!(p.tally().peek(100), None);
}

#[test]
fn error_after_release_is_not_counted() {
    let mut p = Pipeline::new(BLOCK_HOLD_MILLIS);
    p.on_block(block(100, vec![tx("tx1", false), tx("tx2", true)]), 0);
    let info = processed(&mut p, 30_000);
    p.on_notification(&note("tx1", 100, Some("AccountInUse")), stamp());
    assert_eq!(info.banking_stage_errors, None);
    assert_eq!(p.metrics().banking_stage_errors, 0);
    assert_eq!(p.tally().peek(100), Some(1));
    let entry = p.index().get(&"tx1".to_string()).unwrap();
    assert_eq!(entry.processed_slot, None);
    assert!(!entry.is_executed);
}

#[test]
fn aged_entries_leave_in_batches() {
    let mut p = Pipeline::new(0);
    for i in 0..20u64 {
        p.on_notification(&note(&format!("old{}", i), 699, Some("AccountInUse")), stamp());
    }
    p.on_notification(&note("kept", 700, Some("AccountInUse")), stamp());
    p.process_block(&block(1000, Vec::new()));
    assert_eq!(p.watermark(), 1000);
    let batches = p.evict(LAG_WINDOW_SLOTS, BATCH_SIZE);
    let sizes: Vec<usize> = batches.iter().map(|b| b.len()).collect();
    assert_eq!(sizes, vec![8, 8, 4]);
    let mut seen: Vec<String> =
        batches.iter().flat_map(|b| b.iter().map(|info| info.signature.clone())).collect();
    seen.sort();
    let mut expected: Vec<String> = (0..20u64).map(|i| format!("old{}", i)).collect();
    expected.sort();
    assert_eq!(seen, expected);
    assert!(p.index().contains(&"kept".to_string()));
    assert!(!p.index().contains(&"old0".to_string()));
    assert!(p.evict(LAG_WINDOW_SLOTS, BATCH_SIZE).is_empty());
}

#[test]
fn entry_with_errors_only_is_evicted_unexecuted() {
    let mut p = Pipeline::new(0);
    p.on_notification(&note("lost", 10, Some("AccountInUse")), stamp());
    p.on_notification(&note("lost", 11, Some("AccountInUse")), stamp());
    p.process_block(&block(310, vec![tx("other", true)]));
    assert!(p.evict(LAG_WINDOW_SLOTS, BATCH_SIZE).is_empty());
    p.process_block(&block(311, Vec::new()));
    let batches = p.evict(LAG_WINDOW_SLOTS, BATCH_SIZE);
    assert_eq!(batches.len(), 1);
    assert_eq!(batches[0].len(), 1);
    assert_eq!(batches[0][0].signature, "lost");
    assert!(!batches[0][0].is_executed);
    assert_eq!(batches[0][0].error_count(), 2);
}

#[test]
fn notification_without_cause_changes_nothing() {
    let mut p = Pipeline::new(0);
    p.on_notification(&note("sig", 5, None), stamp());
    assert!(!p.index().contains(&"sig".to_string()));
    assert_eq!(p.tally().peek(5), None);
    assert_eq!(p.metrics().banking_stage_events, 0);
}

#[test]
fn notifications_update_tally_index_and_counter() {
    let mut p = Pipeline::new(0);
    p.on_notification(&note("a", 5, Some("AccountInUse")), stamp());
    p.on_notification(&note("b", 5, Some("AccountInUse")), stamp());
    p.on_notification(&note("a", 6, Some("AccountInUse")), stamp());
    assert_eq!(p.tally().peek(5), Some(2));
    assert_eq!(p.tally().peek(6), Some(1));
    assert_eq!(p.metrics().banking_stage_events, 3);
    assert_eq!(p.index().get(&"a".to_string()).unwrap().error_count(), 2);
    assert_eq!(p.index().get(&"b".to_string()).unwrap().error_count(), 1);
}

#[test]
fn metrics_follow_blocks() {
    let mut p = Pipeline::new(0);
    p.on_notification(&note("a", 7, Some("AccountInUse")), stamp());
    p.on_notification(&note("b", 7, Some("AccountInUse")), stamp());
    p.on_block(block(7, vec![tx("a", false), tx("b", false), tx("c", true)]), 0);
    assert_eq!(p.metrics().block_txs, 3);
    assert_eq!(p.metrics().blocks, 1);
    processed(&mut p, 0);
    assert_eq!(p.metrics().banking_stage_errors, 2);
    assert_eq!(p.metrics().tx_errors, 2);
    p.on_block(block(8, vec![tx("d", false)]), 0);
    assert_eq!(p.metrics().block_txs, 1);
    assert_eq!(p.metrics().blocks, 2);
    processed(&mut p, 0);
    assert_eq!(p.metrics().banking_stage_errors, 2);
    assert_eq!(p.metrics().tx_errors, 3);
}

#[test]
fn watermark_never_moves_backwards() {
    let mut p = Pipeline::new(0);
    p.process_block(&block(50, Vec::new()));
    p.process_block(&block(40, Vec::new()));
    assert_eq!(p.watermark(), 50);
    p.process_block(&block(51, Vec::new()));
    assert_eq!(p.watermark(), 51);
}

#[test]
fn error_count_is_taken_once_per_slot() {
    let mut p = Pipeline::new(0);
    p.on_notification(&note("a", 9, Some("AccountInUse")), stamp());
    let first = p.process_block(&block(9, Vec::new()));
    let second = p.process_block(&block(9, Vec::new()));
    assert_eq!(first.banking_stage_errors, Some(1));
    assert_eq!(second.banking_stage_errors, None);
}

#[test]
fn advance_processes_blocks_when_due() {
    let mut p = Pipeline::new(30_000);
    assert!(matches!(p.advance(0), BlockStep::Idle));
    p.on_notification(&note("tx1", 100, Some("AccountInUse")), stamp());
    p.on_block(block(100, vec![tx("tx1", false)]), 1_000);
    p.on_block(block(101, Vec::new()), 2_000);
    assert!(matches!(p.advance(30_999), BlockStep::WaitUntil(31_000)));
    assert_eq!(p.watermark(), 0);
    match p.advance(31_000) {
        BlockStep::Persist(info) => {
            assert_eq!(info.slot, 100);
            assert_eq!(info.banking_stage_errors, Some(1));
        }
        _ => panic!("block 100 is due"),
    }
    assert_eq!(p.watermark(), 100);
    assert!(matches!(p.advance(31_000), BlockStep::WaitUntil(32_000)));
    match p.advance(40_000) {
        BlockStep::Persist(info) => assert_eq!(info.slot, 101),
        _ => panic!("block 101 is due"),
    }
    assert!(matches!(p.advance(40_000), BlockStep::Idle));
}

#[test]
fn new_pipeline_is_empty() {
    let p = Pipeline::new(1234);
    assert_eq!(p.hold(), 1234);
    assert_eq!(p.waiting(), 0);
    assert_eq!(p.watermark(), 0);
    assert_eq!(p.metrics().blocks, 0);
}

#[test]
fn arrived_blocks_wait() {
    let mut p = Pipeline::new(10);
    p.on_block(block(1, Vec::new()), 0);
    p.on_block(block(2, Vec::new()), 0);
    assert_eq!(p.waiting(), 2);
    processed(&mut p, 10);
    assert_eq!(p.waiting(), 1);
}
