use banking_stage_sidecar::block_info::BlockInfo;
use banking_stage_sidecar::events::BlockEvent;
use banking_stage_sidecar::metrics::Metrics;

fn info(processed: i64, successful: i64, errors: Option<i64>) -> BlockInfo {
    let mut info = BlockInfo::new(
        &BlockEvent {
            slot: 1,
            block_hash: "h".to_string(),
            leader_identity: "l".to_string(),
            transactions: Vec::new(),
        },
        errors,
    );
    info.processed_transactions = processed;
    info.successful_transactions = successful;
    info
}

#[test]
fn new_metrics_are_zero() {
    let m = Metrics::new();
    assert_eq!(
        m,
        Metrics {
            block_txs: 0,
            banking_stage_errors: 0,
            tx_errors: 0,
            banking_stage_events: 0,
            blocks: 0
        }
    );
}

#[test]
fn gauge_shows_the_latest_block_and_counters_grow() {
    let mut m = Metrics::new();
    m.record_block_arrival(12);
    m.record_block_arrival(3);
    m.record_error_event();
    assert_eq!(m.block_txs, 3);
    assert_eq!(m.blocks, 2);
    assert_eq!(m.banking_stage_events, 1);
}

#[test]
fn processed_blocks_add_up() {
    let mut m = Metrics::new();
    m.record_block_processed(&info(10, 7, Some(4)));
    m.record_block_processed(&info(5, 5, None));
    m.record_block_processed(&info(2, 0, Some(1)));
    assert_eq!(m.banking_stage_errors, 5);
    assert_eq!(m.tx_errors, 5);
}

#[test]
fn counters_and_gauges_are_held_at_their_bounds() {
    let mut m = Metrics::new();
    m.banking_stage_events = u64::MAX;
    m.blocks = u64::MAX;
    m.banking_stage_errors = i64::MAX - 1;
    m.tx_errors = i64::MAX;
    m.record_error_event();
    m.record_block_arrival(1);
    m.record_block_processed(&info(3, 1, Some(5)));
    assert_eq!(m.banking_stage_events, u64::MAX);
    assert_eq!(m.blocks, u64::MAX);
    assert_eq!(m.banking_stage_errors, i64::MAX);
    assert_eq!(m.tx_errors, i64::MAX);
}
