use banking_stage_sidecar::clock::Timestamp;
use banking_stage_sidecar::events::{AccountAccess, BlockTransaction, TransactionNotification};
use banking_stage_sidecar::postgres::{transaction_rows, PostgresTransactionInfo};
use banking_stage_sidecar::transaction_info::TransactionInfo;

fn sample() -> TransactionInfo {
    let n = TransactionNotification {
        signature: "sig1".to_string(),
        slot: 100,
        error: Some("AccountInUse".to_string()),
    };
    let mut info = TransactionInfo::new(&n, Timestamp { secs: 1_700_000_000, nanos: 5 });
    info.add_notification(&n);
    info
}

#[test]
fn row_of_an_entry_without_inclusion_has_null_columns() {
    let row = PostgresTransactionInfo::from(&sample());
    assert_eq!(row.signature, "sig1");
    assert_eq!(row.errors.len(), 1);
    assert_eq!(row.errors[0].error, "AccountInUse");
    assert_eq!(row.errors[0].slot, 100);
    assert_eq!(row.errors[0].count, 2);
    assert!(!row.is_executed);
    assert!(!row.is_confirmed);
    assert_eq!(row.first_notification_slot, 100);
    assert_eq!(row.cu_requested, None);
    assert_eq!(row.prioritization_fees, None);
    assert_eq!(row.processed_slot, None);
    assert!(row.accounts_used.is_empty());
    assert_eq!(row.utc_timestamp, Timestamp { secs: 1_700_000_000, nanos: 5 });
}

#[test]
fn row_of_an_included_entry_carries_block_fields() {
    let mut info = sample();
    info.add_transaction(
        &BlockTransaction {
            signature: "sig1".to_string(),
            is_successful: true,
            cu_consumed: 1,
            cu_requested: 200_000,
            prioritization_fees: u64::MAX,
            accounts: vec![
                AccountAccess { key: "k1".to_string(), writable: true },
                AccountAccess { key: "k2".to_string(), writable: false },
            ],
        },
        101,
    );
    let row = PostgresTransactionInfo::from(&info);
    assert!(row.is_executed);
    assert!(row.is_confirmed);
    assert_eq!(row.cu_requested, Some(200_000));
    assert_eq!(row.prioritization_fees, Some(i64::MAX));
    assert_eq!(row.processed_slot, Some(101));
    assert_eq!(row.accounts_used.len(), 2);
    assert_eq!(row.accounts_used[0].key, "k1");
    assert!(row.accounts_used[0].writable);
    assert_eq!(row.accounts_used[1].key, "k2");
    assert!(!row.accounts_used[1].writable);
}

#[test]
fn rows_keep_batch_order() {
    let mut second = sample();
    second.signature = "sig2".to_string();
    second.first_notification_slot = u64::MAX;
    let rows = transaction_rows(&vec![sample(), second]);
    assert_eq!(rows.len(), 2);
    assert_eq!(rows[0].signature, "sig1");
    assert_eq!(rows[1].signature, "sig2");
    assert_eq!(rows[1].first_notification_slot, i64::MAX);
    assert!(transaction_rows(&Vec::new()).is_empty());
}
