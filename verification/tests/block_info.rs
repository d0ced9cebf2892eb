use banking_stage_sidecar::block_info::BlockInfo;
use banking_stage_sidecar::limits::{bump, clamp, clamp_len, clamp_wide};
use banking_stage_sidecar::events::{AccountAccess, BlockEvent, BlockTransaction};

fn access(key: &str, writable: bool) -> AccountAccess {
    AccountAccess { key: key.to_string(), writable }
}

fn tx(ok: bool, used: u64, requested: u64, accounts: Vec<AccountAccess>) -> BlockTransaction {
    BlockTransaction {
        signature: "sig".to_string(),
        is_successful: ok,
        cu_consumed: used,
        cu_requested: requested,
        prioritization_fees: 0,
        accounts,
    }
}

fn block(slot: u64, transactions: Vec<BlockTransaction>) -> BlockEvent {
    BlockEvent {
        slot,
        block_hash: "hash".to_string(),
        leader_identity: "leader".to_string(),
        transactions,
    }
}

fn usage(list: &[banking_stage_sidecar::block_info::AccountUsage]) -> Vec<(String, u64)> {
    list.iter().map(|u| (u.key.clone(), u.count)).collect()
}

#[test]
fn empty_block_has_zero_statistics() {
    let info = BlockInfo::new(&block(5, Vec::new()), None);
    assert_eq!(info.slot, 5);
    assert_eq!(info.block_hash, "hash");
    assert_eq!(info.leader_identity, "leader");
    assert_eq!(info.processed_transactions, 0);
    assert_eq!(info.successful_transactions, 0);
    assert_eq!(info.total_cu_used, 0);
    assert_eq!(info.total_cu_requested, 0);
    assert_eq!(info.banking_stage_errors, None);
    assert!(info.heavily_writelocked_accounts.is_empty());
    assert!(info.heavily_readlocked_accounts.is_empty());
    assert_eq!(info.failed_transactions(), 0);
}

#[test]
fn counts_and_sums_cover_every_transaction() {
    let b = block(
        100,
        vec![
            tx(true, 10, 100, Vec::new()),
            tx(false, 20, 200, Vec::new()),
            tx(true, 30, 300, Vec::new()),
        ],
    );
    let info = BlockInfo::new(&b, Some(4));
    assert_eq!(info.processed_transactions, 3);
    assert_eq!(info.successful_transactions, 2);
    assert_eq!(info.total_cu_used, 60);
    assert_eq!(info.total_cu_requested, 600);
    assert_eq!(info.banking_stage_errors, Some(4));
    assert_eq!(info.failed_transactions(), 1);
}

#[test]
fn sums_are_held_at_the_largest_column_value() {
    let b = block(
        u64::MAX,
        vec![tx(true, u64::MAX, i64::MAX as u64, Vec::new()), tx(true, 1, 1, Vec::new())],
    );
    let info = BlockInfo::new(&b, None);
    assert_eq!(info.slot, i64::MAX);
    assert_eq!(info.total_cu_used, i64::MAX);
    assert_eq!(info.total_cu_requested, i64::MAX);
}

#[test]
fn accounts_are_ranked_by_lock_count() {
    let b = block(
        1,
        vec![
            tx(true, 0, 0, vec![access("a", true), access("b", true), access("r", false)]),
            tx(true, 0, 0, vec![access("b", true), access("c", true), access("r", false)]),
            tx(true, 0, 0, vec![access("b", true), access("c", true), access("s", false)]),
        ],
    );
    let info = BlockInfo::new(&b, None);
    assert_eq!(
        usage(&info.heavily_writelocked_accounts),
        vec![("b".to_string(), 3), ("c".to_string(), 2), ("a".to_string(), 1)]
    );
    assert_eq!(
        usage(&info.heavily_readlocked_accounts),
        vec![("r".to_string(), 2), ("s".to_string(), 1)]
    );
}

#[test]
fn equally_locked_accounts_keep_order_of_first_appearance() {
    let b = block(
        1,
        vec![
            tx(true, 0, 0, vec![access("x", true), access("y", true)]),
            tx(true, 0, 0, vec![access("z", true), access("y", true), access("x", true)]),
            tx(true, 0, 0, vec![access("w", true)]),
        ],
    );
    let info = BlockInfo::new(&b, None);
    assert_eq!(
        usage(&info.heavily_writelocked_accounts),
        vec![
            ("x".to_string(), 2),
            ("y".to_string(), 2),
            ("z".to_string(), 1),
            ("w".to_string(), 1)
        ]
    );
}

#[test]
fn same_account_read_and_written_is_ranked_in_both_lists() {
    let b = block(
        1,
        vec![
            tx(true, 0, 0, vec![access("a", true)]),
            tx(true, 0, 0, vec![access("a", false)]),
        ],
    );
    let info = BlockInfo::new(&b, None);
    assert_eq!(usage(&info.heavily_writelocked_accounts), vec![("a".to_string(), 1)]);
    assert_eq!(usage(&info.heavily_readlocked_accounts), vec![("a".to_string(), 1)]);
}

#[test]
fn clamp_holds_large_values_at_the_bound() {
    assert_eq!(clamp(0), 0);
    assert_eq!(clamp(12345), 12345);
    assert_eq!(clamp(i64::MAX as u64), i64::MAX);
    assert_eq!(clamp(i64::MAX as u64 + 1), i64::MAX);
    assert_eq!(clamp(u64::MAX), i64::MAX);
    assert_eq!(clamp_len(17), 17);
    assert_eq!(clamp_wide(-3), -3);
    assert_eq!(clamp_wide(i128::MAX), i64::MAX);
    assert_eq!(clamp_wide(i128::MIN), i64::MIN);
    assert_eq!(bump(0), 1);
    assert_eq!(bump(u64::MAX - 1), u64::MAX);
    assert_eq!(bump(u64::MAX), u64::MAX);
}

#[test]
fn failed_transactions_is_the_difference() {
    let mut info = BlockInfo::new(&block(1, Vec::new()), None);
    info.processed_transactions = 10;
    info.successful_transactions = 4;
    assert_eq!(info.failed_transactions(), 6);
    info.processed_transactions = i64::MAX;
    info.successful_transactions = -5;
    assert_eq!(info.failed_transactions(), i64::MAX);
    info.processed_transactions = i64::MIN;
    info.successful_transactions = 5;
    assert_eq!(info.failed_transactions(), i64::MIN);
}
