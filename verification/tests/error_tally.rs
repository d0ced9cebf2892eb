use banking_stage_sidecar::error_tally::ErrorTally;

#[test]
fn take_without_errors_is_none() {
    let mut tally = ErrorTally::new();
    assert_eq!(tally.take(7), None);
}

#[test]
fn record_error_counts_per_slot() {
    let mut tally = ErrorTally::new();
    tally.record_error(100);
    tally.record_error(100);
    tally.record_error(101);
    assert_eq!(tally.peek(100), Some(2));
    assert_eq!(tally.take(100), Some(2));
    assert_eq!(tally.take(100), None);
    assert_eq!(tally.take(101), Some(1));
}

#[test]
fn errors_recorded_after_a_take_count_for_the_next() {
    let mut tally = ErrorTally::new();
    tally.record_error(5);
    tally.record_error(5);
    tally.record_error(5);
    assert_eq!(tally.take(5), Some(3));
    tally.record_error(5);
    assert_eq!(tally.peek(6), None);
    assert_eq!(tally.take(5), Some(1));
    assert_eq!(tally.take(5), None);
}
