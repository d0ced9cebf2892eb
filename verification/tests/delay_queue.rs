use banking_stage_sidecar::delay_queue::{DelayQueue, Released};
use banking_stage_sidecar::events::BlockEvent;

fn block(slot: u64) -> BlockEvent {
    BlockEvent {
        slot,
        block_hash: format!("hash{}", slot),
        leader_identity: "leader".to_string(),
        transactions: Vec::new(),
    }
}

fn ready_slot(r: Released) -> u64 {
    match r {
        Released::Ready(b) => b.slot,
        Released::Wait(until) => panic!("waiting until {}", until),
        Released::Empty => panic!("empty"),
    }
}

#[test]
fn empty_queue_has_nothing_to_release() {
    let mut q = DelayQueue::new(30_000);
    assert!(matches!(q.poll(1_000_000), Released::Empty));
    assert_eq!(q.hold(), 30_000);
    assert_eq!(q.len(), 0);
}

#[test]
fn block_is_held_for_the_hold_time() {
    let mut q = DelayQueue::new(30_000);
    q.push(block(100), 1_000);
    assert!(matches!(q.poll(1_000), Released::Wait(31_000)));
    assert!(matches!(q.poll(30_999), Released::Wait(31_000)));
    assert_eq!(q.len(), 1);
    assert_eq!(ready_slot(q.poll(31_000)), 100);
    assert_eq!(q.len(), 0);
    assert!(matches!(q.poll(31_000), Released::Empty));
}

#[test]
fn blocks_leave_in_arrival_order() {
    let mut q = DelayQueue::new(10);
    q.push(block(1), 0);
    q.push(block(2), 1);
    q.push(block(3), 2);
    assert_eq!(ready_slot(q.poll(100)), 1);
    assert_eq!(ready_slot(q.poll(100)), 2);
    assert_eq!(ready_slot(q.poll(100)), 3);
    assert!(matches!(q.poll(100), Released::Empty));
}

#[test]
fn later_block_waits_behind_an_earlier_one() {
    let mut q = DelayQueue::new(10);
    q.push(block(1), 100);
    q.push(block(2), 50);
    assert!(matches!(q.poll(70), Released::Wait(110)));
    assert_eq!(q.len(), 2);
    assert_eq!(ready_slot(q.poll(110)), 1);
    assert_eq!(ready_slot(q.poll(110)), 2);
}

#[test]
fn zero_hold_releases_at_once() {
    let mut q = DelayQueue::new(0);
    q.push(block(5), 77);
    assert_eq!(ready_slot(q.poll(77)), 5);
}
