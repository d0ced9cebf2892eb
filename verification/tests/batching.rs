use banking_stage_sidecar::batching::into_batches;

#[test]
fn twenty_items_in_batches_of_eight() {
    let items: Vec<u32> = (0..20).collect();
    let batches = into_batches(items, 8);
    assert_eq!(batches.len(), 3);
    assert_eq!(batches[0], (0..8).collect::<Vec<u32>>());
    assert_eq!(batches[1], (8..16).collect::<Vec<u32>>());
    assert_eq!(batches[2], (16..20).collect::<Vec<u32>>());
}

#[test]
fn no_items_no_batch() {
    let batches = into_batches(Vec::<u32>::new(), 8);
    assert!(batches.is_empty());
}

#[test]
fn exact_multiple_has_no_short_batch() {
    let items: Vec<u32> = (0..16).collect();
    let batches = into_batches(items, 8);
    assert_eq!(batches.len(), 2);
    assert_eq!(batches[0].len(), 8);
    assert_eq!(batches[1].len(), 8);
}

#[test]
fn fewer_items_than_the_batch_size() {
    let batches = into_batches(vec![1u32, 2, 3], 8);
    assert_eq!(batches, vec![vec![1u32, 2, 3]]);
}

#[test]
fn batch_size_one() {
    let batches = into_batches(vec![7u32, 8, 9], 1);
    assert_eq!(batches, vec![vec![7u32], vec![8u32], vec![9u32]]);
}

#[test]
fn batches_never_exceed_the_batch_size() {
    for n in 0..40usize {
        for size in 1..10usize {
            let items: Vec<usize> = (0..n).collect();
            let batches = into_batches(items, size);
            assert_eq!(batches.len(), (n + size - 1) / size);
            let mut flat = Vec::new();
            for (i, b) in batches.iter().enumerate() {
                assert!(!b.is_empty() && b.len() <= size);
                if i + 1 < batches.len() {
                    assert_eq!(b.len(), size);
                }
                flat.extend(b.iter().copied());
            }
            assert_eq!(flat, (0..n).collect::<Vec<usize>>());
        }
    }
}
