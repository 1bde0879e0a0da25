use capture_core::ring::SampleRing;

#[test]
fn overwrite_keeps_most_recent_capacity_samples() {
    // Capacity 4, push 1..=7: the ring holds exactly [4, 5, 6, 7].
    let mut ring = SampleRing::new(4);
    for x in 1u32..=7 {
        ring.push(x);
    }
    assert_eq!(ring.snapshot(), vec![4u32, 5, 6, 7]);
    assert_eq!(ring.len(), 4);
    assert_eq!(ring.capacity(), 4);
}

#[test]
fn no_loss_until_full() {
    let mut ring = SampleRing::new(8);
    for x in [10u32, 20, 30, 40, 50] {
        ring.push(x);
    }
    assert_eq!(ring.snapshot(), vec![10u32, 20, 30, 40, 50]);
    assert_eq!(ring.len(), 5);
}

#[test]
fn push_exactly_capacity_keeps_everything() {
    let mut ring = SampleRing::new(3);
    ring.push(1);
    ring.push(2);
    ring.push(3);
    assert_eq!(ring.snapshot(), vec![1u32, 2, 3]);
}

#[test]
fn snapshot_removes_nothing() {
    let mut ring = SampleRing::new(4);
    ring.push(7);
    ring.push(8);
    let first = ring.snapshot();
    let second = ring.snapshot();
    assert_eq!(first, second);
    assert_eq!(ring.len(), 2);
}

#[test]
fn push_block_matches_single_pushes() {
    let mut a = SampleRing::new(5);
    let mut b = SampleRing::new(5);
    let block: Vec<u32> = (0..9).collect();
    a.push_block(&block);
    for &x in &block {
        b.push(x);
    }
    assert_eq!(a.snapshot(), b.snapshot());
}

#[test]
fn capacity_one_holds_only_newest() {
    let mut ring = SampleRing::new(1);
    ring.push(5);
    ring.push(6);
    assert_eq!(ring.snapshot(), vec![6u32]);
}
