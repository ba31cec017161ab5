use brotten::slots::{ResultBuffer, SlotError};

#[test]
fn new_buffer_is_incomplete() {
    let b: ResultBuffer<u64> = ResultBuffer::new(3);
    assert_eq!(b.len(), 3);
    assert!(!b.is_complete());
    assert!(b.merge().is_none());
}

#[test]
fn empty_buffer_merges_to_nothing() {
    let b: ResultBuffer<u64> = ResultBuffer::new(0);
    assert!(b.is_complete());
    assert_eq!(b.merge(), Some(vec![]));
}

#[test]
fn publish_out_of_range_fails() {
    let mut b: ResultBuffer<u64> = ResultBuffer::new(2);
    assert_eq!(b.publish(2, vec![1]), Err(SlotError::OutOfRange));
    assert!(!b.is_complete());
}

#[test]
fn publish_twice_fails_and_keeps_first() {
    let mut b: ResultBuffer<u64> = ResultBuffer::new(1);
    assert_eq!(b.publish(0, vec![1, 2]), Ok(()));
    assert_eq!(b.publish(0, vec![9]), Err(SlotError::AlreadyFilled));
    assert_eq!(b.merge(), Some(vec![1, 2]));
}

#[test]
fn merge_follows_ordinal_not_publication_order() {
    let mut b: ResultBuffer<(u64, u64)> = ResultBuffer::new(3);
    assert_eq!(b.publish(2, vec![(5, 0), (5, 1)]), Ok(()));
    assert_eq!(b.publish(0, vec![(0, 0)]), Ok(()));
    assert!(!b.is_complete());
    assert_eq!(b.publish(1, vec![]), Ok(()));
    assert!(b.is_complete());
    assert_eq!(b.merge(), Some(vec![(0, 0), (5, 0), (5, 1)]));
}

#[test]
fn missing_slot_blocks_merge() {
    let mut b: ResultBuffer<u8> = ResultBuffer::new(2);
    assert_eq!(b.publish(1, vec![7]), Ok(()));
    assert!(b.merge().is_none());
}

#[test]
fn strips_published_in_any_order_merge_to_grid() {
    let p = brotten::grid::plan(9, 2, 4).unwrap();
    let n = p.strip_count();
    let mut b = ResultBuffer::new(n);
    for c in (0..n).rev() {
        assert_eq!(b.publish(c, p.strip_points(c)), Ok(()));
    }
    let merged = b.merge().unwrap();
    let mut expected = Vec::new();
    for col in 0..=9u64 {
        for row in 0..=2u64 {
            expected.push((col, row));
        }
    }
    assert_eq!(merged, expected);
}
