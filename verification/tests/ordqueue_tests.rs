use recpipe::{OrderedMergeQueue, QueueError};

/// Pushing 0..N in several different interleavings always drains as
/// v_0, v_1, ..., v_{N-1}.
#[test]
fn drains_in_index_order_for_any_push_order() {
    let orders: Vec<Vec<u64>> = vec![
        vec![0, 1, 2, 3, 4, 5],
        vec![5, 4, 3, 2, 1, 0],
        vec![3, 0, 5, 1, 4, 2],
        vec![1, 0, 3, 2, 5, 4],
    ];
    for order in orders {
        let mut q: OrderedMergeQueue<String> = OrderedMergeQueue::new();
        for &i in &order {
            let item = format!("item-{}", i);
            assert_eq!(q.push(i, item), Ok(()));
        }
        q.close();
        let mut drained: Vec<String> = Vec::new();
        while let Some(item) = q.next() {
            drained.push(item);
        }
        assert!(q.is_finished());
        let expected: Vec<String> = (0..6).map(|i| format!("item-{}", i)).collect();
        assert_eq!(drained, expected);
    }
}

/// An index below the cursor is rejected and the queue is unchanged.
#[test]
fn push_below_cursor_is_error_and_no_op() {
    let mut q: OrderedMergeQueue<u32> = OrderedMergeQueue::new();
    assert_eq!(q.push(0, 10), Ok(()));
    assert_eq!(q.push(1, 11), Ok(()));
    assert_eq!(q.next(), Some(10));
    assert_eq!(q.cursor(), 1);
    assert_eq!(q.buffered(), 1);
    // Index 0 was already released.
    assert_eq!(q.push(0, 99), Err(QueueError::DuplicateOrPast));
    assert_eq!(q.cursor(), 1);
    assert_eq!(q.buffered(), 1);
    assert_eq!(q.next(), Some(11));
    assert_eq!(q.next(), None);
}

/// A duplicate of a still-buffered index is rejected too.
#[test]
fn push_duplicate_buffered_index_is_error() {
    let mut q: OrderedMergeQueue<u32> = OrderedMergeQueue::new();
    assert_eq!(q.push(2, 20), Ok(()));
    assert_eq!(q.push(2, 21), Err(QueueError::DuplicateOrPast));
    assert_eq!(q.buffered(), 1);
}

/// After close, pushes fail but the buffered items still drain in order.
#[test]
fn close_rejects_pushes_but_drains_buffered() {
    let mut q: OrderedMergeQueue<u32> = OrderedMergeQueue::new();
    assert_eq!(q.push(1, 101), Ok(()));
    assert_eq!(q.push(0, 100), Ok(()));
    q.close();
    assert!(q.is_closed());
    assert_eq!(q.push(2, 102), Err(QueueError::Closed));
    assert_eq!(q.next(), Some(100));
    assert_eq!(q.next(), Some(101));
    assert!(q.is_finished());
    assert_eq!(q.next(), None);
}

/// The consumer blocks (here: sees None) on a gap until the missing index
/// arrives.
#[test]
fn gap_stalls_consumer_until_filled() {
    let mut q: OrderedMergeQueue<u32> = OrderedMergeQueue::new();
    assert_eq!(q.push(1, 31), Ok(()));
    assert_eq!(q.push(2, 32), Ok(()));
    // Index 0 has not arrived: nothing is released.
    assert_eq!(q.next(), None);
    assert_eq!(q.cursor(), 0);
    assert_eq!(q.push(0, 30), Ok(()));
    assert_eq!(q.next(), Some(30));
    assert_eq!(q.next(), Some(31));
    assert_eq!(q.next(), Some(32));
    assert_eq!(q.next(), None);
    assert_eq!(q.cursor(), 3);
}
