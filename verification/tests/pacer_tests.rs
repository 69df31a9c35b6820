use recpipe::{CapturedFrame, FramePacer};

fn frame(tag: u8, ts_us: u64) -> CapturedFrame {
    CapturedFrame { data: vec![tag], timestamp_us: ts_us }
}

/// Irregular arrivals at 0, 40, 90, 130 and 300 ms still produce exactly 24
/// paced frames for the elapsed second at 24 fps, no tick skipped, once a
/// frame crosses the one-second boundary.
#[test]
fn irregular_input_yields_exactly_fps_frames_per_second() {
    let mut p = FramePacer::new(24);
    let batch = vec![
        frame(0, 0),
        frame(1, 40_000),
        frame(2, 90_000),
        frame(3, 130_000),
        frame(4, 300_000),
        frame(5, 1_000_000),
    ];
    let (emitted, consumed) = p.pace(&batch).expect("the second is complete");
    assert_eq!(emitted.len(), 24);
    assert_eq!(consumed, 5);
    for (k, f) in emitted.iter().enumerate() {
        assert_eq!(f.seq_index, k as u64);
    }
    // Each tick carries the most recent frame at or before its boundary
    // (tick interval 41666 us).
    assert_eq!(emitted[0].data, vec![0]);
    assert_eq!(emitted[1].data, vec![1]);
    assert_eq!(emitted[2].data, vec![1]);
    assert_eq!(emitted[3].data, vec![2]);
    assert_eq!(emitted[7].data, vec![3]);
    // From 300 ms on, the last available frame fills the deficit.
    for k in 8..24 {
        assert_eq!(emitted[k].data, vec![4], "tick {}", k);
    }
}

/// Input exactly on tick boundaries passes through one-to-one: one output
/// per input, zero repeats.
#[test]
fn uniform_input_passes_through_one_to_one() {
    let fps = 25u32;
    let tick = 40_000u64;
    let mut p = FramePacer::new(fps);
    let mut batch: Vec<CapturedFrame> = (0..25).map(|i| frame(i as u8, i * tick)).collect();
    batch.push(frame(99, 1_000_000));
    let (emitted, consumed) = p.pace(&batch).expect("the second is complete");
    assert_eq!(consumed, 25);
    assert_eq!(emitted.len(), 25);
    for (k, f) in emitted.iter().enumerate() {
        assert_eq!(f.data, vec![k as u8], "tick {} must carry input {}", k, k);
        assert_eq!(f.seq_index, k as u64);
    }
}

/// While no frame has crossed the deadline, nothing is flushed and the call
/// says so instead of blocking.
#[test]
fn incomplete_second_flushes_nothing() {
    let mut p = FramePacer::new(24);
    let batch = vec![frame(0, 0), frame(1, 40_000), frame(2, 300_000)];
    assert!(p.pace(&batch).is_none());
    // Still nothing: the deadline (first timestamp + 1s) was never crossed.
    assert!(p.pace(&batch).is_none());
    assert_eq!(p.next_sequence_index(), 0);
}

/// An empty batch is a no-op.
#[test]
fn empty_batch_is_no_op() {
    let mut p = FramePacer::new(24);
    let batch: Vec<CapturedFrame> = Vec::new();
    assert!(p.pace(&batch).is_none());
}

/// After a stall of over a second, the pacer catches up by repeating a frame
/// for the missed second instead of fast-forwarding past it.
#[test]
fn stall_catches_up_with_repeats() {
    let mut p = FramePacer::new(10);
    // First second: frames on every tick, completed by the frame at 1s.
    let mut batch: Vec<CapturedFrame> = (0..10).map(|i| frame(i as u8, i * 100_000)).collect();
    batch.push(frame(10, 1_000_000));
    let (emitted, consumed) = p.pace(&batch).expect("first second complete");
    assert_eq!(emitted.len(), 10);
    assert_eq!(consumed, 10);
    batch.drain(0..consumed);
    // The source stalls: the next frames arrive after 2.5 s.
    batch.push(frame(20, 2_500_000));
    let (emitted2, consumed2) = p.pace(&batch).expect("missed second catches up");
    // The missed second (deadline 2s) is filled by repeating one frame.
    assert_eq!(emitted2.len(), 10);
    assert_eq!(consumed2, 1);
    for f in &emitted2 {
        assert_eq!(f.data, vec![10]);
    }
    // Sequence indices stay contiguous across batches.
    assert_eq!(emitted2[0].seq_index, 10);
    assert_eq!(p.next_sequence_index(), 20);
}

/// Sequence indices are contiguous across consecutive complete seconds.
#[test]
fn sequence_indices_are_contiguous_across_batches() {
    let mut p = FramePacer::new(5);
    let mut batch: Vec<CapturedFrame> =
        (0..10).map(|i| frame(i as u8, i * 200_000)).collect();
    batch.push(frame(10, 2_000_000));
    let (e1, c1) = p.pace(&batch).expect("first second");
    assert_eq!(e1.len(), 5);
    batch.drain(0..c1);
    let (e2, _c2) = p.pace(&batch).expect("second second");
    assert_eq!(e2.len(), 5);
    assert_eq!(e1.last().unwrap().seq_index, 4);
    assert_eq!(e2.first().unwrap().seq_index, 5);
    assert_eq!(e2.last().unwrap().seq_index, 9);
}
