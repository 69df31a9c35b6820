//! The frame pacer: converts an irregular, variable-rate stream of captured
//! frames into a fixed-cadence stream of paced frames for a constant-rate
//! encoder.
//!
//! Frames are grouped into batches that span one full second of capture time.
//! Once a batch is complete, exactly `fps` frames are emitted for it, one per
//! tick boundary: for each tick the most recent consumed frame whose timestamp
//! is at or before the boundary (the first frame stands in for ticks before
//! any frame arrived, and the last available frame is repeated to fill a
//! deficit, since dropping ticks would desynchronise audio and video
//! duration). The deadline advances by exactly one second per batch measured
//! on the ideal schedule, never on the actual emission times, so timing error
//! does not compound across batches.

use vstd::prelude::*;

verus! {

/// Microseconds in one second: the span of one pacing batch.
pub const MICROS_PER_SECOND: u64 = 1_000_000;

/// Timestamps at or above this bound are rejected, so that deadline
/// arithmetic stays well inside `u64`.
pub const MAX_TIMESTAMP_US: u64 = 0xFFFF_FFFF_FFFF_FFFF - 4_000_000;

/// A frame as delivered by the capture collaborator: owned pixel bytes plus
/// the arrival timestamp of a monotonic clock, in microseconds.
pub struct CapturedFrame {
    /// The raw pixel bytes.
    pub data: Vec<u8>,
    /// Arrival time on a monotonic clock, in microseconds.
    pub timestamp_us: u64,
}

/// A captured frame re-emitted on a fixed cadence; the sequence index is
/// assigned at the pacer boundary, starts at 0, and increases by one per tick
/// with no gaps. It is the sole ordering key for everything downstream.
pub struct PacedFrame {
    /// The raw pixel bytes of the source frame.
    pub data: Vec<u8>,
    /// The position of this frame's tick in the output stream.
    pub seq_index: u64,
}

/// The duration of one output tick for the given target rate, in microseconds.
pub open spec fn tick_interval_us(fps: u32) -> int {
    MICROS_PER_SECOND as int / fps as int
}

/// Target rates this pacer accepts.
pub open spec fn fps_valid(fps: u32) -> bool {
    1 <= fps <= 1000
}

/// Batch timestamps must be nondecreasing (they come from one monotonic clock).
pub open spec fn timestamps_sorted(batch: Seq<CapturedFrame>) -> bool {
    forall|i: int, j: int|
        0 <= i < j < batch.len() ==> (#[trigger] batch[i]).timestamp_us <= (
        #[trigger] batch[j]).timestamp_us
}

/// The frame chosen for a tick boundary `b`: the latest of the first `n`
/// frames whose timestamp is at or before `b`, or frame 0 if none has arrived
/// by `b` (the first frame stands in for the ticks before it).
pub open spec fn pick(ts: Seq<u64>, n: int, b: u64) -> int
    decreases n,
{
    if n <= 1 {
        0
    } else if ts[n - 1] <= b {
        n - 1
    } else {
        pick(ts, n - 1, b)
    }
}

/// The pacing state carried across batches.
pub struct FramePacer {
    fps: u32,
    next_deadline_us: u64,
    started: bool,
    next_seq: u64,
}

impl FramePacer {
    /// Validity of the pacing state: the target rate is in range and the
    /// deadline, once set, leaves room to advance.
    pub closed spec fn wf(self) -> bool {
        &&& fps_valid(self.fps)
        &&& self.started ==> MICROS_PER_SECOND <= self.next_deadline_us <= MAX_TIMESTAMP_US
            + MICROS_PER_SECOND
    }

    /// The target output rate in frames per second.
    pub closed spec fn spec_fps(self) -> u32 {
        self.fps
    }

    /// The sequence index the next emitted frame will carry.
    pub closed spec fn spec_next_seq(self) -> u64 {
        self.next_seq
    }

    /// Whether a batch deadline has been established yet.
    pub closed spec fn spec_started(self) -> bool {
        self.started
    }

    /// The capture-time deadline that completes the current batch.
    pub closed spec fn spec_deadline(self) -> u64 {
        self.next_deadline_us
    }

    /// A pacer for the given target rate, with no batch started and sequence
    /// indices beginning at 0.
    pub fn new(fps: u32) -> (p: Self)
        requires
            fps_valid(fps),
        ensures
            p.wf(),
            p.spec_fps() == fps,
            !p.spec_started(),
            p.spec_next_seq() == 0,
    {
        FramePacer { fps, next_deadline_us: 0, started: false, next_seq: 0 }
    }

    /// The target output rate in frames per second.
    pub fn fps(&self) -> (r: u32)
        ensures
            r == self.spec_fps(),
    {
        self.fps
    }

    /// The sequence index the next emitted frame will carry.
    pub fn next_sequence_index(&self) -> (r: u64)
        ensures
            r == self.spec_next_seq(),
    {
        self.next_seq
    }

    /// Pace one batch of captured frames.
    ///
    /// If the batch is empty, or no frame has crossed the current deadline
    /// yet, nothing is emitted (`None`: retry later with more frames) and
    /// only the deadline initialisation from the first frame may happen.
    /// Otherwise exactly `fps` paced frames are returned together with the
    /// number of leading frames consumed, the frame for tick `k` being the
    /// one `pick` selects at boundary `deadline - 1s + k * tick`; the
    /// deadline then advances by exactly one second. If every consumable
    /// frame lies at or past the deadline (the capture source stalled for
    /// over a second), one frame is consumed and repeated to fill the missed
    /// second rather than fast-forwarding past it.
    #[verifier::loop_isolation(false)]
    pub fn pace(&mut self, batch: &Vec<CapturedFrame>) -> (r: Option<(Vec<PacedFrame>, usize)>)
        requires
            old(self).wf(),
            timestamps_sorted(batch@),
            forall|i: int|
                0 <= i < batch@.len() ==> (#[trigger] batch@[i]).timestamp_us <= MAX_TIMESTAMP_US,
            old(self).spec_next_seq() + old(self).spec_fps() <= u64::MAX,
        ensures
            final(self).wf(),
            final(self).spec_fps() == old(self).spec_fps(),
            batch@.len() == 0 ==> r is None && *final(self) == *old(self),
            batch@.len() > 0 ==> {
                let d0 = if old(self).spec_started() {
                    old(self).spec_deadline()
                } else {
                    (batch@[0].timestamp_us + MICROS_PER_SECOND) as u64
                };
                &&& final(self).spec_started()
                &&& (forall|i: int|
                    0 <= i < batch@.len() ==> (#[trigger] batch@[i]).timestamp_us < d0) ==> r
                    is None && final(self).spec_deadline() == d0 && final(self).spec_next_seq()
                    == old(self).spec_next_seq()
                &&& (exists|i: int|
                    0 <= i < batch@.len() && (#[trigger] batch@[i]).timestamp_us >= d0) ==> {
                    &&& r matches Some(pair) && {
                        let emitted = pair.0;
                        let consumed = pair.1;
                        &&& 1 <= consumed <= batch@.len()
                        &&& forall|i: int|
                            1 <= i < consumed ==> (#[trigger] batch@[i]).timestamp_us < d0
                        &&& consumed < batch@.len() ==> batch@[consumed as int].timestamp_us >= d0
                        &&& batch@[0].timestamp_us >= d0 ==> consumed == 1
                        &&& batch@[0].timestamp_us < d0 ==> batch@[consumed - 1].timestamp_us < d0
                        &&& emitted@.len() == old(self).spec_fps()
                        &&& forall|k: int|
                            0 <= k < emitted@.len() ==> (#[trigger] emitted@[k]).seq_index == old(
                            self).spec_next_seq() + k
                        &&& forall|k: int|
                            0 <= k < emitted@.len() ==> (#[trigger] emitted@[k]).data@ == batch@[
                            pick(
                                batch@.map_values(|f: CapturedFrame| f.timestamp_us),
                                consumed as int,
                                ((d0 - MICROS_PER_SECOND) + k * tick_interval_us(
                                    old(self).spec_fps(),
                                )) as u64,
                            )
                        ].data@
                        &&& final(self).spec_deadline() == d0 + MICROS_PER_SECOND
                        &&& final(self).spec_next_seq() == old(self).spec_next_seq() + old(
                            self,
                        ).spec_fps()
                    }
                }
            },
    {
        if batch.len() == 0 {
            return None;
        }
        if !self.started {
            self.next_deadline_us = batch[0].timestamp_us + MICROS_PER_SECOND;
            self.started = true;
        }
        let d0 = self.next_deadline_us;
        let ghost ts = batch@.map_values(|f: CapturedFrame| f.timestamp_us);

        // Find how many leading frames precede the deadline; the batch is
        // complete only if some frame lies at or past it.
        let mut count: usize = 0;
        while count < batch.len() && batch[count].timestamp_us < d0
            invariant
                count <= batch@.len(),
                forall|i: int| 0 <= i < count ==> (#[trigger] batch@[i]).timestamp_us < d0,
            decreases batch@.len() - count,
        {
            count += 1;
        }
        if count == batch.len() {
            // The deadline was never crossed: not enough frames yet.
            proof {
                assert forall|i: int|
                    0 <= i < batch@.len() implies (#[trigger] batch@[i]).timestamp_us < d0 by {}
            }
            return None;
        }
        // A stalled source leaves no frame before the deadline; consume one
        // frame and let it fill the whole missed second with repeats.
        let consumed: usize = if count == 0 {
            1
        } else {
            count
        };

        let tick_us: u64 = MICROS_PER_SECOND / (self.fps as u64);
        let base: u64 = d0 - MICROS_PER_SECOND;
        let mut emitted: Vec<PacedFrame> = Vec::new();
        let mut k: u32 = 0;
        proof {
            lemma_tick_bound(self.fps as int);
        }
        while k < self.fps
            invariant
                k <= self.fps,
                emitted@.len() == k,
                self.next_seq + k <= u64::MAX,
                forall|i: int|
                    0 <= i < k ==> (#[trigger] emitted@[i]).seq_index == self.next_seq + i,
                forall|i: int|
                    0 <= i < k ==> (#[trigger] emitted@[i]).data@ == batch@[pick(
                        ts,
                        consumed as int,
                        (base + i * tick_interval_us(self.fps)) as u64,
                    )].data@,
            decreases self.fps - k,
        {
            proof {
                assert((k as int) * (tick_us as int) <= (self.fps - 1) * tick_interval_us(
                    self.fps,
                )) by (nonlinear_arith)
                    requires
                        0 <= k < self.fps,
                        tick_us == tick_interval_us(self.fps),
                        tick_us >= 0,
                ;
                assert((self.fps - 1) * tick_interval_us(self.fps) < MICROS_PER_SECOND) by {
                    lemma_tick_bound(self.fps as int);
                }
            }
            let b: u64 = base + (k as u64) * tick_us;
            let idx = pick_frame(batch, consumed, b);
            let data = crate::util::copy_bytes(&batch[idx].data);
            emitted.push(PacedFrame { data, seq_index: self.next_seq + (k as u64) });
            k += 1;
        }
        self.next_deadline_us = d0 + MICROS_PER_SECOND;
        self.next_seq = self.next_seq + (self.fps as u64);
        Some((emitted, consumed))
    }
}

/// Law: input that arrives exactly on tick boundaries passes through
/// one-to-one.
///
/// If the `n` consumable frames of a batch arrive exactly on its tick
/// boundaries (frame `i` at `base + i * tick`), then the frame chosen for
/// tick `k` is frame `k` itself: the pacer emits exactly one frame per input
/// frame and repeats none.
pub proof fn lemma_uniform_input_one_to_one(ts: Seq<u64>, n: int, base: u64, tick: u64)
    requires
        1 <= n <= ts.len(),
        tick >= 1,
        base + n * tick <= u64::MAX,
        forall|i: int| 0 <= i < n ==> (#[trigger] ts[i]) as int == base + i * tick,
    ensures
        forall|k: int| 0 <= k < n ==> #[trigger] pick(ts, n, (base + k * tick) as u64) == k,
{
    assert forall|k: int| 0 <= k < n implies #[trigger] pick(ts, n, (base + k * tick) as u64)
        == k by {
        lemma_uniform_pick(ts, n, base, tick, k);
    }
}

/// One tick of [`lemma_uniform_input_one_to_one`]: on uniform input the
/// boundary of tick `k` selects frame `k`.
proof fn lemma_uniform_pick(ts: Seq<u64>, n: int, base: u64, tick: u64, k: int)
    requires
        0 <= k < n <= ts.len(),
        tick >= 1,
        base + n * tick <= u64::MAX,
        forall|i: int| 0 <= i < n ==> (#[trigger] ts[i]) as int == base + i * tick,
    ensures
        pick(ts, n, (base + k * tick) as u64) == k,
    decreases n,
{
    assert(0 <= k * tick && k * tick <= n * tick) by (nonlinear_arith)
        requires
            0 <= k < n,
            tick >= 1,
    ;
    let b = (base + k * tick) as u64;
    if n == 1 {
    } else if k == n - 1 {
        assert(ts[n - 1] as int == base + (n - 1) * tick);
        assert(ts[n - 1] <= b);
    } else {
        assert((n - 1) * tick > k * tick && (n - 1) * tick <= n * tick) by (nonlinear_arith)
            requires
                0 <= k < n - 1,
                tick >= 1,
        ;
        assert(ts[n - 1] as int == base + (n - 1) * tick);
        assert(ts[n - 1] > b);
        lemma_uniform_pick(ts, n - 1, base, tick, k);
    }
}

/// For a valid rate, `fps - 1` whole ticks fit strictly inside one second.
proof fn lemma_tick_bound(fps: int)
    requires
        1 <= fps <= 1000,
    ensures
        1000 <= MICROS_PER_SECOND as int / fps <= MICROS_PER_SECOND,
        (fps - 1) * (MICROS_PER_SECOND as int / fps) < MICROS_PER_SECOND,
{
    let t = MICROS_PER_SECOND as int / fps;
    assert(t >= 1000 && t <= MICROS_PER_SECOND) by (nonlinear_arith)
        requires
            1 <= fps <= 1000,
            t == MICROS_PER_SECOND as int / fps,
    ;
    assert(fps * t <= MICROS_PER_SECOND && (fps - 1) * t == fps * t - t) by (nonlinear_arith)
        requires
            1 <= fps,
            t == MICROS_PER_SECOND as int / fps,
    ;
}

/// The executable form of [`pick`]: scan down from the newest consumable
/// frame to the latest one at or before the boundary.
#[verifier::loop_isolation(false)]
fn pick_frame(batch: &Vec<CapturedFrame>, n: usize, b: u64) -> (r: usize)
    requires
        1 <= n <= batch@.len(),
    ensures
        r < n,
        r as int == pick(batch@.map_values(|f: CapturedFrame| f.timestamp_us), n as int, b),
{
    let ghost ts = batch@.map_values(|f: CapturedFrame| f.timestamp_us);
    let mut i: usize = n - 1;
    loop
        invariant
            i < n,
            pick(ts, n as int, b) == pick(ts, i + 1, b),
        decreases i,
    {
        if batch[i].timestamp_us <= b {
            proof {
                assert(ts[i as int] == batch@[i as int].timestamp_us);
            }
            return i;
        }
        if i == 0 {
            return 0;
        }
        proof {
            assert(ts[i as int] == batch@[i as int].timestamp_us);
        }
        i -= 1;
    }
}

} // verus!
