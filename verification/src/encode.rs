//! The sequential H.264 encoding stage: consumes planar YUV 4:2:0 frames in
//! sequence order and appends each frame's encoded access unit to the
//! elementary stream. The codec itself is the openh264 library; this module
//! owns the ordering and error discipline around it.

use crate::ordqueue::OrderedMergeQueue;
use vstd::prelude::*;

verus! {

/// The fixed output resolution of [`encode_to_h264`].
pub const ENC_WIDTH: usize = 1280;

/// The fixed output resolution of [`encode_to_h264`].
pub const ENC_HEIGHT: usize = 720;

/// Error from the H.264 encoding stage. A failed frame fails the whole
/// stage: silently dropping one index would stall the ordered stream behind
/// it forever.
#[derive(Clone, Copy, Debug, PartialEq, Eq, Structural)]
pub enum EncodeError {
    /// The encoder could not be created or configured.
    Init,
    /// The encoder rejected a frame.
    Frame,
}

/// One planar YUV 4:2:0 frame: the Y plane, then the quarter-size U and V
/// planes, as [`crate::convert::rgba_to_yuv`] lays them out.
pub struct YUVBuf {
    /// The planar bytes, `3 * width * height / 2` of them.
    pub yuv: Vec<u8>,
    /// Frame width in pixels (even).
    pub width: usize,
    /// Frame height in pixels (even).
    pub height: usize,
}

impl YUVBuf {
    /// Validity: even dimensions in the codec's range and a buffer of
    /// exactly one frame.
    pub open spec fn wf(self) -> bool {
        &&& self.width % 2 == 0
        &&& self.height % 2 == 0
        &&& 2 <= self.width <= 16384
        &&& 2 <= self.height <= 16384
        &&& self.yuv@.len() == 3 * (self.width * self.height) / 2
    }
}

#[verifier::external_type_specification]
#[verifier::external_body]
pub struct ExEncoder(openh264::encoder::Encoder);

/// A fresh H.264 encoder. Frame skipping is disabled: every submitted frame
/// must appear in the stream, since a dropped frame would desynchronise the
/// audio and video durations.
///
/// Relies on openh264's `Encoder::with_api_config` with the bundled codec and
/// a default configuration with `skip_frames(false)`; dimensions are taken
/// from the first encoded frame.
#[verifier::external_body]
pub fn new_encoder() -> (r: Result<openh264::encoder::Encoder, EncodeError>)
{
    let api = openh264::OpenH264API::from_source();
    let config = openh264::encoder::EncoderConfig::new().skip_frames(false);
    openh264::encoder::Encoder::with_api_config(api, config).map_err(|_| EncodeError::Init)
}

/// Encode one frame, returning the bytes of its access unit (one or more
/// NAL units; the first frame also carries the stream headers).
///
/// Relies on openh264's `YUVBuffer::from_vec` (which requires even
/// dimensions and an exactly-sized buffer, hence the preconditions),
/// `Encoder::encode` and `EncodedBitStream::to_vec`. What the bytes are is
/// the codec's business; nothing is assumed about them.
#[verifier::external_body]
fn encode_frame(enc: &mut openh264::encoder::Encoder, frame: YUVBuf) -> (r: Result<
    Vec<u8>,
    EncodeError,
>)
    requires
        frame.wf(),
{
    let buf = openh264::formats::YUVBuffer::from_vec(frame.yuv, frame.width, frame.height);
    match enc.encode(&buf) {
        Ok(bs) => Ok(bs.to_vec()),
        Err(_) => Err(EncodeError::Frame),
    }
}

/// Encode a batch of 1280x720 YUV 4:2:0 frames to one H.264 elementary
/// stream: each frame's access unit is appended in input order. Fails, and
/// encodes nothing further, if the encoder rejects a frame — a silent gap is
/// never left.
#[verifier::loop_isolation(false)]
pub fn encode_to_h264(yuv_vec: Vec<Vec<u8>>) -> (r: Result<Vec<u8>, EncodeError>)
    requires
        forall|i: int|
            0 <= i < yuv_vec@.len() ==> (#[trigger] yuv_vec@[i])@.len() == 3 * (ENC_WIDTH
                * ENC_HEIGHT) / 2,
{
    let mut enc = match new_encoder() {
        Ok(e) => e,
        Err(e) => {
            return Err(e);
        },
    };
    let mut buf_h264: Vec<u8> = Vec::new();
    let mut i: usize = 0;
    while i < yuv_vec.len()
        invariant
            i <= yuv_vec@.len(),
        decreases yuv_vec@.len() - i,
    {
        let frame = YUVBuf { yuv: crate::util::copy_bytes(&yuv_vec[i]), width: ENC_WIDTH, height: ENC_HEIGHT };
        match encode_frame(&mut enc, frame) {
            Ok(unit) => {
                buf_h264.extend_from_slice(unit.as_slice());
            },
            Err(e) => {
                return Err(e);
            },
        }
        i += 1;
    }
    Ok(buf_h264)
}

/// Drain the ordered-merge queue into the elementary stream: release frames
/// strictly in sequence order for as long as the next one has arrived,
/// encode each, and append its access unit to `buf_h264`.
///
/// Returns the number of frames encoded. The queue's cursor advances by
/// exactly that count, the released keys (and only they) leave the pending
/// map, the stream is appended to but never rewritten, and the drain stops
/// exactly at the first missing index.
#[verifier::loop_isolation(false)]
pub fn encode_queue_to_h264(
    queue: &mut OrderedMergeQueue<Vec<u8>>,
    buf_h264: &mut Vec<u8>,
    width: usize,
    height: usize,
) -> (r: Result<u64, EncodeError>)
    requires
        old(queue).wf(),
        width % 2 == 0,
        height % 2 == 0,
        2 <= width <= 16384,
        2 <= height <= 16384,
        forall|k: int|
            old(queue)@.pending.contains_key(k) ==> (#[trigger] old(queue)@.pending[k])@.len() == 3
                * (width * height) / 2,
    ensures
        final(queue).wf(),
        final(buf_h264)@.len() >= old(buf_h264)@.len(),
        final(buf_h264)@.subrange(0, old(buf_h264)@.len() as int) == old(buf_h264)@,
        r matches Ok(count) ==> {
            &&& final(queue)@.cursor == old(queue)@.cursor + count
            &&& forall|j: int|
                old(queue)@.cursor <= j < old(queue)@.cursor + count ==> old(
                    queue,
                )@.pending.contains_key(j)
            &&& !old(queue)@.pending.contains_key(old(queue)@.cursor + count)
            &&& final(queue)@.pending =~= old(queue)@.pending.remove_keys(
                Set::new(
                    |k: int| old(queue)@.cursor <= k < old(queue)@.cursor + count,
                ),
            )
            &&& final(queue)@.closed == old(queue)@.closed
        },
        r is Err ==> final(queue)@.cursor >= old(queue)@.cursor,
    {
        let mut enc = match new_encoder() {
            Ok(e) => e,
            Err(e) => {
                return Err(e);
            },
        };
        let mut count: u64 = 0;
        proof {
            crate::ordqueue::lemma_pending_finite(queue);
            crate::ordqueue::lemma_cursor_in_range(queue);
            assert(buf_h264@.subrange(0, old(buf_h264)@.len() as int) =~= old(buf_h264)@);
            assert(queue@.pending =~= old(queue)@.pending.remove_keys(
                Set::new(|k: int| old(queue)@.cursor <= k < old(queue)@.cursor + 0),
            ));
        }
        loop
            invariant
                queue.wf(),
                queue@.pending.dom().finite(),
                queue@.cursor == old(queue)@.cursor + count,
                queue@.closed == old(queue)@.closed,
                forall|j: int|
                    old(queue)@.cursor <= j < old(queue)@.cursor + count ==> old(
                        queue,
                    )@.pending.contains_key(j),
                queue@.pending =~= old(queue)@.pending.remove_keys(
                    Set::new(|k: int| old(queue)@.cursor <= k < old(queue)@.cursor + count),
                ),
                buf_h264@.len() >= old(buf_h264)@.len(),
                buf_h264@.subrange(0, old(buf_h264)@.len() as int) == old(buf_h264)@,
            decreases queue@.pending.dom().len(),
        {
            let ghost cursor_before = queue@.cursor;
            let ghost pending_before = queue@.pending;
            match queue.next() {
                Some(frame) => {
                    proof {
                        assert(pending_before.contains_key(cursor_before));
                        assert(old(queue)@.pending.contains_key(cursor_before));
                        assert(old(queue)@.pending[cursor_before] == pending_before[cursor_before]);
                        assert(queue@.pending =~= old(queue)@.pending.remove_keys(
                            Set::new(
                                |k: int|
                                    old(queue)@.cursor <= k < old(queue)@.cursor + (count + 1),
                            ),
                        ));
                        assert(count < u64::MAX) by {
                            assert(queue@.cursor == old(queue)@.cursor + count + 1);
                        }
                    }
                    let yuv = YUVBuf { yuv: frame, width, height };
                    match encode_frame(&mut enc, yuv) {
                        Ok(unit) => {
                            let ghost prior = buf_h264@;
                            buf_h264.extend_from_slice(unit.as_slice());
                            proof {
                                assert(buf_h264@.subrange(0, old(buf_h264)@.len() as int)
                                    =~= old(buf_h264)@);
                            }
                        },
                        Err(e) => {
                            return Err(e);
                        },
                    }
                    count += 1;
                },
                None => {
                    proof {
                        assert(!old(queue)@.pending.contains_key(old(queue)@.cursor
                            + count)) by {
                            if old(queue)@.pending.contains_key(old(queue)@.cursor + count) {
                                assert(queue@.pending.contains_key(queue@.cursor));
                            }
                        }
                    }
                    return Ok(count);
                },
            }
        }
    }

} // verus!
