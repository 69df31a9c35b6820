//! The PCM audio buffer captured alongside video. Audio is accumulated
//! independently of the frame pipeline and handed to the muxer as one final
//! snapshot when the recording stops; synchronisation with video happens only
//! through matched durations.

use vstd::prelude::*;

verus! {

/// An append-only buffer of raw PCM bytes with its stream parameters.
#[derive(Clone, Debug)]
pub struct Pcm {
    /// Interleaved PCM sample bytes.
    pub data: Vec<u8>,
    /// Samples per second per channel.
    pub sample_rate: u32,
    /// Number of interleaved channels.
    pub channels: u16,
    /// Encoded bit rate handed to the container.
    pub bit_rate: usize,
}

impl Pcm {
    /// An empty buffer with all stream parameters unset.
    pub fn new() -> (p: Self)
        ensures
            p.data@.len() == 0,
            p.sample_rate == 0,
            p.channels == 0,
            p.bit_rate == 0,
    {
        Pcm { data: Vec::new(), sample_rate: 0, channels: 0, bit_rate: 0 }
    }
}

/// Whether a PCM buffer holds anything but silence (any nonzero byte).
#[verifier::loop_isolation(false)]
pub fn has_sound(data: &[u8]) -> (r: bool)
    ensures
        r == exists|i: int| 0 <= i < data@.len() && data@[i] != 0,
{
    let n: usize = data.len();
    let mut i: usize = 0;
    while i < n
        invariant
            i <= n,
            forall|k: int| 0 <= k < i ==> data@[k] == 0,
        decreases n - i,
    {
        if data[i] != 0 {
            return true;
        }
        i += 1;
    }
    false
}

} // verus!
