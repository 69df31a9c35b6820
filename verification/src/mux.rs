//! Duration accounting for the muxing stage. Audio and video are never
//! interleaved; they stay synchronised only because the container is told a
//! frame rate that makes the video track's duration match the audio track's.
//! These functions compute and relate the two durations.

use vstd::arithmetic::div_mod::lemma_div_multiples_vanish;
use vstd::prelude::*;

verus! {

/// The duration a video track of `frame_count` frames plays at `fps`, in
/// milliseconds (rounded down).
pub open spec fn spec_video_duration_ms(frame_count: u64, fps: u32) -> int {
    frame_count * 1000 / (fps as int)
}

/// The duration a PCM track of `byte_len` bytes plays, in milliseconds
/// (rounded down), given its sample rate, channel count and bytes per sample.
pub open spec fn spec_audio_duration_ms(
    byte_len: u64,
    sample_rate: u32,
    channels: u16,
    bytes_per_sample: u32,
) -> int {
    byte_len * 1000 / (sample_rate * channels * bytes_per_sample)
}

/// The duration a video track of `frame_count` frames plays at `fps`, in
/// milliseconds (rounded down).
pub fn video_duration_ms(frame_count: u64, fps: u32) -> (r: u64)
    requires
        1 <= fps,
        frame_count <= 0x0010_0000_0000_0000,
    ensures
        r == spec_video_duration_ms(frame_count, fps),
{
    frame_count * 1000 / (fps as u64)
}

/// The duration a PCM track of `byte_len` bytes plays, in milliseconds
/// (rounded down).
pub fn audio_duration_ms(byte_len: u64, sample_rate: u32, channels: u16, bytes_per_sample: u32) -> (
    r: u64)
    requires
        1 <= sample_rate <= 1_000_000,
        1 <= channels <= 255,
        1 <= bytes_per_sample <= 8,
        byte_len <= 0x0010_0000_0000_0000,
    ensures
        r == spec_audio_duration_ms(byte_len, sample_rate, channels, bytes_per_sample),
{
    proof {
        assert(1 <= sample_rate as int * channels as int <= 0x1_0000_0000 && 1 <= sample_rate as int
            * channels as int * bytes_per_sample as int <= 0x7D0_0000_0000) by (nonlinear_arith)
            requires
                1 <= sample_rate as int <= 1_000_000,
                1 <= channels as int <= 255,
                1 <= bytes_per_sample as int <= 8,
        ;
    }
    let divisor: u64 = (sample_rate as u64) * (channels as u64) * (bytes_per_sample as u64);
    byte_len * 1000 / divisor
}

/// The frame rate to write into the container in best-effort mode, derived
/// from the achieved frame count and the elapsed wall-clock time, clamped to
/// the valid range: used when the pacer's fixed-rate guarantee was not
/// honoured in a session.
pub open spec fn spec_derived_frame_rate(frame_count: u64, elapsed_ms: u64) -> int {
    let raw = frame_count * 1000 / (elapsed_ms as int);
    if raw < 1 {
        1
    } else if raw > 1000 {
        1000
    } else {
        raw
    }
}

/// The frame rate to write into the container in best-effort mode (see
/// [`spec_derived_frame_rate`]).
pub fn derived_frame_rate(frame_count: u64, elapsed_ms: u64) -> (r: u32)
    requires
        1 <= elapsed_ms,
        frame_count <= 0x0010_0000_0000_0000,
    ensures
        r == spec_derived_frame_rate(frame_count, elapsed_ms),
        crate::pacer::fps_valid(r),
{
    let raw: u64 = frame_count * 1000 / elapsed_ms;
    if raw < 1 {
        1
    } else if raw > 1000 {
        1000
    } else {
        raw as u32
    }
}

/// Law: a paced recording muxes to matched durations.
///
/// If the video track holds exactly `fps` frames per captured second (as the
/// pacer guarantees) and the audio track holds exactly one second of PCM per
/// captured second, then for any whole number of captured seconds the video
/// duration the container derives equals the audio duration exactly — both
/// are the captured time itself.
pub proof fn lemma_av_durations_aligned(
    seconds: u64,
    fps: u32,
    sample_rate: u32,
    channels: u16,
    bytes_per_sample: u32,
)
    requires
        1 <= fps,
        1 <= sample_rate,
        1 <= channels,
        1 <= bytes_per_sample,
        seconds * 1000 <= u64::MAX,
        fps * seconds <= u64::MAX,
        sample_rate * channels * bytes_per_sample * seconds <= u64::MAX,
    ensures
        spec_video_duration_ms((fps * seconds) as u64, fps) == seconds * 1000,
        spec_audio_duration_ms(
            (sample_rate * channels * bytes_per_sample * seconds) as u64,
            sample_rate,
            channels,
            bytes_per_sample,
        ) == seconds * 1000,
{
    let s = seconds as int;
    let f = fps as int;
    let d = sample_rate as int * channels as int * bytes_per_sample as int;
    assert((f * s) * 1000 == f * (s * 1000)) by (nonlinear_arith);
    lemma_div_multiples_vanish(s * 1000, f);
    assert(spec_video_duration_ms((fps * seconds) as u64, fps) == (f * (s * 1000)) / f);
    assert((d * s) * 1000 == d * (s * 1000)) by (nonlinear_arith);
    assert(d >= 1) by (nonlinear_arith)
        requires
            sample_rate as int >= 1,
            channels as int >= 1,
            bytes_per_sample as int >= 1,
            d == sample_rate as int * channels as int * bytes_per_sample as int,
    ;
    lemma_div_multiples_vanish(s * 1000, d);
    assert(spec_audio_duration_ms(
        (sample_rate * channels * bytes_per_sample * seconds) as u64,
        sample_rate,
        channels,
        bytes_per_sample,
    ) == (d * (s * 1000)) / d);
}

} // verus!
