use recpipe::{
    audio_duration_ms, derived_frame_rate, encode_queue_to_h264, encode_to_h264, rgba_to_yuv,
    submit_frame, video_duration_ms, CapturedFrame, FramePacer, OrderedMergeQueue, Pcm,
    RecordingService,
};

fn synthetic_rgba(tag: u8, w: usize, h: usize) -> Vec<u8> {
    let mut rgba = vec![0u8; w * h * 4];
    for y in 0..h {
        for x in 0..w {
            let base = (y * w + x) * 4;
            rgba[base] = tag.wrapping_mul(3).wrapping_add(x as u8);
            rgba[base + 1] = tag.wrapping_add(y as u8);
            rgba[base + 2] = (x as u8).wrapping_add(y as u8);
            rgba[base + 3] = 255;
        }
    }
    rgba
}

/// A full session: two seconds of irregular capture paced to 24 fps, the 48
/// paced frames converted and merged back into order, encoded to one H.264
/// elementary stream, with the video duration the container would be told
/// matching the audio duration exactly.
#[test]
fn session_of_48_frames_keeps_audio_and_video_aligned() {
    let w = 64usize;
    let h = 48usize;
    let fps = 24u32;

    let mut session = RecordingService::new();
    assert_eq!(session.start(100_000), Ok(()));

    // Capture: ~24 fps with jitter, two full seconds, one trailing frame.
    let tick = 1_000_000u64 / fps as u64;
    let mut capture: Vec<CapturedFrame> = (0..49u64)
        .map(|i| CapturedFrame {
            data: synthetic_rgba(i as u8, w, h),
            timestamp_us: i * tick + (i % 3) * 700,
        })
        .collect();
    capture.push(CapturedFrame { data: synthetic_rgba(200, w, h), timestamp_us: 2_100_000 });

    // Pace until nothing more completes a second.
    let mut pacer = FramePacer::new(fps);
    let mut paced = Vec::new();
    loop {
        match pacer.pace(&capture) {
            Some((emitted, consumed)) => {
                paced.extend(emitted);
                capture.drain(0..consumed);
            }
            None => break,
        }
    }
    assert_eq!(paced.len(), 48, "exactly fps frames per elapsed second");
    for (k, f) in paced.iter().enumerate() {
        assert_eq!(f.seq_index, k as u64);
    }

    // Stop after the two captured seconds; encode of in-flight frames goes on.
    session.stop(102_000);
    assert_eq!(session.time_elapsed_ms, 2_000);

    // Convert out of order (as a worker pool would finish), merge in order.
    let mut queue: OrderedMergeQueue<Vec<u8>> = OrderedMergeQueue::new();
    paced.reverse();
    for f in &paced {
        assert_eq!(submit_frame(&mut queue, f.seq_index, &f.data, w, h), Ok(()));
    }
    queue.close();

    // Sequential encode in sequence order.
    let mut stream: Vec<u8> = Vec::new();
    let count = encode_queue_to_h264(&mut queue, &mut stream, w, h).expect("encoding succeeds");
    assert_eq!(count, 48);
    assert!(queue.is_finished());
    assert!(!stream.is_empty());

    // Two seconds of PCM: 8000 Hz, 1 channel, 2 bytes per sample.
    let mut audio = Pcm::new();
    audio.sample_rate = 8000;
    audio.channels = 1;
    audio.bit_rate = 128_000;
    audio.data = vec![1u8; 8000 * 2 * 2];

    // The container is told the pacer's rate; the durations then agree to
    // less than one frame interval (here: exactly).
    let video_ms = video_duration_ms(count, fps);
    let audio_ms = audio_duration_ms(audio.data.len() as u64, audio.sample_rate, audio.channels, 2);
    assert_eq!(video_ms, 2_000);
    assert_eq!(audio_ms, 2_000);
    assert!(video_ms.abs_diff(audio_ms) < (1_000 / fps as u64));

    // Best-effort mode would derive the same rate from this session.
    assert_eq!(derived_frame_rate(count, session.time_elapsed_ms), fps);
}

/// The fixed-resolution batch encoder produces a nonempty stream for one
/// 1280x720 frame.
#[test]
fn batch_encoder_handles_full_resolution() {
    let frame = rgba_to_yuv(&synthetic_rgba(7, 1280, 720), 1280, 720);
    let stream = encode_to_h264(vec![frame]).expect("encoding succeeds");
    assert!(!stream.is_empty());
}

/// The queue-driven encoder stops exactly at the first missing index and
/// resumes once it arrives.
#[test]
fn encoder_drain_stops_at_gap() {
    let w = 64usize;
    let h = 48usize;
    let mut queue: OrderedMergeQueue<Vec<u8>> = OrderedMergeQueue::new();
    let frames: Vec<Vec<u8>> =
        (0..4u8).map(|i| rgba_to_yuv(&synthetic_rgba(i, w, h), w, h)).collect();
    // Frames 0, 1 and 3 arrive; 2 is still in flight.
    assert_eq!(queue.push(0, frames[0].clone()), Ok(()));
    assert_eq!(queue.push(1, frames[1].clone()), Ok(()));
    assert_eq!(queue.push(3, frames[3].clone()), Ok(()));
    let mut stream: Vec<u8> = Vec::new();
    let count = encode_queue_to_h264(&mut queue, &mut stream, w, h).expect("encoding succeeds");
    assert_eq!(count, 2);
    assert_eq!(queue.cursor(), 2);
    let after_two = stream.len();
    assert!(after_two > 0);
    // The missing frame arrives: the drain resumes in order.
    assert_eq!(queue.push(2, frames[2].clone()), Ok(()));
    let count2 = encode_queue_to_h264(&mut queue, &mut stream, w, h).expect("encoding succeeds");
    assert_eq!(count2, 2);
    assert_eq!(queue.cursor(), 4);
    // The stream was appended to, never rewritten.
    assert!(stream.len() > after_two);
}
