use recpipe::{
    has_sound, worker_pool_width, Pcm, RecordingService, SessionError, WritingState,
};

/// Starting while already recording is rejected and resets nothing.
#[test]
fn double_start_is_rejected() {
    let mut s = RecordingService::new();
    assert_eq!(s.start(1_000), Ok(()));
    assert!(s.is_recording());
    assert_eq!(s.start(5_000), Err(SessionError::AlreadyRecording));
    assert!(s.is_recording());
    // The in-flight start time was not reset by the rejected start.
    s.stop(3_000);
    assert_eq!(s.time_elapsed_ms, 2_000);
}

/// Stop freezes the elapsed time and lowers the recording flag; the session
/// is reusable for the next cycle.
#[test]
fn stop_freezes_elapsed_time() {
    let mut s = RecordingService::new();
    assert_eq!(s.start(10_000), Ok(()));
    s.stop(12_500);
    assert!(!s.is_recording());
    assert_eq!(s.time_elapsed_ms, 2_500);
    // A new cycle resets the account.
    assert_eq!(s.start(20_000), Ok(()));
    assert_eq!(s.time_elapsed_ms, 0);
    s.stop(21_000);
    assert_eq!(s.time_elapsed_ms, 1_000);
}

/// The writing phase drives the silence flag: any non-idle phase mutes
/// capture.
#[test]
fn writing_state_drives_white_sound() {
    let mut s = RecordingService::new();
    assert!(!s.capture_white_sound);
    s.set_writing_state(WritingState::Encoding);
    assert_eq!(s.writing_state, WritingState::Encoding);
    assert!(s.capture_white_sound);
    s.set_writing_state(WritingState::Saving);
    assert!(s.capture_white_sound);
    s.set_writing_state(WritingState::Idle);
    assert!(!s.capture_white_sound);
}

/// State names round-trip through their string form; unknown names mean
/// Idle.
#[test]
fn writing_state_names_round_trip() {
    assert_eq!(WritingState::Encoding.to_str(), "Encoding");
    assert_eq!(WritingState::Saving.to_str(), "Saving");
    assert_eq!(WritingState::Idle.to_str(), "Idle");
    assert_eq!(WritingState::from_str("Encoding"), WritingState::Encoding);
    assert_eq!(WritingState::from_str("Saving"), WritingState::Saving);
    assert_eq!(WritingState::from_str("Idle"), WritingState::Idle);
    assert_eq!(WritingState::from_str("garbage"), WritingState::Idle);
    assert_eq!(WritingState::from_str(""), WritingState::Idle);
    for st in [WritingState::Encoding, WritingState::Saving, WritingState::Idle] {
        assert_eq!(WritingState::from_str(st.to_str()), st);
    }
}

/// The conversion pool widens from 2 to 8 workers only while saving.
#[test]
fn pool_width_follows_writing_phase() {
    assert_eq!(worker_pool_width(WritingState::Idle), 2);
    assert_eq!(worker_pool_width(WritingState::Encoding), 2);
    assert_eq!(worker_pool_width(WritingState::Saving), 8);
}

/// A fresh PCM buffer is empty with unset parameters; silence detection sees
/// any nonzero byte.
#[test]
fn pcm_and_sound_detection() {
    let p = Pcm::new();
    assert_eq!(p.data.len(), 0);
    assert_eq!(p.sample_rate, 0);
    assert_eq!(p.channels, 0);
    assert_eq!(p.bit_rate, 0);
    assert!(!has_sound(&[]));
    assert!(!has_sound(&[0, 0, 0, 0]));
    assert!(has_sound(&[0, 0, 1, 0]));
    assert!(has_sound(&[255]));
}
