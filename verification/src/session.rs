//! The recording session state machine: the shared `recording` flag, the
//! writing phase shown to observers, and elapsed-time accounting. One session
//! object is reused across record/stop cycles; only one recording may be
//! active at a time, so starting while already recording is rejected rather
//! than silently restarting.

use vstd::prelude::*;

verus! {

broadcast use vstd::utf8::encode_utf8_decode_utf8;

/// The phase of the encode/save path, shown to observers while a stopped
/// recording is still being written out.
#[derive(Clone, Copy, Debug, PartialEq, Eq, Structural)]
pub enum WritingState {
    /// Frames are being encoded to the elementary stream.
    Encoding,
    /// The container is being muxed and written to disk.
    Saving,
    /// No write in progress; the session is ready to record.
    Idle,
}

/// The writing state a name denotes; unknown names fall back to `Idle`.
pub open spec fn writing_state_of(s: Seq<char>) -> WritingState {
    if s == "Encoding"@ {
        WritingState::Encoding
    } else if s == "Saving"@ {
        WritingState::Saving
    } else {
        WritingState::Idle
    }
}

impl WritingState {
    /// The display name of this state.
    pub fn to_str(&self) -> (r: &'static str)
        ensures
            *self is Encoding ==> r@ == "Encoding"@,
            *self is Saving ==> r@ == "Saving"@,
            *self is Idle ==> r@ == "Idle"@,
            writing_state_of(r@) == *self,
    {
        proof {
            reveal_strlit("Encoding");
            reveal_strlit("Saving");
            reveal_strlit("Idle");
            assert(writing_state_of("Encoding"@) == WritingState::Encoding);
            assert("Encoding"@.len() == 8 && "Saving"@.len() == 6 && "Idle"@.len() == 4);
            assert("Saving"@ != "Encoding"@ && "Idle"@ != "Encoding"@ && "Idle"@ != "Saving"@);
            assert(writing_state_of("Saving"@) == WritingState::Saving);
            assert(writing_state_of("Idle"@) == WritingState::Idle);
        }
        match self {
            WritingState::Encoding => "Encoding",
            WritingState::Saving => "Saving",
            WritingState::Idle => "Idle",
        }
    }

    /// The state named by `s`; any unknown name means `Idle`.
    pub fn from_str(s: &str) -> (r: Self)
        ensures
            r == writing_state_of(s@),
    {
        if str_eq(s, "Encoding") {
            WritingState::Encoding
        } else if str_eq(s, "Saving") {
            WritingState::Saving
        } else {
            WritingState::Idle
        }
    }
}

/// Error returned when a session operation is not allowed in the current
/// state.
#[derive(Clone, Copy, Debug, PartialEq, Eq, Structural)]
pub enum SessionError {
    /// `start` was called while a recording was already active.
    AlreadyRecording,
}

/// The recording session: owns the `recording` flag read by capture and
/// pacing, the writing phase, the session start time and the elapsed-time
/// account frozen at stop. Time is injected by the caller as milliseconds of
/// a monotonic clock, so the accounting itself is pure.
pub struct RecordingService {
    /// Whether a recording is active (capture and pacing produce frames).
    pub recording: bool,
    /// The phase of the encode/save path.
    pub writing_state: WritingState,
    /// Monotonic time at which the active recording started, in ms.
    pub started_ms: u64,
    /// Elapsed time of the last finished recording, in ms.
    pub time_elapsed_ms: u64,
    /// Whether the audio callback should substitute silence (it does while a
    /// previous take is still being written out).
    pub capture_white_sound: bool,
}

impl RecordingService {
    /// A fresh, idle session.
    pub fn new() -> (s: Self)
        ensures
            !s.recording,
            s.writing_state is Idle,
            s.started_ms == 0,
            s.time_elapsed_ms == 0,
            !s.capture_white_sound,
    {
        RecordingService {
            recording: false,
            writing_state: WritingState::Idle,
            started_ms: 0,
            time_elapsed_ms: 0,
            capture_white_sound: false,
        }
    }

    /// Begin a recording at monotonic time `now_ms`: resets the elapsed-time
    /// account and raises the `recording` flag.
    ///
    /// Starting while already recording is a protocol error: it is rejected
    /// and the in-flight state is left untouched.
    pub fn start(&mut self, now_ms: u64) -> (r: Result<(), SessionError>)
        ensures
            old(self).recording ==> r == Err::<(), SessionError>(SessionError::AlreadyRecording)
                && *final(self) == *old(self),
            !old(self).recording ==> r == Ok::<(), SessionError>(()) && final(self).recording
                && final(self).started_ms == now_ms && final(self).time_elapsed_ms == 0
                && final(self).writing_state == old(self).writing_state
                && final(self).capture_white_sound == old(self).capture_white_sound,
    {
        if self.recording {
            return Err(SessionError::AlreadyRecording);
        }
        self.recording = true;
        self.started_ms = now_ms;
        self.time_elapsed_ms = 0;
        Ok(())
    }

    /// Stop the active recording at monotonic time `now_ms`: lowers the
    /// `recording` flag and freezes the elapsed time. Capture stops; frames
    /// already in flight keep draining through the pipeline.
    pub fn stop(&mut self, now_ms: u64)
        requires
            now_ms >= old(self).started_ms,
        ensures
            !final(self).recording,
            final(self).time_elapsed_ms == now_ms - old(self).started_ms,
            final(self).started_ms == old(self).started_ms,
            final(self).writing_state == old(self).writing_state,
            final(self).capture_white_sound == old(self).capture_white_sound,
    {
        self.recording = false;
        self.time_elapsed_ms = now_ms - self.started_ms;
    }

    /// Enter a writing phase; audio switches to silence whenever a write is
    /// in progress, and back once the session is idle again.
    pub fn set_writing_state(&mut self, state: WritingState)
        ensures
            final(self).writing_state == state,
            final(self).capture_white_sound == !(state is Idle),
            final(self).recording == old(self).recording,
            final(self).started_ms == old(self).started_ms,
            final(self).time_elapsed_ms == old(self).time_elapsed_ms,
    {
        self.writing_state = state;
        self.capture_white_sound = !(state == WritingState::Idle);
    }

    /// Whether a recording is active.
    pub fn is_recording(&self) -> (r: bool)
        ensures
            r == self.recording,
    {
        self.recording
    }
}

/// The colour-conversion pool width for a writing phase: small while the
/// display path still competes for the CPU, widened once the session is
/// saving and capture has ended.
pub fn worker_pool_width(state: WritingState) -> (n: usize)
    ensures
        state is Saving ==> n == 8,
        !(state is Saving) ==> n == 2,
{
    if state == WritingState::Saving {
        8
    } else {
        2
    }
}

/// Whether two strings hold the same characters.
fn str_eq(s: &str, pat: &str) -> (r: bool)
    ensures
        r == (s@ == pat@),
{
    let a = s.as_bytes();
    let b = pat.as_bytes();
    let r = bytes_eq(a, b);
    proof {
        if a@ == b@ {
            assert(vstd::utf8::decode_utf8(vstd::utf8::encode_utf8(s@)) == s@);
            assert(vstd::utf8::decode_utf8(vstd::utf8::encode_utf8(pat@)) == pat@);
        }
        if s@ == pat@ {
            assert(a@ =~= b@);
        }
    }
    r
}

/// Whether two byte slices hold the same bytes.
#[verifier::loop_isolation(false)]
fn bytes_eq(a: &[u8], b: &[u8]) -> (r: bool)
    ensures
        r == (a@ =~= b@),
{
    if a.len() != b.len() {
        return false;
    }
    let n: usize = a.len();
    let mut i: usize = 0;
    while i < n
        invariant
            i <= n,
            forall|k: int| 0 <= k < i ==> a@[k] == b@[k],
        decreases n - i,
    {
        if a[i] != b[i] {
            return false;
        }
        i += 1;
    }
    true
}

} // verus!
