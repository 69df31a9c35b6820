//! A verified recording pipeline: an ordered-merge queue that restores frame
//! order behind parallel colour-conversion workers, a frame pacer that turns
//! an irregular capture stream into a fixed-cadence one, RGBA/YUV 4:2:0
//! colour conversion, an H.264 encoding stage, the duration accounting that
//! keeps muxed audio and video aligned, and the session state machine that
//! coordinates them.

mod audio;
mod convert;
mod encode;
mod mux;
mod ordqueue;
mod pacer;
mod resolution;
mod session;
mod texture;
mod util;

pub use audio::has_sound;
pub use audio::Pcm;
pub use convert::rgb_to_rgba;
pub use convert::rgba_to_yuv;
pub use convert::submit_frame;
pub use convert::yuv_to_rgba;
pub use encode::encode_queue_to_h264;
pub use encode::encode_to_h264;
pub use encode::new_encoder;
pub use encode::EncodeError;
pub use encode::YUVBuf;
pub use mux::audio_duration_ms;
pub use mux::derived_frame_rate;
pub use mux::video_duration_ms;
pub use ordqueue::OrderedMergeQueue;
pub use ordqueue::QueueError;
pub use pacer::CapturedFrame;
pub use pacer::FramePacer;
pub use pacer::PacedFrame;
pub use resolution::ResolutionService;
pub use session::worker_pool_width;
pub use session::RecordingService;
pub use session::SessionError;
pub use session::WritingState;
pub use texture::TextureService;
pub use util::size_of_vec;
