use recpipe::{size_of_vec, ResolutionService, TextureService};
use std::sync::Arc;

/// A well-formed "WIDTHxHEIGHT" string selects that resolution.
#[test]
fn set_resolution_parses_dimensions() {
    let mut r = ResolutionService::new();
    assert_eq!(r.width(), 0);
    assert_eq!(r.height(), 0);
    assert!(r.set_resolution(&String::from("1280x720")));
    assert_eq!(r.width(), 1280);
    assert_eq!(r.height(), 720);
    assert_eq!(r.get_current_resolution(), "1280x720");
    assert!(r.set_resolution(&String::from("640x480")));
    assert_eq!(r.width(), 640);
    assert_eq!(r.height(), 480);
}

/// Malformed strings are rejected and change nothing.
#[test]
fn malformed_resolution_is_rejected() {
    let mut r = ResolutionService::new();
    assert!(r.set_resolution(&String::from("1920x1080")));
    for bad in ["", "x", "1280x", "x720", "1280", "12a0x720", "1280y720", "99999999999x2"] {
        assert!(!r.set_resolution(&String::from(bad)), "{:?} must be rejected", bad);
        assert_eq!(r.width(), 1920);
        assert_eq!(r.height(), 1080);
        assert_eq!(r.get_current_resolution(), "1920x1080");
    }
}

/// The available list is stored and returned; clear forgets everything.
#[test]
fn available_resolutions_and_clear() {
    let mut r = ResolutionService::new();
    let offered = vec![String::from("640x480"), String::from("1280x720")];
    r.set_available_resolutions(&offered);
    assert_eq!(r.get_available_resolutions(), offered);
    assert!(r.set_resolution(&String::from("640x480")));
    r.clear();
    assert_eq!(r.width(), 0);
    assert_eq!(r.height(), 0);
    assert_eq!(r.get_available_resolutions(), Vec::<String>::new());
    assert_eq!(r.get_current_resolution(), "");
}

/// The texture payload is the buffer when its size matches the resolution,
/// and an all-zero buffer of the right size otherwise.
#[test]
fn texture_payload_matches_resolution() {
    let mut r = ResolutionService::new();
    assert!(r.set_resolution(&String::from("2x2")));
    let mut t = TextureService::new(Arc::new(r));
    assert_eq!(t.width(), 2);
    assert_eq!(t.height(), 2);
    // No buffer yet: zero padding of width * height * 4 bytes.
    assert_eq!(t.payload(), vec![0u8; 16]);
    // A matching buffer passes through.
    let data: Vec<u8> = (1..=16).collect();
    t.set_pixel_buffer(data.clone());
    assert_eq!(t.payload(), data);
    // A mismatched buffer (resolution change in flight) is replaced by zeros.
    t.set_pixel_buffer(vec![9u8; 5]);
    assert_eq!(t.payload(), vec![0u8; 16]);
}

/// Taking a payload consumes the buffered frame; until a new one arrives,
/// the last frame handed out stands in.
#[test]
fn take_payload_falls_back_to_last_frame() {
    let mut r = ResolutionService::new();
    assert!(r.set_resolution(&String::from("2x2")));
    let mut t = TextureService::new(Arc::new(r));
    // Nothing buffered yet and no previous frame: zeros.
    assert_eq!(t.take_payload(), vec![0u8; 16]);
    let data: Vec<u8> = (1..=16).collect();
    t.set_pixel_buffer(data.clone());
    assert_eq!(t.take_payload(), data);
    // The frame was consumed, but it still stands in for the next poll.
    assert_eq!(t.take_payload(), data);
    // A mismatched new buffer replaces the fallback and pads to zeros.
    t.set_pixel_buffer(vec![7u8; 3]);
    assert_eq!(t.take_payload(), vec![0u8; 16]);
    assert_eq!(t.take_payload(), vec![0u8; 16]);
}

/// The memory account of a vector: elements plus the vector header.
#[test]
fn vector_size_accounting() {
    let v: Vec<u32> = vec![1, 2, 3];
    let header = std::mem::size_of::<Vec<u32>>();
    assert_eq!(size_of_vec(&v), 3 * 4 + header);
    let empty: Vec<u64> = Vec::new();
    assert_eq!(size_of_vec(&empty), std::mem::size_of::<Vec<u64>>());
}
