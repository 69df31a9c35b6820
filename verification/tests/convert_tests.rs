use recpipe::{rgb_to_rgba, rgba_to_yuv, yuv_to_rgba};

fn luma_of(r: u8, g: u8, b: u8) -> i64 {
    (66 * r as i64 + 129 * g as i64 + 25 * b as i64 + 4096) / 256
}

/// A 2x2 image of one colour: exact Y, U and V bytes of the BT.601
/// studio-swing formulas.
#[test]
fn single_block_exact_values() {
    // Four pixels of (100, 150, 200).
    let mut rgba: Vec<u8> = Vec::new();
    for _ in 0..4 {
        rgba.extend_from_slice(&[100, 150, 200, 255]);
    }
    let yuv = rgba_to_yuv(&rgba, 2, 2);
    assert_eq!(yuv.len(), 6);
    // (66*100 + 129*150 + 25*200 + 4096) / 256 = 136
    assert_eq!(&yuv[0..4], &[136, 136, 136, 136]);
    // (112*800 + 131072 - 38*400 - 74*600) / 1024 = 157
    assert_eq!(yuv[4], 157);
    // (112*400 + 131072 - 94*600 - 18*800) / 1024 = 102
    assert_eq!(yuv[5], 102);
}

/// The planar layout: full-size Y plane, then quarter-size U and V planes.
#[test]
fn yuv_planes_are_laid_out_in_order() {
    let w = 4usize;
    let h = 4usize;
    let mut rgba = vec![0u8; w * h * 4];
    // Left half black, right half white.
    for y in 0..h {
        for x in 0..w {
            let v = if x < w / 2 { 0u8 } else { 255u8 };
            let base = (y * w + x) * 4;
            rgba[base] = v;
            rgba[base + 1] = v;
            rgba[base + 2] = v;
            rgba[base + 3] = 255;
        }
    }
    let yuv = rgba_to_yuv(&rgba, w, h);
    assert_eq!(yuv.len(), 3 * w * h / 2);
    // Luma: black maps to 16, white to 235.
    for y in 0..h {
        for x in 0..w {
            let expect = if x < w / 2 { 16 } else { 235 };
            assert_eq!(yuv[y * w + x], expect, "luma at ({}, {})", x, y);
        }
    }
    // Chroma of both halves is neutral (gray axis): 128.
    for c in &yuv[w * h..] {
        assert_eq!(*c, 128);
    }
}

/// Converting a known RGBA pattern to YUV 4:2:0 and back (nearest-neighbour
/// chroma upsample) reproduces every luma value within a tolerance of 2.
#[test]
fn round_trip_preserves_luma_within_tolerance() {
    let w = 8usize;
    let h = 8usize;
    let mut rgba = vec![0u8; w * h * 4];
    for y in 0..h {
        for x in 0..w {
            let base = (y * w + x) * 4;
            rgba[base] = ((x * 30) % 256) as u8;
            rgba[base + 1] = ((y * 30) % 256) as u8;
            rgba[base + 2] = ((x * 10 + y * 10) % 256) as u8;
            rgba[base + 3] = 255;
        }
    }
    let yuv = rgba_to_yuv(&rgba, w, h);
    let back = yuv_to_rgba(&yuv, w, h);
    assert_eq!(back.len(), rgba.len());
    for y in 0..h {
        for x in 0..w {
            let base = (y * w + x) * 4;
            let orig = luma_of(rgba[base], rgba[base + 1], rgba[base + 2]);
            let rt = luma_of(back[base], back[base + 1], back[base + 2]);
            assert!(
                (orig - rt).abs() <= 2,
                "luma drift {} at ({}, {})",
                orig - rt,
                x,
                y
            );
            assert_eq!(back[base + 3], 255);
        }
    }
}

/// Packed RGB widens to RGBA with opaque alpha; a trailing partial pixel is
/// ignored.
#[test]
fn rgb_widens_to_rgba() {
    let rgb: Vec<u8> = vec![1, 2, 3, 4, 5, 6, 7, 8];
    let rgba = rgb_to_rgba(&rgb);
    assert_eq!(rgba, vec![1, 2, 3, 255, 4, 5, 6, 255]);
    let empty: Vec<u8> = Vec::new();
    assert_eq!(rgb_to_rgba(&empty), Vec::<u8>::new());
}
