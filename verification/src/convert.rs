//! Colour conversion between RGBA and planar YUV 4:2:0 (BT.601 studio
//! swing). The forward conversion writes one luma byte per pixel and one pair
//! of chroma bytes per 2x2 pixel block (averaged); the backward conversion
//! upsamples chroma by nearest neighbour. Both are pure integer arithmetic,
//! so they are reproducible exactly on every machine.

use crate::ordqueue::OrderedMergeQueue;
use crate::ordqueue::QueueError;
use vstd::prelude::*;

verus! {

/// One colour byte of the pixel at `(x, y)` in a row-major RGBA buffer of
/// width `w` (4 bytes per pixel; `c` is 0 for red, 1 for green, 2 for blue,
/// 3 for alpha).
pub open spec fn px(rgba: Seq<u8>, w: int, x: int, y: int, c: int) -> u8 {
    rgba[(y * w + x) * 4 + c]
}

/// BT.601 studio-swing luma of one pixel: `(66 r + 129 g + 25 b) / 256 + 16`,
/// rounded down. Always within `16 ..= 235`.
pub open spec fn luma(r: u8, g: u8, b: u8) -> int {
    (66 * (r as int) + 129 * (g as int) + 25 * (b as int) + 4096) / 256
}

/// BT.601 chroma U (blue difference) of a 2x2 block whose summed red, green
/// and blue values are `sr`, `sg`, `sb`: `(-38 r - 74 g + 112 b) / 256 + 128`
/// on the block average, rounded down.
pub open spec fn chroma_u(sr: int, sg: int, sb: int) -> int {
    (112 * sb + 131072 - 38 * sr - 74 * sg) / 1024
}

/// BT.601 chroma V (red difference) of a 2x2 block with summed colours
/// `sr`, `sg`, `sb`: `(112 r - 94 g - 18 b) / 256 + 128` on the block
/// average, rounded down.
pub open spec fn chroma_v(sr: int, sg: int, sb: int) -> int {
    (112 * sr + 131072 - 94 * sg - 18 * sb) / 1024
}

/// The summed value of colour channel `c` over the 2x2 pixel block at block
/// coordinates `(i, j)` (pixels `(2i, 2j)` through `(2i+1, 2j+1)`).
pub open spec fn block_sum(rgba: Seq<u8>, w: int, i: int, j: int, c: int) -> int {
    px(rgba, w, 2 * i, 2 * j, c) as int + px(rgba, w, 2 * i, 2 * j + 1, c) as int + px(
        rgba,
        w,
        2 * i + 1,
        2 * j,
        c,
    ) as int + px(rgba, w, 2 * i + 1, 2 * j + 1, c) as int
}

/// Scale a fixed-point value down by 256 and clamp it into a byte.
pub open spec fn scale8(n: int) -> int {
    if n < 0 {
        0
    } else if n / 256 > 255 {
        255
    } else {
        n / 256
    }
}

/// BT.601 studio-swing inverse: the red byte recovered from luma `y` and
/// chroma `v`.
pub open spec fn inv_r(y: int, v: int) -> int {
    scale8(298 * (y - 16) + 409 * (v - 128) + 128)
}

/// BT.601 studio-swing inverse: the green byte recovered from luma `y` and
/// chroma `u`, `v`.
pub open spec fn inv_g(y: int, u: int, v: int) -> int {
    scale8(298 * (y - 16) - 100 * (u - 128) - 208 * (v - 128) + 128)
}

/// BT.601 studio-swing inverse: the blue byte recovered from luma `y` and
/// chroma `u`.
pub open spec fn inv_b(y: int, u: int) -> int {
    scale8(298 * (y - 16) + 516 * (u - 128) + 128)
}

/// The luma byte of one pixel.
fn luma_byte(r: u8, g: u8, b: u8) -> (y: u8)
    ensures
        y as int == luma(r, g, b),
{
    let n: u32 = 66 * (r as u32) + 129 * (g as u32) + 25 * (b as u32) + 4096;
    (n / 256) as u8
}

/// The chroma U byte of a 2x2 block from its summed colours.
fn chroma_u_byte(sr: u32, sg: u32, sb: u32) -> (u: u8)
    requires
        sr <= 1020,
        sg <= 1020,
        sb <= 1020,
    ensures
        u as int == chroma_u(sr as int, sg as int, sb as int),
{
    let n: u32 = 112 * sb + 131072 - 38 * sr - 74 * sg;
    (n / 1024) as u8
}

/// The chroma V byte of a 2x2 block from its summed colours.
fn chroma_v_byte(sr: u32, sg: u32, sb: u32) -> (v: u8)
    requires
        sr <= 1020,
        sg <= 1020,
        sb <= 1020,
    ensures
        v as int == chroma_v(sr as int, sg as int, sb as int),
{
    let n: u32 = 112 * sr + 131072 - 94 * sg - 18 * sb;
    (n / 1024) as u8
}

/// One recovered colour byte from a fixed-point value scaled by 256.
fn scale8_byte(n: i32) -> (r: u8)
    requires
        -16_000_000 <= n <= 16_000_000,
    ensures
        r as int == scale8(n as int),
{
    if n < 0 {
        0
    } else {
        let q: u32 = (n as u32) / 256;
        if q > 255 {
            255
        } else {
            q as u8
        }
    }
}

/// The Y plane of an RGBA image: one luma byte per pixel, row-major.
#[verifier::loop_isolation(false)]
fn build_luma_plane(rgba: &[u8], width: usize, height: usize) -> (yp: Vec<u8>)
    requires
        rgba@.len() == 4 * width * height,
    ensures
        yp@.len() == width * height,
        forall|x: int, y: int|
            #![trigger yp@[y * width + x]]
            0 <= x < width && 0 <= y < height ==> yp@[y * width + x] as int == luma(
                px(rgba@, width as int, x, y, 0),
                px(rgba@, width as int, x, y, 1),
                px(rgba@, width as int, x, y, 2),
            ),
{
    let n: usize = rgba.len();
    let mut yp: Vec<u8> = Vec::new();
    let mut y: usize = 0;
    while y < height
        invariant
            y <= height,
            yp@.len() == y * width,
            forall|x2: int, y2: int|
                #![trigger yp@[y2 * width + x2]]
                0 <= x2 < width && 0 <= y2 < y ==> yp@[y2 * width + x2] as int == luma(
                    px(rgba@, width as int, x2, y2, 0),
                    px(rgba@, width as int, x2, y2, 1),
                    px(rgba@, width as int, x2, y2, 2),
                ),
        decreases height - y,
    {
        let mut x: usize = 0;
        while x < width
            invariant
                x <= width,
                y < height,
                yp@.len() == y * width + x,
                forall|x2: int, y2: int|
                    #![trigger yp@[y2 * width + x2]]
                    0 <= x2 < width && 0 <= y2 < height && (y2 < y || (y2 == y && x2 < x))
                        ==> yp@[y2 * width + x2] as int == luma(
                        px(rgba@, width as int, x2, y2, 0),
                        px(rgba@, width as int, x2, y2, 1),
                        px(rgba@, width as int, x2, y2, 2),
                    ),
            decreases width - x,
        {
            proof {
                assert((y * width + x) * 4 + 3 < 4 * width * height) by (nonlinear_arith)
                    requires
                        0 <= x < width,
                        0 <= y < height,
                ;
            }
            let base: usize = (y * width + x) * 4;
            let l = luma_byte(rgba[base], rgba[base + 1], rgba[base + 2]);
            let ghost before = yp@;
            yp.push(l);
            proof {
                assert forall|x2: int, y2: int|
                    #![trigger yp@[y2 * width + x2]]
                    0 <= x2 < width && 0 <= y2 < height && (y2 < y || (y2 == y && x2 < x
                        + 1)) implies yp@[y2 * width + x2] as int == luma(
                    px(rgba@, width as int, x2, y2, 0),
                    px(rgba@, width as int, x2, y2, 1),
                    px(rgba@, width as int, x2, y2, 2),
                ) by {
                    if y2 == y && x2 == x {
                        assert(yp@[y2 * width + x2] == l);
                    } else {
                        assert(y2 * width + x2 < y * width + x) by (nonlinear_arith)
                            requires
                                0 <= x2 < width,
                                0 <= y2,
                                y2 < y || (y2 == y && x2 < x),
                        ;
                        assert(yp@[y2 * width + x2] == before[y2 * width + x2]);
                        assert(before[y2 * width + x2] as int == luma(
                            px(rgba@, width as int, x2, y2, 0),
                            px(rgba@, width as int, x2, y2, 1),
                            px(rgba@, width as int, x2, y2, 2),
                        ));
                    }
                }
            }
            x += 1;
        }
        y += 1;
        proof {
            assert((y - 1) * width + width == y * width) by (nonlinear_arith);
        }
    }
    yp
}

/// The U and V planes of an RGBA image: one byte each per 2x2 pixel block,
/// row-major over block coordinates, chroma taken on the block average.
#[verifier::loop_isolation(false)]
fn build_chroma_planes(rgba: &[u8], width: usize, height: usize) -> (uv: (Vec<u8>, Vec<u8>))
    requires
        width % 2 == 0,
        height % 2 == 0,
        rgba@.len() == 4 * width * height,
    ensures
        uv.0@.len() == (width / 2) * (height / 2),
        uv.1@.len() == (width / 2) * (height / 2),
        forall|i: int, j: int|
            #![trigger uv.0@[j * (width / 2) + i]]
            0 <= i < width / 2 && 0 <= j < height / 2 ==> uv.0@[j * (width / 2) + i] as int
                == chroma_u(
                block_sum(rgba@, width as int, i, j, 0),
                block_sum(rgba@, width as int, i, j, 1),
                block_sum(rgba@, width as int, i, j, 2),
            ),
        forall|i: int, j: int|
            #![trigger uv.1@[j * (width / 2) + i]]
            0 <= i < width / 2 && 0 <= j < height / 2 ==> uv.1@[j * (width / 2) + i] as int
                == chroma_v(
                block_sum(rgba@, width as int, i, j, 0),
                block_sum(rgba@, width as int, i, j, 1),
                block_sum(rgba@, width as int, i, j, 2),
            ),
{
    let n: usize = rgba.len();
    let a: usize = width / 2;
    let b: usize = height / 2;
    let mut up: Vec<u8> = Vec::new();
    let mut vp: Vec<u8> = Vec::new();
    let mut j: usize = 0;
    while j < b
        invariant
            j <= b,
            up@.len() == j * a,
            vp@.len() == j * a,
            forall|i2: int, j2: int|
                #![trigger up@[j2 * a + i2]]
                0 <= i2 < a && 0 <= j2 < j ==> up@[j2 * a + i2] as int == chroma_u(
                    block_sum(rgba@, width as int, i2, j2, 0),
                    block_sum(rgba@, width as int, i2, j2, 1),
                    block_sum(rgba@, width as int, i2, j2, 2),
                ),
            forall|i2: int, j2: int|
                #![trigger vp@[j2 * a + i2]]
                0 <= i2 < a && 0 <= j2 < j ==> vp@[j2 * a + i2] as int == chroma_v(
                    block_sum(rgba@, width as int, i2, j2, 0),
                    block_sum(rgba@, width as int, i2, j2, 1),
                    block_sum(rgba@, width as int, i2, j2, 2),
                ),
        decreases b - j,
    {
        let mut i: usize = 0;
        while i < a
            invariant
                i <= a,
                j < b,
                up@.len() == j * a + i,
                vp@.len() == j * a + i,
                forall|i2: int, j2: int|
                    #![trigger up@[j2 * a + i2]]
                    0 <= i2 < a && 0 <= j2 < b && (j2 < j || (j2 == j && i2 < i)) ==> up@[j2 * a
                        + i2] as int == chroma_u(
                        block_sum(rgba@, width as int, i2, j2, 0),
                        block_sum(rgba@, width as int, i2, j2, 1),
                        block_sum(rgba@, width as int, i2, j2, 2),
                    ),
                forall|i2: int, j2: int|
                    #![trigger vp@[j2 * a + i2]]
                    0 <= i2 < a && 0 <= j2 < b && (j2 < j || (j2 == j && i2 < i)) ==> vp@[j2 * a
                        + i2] as int == chroma_v(
                        block_sum(rgba@, width as int, i2, j2, 0),
                        block_sum(rgba@, width as int, i2, j2, 1),
                        block_sum(rgba@, width as int, i2, j2, 2),
                    ),
            decreases a - i,
        {
            let px_: usize = 2 * i;
            let py_: usize = 2 * j;
            proof {
                assert(2 * i + 1 < width && 2 * j + 1 < height) by (nonlinear_arith)
                    requires
                        0 <= i < a,
                        0 <= j < b,
                        a == width / 2,
                        b == height / 2,
                        width % 2 == 0,
                        height % 2 == 0,
                ;
                assert(((py_ + 1) * width + px_ + 1) * 4 + 3 < 4 * width * height)
                    by (nonlinear_arith)
                    requires
                        0 <= px_,
                        px_ + 1 < width,
                        0 <= py_,
                        py_ + 1 < height,
                ;
                assert((py_ * width + px_ + 1) * 4 + 3 < ((py_ + 1) * width + px_) * 4)
                    by (nonlinear_arith)
                    requires
                        0 <= px_,
                        px_ + 1 < width,
                        0 <= py_,
                ;
                assert(py_ * width + px_ <= ((py_ + 1) * width + px_ + 1) * 4 + 3)
                    by (nonlinear_arith)
                    requires
                        0 <= px_,
                        0 <= py_,
                        0 <= width,
                ;
                assert(n == rgba@.len());
            }
            let base00: usize = (py_ * width + px_) * 4;
            let base01: usize = ((py_ + 1) * width + px_) * 4;
            let base10: usize = base00 + 4;
            let base11: usize = base01 + 4;
            let sr: u32 = rgba[base00] as u32 + rgba[base01] as u32 + rgba[base10] as u32
                + rgba[base11] as u32;
            let sg: u32 = rgba[base00 + 1] as u32 + rgba[base01 + 1] as u32 + rgba[base10
                + 1] as u32 + rgba[base11 + 1] as u32;
            let sb: u32 = rgba[base00 + 2] as u32 + rgba[base01 + 2] as u32 + rgba[base10
                + 2] as u32 + rgba[base11 + 2] as u32;
            proof {
                assert(sr as int == block_sum(rgba@, width as int, i as int, j as int, 0));
                assert(sg as int == block_sum(rgba@, width as int, i as int, j as int, 1));
                assert(sb as int == block_sum(rgba@, width as int, i as int, j as int, 2));
            }
            let cu = chroma_u_byte(sr, sg, sb);
            let cv = chroma_v_byte(sr, sg, sb);
            let ghost up_before = up@;
            let ghost vp_before = vp@;
            up.push(cu);
            vp.push(cv);
            proof {
                assert forall|i2: int, j2: int|
                    #![trigger up@[j2 * a + i2]]
                    0 <= i2 < a && 0 <= j2 < b && (j2 < j || (j2 == j && i2 < i + 1)) implies up@[j2
                    * a + i2] as int == chroma_u(
                    block_sum(rgba@, width as int, i2, j2, 0),
                    block_sum(rgba@, width as int, i2, j2, 1),
                    block_sum(rgba@, width as int, i2, j2, 2),
                ) by {
                    if j2 == j && i2 == i {
                        assert(up@[j2 * a + i2] == cu);
                    } else {
                        assert(j2 * a + i2 < j * a + i) by (nonlinear_arith)
                            requires
                                0 <= i2 < a,
                                0 <= j2,
                                j2 < j || (j2 == j && i2 < i),
                        ;
                        assert(up@[j2 * a + i2] == up_before[j2 * a + i2]);
                    }
                }
                assert forall|i2: int, j2: int|
                    #![trigger vp@[j2 * a + i2]]
                    0 <= i2 < a && 0 <= j2 < b && (j2 < j || (j2 == j && i2 < i + 1)) implies vp@[j2
                    * a + i2] as int == chroma_v(
                    block_sum(rgba@, width as int, i2, j2, 0),
                    block_sum(rgba@, width as int, i2, j2, 1),
                    block_sum(rgba@, width as int, i2, j2, 2),
                ) by {
                    if j2 == j && i2 == i {
                        assert(vp@[j2 * a + i2] == cv);
                    } else {
                        assert(j2 * a + i2 < j * a + i) by (nonlinear_arith)
                            requires
                                0 <= i2 < a,
                                0 <= j2,
                                j2 < j || (j2 == j && i2 < i),
                        ;
                        assert(vp@[j2 * a + i2] == vp_before[j2 * a + i2]);
                    }
                }
            }
            i += 1;
        }
        j += 1;
        proof {
            assert((j - 1) * a + a == j * a) by (nonlinear_arith);
        }
    }
    proof {
        assert(up@.len() == b * a);
        assert(b * a == a * b) by (nonlinear_arith);
    }
    (up, vp)
}

/// Convert a row-major RGBA image to planar YUV 4:2:0: the full-size Y plane,
/// then the quarter-size U and V planes, each chroma byte covering one 2x2
/// pixel block (averaged). Integer arithmetic only, identical on every
/// machine.
#[verifier::loop_isolation(false)]
pub fn rgba_to_yuv(rgba: &[u8], width: usize, height: usize) -> (r: Vec<u8>)
    requires
        width % 2 == 0,
        height % 2 == 0,
        rgba@.len() == 4 * width * height,
    ensures
        r@.len() == 3 * (width * height) / 2,
        forall|x: int, y: int|
            #![trigger r@[y * width + x]]
            0 <= x < width && 0 <= y < height ==> r@[y * width + x] as int == luma(
                px(rgba@, width as int, x, y, 0),
                px(rgba@, width as int, x, y, 1),
                px(rgba@, width as int, x, y, 2),
            ),
        forall|i: int, j: int|
            #![trigger r@[width * height + j * (width / 2) + i]]
            0 <= i < width / 2 && 0 <= j < height / 2 ==> r@[width * height + j * (width / 2)
                + i] as int == chroma_u(
                block_sum(rgba@, width as int, i, j, 0),
                block_sum(rgba@, width as int, i, j, 1),
                block_sum(rgba@, width as int, i, j, 2),
            ),
        forall|i: int, j: int|
            #![trigger r@[width * height + (width * height) / 4 + j * (width / 2) + i]]
            0 <= i < width / 2 && 0 <= j < height / 2 ==> r@[width * height + (width * height) / 4
                + j * (width / 2) + i] as int == chroma_v(
                block_sum(rgba@, width as int, i, j, 0),
                block_sum(rgba@, width as int, i, j, 1),
                block_sum(rgba@, width as int, i, j, 2),
            ),
{
    let ghost a = (width / 2) as int;
    let ghost b = (height / 2) as int;
    proof {
        assert(width * height == 4 * (a * b) && (width * height) % 4 == 0 && 3 * (width * height)
            / 2 == 6 * (a * b) && (width * height) / 4 == a * b) by (nonlinear_arith)
            requires
                width % 2 == 0,
                height % 2 == 0,
                a == width / 2,
                b == height / 2,
        ;
    }
    let yp = build_luma_plane(rgba, width, height);
    let (mut up, mut vp) = build_chroma_planes(rgba, width, height);
    let ghost ys = yp@;
    let ghost us = up@;
    let ghost vs = vp@;
    let mut out = yp;
    out.append(&mut up);
    out.append(&mut vp);
    proof {
        assert(out@ =~= ys + us + vs);
        let w = width as int;
        let wh = width * height;
        assert forall|x: int, y: int|
            #![trigger out@[y * width + x]]
            0 <= x < width && 0 <= y < height implies out@[y * width + x] as int == luma(
            px(rgba@, w, x, y, 0),
            px(rgba@, w, x, y, 1),
            px(rgba@, w, x, y, 2),
        ) by {
            assert(0 <= y * w + x < wh) by (nonlinear_arith)
                requires
                    0 <= x < width,
                    0 <= y < height,
                    w == width,
                    wh == width * height,
            ;
            assert(out@[y * w + x] == ys[y * w + x]);
        }
        assert forall|i: int, j: int|
            #![trigger out@[width * height + j * (width / 2) + i]]
            0 <= i < width / 2 && 0 <= j < height / 2 implies out@[width * height + j * (width / 2)
            + i] as int == chroma_u(
            block_sum(rgba@, w, i, j, 0),
            block_sum(rgba@, w, i, j, 1),
            block_sum(rgba@, w, i, j, 2),
        ) by {
            assert(0 <= j * a + i < a * b) by (nonlinear_arith)
                requires
                    0 <= i < a,
                    0 <= j < b,
            ;
            assert(out@[wh + j * a + i] == us[j * a + i]);
        }
        assert forall|i: int, j: int|
            #![trigger out@[width * height + (width * height) / 4 + j * (width / 2) + i]]
            0 <= i < width / 2 && 0 <= j < height / 2 implies out@[width * height + (width * height)
            / 4 + j * (width / 2) + i] as int == chroma_v(
            block_sum(rgba@, w, i, j, 0),
            block_sum(rgba@, w, i, j, 1),
            block_sum(rgba@, w, i, j, 2),
        ) by {
            assert(0 <= j * a + i < a * b) by (nonlinear_arith)
                requires
                    0 <= i < a,
                    0 <= j < b,
            ;
            assert(out@[wh + a * b + j * a + i] == vs[j * a + i]);
        }
    }
    out
}

/// One item of the colour-conversion worker pool: convert a captured RGBA
/// frame to planar YUV 4:2:0 and merge it into the ordered queue under its
/// sequence index.
///
/// Workers run this on frames in any completion order; the queue alone
/// restores sequence order. On success the converted frame — every byte of
/// it pinned by the [`luma`], [`chroma_u`] and [`chroma_v`] formulas — is
/// buffered under `index` and nothing else changes; a duplicate index or a
/// closed queue is reported and changes nothing.
pub fn submit_frame(
    queue: &mut OrderedMergeQueue<Vec<u8>>,
    index: u64,
    rgba: &[u8],
    width: usize,
    height: usize,
) -> (r: Result<(), QueueError>)
    requires
        old(queue).wf(),
        index < u64::MAX,
        width % 2 == 0,
        height % 2 == 0,
        rgba@.len() == 4 * width * height,
    ensures
        final(queue).wf(),
        old(queue)@.closed ==> r == Err::<(), QueueError>(QueueError::Closed),
        !old(queue)@.closed && (index < old(queue)@.cursor
            || old(queue)@.pending.contains_key(index as int)) ==> r == Err::<(), QueueError>(
            QueueError::DuplicateOrPast),
        r is Err ==> *final(queue) == *old(queue),
        !old(queue)@.closed && index >= old(queue)@.cursor && !old(queue)@.pending.contains_key(
            index as int,
        ) ==> r == Ok::<(), QueueError>(())
            && final(queue)@.cursor == old(queue)@.cursor
            && final(queue)@.closed == old(queue)@.closed
            && final(queue)@.pending.dom() =~= old(queue)@.pending.dom().insert(index as int)
            && (forall|k: int|
            old(queue)@.pending.contains_key(k) && k != index ==> final(queue)@.pending[k]
                == old(queue)@.pending[k]) && {
            let v = final(queue)@.pending[index as int]@;
            &&& v.len() == 3 * (width * height) / 2
            &&& forall|x: int, y: int|
                #![trigger v[y * width + x]]
                0 <= x < width && 0 <= y < height ==> v[y * width + x] as int == luma(
                    px(rgba@, width as int, x, y, 0),
                    px(rgba@, width as int, x, y, 1),
                    px(rgba@, width as int, x, y, 2),
                )
            &&& forall|i: int, j: int|
                #![trigger v[width * height + j * (width / 2) + i]]
                0 <= i < width / 2 && 0 <= j < height / 2 ==> v[width * height + j * (width / 2)
                    + i] as int == chroma_u(
                    block_sum(rgba@, width as int, i, j, 0),
                    block_sum(rgba@, width as int, i, j, 1),
                    block_sum(rgba@, width as int, i, j, 2),
                )
            &&& forall|i: int, j: int|
                #![trigger v[width * height + (width * height) / 4 + j * (width / 2) + i]]
                0 <= i < width / 2 && 0 <= j < height / 2 ==> v[width * height + (width * height)
                    / 4 + j * (width / 2) + i] as int == chroma_v(
                    block_sum(rgba@, width as int, i, j, 0),
                    block_sum(rgba@, width as int, i, j, 1),
                    block_sum(rgba@, width as int, i, j, 2),
                )
        },
{
    let yuv = rgba_to_yuv(rgba, width, height);
    queue.push(index, yuv)
}

/// The luma byte of pixel `(x, y)` in a planar YUV 4:2:0 buffer of width `w`.
pub open spec fn yplane(yuv: Seq<u8>, w: int, x: int, y: int) -> int {
    yuv[y * w + x] as int
}

/// The chroma U byte of block `(i, j)` in a planar YUV 4:2:0 buffer of
/// width `w` and height `h`.
pub open spec fn uplane(yuv: Seq<u8>, w: int, h: int, i: int, j: int) -> int {
    yuv[w * h + j * (w / 2) + i] as int
}

/// The chroma V byte of block `(i, j)` in a planar YUV 4:2:0 buffer of
/// width `w` and height `h`.
pub open spec fn vplane(yuv: Seq<u8>, w: int, h: int, i: int, j: int) -> int {
    yuv[w * h + (w * h) / 4 + j * (w / 2) + i] as int
}

/// Convert a planar YUV 4:2:0 buffer back to row-major RGBA, upsampling
/// chroma by nearest neighbour (each pixel takes the chroma of its 2x2
/// block). Integer arithmetic only, identical on every machine.
#[verifier::loop_isolation(false)]
pub fn yuv_to_rgba(yuv: &[u8], width: usize, height: usize) -> (r: Vec<u8>)
    requires
        width % 2 == 0,
        height % 2 == 0,
        yuv@.len() == 3 * (width * height) / 2,
    ensures
        r@.len() == 4 * (width * height),
        forall|x: int, y: int|
            #![trigger r@[(y * width + x) * 4]]
            0 <= x < width && 0 <= y < height ==> r@[(y * width + x) * 4] as int == inv_r(
                yplane(yuv@, width as int, x, y),
                vplane(yuv@, width as int, height as int, x / 2, y / 2),
            ) && r@[(y * width + x) * 4 + 1] as int == inv_g(
                yplane(yuv@, width as int, x, y),
                uplane(yuv@, width as int, height as int, x / 2, y / 2),
                vplane(yuv@, width as int, height as int, x / 2, y / 2),
            ) && r@[(y * width + x) * 4 + 2] as int == inv_b(
                yplane(yuv@, width as int, x, y),
                uplane(yuv@, width as int, height as int, x / 2, y / 2),
            ) && r@[(y * width + x) * 4 + 3] == 255,
{
    let n: usize = yuv.len();
    let a: usize = width / 2;
    let wh: usize;
    proof {
        assert(width * height == 4 * ((width / 2) * (height / 2)) && 3 * (width * height) / 2 == 6
            * ((width / 2) * (height / 2)) && (width * height) / 4 == (width / 2) * (height / 2))
            by (nonlinear_arith)
            requires
                width % 2 == 0,
                height % 2 == 0,
        ;
    }
    wh = width * height;
    let quarter: usize = wh / 4;
    let mut out: Vec<u8> = Vec::new();
    let mut y: usize = 0;
    while y < height
        invariant
            y <= height,
            out@.len() == (y * width) * 4,
            forall|x2: int, y2: int|
                #![trigger out@[(y2 * width + x2) * 4]]
                0 <= x2 < width && 0 <= y2 < y ==> out@[(y2 * width + x2) * 4] as int == inv_r(
                    yplane(yuv@, width as int, x2, y2),
                    vplane(yuv@, width as int, height as int, x2 / 2, y2 / 2),
                ) && out@[(y2 * width + x2) * 4 + 1] as int == inv_g(
                    yplane(yuv@, width as int, x2, y2),
                    uplane(yuv@, width as int, height as int, x2 / 2, y2 / 2),
                    vplane(yuv@, width as int, height as int, x2 / 2, y2 / 2),
                ) && out@[(y2 * width + x2) * 4 + 2] as int == inv_b(
                    yplane(yuv@, width as int, x2, y2),
                    uplane(yuv@, width as int, height as int, x2 / 2, y2 / 2),
                ) && out@[(y2 * width + x2) * 4 + 3] == 255,
        decreases height - y,
    {
        let mut x: usize = 0;
        while x < width
            invariant
                x <= width,
                y < height,
                out@.len() == (y * width + x) * 4,
                forall|x2: int, y2: int|
                    #![trigger out@[(y2 * width + x2) * 4]]
                    0 <= x2 < width && 0 <= y2 < height && (y2 < y || (y2 == y && x2 < x)) ==> out@[(
                    y2 * width + x2) * 4] as int == inv_r(
                        yplane(yuv@, width as int, x2, y2),
                        vplane(yuv@, width as int, height as int, x2 / 2, y2 / 2),
                    ) && out@[(y2 * width + x2) * 4 + 1] as int == inv_g(
                        yplane(yuv@, width as int, x2, y2),
                        uplane(yuv@, width as int, height as int, x2 / 2, y2 / 2),
                        vplane(yuv@, width as int, height as int, x2 / 2, y2 / 2),
                    ) && out@[(y2 * width + x2) * 4 + 2] as int == inv_b(
                        yplane(yuv@, width as int, x2, y2),
                        uplane(yuv@, width as int, height as int, x2 / 2, y2 / 2),
                    ) && out@[(y2 * width + x2) * 4 + 3] == 255,
            decreases width - x,
        {
            proof {
                assert(y * width + x < width * height) by (nonlinear_arith)
                    requires
                        0 <= x < width,
                        0 <= y < height,
                ;
                assert(x / 2 < width / 2 && y / 2 < height / 2) by (nonlinear_arith)
                    requires
                        0 <= x < width,
                        0 <= y < height,
                        width % 2 == 0,
                        height % 2 == 0,
                ;
                assert((y / 2) * (width / 2) + x / 2 < (width / 2) * (height / 2))
                    by (nonlinear_arith)
                    requires
                        0 <= x / 2 < width / 2,
                        0 <= y / 2 < height / 2,
                ;
                assert(n == yuv@.len());
            }
            let idx_y: usize = y * width + x;
            let idx_u: usize = wh + (y / 2) * a + x / 2;
            let idx_v: usize = wh + quarter + (y / 2) * a + x / 2;
            let yv: i32 = yuv[idx_y] as i32;
            let uv: i32 = yuv[idx_u] as i32;
            let vv: i32 = yuv[idx_v] as i32;
            let c: i32 = 298 * (yv - 16);
            let rb = scale8_byte(c + 409 * (vv - 128) + 128);
            let gb = scale8_byte(c - 100 * (uv - 128) - 208 * (vv - 128) + 128);
            let bb = scale8_byte(c + 516 * (uv - 128) + 128);
            let ghost before = out@;
            out.push(rb);
            out.push(gb);
            out.push(bb);
            out.push(255);
            proof {
                assert forall|x2: int, y2: int|
                    #![trigger out@[(y2 * width + x2) * 4]]
                    0 <= x2 < width && 0 <= y2 < height && (y2 < y || (y2 == y && x2 < x
                        + 1)) implies out@[(y2 * width + x2) * 4] as int == inv_r(
                    yplane(yuv@, width as int, x2, y2),
                    vplane(yuv@, width as int, height as int, x2 / 2, y2 / 2),
                ) && out@[(y2 * width + x2) * 4 + 1] as int == inv_g(
                    yplane(yuv@, width as int, x2, y2),
                    uplane(yuv@, width as int, height as int, x2 / 2, y2 / 2),
                    vplane(yuv@, width as int, height as int, x2 / 2, y2 / 2),
                ) && out@[(y2 * width + x2) * 4 + 2] as int == inv_b(
                    yplane(yuv@, width as int, x2, y2),
                    uplane(yuv@, width as int, height as int, x2 / 2, y2 / 2),
                ) && out@[(y2 * width + x2) * 4 + 3] == 255 by {
                    if y2 == y && x2 == x {
                        assert(out@[(y2 * width + x2) * 4] == rb);
                        assert(out@[(y2 * width + x2) * 4 + 1] == gb);
                        assert(out@[(y2 * width + x2) * 4 + 2] == bb);
                        assert(out@[(y2 * width + x2) * 4 + 3] == 255);
                    } else {
                        assert((y2 * width + x2) * 4 + 3 < (y * width + x) * 4)
                            by (nonlinear_arith)
                            requires
                                0 <= x2 < width,
                                0 <= y2,
                                y2 < y || (y2 == y && x2 < x),
                        ;
                        assert(out@[(y2 * width + x2) * 4] == before[(y2 * width + x2) * 4]);
                        assert(out@[(y2 * width + x2) * 4 + 1] == before[(y2 * width + x2) * 4
                            + 1]);
                        assert(out@[(y2 * width + x2) * 4 + 2] == before[(y2 * width + x2) * 4
                            + 2]);
                        assert(out@[(y2 * width + x2) * 4 + 3] == before[(y2 * width + x2) * 4
                            + 3]);
                    }
                }
            }
            x += 1;
        }
        proof {
            assert forall|x2: int, y2: int|
                #![trigger out@[(y2 * width + x2) * 4]]
                0 <= x2 < width && 0 <= y2 < y + 1 implies out@[(y2 * width + x2) * 4] as int
                == inv_r(
                yplane(yuv@, width as int, x2, y2),
                vplane(yuv@, width as int, height as int, x2 / 2, y2 / 2),
            ) && out@[(y2 * width + x2) * 4 + 1] as int == inv_g(
                yplane(yuv@, width as int, x2, y2),
                uplane(yuv@, width as int, height as int, x2 / 2, y2 / 2),
                vplane(yuv@, width as int, height as int, x2 / 2, y2 / 2),
            ) && out@[(y2 * width + x2) * 4 + 2] as int == inv_b(
                yplane(yuv@, width as int, x2, y2),
                uplane(yuv@, width as int, height as int, x2 / 2, y2 / 2),
            ) && out@[(y2 * width + x2) * 4 + 3] == 255 by {
                assert(0 <= x2 < width && 0 <= y2 < height && (y2 < y || (y2 == y && x2 < width)));
            }
        }
        y += 1;
        proof {
            assert(((y - 1) * width + width) * 4 == (y * width) * 4) by (nonlinear_arith);
        }
    }
    proof {
        assert((height * width) * 4 == 4 * (width * height)) by (nonlinear_arith);
    }
    out
}

/// Widen packed RGB bytes to RGBA with an opaque alpha channel; a trailing
/// partial pixel (fewer than 3 bytes) is ignored.
pub fn rgb_to_rgba(data: &[u8]) -> (r: Vec<u8>)
    ensures
        r@.len() == (data@.len() / 3) * 4,
        forall|k: int|
            #![trigger r@[4 * k]]
            0 <= k < data@.len() / 3 ==> r@[4 * k] == data@[3 * k] && r@[4 * k + 1] == data@[3 * k
                + 1] && r@[4 * k + 2] == data@[3 * k + 2] && r@[4 * k + 3] == 255,
{
    let n: usize = data.len();
    let pixels: usize = n / 3;
    let mut out: Vec<u8> = Vec::new();
    let mut k: usize = 0;
    while k < pixels
        invariant
            k <= pixels,
            n == data@.len(),
            pixels == data@.len() / 3,
            out@.len() == 4 * k,
            forall|p: int|
                #![trigger out@[4 * p]]
                0 <= p < k ==> out@[4 * p] == data@[3 * p] && out@[4 * p + 1] == data@[3 * p + 1]
                    && out@[4 * p + 2] == data@[3 * p + 2] && out@[4 * p + 3] == 255,
        decreases pixels - k,
    {
        proof {
            assert(3 * (pixels as int) <= data@.len());
            assert(3 * (k as int) + 2 < data@.len());
        }
        let base: usize = 3 * k;
        let ghost before = out@;
        out.push(data[base]);
        out.push(data[base + 1]);
        out.push(data[base + 2]);
        out.push(255);
        proof {
            assert forall|p: int| #![trigger out@[4 * p]] 0 <= p < k + 1 implies out@[4 * p]
                == data@[3 * p] && out@[4 * p + 1] == data@[3 * p + 1] && out@[4 * p + 2] == data@[3
                * p + 2] && out@[4 * p + 3] == 255 by {
                if p == k {
                    assert(out@[4 * p] == data@[3 * p]);
                    assert(out@[4 * p + 1] == data@[3 * p + 1]);
                    assert(out@[4 * p + 2] == data@[3 * p + 2]);
                    assert(out@[4 * p + 3] == 255);
                } else {
                    assert(before[4 * p] == data@[3 * p]);
                    assert(out@[4 * p] == before[4 * p]);
                    assert(out@[4 * p + 1] == before[4 * p + 1]);
                    assert(out@[4 * p + 2] == before[4 * p + 2]);
                    assert(out@[4 * p + 3] == before[4 * p + 3]);
                }
            }
        }
        k += 1;
    }
    out
}

} // verus!
