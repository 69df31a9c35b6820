//! The live-preview texture: a pixel buffer handed to the display
//! collaborator, padded or replaced so that its size always matches the
//! selected resolution (a mismatched buffer would crash the display host).

use crate::resolution::ResolutionService;
use std::sync::Arc;
use vstd::prelude::*;

verus! {

/// The texture state: the latest preview pixels and the resolution they must
/// match.
pub struct TextureService {
    pixel_buffer: Vec<u8>,
    last_pixel_buffer: Vec<u8>,
    resolution: Arc<ResolutionService>,
}

impl TextureService {
    /// The pixel bytes currently buffered.
    pub closed spec fn spec_buffer(self) -> Seq<u8> {
        self.pixel_buffer@
    }

    /// The last nonempty frame handed out, kept as a fallback for display
    /// refreshes that arrive between capture frames.
    pub closed spec fn spec_last(self) -> Seq<u8> {
        self.last_pixel_buffer@
    }

    /// The width the display expects.
    pub closed spec fn spec_width(self) -> i32 {
        (*self.resolution).spec_width()
    }

    /// The height the display expects.
    pub closed spec fn spec_height(self) -> i32 {
        (*self.resolution).spec_height()
    }

    /// A texture with an empty buffer for the given resolution settings.
    pub fn new(resolution: Arc<ResolutionService>) -> (t: Self)
        ensures
            t.spec_buffer().len() == 0,
            t.spec_last().len() == 0,
            t.spec_width() == (*resolution).spec_width(),
            t.spec_height() == (*resolution).spec_height(),
    {
        TextureService { pixel_buffer: Vec::new(), last_pixel_buffer: Vec::new(), resolution }
    }

    /// The width the display expects.
    pub fn width(&self) -> (r: i32)
        ensures
            r == self.spec_width(),
    {
        self.resolution.width()
    }

    /// The height the display expects.
    pub fn height(&self) -> (r: i32)
        ensures
            r == self.spec_height(),
    {
        self.resolution.height()
    }

    /// Store the latest preview pixels.
    pub fn set_pixel_buffer(&mut self, data: Vec<u8>)
        ensures
            final(self).spec_buffer() == data@,
            final(self).spec_last() == old(self).spec_last(),
            final(self).spec_width() == old(self).spec_width(),
            final(self).spec_height() == old(self).spec_height(),
    {
        self.pixel_buffer = data;
    }

    /// Take the pixels for one display payload, consuming the buffered frame.
    ///
    /// The display polls at its own rate: if no new frame was buffered since
    /// the last poll, the last frame handed out stands in; a buffer of the
    /// wrong size (a resolution change in flight) is replaced by zeros of
    /// exactly `width * height * 4` bytes, since a mismatched payload would
    /// crash the display host.
    pub fn take_payload(&mut self) -> (r: Vec<u8>)
        requires
            0 <= old(self).spec_width(),
            0 <= old(self).spec_height(),
            old(self).spec_width() * old(self).spec_height() * 4 <= usize::MAX,
        ensures
            final(self).spec_buffer().len() == 0,
            final(self).spec_width() == old(self).spec_width(),
            final(self).spec_height() == old(self).spec_height(),
            ({
                let need = old(self).spec_width() * old(self).spec_height() * 4;
                let source = if old(self).spec_buffer().len() > 0 {
                    old(self).spec_buffer()
                } else {
                    old(self).spec_last()
                };
                &&& final(self).spec_last() == source
                &&& source.len() == need ==> r@ == source
                &&& source.len() != need ==> r@ == Seq::new(need as nat, |i: int| 0u8)
            }),
    {
        proof {
            assert(0 <= self.spec_width() * self.spec_height() * 4) by (nonlinear_arith)
                requires
                    0 <= self.spec_width(),
                    0 <= self.spec_height(),
            ;
        }
        let need: usize = (self.resolution.width() as usize) * (self.resolution.height() as usize)
            * 4;
        let mut data: Vec<u8> = Vec::new();
        core::mem::swap(&mut data, &mut self.pixel_buffer);
        if data.len() > 0 {
            self.last_pixel_buffer = data;
        }
        if self.last_pixel_buffer.len() == need {
            crate::util::copy_bytes(&self.last_pixel_buffer)
        } else {
            zero_pixels(need)
        }
    }

    /// The pixels for one display payload: the buffered data when its length
    /// matches `width * height * 4`, otherwise an all-zero buffer of exactly
    /// that length (as when transitioning between resolutions).
    pub fn payload(&self) -> (r: Vec<u8>)
        requires
            0 <= self.spec_width(),
            0 <= self.spec_height(),
            self.spec_width() * self.spec_height() * 4 <= usize::MAX,
        ensures
            r@.len() == self.spec_width() * self.spec_height() * 4,
            r@.len() == self.spec_buffer().len() ==> r@ == self.spec_buffer(),
            r@.len() != self.spec_buffer().len() ==> r@ == Seq::new(
                (self.spec_width() * self.spec_height() * 4) as nat,
                |i: int| 0u8,
            ),
    {
        proof {
            assert(0 <= self.spec_width() * self.spec_height() * 4) by (nonlinear_arith)
                requires
                    0 <= self.spec_width(),
                    0 <= self.spec_height(),
            ;
        }
        let need: usize = (self.resolution.width() as usize) * (self.resolution.height() as usize) * 4;
        if self.pixel_buffer.len() == need {
            crate::util::copy_bytes(&self.pixel_buffer)
        } else {
            zero_pixels(need)
        }
    }
}

/// An all-zero buffer of the given length.
fn zero_pixels(n: usize) -> (r: Vec<u8>)
    ensures
        r@ == Seq::new(n as nat, |i: int| 0u8),
{
    let r = vec![0u8; n];
    proof {
        assert(r@ =~= Seq::new(n as nat, |i: int| 0u8));
    }
    r
}

} // verus!
