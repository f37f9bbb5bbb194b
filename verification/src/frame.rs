//! The RGBA frame that runs through the pipeline.
//!
//! A frame is an `image::ImageBuffer` of `Rgba<u8>` pixels over a `Vec<u8>`.
//! The verifier does not look inside it: it knows a frame by its dimensions
//! and by its samples, and believes what the private functions `image_new`
//! to `image_clone` in this file say of the buffer's methods.

use image::ImageBuffer;
use image::Rgba;
use vstd::prelude::*;

verus! {

/// An RGBA image with eight bits per channel.
#[verifier::external_body]
pub struct RgbaFrame {
    inner: ImageBuffer<Rgba<u8>, Vec<u8>>,
}

/// Width and height of a frame, in pixels.
pub uninterp spec fn frame_dimensions(frame: RgbaFrame) -> (u32, u32);

/// The samples of a frame, row by row from the top left, four for each pixel
/// in the order red, green, blue, alpha.
pub uninterp spec fn frame_samples(frame: RgbaFrame) -> Seq<u8>;

/// What a frame is to the verifier.
pub struct FrameView {
    pub width: u32,
    pub height: u32,
    pub samples: Seq<u8>,
}

impl FrameView {
    /// Four samples for each pixel.
    pub open spec fn wf(self) -> bool {
        self.samples.len() == 4 * self.width * self.height
    }

    /// Whether `(x, y)` lies within the frame.
    pub open spec fn contains(self, x: int, y: int) -> bool {
        0 <= x < self.width && 0 <= y < self.height
    }

    /// Index of the first sample of the pixel at `(x, y)`.
    pub open spec fn offset(self, x: int, y: int) -> int {
        (y * self.width + x) * 4
    }

    /// The four samples of the pixel at `(x, y)`.
    pub open spec fn pixel(self, x: int, y: int) -> Seq<u8> {
        self.samples.subrange(self.offset(x, y), self.offset(x, y) + 4)
    }

    /// The frame with the pixel at `(x, y)` replaced by `px`.
    pub open spec fn with_pixel(self, x: int, y: int, px: Seq<u8>) -> FrameView {
        FrameView {
            width: self.width,
            height: self.height,
            samples: Seq::new(
                self.samples.len(),
                |i: int|
                    if self.offset(x, y) <= i < self.offset(x, y) + 4 {
                        px[i - self.offset(x, y)]
                    } else {
                        self.samples[i]
                    },
            ),
        }
    }

    /// Whether every pixel of the frame is `px`.
    pub open spec fn is_solid(self, px: Seq<u8>) -> bool {
        forall|i: int| 0 <= i < self.samples.len() ==> self.samples[i] == px[i % 4]
    }
}

impl View for RgbaFrame {
    type V = FrameView;

    open spec fn view(&self) -> FrameView {
        FrameView {
            width: frame_dimensions(*self).0,
            height: frame_dimensions(*self).1,
            samples: frame_samples(*self),
        }
    }
}

/// A frame of the given size can be made: the samples of one row, and those
/// of all rows, can be counted in a `usize`.
pub open spec fn frame_fits(width: u32, height: u32) -> bool {
    4 * width <= usize::MAX && 4 * width * height <= usize::MAX
}

/// What a frame that may be missing is to the verifier.
pub open spec fn stored_frame(frame: Option<RgbaFrame>) -> Option<FrameView> {
    match frame {
        Some(f) => Some(f@),
        None => None,
    }
}

/// `ImageBuffer::new`: an image of the given size whose samples are all zero.
/// The call panics when the number of samples, which it computes row first,
/// overflows a `usize`; `requires` leaves that out.
#[verifier::external_body]
fn image_new(width: u32, height: u32) -> (frame: RgbaFrame)
    requires
        frame_fits(width, height),
    ensures
        frame_dimensions(frame) == (width, height),
        frame_samples(frame) == Seq::new((4 * width * height) as nat, |i: int| 0u8),
{
    RgbaFrame { inner: ImageBuffer::new(width, height) }
}

/// `ImageBuffer::dimensions`: width and height. The samples of an image are
/// those of the pixels within them, four each.
#[verifier::external_body]
fn image_dimensions(frame: &RgbaFrame) -> (d: (u32, u32))
    ensures
        d == frame_dimensions(*frame),
        frame_samples(*frame).len() == 4 * d.0 * d.1,
{
    frame.inner.dimensions()
}

/// `ImageBuffer::get_pixel`: the four samples of the pixel at `(x, y)`. The
/// call panics outside the image, which `requires` leaves out.
#[verifier::external_body]
fn image_get_pixel(frame: &RgbaFrame, x: u32, y: u32) -> (px: [u8; 4])
    requires
        frame@.contains(x as int, y as int),
    ensures
        px@ == frame@.pixel(x as int, y as int),
{
    frame.inner.get_pixel(x, y).0
}

/// `ImageBuffer::put_pixel`: replaces the four samples of the pixel at
/// `(x, y)` and leaves the rest as it was. The call panics outside the image,
/// which `requires` leaves out.
#[verifier::external_body]
fn image_put_pixel(frame: &mut RgbaFrame, x: u32, y: u32, px: [u8; 4])
    requires
        old(frame)@.contains(x as int, y as int),
    ensures
        final(frame)@ == old(frame)@.with_pixel(x as int, y as int, px@),
{
    frame.inner.put_pixel(x, y, Rgba(px));
}

/// `Clone::clone` of an `ImageBuffer`: an image of the same size with the
/// same samples.
#[verifier::external_body]
fn image_clone(frame: &RgbaFrame) -> (copy: RgbaFrame)
    ensures
        frame_dimensions(copy) == frame_dimensions(*frame),
        frame_samples(copy) == frame_samples(*frame),
{
    RgbaFrame { inner: frame.inner.clone() }
}

impl RgbaFrame {
    /// A frame of the given size, every sample zero: transparent black.
    pub fn new(width: u32, height: u32) -> (frame: RgbaFrame)
        requires
            frame_fits(width, height),
        ensures
            frame@.width == width,
            frame@.height == height,
            frame@.wf(),
            frame@.is_solid(seq![0u8, 0u8, 0u8, 0u8]),
    {
        image_new(width, height)
    }

    /// A frame of the given size, every pixel `px`.
    pub fn filled(width: u32, height: u32, px: [u8; 4]) -> (frame: RgbaFrame)
        requires
            frame_fits(width, height),
        ensures
            frame@.width == width,
            frame@.height == height,
            frame@.wf(),
            frame@.is_solid(px@),
    {
        let mut frame = image_new(width, height);
        let mut y: u32 = 0;
        while y < height
            invariant
                y <= height,
                frame@.width == width,
                frame@.height == height,
                frame@.wf(),
                forall|i: int| 0 <= i < 4 * (y * width) ==> frame@.samples[i] == px@[i % 4],
            decreases height - y,
        {
            let mut x: u32 = 0;
            while x < width
                invariant
                    y < height,
                    x <= width,
                    frame@.width == width,
                    frame@.height == height,
                    frame@.wf(),
                    forall|i: int|
                        0 <= i < 4 * (y * width + x) ==> frame@.samples[i] == px@[i % 4],
                decreases width - x,
            {
                proof {
                    lemma_pixel_in_samples(frame@, x as int, y as int);
                }
                image_put_pixel(&mut frame, x, y, px);
                x = x + 1;
            }
            proof {
                assert(4 * (y * width + width) == 4 * ((y + 1) * width)) by (nonlinear_arith);
            }
            y = y + 1;
        }
        proof {
            assert(4 * (height * width) == 4 * width * height) by (nonlinear_arith);
        }
        frame
    }

    /// Width and height, in pixels.
    pub fn dimensions(&self) -> (d: (u32, u32))
        ensures
            d.0 == self@.width,
            d.1 == self@.height,
            self@.wf(),
    {
        image_dimensions(self)
    }

    /// Width in pixels.
    pub fn width(&self) -> (w: u32)
        ensures
            w == self@.width,
            self@.wf(),
    {
        image_dimensions(self).0
    }

    /// Height in pixels.
    pub fn height(&self) -> (h: u32)
        ensures
            h == self@.height,
            self@.wf(),
    {
        image_dimensions(self).1
    }

    /// The pixel at `(x, y)`, or `None` outside the frame.
    pub fn pixel(&self, x: u32, y: u32) -> (px: Option<[u8; 4]>)
        ensures
            self@.wf(),
            px is Some <==> self@.contains(x as int, y as int),
            px is Some ==> px->0@ == self@.pixel(x as int, y as int),
    {
        let (width, height) = image_dimensions(self);
        if x < width && y < height {
            Some(image_get_pixel(self, x, y))
        } else {
            None
        }
    }

    /// The pixel at `(x, y)`, which lies within the frame.
    pub fn get_pixel(&self, x: u32, y: u32) -> (px: [u8; 4])
        requires
            self@.contains(x as int, y as int),
        ensures
            px@ == self@.pixel(x as int, y as int),
    {
        image_get_pixel(self, x, y)
    }

    /// Sets the pixel at `(x, y)`, which lies within the frame.
    pub fn put_pixel(&mut self, x: u32, y: u32, px: [u8; 4])
        requires
            old(self)@.contains(x as int, y as int),
        ensures
            final(self)@ == old(self)@.with_pixel(x as int, y as int, px@),
    {
        image_put_pixel(self, x, y, px)
    }

    /// A copy of the frame.
    pub fn duplicate(&self) -> (copy: RgbaFrame)
        ensures
            copy@ == self@,
    {
        image_clone(self)
    }
}

/// The samples of a pixel within a well-formed frame lie within its samples.
pub proof fn lemma_pixel_in_samples(frame: FrameView, x: int, y: int)
    requires
        frame.wf(),
        frame.contains(x, y),
    ensures
        0 <= frame.offset(x, y),
        frame.offset(x, y) + 4 <= frame.samples.len(),
        frame.offset(x, y) == 4 * (y * frame.width + x),
{
    let w = frame.width as int;
    let h = frame.height as int;
    assert(y * w + x + 1 <= h * w) by (nonlinear_arith)
        requires
            0 <= x < w,
            0 <= y < h,
    ;
    assert(0 <= y * w) by (nonlinear_arith)
        requires
            0 <= y,
            0 <= w,
    ;
    assert(4 * w * h == 4 * (h * w)) by (nonlinear_arith);
}

/// Putting a pixel sets that pixel and leaves every other one as it was.
pub proof fn lemma_with_pixel(frame: FrameView, x: int, y: int, px: Seq<u8>)
    requires
        frame.wf(),
        frame.contains(x, y),
        px.len() == 4,
    ensures
        frame.with_pixel(x, y, px).wf(),
        frame.with_pixel(x, y, px).pixel(x, y) == px,
        forall|i: int, j: int|
            frame.contains(i, j) && (i != x || j != y) ==> #[trigger] frame.with_pixel(
                x,
                y,
                px,
            ).pixel(i, j) == frame.pixel(i, j),
{
    let after = frame.with_pixel(x, y, px);
    lemma_pixel_in_samples(frame, x, y);
    assert(after.pixel(x, y) =~= px);
    assert forall|i: int, j: int| frame.contains(i, j) && (i != x || j != y) implies #[trigger] after.pixel(
        i,
        j,
    ) == frame.pixel(i, j) by {
        lemma_pixel_in_samples(frame, i, j);
        let w = frame.width as int;
        assert(j * w + i != y * w + x) by (nonlinear_arith)
            requires
                0 <= i < w,
                0 <= x < w,
                i != x || j != y,
        ;
        assert(after.pixel(i, j) =~= frame.pixel(i, j));
    }
}

/// Two pixels of a row-major picture lie at different places.
pub proof fn lemma_distinct_pixels(width: int, x: int, y: int, i: int, j: int)
    requires
        0 <= x < width,
        0 <= i < width,
        0 <= y,
        0 <= j,
        x != i || y != j,
    ensures
        y * width + x != j * width + i,
{
    if y < j {
        assert(y * width + width <= j * width) by (nonlinear_arith)
            requires
                y + 1 <= j,
                0 <= width,
        ;
    } else if j < y {
        assert(j * width + width <= y * width) by (nonlinear_arith)
            requires
                j + 1 <= y,
                0 <= width,
        ;
    }
}

/// The pixel at `(x, y)` of a `width` by `height` picture lies within it.
pub proof fn lemma_pixel_index(width: int, height: int, x: int, y: int)
    requires
        0 <= x < width,
        0 <= y < height,
    ensures
        0 <= y * width,
        0 <= y * width + x < width * height,
{
    assert(y * width + width <= height * width) by (nonlinear_arith)
        requires
            y + 1 <= height,
            0 <= width,
    ;
    assert(0 <= y * width) by (nonlinear_arith)
        requires
            0 <= y,
            0 <= width,
    ;
    assert(height * width == width * height) by (nonlinear_arith);
}

/// Every pixel of a frame of one colour is that colour.
pub proof fn lemma_solid_pixel(frame: FrameView, px: Seq<u8>, x: int, y: int)
    requires
        frame.wf(),
        frame.contains(x, y),
        frame.is_solid(px),
        px.len() == 4,
    ensures
        frame.pixel(x, y) == px,
{
    lemma_pixel_in_samples(frame, x, y);
    assert(frame.pixel(x, y) =~= px);
}

} // verus!
