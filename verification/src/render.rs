//! What the receiver shows: decoded frames as packed RGB for the texture,
//! and a blue screen where the decoder has no frame to give.

use crate::frame::FrameView;
use crate::frame::RgbaFrame;
use crate::frame::lemma_distinct_pixels;
use crate::frame::lemma_pixel_in_samples;
use crate::frame::lemma_pixel_index;
use vstd::prelude::*;

verus! {

/// A payload of four bytes or fewer holds no picture and is passed over.
pub fn is_empty_payload(len: usize) -> (empty: bool)
    ensures
        empty == (len <= 4),
{
    len <= 4
}

/// Channel `c` of the texture pixel at `(x, y)`: that of the frame where it
/// has such a pixel, black beyond it.
pub open spec fn texture_sample(frame: FrameView, x: int, y: int, c: int) -> u8 {
    if frame.contains(x, y) {
        frame.pixel(x, y)[c]
    } else {
        0
    }
}

/// Index of channel `c` of the pixel at `(x, y)` in packed RGB rows of
/// `width` pixels.
pub open spec fn rgb_index(width: int, x: int, y: int, c: int) -> int {
    (y * width + x) * 3 + c
}

/// Packs a frame into the RGB rows of a texture `width` by `height` pixels:
/// the frame's top left corner at the texture's, alpha dropped, and black
/// where the frame does not reach.
pub fn frame_to_rgb24(image: &RgbaFrame, width: u32, height: u32) -> (rgb: Vec<u8>)
    requires
        3 * width <= usize::MAX,
        3 * width * height <= usize::MAX,
    ensures
        rgb@.len() == 3 * width * height,
        forall|x: int, y: int, c: int|
            0 <= x < width && 0 <= y < height && 0 <= c < 3 ==> #[trigger] rgb@[rgb_index(
                width as int,
                x,
                y,
                c,
            )] == texture_sample(image@, x, y, c),
{
    let (image_width, image_height) = image.dimensions();
    let ghost w = width as int;
    let ghost h = height as int;
    proof {
        assert(3 * width * height == 3 * (w * h)) by (nonlinear_arith)
            requires
                w == width,
                h == height,
        ;
        assert(0 <= w * h) by (nonlinear_arith)
            requires
                0 <= w,
                0 <= h,
        ;
    }
    let pitch: usize = (width as usize) * 3;
    proof {
        assert(pitch * height == 3 * (w * h)) by (nonlinear_arith)
            requires
                pitch == 3 * w,
                h == height,
        ;
    }
    let mut rgb: Vec<u8> = vec![0u8; pitch * (height as usize)];
    proof {
        assert forall|i: int, j: int, c: int| 0 <= i < w && 0 <= j < h && 0 <= c < 3 implies #[trigger] rgb@[rgb_index(
            w,
            i,
            j,
            c,
        )] == 0 by {
            lemma_pixel_index(w, h, i, j);
        }
    }
    let mut y: u32 = 0;
    while y < height
        invariant
            y <= height,
            w == width,
            h == height,
            pitch == 3 * w,
            3 * (w * h) <= usize::MAX,
            rgb@.len() == 3 * (w * h),
            image@.wf(),
            image_width == image@.width,
            image_height == image@.height,
            forall|i: int, j: int, c: int|
                0 <= i < w && 0 <= j < y && 0 <= c < 3 ==> #[trigger] rgb@[rgb_index(w, i, j, c)]
                    == texture_sample(image@, i, j, c),
            forall|i: int, j: int, c: int|
                0 <= i < w && y <= j < h && 0 <= c < 3 ==> #[trigger] rgb@[rgb_index(w, i, j, c)]
                    == 0,
        decreases height - y,
    {
        let mut x: u32 = 0;
        while x < width
            invariant
                y < height,
                x <= width,
                w == width,
                h == height,
                pitch == 3 * w,
                3 * (w * h) <= usize::MAX,
                rgb@.len() == 3 * (w * h),
                image@.wf(),
                image_width == image@.width,
                image_height == image@.height,
                forall|i: int, j: int, c: int|
                    0 <= i < w && 0 <= j < y && 0 <= c < 3 ==> #[trigger] rgb@[rgb_index(
                        w,
                        i,
                        j,
                        c,
                    )] == texture_sample(image@, i, j, c),
                forall|i: int, c: int|
                    0 <= i < x && 0 <= c < 3 ==> #[trigger] rgb@[rgb_index(w, i, y as int, c)]
                        == texture_sample(image@, i, y as int, c),
                forall|i: int, c: int|
                    x <= i < w && 0 <= c < 3 ==> #[trigger] rgb@[rgb_index(w, i, y as int, c)]
                        == 0,
                forall|i: int, j: int, c: int|
                    0 <= i < w && y < j < h && 0 <= c < 3 ==> #[trigger] rgb@[rgb_index(
                        w,
                        i,
                        j,
                        c,
                    )] == 0,
            decreases width - x,
        {
            proof {
                lemma_pixel_index(w, h, x as int, y as int);
            }
            if x < image_width && y < image_height {
                let pixel = image.get_pixel(x, y);
                assert(y * pitch + x * 3 == rgb_index(w, x as int, y as int, 0))
                    by (nonlinear_arith)
                    requires
                        pitch == 3 * w,
                ;
                assert(0 <= y * pitch) by (nonlinear_arith)
                    requires
                        0 <= y,
                        0 <= pitch,
                ;
                let offset: usize = (y as usize) * pitch + (x as usize) * 3;
                let ghost before = rgb@;
                proof {
                    lemma_pixel_in_samples(image@, x as int, y as int);
                }
                if offset + 2 < rgb.len() {
                    rgb.set(offset, pixel[0]);
                    rgb.set(offset + 1, pixel[1]);
                    rgb.set(offset + 2, pixel[2]);
                }
                proof {
                    assert forall|i: int, j: int, c: int|
                        0 <= i < w && 0 <= j < h && 0 <= c < 3 && (i != x || j != y) implies #[trigger] rgb@[rgb_index(
                        w,
                        i,
                        j,
                        c,
                    )] == before[rgb_index(w, i, j, c)] by {
                        lemma_distinct_pixels(w, x as int, y as int, i, j);
                        lemma_pixel_index(w, h, i, j);
                    }
                }
            }
            x = x + 1;
        }
        y = y + 1;
    }
    rgb
}

/// The sample at `i` of a blue screen in packed RGB.
pub open spec fn blue_sample(i: int) -> u8 {
    if i % 3 == 2 {
        255
    } else {
        0
    }
}

/// A blue screen for a texture `width` by `height` pixels, in packed RGB:
/// what is shown while the decoder has no frame.
pub fn blue_screen(width: u32, height: u32) -> (rgb: Vec<u8>)
    requires
        3 * width <= usize::MAX,
        3 * width * height <= usize::MAX,
    ensures
        rgb@.len() == 3 * width * height,
        forall|i: int| 0 <= i < rgb@.len() ==> rgb@[i] == blue_sample(i),
{
    proof {
        assert(3 * width * height == 3 * (width * height)) by (nonlinear_arith);
        assert(0 <= width * height) by (nonlinear_arith)
            requires
                0 <= width,
                0 <= height,
        ;
        assert(3 * width * height == (width * 3) * height) by (nonlinear_arith);
        let k: int = width * height;
        assert((3 * k) % 3 == 0);
    }
    let pitch: usize = (width as usize) * 3;
    let len: usize = pitch * (height as usize);
    let mut rgb: Vec<u8> = vec![0u8; len];
    let mut i: usize = 0;
    while len - i >= 3
        invariant
            i <= len,
            i % 3 == 0,
            len % 3 == 0,
            rgb@.len() == len,
            forall|k: int| 0 <= k < i ==> rgb@[k] == blue_sample(k),
        decreases len - i,
    {
        rgb.set(i, 0);
        rgb.set(i + 1, 0);
        rgb.set(i + 2, 255);
        i = i + 3;
    }
    rgb
}

} // verus!
