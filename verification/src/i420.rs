//! Planar YUV 4:2:0 pictures for the encoder: a full plane of luma, then two
//! planes of chroma at half the resolution each way.
//!
//! The arithmetic that takes a pixel from RGB to YUV is handed in by the
//! caller; what is settled here is which pixels are sampled and where each
//! sample lies.

use crate::frame::FrameView;
use crate::frame::RgbaFrame;
use crate::frame::lemma_distinct_pixels;
use crate::frame::lemma_pixel_index;
use vstd::prelude::*;

verus! {

/// Luma of the test pattern that a picture is filled with before the pixels
/// are converted: almost white in studio range.
pub const PATTERN_LUMA: u8 = 235;

/// Chroma of the test pattern: neutral.
pub const PATTERN_CHROMA: u8 = 128;

/// Bytes of an I420 picture of the given size.
pub open spec fn i420_len(width: u32, height: u32) -> int {
    width * height * 3 / 2
}

/// Samples in each chroma plane as the encoder lays them out.
pub open spec fn chroma_len(width: u32, height: u32) -> int {
    width * height / 4
}

/// Index within a chroma plane of the sample taken at `(x, y)`.
pub open spec fn chroma_index(width: u32, x: int, y: int) -> int {
    (y / 2) * (width / 2) + x / 2
}

/// The pixel at `(x, y)` gives the chroma sample at `k`: both coordinates
/// are even and lie within the picture.
pub open spec fn writes_chroma(width: u32, height: u32, x: int, y: int, k: int) -> bool {
    &&& 0 <= x < width
    &&& 0 <= y < height
    &&& x % 2 == 0
    &&& y % 2 == 0
    &&& chroma_index(width, x, y) == k
}

/// No pixel gives the chroma sample at `k`.
pub open spec fn unwritten(width: u32, height: u32, k: int) -> bool {
    forall|x: int, y: int| !#[trigger] writes_chroma(width, height, x, y, k)
}

/// `(a, b)` comes no later than `(x, y)` when the picture is walked row by
/// row.
pub open spec fn no_later(a: int, b: int, x: int, y: int) -> bool {
    b < y || (b == y && a <= x)
}

/// The pixel at `(x, y)` is the last one to give the chroma sample at `k`.
/// With an even width no two pixels give the same sample.
pub open spec fn last_writer(width: u32, height: u32, x: int, y: int, k: int) -> bool {
    &&& writes_chroma(width, height, x, y, k)
    &&& forall|a: int, b: int| #[trigger]
        writes_chroma(width, height, a, b, k) ==> no_later(a, b, x, y)
}

/// Every chroma sample that a pixel gives has its place in the chroma
/// planes. It holds of every picture of even width and height.
pub open spec fn chroma_fits(width: u32, height: u32) -> bool {
    forall|x: int, y: int|
        0 <= x < width && 0 <= y < height && x % 2 == 0 && y % 2 == 0 ==> #[trigger] chroma_index(
            width,
            x,
            y,
        ) < chroma_len(width, height)
}

/// The luma sample of the pixel at `(x, y)` in an I420 picture.
pub open spec fn luma_at(buffer: Seq<u8>, width: u32, x: int, y: int) -> u8 {
    buffer[y * width + x]
}

/// The sample at `k` of the first chroma plane of an I420 picture.
pub open spec fn u_at(buffer: Seq<u8>, width: u32, height: u32, k: int) -> u8 {
    buffer[width * height + k]
}

/// The sample at `k` of the second chroma plane of an I420 picture.
pub open spec fn v_at(buffer: Seq<u8>, width: u32, height: u32, k: int) -> u8 {
    buffer[width * height + chroma_len(width, height) + k]
}

/// `luma` is what the converter gives for the pixel `px`.
pub open spec fn luma_of<F: Fn(u8, u8, u8) -> (u8, u8, u8)>(convert: F, px: Seq<u8>, luma: u8) -> bool {
    exists|u: u8, v: u8| call_ensures(convert, (px[0], px[1], px[2]), (luma, u, v))
}

/// `u` and `v` are what the converter gives for the pixel `px`.
pub open spec fn chroma_of<F: Fn(u8, u8, u8) -> (u8, u8, u8)>(
    convert: F,
    px: Seq<u8>,
    u: u8,
    v: u8,
) -> bool {
    exists|luma: u8| call_ensures(convert, (px[0], px[1], px[2]), (luma, u, v))
}

/// A picture of even width and height has a place for every chroma sample.
pub proof fn lemma_even_size_fits(width: u32, height: u32)
    requires
        width % 2 == 0,
        height % 2 == 0,
    ensures
        chroma_fits(width, height),
{
    let cw = width as int / 2;
    let ch = height as int / 2;
    assert(width * height == 4 * (cw * ch)) by (nonlinear_arith)
        requires
            width == 2 * cw,
            height == 2 * ch,
    ;
    assert forall|x: int, y: int|
        0 <= x < width && 0 <= y < height && x % 2 == 0 && y % 2 == 0 implies #[trigger] chroma_index(
        width,
        x,
        y,
    ) < chroma_len(width, height) by {
        let cx = x / 2;
        let cy = y / 2;
        assert(cy * cw + cx < cw * ch) by (nonlinear_arith)
            requires
                0 <= cx < cw,
                0 <= cy < ch,
        ;
    }
}

/// In a picture of even width every chroma sample comes from one pixel only,
/// which is therefore the last to give it.
pub proof fn lemma_even_width_one_writer(width: u32, height: u32, x: int, y: int, k: int)
    requires
        width % 2 == 0,
        writes_chroma(width, height, x, y, k),
    ensures
        last_writer(width, height, x, y, k),
{
    let half = width as int / 2;
    assert forall|a: int, b: int| #[trigger] writes_chroma(width, height, a, b, k) implies no_later(
        a,
        b,
        x,
        y,
    ) by {
        if a / 2 != x / 2 || b / 2 != y / 2 {
            lemma_distinct_pixels(half, a / 2, b / 2, x / 2, y / 2);
        }
    }
}

/// In a converted picture of even width and height, the chroma planes hold
/// the sample of every pixel at even coordinates at the place of that pixel
/// in a plane half as wide.
pub proof fn lemma_even_picture_chroma<F: Fn(u8, u8, u8) -> (u8, u8, u8)>(
    convert: F,
    rgba: FrameView,
    width: u32,
    height: u32,
    after: Seq<u8>,
    x: int,
    y: int,
)
    requires
        width % 2 == 0,
        height % 2 == 0,
        forall|a: int, b: int, k: int|
            0 <= k < chroma_len(width, height) && #[trigger] last_writer(width, height, a, b, k)
                ==> chroma_of(
                convert,
                rgba.pixel(a, b),
                u_at(after, width, height, k),
                v_at(after, width, height, k),
            ),
        0 <= x < width,
        0 <= y < height,
        x % 2 == 0,
        y % 2 == 0,
    ensures
        0 <= chroma_index(width, x, y) < chroma_len(width, height),
        chroma_of(
            convert,
            rgba.pixel(x, y),
            u_at(after, width, height, chroma_index(width, x, y)),
            v_at(after, width, height, chroma_index(width, x, y)),
        ),
{
    let k = chroma_index(width, x, y);
    lemma_even_size_fits(width, height);
    assert(0 <= (y / 2) * (width as int / 2)) by (nonlinear_arith)
        requires
            0 <= y / 2,
            0 <= width as int / 2,
    ;
    assert(writes_chroma(width, height, x, y, k));
    lemma_even_width_one_writer(width, height, x, y, k);
}

/// Tells whether a picture of the given size has a place for every chroma
/// sample: whether the sample of its last pixel at even coordinates has one.
pub fn has_chroma_places(width: u32, height: u32) -> (fits: bool)
    ensures
        fits == chroma_fits(width, height),
{
    if width == 0 || height == 0 {
        return true;
    }
    let w = width as u64;
    let h = height as u64;
    let row: u64 = (h - 1) / 2;
    let column: u64 = (w - 1) / 2;
    assert(row * (w / 2) <= 0x8000_0000 * 0x8000_0000) by (nonlinear_arith)
        requires
            0 <= row <= 0x8000_0000,
            0 <= w / 2 <= 0x8000_0000,
    ;
    assert(0 <= w * h <= 0xFFFF_FFFF * 0xFFFF_FFFF) by (nonlinear_arith)
        requires
            0 <= w <= 0xFFFF_FFFF,
            0 <= h <= 0xFFFF_FFFF,
    ;
    let last: u64 = row * (w / 2) + column;
    let fits = last < w * h / 4;
    proof {
        let x = 2 * column as int;
        let y = 2 * row as int;
        assert(chroma_index(width, x, y) == last);
        if fits {
            assert forall|a: int, b: int|
                0 <= a < width && 0 <= b < height && a % 2 == 0 && b % 2 == 0 implies #[trigger] chroma_index(
                width,
                a,
                b,
            ) < chroma_len(width, height) by {
                assert((b / 2) * (w as int / 2) <= (row as int) * (w as int / 2))
                    by (nonlinear_arith)
                    requires
                        0 <= b / 2 <= row,
                        0 <= w as int / 2,
                ;
            }
        } else {
            assert(0 <= x < width && 0 <= y < height && x % 2 == 0 && y % 2 == 0);
            assert(!(chroma_index(width, x, y) < chroma_len(width, height)));
        }
    }
    fits
}

/// `after` is the buffer `before` once the frame has been converted into it:
/// grown to the size of the picture where it was shorter; the luma of every
/// pixel in the luma plane; in the chroma planes the samples of the pixels at
/// even coordinates, the last in row order where several share a place, and
/// neutral chroma where no pixel fills a place; and behind the planes what
/// was there, or zero where the buffer grew.
pub open spec fn is_picture_of<F: Fn(u8, u8, u8) -> (u8, u8, u8)>(
    convert: F,
    rgba: FrameView,
    width: u32,
    height: u32,
    before: Seq<u8>,
    after: Seq<u8>,
) -> bool {
    &&& after.len() == if before.len() < i420_len(width, height) {
        i420_len(width, height)
    } else {
        before.len() as int
    }
    &&& forall|x: int, y: int|
        0 <= x < width && 0 <= y < height ==> luma_of(
            convert,
            rgba.pixel(x, y),
            #[trigger] luma_at(after, width, x, y),
        )
    &&& forall|x: int, y: int, k: int|
        0 <= k < chroma_len(width, height) && #[trigger] last_writer(width, height, x, y, k)
            ==> chroma_of(
            convert,
            rgba.pixel(x, y),
            u_at(after, width, height, k),
            v_at(after, width, height, k),
        )
    &&& forall|k: int|
        #![trigger u_at(after, width, height, k)]
        0 <= k < chroma_len(width, height) && unwritten(width, height, k) ==> u_at(
            after,
            width,
            height,
            k,
        ) == PATTERN_CHROMA && v_at(after, width, height, k) == PATTERN_CHROMA
    &&& forall|i: int|
        width * height + 2 * chroma_len(width, height) <= i < after.len() ==> #[trigger] after[i]
            == if i < before.len() {
            before[i]
        } else {
            0
        }
}

/// `after` is the buffer `before`, large enough for the picture, once the
/// frame has been stored in it: the luma of every pixel in the luma plane;
/// in the chroma planes the samples of the pixels at even coordinates, the
/// last in row order where several share a place; and every other byte as
/// it was.
pub open spec fn is_filled_from<F: Fn(u8, u8, u8) -> (u8, u8, u8)>(
    convert: F,
    rgba: FrameView,
    width: u32,
    height: u32,
    before: Seq<u8>,
    after: Seq<u8>,
) -> bool {
    &&& after.len() == before.len()
    &&& forall|x: int, y: int|
        0 <= x < width && 0 <= y < height ==> luma_of(
            convert,
            rgba.pixel(x, y),
            #[trigger] luma_at(after, width, x, y),
        )
    &&& forall|x: int, y: int, k: int|
        0 <= k < chroma_len(width, height) && #[trigger] last_writer(width, height, x, y, k)
            ==> chroma_of(
            convert,
            rgba.pixel(x, y),
            u_at(after, width, height, k),
            v_at(after, width, height, k),
        )
    &&& forall|k: int|
        #![trigger u_at(after, width, height, k)]
        0 <= k < chroma_len(width, height) && unwritten(width, height, k) ==> u_at(
            after,
            width,
            height,
            k,
        ) == u_at(before, width, height, k) && v_at(after, width, height, k) == v_at(
            before,
            width,
            height,
            k,
        )
    &&& forall|i: int|
        width * height + 2 * chroma_len(width, height) <= i < after.len() ==> #[trigger] after[i]
            == before[i]
}

/// `yuv` is the frame as a fresh I420 picture: exactly the three planes,
/// with the luma of every pixel, the chroma of the pixels at even
/// coordinates, the last in row order where several share a place, and zero
/// where no pixel fills a place.
pub open spec fn is_fresh_picture_of<F: Fn(u8, u8, u8) -> (u8, u8, u8)>(
    convert: F,
    rgba: FrameView,
    width: u32,
    height: u32,
    yuv: Seq<u8>,
) -> bool {
    &&& yuv.len() == width * height + 2 * chroma_len(width, height)
    &&& forall|x: int, y: int|
        0 <= x < width && 0 <= y < height ==> luma_of(
            convert,
            rgba.pixel(x, y),
            #[trigger] luma_at(yuv, width, x, y),
        )
    &&& forall|x: int, y: int, k: int|
        0 <= k < chroma_len(width, height) && #[trigger] last_writer(width, height, x, y, k)
            ==> chroma_of(
            convert,
            rgba.pixel(x, y),
            u_at(yuv, width, height, k),
            v_at(yuv, width, height, k),
        )
    &&& forall|k: int|
        #![trigger u_at(yuv, width, height, k)]
        0 <= k < chroma_len(width, height) && unwritten(width, height, k) ==> u_at(
            yuv,
            width,
            height,
            k,
        ) == 0 && v_at(yuv, width, height, k) == 0
}

/// A picture stored in a buffer of zeros of exactly its size is a fresh
/// picture.
proof fn lemma_fresh_picture<F: Fn(u8, u8, u8) -> (u8, u8, u8)>(
    convert: F,
    rgba: FrameView,
    width: u32,
    height: u32,
    before: Seq<u8>,
    after: Seq<u8>,
)
    requires
        is_filled_from(convert, rgba, width, height, before, after),
        before.len() == width * height + 2 * chroma_len(width, height),
        forall|i: int| 0 <= i < before.len() ==> before[i] == 0,
    ensures
        is_fresh_picture_of(convert, rgba, width, height, after),
{
    assert forall|k: int|
        #![trigger u_at(after, width, height, k)]
        0 <= k < chroma_len(width, height) && unwritten(width, height, k) implies u_at(
        after,
        width,
        height,
        k,
    ) == 0 && v_at(after, width, height, k) == 0 by {
        assert(u_at(before, width, height, k) == 0);
        assert(v_at(before, width, height, k) == 0);
        assert(u_at(after, width, height, k) == u_at(before, width, height, k));
        assert(v_at(after, width, height, k) == v_at(before, width, height, k));
    }
}

/// A picture stored in a buffer that was grown to its size and given the
/// test pattern in its chroma planes is the converted picture.
proof fn lemma_patterned_picture<F: Fn(u8, u8, u8) -> (u8, u8, u8)>(
    convert: F,
    rgba: FrameView,
    width: u32,
    height: u32,
    before: Seq<u8>,
    patterned: Seq<u8>,
    after: Seq<u8>,
)
    requires
        is_filled_from(convert, rgba, width, height, patterned, after),
        patterned.len() == if before.len() < i420_len(width, height) {
            i420_len(width, height)
        } else {
            before.len() as int
        },
        forall|k: int|
            #![trigger u_at(patterned, width, height, k)]
            0 <= k < chroma_len(width, height) ==> u_at(patterned, width, height, k)
                == PATTERN_CHROMA && v_at(patterned, width, height, k) == PATTERN_CHROMA,
        forall|i: int|
            width * height + 2 * chroma_len(width, height) <= i < patterned.len()
                ==> #[trigger] patterned[i] == if i < before.len() {
                before[i]
            } else {
                0
            },
    ensures
        is_picture_of(convert, rgba, width, height, before, after),
{
    assert forall|k: int|
        #![trigger u_at(after, width, height, k)]
        0 <= k < chroma_len(width, height) && unwritten(width, height, k) implies u_at(
        after,
        width,
        height,
        k,
    ) == PATTERN_CHROMA && v_at(after, width, height, k) == PATTERN_CHROMA by {
        assert(u_at(patterned, width, height, k) == PATTERN_CHROMA);
        assert(v_at(patterned, width, height, k) == PATTERN_CHROMA);
        assert(u_at(after, width, height, k) == u_at(patterned, width, height, k));
        assert(v_at(after, width, height, k) == v_at(patterned, width, height, k));
    }
    assert forall|i: int|
        width * height + 2 * chroma_len(width, height) <= i < after.len() implies #[trigger] after[i]
        == if i < before.len() {
        before[i]
    } else {
        0
    } by {
        assert(after[i] == patterned[i]);
    }
}

/// Converts a frame to an I420 picture in `buffer`.
///
/// The buffer grows to the size of the picture where it is shorter. The
/// luma plane holds the luma of every pixel, row by row. Each chroma plane
/// holds, for every pixel at even coordinates, its sample at the place of
/// that pixel in a plane half as wide; where several pixels share a place,
/// the last one in row order stays, and a place that no pixel fills is
/// neutral. What lies behind the planes is left alone.
pub fn rgba_to_i420_buffer<F: Fn(u8, u8, u8) -> (u8, u8, u8)>(
    rgba: &RgbaFrame,
    width: u32,
    height: u32,
    buffer: &mut Vec<u8>,
    convert: F,
)
    requires
        width * height * 3 <= u32::MAX,
        width <= rgba@.width,
        height <= rgba@.height,
        chroma_fits(width, height),
        forall|r: u8, g: u8, b: u8| call_requires(convert, (r, g, b)),
    ensures
        is_picture_of(convert, rgba@, width, height, old(buffer)@, final(buffer)@),
{
    let ghost wi = width as int;
    let ghost hi = height as int;
    proof {
        assert(0 <= wi * hi <= wi * hi * 3) by (nonlinear_arith)
            requires
                0 <= wi,
                0 <= hi,
        ;
        assert(width * height * 3 == wi * hi * 3);
    }
    let luma_len: usize = (width * height) as usize;
    let quarter: usize = luma_len / 4;
    let required_size: usize = (width * height * 3 / 2) as usize;
    if buffer.len() < required_size {
        buffer.resize(required_size, 0);
        proof {
            assert(buffer@.subrange(0, old(buffer)@.len() as int) == old(buffer)@);
            assert forall|i: int| 0 <= i < old(buffer)@.len() implies buffer@[i] == old(
                buffer,
            )@[i] by {
                assert(buffer@.subrange(0, old(buffer)@.len() as int)[i] == buffer@[i]);
            }
        }
    }
    let ghost start = buffer@;
    proof {
        assert forall|i: int| 0 <= i < start.len() implies #[trigger] start[i] == if i < old(
            buffer,
        )@.len() {
            old(buffer)@[i]
        } else {
            0
        } by {}
    }
    let len: usize = buffer.len();
    let mut i: usize = 0;
    while i < luma_len
        invariant
            i <= luma_len,
            luma_len + 2 * quarter <= len,
            buffer@.len() == len,
            forall|k: int| luma_len <= k < len ==> #[trigger] buffer@[k] == start[k],
        decreases luma_len - i,
    {
        buffer.set(i, PATTERN_LUMA);
        i = i + 1;
    }
    let mut i: usize = 0;
    while i < quarter
        invariant
            i <= quarter,
            luma_len + 2 * quarter <= len,
            buffer@.len() == len,
            luma_len == width * height,
            quarter == chroma_len(width, height),
            forall|k: int|
                #![trigger u_at(buffer@, width, height, k)]
                0 <= k < i ==> u_at(buffer@, width, height, k) == PATTERN_CHROMA && v_at(
                    buffer@,
                    width,
                    height,
                    k,
                ) == PATTERN_CHROMA,
            forall|k: int| luma_len + 2 * quarter <= k < len ==> #[trigger] buffer@[k] == start[k],
        decreases quarter - i,
    {
        let ghost before = buffer@;
        buffer.set(luma_len + i, PATTERN_CHROMA);
        buffer.set(luma_len + quarter + i, PATTERN_CHROMA);
        proof {
            assert forall|k: int| 0 <= k < i + 1 implies #[trigger] u_at(
                buffer@,
                width,
                height,
                k,
            ) == PATTERN_CHROMA && v_at(buffer@, width, height, k) == PATTERN_CHROMA by {
                if k < i {
                    assert(u_at(before, width, height, k) == PATTERN_CHROMA);
                    assert(v_at(before, width, height, k) == PATTERN_CHROMA);
                }
            }
        }
        i = i + 1;
    }
    let ghost patterned = buffer@;
    fill_i420(rgba, width, height, buffer, convert);
    proof {
        assert forall|i: int|
            width * height + 2 * chroma_len(width, height) <= i < patterned.len() implies #[trigger] patterned[i]
            == if i < old(buffer)@.len() {
            old(buffer)@[i]
        } else {
            0
        } by {
            assert(patterned[i] == start[i]);
        }
        lemma_patterned_picture(convert, rgba@, width, height, old(buffer)@, patterned, buffer@);
    }
}

/// Converts a frame to a fresh I420 picture of exactly its two chroma
/// planes behind the luma plane. A chroma place that no pixel fills is zero.
pub fn rgba_to_i420<F: Fn(u8, u8, u8) -> (u8, u8, u8)>(
    rgba: &RgbaFrame,
    width: u32,
    height: u32,
    convert: F,
) -> (yuv: Vec<u8>)
    requires
        width * height * 3 <= u32::MAX,
        width <= rgba@.width,
        height <= rgba@.height,
        chroma_fits(width, height),
        forall|r: u8, g: u8, b: u8| call_requires(convert, (r, g, b)),
    ensures
        is_fresh_picture_of(convert, rgba@, width, height, yuv@),
{
    proof {
        assert(0 <= width * height <= width * height * 3) by (nonlinear_arith)
            requires
                0 <= width,
                0 <= height,
        ;
    }
    let y_size: usize = (width as usize) * (height as usize);
    let u_size: usize = y_size / 4;
    let v_size: usize = y_size / 4;
    let mut yuv: Vec<u8> = vec![0u8; y_size + u_size + v_size];
    let ghost start = yuv@;
    proof {
        assert(y_size == width * height) by (nonlinear_arith)
            requires
                y_size == (width as int) * (height as int),
        ;
    }
    fill_i420(rgba, width, height, &mut yuv, convert);
    proof {
        lemma_fresh_picture(convert, rgba@, width, height, start, yuv@);
    }
    yuv
}

/// Stores the luma of every pixel and the chroma of every pixel at even
/// coordinates in an I420 picture that is already large enough, and leaves
/// every other byte as it was.
pub fn fill_i420<F: Fn(u8, u8, u8) -> (u8, u8, u8)>(
    rgba: &RgbaFrame,
    width: u32,
    height: u32,
    buffer: &mut Vec<u8>,
    convert: F,
)
    requires
        width * height * 3 <= u32::MAX,
        width <= rgba@.width,
        height <= rgba@.height,
        chroma_fits(width, height),
        old(buffer)@.len() >= width * height + 2 * chroma_len(width, height),
        forall|r: u8, g: u8, b: u8| call_requires(convert, (r, g, b)),
    ensures
        is_filled_from(convert, rgba@, width, height, old(buffer)@, final(buffer)@),
{
    let ghost wi = width as int;
    let ghost hi = height as int;
    proof {
        assert(0 <= wi * hi <= wi * hi * 3) by (nonlinear_arith)
            requires
                0 <= wi,
                0 <= hi,
        ;
        assert(width * height * 3 == wi * hi * 3);
    }
    let luma_len: usize = (width * height) as usize;
    let quarter: usize = luma_len / 4;
    let len: usize = buffer.len();
    let ghost start = buffer@;
    let w: usize = width as usize;
    let ghost mut filled: Seq<bool> = Seq::new(quarter as nat, |k: int| false);
    let ghost mut from_x: Seq<int> = Seq::new(quarter as nat, |k: int| 0int);
    let ghost mut from_y: Seq<int> = Seq::new(quarter as nat, |k: int| 0int);
    let mut y: u32 = 0;
    while y < height
        invariant
            y <= height,
            wi == width,
            hi == height,
            w == width,
            luma_len == wi * hi,
            quarter == chroma_len(width, height),
            luma_len + 2 * quarter <= len,
            buffer@.len() == len,
            width <= rgba@.width,
            height <= rgba@.height,
            chroma_fits(width, height),
            forall|r: u8, g: u8, b: u8| call_requires(convert, (r, g, b)),
            filled.len() == quarter,
            from_x.len() == quarter,
            from_y.len() == quarter,
            forall|a: int, b: int|
                0 <= a < wi && 0 <= b < y ==> luma_of(
                    convert,
                    rgba@.pixel(a, b),
                    #[trigger] luma_at(buffer@, width, a, b),
                ),
            forall|k: int|
                0 <= k < quarter ==> chroma_state(
                    convert,
                    rgba@,
                    start,
                    buffer@,
                    width,
                    height,
                    k,
                    #[trigger] filled[k],
                    from_x[k],
                    from_y[k],
                    wi - 1,
                    y as int - 1,
                ),
            forall|k: int| luma_len + 2 * quarter <= k < len ==> #[trigger] buffer@[k] == start[k],
        decreases height - y,
    {
        let mut x: u32 = 0;
        proof {
            assert forall|k: int| 0 <= k < quarter implies chroma_state(
                convert,
                rgba@,
                start,
                buffer@,
                width,
                height,
                k,
                #[trigger] filled[k],
                from_x[k],
                from_y[k],
                -1,
                y as int,
            ) by {
                lemma_chroma_state_row(
                    convert,
                    rgba@,
                    start,
                    buffer@,
                    width,
                    height,
                    k,
                    filled[k],
                    from_x[k],
                    from_y[k],
                    y as int,
                );
            }
        }
        while x < width
            invariant
                y < height,
                x <= width,
                wi == width,
                hi == height,
                w == width,
                luma_len == wi * hi,
                quarter == chroma_len(width, height),
                luma_len + 2 * quarter <= len,
                buffer@.len() == len,
                width <= rgba@.width,
                height <= rgba@.height,
                chroma_fits(width, height),
                forall|r: u8, g: u8, b: u8| call_requires(convert, (r, g, b)),
                filled.len() == quarter,
                from_x.len() == quarter,
                from_y.len() == quarter,
                forall|a: int, b: int|
                    0 <= a < wi && 0 <= b < hi && no_later(a, b, x as int - 1, y as int)
                        ==> luma_of(
                        convert,
                        rgba@.pixel(a, b),
                        #[trigger] luma_at(buffer@, width, a, b),
                    ),
                forall|k: int|
                    0 <= k < quarter ==> chroma_state(
                        convert,
                        rgba@,
                        start,
                        buffer@,
                        width,
                        height,
                        k,
                        #[trigger] filled[k],
                        from_x[k],
                        from_y[k],
                        x as int - 1,
                        y as int,
                    ),
                forall|k: int| luma_len + 2 * quarter <= k < len ==> #[trigger] buffer@[k] == start[k],
            decreases width - x,
        {
            let ghost before = buffer@;
            let ghost filled_before = filled;
            let ghost from_x_before = from_x;
            let ghost from_y_before = from_y;
            let pixel = rgba.get_pixel(x, y);
            proof {
                lemma_pixel_index(wi, hi, x as int, y as int);
            }
            let (luma, u, v) = convert(pixel[0], pixel[1], pixel[2]);
            let ghost px_seq = rgba@.pixel(x as int, y as int);
            assert(px_seq[0] == pixel[0] && px_seq[1] == pixel[1] && px_seq[2] == pixel[2]);
            assert(luma_of(convert, px_seq, luma));
            assert(chroma_of(convert, px_seq, u, v));
            let luma_index: usize = (y as usize) * w + (x as usize);
            buffer.set(luma_index, luma);
            let ghost mut written: int = -1;
            if y % 2 == 0 && x % 2 == 0 {
                proof {
                    assert(0 <= (y as int / 2) * (wi / 2)) by (nonlinear_arith)
                        requires
                            0 <= y as int / 2,
                            0 <= wi / 2,
                    ;
                    assert(chroma_index(width, x as int, y as int) < chroma_len(width, height));
                }
                let u_index: usize = ((y / 2) as usize) * (w / 2) + ((x / 2) as usize);
                buffer.set(luma_len + u_index, u);
                buffer.set(luma_len + quarter + u_index, v);
                proof {
                    written = u_index as int;
                    assert(writes_chroma(width, height, x as int, y as int, written));
                    filled = filled.update(written, true);
                    from_x = from_x.update(written, x as int);
                    from_y = from_y.update(written, y as int);
                }
            }
            proof {
                assert(written >= 0 <==> (x % 2 == 0 && y % 2 == 0));
                assert forall|a: int, b: int|
                    0 <= a < wi && 0 <= b < hi && no_later(a, b, x as int, y as int) implies luma_of(
                    convert,
                    rgba@.pixel(a, b),
                    #[trigger] luma_at(buffer@, width, a, b),
                ) by {
                    lemma_pixel_index(wi, hi, a, b);
                    if a != x || b != y {
                        lemma_distinct_pixels(wi, x as int, y as int, a, b);
                        assert(luma_at(buffer@, width, a, b) == luma_at(before, width, a, b));
                    }
                }
                assert forall|k: int| 0 <= k < quarter implies chroma_state(
                    convert,
                    rgba@,
                    start,
                    buffer@,
                    width,
                    height,
                    k,
                    #[trigger] filled[k],
                    from_x[k],
                    from_y[k],
                    x as int,
                    y as int,
                ) by {
                    assert(chroma_state(
                        convert,
                        rgba@,
                        start,
                        before,
                        width,
                        height,
                        k,
                        filled_before[k],
                        from_x_before[k],
                        from_y_before[k],
                        x as int - 1,
                        y as int,
                    ));
                    if k != written {
                        assert(u_at(buffer@, width, height, k) == u_at(before, width, height, k));
                        assert(v_at(buffer@, width, height, k) == v_at(before, width, height, k));
                        assert(!writes_chroma(width, height, x as int, y as int, k));
                    }
                    assert forall|a: int, b: int|
                        no_later(a, b, x as int, y as int) && #[trigger] writes_chroma(
                            width,
                            height,
                            a,
                            b,
                            k,
                        ) implies (a == x && b == y) || no_later(a, b, x as int - 1, y as int) by {}
                }
            }
            x = x + 1;
        }
        y = y + 1;
    }
    proof {
        assert forall|x: int, y: int, k: int|
            0 <= k < chroma_len(width, height) && #[trigger] last_writer(
                width,
                height,
                x,
                y,
                k,
            ) implies chroma_of(
            convert,
            rgba@.pixel(x, y),
            u_at(buffer@, width, height, k),
            v_at(buffer@, width, height, k),
        ) by {
            assert(chroma_state(
                convert,
                rgba@,
                start,
                buffer@,
                width,
                height,
                k,
                filled[k],
                from_x[k],
                from_y[k],
                wi - 1,
                hi - 1,
            ));
            assert(writes_chroma(width, height, x, y, k));
            assert(no_later(x, y, wi - 1, hi - 1));
            assert(filled[k]);
            assert(no_later(x, y, from_x[k], from_y[k]));
            assert(writes_chroma(width, height, from_x[k], from_y[k], k));
            assert(no_later(from_x[k], from_y[k], x, y));
        }
        assert forall|k: int|
            0 <= k < chroma_len(width, height) && unwritten(width, height, k) implies #[trigger] u_at(
            buffer@,
            width,
            height,
            k,
        ) == u_at(start, width, height, k) && v_at(buffer@, width, height, k) == v_at(
            start,
            width,
            height,
            k,
        ) by {
            assert(chroma_state(
                convert,
                rgba@,
                start,
                buffer@,
                width,
                height,
                k,
                filled[k],
                from_x[k],
                from_y[k],
                wi - 1,
                hi - 1,
            ));
            if filled[k] {
                assert(writes_chroma(width, height, from_x[k], from_y[k], k));
            }
        }
    }
}

/// What holds of the chroma sample at `k` once the pixels up to `(x, y)`
/// have been converted: it is what it was and none of them gives it, or
/// it comes from the last of them that does.
pub open spec fn chroma_state<F: Fn(u8, u8, u8) -> (u8, u8, u8)>(
    convert: F,
    rgba: FrameView,
    start: Seq<u8>,
    buffer: Seq<u8>,
    width: u32,
    height: u32,
    k: int,
    filled: bool,
    from_x: int,
    from_y: int,
    x: int,
    y: int,
) -> bool {
    if filled {
        &&& no_later(from_x, from_y, x, y)
        &&& writes_chroma(width, height, from_x, from_y, k)
        &&& chroma_of(
            convert,
            rgba.pixel(from_x, from_y),
            u_at(buffer, width, height, k),
            v_at(buffer, width, height, k),
        )
        &&& forall|a: int, b: int|
            no_later(a, b, x, y) && #[trigger] writes_chroma(width, height, a, b, k) ==> no_later(
                a,
                b,
                from_x,
                from_y,
            )
    } else {
        &&& u_at(buffer, width, height, k) == u_at(start, width, height, k)
        &&& v_at(buffer, width, height, k) == v_at(start, width, height, k)
        &&& forall|a: int, b: int|
            no_later(a, b, x, y) ==> !#[trigger] writes_chroma(width, height, a, b, k)
    }
}

/// The state at the end of one row is the state at the start of the next.
proof fn lemma_chroma_state_row<F: Fn(u8, u8, u8) -> (u8, u8, u8)>(
    convert: F,
    rgba: FrameView,
    start: Seq<u8>,
    buffer: Seq<u8>,
    width: u32,
    height: u32,
    k: int,
    filled: bool,
    from_x: int,
    from_y: int,
    y: int,
)
    requires
        chroma_state(
            convert,
            rgba,
            start,
            buffer,
            width,
            height,
            k,
            filled,
            from_x,
            from_y,
            width - 1,
            y - 1,
        ),
    ensures
        chroma_state(convert, rgba, start, buffer, width, height, k, filled, from_x, from_y, -1, y),
{
    assert forall|a: int, b: int|
        no_later(a, b, -1, y) && #[trigger] writes_chroma(width, height, a, b, k) implies no_later(
        a,
        b,
        width - 1,
        y - 1,
    ) by {}
}

} // verus!
