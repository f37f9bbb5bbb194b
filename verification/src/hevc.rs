//! The stand-in H.265 encoder of the streamer: it keeps the cadence of
//! keyframes by the clock and frames a sparse sample of each picture as an
//! Annex B access unit.

use crate::bytes::append;
use crate::encoded::EncodedFrame;
use crate::encoded::Timestamp;
use crate::error::X265Error;
use crate::frame::FrameView;
use crate::frame::RgbaFrame;
use crate::frame::lemma_pixel_in_samples;
use vstd::prelude::*;

verus! {

/// Seconds between two keyframes.
pub const KEYFRAME_INTERVAL_SECS: u64 = 2;

/// The parameter sets that open a keyframe.
pub open spec fn keyframe_headers() -> Seq<u8> {
    seq![
        0x00u8, 0x00u8, 0x01u8, 0x40u8, 0x01u8, 0x0cu8, 0x01u8, 0xffu8, 0xffu8, 0x00u8, 0x00u8,
        0x01u8, 0x42u8, 0x01u8, 0x01u8, 0x01u8, 0x60u8, 0x00u8, 0x00u8, 0x00u8, 0x01u8, 0x44u8,
        0x01u8, 0xc0u8, 0xf3u8, 0xc0u8,
    ]
}

/// The slice header of a frame: that of an IDR picture for a keyframe, that
/// of a trailing picture for any other.
pub open spec fn slice_header(keyframe: bool) -> Seq<u8> {
    if keyframe {
        seq![0x00u8, 0x00u8, 0x01u8, 0x26u8, 0x01u8]
    } else {
        seq![0x00u8, 0x00u8, 0x01u8, 0x02u8, 0x01u8]
    }
}

/// What closes every frame.
pub open spec fn end_marker() -> Seq<u8> {
    seq![0x00u8, 0x00u8, 0x01u8, 0x5au8]
}

/// Red, green and blue of every `step`-th pixel of row `y` from column `x`
/// on, up to column `width`; columns that the frame lacks give nothing.
pub open spec fn sampled_row(frame: FrameView, y: int, x: int, width: int, step: int) -> Seq<u8>
    decreases
            (if x < width {
                width - x
            } else {
                0
            }),
{
    if x >= width || step <= 0 {
        Seq::empty()
    } else {
        (if frame.contains(x, y) {
            frame.pixel(x, y).take(3)
        } else {
            Seq::empty()
        }) + sampled_row(frame, y, x + step, width, step)
    }
}

/// The samples of every `step_y`-th row from row `y` on, up to row `height`.
pub open spec fn sampled_rows(
    frame: FrameView,
    y: int,
    width: int,
    height: int,
    step_x: int,
    step_y: int,
) -> Seq<u8>
    decreases
            (if y < height {
                height - y
            } else {
                0
            }),
{
    if y >= height || step_y <= 0 {
        Seq::empty()
    } else {
        sampled_row(frame, y, 0, width, step_x) + sampled_rows(
            frame,
            y + step_y,
            width,
            height,
            step_x,
            step_y,
        )
    }
}

/// The access unit that stands for a picture: for a keyframe the parameter
/// sets, then the slice header, the samples of a grid of ten by ten steps
/// over the encoder's size, and the end marker.
pub open spec fn stand_in_access_unit(frame: FrameView, width: u32, height: u32, keyframe: bool) -> Seq<
    u8,
> {
    (if keyframe {
        keyframe_headers()
    } else {
        Seq::empty()
    }) + slice_header(keyframe) + sampled_rows(
        frame,
        0,
        width as int,
        height as int,
        width as int / 10,
        height as int / 10,
    ) + end_marker()
}

/// Frames a sparse sample of `frame` as an access unit for an encoder of
/// the given size, which is at least ten pixels each way.
pub fn encode_rgba_to_hevc(frame: &RgbaFrame, width: u32, height: u32, force_keyframe: bool) -> (data:
    Vec<u8>)
    requires
        width >= 10,
        height >= 10,
    ensures
        data@ == stand_in_access_unit(frame@, width, height, force_keyframe),
{
    let mut data: Vec<u8> = Vec::new();
    if force_keyframe {
        let vps: [u8; 9] = [0x00, 0x00, 0x01, 0x40, 0x01, 0x0c, 0x01, 0xff, 0xff];
        let sps: [u8; 9] = [0x00, 0x00, 0x01, 0x42, 0x01, 0x01, 0x01, 0x60, 0x00];
        let pps: [u8; 8] = [0x00, 0x00, 0x01, 0x44, 0x01, 0xc0, 0xf3, 0xc0];
        append(&mut data, vps.as_slice());
        append(&mut data, sps.as_slice());
        append(&mut data, pps.as_slice());
        let idr: [u8; 5] = [0x00, 0x00, 0x01, 0x26, 0x01];
        append(&mut data, idr.as_slice());
        assert(data@ =~= keyframe_headers() + slice_header(true));
    } else {
        let trail: [u8; 5] = [0x00, 0x00, 0x01, 0x02, 0x01];
        append(&mut data, trail.as_slice());
        assert(data@ =~= Seq::<u8>::empty() + slice_header(false));
    }
    let ghost head = data@;
    let (frame_width, frame_height) = frame.dimensions();
    let step_x: u64 = (width / 10) as u64;
    let step_y: u64 = (height / 10) as u64;
    let ghost w = width as int;
    let ghost h = height as int;
    let ghost all = sampled_rows(frame@, 0, w, h, step_x as int, step_y as int);
    let ghost mut rows: Seq<u8> = Seq::empty();
    let mut y: u64 = 0;
    while y < height as u64
        invariant
            w == width,
            h == height,
            step_x == w / 10,
            step_y == h / 10,
            step_x > 0,
            step_y > 0,
            y <= h + step_y,
            frame@.wf(),
            frame_width == frame@.width,
            frame_height == frame@.height,
            data@ == head + rows,
            all == rows + sampled_rows(frame@, y as int, w, h, step_x as int, step_y as int),
        decreases h + step_y - y,
    {
        let ghost row = sampled_row(frame@, y as int, 0, w, step_x as int);
        let ghost mut cols: Seq<u8> = Seq::empty();
        let mut x: u64 = 0;
        while x < width as u64
            invariant
                w == width,
                step_x == w / 10,
                step_x > 0,
                y < h,
                x <= w + step_x,
                frame@.wf(),
                frame_width == frame@.width,
                frame_height == frame@.height,
                data@ == head + rows + cols,
                row == cols + sampled_row(frame@, y as int, x as int, w, step_x as int),
            decreases w + step_x - x,
        {
            if x < frame_width as u64 && y < frame_height as u64 {
                let pixel = frame.get_pixel(x as u32, y as u32);
                proof {
                    lemma_pixel_in_samples(frame@, x as int, y as int);
                }
                data.push(pixel[0]);
                data.push(pixel[1]);
                data.push(pixel[2]);
                proof {
                    let px = frame@.pixel(x as int, y as int).take(3);
                    assert(px =~= seq![pixel[0], pixel[1], pixel[2]]);
                    assert(data@ =~= head + rows + (cols + px));
                    assert(row =~= (cols + px) + sampled_row(
                        frame@,
                        y as int,
                        x + step_x,
                        w,
                        step_x as int,
                    ));
                    cols = cols + px;
                }
            }
            x = x + step_x;
        }
        proof {
            assert(cols =~= row);
            assert(data@ =~= head + (rows + row));
            assert(all =~= (rows + row) + sampled_rows(
                frame@,
                y + step_y,
                w,
                h,
                step_x as int,
                step_y as int,
            ));
            rows = rows + row;
        }
        y = y + step_y;
    }
    proof {
        assert(rows =~= all);
    }
    let end: [u8; 4] = [0x00, 0x00, 0x01, 0x5a];
    append(&mut data, end.as_slice());
    proof {
        assert(data@ =~= stand_in_access_unit(frame@, width, height, force_keyframe));
    }
    data
}

/// What the encoder is set up with and how far it has come.
pub struct HevcView {
    pub width: u32,
    pub height: u32,
    pub bitrate: u32,
    pub fps: u32,
    pub frame_count: u64,
}

/// The streamer's stand-in H.265 encoder. The program keeps the clock.
pub struct HEVCEncoder {
    width: u32,
    height: u32,
    bitrate: u32,
    fps: u32,
    frame_count: u64,
}

impl View for HEVCEncoder {
    type V = HevcView;

    closed spec fn view(&self) -> HevcView {
        HevcView {
            width: self.width,
            height: self.height,
            bitrate: self.bitrate,
            fps: self.fps,
            frame_count: self.frame_count,
        }
    }
}

impl HEVCEncoder {
    /// An encoder that has encoded nothing.
    pub fn new(width: u32, height: u32, bitrate: u32, fps: u32) -> (encoder: HEVCEncoder)
        ensures
            encoder@ == (HevcView { width, height, bitrate, fps, frame_count: 0 }),
    {
        HEVCEncoder { width, height, bitrate, fps, frame_count: 0 }
    }

    /// Number of frames encoded so far.
    pub fn frame_count(&self) -> (n: u64)
        ensures
            n == self@.frame_count,
    {
        self.frame_count
    }

    /// Frames per second.
    pub fn fps(&self) -> (fps: u32)
        ensures
            fps == self@.fps,
    {
        self.fps
    }

    /// Encodes the next frame. It is a keyframe where `since_keyframe`, the
    /// time since the last one, has reached the keyframe interval; its data
    /// is the stand-in access unit of its kind; `timestamp` is passed
    /// through.
    pub fn encode_frame(
        &mut self,
        frame: &RgbaFrame,
        since_keyframe: Timestamp,
        timestamp: Timestamp,
    ) -> (res: Result<EncodedFrame, X265Error>)
        requires
            old(self)@.width >= 10,
            old(self)@.height >= 10,
            old(self)@.frame_count < u64::MAX,
        ensures
            final(self)@ == (HevcView {
                frame_count: (old(self)@.frame_count + 1) as u64,
                ..old(self)@
            }),
            res is Ok,
            res->Ok_0.is_keyframe == (since_keyframe.secs >= KEYFRAME_INTERVAL_SECS),
            res->Ok_0.timestamp == timestamp,
            res->Ok_0.data@ == stand_in_access_unit(
                frame@,
                old(self)@.width,
                old(self)@.height,
                res->Ok_0.is_keyframe,
            ),
    {
        self.frame_count = self.frame_count + 1;
        let is_keyframe = since_keyframe.secs >= KEYFRAME_INTERVAL_SECS;
        let data = encode_rgba_to_hevc(frame, self.width, self.height, is_keyframe);
        Ok(EncodedFrame { data, timestamp, is_keyframe })
    }
}

} // verus!
