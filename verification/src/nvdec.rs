//! Bookkeeping of the hardware decoder: what it reads off an access unit
//! before the parser gets it, when it needs a decoder made, how a decoded
//! NV12 picture becomes an RGBA frame, and which frame it answers with.

use crate::decoder::last_of_type;
use crate::decoder::latest;
use crate::decoder::nal_unit_type;
use crate::decoder::stored;
use crate::decoder::unit_type;
use crate::annexb::NAL_PPS;
use crate::annexb::NAL_SPS;
use crate::annexb::NAL_VPS;
use crate::frame::FrameView;
use crate::frame::RgbaFrame;
use crate::frame::frame_fits;
use crate::frame::stored_frame;
use crate::frame::lemma_with_pixel;
use vstd::prelude::*;
use vstd::slice::slice_subrange;
use vstd::slice::slice_to_vec;

verus! {

/// Where a NAL unit lies in an access unit: its first byte and its length.
#[derive(Clone, Copy, Debug, PartialEq, Eq, Structural)]
pub struct NalUnit {
    pub pos: usize,
    pub length: usize,
}

/// A start code begins at `p` and does not reach past the last four bytes.
pub open spec fn marker_at(data: Seq<u8>, p: int) -> bool {
    &&& 0 <= p
    &&& p + 4 <= data.len()
    &&& data[p] == 0
    &&& data[p + 1] == 0
    &&& (data[p + 2] == 1 || (data[p + 2] == 0 && data[p + 3] == 1))
}

/// Length of the start code that begins at `p`.
pub open spec fn marker_len(data: Seq<u8>, p: int) -> int {
    if data[p + 2] == 1 {
        3
    } else {
        4
    }
}

/// Position of the first start code at or after `from`, or the length of the
/// data where there is none.
pub open spec fn next_marker(data: Seq<u8>, from: int) -> int
    decreases data.len() - from,
{
    if from >= data.len() {
        data.len() as int
    } else if marker_at(data, from) {
        from
    } else {
        next_marker(data, from + 1)
    }
}

/// The units found from `pos` on, each as first byte and length: a unit
/// begins after a start code and runs up to the next one or to the end, and
/// may be empty.
pub open spec fn located_from(data: Seq<u8>, pos: int) -> Seq<(int, int)>
    decreases data.len() - pos,
{
    let mark = next_marker(data, pos);
    if mark >= data.len() {
        Seq::empty()
    } else {
        proof {
            lemma_next_marker(data, pos);
        }
        let start = mark + marker_len(data, mark);
        seq![(start, next_marker(data, start) - start)] + located_from(data, start)
    }
}

/// The units of an access unit, in order.
pub open spec fn located_units(data: Seq<u8>) -> Seq<(int, int)> {
    located_from(data, 0)
}

/// The bytes of each located unit.
pub open spec fn located_bytes(data: Seq<u8>) -> Seq<Seq<u8>> {
    Seq::new(
        located_units(data).len(),
        |k: int|
            data.subrange(
                located_units(data)[k].0,
                located_units(data)[k].0 + located_units(data)[k].1,
            ),
    )
}

/// The next start code lies between `from` and the end, is one unless it is
/// the end, and none comes before it.
pub proof fn lemma_next_marker(data: Seq<u8>, from: int)
    ensures
        from <= data.len() ==> from <= next_marker(data, from) <= data.len(),
        next_marker(data, from) < data.len() ==> marker_at(data, next_marker(data, from)),
        forall|j: int| from <= j < next_marker(data, from) ==> !marker_at(data, j),
    decreases data.len() - from,
{
    if from < data.len() && !marker_at(data, from) {
        lemma_next_marker(data, from + 1);
    }
}

/// Every located unit lies within the data.
pub proof fn lemma_located_in_bounds(data: Seq<u8>, pos: int)
    requires
        0 <= pos,
    ensures
        forall|k: int|
            0 <= k < located_from(data, pos).len() ==> {
                let unit = #[trigger] located_from(data, pos)[k];
                pos <= unit.0 && 0 <= unit.1 && unit.0 + unit.1 <= data.len()
            },
    decreases data.len() - pos,
{
    let mark = next_marker(data, pos);
    lemma_next_marker(data, pos);
    if mark < data.len() {
        let start = mark + marker_len(data, mark);
        let rest = located_from(data, start);
        lemma_next_marker(data, start);
        lemma_located_in_bounds(data, start);
        assert forall|k: int| 0 <= k < located_from(data, pos).len() implies {
            let unit = #[trigger] located_from(data, pos)[k];
            pos <= unit.0 && 0 <= unit.1 && unit.0 + unit.1 <= data.len()
        } by {
            if k > 0 {
                assert(located_from(data, pos)[k] == rest[k - 1]);
            }
        }
    }
}

/// Finds the NAL units of an access unit.
///
/// The scan looks for a start code at each position that leaves four bytes,
/// and goes on behind one it has found. Each unit ends where the next start
/// code begins, the last one with the data.
pub fn locate_nal_units(data: &[u8]) -> (units: Vec<NalUnit>)
    ensures
        units@.len() == located_units(data@).len(),
        forall|k: int|
            0 <= k < units@.len() ==> (#[trigger] units@[k]).pos == located_units(data@)[k].0
                && units@[k].length == located_units(data@)[k].1,
        forall|k: int|
            0 <= k < units@.len() ==> (#[trigger] units@[k]).pos + units@[k].length
                <= data@.len(),
{
    let mut units: Vec<NalUnit> = Vec::new();
    let len: usize = data.len();
    let mut pos: usize = 0;
    let ghost mut done: Seq<(int, int)> = Seq::empty();
    while pos <= len && len - pos >= 4
        invariant
            len == data@.len(),
            pos <= len,
            units@.len() == 0 ==> done.len() == 0 && located_units(data@) == located_from(
                data@,
                pos as int,
            ),
            units@.len() > 0 ==> {
                let last = units@[units@.len() - 1];
                &&& done.len() == units@.len() - 1
                &&& last.pos <= pos
                &&& last.length == 0
                &&& located_units(data@) == done + seq![
                    (last.pos as int, next_marker(data@, pos as int) - last.pos),
                ] + located_from(data@, pos as int)
            },
            forall|k: int|
                0 <= k < done.len() ==> (#[trigger] units@[k]).pos == done[k].0
                    && units@[k].length == done[k].1,
        decreases len - pos,
    {
        let three = data[pos] == 0 && data[pos + 1] == 0 && data[pos + 2] == 1;
        let four = data[pos] == 0 && data[pos + 1] == 0 && data[pos + 2] == 0 && data[pos + 3]
            == 1;
        assert((three || four) == marker_at(data@, pos as int));
        if three || four {
            let code_len: usize = if three {
                3
            } else {
                4
            };
            let n = units.len();
            if n > 0 {
                let last_pos: usize = units[n - 1].pos;
                proof {
                    done = done.push((last_pos as int, pos - last_pos));
                }
                units.set(n - 1, NalUnit { pos: last_pos, length: pos - last_pos });
            }
            units.push(NalUnit { pos: pos + code_len, length: 0 });
            pos = pos + code_len;
        } else {
            pos = pos + 1;
        }
    }
    proof {
        lemma_next_marker(data@, pos as int);
        assert(next_marker(data@, pos as int) == len) by {
            if next_marker(data@, pos as int) < len {
                assert(marker_at(data@, next_marker(data@, pos as int)));
            }
        }
        lemma_located_in_bounds(data@, 0);
        assert forall|k: int| 0 <= k < located_units(data@).len() implies ({
            let unit = #[trigger] located_units(data@)[k];
            0 <= unit.1 && unit.0 + unit.1 <= data@.len()
        }) by {
            let unit = located_from(data@, 0)[k];
        }
    }
    let n = units.len();
    if n > 0 {
        let last = units[n - 1];
        if last.length == 0 {
            units.set(n - 1, NalUnit { pos: last.pos, length: len - last.pos });
        }
    }
    proof {
        assert forall|k: int| 0 <= k < units@.len() implies (#[trigger] units@[k]).pos
            + units@[k].length <= data@.len() by {
            let unit = located_units(data@)[k];
            assert(units@[k].pos == unit.0 && units@[k].length == unit.1);
        }
    }
    units
}

/// One channel of a converted pixel: `n / 256`, held within 0 and 255.
pub open spec fn clamp_channel(n: int) -> u8 {
    if n <= 0 {
        0
    } else if n / 256 >= 255 {
        255
    } else {
        (n / 256) as u8
    }
}

/// The opaque RGBA pixel of a luma sample and its two chroma samples, by the
/// BT.601 studio-range formulas in steps of 1/256.
pub open spec fn yuv_pixel(y: u8, u: u8, v: u8) -> Seq<u8> {
    let c = y - 16;
    let d = u - 128;
    let e = v - 128;
    seq![
        clamp_channel(298 * c + 409 * e + 128),
        clamp_channel(298 * c - 100 * d - 208 * e + 128),
        clamp_channel(298 * c + 516 * d + 128),
        255u8,
    ]
}

/// The sample at `index`, or neutral chroma beyond the data.
pub open spec fn chroma_at(nv12: Seq<u8>, index: int) -> u8 {
    if index < nv12.len() {
        nv12[index]
    } else {
        128
    }
}

/// The RGBA pixel at `(x, y)` of an NV12 picture `height` rows high, its rows
/// `pitch` bytes apart: the luma plane first, then one row of interleaved
/// chroma pairs for every two rows of luma.
pub open spec fn nv12_pixel(nv12: Seq<u8>, pitch: int, height: int, x: int, y: int) -> Seq<u8> {
    let uv = height * pitch + (y / 2) * pitch + (x / 2) * 2;
    yuv_pixel(nv12[y * pitch + x], chroma_at(nv12, uv), chroma_at(nv12, uv + 1))
}

/// Whether an NV12 picture of the given pitch can be read for a frame of the
/// given size: every luma sample lies within the data and no index leaves
/// the range of `usize`.
pub open spec fn nv12_readable(len: int, pitch: int, width: int, height: int) -> bool {
    &&& 2 * height * pitch + width + 1 <= usize::MAX
    &&& (width > 0 && height > 0 ==> (height - 1) * pitch + width <= len)
}

fn channel(n: i32) -> (c: u8)
    ensures
        c == clamp_channel(n as int),
{
    if n <= 0 {
        0
    } else if n / 256 >= 255 {
        255
    } else {
        (n / 256) as u8
    }
}

/// Converts one sample triple to an opaque RGBA pixel.
pub fn yuv_to_rgba(y: u8, u: u8, v: u8) -> (px: [u8; 4])
    ensures
        px@ == yuv_pixel(y, u, v),
{
    let c: i32 = y as i32 - 16;
    let d: i32 = u as i32 - 128;
    let e: i32 = v as i32 - 128;
    let r = channel(298 * c + 409 * e + 128);
    let g = channel(298 * c - 100 * d - 208 * e + 128);
    let b = channel(298 * c + 516 * d + 128);
    let px: [u8; 4] = [r, g, b, 255];
    assert(px@ =~= yuv_pixel(y, u, v));
    px
}

/// Fills `frame` from an NV12 picture whose rows are `pitch` bytes apart.
/// Chroma that the data does not hold counts as neutral.
pub fn nv12_to_rgba(nv12: &[u8], pitch: usize, frame: &mut RgbaFrame)
    requires
        nv12_readable(
            nv12@.len() as int,
            pitch as int,
            old(frame)@.width as int,
            old(frame)@.height as int,
        ),
    ensures
        final(frame)@.wf(),
        final(frame)@.width == old(frame)@.width,
        final(frame)@.height == old(frame)@.height,
        forall|x: int, y: int|
            final(frame)@.contains(x, y) ==> #[trigger] final(frame)@.pixel(x, y) == nv12_pixel(
                nv12@,
                pitch as int,
                final(frame)@.height as int,
                x,
                y,
            ),
{
    let (width, height) = frame.dimensions();
    let ghost p = pitch as int;
    let mut y: u32 = 0;
    while y < height
        invariant
            y <= height,
            p == pitch,
            frame@.wf(),
            frame@.width == width,
            frame@.height == height,
            nv12_readable(nv12@.len() as int, p, width as int, height as int),
            forall|i: int, j: int|
                0 <= i < width && 0 <= j < y ==> #[trigger] frame@.pixel(i, j) == nv12_pixel(
                    nv12@,
                    p,
                    height as int,
                    i,
                    j,
                ),
        decreases height - y,
    {
        let mut x: u32 = 0;
        while x < width
            invariant
                y < height,
                x <= width,
                p == pitch,
                frame@.wf(),
                frame@.width == width,
                frame@.height == height,
                nv12_readable(nv12@.len() as int, p, width as int, height as int),
                forall|i: int, j: int|
                    0 <= i < width && 0 <= j < y ==> #[trigger] frame@.pixel(i, j) == nv12_pixel(
                        nv12@,
                        p,
                        height as int,
                        i,
                        j,
                    ),
                forall|i: int|
                    0 <= i < x ==> #[trigger] frame@.pixel(i, y as int) == nv12_pixel(
                        nv12@,
                        p,
                        height as int,
                        i,
                        y as int,
                    ),
            decreases width - x,
        {
            proof {
                lemma_nv12_indices(nv12@.len() as int, p, width as int, height as int, x as int, y as int);
            }
            let y_index: usize = (y as usize) * pitch + (x as usize);
            let y_value: u8 = nv12[y_index];
            let chroma_y: usize = (y / 2) as usize;
            let chroma_x: usize = (x / 2) as usize;
            let uv_index: usize = (height as usize) * pitch + chroma_y * pitch + chroma_x * 2;
            let u_value: u8 = if uv_index < nv12.len() {
                nv12[uv_index]
            } else {
                128
            };
            let v_value: u8 = if uv_index + 1 < nv12.len() {
                nv12[uv_index + 1]
            } else {
                128
            };
            let px = yuv_to_rgba(y_value, u_value, v_value);
            let ghost before = frame@;
            frame.put_pixel(x, y, px);
            proof {
                lemma_with_pixel(before, x as int, y as int, px@);
            }
            x = x + 1;
        }
        y = y + 1;
    }
}

/// The indices that the conversion reads at `(x, y)` stay within `usize`, and
/// the luma index within the data.
proof fn lemma_nv12_indices(len: int, pitch: int, width: int, height: int, x: int, y: int)
    requires
        0 <= len,
        0 <= pitch,
        0 <= x < width,
        0 <= y < height,
        nv12_readable(len, pitch, width, height),
    ensures
        0 <= y * pitch,
        y * pitch + x < len,
        0 <= height * pitch,
        0 <= (y / 2) * pitch,
        height * pitch + (y / 2) * pitch + (x / 2) * 2 + 1 <= usize::MAX,
        y * pitch + x <= usize::MAX,
{
    assert(y * pitch <= (height - 1) * pitch) by (nonlinear_arith)
        requires
            0 <= y <= height - 1,
            0 <= pitch,
    ;
    assert(0 <= y * pitch) by (nonlinear_arith)
        requires
            0 <= y,
            0 <= pitch,
    ;
    assert((height - 1) * pitch <= height * pitch) by (nonlinear_arith)
        requires
            0 <= pitch,
    ;
    assert(0 <= (y / 2) * pitch <= height * pitch) by (nonlinear_arith)
        requires
            0 <= y / 2 <= height,
            0 <= pitch,
    ;
    assert(2 * height * pitch == height * pitch + height * pitch) by (nonlinear_arith);
}

/// NAL unit types of the pictures that a decoder can start from.
pub open spec fn is_idr_type(t: u8) -> bool {
    t == 19 || t == 20 || t == 21
}

/// NAL unit types of the three parameter sets.
pub open spec fn is_parameter_set_type(t: u8) -> bool {
    t == NAL_VPS || t == NAL_SPS || t == NAL_PPS
}

/// Some unit among `units` is a parameter set.
pub open spec fn has_parameter_set(units: Seq<Seq<u8>>) -> bool {
    exists|k: int|
        0 <= k < units.len() && (#[trigger] units[k]).len() > 0 && is_parameter_set_type(
            nal_unit_type(units[k]),
        )
}

/// Some unit among `units` marks a keyframe: a parameter set or a picture
/// that a decoder can start from.
pub open spec fn has_key_unit(units: Seq<Seq<u8>>) -> bool {
    exists|k: int|
        0 <= k < units.len() && (#[trigger] units[k]).len() > 0 && (is_parameter_set_type(
            nal_unit_type(units[k]),
        ) || is_idr_type(nal_unit_type(units[k])))
}

/// What the decoder found in an access unit and what is to be done with it.
#[derive(Clone, Copy, Debug, PartialEq, Eq)]
pub struct FramePlan {
    /// The access unit holds a parameter set or a picture to start from.
    pub is_keyframe: bool,
    /// The access unit holds a parameter set.
    pub has_parameter_sets: bool,
    /// The size to make a decoder for before parsing, where the stream
    /// opens with a keyframe that brings no parameter sets.
    pub default_format: Option<(u32, u32)>,
    /// A parser exists and takes the access unit.
    pub feed_parser: bool,
    /// The packet is flagged as the end of the stream.
    pub end_of_stream: bool,
}

/// What to do with the decoder when the parser announces a sequence.
#[derive(Clone, Copy, Debug, PartialEq, Eq, Structural)]
pub struct SequenceAction {
    /// The decoder in use was made for another size and goes.
    pub destroy_decoder: bool,
    /// A decoder for the announced size is to be made.
    pub create_decoder: bool,
}

/// What the hardware decoder keeps between calls.
pub struct NvdecView {
    pub width: u32,
    pub height: u32,
    pub initialized: bool,
    pub has_decoder: bool,
    pub vps: Option<Seq<u8>>,
    pub sps: Option<Seq<u8>>,
    pub pps: Option<Seq<u8>>,
    pub last_frame: Option<FrameView>,
    pub frame_count: u64,
    pub queue: Seq<FrameView>,
}

impl NvdecView {
    /// The size that a decoder is made for where the stream announces none.
    pub open spec fn default_format(self) -> (u32, u32) {
        (
            if self.width > 0 {
                self.width
            } else {
                640
            },
            if self.height > 0 {
                self.height
            } else {
                480
            },
        )
    }

    /// The state after an access unit went by: the parameter sets are the
    /// last ones seen and one more frame is counted.
    pub open spec fn after_frame(self, units: Seq<Seq<u8>>) -> NvdecView {
        NvdecView {
            vps: latest(self.vps, last_of_type(units, NAL_VPS)),
            sps: latest(self.sps, last_of_type(units, NAL_SPS)),
            pps: latest(self.pps, last_of_type(units, NAL_PPS)),
            frame_count: (self.frame_count + 1) as u64,
            ..self
        }
    }

    /// The plan for an access unit of these units.
    pub open spec fn plan(self, units: Seq<Seq<u8>>) -> FramePlan {
        FramePlan {
            is_keyframe: has_key_unit(units),
            has_parameter_sets: has_parameter_set(units),
            default_format: if has_key_unit(units) && !self.has_decoder && !has_parameter_set(
                units,
            ) && self.frame_count == 0 {
                Some(self.default_format())
            } else {
                None
            },
            feed_parser: self.initialized,
            end_of_stream: self.frame_count == 0,
        }
    }

    /// A decoder made for another size, or none at all, will not do for a
    /// sequence of the given size.
    pub open spec fn needs_new_decoder(self, width: u32, height: u32) -> bool {
        self.width != width || self.height != height || !self.has_decoder
    }

    /// The frame that answers an access unit: the oldest decoded picture
    /// waiting, else the last picture decoded, else dark grey, and nothing
    /// while the size is unknown.
    pub open spec fn answer(self) -> Option<FrameView> {
        if self.initialized && self.queue.len() > 0 {
            Some(self.queue[0])
        } else if self.width > 0 && self.height > 0 {
            match self.last_frame {
                Some(frame) => Some(frame),
                None => Some(grey_frame(self.width, self.height)),
            }
        } else {
            None
        }
    }

    /// Whether answering needs a frame made that memory cannot hold.
    pub open spec fn can_answer(self) -> bool {
        (self.initialized && self.queue.len() > 0) || self.last_frame is Some || self.width == 0
            || self.height == 0 || frame_fits(self.width, self.height)
    }
}

/// The dark grey of a frame that stands for a picture not yet decoded.
pub open spec fn grey() -> Seq<u8> {
    seq![50u8, 50u8, 50u8, 255u8]
}

/// A dark grey frame of the given size.
pub open spec fn grey_frame(width: u32, height: u32) -> FrameView {
    FrameView {
        width,
        height,
        samples: Seq::new((4 * width * height) as nat, |i: int| grey()[i % 4]),
    }
}

/// The bookkeeping of the NVDEC decoder. The program holds the CUDA context,
/// the parser and the decoder next to it and tells it what became of them.
pub struct NvdecDecoder {
    width: u32,
    height: u32,
    initialized: bool,
    has_decoder: bool,
    sps_data: Option<Vec<u8>>,
    pps_data: Option<Vec<u8>>,
    vps_data: Option<Vec<u8>>,
    frame_buffer: Option<RgbaFrame>,
    frame_count: u64,
    decoded_frames: Vec<RgbaFrame>,
}

impl View for NvdecDecoder {
    type V = NvdecView;

    closed spec fn view(&self) -> NvdecView {
        NvdecView {
            width: self.width,
            height: self.height,
            initialized: self.initialized,
            has_decoder: self.has_decoder,
            vps: stored(self.vps_data),
            sps: stored(self.sps_data),
            pps: stored(self.pps_data),
            last_frame: stored_frame(self.frame_buffer),
            frame_count: self.frame_count,
            queue: Seq::new(self.decoded_frames@.len(), |i: int| self.decoded_frames@[i]@),
        }
    }
}

impl NvdecDecoder {
    /// A decoder that has seen nothing: it expects 640 by 480 and holds a
    /// black frame of that size as the last picture.
    pub fn new() -> (decoder: NvdecDecoder)
        ensures
            decoder@.width == 640,
            decoder@.height == 480,
            !decoder@.initialized,
            !decoder@.has_decoder,
            decoder@.vps is None,
            decoder@.sps is None,
            decoder@.pps is None,
            decoder@.frame_count == 0,
            decoder@.queue.len() == 0,
            decoder@.last_frame is Some,
            decoder@.last_frame->0.width == 640,
            decoder@.last_frame->0.height == 480,
            decoder@.last_frame->0.is_solid(seq![0u8, 0u8, 0u8, 0u8]),
    {
        let width: u32 = 640;
        let height: u32 = 480;
        let frame_buffer = Some(RgbaFrame::new(width, height));
        NvdecDecoder {
            width,
            height,
            initialized: false,
            has_decoder: false,
            sps_data: None,
            pps_data: None,
            vps_data: None,
            frame_buffer,
            frame_count: 0,
            decoded_frames: Vec::new(),
        }
    }

    /// Whether the context lock and the parser have been made.
    pub fn is_initialized(&self) -> (b: bool)
        ensures
            b == self@.initialized,
    {
        self.initialized
    }

    /// Records that the context lock and the parser have been made.
    pub fn mark_initialized(&mut self)
        ensures
            final(self)@ == (NvdecView { initialized: true, ..old(self)@ }),
    {
        self.initialized = true;
        proof {
            assert(self@.queue =~= old(self)@.queue);
        }
    }

    /// Width that the decoder works with.
    pub fn width(&self) -> (w: u32)
        ensures
            w == self@.width,
    {
        self.width
    }

    /// Height that the decoder works with.
    pub fn height(&self) -> (h: u32)
        ensures
            h == self@.height,
    {
        self.height
    }

    /// Number of access units taken so far.
    pub fn frame_count(&self) -> (n: u64)
        ensures
            n == self@.frame_count,
    {
        self.frame_count
    }

    /// Reads an access unit before the parser gets it: takes up its
    /// parameter sets, tells whether it is a keyframe, counts it, and says
    /// what is to be done with it.
    pub fn begin_frame(&mut self, data: &[u8]) -> (plan: FramePlan)
        requires
            old(self)@.frame_count < u64::MAX,
        ensures
            final(self)@ == old(self)@.after_frame(located_bytes(data@)),
            plan == old(self)@.plan(located_bytes(data@)),
    {
        let units = locate_nal_units(data);
        let ghost all = located_bytes(data@);
        let ghost before = self@;
        let mut is_keyframe = false;
        let mut has_parameter_sets = false;
        let mut k: usize = 0;
        while k < units.len()
            invariant
                k <= units@.len(),
                units@.len() == all.len(),
                all == located_bytes(data@),
                forall|j: int|
                    0 <= j < units@.len() ==> (#[trigger] units@[j]).pos + units@[j].length
                        <= data@.len(),
                forall|j: int|
                    0 <= j < units@.len() ==> data@.subrange(
                        (#[trigger] units@[j]).pos as int,
                        units@[j].pos + units@[j].length,
                    ) == all[j],
                is_keyframe == has_key_unit(all.take(k as int)),
                has_parameter_sets == has_parameter_set(all.take(k as int)),
                self@ == (NvdecView {
                    vps: latest(before.vps, last_of_type(all.take(k as int), NAL_VPS)),
                    sps: latest(before.sps, last_of_type(all.take(k as int), NAL_SPS)),
                    pps: latest(before.pps, last_of_type(all.take(k as int), NAL_PPS)),
                    ..before
                }),
            decreases units@.len() - k,
        {
            let nal = units[k];
            let ghost prefix = all.take(k as int);
            let ghost next = all.take(k as int + 1);
            proof {
                assert(next.drop_last() == prefix);
                assert(next.last() == all[k as int]);
                assert forall|j: int| 0 <= j < prefix.len() implies prefix[j] == next[j] by {}
                if has_key_unit(prefix) {
                    let w = choose|w: int|
                        0 <= w < prefix.len() && (#[trigger] prefix[w]).len() > 0 && (
                        is_parameter_set_type(nal_unit_type(prefix[w])) || is_idr_type(
                            nal_unit_type(prefix[w]),
                        ));
                    assert(next[w] == prefix[w]);
                    assert(has_key_unit(next));
                }
                if has_parameter_set(prefix) {
                    let w = choose|w: int|
                        0 <= w < prefix.len() && (#[trigger] prefix[w]).len() > 0
                            && is_parameter_set_type(nal_unit_type(prefix[w]));
                    assert(next[w] == prefix[w]);
                    assert(has_parameter_set(next));
                }
                if has_key_unit(next) && !has_key_unit(prefix) {
                    let w = choose|w: int|
                        0 <= w < next.len() && (#[trigger] next[w]).len() > 0 && (
                        is_parameter_set_type(nal_unit_type(next[w])) || is_idr_type(
                            nal_unit_type(next[w]),
                        ));
                    if w < k {
                        assert(prefix[w] == next[w]);
                    }
                    assert(w == k);
                }
                if has_parameter_set(next) && !has_parameter_set(prefix) {
                    let w = choose|w: int|
                        0 <= w < next.len() && (#[trigger] next[w]).len() > 0
                            && is_parameter_set_type(nal_unit_type(next[w]));
                    if w < k {
                        assert(prefix[w] == next[w]);
                    }
                    assert(w == k);
                }
            }
            if nal.pos < data.len() && nal.length > 0 {
                let bytes = slice_subrange(data, nal.pos, nal.pos + nal.length);
                assert(bytes@ == all[k as int]);
                let nal_type = unit_type(bytes);
                if nal_type == NAL_VPS {
                    self.vps_data = Some(slice_to_vec(bytes));
                    is_keyframe = true;
                    has_parameter_sets = true;
                } else if nal_type == NAL_SPS {
                    self.sps_data = Some(slice_to_vec(bytes));
                    is_keyframe = true;
                    has_parameter_sets = true;
                } else if nal_type == NAL_PPS {
                    self.pps_data = Some(slice_to_vec(bytes));
                    is_keyframe = true;
                    has_parameter_sets = true;
                } else if nal_type == 19 || nal_type == 20 || nal_type == 21 {
                    is_keyframe = true;
                }
                proof {
                    assert(next[k as int] == all[k as int]);
                    assert(self@.queue =~= before.queue);
                }
            } else {
                proof {
                    assert(all[k as int].len() == 0);
                }
            }
            k = k + 1;
        }
        proof {
            assert(all.take(k as int) == all);
        }
        let default_format = if is_keyframe && !self.has_decoder && !has_parameter_sets
            && self.frame_count == 0 {
            Some(
                (
                    if self.width > 0 {
                        self.width
                    } else {
                        640
                    },
                    if self.height > 0 {
                        self.height
                    } else {
                        480
                    },
                ),
            )
        } else {
            None
        };
        let first = self.frame_count == 0;
        self.frame_count = self.frame_count + 1;
        proof {
            assert(self@.queue =~= before.queue);
        }
        FramePlan {
            is_keyframe,
            has_parameter_sets,
            default_format,
            feed_parser: self.initialized,
            end_of_stream: first,
        }
    }

    /// Takes the size of a sequence that the parser announces, and says
    /// whether the decoder in use goes and whether a new one is to be made.
    /// A decoder that goes is forgotten here.
    pub fn on_video_sequence(&mut self, coded_width: u32, coded_height: u32) -> (action:
        SequenceAction)
        ensures
            final(self)@ == (NvdecView {
                width: coded_width,
                height: coded_height,
                has_decoder: old(self)@.has_decoder && !old(self)@.needs_new_decoder(
                    coded_width,
                    coded_height,
                ),
                ..old(self)@
            }),
            action.destroy_decoder == (old(self)@.has_decoder && old(self)@.needs_new_decoder(
                coded_width,
                coded_height,
            )),
            action.create_decoder == old(self)@.needs_new_decoder(coded_width, coded_height),
    {
        let dimensions_changed = self.width != coded_width || self.height != coded_height;
        if dimensions_changed {
            self.width = coded_width;
            self.height = coded_height;
        }
        let need_new_decoder = dimensions_changed || !self.has_decoder;
        let destroy_decoder = need_new_decoder && self.has_decoder;
        if destroy_decoder {
            self.has_decoder = false;
        }
        proof {
            assert(self@.queue =~= old(self)@.queue);
        }
        SequenceAction { destroy_decoder, create_decoder: !self.has_decoder }
    }

    /// Records that a decoder has been made for the present size.
    pub fn decoder_created(&mut self)
        ensures
            final(self)@ == (NvdecView { has_decoder: true, ..old(self)@ }),
    {
        self.has_decoder = true;
        proof {
            assert(self@.queue =~= old(self)@.queue);
        }
    }

    /// Whether a picture of the present size can be taken from NV12 data of
    /// `len` bytes with rows `pitch` bytes apart.
    pub fn can_store(&self, len: usize, pitch: usize) -> (ok: bool)
        ensures
            ok == (nv12_readable(
                len as int,
                pitch as int,
                self@.width as int,
                self@.height as int,
            ) && frame_fits(self@.width, self@.height)),
    {
        let w = self.width as u128;
        let h = self.height as u128;
        let p = pitch as u128;
        assert(2 * h * p + w + 1 <= 0x2_0000_0000_0000_0001_0000_0000u128) by (nonlinear_arith)
            requires
                h <= 0xFFFF_FFFF,
                p <= 0xFFFF_FFFF_FFFF_FFFF,
                w <= 0xFFFF_FFFF,
        ;
        assert(0 <= h * p) by (nonlinear_arith)
            requires
                0 <= h,
                0 <= p,
        ;
        assert(4 * w * h <= 0x4_0000_0000_0000_0000u128) by (nonlinear_arith)
            requires
                h <= 0xFFFF_FFFF,
                w <= 0xFFFF_FFFF,
        ;
        assert(0 <= 4 * w * h) by (nonlinear_arith)
            requires
                0 <= h,
                0 <= w,
        ;
        let max = usize::MAX as u128;
        if 2 * h * p + w + 1 > max || 4 * w > max || 4 * w * h > max {
            return false;
        }
        if w > 0 && h > 0 {
            assert(0 <= (h - 1) * p <= 2 * h * p) by (nonlinear_arith)
                requires
                    1 <= h,
                    0 <= p,
            ;
            (h - 1) * p + w <= len as u128
        } else {
            true
        }
    }

    /// Takes a decoded picture in NV12 form: converts it to a frame of the
    /// present size, keeps it as the last picture, and queues it.
    pub fn store_picture(&mut self, nv12: &[u8], pitch: usize)
        requires
            nv12_readable(
                nv12@.len() as int,
                pitch as int,
                old(self)@.width as int,
                old(self)@.height as int,
            ),
            frame_fits(old(self)@.width, old(self)@.height),
        ensures
            final(self)@.queue.len() == old(self)@.queue.len() + 1,
            final(self)@ == (NvdecView {
                last_frame: Some(final(self)@.queue.last()),
                queue: old(self)@.queue.push(final(self)@.queue.last()),
                ..old(self)@
            }),
            ({
                let frame = final(self)@.queue.last();
                &&& frame.wf()
                &&& frame.width == old(self)@.width
                &&& frame.height == old(self)@.height
                &&& forall|x: int, y: int|
                    frame.contains(x, y) ==> #[trigger] frame.pixel(x, y) == nv12_pixel(
                        nv12@,
                        pitch as int,
                        frame.height as int,
                        x,
                        y,
                    )
            }),
    {
        let mut frame = RgbaFrame::new(self.width, self.height);
        nv12_to_rgba(nv12, pitch, &mut frame);
        self.frame_buffer = Some(frame.duplicate());
        self.decoded_frames.push(frame);
        proof {
            assert(self@.queue =~= old(self)@.queue.push(self@.queue.last()));
        }
    }

    /// Whether `finish_frame` can answer without a frame too large for
    /// memory.
    pub fn can_answer(&self) -> (ok: bool)
        ensures
            ok == self@.can_answer(),
    {
        if (self.initialized && self.decoded_frames.len() > 0) || self.frame_buffer.is_some()
            || self.width == 0 || self.height == 0 {
            return true;
        }
        let w = self.width as u128;
        let h = self.height as u128;
        assert(0 <= 4 * w * h <= 0x4_0000_0000_0000_0000u128) by (nonlinear_arith)
            requires
                0 <= h <= 0xFFFF_FFFF,
                0 <= w <= 0xFFFF_FFFF,
        ;
        4 * w <= usize::MAX as u128 && 4 * w * h <= usize::MAX as u128
    }

    /// The frame that answers the access unit just parsed: the oldest
    /// decoded picture waiting, which leaves the queue; else, where the size
    /// is known, the last picture decoded, or dark grey where there is none.
    pub fn finish_frame(&mut self) -> (frame: Option<RgbaFrame>)
        requires
            old(self)@.can_answer(),
        ensures
            stored_frame(frame) == old(self)@.answer(),
            final(self)@ == (NvdecView {
                queue: if old(self)@.initialized && old(self)@.queue.len() > 0 {
                    old(self)@.queue.drop_first()
                } else {
                    old(self)@.queue
                },
                ..old(self)@
            }),
    {
        if self.initialized && self.decoded_frames.len() > 0 {
            let frame = self.decoded_frames.remove(0);
            proof {
                assert(self@.queue =~= old(self)@.queue.drop_first());
            }
            return Some(frame);
        }
        proof {
            assert(self@.queue =~= old(self)@.queue);
        }
        if self.width > 0 && self.height > 0 {
            if let Some(last) = &self.frame_buffer {
                return Some(last.duplicate());
            }
            let frame = RgbaFrame::filled(self.width, self.height, [50, 50, 50, 255]);
            proof {
                assert(frame@.samples =~= grey_frame(self.width, self.height).samples);
            }
            return Some(frame);
        }
        None
    }
}

} // verus!
