//! The NVENC encoder as it stands: it keeps the cadence of keyframes and the
//! clock of the stream, and puts out synthetic NAL units of a lifelike size
//! in place of encoded pictures.

use crate::bytes::append;
use crate::bytes::append_repeated;
use crate::bytes::repeated;
use crate::codec::Encoder;
use crate::encoded::EncodedFrame;
use crate::encoded::Timestamp;
use crate::error::X265Error;
use crate::frame::RgbaFrame;
use vstd::bytes::spec_u32_to_le_bytes;
use vstd::bytes::spec_u64_to_le_bytes;
use vstd::bytes::u32_to_le_bytes;
use vstd::bytes::u64_to_le_bytes;
use vstd::bytes::lemma_auto_spec_u32_to_from_le_bytes;
use vstd::bytes::lemma_auto_spec_u64_to_from_le_bytes;
use vstd::prelude::*;
use vstd::string::StringExecFns;

verus! {

/// Size in bytes of a synthetic keyframe.
pub const KEYFRAME_SIZE: usize = 8000;

/// Size in bytes of a synthetic frame that is no keyframe.
pub const DELTA_FRAME_SIZE: usize = 4000;

/// NAL header byte of a synthetic keyframe.
pub const IDR_HEADER: u8 = 0x26;

/// NAL header byte of a synthetic frame that is no keyframe.
pub const TRAIL_HEADER: u8 = 0x22;

/// The video parameter set that the encoder announces.
pub open spec fn synthetic_vps() -> Seq<u8> {
    seq![
        0x00u8, 0x00u8, 0x00u8, 0x01u8, 0x40u8, 0x01u8, 0x0cu8, 0x01u8, 0xffu8, 0xffu8, 0x01u8,
        0x60u8, 0x00u8, 0x00u8, 0x03u8, 0x00u8, 0xb0u8, 0x00u8, 0x00u8, 0x03u8, 0x00u8, 0x00u8,
    ]
}

/// The sequence parameter set that the encoder announces.
pub open spec fn synthetic_sps() -> Seq<u8> {
    seq![
        0x00u8, 0x00u8, 0x00u8, 0x01u8, 0x42u8, 0x01u8, 0x01u8, 0x01u8, 0x60u8, 0x00u8, 0x00u8,
        0x03u8, 0x00u8, 0x00u8, 0x03u8, 0x00u8, 0x00u8, 0x03u8, 0x00u8, 0x00u8, 0x03u8, 0x00u8,
        0x99u8, 0xa0u8, 0x01u8, 0xe0u8, 0x20u8, 0x02u8, 0x1cu8, 0x59u8, 0x4bu8, 0x93u8, 0x25u8,
        0x00u8, 0x01u8, 0x40u8,
    ]
}

/// The picture parameter set that the encoder announces.
pub open spec fn synthetic_pps() -> Seq<u8> {
    seq![0x00u8, 0x00u8, 0x00u8, 0x01u8, 0x44u8, 0x01u8, 0xc1u8, 0x73u8, 0xd1u8, 0x89u8]
}

/// The three parameter sets in stream order.
pub open spec fn synthetic_headers() -> Seq<u8> {
    synthetic_vps() + synthetic_sps() + synthetic_pps()
}

/// Whether the frame with this number, counted from 1, is a keyframe: the
/// first of every `keyframe_interval` frames.
pub open spec fn is_keyframe_number(frame_number: u64, keyframe_interval: u32) -> bool {
    frame_number % (keyframe_interval as u64) == 1
}

/// Milliseconds from the start of the stream to the frame with this number.
pub open spec fn frame_millis(frame_number: u64, fps: u32) -> int {
    frame_number * 1000 / (fps as int)
}

/// The 200 bytes that stand for the picture: a ramp that begins at the low
/// byte of the frame number and wraps at 256.
pub open spec fn picture_ramp(frame_number: u64) -> Seq<u8> {
    Seq::new(200, |i: int| ((i + frame_number % 256) % 256) as u8)
}

/// What comes before the padding of a synthetic NAL unit: a start code, the
/// NAL header, five fixed bytes, the seconds of the timestamp, width and
/// height, all little-endian, and the ramp.
pub open spec fn synthetic_body(
    frame_number: u64,
    width: u32,
    height: u32,
    fps: u32,
    keyframe: bool,
) -> Seq<u8> {
    seq![0x00u8, 0x00u8, 0x00u8, 0x01u8] + seq![
        if keyframe {
            IDR_HEADER
        } else {
            TRAIL_HEADER
        },
    ] + seq![0x01u8, 0x02u8, 0x03u8, 0x04u8, 0x05u8] + spec_u64_to_le_bytes(
        (frame_millis(frame_number, fps) / 1000) as u64,
    ) + spec_u32_to_le_bytes(width) + spec_u32_to_le_bytes(height) + picture_ramp(frame_number)
}

/// The synthetic NAL unit of a frame: its body, padded with zeros to the
/// size of its kind.
pub open spec fn synthetic_nal(
    frame_number: u64,
    width: u32,
    height: u32,
    fps: u32,
    keyframe: bool,
) -> Seq<u8> {
    let body = synthetic_body(frame_number, width, height, fps, keyframe);
    let size: int = if keyframe {
        KEYFRAME_SIZE as int
    } else {
        DELTA_FRAME_SIZE as int
    };
    body + repeated(0, (size - body.len()) as nat)
}

/// What the encoder is set up with and how far it has come.
pub struct NvencView {
    pub width: u32,
    pub height: u32,
    pub bitrate: u32,
    pub fps: u32,
    pub keyframe_interval: u32,
    pub frame_count: u64,
    pub headers: Seq<u8>,
}

impl NvencView {
    /// What encoding one frame comes to: the encoder counts it; it is a
    /// keyframe if its number says so; it is timed at its number over the
    /// frame rate; and its data is the synthetic NAL unit of its number and
    /// kind, of the size of its kind.
    pub open spec fn encodes(self, after: NvencView, frame: EncodedFrame) -> bool {
        &&& after == (NvencView { frame_count: (self.frame_count + 1) as u64, ..self })
        &&& frame.is_keyframe == is_keyframe_number(after.frame_count, self.keyframe_interval)
        &&& frame.timestamp.wf()
        &&& frame.timestamp.as_nanos() == frame_millis(after.frame_count, self.fps) * 1_000_000
        &&& frame.data@ == synthetic_nal(
            after.frame_count,
            self.width,
            self.height,
            self.fps,
            frame.is_keyframe,
        )
        &&& frame.data@.len() == if frame.is_keyframe {
            KEYFRAME_SIZE
        } else {
            DELTA_FRAME_SIZE
        }
    }

    /// The next frame can be numbered and timed: frame rate and keyframe
    /// interval are not zero and the clock does not overflow.
    pub open spec fn can_encode(self) -> bool {
        &&& self.fps > 0
        &&& self.keyframe_interval > 0
        &&& (self.frame_count + 1) * 1000 <= u64::MAX
    }
}

/// The NVENC encoder.
pub struct NvencEncoder {
    width: u32,
    height: u32,
    bitrate: u32,
    fps: u32,
    keyframe_interval: u32,
    frame_count: u64,
    headers: Vec<u8>,
}

impl View for NvencEncoder {
    type V = NvencView;

    closed spec fn view(&self) -> NvencView {
        NvencView {
            width: self.width,
            height: self.height,
            bitrate: self.bitrate,
            fps: self.fps,
            keyframe_interval: self.keyframe_interval,
            frame_count: self.frame_count,
            headers: self.headers@,
        }
    }
}

impl NvencEncoder {
    /// What a new encoder is: set up as asked, its parameter sets made and
    /// no frame encoded yet.
    pub open spec fn new_view(
        width: u32,
        height: u32,
        bitrate: u32,
        fps: u32,
        keyframe_interval: u32,
    ) -> NvencView {
        NvencView {
            width,
            height,
            bitrate,
            fps,
            keyframe_interval,
            frame_count: 0,
            headers: synthetic_headers(),
        }
    }

    /// An encoder for frames of the given size.
    pub fn new(width: u32, height: u32, bitrate: u32, fps: u32, keyframe_interval: u32) -> (encoder:
        NvencEncoder)
        ensures
            encoder@ == Self::new_view(width, height, bitrate, fps, keyframe_interval),
    {
        let mut encoder = NvencEncoder {
            width,
            height,
            bitrate,
            fps,
            keyframe_interval,
            frame_count: 0,
            headers: Vec::new(),
        };
        encoder.initialize_encoder();
        encoder
    }

    /// Makes the parameter sets that open the stream.
    fn initialize_encoder(&mut self)
        requires
            old(self).headers@.len() == 0,
        ensures
            final(self)@ == (NvencView { headers: synthetic_headers(), ..old(self)@ }),
    {
        let vps: [u8; 22] = [
            0x00, 0x00, 0x00, 0x01, 0x40, 0x01, 0x0c, 0x01, 0xff, 0xff, 0x01, 0x60, 0x00, 0x00,
            0x03, 0x00, 0xb0, 0x00, 0x00, 0x03, 0x00, 0x00,
        ];
        let sps: [u8; 36] = [
            0x00, 0x00, 0x00, 0x01, 0x42, 0x01, 0x01, 0x01, 0x60, 0x00, 0x00, 0x03, 0x00, 0x00,
            0x03, 0x00, 0x00, 0x03, 0x00, 0x00, 0x03, 0x00, 0x99, 0xa0, 0x01, 0xe0, 0x20, 0x02,
            0x1c, 0x59, 0x4b, 0x93, 0x25, 0x00, 0x01, 0x40,
        ];
        let pps: [u8; 10] = [0x00, 0x00, 0x00, 0x01, 0x44, 0x01, 0xc1, 0x73, 0xd1, 0x89];
        assert(vps@ =~= synthetic_vps());
        assert(sps@ =~= synthetic_sps());
        assert(pps@ =~= synthetic_pps());
        append(&mut self.headers, vps.as_slice());
        append(&mut self.headers, sps.as_slice());
        append(&mut self.headers, pps.as_slice());
        assert(self.headers@ =~= synthetic_headers());
    }

    /// The parameter sets that open the stream.
    pub fn headers(&self) -> (h: &Vec<u8>)
        ensures
            h@ == self@.headers,
    {
        &self.headers
    }

    /// Number of frames encoded so far.
    pub fn frame_count(&self) -> (n: u64)
        ensures
            n == self@.frame_count,
    {
        self.frame_count
    }

    /// Whether the next frame can be encoded.
    pub fn can_encode(&self) -> (ok: bool)
        ensures
            ok == self@.can_encode(),
    {
        self.fps > 0 && self.keyframe_interval > 0 && self.frame_count < u64::MAX / 1000
    }

    /// Encodes the next frame. The picture itself does not enter into the
    /// result: the frame is numbered, timed at its number over the frame
    /// rate, and given the synthetic NAL unit of its number and kind.
    pub fn encode_frame(&mut self, frame: &RgbaFrame) -> (res: Result<EncodedFrame, X265Error>)
        requires
            old(self)@.can_encode(),
        ensures
            res is Ok,
            old(self)@.encodes(final(self)@, res->Ok_0),
    {
        self.frame_count = self.frame_count + 1;
        let is_keyframe = self.frame_count % (self.keyframe_interval as u64) == 1;
        let mut nal_unit: Vec<u8> = Vec::new();
        let start_code: [u8; 4] = [0x00, 0x00, 0x00, 0x01];
        append(&mut nal_unit, start_code.as_slice());
        if is_keyframe {
            nal_unit.push(IDR_HEADER);
        } else {
            nal_unit.push(TRAIL_HEADER);
        }
        let filler: [u8; 5] = [0x01, 0x02, 0x03, 0x04, 0x05];
        append(&mut nal_unit, filler.as_slice());
        let timestamp = Timestamp::from_millis(self.frame_count * 1000 / (self.fps as u64));
        let secs = u64_to_le_bytes(timestamp.as_secs());
        append(&mut nal_unit, secs.as_slice());
        let width = u32_to_le_bytes(self.width);
        append(&mut nal_unit, width.as_slice());
        let height = u32_to_le_bytes(self.height);
        append(&mut nal_unit, height.as_slice());
        let ghost head = nal_unit@;
        let low: u64 = self.frame_count % 256;
        let mut i: u64 = 0;
        while i < 200
            invariant
                i <= 200,
                low == self.frame_count % 256,
                nal_unit@ == head + picture_ramp(self.frame_count).take(i as int),
            decreases 200 - i,
        {
            nal_unit.push(((i + low) % 256) as u8);
            i = i + 1;
            assert(nal_unit@ =~= head + picture_ramp(self.frame_count).take(i as int));
        }
        proof {
            lemma_auto_spec_u64_to_from_le_bytes();
            lemma_auto_spec_u32_to_from_le_bytes();
            assert(picture_ramp(self.frame_count).take(200) =~= picture_ramp(self.frame_count));
            assert(nal_unit@ =~= synthetic_body(
                self.frame_count,
                self.width,
                self.height,
                self.fps,
                is_keyframe,
            ));
            assert(nal_unit@.len() == 226);
        }
        let approx_size: usize = if is_keyframe {
            KEYFRAME_SIZE
        } else {
            DELTA_FRAME_SIZE
        };
        let padding_size: usize = approx_size.saturating_sub(nal_unit.len());
        append_repeated(&mut nal_unit, 0, padding_size);
        Ok(EncodedFrame { data: nal_unit, timestamp, is_keyframe })
    }
}

impl Encoder for NvencEncoder {
    /// Encodes the next frame, or fails where the encoder is set up with a
    /// frame rate or a keyframe interval of zero or its clock has run out.
    fn encode(&mut self, frame: &RgbaFrame) -> (res: Result<EncodedFrame, X265Error>)
        ensures
            res is Ok <==> old(self)@.can_encode(),
            res is Ok ==> old(self)@.encodes(final(self)@, res->Ok_0),
            res is Err ==> final(self)@ == old(self)@ && res->Err_0 is EncodeFailed,
    {
        if self.can_encode() {
            self.encode_frame(frame)
        } else {
            Err(X265Error::EncodeFailed(String::from_str("encoder cannot time the next frame")))
        }
    }
}

} // verus!
