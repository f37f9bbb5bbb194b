//! Bookkeeping of the x265 encoder: where the planes of the input picture
//! lie, which frames are forced to be keyframes, and how what the encoder
//! library puts out becomes an encoded frame.

use crate::bytes::append;
use crate::bytes::repeated;
use crate::encoded::EncodedFrame;
use crate::encoded::Timestamp;
use crate::error::X265Error;
use crate::frame::RgbaFrame;
use crate::i420::chroma_fits;
use crate::i420::is_picture_of;
use crate::i420::rgba_to_i420_buffer;
use vstd::prelude::*;
use vstd::string::StringExecFns;

verus! {

/// The bytes of `nals`, one after the other.
pub open spec fn concat_nals(nals: Seq<Vec<u8>>) -> Seq<u8>
    decreases nals.len(),
{
    if nals.len() == 0 {
        Seq::empty()
    } else {
        concat_nals(nals.drop_last()) + nals.last()@
    }
}

/// Appends the bytes of each of `nals` to `data`.
pub fn append_nals(data: &mut Vec<u8>, nals: &Vec<Vec<u8>>)
    ensures
        final(data)@ == old(data)@ + concat_nals(nals@),
{
    let mut i: usize = 0;
    while i < nals.len()
        invariant
            i <= nals@.len(),
            data@ == old(data)@ + concat_nals(nals@.take(i as int)),
        decreases nals@.len() - i,
    {
        append(data, nals[i].as_slice());
        proof {
            assert(nals@.take(i as int + 1).drop_last() == nals@.take(i as int));
            assert(data@ =~= old(data)@ + concat_nals(nals@.take(i as int + 1)));
        }
        i = i + 1;
    }
    proof {
        assert(nals@.take(i as int) == nals@);
    }
}

/// How the input picture of a frame is set up: where its three planes begin
/// in the I420 buffer, how far apart their rows lie, its presentation time
/// in frames, and whether it is forced to be a keyframe.
#[derive(Clone, Copy, Debug, PartialEq, Eq)]
pub struct PictureSetup {
    pub plane_offsets: [usize; 3],
    pub strides: [u32; 3],
    pub pts: u64,
    pub force_keyframe: bool,
}

/// What the encoder is set up with and how far it has come.
pub struct EncoderView {
    pub width: u32,
    pub height: u32,
    pub fps: u32,
    pub keyframe_interval: u64,
    pub frame_count: u64,
    pub last_keyframe_count: u64,
    pub headers: Seq<u8>,
    pub yuv: Seq<u8>,
}

impl EncoderView {
    /// The plane offsets of a picture fit the 32 bits they are computed in.
    pub open spec fn planes_fit(self) -> bool {
        self.width * self.height * 3 <= u32::MAX
    }

    /// Whether the frame about to be encoded is a keyframe: the first of
    /// every `keyframe_interval` frames, counted from 0.
    pub open spec fn keyframe_due(self) -> bool {
        self.frame_count % self.keyframe_interval == 0
    }

    /// What the encoder puts out for a frame: the parameter sets before the
    /// first frame, then the NAL units that the library returned.
    pub open spec fn frame_data(self, nals: Seq<Vec<u8>>) -> Seq<u8> {
        if self.frame_count == 0 {
            self.headers + concat_nals(nals)
        } else {
            concat_nals(nals)
        }
    }

    /// The encoder after one more frame.
    pub open spec fn advanced(self, keyframe: bool) -> EncoderView {
        EncoderView {
            frame_count: (self.frame_count + 1) as u64,
            last_keyframe_count: if keyframe {
                self.frame_count
            } else {
                self.last_keyframe_count
            },
            ..self
        }
    }
}

/// The x265 encoder's bookkeeping. The program holds the handles of the
/// encoder library next to it and passes on what the library returns.
pub struct X265Encoder {
    width: u32,
    height: u32,
    frame_count: u64,
    fps: u32,
    last_keyframe_count: u64,
    keyframe_interval: u64,
    yuv_buffer: Vec<u8>,
    headers: Vec<u8>,
}

impl View for X265Encoder {
    type V = EncoderView;

    closed spec fn view(&self) -> EncoderView {
        EncoderView {
            width: self.width,
            height: self.height,
            fps: self.fps,
            keyframe_interval: self.keyframe_interval,
            frame_count: self.frame_count,
            last_keyframe_count: self.last_keyframe_count,
            headers: self.headers@,
            yuv: self.yuv_buffer@,
        }
    }
}

impl X265Encoder {
    /// An encoder for frames of the given size that has encoded nothing.
    /// `header_nals` are the parameter sets that the library wrote when it
    /// was opened; they are kept only where `headers_size` is positive.
    pub fn new(
        width: u32,
        height: u32,
        fps: u32,
        keyframe_interval: u32,
        headers_size: i32,
        header_nals: &Vec<Vec<u8>>,
    ) -> (encoder: X265Encoder)
        requires
            width * height * 3 <= u32::MAX,
        ensures
            encoder@ == (EncoderView {
                width,
                height,
                fps,
                keyframe_interval: keyframe_interval as u64,
                frame_count: 0,
                last_keyframe_count: 0,
                headers: if headers_size > 0 {
                    concat_nals(header_nals@)
                } else {
                    Seq::empty()
                },
                yuv: repeated(0, (width * height * 3 / 2) as nat),
            }),
    {
        assert(width * height <= width * height * 3) by (nonlinear_arith)
            requires
                0 <= width * height,
        ;
        let yuv_size: usize = (width * height * 3 / 2) as usize;
        let yuv_buffer: Vec<u8> = vec![0u8; yuv_size];
        assert(yuv_buffer@ =~= repeated(0, (width * height * 3 / 2) as nat));
        let mut headers: Vec<u8> = Vec::new();
        if headers_size > 0 && header_nals.len() > 0 {
            append_nals(&mut headers, header_nals);
        }
        proof {
            if header_nals@.len() == 0 {
                assert(concat_nals(header_nals@) =~= Seq::<u8>::empty());
            }
            assert(headers@ =~= if headers_size > 0 {
                concat_nals(header_nals@)
            } else {
                Seq::empty()
            });
        }
        X265Encoder {
            width,
            height,
            frame_count: 0,
            fps,
            last_keyframe_count: 0,
            keyframe_interval: keyframe_interval as u64,
            yuv_buffer,
            headers,
        }
    }

    /// Number of frames encoded so far.
    pub fn frame_count(&self) -> (n: u64)
        ensures
            n == self@.frame_count,
    {
        self.frame_count
    }

    /// Frames per second.
    pub fn fps(&self) -> (fps: u32)
        ensures
            fps == self@.fps,
    {
        self.fps
    }

    /// Number of the last keyframe, counted from 0.
    pub fn last_keyframe_count(&self) -> (n: u64)
        ensures
            n == self@.last_keyframe_count,
    {
        self.last_keyframe_count
    }

    /// The parameter sets that open the stream.
    pub fn headers(&self) -> (h: &Vec<u8>)
        ensures
            h@ == self@.headers,
    {
        &self.headers
    }

    /// The buffer that holds the I420 picture handed to the library.
    pub fn yuv_buffer(&self) -> (buffer: &Vec<u8>)
        ensures
            buffer@ == self@.yuv,
    {
        &self.yuv_buffer
    }

    /// Converts `frame` into the encoder's I420 buffer, by the arithmetic
    /// that `convert` holds.
    pub fn convert_frame<F: Fn(u8, u8, u8) -> (u8, u8, u8)>(&mut self, frame: &RgbaFrame, convert: F)
        requires
            old(self)@.planes_fit(),
            old(self)@.width <= frame@.width,
            old(self)@.height <= frame@.height,
            chroma_fits(old(self)@.width, old(self)@.height),
            forall|r: u8, g: u8, b: u8| call_requires(convert, (r, g, b)),
        ensures
            final(self)@ == (EncoderView { yuv: final(self)@.yuv, ..old(self)@ }),
            is_picture_of(
                convert,
                frame@,
                old(self)@.width,
                old(self)@.height,
                old(self)@.yuv,
                final(self)@.yuv,
            ),
    {
        rgba_to_i420_buffer(frame, self.width, self.height, &mut self.yuv_buffer, convert);
    }

    /// Sets up the input picture of the frame about to be encoded: the luma
    /// plane at the start of the buffer with rows as wide as the frame, the
    /// two chroma planes behind it with rows half as wide, the frame number
    /// as presentation time, and a keyframe forced on every
    /// `keyframe_interval`-th frame.
    pub fn picture_setup(&self) -> (setup: PictureSetup)
        requires
            self@.keyframe_interval > 0,
            self@.planes_fit(),
        ensures
            setup.plane_offsets@ == seq![
                0usize,
                (self@.width * self@.height) as usize,
                (self@.width * self@.height + self@.width * self@.height / 4) as usize,
            ],
            setup.strides@ == seq![self@.width, (self@.width / 2) as u32, (self@.width / 2) as u32],
            setup.pts == self@.frame_count,
            setup.force_keyframe == self@.keyframe_due(),
    {
        proof {
            assert(0 <= self.width * self.height <= self.width * self.height * 3)
                by (nonlinear_arith)
                requires
                    0 <= self.width,
                    0 <= self.height,
            ;
        }
        let luma: u32 = self.width * self.height;
        let plane_offsets: [usize; 3] = [0, luma as usize, (luma + luma / 4) as usize];
        let strides: [u32; 3] = [self.width, self.width / 2, self.width / 2];
        assert(plane_offsets@ =~= seq![
            0usize,
            (self@.width * self@.height) as usize,
            (self@.width * self@.height + self@.width * self@.height / 4) as usize,
        ]);
        assert(strides@ =~= seq![
            self@.width,
            (self@.width / 2) as u32,
            (self@.width / 2) as u32,
        ]);
        PictureSetup {
            plane_offsets,
            strides,
            pts: self.frame_count,
            force_keyframe: self.frame_count % self.keyframe_interval == 0,
        }
    }

    /// Makes the encoded frame out of what the library returned for a
    /// picture: `frame_size` as it reported it and the NAL units it wrote.
    ///
    /// A negative `frame_size` is a failure and leaves the encoder as it
    /// was. Otherwise the frame holds the parameter sets, if it is the
    /// first, and the NAL units; it is a keyframe if one was due; and the
    /// encoder counts one frame more. `timestamp` is passed through.
    pub fn encode_frame(&mut self, frame_size: i32, nals: &Vec<Vec<u8>>, timestamp: Timestamp) -> (res:
        Result<EncodedFrame, X265Error>)
        requires
            old(self)@.keyframe_interval > 0,
            old(self)@.frame_count < u64::MAX,
        ensures
            res is Ok <==> frame_size >= 0,
            res is Err ==> final(self)@ == old(self)@ && res->Err_0 is EncodeFailed
                && res->Err_0.detail() == "Failed to encode frame"@,
            res is Ok ==> {
                let frame = res->Ok_0;
                &&& frame.data@ == old(self)@.frame_data(nals@)
                &&& frame.is_keyframe == old(self)@.keyframe_due()
                &&& frame.timestamp == timestamp
                &&& final(self)@ == old(self)@.advanced(frame.is_keyframe)
            },
    {
        if frame_size < 0 {
            return Err(X265Error::EncodeFailed(String::from_str("Failed to encode frame")));
        }
        let mut data: Vec<u8> = Vec::new();
        if self.frame_count == 0 {
            append(&mut data, self.headers.as_slice());
        }
        append_nals(&mut data, nals);
        let is_keyframe = self.frame_count % self.keyframe_interval == 0;
        if is_keyframe {
            self.last_keyframe_count = self.frame_count;
        }
        self.frame_count = self.frame_count + 1;
        proof {
            assert(data@ =~= old(self)@.frame_data(nals@));
        }
        Ok(EncodedFrame { data, timestamp, is_keyframe })
    }

    /// Makes the encoded frame out of what the library returned when asked
    /// for a picture it still held.
    ///
    /// A negative `frame_size` is a failure. Nothing written, or a size of
    /// zero, means that the library holds no more. Otherwise the NAL units
    /// make a frame that is no keyframe, and the encoder counts it.
    pub fn flush(&mut self, frame_size: i32, nals: &Vec<Vec<u8>>, timestamp: Timestamp) -> (res:
        Result<Option<EncodedFrame>, X265Error>)
        requires
            old(self)@.frame_count < u64::MAX,
        ensures
            res is Ok <==> frame_size >= 0,
            res is Err ==> final(self)@ == old(self)@ && res->Err_0 is EncodeFailed
                && res->Err_0.detail() == "Failed to flush encoder"@,
            res is Ok ==> (res->Ok_0 is Some <==> frame_size > 0 && nals@.len() > 0),
            res is Ok && res->Ok_0 is None ==> final(self)@ == old(self)@,
            res is Ok && res->Ok_0 is Some ==> {
                let frame = res->Ok_0->0;
                &&& frame.data@ == concat_nals(nals@)
                &&& !frame.is_keyframe
                &&& frame.timestamp == timestamp
                &&& final(self)@ == old(self)@.advanced(false)
            },
    {
        if frame_size < 0 {
            return Err(X265Error::EncodeFailed(String::from_str("Failed to flush encoder")));
        }
        if frame_size == 0 || nals.len() == 0 {
            return Ok(None);
        }
        let mut data: Vec<u8> = Vec::new();
        append_nals(&mut data, nals);
        self.frame_count = self.frame_count + 1;
        proof {
            assert(data@ =~= concat_nals(nals@));
        }
        Ok(Some(EncodedFrame { data, timestamp, is_keyframe: false }))
    }
}

} // verus!
