//! Bookkeeping of the H.264 encoder: how it is configured, when a keyframe
//! is forced, and how the NAL units of a picture become an encoded frame.

use crate::bytes::append;
use crate::encoded::EncodedFrame;
use crate::encoded::Timestamp;
use vstd::prelude::*;

verus! {

/// Seconds after which a keyframe is forced.
pub const FORCED_KEYFRAME_SECS: u64 = 2;

/// What the encoder library is configured with, besides the `superfast`
/// preset, the `zerolatency` tuning and the `baseline` profile.
#[derive(Clone, Copy, Debug, PartialEq, Eq, Structural)]
pub struct EncoderSettings {
    pub width: i32,
    pub height: i32,
    /// Bitrate in kilobits per second.
    pub bitrate: i32,
    pub fps: i32,
    /// Most frames between two keyframes: two seconds' worth.
    pub keyint: i32,
    /// Fewest frames between two keyframes: one second's worth.
    pub min_keyint: i32,
    /// Parameter sets are repeated before every keyframe.
    pub repeat_headers: bool,
}

/// The settings for a stream of the given size, bitrate in bits per second
/// and frame rate.
pub fn encoder_settings(width: u32, height: u32, bitrate: u32, fps: u32) -> (settings:
    EncoderSettings)
    requires
        width <= i32::MAX,
        height <= i32::MAX,
        fps * 2 <= i32::MAX,
    ensures
        settings == (EncoderSettings {
            width: width as i32,
            height: height as i32,
            bitrate: (bitrate / 1000) as i32,
            fps: fps as i32,
            keyint: (fps * 2) as i32,
            min_keyint: fps as i32,
            repeat_headers: true,
        }),
{
    EncoderSettings {
        width: width as i32,
        height: height as i32,
        bitrate: (bitrate / 1000) as i32,
        fps: fps as i32,
        keyint: fps as i32 * 2,
        min_keyint: fps as i32,
        repeat_headers: true,
    }
}

/// One NAL unit as the encoder library returns it.
#[derive(Debug)]
pub struct NalPacket {
    /// The unit is a slice of an IDR picture.
    pub is_idr: bool,
    pub payload: Vec<u8>,
}

/// The payloads of `packets`, one after the other.
pub open spec fn concat_payloads(packets: Seq<NalPacket>) -> Seq<u8>
    decreases packets.len(),
{
    if packets.len() == 0 {
        Seq::empty()
    } else {
        concat_payloads(packets.drop_last()) + packets.last().payload@
    }
}

/// Some packet among `packets` is a slice of an IDR picture.
pub open spec fn any_idr(packets: Seq<NalPacket>) -> bool {
    exists|k: int| 0 <= k < packets.len() && (#[trigger] packets[k]).is_idr
}

/// The H.264 encoder's bookkeeping. The program holds the encoder library
/// and the clock next to it.
pub struct VideoEncoder {
    frame_count: u64,
}

impl View for VideoEncoder {
    type V = u64;

    closed spec fn view(&self) -> u64 {
        self.frame_count
    }
}

impl VideoEncoder {
    /// An encoder that has encoded nothing.
    pub fn new() -> (encoder: VideoEncoder)
        ensures
            encoder@ == 0,
    {
        VideoEncoder { frame_count: 0 }
    }

    /// Number of frames encoded so far.
    pub fn frame_count(&self) -> (n: u64)
        ensures
            n == self@,
    {
        self.frame_count
    }

    /// Presentation time of the frame about to be encoded, in microseconds:
    /// its number in millionths over the given denominator.
    pub fn timestamp_micros(&self, denominator: u32) -> (micros: u64)
        requires
            denominator > 0,
            self@ * 1_000_000 <= u64::MAX,
        ensures
            micros == self@ * 1_000_000 / (denominator as int),
    {
        self.frame_count * 1_000_000 / (denominator as u64)
    }

    /// Whether the frame about to be encoded is forced to be a keyframe:
    /// the last forced one is two seconds old or older.
    pub fn force_keyframe(&self, since_keyframe: Timestamp) -> (force: bool)
        ensures
            force == (since_keyframe.secs >= FORCED_KEYFRAME_SECS),
    {
        since_keyframe.secs >= FORCED_KEYFRAME_SECS
    }

    /// Makes the encoded frame out of the NAL units that the library
    /// returned: their payloads in order, a keyframe where one of them is a
    /// slice of an IDR picture, timed at `micros`. The encoder counts one
    /// frame more.
    pub fn encode_frame(&mut self, packets: &Vec<NalPacket>, micros: u64) -> (frame: EncodedFrame)
        requires
            old(self)@ < u64::MAX,
        ensures
            final(self)@ == old(self)@ + 1,
            frame.data@ == concat_payloads(packets@),
            frame.is_keyframe == any_idr(packets@),
            frame.timestamp.wf(),
            frame.timestamp.as_nanos() == micros * 1000,
    {
        let mut is_keyframe = false;
        let mut data: Vec<u8> = Vec::new();
        let mut i: usize = 0;
        while i < packets.len()
            invariant
                i <= packets@.len(),
                is_keyframe == any_idr(packets@.take(i as int)),
                data@ == concat_payloads(packets@.take(i as int)),
            decreases packets@.len() - i,
        {
            let ghost prefix = packets@.take(i as int);
            let ghost next = packets@.take(i as int + 1);
            proof {
                assert(next.drop_last() == prefix);
                assert(next.last() == packets@[i as int]);
                if any_idr(prefix) {
                    let w = choose|w: int| 0 <= w < prefix.len() && (#[trigger] prefix[w]).is_idr;
                    assert(next[w] == prefix[w]);
                }
                if any_idr(next) && !any_idr(prefix) {
                    let w = choose|w: int| 0 <= w < next.len() && (#[trigger] next[w]).is_idr;
                    if w < i {
                        assert(prefix[w] == next[w]);
                    }
                }
            }
            if packets[i].is_idr {
                is_keyframe = true;
                assert(next[i as int].is_idr);
            }
            append(&mut data, packets[i].payload.as_slice());
            i = i + 1;
        }
        proof {
            assert(packets@.take(i as int) == packets@);
        }
        self.frame_count = self.frame_count + 1;
        EncodedFrame { data, timestamp: Timestamp::from_micros(micros), is_keyframe }
    }
}

} // verus!
