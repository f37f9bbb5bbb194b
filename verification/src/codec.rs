//! What the pipeline asks of any encoder and of any decoder.

use crate::encoded::EncodedFrame;
use crate::error::X265Error;
use crate::frame::RgbaFrame;
use vstd::prelude::*;

verus! {

/// Something that turns frames into encoded pictures.
pub trait Encoder: Send + Sync {
    /// Encodes the next frame of the stream.
    fn encode(&mut self, frame: &RgbaFrame) -> Result<EncodedFrame, X265Error>;
}

/// Something that turns access units into frames.
pub trait Decoder: Send + Sync {
    /// Takes the next access unit; gives a frame once one can be shown.
    fn decode(&mut self, data: &[u8]) -> Result<Option<RgbaFrame>, X265Error>;
}

} // verus!
