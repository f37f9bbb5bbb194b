//! Errors of the codec layer.

use vstd::prelude::*;
use vstd::string::StringExecFns;

verus! {

/// What can go wrong in an encoder or a decoder. Each variant carries the
/// detail that follows the colon in its message.
#[derive(Debug)]
pub enum X265Error {
    EncoderInitFailed(String),
    EncodeFailed(String),
    DecoderInitFailed(String),
    DecodeFailed(String),
    HardwareAccelerationNotAvailable(String),
}

impl X265Error {
    /// The words that open the message of this variant.
    pub open spec fn prefix(self) -> Seq<char> {
        match self {
            X265Error::EncoderInitFailed(_) => "Failed to initialize encoder: "@,
            X265Error::EncodeFailed(_) => "Failed to encode frame: "@,
            X265Error::DecoderInitFailed(_) => "Failed to initialize decoder: "@,
            X265Error::DecodeFailed(_) => "Failed to decode frame: "@,
            X265Error::HardwareAccelerationNotAvailable(_) => "Hardware acceleration not available: "@,
        }
    }

    /// The detail that the error carries.
    pub open spec fn detail(self) -> Seq<char> {
        match self {
            X265Error::EncoderInitFailed(d) => d@,
            X265Error::EncodeFailed(d) => d@,
            X265Error::DecoderInitFailed(d) => d@,
            X265Error::DecodeFailed(d) => d@,
            X265Error::HardwareAccelerationNotAvailable(d) => d@,
        }
    }

    /// The message of the error: what failed, a colon, and the detail.
    pub fn message(&self) -> (text: String)
        ensures
            text@ == self.prefix() + self.detail(),
    {
        match self {
            X265Error::EncoderInitFailed(d) => String::from_str(
                "Failed to initialize encoder: ",
            ).concat(d.as_str()),
            X265Error::EncodeFailed(d) => String::from_str("Failed to encode frame: ").concat(
                d.as_str(),
            ),
            X265Error::DecoderInitFailed(d) => String::from_str(
                "Failed to initialize decoder: ",
            ).concat(d.as_str()),
            X265Error::DecodeFailed(d) => String::from_str("Failed to decode frame: ").concat(
                d.as_str(),
            ),
            X265Error::HardwareAccelerationNotAvailable(d) => String::from_str(
                "Hardware acceleration not available: ",
            ).concat(d.as_str()),
        }
    }
}

} // verus!
