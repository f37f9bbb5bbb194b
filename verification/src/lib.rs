//! Verified building blocks of a desktop video pipeline over Media over QUIC:
//! Annex B framing, frame bookkeeping for the encoders and decoders, pixel
//! format conversion and the decisions that pace and gate a stream.

pub mod annexb;
pub mod bytes;
pub mod capture;
pub mod codec;
pub mod cuda;
pub mod decoder;
pub mod encoded;
pub mod encoder;
pub mod error;
pub mod frame;
pub mod h264;
pub mod hevc;
pub mod i420;
pub mod nvdec;
pub mod nvenc;
pub mod publisher;
pub mod render;

pub use annexb::parse_nal_units;
pub use codec::Decoder;
pub use codec::Encoder;
pub use cuda::create_hardware_decoder;
pub use cuda::create_hardware_encoder;
pub use cuda::get_count;
pub use cuda::is_hardware_acceleration_available;
pub use cuda::is_nvidia_hardware_available;
pub use decoder::extract_resolution_from_sps;
pub use decoder::X265Decoder;
pub use encoded::EncodedFrame;
pub use encoded::Timestamp;
pub use encoder::X265Encoder;
pub use error::X265Error;
pub use frame::RgbaFrame;
pub use nvdec::NvdecDecoder;
pub use nvenc::NvencEncoder;
