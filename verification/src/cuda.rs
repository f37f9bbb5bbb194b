//! What the pipeline makes of the answers of the CUDA driver.

use crate::error::X265Error;
use crate::nvdec::NvdecDecoder;
use crate::nvenc::NvencEncoder;
use vstd::prelude::*;
use vstd::string::StringExecFns;

verus! {

/// The result code with which a driver call reports success.
pub const CUDA_SUCCESS: i32 = 0;

/// A driver call that failed, with its result code.
#[derive(Clone, Copy, Debug, PartialEq, Eq, Structural)]
pub struct CudaError {
    pub code: i32,
}

/// Turns the result code of a driver call into a `Result`: success hands the
/// code on, anything else is an error that carries it.
pub fn cuda_check(result: i32) -> (res: Result<i32, CudaError>)
    ensures
        result == CUDA_SUCCESS ==> res == Ok::<i32, CudaError>(result),
        result != CUDA_SUCCESS ==> res == Err::<i32, CudaError>(CudaError { code: result }),
{
    if result != CUDA_SUCCESS {
        return Err(CudaError { code: result });
    }
    Ok(result)
}

/// The number of CUDA devices, from what the driver answered when asked for
/// it: its result code and the count it wrote.
pub fn get_count(result: i32, count: i32) -> (res: Result<i32, CudaError>)
    ensures
        result == CUDA_SUCCESS ==> res == Ok::<i32, CudaError>(count),
        result != CUDA_SUCCESS ==> res == Err::<i32, CudaError>(CudaError { code: result }),
{
    match cuda_check(result) {
        Ok(_) => Ok(count),
        Err(e) => Err(e),
    }
}

/// The answers of the driver to the three calls of the availability probe,
/// in the order they are made. A call that was not made, because the one
/// before it failed, has no answer.
#[derive(Clone, Copy, Debug, PartialEq, Eq)]
pub struct CudaProbe {
    /// Result code of the initialisation.
    pub init: i32,
    /// Result code of the device count and the count itself.
    pub count: Option<(i32, i32)>,
    /// Result code of the request for the first device.
    pub device: Option<i32>,
}

/// The next call that the probe wants made.
#[derive(Clone, Copy, Debug, PartialEq, Eq, Structural)]
pub enum ProbeCall {
    CountDevices,
    GetFirstDevice,
}

impl CudaProbe {
    /// The driver came up and counted at least one device.
    pub open spec fn has_devices(self) -> bool {
        self.init == CUDA_SUCCESS && match self.count {
            Some((result, count)) => result == CUDA_SUCCESS && count != 0,
            None => false,
        }
    }

    /// The driver came up, counted at least one device, and handed out the
    /// first.
    pub open spec fn available(self) -> bool {
        self.has_devices() && self.device == Some(CUDA_SUCCESS)
    }

    /// The call to make next, if the answers so far leave the outcome open.
    pub fn next_call(&self) -> (call: Option<ProbeCall>)
        ensures
            call == if self.init != CUDA_SUCCESS {
                None::<ProbeCall>
            } else if self.count is None {
                Some(ProbeCall::CountDevices)
            } else if self.has_devices() && self.device is None {
                Some(ProbeCall::GetFirstDevice)
            } else {
                None
            },
    {
        if self.init != CUDA_SUCCESS {
            return None;
        }
        match self.count {
            None => Some(ProbeCall::CountDevices),
            Some((result, count)) => {
                if result == CUDA_SUCCESS && count != 0 && self.device.is_none() {
                    Some(ProbeCall::GetFirstDevice)
                } else {
                    None
                }
            },
        }
    }
}

/// Whether NVIDIA hardware can be used: the driver came up, counted at least
/// one device, and handed out the first.
pub fn is_nvidia_hardware_available(probe: &CudaProbe) -> (available: bool)
    ensures
        available == probe.available(),
{
    if probe.init != CUDA_SUCCESS {
        return false;
    }
    match probe.count {
        None => false,
        Some((result, count)) => {
            if result != CUDA_SUCCESS || count == 0 {
                return false;
            }
            match probe.device {
                Some(device_result) => device_result == CUDA_SUCCESS,
                None => false,
            }
        },
    }
}

/// Whether hardware acceleration is available. A program built without
/// support for it has no probe to show, and the answer is no.
pub fn is_hardware_acceleration_available(probe: Option<&CudaProbe>) -> (available: bool)
    ensures
        available == (probe is Some && probe->0.available()),
{
    match probe {
        Some(p) => is_nvidia_hardware_available(p),
        None => false,
    }
}

/// A hardware encoder, if hardware acceleration is available.
pub fn create_hardware_encoder(
    probe: Option<&CudaProbe>,
    width: u32,
    height: u32,
    bitrate: u32,
    fps: u32,
    keyframe_interval: u32,
) -> (res: Result<NvencEncoder, X265Error>)
    ensures
        res is Ok <==> probe is Some && probe->0.available(),
        res is Ok ==> res->Ok_0@ == NvencEncoder::new_view(
            width,
            height,
            bitrate,
            fps,
            keyframe_interval,
        ),
        res is Err ==> res->Err_0 is HardwareAccelerationNotAvailable && res->Err_0.detail()
            == "Hardware acceleration is not available"@,
{
    if is_hardware_acceleration_available(probe) {
        return Ok(NvencEncoder::new(width, height, bitrate, fps, keyframe_interval));
    }
    Err(
        X265Error::HardwareAccelerationNotAvailable(
            String::from_str("Hardware acceleration is not available"),
        ),
    )
}

/// The bookkeeping of a hardware decoder, if hardware acceleration is
/// available.
pub fn create_hardware_decoder(probe: Option<&CudaProbe>) -> (res: Result<NvdecDecoder, X265Error>)
    ensures
        res is Ok <==> probe is Some && probe->0.available(),
        res is Ok ==> {
            let decoder = res->Ok_0@;
            &&& decoder.width == 640
            &&& decoder.height == 480
            &&& !decoder.initialized
            &&& !decoder.has_decoder
            &&& decoder.frame_count == 0
            &&& decoder.queue.len() == 0
        },
        res is Err ==> res->Err_0 is HardwareAccelerationNotAvailable && res->Err_0.detail()
            == "Hardware acceleration is not available"@,
{
    if is_hardware_acceleration_available(probe) {
        return Ok(NvdecDecoder::new());
    }
    Err(
        X265Error::HardwareAccelerationNotAvailable(
            String::from_str("Hardware acceleration is not available"),
        ),
    )
}

} // verus!
