use moq_x265::cuda::cuda_check;
use moq_x265::cuda::get_count;
use moq_x265::cuda::is_hardware_acceleration_available;
use moq_x265::cuda::is_nvidia_hardware_available;
use moq_x265::cuda::create_hardware_decoder;
use moq_x265::cuda::create_hardware_encoder;
use moq_x265::cuda::CudaError;
use moq_x265::cuda::CudaProbe;
use moq_x265::cuda::ProbeCall;
use moq_x265::error::X265Error;

#[test]
fn test_cuda_init() {
    let result = cuda_check(0);
    assert_eq!(result, Ok(0));

    let count = 1;
    let result = get_count(0, count);
    assert_eq!(result, Ok(count));

    println!("Found {} CUDA device(s)", count);
}

#[test]
fn lib_test_cuda_init() {
    let result = 0;
    println!("CUDA init result: {}", result);
    assert!(cuda_check(result).is_ok());

    let count = 2;
    let result = 0;
    println!("CUDA device count: {}, result: {}", count, result);
    assert_eq!(get_count(result, count), Ok(2));
}

#[test]
fn failed_call_carries_its_code() {
    assert_eq!(cuda_check(100), Err(CudaError { code: 100 }));
    assert_eq!(cuda_check(-1), Err(CudaError { code: -1 }));
    assert_eq!(get_count(3, 7), Err(CudaError { code: 3 }));
}

#[test]
fn count_is_handed_on_even_when_zero() {
    assert_eq!(get_count(0, 0), Ok(0));
    assert_eq!(get_count(0, 4), Ok(4));
}

#[test]
fn probe_needs_all_three_calls_to_succeed() {
    let good = CudaProbe { init: 0, count: Some((0, 1)), device: Some(0) };
    assert!(is_nvidia_hardware_available(&good));
    assert!(!is_nvidia_hardware_available(&CudaProbe { init: 1, ..good }));
    assert!(!is_nvidia_hardware_available(&CudaProbe { count: None, ..good }));
    assert!(!is_nvidia_hardware_available(&CudaProbe { count: Some((2, 1)), ..good }));
    assert!(!is_nvidia_hardware_available(&CudaProbe { count: Some((0, 0)), ..good }));
    assert!(!is_nvidia_hardware_available(&CudaProbe { device: None, ..good }));
    assert!(!is_nvidia_hardware_available(&CudaProbe { device: Some(101), ..good }));
}

#[test]
fn probe_asks_for_the_calls_in_order() {
    let start = CudaProbe { init: 0, count: None, device: None };
    assert_eq!(start.next_call(), Some(ProbeCall::CountDevices));
    let counted = CudaProbe { count: Some((0, 2)), ..start };
    assert_eq!(counted.next_call(), Some(ProbeCall::GetFirstDevice));
    let done = CudaProbe { device: Some(0), ..counted };
    assert_eq!(done.next_call(), None);
    assert_eq!(CudaProbe { init: 3, ..start }.next_call(), None);
    assert_eq!(CudaProbe { count: Some((0, 0)), ..start }.next_call(), None);
    assert_eq!(CudaProbe { count: Some((1, 5)), ..start }.next_call(), None);
}

#[test]
fn no_probe_means_no_hardware() {
    assert!(!is_hardware_acceleration_available(None));
    let good = CudaProbe { init: 0, count: Some((0, 1)), device: Some(0) };
    assert!(is_hardware_acceleration_available(Some(&good)));
    let bad = CudaProbe { init: 999, count: None, device: None };
    assert!(!is_hardware_acceleration_available(Some(&bad)));
}

#[test]
fn hardware_encoder_only_with_hardware() {
    let good = CudaProbe { init: 0, count: Some((0, 1)), device: Some(0) };
    let encoder = create_hardware_encoder(Some(&good), 640, 480, 1_000_000, 30, 30).unwrap();
    assert_eq!(encoder.frame_count(), 0);
    assert_eq!(encoder.headers().len(), 68);
    match create_hardware_encoder(None, 640, 480, 1_000_000, 30, 30) {
        Err(X265Error::HardwareAccelerationNotAvailable(detail)) => {
            assert_eq!(detail, "Hardware acceleration is not available");
        }
        _ => panic!("expected an error"),
    }
}

#[test]
fn hardware_decoder_only_with_hardware() {
    let good = CudaProbe { init: 0, count: Some((0, 1)), device: Some(0) };
    let decoder = create_hardware_decoder(Some(&good)).unwrap();
    assert_eq!((decoder.width(), decoder.height()), (640, 480));
    assert_eq!(decoder.frame_count(), 0);
    assert!(!decoder.is_initialized());
    let bad = CudaProbe { init: 0, count: Some((0, 0)), device: None };
    match create_hardware_decoder(Some(&bad)) {
        Err(e) => assert_eq!(
            e.message(),
            "Hardware acceleration not available: Hardware acceleration is not available"
        ),
        Ok(_) => panic!("expected an error"),
    }
}
