use moq_x265::codec::Encoder;
use moq_x265::encoded::Timestamp;
use moq_x265::error::X265Error;
use moq_x265::frame::RgbaFrame;
use moq_x265::nvenc::NvencEncoder;

#[test]
fn parameter_sets_are_made_at_once() {
    let encoder = NvencEncoder::new(640, 480, 1_000_000, 30, 30);
    let headers = encoder.headers();
    assert_eq!(headers.len(), 68);
    assert_eq!(&headers[..6], &[0x00, 0x00, 0x00, 0x01, 0x40, 0x01]);
    assert_eq!(&headers[22..27], &[0x00, 0x00, 0x00, 0x01, 0x42]);
    assert_eq!(&headers[58..], &[0x00, 0x00, 0x00, 0x01, 0x44, 0x01, 0xc1, 0x73, 0xd1, 0x89]);
    assert_eq!(encoder.frame_count(), 0);
    assert!(encoder.can_encode());
}

#[test]
fn first_frame_is_a_keyframe_of_8000_bytes() {
    let mut encoder = NvencEncoder::new(640, 480, 1_000_000, 30, 30);
    let picture = RgbaFrame::new(640, 480);
    let frame = encoder.encode_frame(&picture).unwrap();
    assert!(frame.is_keyframe);
    assert_eq!(frame.data.len(), 8000);
    assert_eq!(frame.timestamp, Timestamp { secs: 0, nanos: 33_000_000 });
    assert_eq!(&frame.data[..5], &[0, 0, 0, 1, 0x26]);
    assert_eq!(&frame.data[5..10], &[1, 2, 3, 4, 5]);
    assert_eq!(&frame.data[10..18], &[0u8; 8]);
    assert_eq!(&frame.data[18..22], &[0x80, 0x02, 0, 0]);
    assert_eq!(&frame.data[22..26], &[0xE0, 0x01, 0, 0]);
    assert_eq!(frame.data[26], 1);
    assert_eq!(frame.data[27], 2);
    assert_eq!(frame.data[225], 200);
    assert!(frame.data[226..].iter().all(|&b| b == 0));
    assert_eq!(encoder.frame_count(), 1);
}

#[test]
fn second_frame_is_a_delta_frame_of_4000_bytes() {
    let mut encoder = NvencEncoder::new(640, 480, 1_000_000, 30, 30);
    let picture = RgbaFrame::new(1, 1);
    encoder.encode_frame(&picture).unwrap();
    let frame = encoder.encode_frame(&picture).unwrap();
    assert!(!frame.is_keyframe);
    assert_eq!(frame.data.len(), 4000);
    assert_eq!(frame.data[4], 0x22);
    assert_eq!(frame.data[26], 2);
    assert_eq!(frame.timestamp, Timestamp { secs: 0, nanos: 66_000_000 });
}

#[test]
fn keyframes_come_once_every_interval() {
    let mut encoder = NvencEncoder::new(16, 16, 1000, 25, 4);
    let picture = RgbaFrame::new(1, 1);
    let mut kinds = Vec::new();
    for _ in 0..9 {
        kinds.push(encoder.encode_frame(&picture).unwrap().is_keyframe);
    }
    assert_eq!(kinds, vec![true, false, false, false, true, false, false, false, true]);
}

#[test]
fn interval_of_one_never_gives_a_keyframe() {
    let mut encoder = NvencEncoder::new(16, 16, 1000, 25, 1);
    let picture = RgbaFrame::new(1, 1);
    for _ in 0..3 {
        assert!(!encoder.encode_frame(&picture).unwrap().is_keyframe);
    }
}

#[test]
fn seconds_of_the_timestamp_are_written_little_endian() {
    let mut encoder = NvencEncoder::new(16, 16, 1000, 1, 1000);
    let picture = RgbaFrame::new(1, 1);
    let mut last = None;
    for _ in 0..258 {
        last = Some(encoder.encode_frame(&picture).unwrap());
    }
    let frame = last.unwrap();
    assert_eq!(frame.timestamp, Timestamp { secs: 258, nanos: 0 });
    assert_eq!(&frame.data[10..18], &[2, 1, 0, 0, 0, 0, 0, 0]);
    // the ramp starts at the low byte of the frame number and wraps
    assert_eq!(frame.data[26], 2);
    assert_eq!(frame.data[26 + 199], 201);
}

#[test]
fn ramp_wraps_at_256() {
    let mut encoder = NvencEncoder::new(16, 16, 1000, 30, 1000);
    let picture = RgbaFrame::new(1, 1);
    let mut last = None;
    for _ in 0..100 {
        last = Some(encoder.encode_frame(&picture).unwrap());
    }
    let frame = last.unwrap();
    assert_eq!(frame.data[26], 100);
    assert_eq!(frame.data[26 + 155], 255);
    assert_eq!(frame.data[26 + 156], 0);
    assert_eq!(frame.data[26 + 199], 43);
    assert_eq!(frame.timestamp, Timestamp { secs: 3, nanos: 333_000_000 });
}

#[test]
fn encoder_without_a_frame_rate_cannot_encode() {
    let mut encoder = NvencEncoder::new(16, 16, 1000, 0, 30);
    assert!(!encoder.can_encode());
    let picture = RgbaFrame::new(1, 1);
    match encoder.encode(&picture) {
        Err(X265Error::EncodeFailed(_)) => {}
        _ => panic!("expected an error"),
    }
    assert_eq!(encoder.frame_count(), 0);
    let mut encoder = NvencEncoder::new(16, 16, 1000, 30, 0);
    assert!(!encoder.can_encode());
    assert!(encoder.encode(&picture).is_err());
}

#[test]
fn encode_through_the_trait_is_encode_frame() {
    let mut encoder: Box<dyn Encoder> = Box::new(NvencEncoder::new(640, 480, 1_000_000, 30, 30));
    let picture = RgbaFrame::new(1, 1);
    let frame = encoder.encode(&picture).unwrap();
    assert!(frame.is_keyframe);
    assert_eq!(frame.data.len(), 8000);
}
