use moq_x265::encoded::Timestamp;
use moq_x265::encoder::PictureSetup;
use moq_x265::encoder::X265Encoder;
use moq_x265::error::X265Error;
use moq_x265::frame::RgbaFrame;
use moq_x265::h264::encoder_settings;
use moq_x265::h264::EncoderSettings;
use moq_x265::h264::NalPacket;
use moq_x265::h264::VideoEncoder;
use moq_x265::hevc::encode_rgba_to_hevc;
use moq_x265::hevc::HEVCEncoder;

fn stamp(secs: u64) -> Timestamp {
    Timestamp { secs, nanos: 0 }
}

#[test]
fn new_encoder_keeps_the_parameter_sets() {
    let nals = vec![vec![1u8, 2], vec![3u8]];
    let encoder = X265Encoder::new(640, 480, 30, 30, 10, &nals);
    assert_eq!(encoder.headers(), &vec![1, 2, 3]);
    assert_eq!(encoder.frame_count(), 0);
    assert_eq!(encoder.last_keyframe_count(), 0);
    assert_eq!(encoder.fps(), 30);
    assert_eq!(encoder.yuv_buffer().len(), 460_800);
    assert!(encoder.yuv_buffer().iter().all(|&b| b == 0));
}

#[test]
fn parameter_sets_are_dropped_where_none_were_written() {
    let nals = vec![vec![1u8, 2]];
    assert!(X265Encoder::new(4, 4, 30, 30, 0, &nals).headers().is_empty());
    assert!(X265Encoder::new(4, 4, 30, 30, -1, &nals).headers().is_empty());
    assert!(X265Encoder::new(4, 4, 30, 30, 5, &Vec::new()).headers().is_empty());
    assert_eq!(X265Encoder::new(3, 3, 30, 30, 5, &nals).yuv_buffer().len(), 13);
}

#[test]
fn picture_is_laid_out_as_three_planes() {
    let encoder = X265Encoder::new(640, 480, 30, 30, 0, &Vec::new());
    assert_eq!(
        encoder.picture_setup(),
        PictureSetup {
            plane_offsets: [0, 307_200, 384_000],
            strides: [640, 320, 320],
            pts: 0,
            force_keyframe: true,
        }
    );
}

#[test]
fn first_frame_carries_the_parameter_sets() {
    let mut encoder = X265Encoder::new(640, 480, 30, 3, 3, &vec![vec![1u8, 2, 3]]);
    let frame = encoder.encode_frame(5, &vec![vec![9u8, 9], vec![8u8]], stamp(1)).unwrap();
    assert_eq!(frame.data, vec![1, 2, 3, 9, 9, 8]);
    assert!(frame.is_keyframe);
    assert_eq!(frame.timestamp, stamp(1));
    assert_eq!(encoder.frame_count(), 1);
    let frame = encoder.encode_frame(3, &vec![vec![7u8]], stamp(2)).unwrap();
    assert_eq!(frame.data, vec![7]);
    assert!(!frame.is_keyframe);
    assert_eq!(encoder.frame_count(), 2);
}

#[test]
fn first_frame_without_output_is_the_parameter_sets() {
    let mut encoder = X265Encoder::new(640, 480, 30, 3, 3, &vec![vec![1u8, 2, 3]]);
    let frame = encoder.encode_frame(0, &Vec::new(), stamp(0)).unwrap();
    assert_eq!(frame.data, vec![1, 2, 3]);
}

#[test]
fn keyframes_follow_the_interval() {
    let mut encoder = X265Encoder::new(16, 16, 30, 3, 0, &Vec::new());
    let mut kinds = Vec::new();
    let mut forced = Vec::new();
    let mut last = Vec::new();
    for _ in 0..7 {
        forced.push(encoder.picture_setup().force_keyframe);
        kinds.push(encoder.encode_frame(1, &vec![vec![0u8]], stamp(0)).unwrap().is_keyframe);
        last.push(encoder.last_keyframe_count());
    }
    assert_eq!(kinds, vec![true, false, false, true, false, false, true]);
    assert_eq!(forced, kinds);
    assert_eq!(last, vec![0, 0, 0, 3, 3, 3, 6]);
    assert_eq!(encoder.picture_setup().pts, 7);
}

#[test]
fn negative_size_is_a_failure() {
    let mut encoder = X265Encoder::new(16, 16, 30, 3, 0, &Vec::new());
    match encoder.encode_frame(-1, &vec![vec![1u8]], stamp(0)) {
        Err(e) => {
            assert!(matches!(e, X265Error::EncodeFailed(_)));
            assert_eq!(e.message(), "Failed to encode frame: Failed to encode frame");
        }
        Ok(_) => panic!("expected an error"),
    }
    assert_eq!(encoder.frame_count(), 0);
    match encoder.flush(-5, &vec![vec![1u8]], stamp(0)) {
        Err(e) => assert_eq!(e.message(), "Failed to encode frame: Failed to flush encoder"),
        Ok(_) => panic!("expected an error"),
    }
    assert_eq!(encoder.frame_count(), 0);
}

#[test]
fn flush_gives_what_the_encoder_still_held() {
    let mut encoder = X265Encoder::new(16, 16, 30, 1, 2, &vec![vec![1u8, 2]]);
    assert!(encoder.flush(0, &vec![vec![1u8]], stamp(0)).unwrap().is_none());
    assert!(encoder.flush(4, &Vec::new(), stamp(0)).unwrap().is_none());
    assert_eq!(encoder.frame_count(), 0);
    let frame = encoder.flush(4, &vec![vec![5u8], vec![6u8, 7]], stamp(9)).unwrap().unwrap();
    assert_eq!(frame.data, vec![5, 6, 7]);
    assert!(!frame.is_keyframe);
    assert_eq!(frame.timestamp, stamp(9));
    assert_eq!(encoder.frame_count(), 1);
}

fn bt709(r: u8, g: u8, b: u8) -> (u8, u8, u8) {
    let (r, g, b) = (r as f32, g as f32, b as f32);
    (
        (0.2126 * r + 0.7152 * g + 0.0722 * b) as u8,
        (-0.09991 * r - 0.33609 * g + 0.436 * b + 128.0) as u8,
        (0.615 * r - 0.55861 * g - 0.05639 * b + 128.0) as u8,
    )
}

#[test]
fn encoder_converts_into_its_own_buffer() {
    let mut encoder = X265Encoder::new(2, 2, 30, 30, 0, &Vec::new());
    let mut frame = RgbaFrame::new(2, 2);
    frame.put_pixel(0, 0, [255, 0, 0, 255]);
    frame.put_pixel(1, 0, [0, 255, 0, 255]);
    frame.put_pixel(0, 1, [0, 0, 255, 255]);
    frame.put_pixel(1, 1, [255, 255, 255, 255]);
    encoder.convert_frame(&frame, bt709);
    let red = bt709(255, 0, 0);
    let expected = vec![
        red.0,
        bt709(0, 255, 0).0,
        bt709(0, 0, 255).0,
        bt709(255, 255, 255).0,
        red.1,
        red.2,
    ];
    assert_eq!(encoder.yuv_buffer(), &expected);
    assert_eq!(expected[0], 54);
}

#[test]
fn stand_in_keyframe_layout() {
    let frame = RgbaFrame::filled(20, 20, [1, 2, 3, 4]);
    let data = encode_rgba_to_hevc(&frame, 20, 20, true);
    assert_eq!(data.len(), 26 + 5 + 300 + 4);
    assert_eq!(&data[..9], &[0x00, 0x00, 0x01, 0x40, 0x01, 0x0c, 0x01, 0xff, 0xff]);
    assert_eq!(&data[9..18], &[0x00, 0x00, 0x01, 0x42, 0x01, 0x01, 0x01, 0x60, 0x00]);
    assert_eq!(&data[18..26], &[0x00, 0x00, 0x01, 0x44, 0x01, 0xc0, 0xf3, 0xc0]);
    assert_eq!(&data[26..31], &[0x00, 0x00, 0x01, 0x26, 0x01]);
    assert_eq!(&data[31..37], &[1, 2, 3, 1, 2, 3]);
    assert_eq!(&data[331..], &[0x00, 0x00, 0x01, 0x5a]);
}

#[test]
fn stand_in_delta_frame_layout() {
    let frame = RgbaFrame::filled(20, 20, [1, 2, 3, 4]);
    let data = encode_rgba_to_hevc(&frame, 20, 20, false);
    assert_eq!(data.len(), 5 + 300 + 4);
    assert_eq!(&data[..5], &[0x00, 0x00, 0x01, 0x02, 0x01]);
}

#[test]
fn stand_in_samples_every_tenth_of_the_size() {
    let mut frame = RgbaFrame::new(30, 10);
    for y in 0..10 {
        for x in 0..30 {
            frame.put_pixel(x, y, [x as u8, y as u8, 77, 255]);
        }
    }
    let data = encode_rgba_to_hevc(&frame, 30, 10, false);
    // columns 0, 3, .., 27 of every row
    assert_eq!(data.len(), 5 + 10 * 10 * 3 + 4);
    assert_eq!(&data[5..11], &[0, 0, 77, 3, 0, 77]);
    assert_eq!(&data[5 + 30..5 + 33], &[0, 1, 77]);
    assert_eq!(&data[5 + 297..5 + 300], &[27, 9, 77]);
}

#[test]
fn stand_in_skips_what_the_frame_lacks() {
    let frame = RgbaFrame::filled(10, 10, [9, 9, 9, 9]);
    let data = encode_rgba_to_hevc(&frame, 20, 20, false);
    assert_eq!(data.len(), 5 + 5 * 5 * 3 + 4);
    let frame = RgbaFrame::filled(20, 20, [9, 9, 9, 9]);
    let data = encode_rgba_to_hevc(&frame, 25, 10, false);
    // columns 0, 2, .., 18 of the frame; rows 0 to 9
    assert_eq!(data.len(), 5 + 10 * 10 * 3 + 4);
    let data = encode_rgba_to_hevc(&frame, 25, 25, false);
    // step 2 each way: 10 columns and 10 rows within the frame
    assert_eq!(data.len(), 5 + 10 * 10 * 3 + 4);
}

#[test]
fn stand_in_encoder_forces_keyframes_by_the_clock() {
    let frame = RgbaFrame::filled(10, 10, [1, 2, 3, 4]);
    let mut encoder = HEVCEncoder::new(10, 10, 1000, 30);
    let early = Timestamp { secs: 1, nanos: 999_999_999 };
    let encoded = encoder.encode_frame(&frame, early, stamp(7)).unwrap();
    assert!(!encoded.is_keyframe);
    assert_eq!(encoded.timestamp, stamp(7));
    assert_eq!(encoded.data.len(), 5 + 300 + 4);
    let encoded = encoder.encode_frame(&frame, stamp(2), stamp(8)).unwrap();
    assert!(encoded.is_keyframe);
    assert_eq!(encoded.data.len(), 26 + 5 + 300 + 4);
    assert_eq!(encoder.frame_count(), 2);
    assert_eq!(encoder.fps(), 30);
}

#[test]
fn h264_settings() {
    assert_eq!(
        encoder_settings(1920, 1080, 5_000_000, 30),
        EncoderSettings {
            width: 1920,
            height: 1080,
            bitrate: 5000,
            fps: 30,
            keyint: 60,
            min_keyint: 30,
            repeat_headers: true,
        }
    );
    assert_eq!(encoder_settings(1, 1, 999, 1).bitrate, 0);
}

#[test]
fn h264_frames() {
    let mut encoder = VideoEncoder::new();
    assert_eq!(encoder.timestamp_micros(1), 0);
    assert!(!encoder.force_keyframe(Timestamp { secs: 1, nanos: 999_999_999 }));
    assert!(encoder.force_keyframe(stamp(2)));
    let packets = vec![
        NalPacket { is_idr: false, payload: vec![1, 2] },
        NalPacket { is_idr: true, payload: vec![3] },
        NalPacket { is_idr: false, payload: vec![] },
        NalPacket { is_idr: false, payload: vec![4, 5] },
    ];
    let frame = encoder.encode_frame(&packets, 1_500_000);
    assert_eq!(frame.data, vec![1, 2, 3, 4, 5]);
    assert!(frame.is_keyframe);
    assert_eq!(frame.timestamp, Timestamp { secs: 1, nanos: 500_000_000 });
    assert_eq!(encoder.frame_count(), 1);
    let frame = encoder.encode_frame(&vec![NalPacket { is_idr: false, payload: vec![6] }], 2);
    assert!(!frame.is_keyframe);
    assert_eq!(frame.data, vec![6]);
    let frame = encoder.encode_frame(&Vec::new(), 3);
    assert!(!frame.is_keyframe);
    assert!(frame.data.is_empty());
    assert_eq!(encoder.timestamp_micros(1), 3_000_000);
    assert_eq!(encoder.timestamp_micros(1001), 2997);
}
