use moq_x265::frame::RgbaFrame;
use moq_x265::nvdec::locate_nal_units;
use moq_x265::nvdec::nv12_to_rgba;
use moq_x265::nvdec::yuv_to_rgba;
use moq_x265::nvdec::FramePlan;
use moq_x265::nvdec::NalUnit;
use moq_x265::nvdec::NvdecDecoder;
use moq_x265::nvdec::SequenceAction;

#[test]
fn locates_units_after_start_codes() {
    assert_eq!(
        locate_nal_units(&[0, 0, 1, 0x26, 1, 2, 3]),
        vec![NalUnit { pos: 3, length: 4 }]
    );
    assert_eq!(
        locate_nal_units(&[0, 0, 0, 1, 0x40, 1, 0, 0, 1, 0x42, 2, 3]),
        vec![NalUnit { pos: 4, length: 2 }, NalUnit { pos: 9, length: 3 }]
    );
}

#[test]
fn located_units_may_be_empty() {
    assert_eq!(
        locate_nal_units(&[0, 0, 1, 0, 0, 1, 8, 8]),
        vec![NalUnit { pos: 3, length: 0 }, NalUnit { pos: 6, length: 2 }]
    );
    assert_eq!(locate_nal_units(&[0, 0, 0, 1]), vec![NalUnit { pos: 4, length: 0 }]);
}

#[test]
fn short_or_plain_data_has_no_units() {
    assert!(locate_nal_units(&[]).is_empty());
    assert!(locate_nal_units(&[0, 0, 1]).is_empty());
    assert!(locate_nal_units(&[1, 2, 3, 4, 5, 6]).is_empty());
}

#[test]
fn start_code_in_the_last_three_bytes_is_not_seen() {
    assert_eq!(
        locate_nal_units(&[0, 0, 1, 7, 7, 0, 0, 1]),
        vec![NalUnit { pos: 3, length: 5 }]
    );
}

#[test]
fn yuv_to_rgba_known_values() {
    assert_eq!(yuv_to_rgba(16, 128, 128), [0, 0, 0, 255]);
    assert_eq!(yuv_to_rgba(235, 128, 128), [255, 255, 255, 255]);
    assert_eq!(yuv_to_rgba(128, 128, 128), [130, 130, 130, 255]);
    assert_eq!(yuv_to_rgba(81, 90, 240), [255, 0, 0, 255]);
    assert_eq!(yuv_to_rgba(0, 0, 0), [0, 135, 0, 255]);
    assert_eq!(yuv_to_rgba(255, 255, 255), [255, 125, 255, 255]);
}

fn by_floats(y: u8, u: u8, v: u8) -> [u8; 4] {
    let c = (y as f32) - 16.0;
    let d = (u as f32) - 128.0;
    let e = (v as f32) - 128.0;
    let r = (298.0 * c + 409.0 * e + 128.0) / 256.0;
    let g = (298.0 * c - 100.0 * d - 208.0 * e + 128.0) / 256.0;
    let b = (298.0 * c + 516.0 * d + 128.0) / 256.0;
    [
        r.max(0.0).min(255.0) as u8,
        g.max(0.0).min(255.0) as u8,
        b.max(0.0).min(255.0) as u8,
        255,
    ]
}

#[test]
fn yuv_to_rgba_agrees_with_the_formula_in_floats() {
    let mut y = 0u32;
    while y < 256 {
        let mut u = 0u32;
        while u < 256 {
            let mut v = 0u32;
            while v < 256 {
                let (a, b, c) = (y as u8, u as u8, v as u8);
                assert_eq!(yuv_to_rgba(a, b, c), by_floats(a, b, c));
                v += 5;
            }
            u += 3;
        }
        y += 1;
    }
    for &(a, b, c) in &[(255u8, 255u8, 255u8), (0, 255, 0), (0, 0, 255), (255, 0, 0)] {
        assert_eq!(yuv_to_rgba(a, b, c), by_floats(a, b, c));
    }
}

#[test]
fn nv12_picture_becomes_rgba() {
    // 2 by 2 picture, pitch 4: two luma rows, one chroma row.
    let nv12 = [16u8, 235, 0, 0, 128, 81, 0, 0, 90, 240, 0, 0];
    let mut frame = RgbaFrame::new(2, 2);
    nv12_to_rgba(&nv12, 4, &mut frame);
    assert_eq!(frame.get_pixel(0, 0), yuv_to_rgba(16, 90, 240));
    assert_eq!(frame.get_pixel(1, 0), yuv_to_rgba(235, 90, 240));
    assert_eq!(frame.get_pixel(0, 1), yuv_to_rgba(128, 90, 240));
    assert_eq!(frame.get_pixel(1, 1), [255, 0, 0, 255]);
}

#[test]
fn missing_chroma_is_neutral() {
    let nv12 = [16u8, 235, 128, 81];
    let mut frame = RgbaFrame::new(2, 2);
    nv12_to_rgba(&nv12, 2, &mut frame);
    assert_eq!(frame.get_pixel(0, 0), [0, 0, 0, 255]);
    assert_eq!(frame.get_pixel(1, 0), [255, 255, 255, 255]);
    assert_eq!(frame.get_pixel(0, 1), [130, 130, 130, 255]);
    assert_eq!(frame.get_pixel(1, 1), yuv_to_rgba(81, 128, 128));
}

#[test]
fn new_decoder_expects_640_by_480() {
    let decoder = NvdecDecoder::new();
    assert_eq!((decoder.width(), decoder.height()), (640, 480));
    assert_eq!(decoder.frame_count(), 0);
    assert!(!decoder.is_initialized());
    assert!(decoder.can_answer());
}

#[test]
fn first_keyframe_without_parameter_sets_asks_for_a_decoder() {
    let mut decoder = NvdecDecoder::new();
    let plan = decoder.begin_frame(&[0, 0, 0, 1, 0x26, 1, 2, 3]);
    assert_eq!(
        plan,
        FramePlan {
            is_keyframe: true,
            has_parameter_sets: false,
            default_format: Some((640, 480)),
            feed_parser: false,
            end_of_stream: true,
        }
    );
    assert_eq!(decoder.frame_count(), 1);
    let plan = decoder.begin_frame(&[0, 0, 0, 1, 0x26, 1, 2, 3]);
    assert_eq!(plan.default_format, None);
    assert!(!plan.end_of_stream);
    assert!(plan.is_keyframe);
    assert_eq!(decoder.frame_count(), 2);
}

#[test]
fn parameter_sets_make_a_keyframe_and_need_no_default() {
    let mut decoder = NvdecDecoder::new();
    decoder.mark_initialized();
    let plan = decoder.begin_frame(&[0, 0, 1, 0x42, 9, 9, 0, 0, 1, 0x02, 1]);
    assert_eq!(
        plan,
        FramePlan {
            is_keyframe: true,
            has_parameter_sets: true,
            default_format: None,
            feed_parser: true,
            end_of_stream: true,
        }
    );
}

#[test]
fn trailing_picture_is_no_keyframe() {
    let mut decoder = NvdecDecoder::new();
    let plan = decoder.begin_frame(&[0, 0, 1, 0x02, 1, 2, 3]);
    assert!(!plan.is_keyframe);
    assert!(!plan.has_parameter_sets);
    assert_eq!(plan.default_format, None);
    let plan = decoder.begin_frame(&[1, 2, 3]);
    assert!(!plan.is_keyframe);
}

#[test]
fn sequence_of_the_same_size_needs_a_decoder_once() {
    let mut decoder = NvdecDecoder::new();
    let action = decoder.on_video_sequence(640, 480);
    assert_eq!(action, SequenceAction { destroy_decoder: false, create_decoder: true });
    decoder.decoder_created();
    let action = decoder.on_video_sequence(640, 480);
    assert_eq!(action, SequenceAction { destroy_decoder: false, create_decoder: false });
}

#[test]
fn sequence_of_another_size_replaces_the_decoder() {
    let mut decoder = NvdecDecoder::new();
    decoder.on_video_sequence(640, 480);
    decoder.decoder_created();
    let action = decoder.on_video_sequence(1280, 720);
    assert_eq!(action, SequenceAction { destroy_decoder: true, create_decoder: true });
    assert_eq!((decoder.width(), decoder.height()), (1280, 720));
    // the decoder that went is forgotten until a new one is reported
    let action = decoder.on_video_sequence(1280, 720);
    assert_eq!(action, SequenceAction { destroy_decoder: false, create_decoder: true });
}

#[test]
fn keyframe_with_a_decoder_asks_for_no_default() {
    let mut decoder = NvdecDecoder::new();
    decoder.on_video_sequence(640, 480);
    decoder.decoder_created();
    let plan = decoder.begin_frame(&[0, 0, 0, 1, 0x26, 1, 2, 3]);
    assert!(plan.is_keyframe);
    assert_eq!(plan.default_format, None);
}

#[test]
fn default_format_falls_back_where_a_side_is_zero() {
    let mut decoder = NvdecDecoder::new();
    decoder.on_video_sequence(0, 720);
    let plan = decoder.begin_frame(&[0, 0, 0, 1, 0x28, 1, 2, 3]);
    assert_eq!(plan.default_format, Some((640, 720)));
}

#[test]
fn answer_is_the_last_picture_until_one_is_decoded() {
    let mut decoder = NvdecDecoder::new();
    decoder.begin_frame(&[0, 0, 1, 0x02, 1]);
    let frame = decoder.finish_frame().unwrap();
    assert_eq!(frame.dimensions(), (640, 480));
    assert_eq!(frame.get_pixel(10, 10), [0, 0, 0, 0]);
}

#[test]
fn no_answer_while_the_size_is_unknown() {
    let mut decoder = NvdecDecoder::new();
    decoder.on_video_sequence(0, 0);
    assert!(decoder.can_answer());
    assert!(decoder.finish_frame().is_none());
}

#[test]
fn decoded_pictures_are_answered_in_order() {
    let mut decoder = NvdecDecoder::new();
    decoder.mark_initialized();
    decoder.on_video_sequence(2, 2);
    let first = [16u8, 16, 16, 16, 128, 128];
    let second = [235u8, 235, 235, 235, 128, 128];
    assert!(decoder.can_store(first.len(), 2));
    decoder.store_picture(&first, 2);
    decoder.store_picture(&second, 2);
    let a = decoder.finish_frame().unwrap();
    assert_eq!(a.dimensions(), (2, 2));
    assert_eq!(a.get_pixel(1, 1), [0, 0, 0, 255]);
    let b = decoder.finish_frame().unwrap();
    assert_eq!(b.get_pixel(0, 0), [255, 255, 255, 255]);
    // the queue is empty: the last picture decoded stands in
    let c = decoder.finish_frame().unwrap();
    assert_eq!(c.get_pixel(0, 1), [255, 255, 255, 255]);
}

#[test]
fn queue_is_left_alone_without_a_parser() {
    let mut decoder = NvdecDecoder::new();
    decoder.on_video_sequence(2, 2);
    decoder.store_picture(&[16u8, 16, 16, 16, 128, 128], 2);
    decoder.store_picture(&[235u8, 235, 235, 235, 128, 128], 2);
    let a = decoder.finish_frame().unwrap();
    assert_eq!(a.get_pixel(0, 0), [255, 255, 255, 255]);
    decoder.mark_initialized();
    let b = decoder.finish_frame().unwrap();
    assert_eq!(b.get_pixel(0, 0), [0, 0, 0, 255]);
}

#[test]
fn can_store_tells_readable_pictures() {
    let mut decoder = NvdecDecoder::new();
    decoder.on_video_sequence(4, 2);
    assert!(decoder.can_store(8, 4));
    assert!(decoder.can_store(12, 8));
    assert!(!decoder.can_store(7, 4));
    assert!(!decoder.can_store(11, 8));
    assert!(!decoder.can_store(100, usize::MAX));
    decoder.on_video_sequence(0, 2);
    assert!(decoder.can_store(0, 4));
}
