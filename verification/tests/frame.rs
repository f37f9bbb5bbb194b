use moq_x265::encoded::Timestamp;
use moq_x265::error::X265Error;
use moq_x265::frame::RgbaFrame;

#[test]
fn new_frame_is_transparent_black() {
    let frame = RgbaFrame::new(3, 2);
    assert_eq!(frame.dimensions(), (3, 2));
    assert_eq!(frame.width(), 3);
    assert_eq!(frame.height(), 2);
    for y in 0..2 {
        for x in 0..3 {
            assert_eq!(frame.get_pixel(x, y), [0, 0, 0, 0]);
        }
    }
}

#[test]
fn empty_frame_has_no_pixels() {
    let frame = RgbaFrame::new(0, 5);
    assert_eq!(frame.dimensions(), (0, 5));
    assert_eq!(frame.pixel(0, 0), None);
}

#[test]
fn filled_frame_is_one_colour() {
    let frame = RgbaFrame::filled(4, 3, [10, 20, 30, 40]);
    assert_eq!(frame.dimensions(), (4, 3));
    for y in 0..3 {
        for x in 0..4 {
            assert_eq!(frame.get_pixel(x, y), [10, 20, 30, 40]);
        }
    }
}

#[test]
fn put_pixel_sets_one_pixel_only() {
    let mut frame = RgbaFrame::filled(3, 3, [1, 1, 1, 1]);
    frame.put_pixel(2, 1, [9, 8, 7, 6]);
    for y in 0..3 {
        for x in 0..3 {
            let expected = if (x, y) == (2, 1) { [9, 8, 7, 6] } else { [1, 1, 1, 1] };
            assert_eq!(frame.get_pixel(x, y), expected);
        }
    }
}

#[test]
fn pixel_is_none_outside_the_frame() {
    let mut frame = RgbaFrame::new(2, 2);
    frame.put_pixel(1, 1, [5, 6, 7, 8]);
    assert_eq!(frame.pixel(1, 1), Some([5, 6, 7, 8]));
    assert_eq!(frame.pixel(0, 1), Some([0, 0, 0, 0]));
    assert_eq!(frame.pixel(2, 0), None);
    assert_eq!(frame.pixel(0, 2), None);
    assert_eq!(frame.pixel(u32::MAX, u32::MAX), None);
}

#[test]
fn duplicate_is_a_copy_of_its_own() {
    let mut frame = RgbaFrame::filled(2, 1, [3, 3, 3, 3]);
    let copy = frame.duplicate();
    frame.put_pixel(0, 0, [4, 4, 4, 4]);
    assert_eq!(copy.dimensions(), (2, 1));
    assert_eq!(copy.get_pixel(0, 0), [3, 3, 3, 3]);
    assert_eq!(copy.get_pixel(1, 0), [3, 3, 3, 3]);
    assert_eq!(frame.get_pixel(0, 0), [4, 4, 4, 4]);
}

#[test]
fn timestamp_from_millis() {
    assert_eq!(Timestamp::from_millis(0), Timestamp { secs: 0, nanos: 0 });
    assert_eq!(Timestamp::from_millis(33), Timestamp { secs: 0, nanos: 33_000_000 });
    assert_eq!(Timestamp::from_millis(1999), Timestamp { secs: 1, nanos: 999_000_000 });
    assert_eq!(
        Timestamp::from_millis(u64::MAX),
        Timestamp { secs: 18_446_744_073_709_551, nanos: 615_000_000 }
    );
    assert_eq!(Timestamp::from_millis(2500).as_secs(), 2);
}

#[test]
fn timestamp_from_micros() {
    assert_eq!(Timestamp::from_micros(1), Timestamp { secs: 0, nanos: 1000 });
    assert_eq!(Timestamp::from_micros(2_000_001), Timestamp { secs: 2, nanos: 1000 });
}

#[test]
fn timestamp_order_and_difference() {
    let a = Timestamp { secs: 1, nanos: 0 };
    let b = Timestamp { secs: 0, nanos: 999_999_999 };
    assert!(b.is_less_than(&a));
    assert!(!a.is_less_than(&b));
    assert!(!a.is_less_than(&a));
    assert_eq!(a.checked_sub(&b), Some(Timestamp { secs: 0, nanos: 1 }));
    assert_eq!(b.checked_sub(&a), None);
    assert_eq!(a.checked_sub(&a), Some(Timestamp { secs: 0, nanos: 0 }));
    let c = Timestamp { secs: 5, nanos: 700 };
    let d = Timestamp { secs: 2, nanos: 300 };
    assert_eq!(c.checked_sub(&d), Some(Timestamp { secs: 3, nanos: 400 }));
}

#[test]
fn error_messages() {
    let text = |e: X265Error| e.message();
    assert_eq!(
        text(X265Error::EncoderInitFailed("no memory".to_string())),
        "Failed to initialize encoder: no memory"
    );
    assert_eq!(
        text(X265Error::EncodeFailed("bad frame".to_string())),
        "Failed to encode frame: bad frame"
    );
    assert_eq!(
        text(X265Error::DecoderInitFailed("x".to_string())),
        "Failed to initialize decoder: x"
    );
    assert_eq!(
        text(X265Error::DecodeFailed(String::new())),
        "Failed to decode frame: "
    );
    assert_eq!(
        text(X265Error::HardwareAccelerationNotAvailable("no GPU".to_string())),
        "Hardware acceleration not available: no GPU"
    );
}
