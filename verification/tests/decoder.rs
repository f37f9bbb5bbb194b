use moq_x265::codec::Decoder;
use moq_x265::decoder::X265Decoder;
use moq_x265::nvenc::NvencEncoder;

fn long_sps() -> Vec<u8> {
    let mut sps = vec![0x42u8, 0x01];
    sps.extend(std::iter::repeat(0x55).take(30));
    sps
}

fn stream(units: &[&[u8]]) -> Vec<u8> {
    let mut data = Vec::new();
    for unit in units {
        data.extend_from_slice(&[0, 0, 0, 1]);
        data.extend_from_slice(unit);
    }
    data
}

#[test]
fn new_decoder_knows_nothing() {
    let decoder = X265Decoder::new();
    assert_eq!(decoder.width(), 0);
    assert_eq!(decoder.height(), 0);
    assert!(decoder.vps().is_none());
    assert!(decoder.sps().is_none());
    assert!(decoder.pps().is_none());
}

#[test]
fn empty_input_gives_no_frame_and_changes_nothing() {
    let mut decoder = X265Decoder::new();
    assert!(decoder.decode_frame(&[]).unwrap().is_none());
    assert_eq!(decoder.width(), 0);
    assert!(decoder.sps().is_none());
}

#[test]
fn no_frame_before_a_resolution_is_known() {
    let mut decoder = X265Decoder::new();
    let data = stream(&[&[0x40, 0x01, 0x0c], &[0x44, 0x01], &[0x26, 0x01, 0x02]]);
    assert!(decoder.decode_frame(&data).unwrap().is_none());
    assert_eq!(decoder.vps(), Some(&vec![0x40, 0x01, 0x0c]));
    assert_eq!(decoder.pps(), Some(&vec![0x44, 0x01]));
    assert!(decoder.sps().is_none());
    assert_eq!((decoder.width(), decoder.height()), (0, 0));
}

#[test]
fn short_sps_is_kept_but_announces_no_resolution() {
    let mut decoder = X265Decoder::new();
    let sps = [0x42u8; 20];
    let data = stream(&[&sps]);
    assert!(decoder.decode_frame(&data).unwrap().is_none());
    assert_eq!(decoder.sps(), Some(&sps.to_vec()));
    assert_eq!((decoder.width(), decoder.height()), (0, 0));
}

#[test]
fn three_units_give_a_red_frame() {
    let mut decoder = X265Decoder::new();
    let sps = long_sps();
    let data = stream(&[&[0x40, 0x01], &sps, &[0x44, 0x01]]);
    let frame = decoder.decode_frame(&data).unwrap().unwrap();
    assert_eq!(frame.dimensions(), (640, 480));
    assert_eq!(frame.get_pixel(0, 0), [255, 0, 0, 255]);
    assert_eq!(frame.get_pixel(639, 479), [255, 0, 0, 255]);
    assert_eq!(frame.get_pixel(320, 240), [255, 0, 0, 255]);
    assert_eq!((decoder.width(), decoder.height()), (640, 480));
    assert_eq!(decoder.sps(), Some(&sps));
}

#[test]
fn one_unit_gives_green_and_two_give_blue() {
    let mut decoder = X265Decoder::new();
    let sps = long_sps();
    let frame = decoder.decode_frame(&stream(&[&sps])).unwrap().unwrap();
    assert_eq!(frame.get_pixel(5, 5), [0, 255, 0, 255]);
    let frame = decoder
        .decode_frame(&stream(&[&[0x02, 0x01], &[0x02, 0x02]]))
        .unwrap()
        .unwrap();
    assert_eq!(frame.dimensions(), (640, 480));
    assert_eq!(frame.get_pixel(5, 5), [0, 0, 255, 255]);
}

#[test]
fn input_without_units_gives_red_once_the_size_is_known() {
    let mut decoder = X265Decoder::new();
    decoder.decode_frame(&stream(&[&long_sps()])).unwrap();
    let frame = decoder.decode_frame(&[1, 2, 3]).unwrap().unwrap();
    assert_eq!(frame.get_pixel(0, 0), [255, 0, 0, 255]);
}

#[test]
fn later_parameter_sets_replace_earlier_ones() {
    let mut decoder = X265Decoder::new();
    let data = stream(&[&[0x40, 1], &[0x40, 2], &[0x44, 3]]);
    decoder.decode_frame(&data).unwrap();
    assert_eq!(decoder.vps(), Some(&vec![0x40, 2]));
    decoder.decode_frame(&stream(&[&[0x44, 9, 9]])).unwrap();
    assert_eq!(decoder.vps(), Some(&vec![0x40, 2]));
    assert_eq!(decoder.pps(), Some(&vec![0x44, 9, 9]));
}

#[test]
fn decodes_the_parameter_sets_of_the_hardware_encoder() {
    let encoder = NvencEncoder::new(640, 480, 1_000_000, 30, 30);
    let mut decoder = X265Decoder::new();
    let frame = decoder.decode_frame(encoder.headers()).unwrap().unwrap();
    assert_eq!(frame.dimensions(), (640, 480));
    assert_eq!(frame.get_pixel(1, 1), [255, 0, 0, 255]);
    assert_eq!(decoder.vps().unwrap().len(), 18);
    assert_eq!(decoder.sps().unwrap().len(), 32);
    assert_eq!(decoder.pps(), Some(&vec![0x44, 0x01, 0xc1, 0x73, 0xd1, 0x89]));
}

#[test]
fn decode_through_the_trait_is_decode_frame() {
    let mut decoder: Box<dyn Decoder> = Box::new(X265Decoder::new());
    assert!(decoder.decode(&[]).unwrap().is_none());
    let frame = decoder.decode(&stream(&[&long_sps()])).unwrap().unwrap();
    assert_eq!(frame.get_pixel(0, 0), [0, 255, 0, 255]);
}
