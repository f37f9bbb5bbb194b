use moq_x265::annexb::parse_nal_units;
use moq_x265::decoder::extract_resolution_from_sps;
use moq_x265::decoder::unit_type;

fn units(data: &[u8]) -> Vec<Vec<u8>> {
    parse_nal_units(data).into_iter().map(|u| u.to_vec()).collect()
}

#[test]
fn empty_stream_has_no_units() {
    assert!(units(&[]).is_empty());
}

#[test]
fn stream_without_start_code_has_no_units() {
    assert!(units(&[1, 2, 3, 4, 5]).is_empty());
    assert!(units(&[0, 0, 2, 0, 0, 3]).is_empty());
}

#[test]
fn three_byte_start_code() {
    assert_eq!(units(&[0, 0, 1, 0x40, 0x01]), vec![vec![0x40, 0x01]]);
}

#[test]
fn four_byte_start_code() {
    assert_eq!(units(&[0, 0, 0, 1, 0x42, 0xAA]), vec![vec![0x42, 0xAA]]);
}

#[test]
fn two_units_are_split_at_the_second_start_code() {
    assert_eq!(
        units(&[0, 0, 1, 1, 2, 0, 0, 1, 3, 4]),
        vec![vec![1, 2], vec![3, 4]]
    );
}

#[test]
fn unit_before_a_four_byte_start_code_ends_at_its_first_zero() {
    assert_eq!(
        units(&[0, 0, 1, 1, 2, 0, 0, 0, 1, 3, 4]),
        vec![vec![1, 2], vec![3, 4]]
    );
}

#[test]
fn bytes_before_the_first_start_code_are_dropped() {
    assert_eq!(units(&[9, 9, 0, 0, 1, 7]), vec![vec![7]]);
}

#[test]
fn empty_unit_between_two_start_codes_is_skipped() {
    assert_eq!(units(&[0, 0, 1, 0, 0, 1, 8]), vec![vec![8]]);
}

#[test]
fn start_code_at_the_end_is_payload() {
    assert_eq!(units(&[0, 0, 1, 5, 0, 0, 1]), vec![vec![5, 0, 0, 1]]);
    assert_eq!(units(&[0, 0, 1, 5, 0, 0, 0, 1]), vec![vec![5, 0, 0, 0, 1]]);
}

#[test]
fn start_code_without_a_byte_after_it_is_none() {
    assert!(units(&[0, 0, 1]).is_empty());
    assert!(units(&[0, 0, 0, 1]).is_empty());
    assert!(units(&[7, 0, 0, 0, 1]).is_empty());
}

#[test]
fn start_code_with_one_byte_after_it() {
    assert_eq!(units(&[1, 0, 0, 1, 9]), vec![vec![9]]);
    assert_eq!(units(&[0, 0, 0, 1, 9]), vec![vec![9]]);
}

#[test]
fn units_borrow_from_the_stream() {
    let data = [0u8, 0, 1, 0x26, 1, 2, 3];
    let found = parse_nal_units(&data);
    assert_eq!(found.len(), 1);
    assert_eq!(found[0].as_ptr(), data[3..].as_ptr());
    assert_eq!(found[0].len(), 4);
}

#[test]
fn unit_type_is_six_bits_after_the_first() {
    assert_eq!(unit_type(&[0x40, 0x01]), 32);
    assert_eq!(unit_type(&[0x42]), 33);
    assert_eq!(unit_type(&[0x44]), 34);
    assert_eq!(unit_type(&[0x26]), 19);
    assert_eq!(unit_type(&[0x02]), 1);
    assert_eq!(unit_type(&[0xFF]), 63);
    assert_eq!(unit_type(&[0x81]), 0);
}

#[test]
fn short_sps_has_no_resolution() {
    assert_eq!(extract_resolution_from_sps(&[]), None);
    assert_eq!(extract_resolution_from_sps(&[0x42; 19]), None);
    assert_eq!(extract_resolution_from_sps(&[0x42; 20]), None);
}

#[test]
fn long_sps_stands_for_640_by_480() {
    assert_eq!(extract_resolution_from_sps(&[0x42; 21]), Some((640, 480)));
    assert_eq!(extract_resolution_from_sps(&[0u8; 100]), Some((640, 480)));
}

#[test]
fn splitting_undoes_framing() {
    let wanted: Vec<Vec<u8>> = vec![
        vec![0x40, 0x01, 0x0c],
        vec![0x42, 0x00, 0x01, 0x00, 0x02],
        vec![0x26],
        vec![0x02, 0xff, 0x00, 0x80],
    ];
    let mut data = Vec::new();
    for unit in &wanted {
        data.extend_from_slice(&[0, 0, 0, 1]);
        data.extend_from_slice(unit);
    }
    assert_eq!(units(&data), wanted);
}

#[test]
fn unit_that_ends_in_zero_loses_it_to_a_short_start_code() {
    let data = [0u8, 0, 1, 7, 0, 0, 0, 1, 8];
    assert_eq!(units(&data), vec![vec![7], vec![8]]);
    // behind a long start code the zero stays
    let data = [0u8, 0, 0, 1, 7, 0, 0, 0, 0, 1, 8];
    assert_eq!(units(&data), vec![vec![7, 0], vec![8]]);
}
