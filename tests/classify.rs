use grib_stream::classify::{has_wind_parameter, is_wind_message, section_layout_ok};

#[test]
fn u_and_v_components_are_wind() {
    assert!(has_wind_parameter(&[(Some(0), Some(0)), (Some(2), Some(2))]));
    assert!(has_wind_parameter(&[(Some(2), Some(3))]));
}

#[test]
fn other_parameters_are_not_wind() {
    assert!(!has_wind_parameter(&[]));
    assert!(!has_wind_parameter(&[(Some(2), Some(4)), (Some(0), Some(2)), (Some(3), Some(3))]));
    assert!(!has_wind_parameter(&[(None, Some(2)), (Some(2), None)]));
}

#[test]
fn undecodable_message_is_not_wind() {
    assert!(!is_wind_message(b"not a grib message at all"));
    let mut framed = b"GRIB\0\0\0\x02".to_vec();
    framed.extend_from_slice(&20u64.to_be_bytes());
    framed.extend_from_slice(b"7777");
    assert!(!is_wind_message(&framed));
}

/// Indicator section of a GRIB edition 2 message of `total` bytes.
fn indicator(total: u64) -> Vec<u8> {
    let mut m = b"GRIB\0\0\0\x02".to_vec();
    m.extend_from_slice(&total.to_be_bytes());
    m
}

#[test]
fn section_of_length_zero_is_not_wind() {
    let mut m = indicator(25);
    m.extend_from_slice(&[0, 0, 0, 0, 1]);
    m.extend_from_slice(b"7777");
    assert_eq!(m.len(), 25);
    assert!(!section_layout_ok(&m));
    assert!(!is_wind_message(&m));
}

#[test]
fn section_past_the_end_is_refused() {
    let mut m = indicator(30);
    m.extend_from_slice(&[0, 0, 0, 100, 7, 0]);
    m.extend_from_slice(&[0; 4]);
    m.extend_from_slice(b"7777");
    assert_eq!(m.len(), 30);
    assert!(!section_layout_ok(&m));
}

#[test]
fn bitmap_section_needs_six_bytes() {
    let mut m = indicator(25);
    m.extend_from_slice(&[0, 0, 0, 5, 6]);
    m.extend_from_slice(b"7777");
    assert!(!section_layout_ok(&m));
    let mut ok = indicator(26);
    ok.extend_from_slice(&[0, 0, 0, 6, 6, 255]);
    ok.extend_from_slice(b"7777");
    assert!(section_layout_ok(&ok));
}

#[test]
fn sound_layout_is_accepted() {
    let mut m = indicator(41);
    m.extend_from_slice(&[0, 0, 0, 21, 1]);
    m.extend_from_slice(&[0; 16]);
    m.extend_from_slice(b"7777");
    assert_eq!(m.len(), 41);
    assert!(section_layout_ok(&m));
    assert!(!is_wind_message(&m));
}

#[test]
fn wrong_total_length_is_refused() {
    let mut m = indicator(99);
    m.extend_from_slice(b"7777");
    assert!(!section_layout_ok(&m));
    assert!(!section_layout_ok(b"GRIB"));
}
