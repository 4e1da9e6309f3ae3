use grib_stream::framer::Grib2StreamParser;

/// A message of `total` bytes: marker, reserved zeros, length, zero body, trailer.
fn message(magic: &[u8; 4], trailer: &[u8; 4], total: usize, fill: u8) -> Vec<u8> {
    let mut m = Vec::new();
    m.extend_from_slice(magic);
    m.extend_from_slice(&[0u8; 4]);
    m.extend_from_slice(&(total as u64).to_be_bytes());
    while m.len() < total - 4 {
        m.push(fill);
    }
    m.extend_from_slice(trailer);
    m
}

fn small_message() -> Vec<u8> {
    message(b"M1M1", b"TR1R", 20, 0)
}

#[test]
fn test_parser_incomplete_message() {
    let mut parser = Grib2StreamParser::new();

    let messages = parser.feed(b"GRIB");
    assert!(messages.is_empty());

    let messages = parser.feed(&[0u8; 12]);
    assert!(messages.is_empty());
}

#[test]
fn test_parser_finds_grib_magic() {
    let mut parser = Grib2StreamParser::new();

    let mut data = vec![0u8; 100];
    data[50..54].copy_from_slice(b"GRIB");
    let messages = parser.feed(&data);

    assert!(messages.is_empty());

    assert!(parser.buffered().starts_with(b"GRIB"));
}

#[test]
fn example_message_in_one_call() {
    let msg = small_message();
    assert_eq!(msg.len(), 20);
    assert_eq!(&msg[8..16], &[0, 0, 0, 0, 0, 0, 0, 0x14]);
    let mut parser = Grib2StreamParser::with_markers(*b"M1M1", *b"TR1R");
    let out = parser.feed(&msg);
    assert_eq!(out, vec![msg]);
    assert!(parser.buffered().is_empty());
}

#[test]
fn example_message_in_three_calls() {
    let msg = small_message();
    let mut parser = Grib2StreamParser::with_markers(*b"M1M1", *b"TR1R");
    assert!(parser.feed(&msg[0..5]).is_empty());
    assert!(parser.feed(&msg[5..12]).is_empty());
    let out = parser.feed(&msg[12..20]);
    assert_eq!(out, vec![msg]);
}

#[test]
fn garbage_between_messages_is_dropped() {
    let msg = small_message();
    let mut data = msg.clone();
    data.extend_from_slice(&[9, 8, 7, 6, 5]);
    data.extend_from_slice(&msg);
    let mut parser = Grib2StreamParser::with_markers(*b"M1M1", *b"TR1R");
    let out = parser.feed(&data);
    assert_eq!(out, vec![msg.clone(), msg]);
    assert!(parser.buffered().is_empty());
}

#[test]
fn garbage_before_first_marker_not_emitted() {
    let msg = message(b"GRIB", b"7777", 40, 0xAB);
    let mut data = vec![0x11u8; 33];
    data.extend_from_slice(&msg);
    let mut parser = Grib2StreamParser::new();
    let out = parser.feed(&data);
    assert_eq!(out, vec![msg]);
    assert!(!out[0].contains(&0x11));
}

#[test]
fn oversized_length_drops_marker_and_resumes() {
    let good = message(b"GRIB", b"7777", 24, 1);
    let mut data = Vec::new();
    data.extend_from_slice(b"GRIB");
    data.extend_from_slice(&[0u8; 4]);
    data.extend_from_slice(&1_000_000_001u64.to_be_bytes());
    data.extend_from_slice(&good);
    let mut parser = Grib2StreamParser::new();
    let out = parser.feed(&data);
    assert_eq!(out, vec![good]);
}

#[test]
fn oversized_length_with_nothing_after_keeps_rest() {
    let mut data = Vec::new();
    data.extend_from_slice(b"GRIB");
    data.extend_from_slice(&[0u8; 4]);
    data.extend_from_slice(&u64::MAX.to_be_bytes());
    let mut parser = Grib2StreamParser::new();
    assert!(parser.feed(&data).is_empty());
    assert_eq!(parser.buffered(), data[4..].to_vec());
}

#[test]
fn bad_trailer_is_not_emitted() {
    let mut bad = message(b"GRIB", b"7777", 30, 2);
    let n = bad.len();
    bad[n - 1] = b'8';
    let good = message(b"GRIB", b"7777", 20, 3);
    let mut data = bad.clone();
    data.extend_from_slice(&good);
    let mut parser = Grib2StreamParser::new();
    let out = parser.feed(&data);
    assert_eq!(out, vec![good]);
}

#[test]
fn messages_fed_one_byte_at_a_time() {
    let msgs = vec![
        message(b"GRIB", b"7777", 20, 0),
        message(b"GRIB", b"7777", 57, 0x47),
        message(b"GRIB", b"7777", 21, 0x37),
    ];
    let stream: Vec<u8> = msgs.concat();
    let mut parser = Grib2StreamParser::new();
    let mut out = Vec::new();
    for b in &stream {
        out.extend(parser.feed(&[*b]));
    }
    assert_eq!(out, msgs);
    assert!(parser.buffered().is_empty());
}

#[test]
fn no_marker_keeps_everything() {
    let mut parser = Grib2StreamParser::new();
    assert!(parser.feed(b"abcdefgh").is_empty());
    assert_eq!(parser.buffered(), b"abcdefgh".to_vec());
}

#[test]
fn default_parser_frames_grib() {
    let msg = message(b"GRIB", b"7777", 25, 9);
    let mut parser = Grib2StreamParser::default();
    assert_eq!(parser.feed(&msg), vec![msg]);
    assert_eq!(parser.buffered_len(), 0);
}

#[test]
fn declared_length_zero_stops_without_progress() {
    let mut data = b"xyGRIB".to_vec();
    data.extend_from_slice(&[0u8; 12]);
    let mut parser = Grib2StreamParser::new();
    assert!(parser.feed(&data).is_empty());
    assert_eq!(parser.buffered(), data[2..].to_vec());
}
