use pusu::frame::{decode, encode, FrameError, FramePart};

fn short(part: FramePart, expected: u64, got: u64) -> FrameError {
    FrameError::Malformed { part, expected, got }
}

#[test]
fn encode_writes_big_endian_prefixes() {
    let frame = encode("ab", &[1, 2, 3]);
    assert_eq!(frame, vec![0, 2, b'a', b'b', 0, 0, 0, 3, 1, 2, 3]);
}

#[test]
fn encode_of_nothing_is_six_zero_bytes() {
    assert_eq!(encode("", &[]), vec![0, 0, 0, 0, 0, 0]);
}

#[test]
fn encode_splits_lengths_over_their_bytes() {
    let topic = "t".repeat(0x0102);
    let payload = vec![7u8; 0x01_02_03];
    let frame = encode(&topic, &payload);
    assert_eq!(frame.len(), 2 + 0x0102 + 4 + 0x01_02_03);
    assert_eq!(&frame[..2], &[0x01, 0x02]);
    assert_eq!(&frame[2 + 0x0102..2 + 0x0102 + 4], &[0x00, 0x01, 0x02, 0x03]);
}

#[test]
fn frame_round_trip() {
    let payload: Vec<u8> = (0..=255).collect();
    for topic in ["", "orders", "user_handler", "caf\u{e9} \u{1f600}"] {
        let frame = encode(topic, &payload);
        assert_eq!(decode(&frame), Ok((topic, &payload[..])));
    }
    assert_eq!(decode(&encode("alerts", &[])), Ok(("alerts", &[][..])));
}

#[test]
fn decode_ignores_what_follows_the_payload() {
    let mut frame = encode("orders", &[9, 8]);
    frame.extend_from_slice(&[1, 1, 1]);
    assert_eq!(decode(&frame), Ok(("orders", &[9u8, 8][..])));
}

#[test]
fn every_truncation_is_refused_as_short() {
    let topic = "orders";
    let payload = [10u8, 20, 30, 40, 50];
    let frame = encode(topic, &payload);
    let total = frame.len() as u64;
    assert_eq!(total, 2 + 6 + 4 + 5);
    for cut in 0..frame.len() {
        let got = cut as u64;
        let expected = if cut < 2 {
            short(FramePart::TopicLength, 2, got)
        } else if cut < 8 {
            short(FramePart::Topic, 8, got)
        } else if cut < 12 {
            short(FramePart::PayloadLength, 12, got)
        } else {
            short(FramePart::Payload, 17, got)
        };
        assert_eq!(decode(&frame[..cut]), Err(expected));
    }
}

#[test]
fn truncation_points_named_one_by_one() {
    let frame = encode("abc", &[1, 2]);
    assert_eq!(decode(&[]), Err(short(FramePart::TopicLength, 2, 0)));
    assert_eq!(decode(&frame[..1]), Err(short(FramePart::TopicLength, 2, 1)));
    assert_eq!(decode(&frame[..4]), Err(short(FramePart::Topic, 5, 4)));
    assert_eq!(decode(&frame[..5]), Err(short(FramePart::PayloadLength, 9, 5)));
    assert_eq!(decode(&frame[..8]), Err(short(FramePart::PayloadLength, 9, 8)));
    assert_eq!(decode(&frame[..10]), Err(short(FramePart::Payload, 11, 10)));
}

#[test]
fn missing_is_the_difference() {
    assert_eq!(short(FramePart::Payload, 17, 12).missing(), 5);
    assert_eq!(short(FramePart::TopicLength, 2, 0).missing(), 2);
    assert_eq!(FrameError::InvalidUtf8.missing(), 0);
}

#[test]
fn invalid_utf8_is_not_a_short_buffer() {
    let frame = [0u8, 2, 0xff, 0xfe, 0, 0, 0, 0];
    assert_eq!(decode(&frame), Err(FrameError::InvalidUtf8));
}

#[test]
fn invalid_utf8_is_found_before_the_payload_is_missed() {
    let frame = [0u8, 1, 0x80];
    assert_eq!(decode(&frame), Err(FrameError::InvalidUtf8));
}

#[test]
fn largest_payload_length_is_read_in_full() {
    let frame = [0u8, 0, 0xff, 0xff, 0xff, 0xff];
    assert_eq!(decode(&frame), Err(short(FramePart::Payload, 6 + 0xffff_ffff, 6)));
}

#[test]
fn topic_longer_than_its_prefix_is_not_read_back() {
    let topic = "a".repeat(0x1_0000);
    let frame = encode(&topic, &[]);
    assert_eq!(frame.len(), 2 + 0x1_0000 + 4);
    assert_eq!(&frame[..2], &[0, 0]);
    assert_eq!(
        decode(&frame),
        Err(short(FramePart::Payload, 6 + 0x6161_6161, frame.len() as u64))
    );
}
