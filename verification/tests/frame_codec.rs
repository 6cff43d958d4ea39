use gpt_for_uds::error::IoError;
use gpt_for_uds::frame::{decode_frame, decode_frames, encode_frame, read_message_length};

#[test]
fn encode_prefixes_the_length_big_endian() {
    let wire = encode_frame(b"hello").unwrap();
    assert_eq!(wire, vec![0, 0, 0, 5, b'h', b'e', b'l', b'l', b'o']);
}

#[test]
fn encode_of_nothing_is_a_bare_prefix() {
    assert_eq!(encode_frame(b"").unwrap(), vec![0, 0, 0, 0]);
}

#[test]
fn length_is_read_most_significant_byte_first() {
    assert_eq!(read_message_length(&[0x00, 0x00, 0x01, 0x0b]), Ok(267));
    assert_eq!(read_message_length(&[0x01, 0x02, 0x03, 0x04]), Ok(0x0102_0304));
    assert_eq!(read_message_length(&[0, 0, 1]), Err(IoError::ShortHeader));
}

#[test]
fn decode_gives_back_what_encode_took() {
    let payload: Vec<u8> = (0..300u32).map(|i| (i % 251) as u8).collect();
    let wire = encode_frame(&payload).unwrap();
    assert_eq!(wire[..4], [0, 0, 1, 44]);
    assert_eq!(decode_frame(&wire), Ok((payload, 304)));
}

#[test]
fn decode_fails_on_a_short_read() {
    assert_eq!(decode_frame(&[0, 0]), Err(IoError::ShortHeader));
    assert_eq!(decode_frame(&[0, 0, 0, 3, 1, 2]), Err(IoError::ShortPayload));
    assert_eq!(decode_frame(&[0, 0, 0, 2, 1, 2, 9]), Ok((vec![1, 2], 6)));
}

#[test]
fn round_trip_over_many_lengths() {
    for len in [0usize, 1, 2, 3, 4, 5, 255, 256, 257, 65_535, 65_536, 70_000] {
        let payload: Vec<u8> = (0..len).map(|i| (i * 7 % 256) as u8).collect();
        let wire = encode_frame(&payload).unwrap();
        assert_eq!(wire.len(), len + 4);
        assert_eq!(read_message_length(&wire[..4]), Ok(len));
        assert_eq!(decode_frame(&wire), Ok((payload, len + 4)));
    }
}

#[test]
fn prefix_bytes_of_a_large_length() {
    let payload = vec![0xabu8; 0x01_02_03];
    let wire = encode_frame(&payload).unwrap();
    assert_eq!(wire[..4], [0x00, 0x01, 0x02, 0x03]);
}

#[test]
fn decode_takes_the_length_from_the_prefix_alone() {
    // The payload looks like another prefix; it is still only payload.
    let wire = [0, 0, 0, 4, 0, 0, 0, 9, 7, 7];
    assert_eq!(decode_frame(&wire), Ok((vec![0, 0, 0, 9], 8)));
    // A prefix may announce more than any peer will send: that is a short read.
    assert_eq!(decode_frame(&[0xff, 0xff, 0xff, 0xff, 1]), Err(IoError::ShortPayload));
    assert_eq!(read_message_length(&[0xff, 0xff, 0xff, 0xff]), Ok(0xffff_ffff));
}

#[test]
fn frames_follow_each_other_without_gaps() {
    let mut wire = encode_frame(b"He").unwrap();
    wire.extend(encode_frame(b"llo").unwrap());
    let (first, used) = decode_frame(&wire).unwrap();
    let (second, rest) = decode_frame(&wire[used..]).unwrap();
    assert_eq!(first, b"He".to_vec());
    assert_eq!(second, b"llo".to_vec());
    assert_eq!(used + rest, wire.len());
}

#[test]
fn a_stream_decodes_to_its_payloads_in_order() {
    let mut wire = Vec::new();
    for payload in [&b"He"[..], &b""[..], &b"llo"[..]] {
        wire.extend(encode_frame(payload).unwrap());
    }
    assert_eq!(decode_frames(&wire), Ok(vec![b"He".to_vec(), Vec::new(), b"llo".to_vec()]));
    assert_eq!(decode_frames(&[]), Ok(Vec::new()));
}

#[test]
fn a_stream_may_end_inside_a_prefix_but_not_inside_a_payload() {
    assert_eq!(decode_frames(&[0, 0, 0, 1, 7, 0, 0]), Ok(vec![vec![7]]));
    assert_eq!(decode_frames(&[0, 0, 0]), Ok(Vec::new()));
    assert_eq!(decode_frames(&[0, 0, 0, 1, 7, 0, 0, 0, 2, 9]), Err(IoError::ShortPayload));
    assert_eq!(decode_frames(&[0, 0, 0, 5, 1, 2, 3, 4]), Err(IoError::ShortPayload));
}
