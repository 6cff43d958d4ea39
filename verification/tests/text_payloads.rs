use gpt_for_uds::error::ProtocolError;
use gpt_for_uds::frame::decode_frame;
use gpt_for_uds::text::{decode_text, encode_text};

#[test]
fn text_is_framed_as_its_utf8_bytes() {
    assert_eq!(encode_text("He").unwrap(), vec![0, 0, 0, 2, b'H', b'e']);
    assert_eq!(encode_text("").unwrap(), vec![0, 0, 0, 0]);
    // The prefix counts bytes, not characters.
    assert_eq!(encode_text("é").unwrap(), vec![0, 0, 0, 2, 0xc3, 0xa9]);
}

#[test]
fn text_comes_back_through_a_frame() {
    for text in ["", "hi", "grüße", "日本語", "a\nb\u{0}c", "🙂"] {
        let wire = encode_text(text).unwrap();
        let (payload, used) = decode_frame(&wire).unwrap();
        assert_eq!(used, wire.len());
        assert_eq!(decode_text(payload), Ok(text.to_string()));
    }
}

#[test]
fn bytes_that_are_not_utf8_are_refused_not_repaired() {
    assert_eq!(decode_text(vec![0xff]), Err(ProtocolError::InvalidUtf8));
    assert_eq!(decode_text(vec![b'a', 0xc3]), Err(ProtocolError::InvalidUtf8));
    assert_eq!(decode_text(vec![0xed, 0xa0, 0x80]), Err(ProtocolError::InvalidUtf8));
    assert_eq!(decode_text(vec![0xc0, 0xaf]), Err(ProtocolError::InvalidUtf8));
    assert_eq!(decode_text(vec![b'o', b'k']), Ok("ok".to_string()));
}
