//! Text on the wire: every payload, in both directions, is UTF-8.

use vstd::prelude::*;
use vstd::utf8::{decode_utf8, encode_utf8, valid_utf8};

use crate::error::ProtocolError;
use crate::frame::{
    be_value, encode_frame, frame_encoding, frame_payload, holds_frame, lemma_decode_encode,
};

verus! {

/// Calls `String::from_utf8`. Trusted: it succeeds exactly on well-formed
/// UTF-8, and the string it gives then holds the characters that the bytes
/// encode.
#[verifier::external_body]
fn string_from_utf8(bytes: Vec<u8>) -> (r: Option<String>)
    ensures
        valid_utf8(bytes@) ==> r is Some && r->Some_0@ == decode_utf8(bytes@),
        !valid_utf8(bytes@) ==> r is None,
{
    String::from_utf8(bytes).ok()
}

/// Reads a payload as text. Nothing is repaired: bytes that are not UTF-8 are
/// refused.
pub fn decode_text(payload: Vec<u8>) -> (r: Result<String, ProtocolError>)
    ensures
        valid_utf8(payload@) ==> r is Ok && r->Ok_0@ == decode_utf8(payload@),
        !valid_utf8(payload@) ==> r == Err::<String, ProtocolError>(ProtocolError::InvalidUtf8),
{
    match string_from_utf8(payload) {
        Some(text) => Ok(text),
        None => Err(ProtocolError::InvalidUtf8),
    }
}

/// A text as one frame: the length of its UTF-8 form, then that form.
pub open spec fn text_frame(text: Seq<char>) -> Seq<u8> {
    frame_encoding(encode_utf8(text))
}

/// Frames a text. Only a text whose UTF-8 form outgrows a 32-bit length is
/// refused.
pub fn encode_text(text: &str) -> (r: Result<Vec<u8>, ProtocolError>)
    ensures
        encode_utf8(text@).len() <= u32::MAX ==> r is Ok && r->Ok_0@ == text_frame(text@),
        encode_utf8(text@).len() > u32::MAX ==> r == Err::<Vec<u8>, ProtocolError>(
            ProtocolError::PayloadTooLarge,
        ),
{
    encode_frame(text.as_bytes())
}

/// A text comes back through a frame: the payload of its frame is
/// well-formed UTF-8 and reads as the same text, and the frame holds nothing
/// else.
pub proof fn lemma_text_round_trip(text: Seq<char>)
    requires
        encode_utf8(text).len() <= u32::MAX,
    ensures
        holds_frame(text_frame(text)),
        4 + be_value(text_frame(text)) == text_frame(text).len(),
        valid_utf8(frame_payload(text_frame(text))),
        decode_utf8(frame_payload(text_frame(text))) == text,
{
    lemma_decode_encode(encode_utf8(text));
    vstd::utf8::encode_utf8_valid_utf8(text);
    vstd::utf8::encode_utf8_decode_utf8(text);
}

} // verus!
