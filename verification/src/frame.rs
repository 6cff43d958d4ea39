//! The framing codec: every unit on the wire, in both directions, is a
//! four-byte big-endian length followed by exactly that many bytes.

use byteorder::{BigEndian, ReadBytesExt, WriteBytesExt};
use vstd::prelude::*;

use crate::error::{IoError, ProtocolError};

verus! {

/// The length of a frame's prefix, in bytes.
pub const HEADER_LEN: usize = 4;

/// The longest payload that a frame can carry.
pub const MAX_PAYLOAD_LEN: usize = 0xFFFF_FFFF;

/// The four bytes that stand for `n`, most significant first.
pub open spec fn be_bytes(n: u32) -> Seq<u8> {
    seq![
        (n / 0x100_0000) as u8,
        (n / 0x1_0000 % 0x100) as u8,
        (n / 0x100 % 0x100) as u8,
        (n % 0x100) as u8,
    ]
}

/// The number that the first four bytes of `bytes` stand for, most
/// significant first.
pub open spec fn be_value(bytes: Seq<u8>) -> int
    recommends
        bytes.len() >= 4,
{
    bytes[0] * 0x100_0000 + bytes[1] * 0x1_0000 + bytes[2] * 0x100 + bytes[3]
}

/// A payload as it travels: its length, then its bytes.
pub open spec fn frame_encoding(payload: Seq<u8>) -> Seq<u8>
    recommends
        payload.len() <= u32::MAX,
{
    be_bytes(payload.len() as u32) + payload
}

/// Reading back what `be_bytes` wrote gives the number again.
pub proof fn lemma_be_value_of_be_bytes(n: u32)
    ensures
        be_bytes(n).len() == 4,
        be_value(be_bytes(n)) == n,
{
}

/// The digits of a number written in base 256 are found again by division.
proof fn lemma_base_256_digits(a: int, b: int, c: int, d: int)
    requires
        0 <= a < 0x100,
        0 <= b < 0x100,
        0 <= c < 0x100,
        0 <= d < 0x100,
    ensures
        0 <= a * 0x100_0000 + b * 0x1_0000 + c * 0x100 + d <= u32::MAX,
        (a * 0x100_0000 + b * 0x1_0000 + c * 0x100 + d) / 0x100_0000 == a,
        (a * 0x100_0000 + b * 0x1_0000 + c * 0x100 + d) / 0x1_0000 % 0x100 == b,
        (a * 0x100_0000 + b * 0x1_0000 + c * 0x100 + d) / 0x100 % 0x100 == c,
        (a * 0x100_0000 + b * 0x1_0000 + c * 0x100 + d) % 0x100 == d,
{
    let v = a * 0x100_0000 + b * 0x1_0000 + c * 0x100 + d;
    assert(v / 0x1_0000 == a * 0x100 + b);
    assert(v / 0x100 == a * 0x1_0000 + b * 0x100 + c);
}

/// Four bytes always stand for a number that fits in 32 bits, and writing
/// that number gives the four bytes again.
pub proof fn lemma_be_bytes_of_be_value(bytes: Seq<u8>)
    requires
        bytes.len() == 4,
    ensures
        0 <= be_value(bytes) <= u32::MAX,
        be_bytes(be_value(bytes) as u32) == bytes,
{
    lemma_base_256_digits(bytes[0] as int, bytes[1] as int, bytes[2] as int, bytes[3] as int);
    let back = be_bytes(be_value(bytes) as u32);
    assert(back[0] == bytes[0]);
    assert(back[1] == bytes[1]);
    assert(back[2] == bytes[2]);
    assert(back[3] == bytes[3]);
    assert(back =~= bytes);
}

/// The number that the first four bytes stand for fits in 32 bits.
pub proof fn lemma_be_value_fits(bytes: Seq<u8>)
    requires
        bytes.len() >= 4,
    ensures
        0 <= be_value(bytes) <= u32::MAX,
{
    lemma_base_256_digits(bytes[0] as int, bytes[1] as int, bytes[2] as int, bytes[3] as int);
}

/// Calls `byteorder::ReadBytesExt::read_u32::<BigEndian>` on a cursor over
/// `bytes`. Trusted: with fewer than four bytes the read fails; otherwise it
/// yields the big-endian value of the first four.
#[verifier::external_body]
fn read_u32_be(bytes: &[u8]) -> (r: Option<u32>)
    ensures
        bytes@.len() < 4 ==> r is None,
        bytes@.len() >= 4 ==> r == Some(be_value(bytes@) as u32),
{
    std::io::Cursor::new(bytes).read_u32::<BigEndian>().ok()
}

/// Calls `byteorder::WriteBytesExt::write_u32::<BigEndian>` on `out`.
/// Trusted: the four big-endian bytes of `n` are appended, and nothing else
/// changes.
#[verifier::external_body]
fn write_u32_be(out: &mut Vec<u8>, n: u32)
    ensures
        final(out)@ == old(out)@ + be_bytes(n),
{
    let _ = out.write_u32::<BigEndian>(n);
}

/// Encodes one frame. A payload that no 32-bit prefix can announce is
/// refused; every other payload is framed as it is.
pub fn encode_frame(payload: &[u8]) -> (r: Result<Vec<u8>, ProtocolError>)
    ensures
        payload@.len() <= u32::MAX ==> r is Ok && r->Ok_0@ == frame_encoding(payload@),
        payload@.len() > u32::MAX ==> r == Err::<Vec<u8>, ProtocolError>(
            ProtocolError::PayloadTooLarge,
        ),
{
    if payload.len() > MAX_PAYLOAD_LEN {
        return Err(ProtocolError::PayloadTooLarge);
    }
    let mut out: Vec<u8> = Vec::new();
    write_u32_be(&mut out, payload.len() as u32);
    out.extend_from_slice(payload);
    assert(out@ =~= frame_encoding(payload@));
    Ok(out)
}

/// What is known of a frame once its prefix has arrived: how many payload
/// bytes must follow. Fails on a prefix cut short.
pub fn read_message_length(header: &[u8]) -> (r: Result<usize, IoError>)
    ensures
        header@.len() >= 4 ==> r == Ok::<usize, IoError>(be_value(header@) as usize),
        header@.len() < 4 ==> r == Err::<usize, IoError>(IoError::ShortHeader),
{
    match read_u32_be(header) {
        Some(n) => {
            proof {
                lemma_be_value_fits(header@);
            }
            Ok(n as usize)
        },
        None => Err(IoError::ShortHeader),
    }
}

/// The payload of the frame that `input` begins with.
pub open spec fn frame_payload(input: Seq<u8>) -> Seq<u8>
    recommends
        holds_frame(input),
{
    input.subrange(4, 4 + be_value(input))
}

/// Whether `input` begins with a whole frame.
pub open spec fn holds_frame(input: Seq<u8>) -> bool {
    input.len() >= 4 && input.len() - 4 >= be_value(input)
}

/// Decodes the frame at the start of `input` and says how many bytes it took.
/// The prefix alone decides how many bytes belong to the payload; nothing is
/// inferred from the content, and no length is refused.
pub fn decode_frame(input: &[u8]) -> (r: Result<(Vec<u8>, usize), IoError>)
    ensures
        holds_frame(input@) ==> r is Ok && r->Ok_0.0@ == frame_payload(input@) && r->Ok_0.1
            == 4 + be_value(input@),
        input@.len() < 4 ==> r == Err::<(Vec<u8>, usize), IoError>(IoError::ShortHeader),
        input@.len() >= 4 && !holds_frame(input@) ==> r == Err::<(Vec<u8>, usize), IoError>(
            IoError::ShortPayload,
        ),
{
    let len = match read_message_length(input) {
        Ok(len) => len,
        Err(e) => {
            return Err(e);
        },
    };
    proof {
        lemma_be_value_fits(input@);
    }
    if input.len() - HEADER_LEN < len {
        return Err(IoError::ShortPayload);
    }
    let end: usize = HEADER_LEN + len;
    let payload = vstd::slice::slice_to_vec(vstd::slice::slice_subrange(input, HEADER_LEN, end));
    Ok((payload, end))
}

/// Decoding an encoded payload gives the payload back, and takes the whole
/// encoding.
pub proof fn lemma_decode_encode(payload: Seq<u8>)
    requires
        payload.len() <= u32::MAX,
    ensures
        holds_frame(frame_encoding(payload)),
        frame_payload(frame_encoding(payload)) == payload,
        4 + be_value(frame_encoding(payload)) == frame_encoding(payload).len(),
{
    let n = payload.len() as u32;
    lemma_be_value_of_be_bytes(n);
    let wire = frame_encoding(payload);
    assert(wire.len() == 4 + payload.len());
    assert(wire[0] == be_bytes(n)[0] && wire[1] == be_bytes(n)[1] && wire[2] == be_bytes(n)[2]
        && wire[3] == be_bytes(n)[3]);
    assert(frame_payload(wire) =~= payload);
}

/// Frames one after the other, as a peer sends them.
pub open spec fn frames_encoding(payloads: Seq<Seq<u8>>) -> Seq<u8>
    decreases payloads.len(),
{
    if payloads.len() == 0 {
        Seq::empty()
    } else {
        frame_encoding(payloads[0]) + frames_encoding(payloads.drop_first())
    }
}

/// `later` with `earlier` put in front, where there is a `later`.
pub open spec fn preceded_by(earlier: Seq<Seq<u8>>, later: Option<Seq<Seq<u8>>>) -> Option<
    Seq<Seq<u8>>,
> {
    match later {
        Some(later) => Some(earlier + later),
        None => None,
    }
}

/// The payloads that a stream held when its end was reached: frame after
/// frame, until fewer than four bytes are left, which is where the peer
/// closed. There is none if a frame is cut short inside its payload.
pub open spec fn stream_payloads(input: Seq<u8>) -> Option<Seq<Seq<u8>>>
    decreases input.len(),
{
    if input.len() < 4 {
        Some(Seq::empty())
    } else if !holds_frame(input) {
        None
    } else {
        preceded_by(seq![frame_payload(input)], stream_payloads(input.skip(4 + be_value(input))))
    }
}

/// The contents of a list of buffers.
pub open spec fn contents(buffers: Seq<Vec<u8>>) -> Seq<Seq<u8>> {
    Seq::new(buffers.len(), |i: int| buffers[i]@)
}

/// Decodes a stream that has ended into the payloads of its frames, in
/// order. The stream may end between two frames, or inside a prefix; it may
/// not end inside a payload.
pub fn decode_frames(input: &[u8]) -> (r: Result<Vec<Vec<u8>>, IoError>)
    ensures
        match stream_payloads(input@) {
            Some(payloads) => r is Ok && contents(r->Ok_0@) == payloads,
            None => r == Err::<Vec<Vec<u8>>, IoError>(IoError::ShortPayload),
        },
{
    let mut frames: Vec<Vec<u8>> = Vec::new();
    let mut offset: usize = 0;
    assert(input@.skip(0) =~= input@);
    assert(contents(frames@) + Seq::<Seq<u8>>::empty() =~= Seq::<Seq<u8>>::empty());
    assert(contents(frames@) =~= Seq::<Seq<u8>>::empty());
    loop
        invariant
            offset <= input@.len(),
            stream_payloads(input@) == preceded_by(
                contents(frames@),
                stream_payloads(input@.skip(offset as int)),
            ),
        decreases input@.len() - offset,
    {
        let rest = vstd::slice::slice_subrange(input, offset, input.len());
        assert(rest@ =~= input@.skip(offset as int));
        if rest.len() < HEADER_LEN {
            assert(contents(frames@) + Seq::<Seq<u8>>::empty() =~= contents(frames@));
            return Ok(frames);
        }
        match decode_frame(rest) {
            Ok((payload, used)) => {
                proof {
                    lemma_be_value_fits(rest@);
                    assert(rest@.skip(used as int) =~= input@.skip(offset + used));
                    assert(contents(frames@.push(payload)) =~= contents(frames@) + seq![payload@]);
                    let later = stream_payloads(rest@.skip(used as int));
                    if later is Some {
                        assert(contents(frames@) + (seq![payload@] + later->Some_0) =~= (contents(
                            frames@,
                        ) + seq![payload@]) + later->Some_0);
                    }
                }
                frames.push(payload);
                offset += used;
            },
            Err(e) => {
                return Err(e);
            },
        }
    }
}

/// A stream of frames decodes to the payloads it was made of, in order.
pub proof fn lemma_stream_round_trip(payloads: Seq<Seq<u8>>)
    requires
        forall|i: int| 0 <= i < payloads.len() ==> (#[trigger] payloads[i]).len() <= u32::MAX,
    ensures
        stream_payloads(frames_encoding(payloads)) == Some(payloads),
    decreases payloads.len(),
{
    if payloads.len() > 0 {
        let first = payloads[0];
        let rest = payloads.drop_first();
        let wire = frames_encoding(payloads);
        lemma_decode_encode(first);
        lemma_stream_round_trip(rest);
        let head = frame_encoding(first);
        assert(wire[0] == head[0] && wire[1] == head[1] && wire[2] == head[2] && wire[3] == head[3]);
        assert(be_value(wire) == be_value(head));
        assert(frame_payload(wire) =~= frame_payload(head));
        assert(wire.skip(4 + be_value(wire)) =~= frames_encoding(rest));
        assert(seq![first] + rest =~= payloads);
    }
}

} // verus!
