//! Fixed-size frame codec.
//!
//! A text message travels over the wire as one frame of exactly
//! [`MESSAGE_SIZE`] bytes: the UTF-8 bytes of the text followed by zero
//! padding. Decoding reads the bytes before the first zero byte and
//! interprets them as UTF-8.

use vstd::prelude::*;
use vstd::slice::{slice_index_get, slice_subrange, slice_to_vec};
use vstd::string::StringSliceAdditionalSpecFns;
use vstd::utf8::{
    decode_utf8, encode_utf8, encode_utf8_decode_utf8, encode_utf8_valid_utf8, valid_utf8,
};

verus! {

/// Size in bytes of every frame exchanged over the wire.
pub const MESSAGE_SIZE: usize = 256;

/// Why a frame failed to decode.
#[derive(Clone, Copy, Debug, PartialEq, Eq, Structural)]
pub enum DecodeError {
    /// The bytes before the first zero byte are not valid UTF-8.
    InvalidUtf8,
}

/// The frame that carries the given payload: the payload followed by
/// zero padding up to [`MESSAGE_SIZE`].
pub open spec fn frame_of(payload: Seq<u8>) -> Seq<u8>
    recommends
        payload.len() <= MESSAGE_SIZE,
{
    payload + Seq::new((MESSAGE_SIZE - payload.len()) as nat, |i: int| 0u8)
}

/// The frame that carries the given text.
pub open spec fn encoded_frame(text: Seq<char>) -> Seq<u8> {
    frame_of(encode_utf8(text))
}

/// Index of the first zero byte, or the length when there is none.
pub open spec fn first_nul(bytes: Seq<u8>) -> int
    decreases bytes.len(),
{
    if bytes.len() == 0 {
        0
    } else if bytes[0] == 0 {
        0
    } else {
        1 + first_nul(bytes.drop_first())
    }
}

/// The payload of a frame: its bytes before the first zero byte.
pub open spec fn payload_of(frame: Seq<u8>) -> Seq<u8> {
    frame.take(first_nul(frame))
}

/// The text a frame decodes to, or `None` when its payload is not
/// valid UTF-8.
pub open spec fn decoded_text(frame: Seq<u8>) -> Option<Seq<char>> {
    if valid_utf8(payload_of(frame)) {
        Some(decode_utf8(payload_of(frame)))
    } else {
        None
    }
}

/// `first_nul` is the unique index with no zero byte before it and a
/// zero byte (or the end of the sequence) at it.
proof fn lemma_first_nul_is(bytes: Seq<u8>, i: int)
    requires
        0 <= i <= bytes.len(),
        forall|j: int| 0 <= j < i ==> bytes[j] != 0,
        i < bytes.len() ==> bytes[i] == 0,
    ensures
        first_nul(bytes) == i,
    decreases bytes.len(),
{
    if i == 0 {
    } else {
        assert(bytes[0] != 0);
        let rest = bytes.drop_first();
        assert forall|j: int| 0 <= j < i - 1 implies rest[j] != 0 by {
            assert(rest[j] == bytes[j + 1]);
        }
        lemma_first_nul_is(rest, i - 1);
    }
}

/// Relies on `core::str::from_utf8`: it succeeds exactly on valid
/// UTF-8 input, and the returned string slice is backed by those same
/// bytes.
#[verifier::external_body]
fn bytes_as_utf8(bytes: &[u8]) -> (r: Option<&str>)
    ensures
        r is Some <==> valid_utf8(bytes@),
        r matches Some(s) ==> encode_utf8(s@) == bytes@,
{
    core::str::from_utf8(bytes).ok()
}

/// Encodes text into one fixed-size frame: its UTF-8 bytes followed by
/// zero padding. Returns `None` when the text does not fit in a frame;
/// over-length input is rejected rather than truncated.
pub fn encode(text: &str) -> (r: Option<Vec<u8>>)
    ensures
        r is Some <==> encode_utf8(text@).len() <= MESSAGE_SIZE,
        r matches Some(frame) ==> frame@ == encoded_frame(text@) && frame@.len() == MESSAGE_SIZE,
{
    let bytes: &[u8] = text.as_bytes();
    if bytes.len() > MESSAGE_SIZE {
        return None;
    }
    let mut frame: Vec<u8> = slice_to_vec(bytes);
    proof {
        assert(frame@ =~= encode_utf8(text@) + Seq::new(
            (frame@.len() - encode_utf8(text@).len()) as nat,
            |i: int| 0u8,
        ));
    }
    while frame.len() < MESSAGE_SIZE
        invariant
            encode_utf8(text@).len() <= frame@.len() <= MESSAGE_SIZE,
            frame@ == encode_utf8(text@) + Seq::new(
                (frame@.len() - encode_utf8(text@).len()) as nat,
                |i: int| 0u8,
            ),
        decreases MESSAGE_SIZE - frame.len(),
    {
        frame.push(0u8);
        proof {
            assert(frame@ =~= encode_utf8(text@) + Seq::new(
                (frame@.len() - encode_utf8(text@).len()) as nat,
                |i: int| 0u8,
            ));
        }
    }
    proof {
        assert(frame@ =~= encoded_frame(text@));
    }
    Some(frame)
}

/// Decodes one frame: the bytes before the first zero byte are the
/// payload, which is returned as text when it is valid UTF-8. Trailing
/// padding is never part of the returned text.
pub fn decode(frame: &[u8]) -> (r: Result<String, DecodeError>)
    ensures
        r is Ok <==> decoded_text(frame@) is Some,
        r matches Ok(text) ==> decoded_text(frame@) == Some(text@),
        r is Err ==> r == Err::<String, DecodeError>(DecodeError::InvalidUtf8),
{
    let n = frame.len();
    let mut i: usize = 0;
    while i < n && *slice_index_get(frame, i) != 0
        invariant
            n == frame@.len(),
            0 <= i <= n,
            forall|j: int| 0 <= j < i ==> frame@[j] != 0,
        decreases n - i,
    {
        i += 1;
    }
    proof {
        lemma_first_nul_is(frame@, i as int);
    }
    let payload: &[u8] = slice_subrange(frame, 0, i);
    proof {
        assert(payload@ =~= payload_of(frame@));
    }
    match bytes_as_utf8(payload) {
        Some(s) => {
            proof {
                encode_utf8_decode_utf8(s@);
            }
            Ok(s.to_owned())
        },
        None => Err(DecodeError::InvalidUtf8),
    }
}

/// Round-trip law over the encodings: a payload that fits in a frame
/// and contains no zero byte is recovered exactly from its frame.
pub proof fn lemma_payload_of_frame(payload: Seq<u8>)
    requires
        payload.len() <= MESSAGE_SIZE,
        forall|i: int| 0 <= i < payload.len() ==> payload[i] != 0,
    ensures
        payload_of(frame_of(payload)) == payload,
{
    let frame = frame_of(payload);
    assert(frame.len() == MESSAGE_SIZE);
    assert forall|j: int| 0 <= j < payload.len() implies frame[j] != 0 by {
        assert(frame[j] == payload[j]);
    }
    if payload.len() < MESSAGE_SIZE {
        assert(frame[payload.len() as int] == 0);
    }
    lemma_first_nul_is(frame, payload.len() as int);
    assert(payload_of(frame) =~= payload);
}

/// In UTF-8, a zero byte occurs only as the encoding of the NUL
/// character: a text without NUL encodes to bytes without zero.
pub proof fn lemma_no_nul_char_no_zero_byte(text: Seq<char>)
    requires
        forall|i: int| 0 <= i < text.len() ==> text[i] != '\0',
    ensures
        forall|j: int| 0 <= j < encode_utf8(text).len() ==> encode_utf8(text)[j] != 0,
    decreases text.len(),
{
    if text.len() == 0 {
    } else {
        let c = text[0] as u32;
        vstd::utf8::char_is_scalar(text[0]);
        vstd::utf8::char_u32_cast(text[0], c);
        assert(c != 0) by {
            if c == 0 {
                assert((0u32 as char) == text[0]);
                assert(text[0] == '\0');
            }
        }
        let head = vstd::utf8::encode_scalar(c);
        assert forall|j: int| 0 <= j < head.len() implies head[j] != 0 by {
            if vstd::utf8::has_width_1_encoding(c) {
                assert(((c & 0x7F) as u8) != 0) by (bit_vector)
                    requires
                        c != 0 && c <= 0x7F,
                ;
            } else if vstd::utf8::has_width_2_encoding(c) {
                assert((0xC0u8 | (((c >> 6) & 0x1F) as u8)) != 0) by (bit_vector);
                assert((0x80u8 | ((c & 0x3F) as u8)) != 0) by (bit_vector);
            } else if vstd::utf8::has_width_3_encoding(c) {
                assert((0xE0u8 | (((c >> 12) & 0x0F) as u8)) != 0) by (bit_vector);
                assert((0x80u8 | (((c >> 6) & 0x3F) as u8)) != 0) by (bit_vector);
                assert((0x80u8 | ((c & 0x3F) as u8)) != 0) by (bit_vector);
            } else {
                assert((0xF0u8 | (((c >> 18) & 0x7) as u8)) != 0) by (bit_vector);
                assert((0x80u8 | (((c >> 12) & 0x3F) as u8)) != 0) by (bit_vector);
                assert((0x80u8 | (((c >> 6) & 0x3F) as u8)) != 0) by (bit_vector);
                assert((0x80u8 | ((c & 0x3F) as u8)) != 0) by (bit_vector);
            }
        }
        let rest = text.drop_first();
        assert forall|i: int| 0 <= i < rest.len() implies rest[i] != '\0' by {
            assert(rest[i] == text[i + 1]);
        }
        lemma_no_nul_char_no_zero_byte(rest);
        assert forall|j: int| 0 <= j < encode_utf8(text).len() implies encode_utf8(text)[j]
            != 0 by {
            if j < head.len() {
                assert(encode_utf8(text)[j] == head[j]);
            } else {
                assert(encode_utf8(text)[j] == encode_utf8(rest)[j - head.len()]);
            }
        }
    }
}

/// Round-trip law: a text whose UTF-8 encoding fits in a frame and
/// contains no zero byte is returned exactly by decoding its encoded
/// frame.
pub proof fn lemma_encode_decode_round_trip(text: Seq<char>)
    requires
        encode_utf8(text).len() <= MESSAGE_SIZE,
        forall|i: int| 0 <= i < encode_utf8(text).len() ==> encode_utf8(text)[i] != 0,
    ensures
        decoded_text(encoded_frame(text)) == Some(text),
{
    lemma_payload_of_frame(encode_utf8(text));
    encode_utf8_valid_utf8(text);
    encode_utf8_decode_utf8(text);
}

/// Round-trip law over the text alone: a text without NUL characters
/// whose UTF-8 encoding fits in a frame is returned exactly by
/// decoding its encoded frame.
pub proof fn lemma_round_trip_no_nul(text: Seq<char>)
    requires
        encode_utf8(text).len() <= MESSAGE_SIZE,
        forall|i: int| 0 <= i < text.len() ==> text[i] != '\0',
    ensures
        decoded_text(encoded_frame(text)) == Some(text),
{
    lemma_no_nul_char_no_zero_byte(text);
    lemma_encode_decode_round_trip(text);
}

} // verus!
