//! Identity generator.
//!
//! A newly accepted connection is assigned a short, human-readable
//! identity derived from its remote port alone: the SHA-256 digest of
//! the port's big-endian bytes, hex-encoded, truncated to a configured
//! number of characters. The derivation is a pure function of the port
//! and the length, so two connections from the same port receive the
//! same identity.

use vstd::prelude::*;
use vstd::string::StrSliceExecFns;
use vstd::string::StringExecFns;
use vstd::utf8::is_ascii_chars;

verus! {

/// Longest identity the generator can produce: the hex digest of
/// SHA-256 has 64 characters.
pub const MAX_IDENTITY_LENGTH: usize = 64;

/// Named result of the SHA-256 digest of a byte sequence.
pub uninterp spec fn sha256_of(bytes: Seq<u8>) -> Seq<u8>;

/// The two big-endian bytes of a port number.
pub open spec fn port_be_bytes(port: u16) -> Seq<u8> {
    seq![(port / 256) as u8, (port % 256) as u8]
}

/// The lower-case hex character for a value below 16.
pub open spec fn hex_char(v: u8) -> char
    recommends
        v < 16,
{
    if v < 10 {
        (v + 48) as char
    } else {
        (v + 87) as char
    }
}

/// Lower-case hex encoding of a byte sequence, two characters per byte.
pub open spec fn hex_of(bytes: Seq<u8>) -> Seq<char>
    decreases bytes.len(),
{
    if bytes.len() == 0 {
        seq![]
    } else {
        hex_of(bytes.drop_last()) + seq![
            hex_char(bytes.last() / 16),
            hex_char(bytes.last() % 16),
        ]
    }
}

/// The identity assigned to a connection with the given remote port:
/// the first `length` characters of the hex digest of SHA-256 over the
/// port's big-endian bytes.
pub open spec fn identity_of(port: u16, length: int) -> Seq<char> {
    hex_of(sha256_of(port_be_bytes(port))).take(length)
}

proof fn lemma_hex_of_len(bytes: Seq<u8>)
    ensures
        hex_of(bytes).len() == 2 * bytes.len(),
    decreases bytes.len(),
{
    if bytes.len() == 0 {
    } else {
        lemma_hex_of_len(bytes.drop_last());
    }
}

proof fn lemma_hex_of_ascii(bytes: Seq<u8>)
    ensures
        is_ascii_chars(hex_of(bytes)),
    decreases bytes.len(),
{
    if bytes.len() == 0 {
    } else {
        lemma_hex_of_ascii(bytes.drop_last());
        assert(hex_char(bytes.last() / 16) <= '\u{7f}');
        assert(hex_char(bytes.last() % 16) <= '\u{7f}');
    }
}

/// Relies on `sha2::Sha256` through the `Digest` trait: the digest is
/// a pure function of the input bytes alone and is 32 bytes long.
#[verifier::external_body]
fn sha256_digest(input: &[u8]) -> (r: Vec<u8>)
    ensures
        r@ == sha256_of(input@),
        r@.len() == 32,
{
    let digest = <sha2::Sha256 as sha2::Digest>::digest(input);
    digest.to_vec()
}

/// The hex character for a nibble, as a one-character string slice.
fn nibble_str(v: u8) -> (r: &'static str)
    requires
        v < 16,
    ensures
        r@ == seq![hex_char(v)],
{
    if v == 0 {
        proof { reveal_strlit("0"); }
        "0"
    } else if v == 1 {
        proof { reveal_strlit("1"); }
        "1"
    } else if v == 2 {
        proof { reveal_strlit("2"); }
        "2"
    } else if v == 3 {
        proof { reveal_strlit("3"); }
        "3"
    } else if v == 4 {
        proof { reveal_strlit("4"); }
        "4"
    } else if v == 5 {
        proof { reveal_strlit("5"); }
        "5"
    } else if v == 6 {
        proof { reveal_strlit("6"); }
        "6"
    } else if v == 7 {
        proof { reveal_strlit("7"); }
        "7"
    } else if v == 8 {
        proof { reveal_strlit("8"); }
        "8"
    } else if v == 9 {
        proof { reveal_strlit("9"); }
        "9"
    } else if v == 10 {
        proof { reveal_strlit("a"); }
        "a"
    } else if v == 11 {
        proof { reveal_strlit("b"); }
        "b"
    } else if v == 12 {
        proof { reveal_strlit("c"); }
        "c"
    } else if v == 13 {
        proof { reveal_strlit("d"); }
        "d"
    } else if v == 14 {
        proof { reveal_strlit("e"); }
        "e"
    } else {
        proof { reveal_strlit("f"); }
        "f"
    }
}

/// Whether a configured identity length is acceptable: it cannot
/// exceed the 64 hex characters of the digest. Checked once at
/// startup, before any identity is generated.
pub fn validate_identity_length(length: usize) -> (r: bool)
    ensures
        r <==> length <= MAX_IDENTITY_LENGTH,
{
    length <= MAX_IDENTITY_LENGTH
}

/// Generates the identity for a connection from its remote port.
/// The result is a pure function of `port` and `length`, and is
/// exactly `length` characters long.
pub fn generate_identity(port: u16, length: usize) -> (r: String)
    requires
        length <= MAX_IDENTITY_LENGTH,
    ensures
        r@ == identity_of(port, length as int),
        r@.len() == length,
{
    let hi: u8 = (port / 256) as u8;
    let lo: u8 = (port % 256) as u8;
    let mut port_bytes: Vec<u8> = Vec::new();
    port_bytes.push(hi);
    port_bytes.push(lo);
    proof {
        assert(port_bytes@ =~= port_be_bytes(port));
    }
    let digest = sha256_digest(port_bytes.as_slice());
    let mut hex = String::new();
    let mut i: usize = 0;
    proof {
        assert(digest@.take(0) =~= Seq::<u8>::empty());
    }
    while i < 32
        invariant
            digest@ == sha256_of(port_be_bytes(port)),
            digest@.len() == 32,
            0 <= i <= 32,
            hex@ == hex_of(digest@.take(i as int)),
        decreases 32 - i,
    {
        let b = digest[i];
        hex.append(nibble_str(b / 16));
        hex.append(nibble_str(b % 16));
        proof {
            assert(digest@.take(i + 1).drop_last() =~= digest@.take(i as int));
            assert(hex@ =~= hex_of(digest@.take(i + 1)));
        }
        i += 1;
    }
    proof {
        assert(digest@.take(32) =~= digest@);
        lemma_hex_of_len(digest@);
        lemma_hex_of_ascii(digest@);
    }
    let prefix = hex.as_str().substring_ascii(0, length);
    prefix.to_owned()
}

} // verus!
