//! Identifiers derived from a BLAKE3 digest.

use vstd::prelude::*;

verus! {

/// The BLAKE3 digest of a byte sequence.
pub uninterp spec fn blake3_digest(s: Seq<u8>) -> Seq<u8>;

/// `blake3::hash`: the digest of the bytes, which is 32 bytes long.
#[verifier::external_body]
fn blake3_of(bytes: &[u8]) -> (r: Vec<u8>)
    ensures
        r@ == blake3_digest(bytes@),
        r@.len() == 32,
{
    blake3::hash(bytes).as_bytes().to_vec()
}

/// The digest of the bytes.
pub fn digest(bytes: &[u8]) -> (r: Vec<u8>)
    ensures
        r@ == blake3_digest(bytes@),
        r@.len() == 32,
{
    blake3_of(bytes)
}

/// The digest of a text in 64 hexadecimal digits.
pub open spec fn digest_hex(s: Seq<char>) -> Seq<char> {
    crate::text::ascii_text(crate::hex::hexed(blake3_digest(vstd::utf8::encode_utf8(s))))
}

pub fn digest_text(s: &str) -> (r: String)
    ensures
        r@ == digest_hex(s@),
        r@.len() == 64,
{
    let d = blake3_of(s.as_bytes());
    proof {
        crate::hex::law_hex_round_trip(d@);
    }
    crate::hex::hex_encode(&d)
}

/// A stable negative id: the first eight bytes of a digest as a big-endian
/// number without its top bit, at least one, negated.
pub open spec fn placeholder_of(d: Seq<u8>) -> int {
    let top = if d[0] >= 128 {
        d[0] - 128
    } else {
        d[0] as int
    };
    let n = ((((((top * 256 + d[1]) * 256 + d[2]) * 256 + d[3]) * 256 + d[4]) * 256 + d[5]) * 256
        + d[6]) * 256 + d[7];
    if n < 1 {
        -1
    } else {
        -n
    }
}

pub fn placeholder(d: &[u8]) -> (r: i64)
    requires
        d@.len() >= 8,
    ensures
        r == placeholder_of(d@),
        r < 0,
{
    let top: u8 = if d[0] >= 128 {
        d[0] - 128
    } else {
        d[0]
    };
    let mut n: i64 = top as i64;
    n = n * 256 + d[1] as i64;
    n = n * 256 + d[2] as i64;
    n = n * 256 + d[3] as i64;
    n = n * 256 + d[4] as i64;
    n = n * 256 + d[5] as i64;
    n = n * 256 + d[6] as i64;
    n = n * 256 + d[7] as i64;
    if n < 1 {
        -1
    } else {
        -n
    }
}

/// The id that stands for a text.
pub fn text_placeholder(s: &str) -> (r: i64)
    ensures
        r == placeholder_of(blake3_digest(vstd::utf8::encode_utf8(s@))),
        r < 0,
{
    let d = blake3_of(s.as_bytes());
    placeholder(&d)
}

} // verus!
