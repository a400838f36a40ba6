//! Unpadded base64 over the URL-safe alphabet, the payload of invite links.

use crate::text::{ascii_text, lemma_ascii_text};
use vstd::prelude::*;
use vstd::utf8::encode_utf8;

verus! {

/// Why a text is not base64url.
#[derive(Clone, Copy, PartialEq, Eq, Structural, Debug)]
pub enum DecodeError {
    /// A character at the first or second place of a group is outside the
    /// alphabet.
    Invalid,
    /// The last group holds a single character.
    Truncated,
}

/// The character, as a byte, that stands for a six-bit value.
pub open spec fn letter(v: int) -> u8 {
    if v < 26 {
        (65 + v) as u8
    } else if v < 52 {
        (97 + v - 26) as u8
    } else if v < 62 {
        (48 + v - 52) as u8
    } else if v == 62 {
        45u8
    } else {
        95u8
    }
}

/// The six-bit value that a byte of the alphabet stands for.
pub open spec fn sextet(b: u8) -> Option<int> {
    if 65 <= b <= 90 {
        Some(b - 65)
    } else if 97 <= b <= 122 {
        Some(b - 97 + 26)
    } else if 48 <= b <= 57 {
        Some(b - 48 + 52)
    } else if b == 45 {
        Some(62)
    } else if b == 95 {
        Some(63)
    } else {
        None
    }
}

/// The letters for the first one, two or three bytes of `s`.
pub open spec fn encode_group(s: Seq<u8>) -> Seq<u8> {
    let b0 = s[0] as int;
    let b1 = if s.len() > 1 {
        s[1] as int
    } else {
        0
    };
    let b2 = if s.len() > 2 {
        s[2] as int
    } else {
        0
    };
    let head = seq![letter(b0 / 4), letter((b0 % 4) * 16 + b1 / 16)];
    if s.len() == 1 {
        head
    } else if s.len() == 2 {
        head.push(letter((b1 % 16) * 4 + b2 / 64))
    } else {
        head.push(letter((b1 % 16) * 4 + b2 / 64)).push(letter(b2 % 64))
    }
}

/// The letters for a byte sequence: three bytes make four of them.
pub open spec fn encoded(s: Seq<u8>) -> Seq<u8>
    decreases s.len(),
{
    if s.len() == 0 {
        Seq::empty()
    } else if s.len() <= 3 {
        encode_group(s)
    } else {
        encode_group(s.take(3)) + encoded(s.skip(3))
    }
}

/// What the first four letters of `s` stand for. A third letter outside the
/// alphabet ends the group after one byte, a fourth one after two.
pub open spec fn decode_group(s: Seq<u8>) -> Result<Seq<u8>, DecodeError> {
    match sextet(s[0]) {
        None => Err(DecodeError::Invalid),
        Some(a) => if s.len() < 2 {
            Err(DecodeError::Truncated)
        } else {
            match sextet(s[1]) {
                None => Err(DecodeError::Invalid),
                Some(b) => {
                    let first = seq![(a * 4 + b / 16) as u8];
                    let third = if s.len() > 2 {
                        sextet(s[2])
                    } else {
                        None
                    };
                    let fourth = if s.len() > 3 {
                        sextet(s[3])
                    } else {
                        None
                    };
                    match (third, fourth) {
                        (None, _) => Ok(first),
                        (Some(c), None) => Ok(first.push(((b % 16) * 16 + c / 4) as u8)),
                        (Some(c), Some(d)) => Ok(
                            first.push(((b % 16) * 16 + c / 4) as u8).push(((c % 4) * 64 + d) as u8),
                        ),
                    }
                },
            }
        },
    }
}

/// The bytes that a sequence of letters stands for, or the first error from
/// the left.
pub open spec fn decoded(s: Seq<u8>) -> Result<Seq<u8>, DecodeError>
    decreases s.len(),
{
    if s.len() == 0 {
        Ok(Seq::empty())
    } else if s.len() <= 4 {
        decode_group(s)
    } else {
        match decode_group(s.take(4)) {
            Err(e) => Err(e),
            Ok(head) => match decoded(s.skip(4)) {
                Err(e) => Err(e),
                Ok(tail) => Ok(head + tail),
            },
        }
    }
}

fn letter_of(v: u8) -> (r: u8)
    requires
        v < 64,
    ensures
        r == letter(v as int),
{
    if v < 26 {
        65 + v
    } else if v < 52 {
        97 + (v - 26)
    } else if v < 62 {
        48 + (v - 52)
    } else if v == 62 {
        45
    } else {
        95
    }
}

fn sextet_of(b: u8) -> (r: Option<u8>)
    ensures
        match r {
            Some(v) => v < 64 && sextet(b) == Some(v as int),
            None => sextet(b) is None,
        },
{
    if 65 <= b && b <= 90 {
        Some(b - 65)
    } else if 97 <= b && b <= 122 {
        Some(b - 97 + 26)
    } else if 48 <= b && b <= 57 {
        Some(b - 48 + 52)
    } else if b == 45 {
        Some(62)
    } else if b == 95 {
        Some(63)
    } else {
        None
    }
}

/// The bytes as unpadded base64url text.
pub fn base64url_encode(bytes: &[u8]) -> (r: String)
    ensures
        r@ == ascii_text(encoded(bytes@)),
{
    let mut out = String::new();
    let mut i: usize = 0;
    proof {
        assert(bytes@.skip(0) =~= bytes@);
        assert(out@ + ascii_text(encoded(bytes@.skip(0))) =~= ascii_text(encoded(bytes@)));
    }
    while i < bytes.len()
        invariant
            i <= bytes@.len(),
            out@ + ascii_text(encoded(bytes@.skip(i as int))) == ascii_text(encoded(bytes@)),
        decreases bytes@.len() - i,
    {
        let n: usize = bytes.len() - i;
        let b0: u8 = bytes[i];
        let b1: u8 = if n > 1 {
            bytes[i + 1]
        } else {
            0
        };
        let b2: u8 = if n > 2 {
            bytes[i + 2]
        } else {
            0
        };
        let ghost before = out@;
        out.push(letter_of(b0 / 4) as char);
        out.push(letter_of((b0 % 4) * 16 + b1 / 16) as char);
        if n > 1 {
            out.push(letter_of((b1 % 16) * 4 + b2 / 64) as char);
        }
        if n > 2 {
            out.push(letter_of(b2 % 64) as char);
        }
        let step: usize = if n > 3 {
            3
        } else {
            n
        };
        proof {
            let rest = bytes@.skip(i as int);
            let group = rest.take(step as int);
            assert(out@ =~= before + ascii_text(encode_group(group)));
            assert(bytes@.skip(i + step) =~= rest.skip(step as int));
            if n > 3 {
                assert(encoded(rest) == encode_group(group) + encoded(rest.skip(3)));
            } else {
                assert(group =~= rest);
                assert(encoded(rest) =~= encode_group(group) + encoded(rest.skip(step as int)));
            }
            assert(out@ + ascii_text(encoded(bytes@.skip(i + step))) =~= before + ascii_text(
                encoded(rest),
            ));
        }
        i += step;
    }
    proof {
        assert(bytes@.skip(i as int) =~= Seq::empty());
        assert(out@ =~= out@ + ascii_text(Seq::<u8>::empty()));
    }
    out
}

/// The bytes that base64url letters stand for. See [`decoded`] for the letters
/// that are passed over.
fn decode_letters(s: &[u8]) -> (r: Result<Vec<u8>, DecodeError>)
    ensures
        match r {
            Ok(v) => decoded(s@) == Ok::<Seq<u8>, DecodeError>(v@),
            Err(e) => decoded(s@) == Err::<Seq<u8>, DecodeError>(e),
        },
{
    let mut out: Vec<u8> = Vec::new();
    let mut i: usize = 0;
    let ghost joined = |head: Seq<u8>, tail: Result<Seq<u8>, DecodeError>|
        match tail {
            Ok(t) => Ok::<Seq<u8>, DecodeError>(head + t),
            Err(e) => Err(e),
        };
    proof {
        assert(s@.skip(0) =~= s@);
        if let Ok(t) = decoded(s@) {
            assert(Seq::<u8>::empty() + t =~= t);
        }
    }
    while i < s.len()
        invariant
            i <= s@.len(),
            joined == (|head: Seq<u8>, tail: Result<Seq<u8>, DecodeError>|
                match tail {
                    Ok(t) => Ok::<Seq<u8>, DecodeError>(head + t),
                    Err(e) => Err(e),
                }),
            decoded(s@) == joined(out@, decoded(s@.skip(i as int))),
        decreases s@.len() - i,
    {
        let n: usize = s.len() - i;
        let step: usize = if n > 4 {
            4
        } else {
            n
        };
        let ghost rest = s@.skip(i as int);
        let ghost group = rest.take(step as int);
        proof {
            if n <= 4 {
                assert(group =~= rest);
            }
            assert(s@.skip(i + step) =~= rest.skip(step as int));
        }
        let a: u8 = match sextet_of(s[i]) {
            Some(v) => v,
            None => {
                return Err(DecodeError::Invalid);
            },
        };
        if n < 2 {
            return Err(DecodeError::Truncated);
        }
        let b: u8 = match sextet_of(s[i + 1]) {
            Some(v) => v,
            None => {
                return Err(DecodeError::Invalid);
            },
        };
        let c: Option<u8> = if n > 2 {
            sextet_of(s[i + 2])
        } else {
            None
        };
        let d: Option<u8> = if n > 3 {
            sextet_of(s[i + 3])
        } else {
            None
        };
        let ghost before = out@;
        out.push(a * 4 + b / 16);
        if let Some(c) = c {
            out.push((b % 16) * 16 + c / 4);
            if let Some(d) = d {
                out.push((c % 4) * 64 + d);
            }
        }
        proof {
            let head = decode_group(group)->Ok_0;
            assert(out@ =~= before + head);
            if n > 4 {
                if let Ok(t) = decoded(rest.skip(4)) {
                    assert(before + (head + t) =~= out@ + t);
                }
            } else {
                assert(rest.skip(step as int) =~= Seq::empty());
                assert(out@ + Seq::<u8>::empty() =~= before + head);
            }
        }
        i += step;
    }
    proof {
        assert(s@.skip(i as int) =~= Seq::empty());
        assert(out@ + Seq::<u8>::empty() =~= out@);
    }
    Ok(out)
}

/// The bytes that a base64url text stands for.
pub fn base64url_decode(value: &str) -> (r: Result<Vec<u8>, DecodeError>)
    ensures
        match r {
            Ok(v) => decoded(encode_utf8(value@)) == Ok::<Seq<u8>, DecodeError>(v@),
            Err(e) => decoded(encode_utf8(value@)) == Err::<Seq<u8>, DecodeError>(e),
        },
{
    decode_letters(value.as_bytes())
}

proof fn lemma_letter(v: int)
    requires
        0 <= v < 64,
    ensures
        letter(v) < 128,
        sextet(letter(v)) == Some(v),
{
}

proof fn lemma_group(s: Seq<u8>)
    requires
        1 <= s.len() <= 3,
    ensures
        decode_group(encode_group(s)) == Ok::<Seq<u8>, DecodeError>(s),
        encode_group(s).len() == s.len() + 1,
        forall|i: int| 0 <= i < encode_group(s).len() ==> encode_group(s)[i] < 128,
{
    let b0 = s[0] as int;
    let b1 = if s.len() > 1 {
        s[1] as int
    } else {
        0
    };
    let b2 = if s.len() > 2 {
        s[2] as int
    } else {
        0
    };
    lemma_letter(b0 / 4);
    lemma_letter((b0 % 4) * 16 + b1 / 16);
    lemma_letter((b1 % 16) * 4 + b2 / 64);
    lemma_letter(b2 % 64);
    let back = decode_group(encode_group(s))->Ok_0;
    assert(back =~= s);
}

/// The letters are ASCII, and decoding them gives the bytes back.
proof fn lemma_round_trip(s: Seq<u8>)
    ensures
        decoded(encoded(s)) == Ok::<Seq<u8>, DecodeError>(s),
        forall|i: int| 0 <= i < encoded(s).len() ==> encoded(s)[i] < 128,
    decreases s.len(),
{
    if s.len() == 0 {
        assert(s =~= Seq::empty());
    } else if s.len() <= 3 {
        lemma_group(s);
    } else {
        let head = s.take(3);
        let tail = s.skip(3);
        lemma_group(head);
        lemma_round_trip(tail);
        let e = encoded(s);
        assert(e.take(4) =~= encode_group(head));
        assert(e.skip(4) =~= encoded(tail));
        assert(encoded(tail).len() > 0) by {
            if tail.len() <= 3 {
                lemma_group(tail);
            } else {
                lemma_group(tail.take(3));
            }
        }
        assert(head + tail =~= s);
    }
}

/// Decoding the text that encoding gives returns the same bytes: every byte
/// sequence survives the way through an invite link.
pub proof fn law_base64url_round_trip(s: Seq<u8>)
    ensures
        decoded(encode_utf8(ascii_text(encoded(s)))) == Ok::<Seq<u8>, DecodeError>(s),
{
    lemma_round_trip(s);
    lemma_ascii_text(encoded(s));
}

/// The encoding carries no padding: its letters all belong to the alphabet.
pub proof fn law_base64url_unpadded(s: Seq<u8>, i: int)
    requires
        0 <= i < encoded(s).len(),
    ensures
        sextet(encoded(s)[i]) is Some,
    decreases s.len(),
{
    if s.len() <= 3 {
        let b1 = if s.len() > 1 {
            s[1] as int
        } else {
            0
        };
        let b2 = if s.len() > 2 {
            s[2] as int
        } else {
            0
        };
        lemma_letter(s[0] as int / 4);
        lemma_letter((s[0] as int % 4) * 16 + b1 / 16);
        lemma_letter((b1 % 16) * 4 + b2 / 64);
        lemma_letter(b2 % 64);
    } else {
        lemma_group(s.take(3));
        if i < 4 {
            law_base64url_unpadded(s.take(3), i);
        } else {
            law_base64url_unpadded(s.skip(3), i - 4);
        }
    }
}

/// No encoding has a length of one more than a multiple of four.
pub proof fn lemma_encoded_len(s: Seq<u8>)
    ensures
        encoded(s).len() % 4 != 1,
    decreases s.len(),
{
    if s.len() > 3 {
        lemma_encoded_len(s.skip(3));
        assert(encode_group(s.take(3)).len() == 4);
    }
}

} // verus!
