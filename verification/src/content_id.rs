//! Content ids: `b3:` and the 64 hexadecimal digits of the BLAKE3 digest of an
//! audio file.

use crate::digest::{blake3_digest, digest};
use crate::hex::{hex_encode, hexed, law_hex_round_trip};
use crate::text::{
    ascii_lowered, ascii_text, chars_of, lower_chars, string_of, trim_chars, trimmed,
};
use vstd::prelude::*;

verus! {

pub open spec fn is_small_hex(c: char) -> bool {
    ('0' <= c <= '9') || ('a' <= c <= 'f')
}

/// Whether a text is a content id in its canonical form.
pub open spec fn is_content_id(v: Seq<char>) -> bool {
    &&& v.len() == 67
    &&& v[0] == 'b'
    &&& v[1] == '3'
    &&& v[2] == ':'
    &&& forall|i: int| 3 <= i < 67 ==> is_small_hex(#[trigger] v[i])
}

/// The canonical form of a content id; nothing for any other text.
pub open spec fn canonical(s: Seq<char>) -> Option<Seq<char>> {
    let v = ascii_lowered(trimmed(s));
    if is_content_id(v) {
        Some(v)
    } else {
        None
    }
}

/// The canonical form of an optional content id.
pub open spec fn canonical_option(s: Option<Seq<char>>) -> Option<Seq<char>> {
    match s {
        Some(v) => canonical(v),
        None => None,
    }
}

/// The content id without the white space around it and in small letters, if
/// that is a content id.
pub fn normalize_content_id(content_id: &str) -> (r: Option<String>)
    ensures
        crate::text::opt_view(r) == canonical(content_id@),
{
    let chars = chars_of(content_id);
    let v = lower_chars(&trim_chars(&chars));
    if v.len() != 67 || v[0] != 'b' || v[1] != '3' || v[2] != ':' {
        return None;
    }
    let mut i: usize = 3;
    while i < 67
        invariant
            3 <= i <= 67,
            v@.len() == 67,
            v@ == ascii_lowered(trimmed(content_id@)),
            forall|j: int| 3 <= j < i ==> is_small_hex(#[trigger] v@[j]),
        decreases 67 - i,
    {
        let c = v[i];
        if !(('0' <= c && c <= '9') || ('a' <= c && c <= 'f')) {
            return None;
        }
        i += 1;
    }
    Some(string_of(&v))
}

/// The canonical form of an optional content id.
pub fn normalize_option(content_id: &Option<String>) -> (r: Option<String>)
    ensures
        crate::text::opt_view(r) == canonical_option(crate::text::opt_view(*content_id)),
{
    match content_id {
        Some(v) => normalize_content_id(v),
        None => None,
    }
}

/// The content id of an audio file, from all that it holds.
pub open spec fn content_id_of(bytes: Seq<u8>) -> Seq<char> {
    "b3:"@ + ascii_text(hexed(blake3_digest(bytes)))
}

proof fn lemma_small_digits(s: Seq<u8>, i: int)
    requires
        0 <= i < hexed(s).len(),
    ensures
        48 <= hexed(s)[i] <= 57 || 97 <= hexed(s)[i] <= 102,
    decreases s.len(),
{
    if s.len() > 0 {
        let h = hexed(s.drop_last());
        if i < h.len() {
            lemma_small_digits(s.drop_last(), i);
        }
    }
}

/// The content id of an audio file, from all that it holds.
pub fn audio_content_id(bytes: &[u8]) -> (r: String)
    ensures
        r@ == content_id_of(bytes@),
        is_content_id(r@),
{
    let d = digest(bytes);
    let mut out = String::new();
    out.append("b3:");
    let digits = hex_encode(&d);
    out.append(digits.as_str());
    proof {
        reveal_strlit("b3:");
        law_hex_round_trip(d@);
        assert(out@ =~= content_id_of(bytes@));
        assert forall|i: int| 3 <= i < 67 implies is_small_hex(#[trigger] out@[i]) by {
            lemma_small_digits(d@, i - 3);
        }
    }
    out
}

/// A content id in its canonical form is its own canonical form.
pub proof fn law_canonical_is_fixed(v: Seq<char>)
    requires
        is_content_id(v),
    ensures
        canonical(v) == Some(v),
{
    let p = |c: char| crate::text::is_space(c);
    assert(!p(v[0]));
    assert(!p(v.last())) by {
        assert(is_small_hex(v[66]));
    }
    assert(trimmed(v) == v);
    assert(ascii_lowered(v) =~= v) by {
        assert forall|i: int| 0 <= i < v.len() implies crate::text::ascii_lower(v[i]) == v[i] by {
            if i >= 3 {
                assert(is_small_hex(v[i]));
            }
        }
    }
}

/// What comes out is a content id, and bringing it into its canonical form
/// once more changes nothing.
pub proof fn law_canonical_is_idempotent(s: Seq<char>)
    ensures
        canonical(s) matches Some(v) ==> is_content_id(v) && canonical(v) == Some(v),
{
    if let Some(v) = canonical(s) {
        law_canonical_is_fixed(v);
    }
}

} // verus!
