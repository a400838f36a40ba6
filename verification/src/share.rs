//! Share links: `frid://<content id>?t=<label>`.

use crate::content_id::{canonical, canonical_option};
use crate::hex::{hex_pair, pair_of};
use crate::library::models::{credit_line, ref_names, TrackItem};
use crate::text::{
    ascii_text, chars_of, drop_trailing, is_blank, opt_view, slice_of, split_at_chars, split_chars,
    string_of, trim, trim_chars, trimmed,
};
use vstd::prelude::*;
use vstd::utf8::{decode_utf8, encode_utf8, valid_utf8};

verus! {

/// A parsed `frid://` share link.
#[derive(Debug)]
pub struct FridLink {
    /// Canonical content id (`b3:<64 hex>`).
    pub content_id: String,
    /// Human-readable "artists-title" label from the `t` query parameter.
    pub label: Option<String>,
}

/// The text that `String::from_utf8_lossy` makes of bytes that are not UTF-8.
pub uninterp spec fn lossy_text(s: Seq<u8>) -> Seq<char>;

/// The text that a byte sequence is shown as.
pub open spec fn shown_text(s: Seq<u8>) -> Seq<char> {
    if valid_utf8(s) {
        decode_utf8(s)
    } else {
        lossy_text(s)
    }
}

/// `String::from_utf8_lossy`: valid UTF-8 is taken as the text that it is the
/// encoding of. What stands for invalid bytes is left to the name
/// [`lossy_text`].
#[verifier::external_body]
fn from_utf8_lossy(bytes: &[u8]) -> (r: String)
    ensures
        valid_utf8(bytes@) ==> r@ == decode_utf8(bytes@),
        !valid_utf8(bytes@) ==> r@ == lossy_text(bytes@),
{
    String::from_utf8_lossy(bytes).into_owned()
}

/// The bytes that stand for themselves in a link.
pub open spec fn is_unreserved(b: u8) -> bool {
    (65 <= b <= 90) || (97 <= b <= 122) || (48 <= b <= 57) || b == 45 || b == 46 || b == 95 || b
        == 126
}

/// The capital hexadecimal digit for a value below sixteen.
pub open spec fn capital_digit(v: int) -> u8 {
    if v < 10 {
        (48 + v) as u8
    } else {
        (55 + v) as u8
    }
}

/// One byte in a link: itself, or a percent sign and two digits.
pub open spec fn escaped_byte(b: u8) -> Seq<u8> {
    if is_unreserved(b) {
        seq![b]
    } else {
        seq![37u8, capital_digit(b as int / 16), capital_digit(b as int % 16)]
    }
}

pub open spec fn escaped(s: Seq<u8>) -> Seq<u8>
    decreases s.len(),
{
    if s.len() == 0 {
        Seq::empty()
    } else {
        escaped(s.drop_last()) + escaped_byte(s.last())
    }
}

/// The bytes that an escaped sequence stands for: a percent sign and two
/// digits are one byte, a plus sign is a space, everything else is itself.
pub open spec fn unescaped(s: Seq<u8>) -> Seq<u8>
    decreases s.len(),
{
    if s.len() == 0 {
        Seq::empty()
    } else if s[0] == 37 && s.len() >= 3 && hex_pair(s[1], s[2]) is Some {
        seq![hex_pair(s[1], s[2])->0 as u8] + unescaped(s.skip(3))
    } else if s[0] == 43 {
        seq![32u8] + unescaped(s.skip(1))
    } else {
        seq![s[0]] + unescaped(s.skip(1))
    }
}

fn capital_of(v: u8) -> (r: u8)
    requires
        v < 16,
    ensures
        r == capital_digit(v as int),
{
    if v < 10 {
        48 + v
    } else {
        55 + v
    }
}

/// The text with every byte that is not unreserved written as an escape.
pub fn percent_encode(value: &str) -> (r: String)
    ensures
        r@ == ascii_text(escaped(encode_utf8(value@))),
{
    let bytes = value.as_bytes();
    let mut out = String::new();
    let mut i: usize = 0;
    proof {
        assert(out@ =~= ascii_text(escaped(bytes@.take(0))));
    }
    while i < bytes.len()
        invariant
            i <= bytes@.len(),
            out@ == ascii_text(escaped(bytes@.take(i as int))),
        decreases bytes@.len() - i,
    {
        let b: u8 = bytes[i];
        let ghost before = out@;
        if (65 <= b && b <= 90) || (97 <= b && b <= 122) || (48 <= b && b <= 57) || b == 45 || b
            == 46 || b == 95 || b == 126 {
            out.push(b as char);
        } else {
            out.push('%');
            out.push(capital_of(b / 16) as char);
            out.push(capital_of(b % 16) as char);
        }
        i += 1;
        proof {
            let now = bytes@.take(i as int);
            assert(now.drop_last() =~= bytes@.take(i - 1));
            assert(out@ =~= before + ascii_text(escaped_byte(b)));
            assert(out@ =~= ascii_text(escaped(now)));
        }
    }
    proof {
        assert(bytes@.take(bytes@.len() as int) =~= bytes@);
    }
    out
}

fn unescape(s: &[u8]) -> (r: Vec<u8>)
    ensures
        r@ == unescaped(s@),
{
    let mut out: Vec<u8> = Vec::new();
    let mut i: usize = 0;
    let n: usize = s.len();
    proof {
        assert(s@.skip(0) =~= s@);
        assert(out@ + unescaped(s@) =~= unescaped(s@));
    }
    while i < n
        invariant
            i <= n,
            n == s@.len(),
            out@ + unescaped(s@.skip(i as int)) == unescaped(s@),
        decreases n - i,
    {
        let b: u8 = s[i];
        let ghost rest = s@.skip(i as int);
        let ghost before = out@;
        proof {
            assert(rest[0] == b);
            assert(rest.skip(1) =~= s@.skip(i + 1));
        }
        if b == 37 && n - i >= 3 {
            proof {
                assert(rest[1] == s@[i + 1]);
                assert(rest[2] == s@[i + 2]);
                assert(rest.skip(3) =~= s@.skip(i + 3));
            }
            match pair_of(s[i + 1], s[i + 2]) {
                Some(v) => {
                    out.push(v);
                    i += 3;
                    proof {
                        assert(out@ + unescaped(rest.skip(3)) =~= before + unescaped(rest));
                    }
                },
                None => {
                    out.push(b);
                    i += 1;
                    proof {
                        assert(out@ + unescaped(rest.skip(1)) =~= before + unescaped(rest));
                    }
                },
            }
        } else if b == 43 {
            out.push(32);
            i += 1;
            proof {
                assert(out@ + unescaped(rest.skip(1)) =~= before + unescaped(rest));
            }
        } else {
            out.push(b);
            i += 1;
            proof {
                assert(out@ + unescaped(rest.skip(1)) =~= before + unescaped(rest));
            }
        }
    }
    proof {
        assert(s@.skip(i as int) =~= Seq::empty());
        assert(out@ + Seq::<u8>::empty() =~= out@);
    }
    out
}

/// The text that an escaped text stands for.
pub fn percent_decode(value: &str) -> (r: String)
    ensures
        r@ == shown_text(unescaped(encode_utf8(value@))),
{
    let bytes = unescape(value.as_bytes());
    from_utf8_lossy(&bytes)
}

proof fn lemma_unescaped_group(b: u8, rest: Seq<u8>)
    ensures
        unescaped(escaped_byte(b) + rest) == seq![b] + unescaped(rest),
{
    let s = escaped_byte(b) + rest;
    if is_unreserved(b) {
        assert(s.skip(1) =~= rest);
    } else {
        assert(s.skip(3) =~= rest);
        assert((b as int / 16) * 16 + b as int % 16 == b);
    }
}

proof fn lemma_unescaped_prefix(s: Seq<u8>, rest: Seq<u8>)
    ensures
        unescaped(escaped(s) + rest) == s + unescaped(rest),
    decreases s.len(),
{
    if s.len() == 0 {
        assert(escaped(s) + rest =~= rest);
        assert(s + unescaped(rest) =~= unescaped(rest));
    } else {
        let head = s.drop_last();
        let tail = escaped_byte(s.last()) + rest;
        assert(escaped(s) + rest =~= escaped(head) + tail);
        lemma_unescaped_prefix(head, tail);
        lemma_unescaped_group(s.last(), rest);
        assert(head + (seq![s.last()] + unescaped(rest)) =~= s + unescaped(rest));
    }
}

proof fn lemma_escaped_bytes(s: Seq<u8>)
    ensures
        forall|i: int|
            0 <= i < escaped(s).len() ==> is_unreserved(#[trigger] escaped(s)[i]) || escaped(s)[i]
                == 37,
    decreases s.len(),
{
    if s.len() > 0 {
        let head = escaped(s.drop_last());
        let tail = escaped_byte(s.last());
        lemma_escaped_bytes(s.drop_last());
        assert forall|i: int| 0 <= i < escaped(s).len() implies is_unreserved(
            #[trigger] escaped(s)[i],
        ) || escaped(s)[i] == 37 by {
            if i < head.len() {
                assert(escaped(s)[i] == head[i]);
            } else {
                assert(escaped(s)[i] == tail[i - head.len()]);
            }
        }
    }
}

/// Unescaping what was escaped gives the same bytes: a label survives the way
/// through a link, whatever its script.
pub proof fn law_percent_round_trip(s: Seq<u8>)
    ensures
        unescaped(escaped(s)) == s,
        encode_utf8(ascii_text(escaped(s))) == escaped(s),
{
    lemma_unescaped_prefix(s, Seq::empty());
    assert(escaped(s) + Seq::<u8>::empty() =~= escaped(s));
    assert(s + Seq::<u8>::empty() =~= s);
    lemma_escaped_bytes(s);
    crate::text::lemma_ascii_text(escaped(s));
}

/// What a track is shared by: the content id of the federated track, else the
/// local one, in canonical form.
pub open spec fn shared_content_id(track: TrackItem) -> Option<Seq<char>> {
    match track@.fed {
        Some(fed) => match fed.content_id {
            Some(id) => canonical(id),
            None => canonical_option(track@.content_id),
        },
        None => canonical_option(track@.content_id),
    }
}

pub fn track_content_id(track: &TrackItem) -> (r: Option<String>)
    ensures
        opt_view(r) == shared_content_id(*track),
{
    if let Some(fed) = &track.fed {
        if let Some(id) = &fed.content_id {
            return crate::content_id::normalize_content_id(id);
        }
    }
    crate::content_id::normalize_option(&track.content_id)
}

/// A track can be shared by its content id, or by hashing its file.
pub fn track_can_share(track: &TrackItem) -> (r: bool)
    ensures
        r == (shared_content_id(*track) is Some || !is_blank(track.file_path@)),
{
    track_content_id(track).is_some() || !crate::text::blank(track.file_path.as_str())
}

/// The label of a shared track: "artists-title", without an empty half.
pub open spec fn label_of(track: TrackItem) -> Seq<char> {
    let artists = trimmed(credit_line(ref_names(track.artists@), ref_names(track.featured_artists@)));
    let title = trimmed(track.title@);
    if artists.len() > 0 && title.len() > 0 {
        artists + seq!['-'] + title
    } else if title.len() > 0 {
        title
    } else {
        artists
    }
}

fn track_share_label(track: &TrackItem) -> (r: String)
    ensures
        r@ == label_of(*track),
{
    let line = track.artist_line();
    let artists = trim(line.as_str());
    let title = trim(track.title.as_str());
    if !artists.as_str().is_empty() && !title.as_str().is_empty() {
        let mut out = artists;
        out.push('-');
        out.append(title.as_str());
        proof {
            assert(out@ =~= label_of(*track));
        }
        out
    } else if !title.as_str().is_empty() {
        title
    } else {
        artists
    }
}

/// The link for a content id and a label.
pub open spec fn link_text(content_id: Seq<char>, label: Seq<char>) -> Seq<char> {
    if label.len() == 0 {
        "frid://"@ + content_id
    } else {
        "frid://"@ + content_id + "?t="@ + ascii_text(escaped(encode_utf8(label)))
    }
}

/// The share link of a track under the given content id.
pub fn track_share_link_for_content_id(track: &TrackItem, content_id: &str) -> (r: String)
    ensures
        r@ == link_text(content_id@, label_of(*track)),
{
    let label = track_share_label(track);
    let mut out = String::new();
    out.append("frid://");
    out.append(content_id);
    proof {
        assert(out@ =~= "frid://"@ + content_id@);
    }
    if !label.as_str().is_empty() {
        out.append("?t=");
        let value = percent_encode(label.as_str());
        out.append(value.as_str());
    }
    out
}

/// The share link of a track whose content id is known.
pub fn cached_track_share_link(track: &TrackItem) -> (r: Option<String>)
    ensures
        opt_view(r) == match shared_content_id(*track) {
            Some(id) => Some(link_text(id, label_of(*track))),
            None => None,
        },
{
    match track_content_id(track) {
        Some(id) => Some(track_share_link_for_content_id(track, id.as_str())),
        None => None,
    }
}

/// The share link of a track: under its content id, else under the one that
/// its file hashed to. A blank path is not hashed.
pub fn track_share_link(track: &TrackItem, hashed: Option<String>) -> (r: Option<String>)
    ensures
        opt_view(r) == match shared_content_id(*track) {
            Some(id) => Some(link_text(id, label_of(*track))),
            None => if is_blank(track.file_path@) {
                None
            } else {
                match opt_view(hashed) {
                    Some(id) => Some(link_text(id, label_of(*track))),
                    None => None,
                }
            },
        },
{
    match track_content_id(track) {
        Some(id) => Some(track_share_link_for_content_id(track, id.as_str())),
        None => if crate::text::blank(track.file_path.as_str()) {
            None
        } else {
            match hashed {
                Some(id) => Some(track_share_link_for_content_id(track, id.as_str())),
                None => None,
            }
        },
    }
}

/// The text behind a prefix, if it starts with that prefix.
pub open spec fn after_prefix(s: Seq<char>, prefix: Seq<char>) -> Option<Seq<char>> {
    if s.len() >= prefix.len() && s.take(prefix.len() as int) == prefix {
        Some(s.skip(prefix.len() as int))
    } else {
        None
    }
}

pub(crate) fn strip_prefix(s: &[char], prefix: &str) -> (r: Option<Vec<char>>)
    ensures
        match r {
            Some(v) => after_prefix(s@, prefix@) == Some(v@),
            None => after_prefix(s@, prefix@) is None,
        },
{
    let p = chars_of(prefix);
    if s.len() < p.len() {
        return None;
    }
    let head = slice_of(s, 0, p.len());
    let rest = slice_of(s, p.len(), s.len());
    proof {
        assert(head@ =~= s@.take(p@.len() as int));
        assert(rest@ =~= s@.skip(p@.len() as int));
    }
    if crate::text::same_chars(&head, &p) {
        Some(rest)
    } else {
        None
    }
}

/// The label that a `t=` pair carries: its value, unescaped and without the
/// white space around it, unless nothing is left.
pub open spec fn pair_label(pair: Seq<char>) -> Option<Seq<char>> {
    match after_prefix(pair, "t="@) {
        Some(value) => {
            let label = trimmed(shown_text(unescaped(encode_utf8(value))));
            if label.len() > 0 {
                Some(label)
            } else {
                None
            }
        },
        None => None,
    }
}

/// The first label among the pairs.
pub open spec fn first_label(pairs: Seq<Seq<char>>) -> Option<Seq<char>>
    decreases pairs.len(),
{
    if pairs.len() == 0 {
        None
    } else {
        match pair_label(pairs[0]) {
            Some(label) => Some(label),
            None => first_label(pairs.skip(1)),
        }
    }
}

pub open spec fn starts_query(c: char) -> bool {
    c == '?' || c == '#'
}

/// What a share link says: its content id and its label.
pub open spec fn parsed_link(s: Seq<char>) -> Option<(Seq<char>, Option<Seq<char>>)> {
    match after_prefix(trimmed(s), "frid://"@) {
        None => None,
        Some(rest) => {
            let query = crate::text::drop_leading(rest, |c: char| !starts_query(c));
            let path = rest.take(rest.len() - query.len());
            match canonical(drop_trailing(path, |c: char| c == '/')) {
                None => None,
                Some(id) => Some(
                    (
                        id,
                        if query.len() == 0 {
                            None
                        } else {
                            first_label(split_at_chars(query.skip(1), |c: char| c == '&'))
                        },
                    ),
                ),
            }
        },
    }
}

fn not_query(c: char) -> (r: bool)
    ensures
        r == !starts_query(c),
{
    c != '?' && c != '#'
}

fn is_slash(c: char) -> (r: bool)
    ensures
        r == (c == '/'),
{
    c == '/'
}

fn is_ampersand(c: char) -> (r: bool)
    ensures
        r == (c == '&'),
{
    c == '&'
}

fn find_label(pairs: &Vec<Vec<char>>) -> (r: Option<String>)
    ensures
        opt_view(r) == first_label(crate::text::char_views(pairs@)),
{
    let mut i: usize = 0;
    let ghost all = crate::text::char_views(pairs@);
    proof {
        assert(all.skip(0) =~= all);
    }
    while i < pairs.len()
        invariant
            i <= pairs@.len(),
            all == crate::text::char_views(pairs@),
            first_label(all) == first_label(all.skip(i as int)),
        decreases pairs@.len() - i,
    {
        proof {
            assert(all.skip(i as int)[0] == pairs@[i as int]@);
            assert(all.skip(i as int).skip(1) =~= all.skip(i + 1));
        }
        if let Some(value) = strip_prefix(&pairs[i], "t=") {
            let value = string_of(&value);
            let label = percent_decode(value.as_str());
            let label = trim(label.as_str());
            if !label.as_str().is_empty() {
                return Some(label);
            }
        }
        i += 1;
    }
    None
}

/// Reads a share link: the content id up to a question mark or a number sign,
/// and the first label behind it. Anything else is no link.
pub fn parse_frid_link(value: &str) -> (r: Option<FridLink>)
    ensures
        match r {
            Some(link) => parsed_link(value@) == Some((link.content_id@, opt_view(link.label))),
            None => parsed_link(value@) is None,
        },
{
    let chars = chars_of(value);
    let value = trim_chars(&chars);
    let rest = match strip_prefix(&value, "frid://") {
        Some(rest) => rest,
        None => {
            return None;
        },
    };
    let n = crate::text::leading_count(&rest, not_query, Ghost(|c: char| !starts_query(c)));
    let path = slice_of(&rest, 0, n);
    let end = crate::text::trailing_end(&path, is_slash, Ghost(|c: char| c == '/'));
    let id = slice_of(&path, 0, end);
    proof {
        assert(path@ =~= rest@.take(n as int));
        assert(rest@.len() - rest@.skip(n as int).len() == n);
        assert(id@ =~= path@.take(end as int));
    }
    let id = string_of(&id);
    let content_id = match crate::content_id::normalize_content_id(id.as_str()) {
        Some(id) => id,
        None => {
            return None;
        },
    };
    if n == rest.len() {
        return Some(FridLink { content_id, label: None });
    }
    let query = slice_of(&rest, n + 1, rest.len());
    proof {
        assert(query@ =~= rest@.skip(n as int).skip(1));
    }
    let pairs = split_chars(&query, is_ampersand, Ghost(|c: char| c == '&'));
    Some(FridLink { content_id, label: find_label(&pairs) })
}

proof fn lemma_drop_leading_prefix(s: Seq<char>, t: Seq<char>, p: spec_fn(char) -> bool)
    requires
        forall|i: int| 0 <= i < s.len() ==> p(#[trigger] s[i]),
    ensures
        crate::text::drop_leading(s + t, p) == crate::text::drop_leading(t, p),
    decreases s.len(),
{
    if s.len() == 0 {
        assert(s + t =~= t);
    } else {
        assert((s + t).skip(1) =~= s.skip(1) + t);
        assert((s + t)[0] == s[0]);
        lemma_drop_leading_prefix(s.skip(1), t, p);
    }
}

proof fn lemma_unsplit(s: Seq<char>, p: spec_fn(char) -> bool)
    requires
        forall|i: int| 0 <= i < s.len() ==> !p(#[trigger] s[i]),
    ensures
        split_at_chars(s, p) == seq![s],
    decreases s.len(),
{
    if s.len() == 0 {
        assert(s =~= Seq::empty());
    } else {
        let head = s.drop_last();
        assert forall|i: int| 0 <= i < head.len() implies !p(#[trigger] head[i]) by {
            assert(head[i] == s[i]);
        }
        lemma_unsplit(head, p);
        assert(seq![head].drop_last() =~= Seq::empty());
        assert(head.push(s.last()) =~= s);
        assert(split_at_chars(s, p) =~= seq![s]);
    }
}

proof fn lemma_kept(s: Seq<char>)
    requires
        s.len() > 0,
        !crate::text::is_space(s[0]),
        !crate::text::is_space(s.last()),
    ensures
        trimmed(s) == s,
{
}

/// Reading a share link gives back what it was made from: the content id, and
/// the label unless it is empty.
pub proof fn law_share_link_round_trip(content_id: Seq<char>, label: Seq<char>)
    requires
        crate::content_id::is_content_id(content_id),
        trimmed(label) == label,
    ensures
        parsed_link(link_text(content_id, label)) == Some(
            (
                content_id,
                if label.len() == 0 {
                    None
                } else {
                    Some(label)
                },
            ),
        ),
{
    reveal_strlit("frid://");
    reveal_strlit("?t=");
    reveal_strlit("t=");
    let link = link_text(content_id, label);
    let bytes = encode_utf8(label);
    let e = ascii_text(escaped(bytes));
    let tail = if label.len() == 0 {
        Seq::<char>::empty()
    } else {
        "?t="@ + e
    };
    let p = |c: char| !starts_query(c);
    law_percent_round_trip(bytes);
    lemma_escaped_bytes(bytes);
    vstd::utf8::encode_utf8_valid_utf8(label);
    vstd::utf8::encode_utf8_decode_utf8(label);
    crate::content_id::law_canonical_is_fixed(content_id);
    assert(crate::content_id::is_small_hex(content_id[66]));
    if label.len() > 0 {
        assert(e.len() > 0) by {
            if escaped(bytes).len() == 0 {
                assert(unescaped(escaped(bytes)) =~= Seq::empty());
                assert(bytes.len() == 0);
                assert(decode_utf8(bytes) =~= Seq::empty());
            }
        }
        assert(is_unreserved(escaped(bytes).last()) || escaped(bytes).last() == 37);
        assert(link.last() == e.last());
    } else {
        assert(link.last() == content_id[66]);
    }
    assert(link[0] == 'f');
    lemma_kept(link);
    let rest = content_id + tail;
    assert(link =~= "frid://"@ + rest);
    assert(link.take(7) =~= "frid://"@);
    assert(link.skip(7) =~= rest);
    assert forall|i: int| 0 <= i < content_id.len() implies p(#[trigger] content_id[i]) by {
        if i >= 3 {
            assert(crate::content_id::is_small_hex(content_id[i]));
        }
    }
    lemma_drop_leading_prefix(content_id, tail, p);
    let query = crate::text::drop_leading(rest, p);
    if label.len() > 0 {
        assert(starts_query(tail[0]));
        assert(!p(tail[0]));
    }
    assert(query == tail);
    assert(rest.take(rest.len() - query.len()) =~= content_id);
    let slash = |c: char| c == '/';
    assert(!slash(content_id.last()));
    assert(drop_trailing(content_id, slash) == content_id);
    if label.len() > 0 {
        let amp = |c: char| c == '&';
        let pair = tail.skip(1);
        assert(pair =~= "t="@ + e);
        assert forall|i: int| 0 <= i < pair.len() implies !amp(#[trigger] pair[i]) by {
            if i >= 2 {
                assert(pair[i] == e[i - 2]);
                assert(is_unreserved(escaped(bytes)[i - 2]) || escaped(bytes)[i - 2] == 37);
            }
        }
        lemma_unsplit(pair, amp);
        assert(pair.take(2) =~= "t="@);
        assert(pair.skip(2) =~= e);
        assert(pair_label(pair) == Some(label));
    }
}

} // verus!
