//! What holds of what is read from the tags of a file.

use crate::library::import::{
    ampersand_pieces, clean_name, clean_names, feat_markers, feat_place, featured_in_title,
    imported, lists_ignoring_case, marker_place, names_in, notes_outcome, opens_feature,
    place_of_any, separates_artists, tag_artists, tag_title, tagged_artists, with_guests,
    FileFacts, FileOutcome, FileTags, ImportOutcome, ImportView,
};
use crate::text::{
    ascii_lowered, find_from, is_blank, occurs_at, split_at_chars, split_at_text, trimmed,
};
use vstd::prelude::*;

verus! {

// ---------------------------------------------------------------------------
// Guests
// ---------------------------------------------------------------------------

/// Whether the word before the guests stands at a place of a text: with a space or an
/// opening bracket before it and a space behind it.
pub open spec fn announces_guests(s: Seq<char>, j: int, l: int) -> bool {
    &&& 0 < j < l < s.len()
    &&& s[l] == ' '
    &&& s[j - 1] == ' ' || s[j - 1] == '(' || s[j - 1] == '[' || s[j - 1] == ',' || s[j - 1] == '-'
    &&& {
        let word = ascii_lowered(s).subrange(j, l);
        ||| word == "feat"@
        ||| word == "feat."@
        ||| word == "ft"@
        ||| word == "ft."@
        ||| word == "featuring"@
    }
}

proof fn lemma_markers(w: Seq<char>)
    ensures
        feat_markers().contains(w) <==> w == "feat"@ || w == "feat."@ || w == "ft"@ || w == "ft."@
            || w == "featuring"@,
        forall|i: int| 0 <= i < feat_markers().len() ==> (#[trigger] feat_markers()[i]).len() > 0,
{
    reveal_strlit("feat");
    reveal_strlit("feat.");
    reveal_strlit("ft");
    reveal_strlit("ft.");
    reveal_strlit("featuring");
    let m = feat_markers();
    assert(m[0] == "featuring"@ && m[1] == "feat."@ && m[2] == "feat"@ && m[3] == "ft."@ && m[4]
        == "ft"@);
}

proof fn lemma_place_of_any(raw: Seq<char>, j: int, markers: Seq<Seq<char>>)
    ensures
        match place_of_any(raw, j, markers) {
            Some(p) => exists|i: int|
                0 <= i < markers.len() && marker_place(raw, j, #[trigger] markers[i]) == Some(p),
            None => forall|i: int|
                0 <= i < markers.len() ==> marker_place(raw, j, #[trigger] markers[i]) is None,
        },
    decreases markers.len(),
{
    if markers.len() > 0 {
        let t = markers.skip(1);
        lemma_place_of_any(raw, j, t);
        assert forall|i: int| 0 <= i < t.len() implies t[i] == #[trigger] markers[i + 1] by {}
        match place_of_any(raw, j, markers) {
            Some(p) => {
                if marker_place(raw, j, markers[0]) is None {
                    let i = choose|i: int|
                        0 <= i < t.len() && marker_place(raw, j, #[trigger] t[i]) == Some(p);
                    assert(markers[i + 1] == t[i]);
                }
            },
            None => {
                assert forall|i: int| 0 <= i < markers.len() implies marker_place(
                    raw,
                    j,
                    #[trigger] markers[i],
                ) is None by {
                    if i > 0 {
                        assert(t[i - 1] == markers[i]);
                    }
                }
            },
        }
    }
}

proof fn lemma_announced(raw: Seq<char>, j: int)
    ensures
        match place_of_any(raw, j, feat_markers()) {
            Some((k, l)) => k == j && announces_guests(raw, j, l),
            None => forall|l: int| !#[trigger] announces_guests(raw, j, l),
        },
{
    let ms = feat_markers();
    let low = ascii_lowered(raw);
    lemma_place_of_any(raw, j, ms);
    lemma_markers(Seq::empty());
    match place_of_any(raw, j, ms) {
        Some(p) => {
            let i = choose|i: int|
                0 <= i < ms.len() && marker_place(raw, j, #[trigger] ms[i]) == Some(p);
            lemma_markers(ms[i]);
            assert(ms.contains(ms[i]));
            assert(low.subrange(j, p.1) == ms[i]);
        },
        None => {
            assert forall|l: int| !#[trigger] announces_guests(raw, j, l) by {
                if announces_guests(raw, j, l) {
                    let w = low.subrange(j, l);
                    lemma_markers(w);
                    let i = ms.index_of(w);
                    assert(ms[i] == w);
                    assert(low.len() == raw.len());
                    assert(occurs_at(low, w, j));
                    assert(marker_place(raw, j, ms[i]) is Some);
                }
            }
        },
    }
}

proof fn lemma_feat_place(raw: Seq<char>, from: int)
    requires
        0 <= from,
    ensures
        match feat_place(raw, from) {
            Some((j, l)) => from <= j && announces_guests(raw, j, l) && forall|i: int, m: int|
                from <= i < j ==> !#[trigger] announces_guests(raw, i, m),
            None => forall|i: int, m: int| from <= i ==> !#[trigger] announces_guests(raw, i, m),
        },
    decreases raw.len() - from,
{
    if from < raw.len() {
        lemma_announced(raw, from);
        if place_of_any(raw, from, feat_markers()) is None {
            lemma_feat_place(raw, from + 1);
        }
    }
}

/// Whether names are those at the start of a text.
pub open spec fn is_read_from(names: Seq<Seq<char>>, s: Seq<char>) -> bool {
    exists|b: Seq<char>|
        names == #[trigger] names_in(b) && b.len() <= s.len() && b == s.take(b.len() as int)
            && forall|i: int| b.len() <= i < s.len() ==> #[trigger] s[i] == ')' || s[i] == ']'
}

/// The guests of an artist tag are those behind the first word that announces guests, and
/// the artists those before it; without such a word there are no guests.
pub proof fn law_guests_are_behind_their_word(raw: Seq<char>)
    ensures
        ({
            let tag = trimmed(raw);
            let (artists, guests) = tagged_artists(raw);
            &&& (forall|i: int, m: int| !#[trigger] announces_guests(tag, i, m)) ==> artists
                == names_in(tag) && guests == names_in(Seq::empty()) || tag.len() == 0
            &&& forall|j: int, l: int|
                #[trigger] announces_guests(tag, j, l) && (forall|i: int, m: int|
                    i < j ==> !#[trigger] announces_guests(tag, i, m)) ==> exists|b: Seq<char>|
                    artists == #[trigger] names_in(b) && b.len() <= j && b == tag.take(
                        b.len() as int,
                    )
            &&& forall|j: int, l: int|
                #[trigger] announces_guests(tag, j, l) && (forall|i: int, m: int|
                    i < j ==> !#[trigger] announces_guests(tag, i, m)) ==> exists|n: int|
                    #[trigger] announces_guests(tag, j, n) && is_read_from(guests, tag.skip(n))
        }),
{
    let tag = trimmed(raw);
    let (artists, guests) = tagged_artists(raw);
    if tag.len() > 0 {
        lemma_feat_place(tag, 0);
        match feat_place(tag, 0) {
            Some((k, l)) => {
                assert(announces_guests(tag, k, l));
                let b = crate::text::drop_trailing(tag.take(k), |c: char| opens_feature(c));
                lemma_drop_trailing(tag.take(k), |c: char| opens_feature(c));
                assert(b =~= tag.take(b.len() as int));
                assert(artists == names_in(b));
                let p = |c: char| crate::library::import::closes_feature(c);
                let behind = crate::text::drop_trailing(tag.skip(l), p);
                lemma_drop_trailing(tag.skip(l), p);
                assert(guests == names_in(behind));
                assert(is_read_from(guests, tag.skip(l)));
            },
            None => {},
        }
    }
}

proof fn lemma_drop_trailing(s: Seq<char>, p: spec_fn(char) -> bool)
    ensures
        crate::text::drop_trailing(s, p).len() <= s.len(),
        crate::text::drop_trailing(s, p) == s.take(crate::text::drop_trailing(s, p).len() as int),
        forall|i: int|
            crate::text::drop_trailing(s, p).len() <= i < s.len() ==> p(#[trigger] s[i]),
    decreases s.len(),
{
    if s.len() > 0 && p(s.last()) {
        lemma_drop_trailing(s.drop_last(), p);
        assert forall|i: int|
            crate::text::drop_trailing(s, p).len() <= i < s.len() implies p(#[trigger] s[i]) by {
            if i < s.len() - 1 {
                assert(s.drop_last()[i] == s[i]);
            }
        }
        assert(s.drop_last().take(crate::text::drop_trailing(s, p).len() as int) =~= s.take(
            crate::text::drop_trailing(s, p).len() as int,
        ));
    } else {
        assert(s.take(s.len() as int) =~= s);
    }
}

// ---------------------------------------------------------------------------
// Lists of names
// ---------------------------------------------------------------------------

proof fn lemma_split_len(s: Seq<char>, p: spec_fn(char) -> bool)
    ensures
        split_at_chars(s, p).len() >= 1,
    decreases s.len(),
{
    if s.len() > 0 {
        lemma_split_len(s.drop_last(), p);
    }
}

proof fn lemma_split_joined(a: Seq<char>, c: char, b: Seq<char>, p: spec_fn(char) -> bool)
    requires
        p(c),
    ensures
        split_at_chars(a.push(c) + b, p) == split_at_chars(a, p) + split_at_chars(b, p),
    decreases b.len(),
{
    let s = a.push(c) + b;
    if b.len() == 0 {
        assert(s =~= a.push(c));
        assert(s.drop_last() =~= a);
        assert(split_at_chars(s, p) =~= split_at_chars(a, p) + split_at_chars(b, p));
    } else {
        let h = b.drop_last();
        lemma_split_joined(a, c, h, p);
        lemma_split_len(h, p);
        assert(s.drop_last() =~= a.push(c) + h);
        assert(s.last() == b.last());
        assert(split_at_chars(s, p) =~= split_at_chars(a, p) + split_at_chars(b, p));
    }
}

proof fn lemma_pieces_joined(a: Seq<Seq<char>>, b: Seq<Seq<char>>)
    ensures
        ampersand_pieces(a + b) == ampersand_pieces(a) + ampersand_pieces(b),
    decreases b.len(),
{
    if b.len() == 0 {
        assert(a + b =~= a);
        assert(ampersand_pieces(a + b) =~= ampersand_pieces(a) + ampersand_pieces(b));
    } else {
        lemma_pieces_joined(a, b.drop_last());
        assert((a + b).drop_last() =~= a + b.drop_last());
        assert(ampersand_pieces(a + b) =~= ampersand_pieces(a) + ampersand_pieces(b));
    }
}

proof fn lemma_names_joined(a: Seq<Seq<char>>, b: Seq<Seq<char>>)
    ensures
        clean_names(a + b) == clean_names(a) + clean_names(b),
    decreases b.len(),
{
    if b.len() == 0 {
        assert(a + b =~= a);
        assert(clean_names(a + b) =~= clean_names(a) + clean_names(b));
    } else {
        lemma_names_joined(a, b.drop_last());
        assert((a + b).drop_last() =~= a + b.drop_last());
        assert(clean_names(a + b) =~= clean_names(a) + clean_names(b));
    }
}

/// A list of names that is joined by a semicolon or a slash holds the names of both parts,
/// in order.
pub proof fn law_joined_lists_hold_the_names_of_both(a: Seq<char>, c: char, b: Seq<char>)
    requires
        c == ';' || c == '/',
    ensures
        names_in(a.push(c) + b) == names_in(a) + names_in(b),
{
    let p = |x: char| separates_artists(x);
    lemma_split_joined(a, c, b, p);
    lemma_pieces_joined(split_at_chars(a, p), split_at_chars(b, p));
    lemma_names_joined(
        ampersand_pieces(split_at_chars(a, p)),
        ampersand_pieces(split_at_chars(b, p)),
    );
}

proof fn lemma_unsplit(s: Seq<char>, p: spec_fn(char) -> bool)
    requires
        forall|i: int| 0 <= i < s.len() ==> !p(#[trigger] s[i]),
    ensures
        split_at_chars(s, p) == seq![s],
    decreases s.len(),
{
    if s.len() > 0 {
        let h = s.drop_last();
        assert forall|i: int| 0 <= i < h.len() implies !p(#[trigger] h[i]) by {
            assert(h[i] == s[i]);
        }
        lemma_unsplit(h, p);
        assert(h.push(s.last()) =~= s);
        assert(!p(s[s.len() - 1]));
        assert(split_at_chars(s, p) =~= seq![s]);
    } else {
        assert(s =~= Seq::empty());
    }
}

/// A single name is read as it stands, without the space and the commas around it.
pub proof fn law_single_name_is_kept(s: Seq<char>)
    requires
        forall|i: int| 0 <= i < s.len() ==> #[trigger] s[i] != ';' && s[i] != '/' && s[i] != '&'
            && s[i] != ',',
        !is_blank(s),
    ensures
        names_in(s) == seq![trimmed(trimmed(s))],
{
    let p = |x: char| separates_artists(x);
    assert forall|i: int| 0 <= i < s.len() implies !p(#[trigger] s[i]) by {}
    lemma_unsplit(s, p);
    let sep = " & "@;
    reveal_strlit(" & ");
    crate::text::lemma_find_from(s, sep, 0);
    if let Some(i) = find_from(s, sep, 0) {
        assert(s.subrange(i, i + sep.len())[1] == sep[1]);
        assert(s[i + 1] == '&');
    }
    let one = split_at_chars(s, p);
    assert(one.drop_last() =~= Seq::empty());
    assert(ampersand_pieces(one.drop_last()) =~= Seq::empty());
    assert(split_at_text(s, sep) == seq![s]);
    assert(ampersand_pieces(one) =~= seq![s]);
    let q = |c: char| c == ',';
    let t = trimmed(s);
    crate::text_laws::law_trimmed_text(s);
    let k = choose|k: int|
        #[trigger] crate::text_laws::cut_at(s, t, k) && 0 <= k && k + t.len() <= s.len();
    assert forall|i: int| 0 <= i < t.len() implies #[trigger] t[i] != ',' by {
        assert(t[i] == s[k + i]);
    }
    assert(crate::text::drop_leading(t, q) == t);
    assert(crate::text::drop_trailing(t, q) == t);
    assert(clean_name(s) == trimmed(t));
    crate::text_laws::law_trimmed_text(t);
    let x = seq![s];
    assert(x.drop_last() =~= Seq::empty());
    assert(clean_names(x.drop_last()) =~= Seq::empty());
    crate::text_laws::law_trimming_again_changes_nothing(s);
    assert(clean_names(x) =~= seq![trimmed(t)]);
}

// ---------------------------------------------------------------------------
// Files
// ---------------------------------------------------------------------------

proof fn lemma_with_guests(names: Seq<Seq<char>>, more: Seq<Seq<char>>)
    ensures
        ({
            let s = with_guests(names, more);
            &&& s.len() >= names.len()
            &&& s.take(names.len() as int) == names
            &&& forall|i: int|
                0 <= i < more.len() ==> lists_ignoring_case(s, #[trigger] more[i])
        }),
    decreases more.len(),
{
    if more.len() > 0 {
        let h = more.drop_last();
        lemma_with_guests(names, h);
        let b = with_guests(names, h);
        let s = with_guests(names, more);
        assert(s.take(names.len() as int) =~= b.take(names.len() as int));
        assert forall|i: int| 0 <= i < more.len() implies lists_ignoring_case(
            s,
            #[trigger] more[i],
        ) by {
            if i < h.len() {
                assert(h[i] == more[i]);
                assert(lists_ignoring_case(b, h[i]));
                let k = choose|k: int|
                    0 <= k < b.len() && ascii_lowered(#[trigger] b[k]) == ascii_lowered(h[i]);
                assert(s[k] == b[k]);
            } else if !lists_ignoring_case(b, more.last()) {
                assert(s[s.len() - 1] == more.last());
            }
        }
    } else {
        assert(names.take(names.len() as int) =~= names);
    }
}

/// A file is imported as its tags say: every artist and every guest that they name is
/// there, numbers are kept, and what they do not say is filled in.
pub proof fn law_file_is_read_as_tagged(file: FileFacts, tags: Option<FileTags>, x: ImportView)
    requires
        x == imported(file, tags),
    ensures
        x.file_path == file.path@,
        x.duration == file.duration,
        x.file_size_bytes == file.size,
        tags is None ==> x.cover is None && x.year is None && x.track_number is None,
        tags matches Some(t) ==> {
            &&& x.cover == t.cover
            &&& t.year matches Some(n) ==> (n <= i32::MAX ==> x.year == Some(n as i32))
            &&& t.track matches Some(n) ==> (n <= i32::MAX ==> x.track_number == Some(n as i32))
            &&& t.disc matches Some(n) ==> (n <= i32::MAX ==> x.disc_number == Some(n as i32))
            &&& t.year is None ==> x.year is None
            &&& t.track is None ==> x.track_number is None
            &&& t.disc is None ==> x.disc_number is None
            &&& t.album matches Some(a) ==> (!is_blank(a@) ==> x.release_title == trimmed(a@))
            &&& t.artist matches Some(a) ==> (tagged_artists(a@).0.len() > 0 ==> x.artists
                == tagged_artists(a@).0)
            &&& t.artist matches Some(a) ==> x.featured_artists.len() >= tagged_artists(a@).1.len()
                && x.featured_artists.take(tagged_artists(a@).1.len() as int) == tagged_artists(
                a@,
            ).1
            &&& t.album_artist is None ==> x.album_artists == x.artists
        },
        tags is None || tags->0.album is None || is_blank(tags->0.album->0@) ==> x.release_title
            == "Unknown Album"@,
        tags is None || tags->0.artist is None || is_blank(tags->0.artist->0@) ==> x.artists
            == seq!["Unknown Artist"@],
        tags is None || tags->0.title is None || is_blank(tags->0.title->0@) ==> tag_title(
            file,
            tags,
        ) == (if file.stem is Some {
            file.stem->0@
        } else {
            "Unknown"@
        }),
        tags matches Some(t) ==> (t.title matches Some(s) ==> (!is_blank(s@) ==> tag_title(
            file,
            tags,
        ) == trimmed(s@))),
        featured_in_title(tag_title(file, tags)) is None ==> x.title == tag_title(file, tags),
        featured_in_title(tag_title(file, tags)) matches Some(p) ==> x.title == p.0 && forall|
            i: int,
        |
            0 <= i < p.1.len() ==> lists_ignoring_case(x.featured_artists, #[trigger] p.1[i]),
{
    let raw = tag_title(file, tags);
    let (named, guests) = tag_artists(tags);
    if let Some((t, more)) = featured_in_title(raw) {
        lemma_with_guests(guests, more);
    }
    crate::text_laws::law_trimmed_text(Seq::empty());
    assert(guests.take(guests.len() as int) =~= guests);
}

/// Each file that is imported is counted once: as new, as known before, or as failed.
pub proof fn law_each_file_is_counted_once(
    a: ImportOutcome,
    b: ImportOutcome,
    file: String,
    outcome: FileOutcome,
)
    requires
        notes_outcome(a, b, file, outcome),
    ensures
        b.added + b.updated + b.failed@.len() == a.added + a.updated + a.failed@.len() + 1,
        outcome is Added <==> b.added == a.added + 1,
        outcome is Updated <==> b.updated == a.updated + 1,
        outcome is Failed <==> b.failed@.len() == a.failed@.len() + 1,
        outcome matches FileOutcome::Failed(why) ==> b.failed@.last() == (file, why),
{
}

} // verus!
