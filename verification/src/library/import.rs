//! What the tags of an audio file say, and how it is imported: artist lists,
//! featured artists in titles, fallbacks for missing tags.

use crate::library::models::{clone_strings, Seconds};
use crate::text::{
    ascii_lowercase, ascii_lowered, char_views, chars_of, drop_leading, drop_trailing, find_from,
    find_text, is_space, leading_count, lower_chars, occurs, occurs_at, opt_view, slice_of, split_at_chars,
    split_at_text, split_chars, split_text, string_of, trailing_end, trim, trim_chars, trimmed,
    views,
};
use vstd::prelude::*;

verus! {

/// The characters that a featuring marker stands behind.
pub open spec fn opens_feature(c: char) -> bool {
    c == ' ' || c == '(' || c == '[' || c == ',' || c == '-'
}

fn feature_opener(c: char) -> (r: bool)
    ensures
        r == opens_feature(c),
{
    c == ' ' || c == '(' || c == '[' || c == ',' || c == '-'
}

pub open spec fn closes_feature(c: char) -> bool {
    c == ')' || c == ']'
}

fn feature_closer(c: char) -> (r: bool)
    ensures
        r == closes_feature(c),
{
    c == ')' || c == ']'
}

/// The words that start a list of featured artists, the longest first.
pub open spec fn feat_markers() -> Seq<Seq<char>> {
    seq!["featuring"@, "feat."@, "feat"@, "ft."@, "ft"@]
}

fn feat_marker_list() -> (r: Vec<Vec<char>>)
    ensures
        char_views(r@) == feat_markers(),
{
    let mut out: Vec<Vec<char>> = Vec::new();
    out.push(chars_of("featuring"));
    out.push(chars_of("feat."));
    out.push(chars_of("feat"));
    out.push(chars_of("ft."));
    out.push(chars_of("ft"));
    proof {
        assert(char_views(out@) =~= feat_markers());
    }
    out
}

/// Where a marker stands at a position, in letters of either case: one that can
/// stand before a marker comes before it, and a space behind it.
pub open spec fn marker_place(raw: Seq<char>, j: int, marker: Seq<char>) -> Option<(int, int)> {
    let l = j + marker.len();
    if occurs_at(ascii_lowered(raw), marker, j) && 0 < j && opens_feature(raw[j - 1]) && l
        < raw.len() && raw[l] == ' ' {
        Some((j, l))
    } else {
        None
    }
}

/// The first marker of a list that stands at a position.
pub open spec fn place_of_any(raw: Seq<char>, j: int, markers: Seq<Seq<char>>) -> Option<(int, int)>
    decreases markers.len(),
{
    if markers.len() == 0 {
        None
    } else {
        match marker_place(raw, j, markers[0]) {
            Some(p) => Some(p),
            None => place_of_any(raw, j, markers.skip(1)),
        }
    }
}

/// The earliest featuring marker of a text, as the positions at which it
/// starts and ends.
pub open spec fn feat_place(raw: Seq<char>, from: int) -> Option<(int, int)>
    decreases raw.len() - from,
{
    if from < 0 || from >= raw.len() {
        None
    } else {
        match place_of_any(raw, from, feat_markers()) {
            Some(p) => Some(p),
            None => feat_place(raw, from + 1),
        }
    }
}

/// The earliest "feat."/"ft."/"featuring" marker that stands as its own
/// word — preceded by a separator and followed by a space — so artist names
/// like "Daft Punk" are not split on the "ft" inside them.
fn find_feat_marker(raw: &[char]) -> (r: Option<(usize, usize)>)
    ensures
        match r {
            Some((k, l)) => feat_place(raw@, 0) == Some((k as int, l as int)) && k <= raw@.len()
                && l <= raw@.len(),
            None => feat_place(raw@, 0) is None,
        },
{
    let low = lower_chars(raw);
    let markers = feat_marker_list();
    let size: usize = raw.len();
    let mut j: usize = 0;
    while j < size
        invariant
            size == raw@.len(),
            low@ == ascii_lowered(raw@),
            low@.len() == size,
            j <= size,
            char_views(markers@) == feat_markers(),
            feat_place(raw@, 0) == feat_place(raw@, j as int),
        decreases size - j,
    {
        let mut m: usize = 0;
        let ghost all = feat_markers();
        proof {
            assert(all.skip(0) =~= all);
        }
        while m < markers.len()
            invariant
                m <= markers@.len(),
                size == raw@.len(),
                low@ == ascii_lowered(raw@),
                low@.len() == size,
                j < size,
                all == feat_markers(),
                char_views(markers@) == all,
                feat_place(raw@, 0) == feat_place(raw@, j as int),
                place_of_any(raw@, j as int, all) == place_of_any(
                    raw@,
                    j as int,
                    all.skip(m as int),
                ),
            decreases markers@.len() - m,
        {
            proof {
                assert(all.skip(m as int)[0] == markers@[m as int]@);
                assert(all.skip(m as int).skip(1) =~= all.skip(m + 1));
            }
            if occurs(&low, &markers[m], j) {
                let l: usize = j + markers[m].len();
                if j > 0 && feature_opener(raw[j - 1]) && l < size && raw[l] == ' ' {
                    return Some((j, l));
                }
            }
            m += 1;
        }
        proof {
            assert(all.skip(m as int).len() == 0);
        }
        j += 1;
    }
    None
}

pub open spec fn separates_artists(c: char) -> bool {
    c == ';' || c == '/'
}

fn artist_separator(c: char) -> (r: bool)
    ensures
        r == separates_artists(c),
{
    c == ';' || c == '/'
}

fn is_comma(c: char) -> (r: bool)
    ensures
        r == (c == ','),
{
    c == ','
}

/// A name without the white space and the commas around it.
pub open spec fn clean_name(s: Seq<char>) -> Seq<char> {
    let p = |c: char| c == ',';
    trimmed(drop_trailing(drop_leading(trimmed(s), p), p))
}

/// The clean names of a list of pieces, without the empty ones.
pub open spec fn clean_names(parts: Seq<Seq<char>>) -> Seq<Seq<char>>
    decreases parts.len(),
{
    if parts.len() == 0 {
        Seq::empty()
    } else {
        let before = clean_names(parts.drop_last());
        let name = clean_name(parts.last());
        if name.len() == 0 {
            before
        } else {
            before.push(name)
        }
    }
}

/// The pieces of a list of pieces between the ampersands that stand on their
/// own.
pub open spec fn ampersand_pieces(parts: Seq<Seq<char>>) -> Seq<Seq<char>>
    decreases parts.len(),
{
    if parts.len() == 0 {
        Seq::empty()
    } else {
        ampersand_pieces(parts.drop_last()) + split_at_text(parts.last(), " & "@)
    }
}

/// The names that a text lists.
pub open spec fn names_in(raw: Seq<char>) -> Seq<Seq<char>> {
    clean_names(ampersand_pieces(split_at_chars(raw, |c: char| separates_artists(c))))
}

fn clean(s: &[char]) -> (r: Vec<char>)
    ensures
        r@ == clean_name(s@),
{
    let ghost p = |c: char| c == ',';
    let t = trim_chars(s);
    let from = leading_count(&t, is_comma, Ghost(p));
    let u = slice_of(&t, from, t.len());
    let to = trailing_end(&u, is_comma, Ghost(p));
    let v = slice_of(&u, 0, to);
    proof {
        assert(u@ =~= t@.skip(from as int));
        assert(v@ =~= u@.take(to as int));
    }
    trim_chars(&v)
}

proof fn lemma_clean_names_add(a: Seq<Seq<char>>, b: Seq<Seq<char>>)
    ensures
        clean_names(a + b) == clean_names(a) + clean_names(b),
    decreases b.len(),
{
    if b.len() == 0 {
        assert(a + b =~= a);
        assert(clean_names(a) + clean_names(b) =~= clean_names(a));
    } else {
        assert((a + b).drop_last() =~= a + b.drop_last());
        lemma_clean_names_add(a, b.drop_last());
        assert(clean_names(a + b) =~= clean_names(a) + clean_names(b));
    }
}

fn clean_all(parts: &Vec<Vec<char>>) -> (r: Vec<String>)
    ensures
        views(r@) == clean_names(char_views(parts@)),
{
    let mut out: Vec<String> = Vec::new();
    let mut i: usize = 0;
    proof {
        assert(views(out@) =~= clean_names(char_views(parts@.take(0))));
    }
    while i < parts.len()
        invariant
            i <= parts@.len(),
            views(out@) == clean_names(char_views(parts@.take(i as int))),
        decreases parts@.len() - i,
    {
        proof {
            let now = char_views(parts@.take(i + 1));
            assert(now.drop_last() =~= char_views(parts@.take(i as int)));
            assert(now.last() == parts@[i as int]@);
        }
        let name = clean(&parts[i]);
        if name.len() > 0 {
            let ghost before = out@;
            out.push(string_of(&name));
            proof {
                assert(views(out@) =~= views(before).push(name@));
            }
        }
        i += 1;
    }
    proof {
        assert(parts@.take(parts@.len() as int) =~= parts@);
    }
    out
}

fn split_names(raw: &[char]) -> (r: Vec<String>)
    ensures
        views(r@) == names_in(raw@),
{
    let ghost p = |c: char| separates_artists(c);
    let parts = split_chars(raw, artist_separator, Ghost(p));
    let amp = chars_of(" & ");
    let mut pieces: Vec<Vec<char>> = Vec::new();
    let mut i: usize = 0;
    proof {
        reveal_strlit(" & ");
        assert(char_views(pieces@) =~= ampersand_pieces(char_views(parts@.take(0))));
    }
    while i < parts.len()
        invariant
            i <= parts@.len(),
            amp@ == " & "@,
            amp@.len() > 0,
            char_views(pieces@) == ampersand_pieces(char_views(parts@.take(i as int))),
        decreases parts@.len() - i,
    {
        let mut more = split_text(&parts[i], &amp);
        let ghost before = pieces@;
        let ghost added = more@;
        pieces.append(&mut more);
        proof {
            let now = char_views(parts@.take(i + 1));
            assert(now.drop_last() =~= char_views(parts@.take(i as int)));
            assert(now.last() == parts@[i as int]@);
            assert(char_views(pieces@) =~= char_views(before) + char_views(added));
        }
        i += 1;
    }
    proof {
        assert(parts@.take(parts@.len() as int) =~= parts@);
    }
    clean_all(&pieces)
}

/// The main and the featured artists of an artist tag.
pub open spec fn tagged_artists(raw: Seq<char>) -> (Seq<Seq<char>>, Seq<Seq<char>>) {
    let tag = trimmed(raw);
    if tag.len() == 0 {
        (Seq::empty(), Seq::empty())
    } else {
        match feat_place(tag, 0) {
            Some((k, l)) => (
                names_in(drop_trailing(tag.take(k), |c: char| opens_feature(c))),
                names_in(drop_trailing(tag.skip(l), |c: char| closes_feature(c))),
            ),
            None => (names_in(tag), names_in(Seq::empty())),
        }
    }
}

/// Split an artist tag into (main artists, featured artists).
/// Separators: ";" and "/" between main artists; "feat."/"ft."/"featuring"
/// starts the featured list.
pub fn split_artist_tag(raw: &str) -> (r: (Vec<String>, Vec<String>))
    ensures
        (views(r.0@), views(r.1@)) == tagged_artists(raw@),
{
    let chars = chars_of(raw);
    let tag = trim_chars(&chars);
    if tag.len() == 0 {
        let main: Vec<String> = Vec::new();
        let featured: Vec<String> = Vec::new();
        proof {
            assert(views(main@) =~= Seq::empty());
            assert(views(featured@) =~= Seq::empty());
        }
        return (main, featured);
    }
    match find_feat_marker(&tag) {
        Some((k, l)) => {
            let head = slice_of(&tag, 0, k);
            let to = trailing_end(&head, feature_opener, Ghost(|c: char| opens_feature(c)));
            let main = slice_of(&head, 0, to);
            let tail = slice_of(&tag, l, tag.len());
            let end = trailing_end(&tail, feature_closer, Ghost(|c: char| closes_feature(c)));
            let guests = slice_of(&tail, 0, end);
            proof {
                assert(head@ =~= tag@.take(k as int));
                assert(main@ =~= head@.take(to as int));
                assert(tail@ =~= tag@.skip(l as int));
                assert(guests@ =~= tail@.take(end as int));
            }
            (split_names(&main), split_names(&guests))
        },
        None => {
            let none: Vec<char> = Vec::new();
            (split_names(&tag), split_names(&none))
        },
    }
}

/// The openings of a featured list in a title.
pub open spec fn title_markers() -> Seq<Seq<char>> {
    seq!["(feat."@, "(feat "@, "(ft."@, "[feat."@, "[ft."@]
}

fn title_marker_list() -> (r: Vec<Vec<char>>)
    ensures
        char_views(r@) == title_markers(),
{
    let mut out: Vec<Vec<char>> = Vec::new();
    out.push(chars_of("(feat."));
    out.push(chars_of("(feat "));
    out.push(chars_of("(ft."));
    out.push(chars_of("[feat."));
    out.push(chars_of("[ft."));
    proof {
        assert(char_views(out@) =~= title_markers());
    }
    out
}

/// The first marker of a list that occurs, with its first position.
pub open spec fn first_found(low: Seq<char>, markers: Seq<Seq<char>>) -> Option<(int, Seq<char>)>
    decreases markers.len(),
{
    if markers.len() == 0 {
        None
    } else {
        match find_from(low, markers[0], 0) {
            Some(j) => Some((j, markers[0])),
            None => first_found(low, markers.skip(1)),
        }
    }
}

pub open spec fn drop_spaces_behind(s: Seq<char>) -> Seq<char> {
    drop_trailing(s, |c: char| is_space(c))
}

/// A title without the featured list in it, and the names of that list. A
/// list that is not closed, or that holds no name, is left in the title.
pub open spec fn featured_in_title(title: Seq<char>) -> Option<(Seq<char>, Seq<Seq<char>>)> {
    match first_found(ascii_lowered(title), title_markers()) {
        None => None,
        Some((k, marker)) => {
            let rest = title.skip(k + marker.len());
            let closer = if marker[0] == '(' {
                ')'
            } else {
                ']'
            };
            let tail = drop_leading(rest, |c: char| c != closer);
            let names = names_in(rest.take(rest.len() - tail.len()));
            if tail.len() == 0 || names.len() == 0 {
                None
            } else {
                Some(
                    (
                        trimmed(
                            drop_spaces_behind(title.take(k)) + drop_spaces_behind(tail.skip(1)),
                        ),
                        names,
                    ),
                )
            }
        },
    }
}

fn not_round(c: char) -> (r: bool)
    ensures
        r == (c != ')'),
{
    c != ')'
}

fn not_square(c: char) -> (r: bool)
    ensures
        r == (c != ']'),
{
    c != ']'
}

fn find_title_marker(low: &[char], markers: &Vec<Vec<char>>) -> (r: Option<(usize, usize)>)
    ensures
        match r {
            Some((j, m)) => {
                &&& m < markers@.len()
                &&& j + markers@[m as int]@.len() <= low@.len()
                &&& first_found(low@, char_views(markers@)) == Some(
                    (j as int, markers@[m as int]@),
                )
            },
            None => first_found(low@, char_views(markers@)) is None,
        },
{
    let mut m: usize = 0;
    let ghost all = char_views(markers@);
    proof {
        assert(all.skip(0) =~= all);
    }
    while m < markers.len()
        invariant
            m <= markers@.len(),
            all == char_views(markers@),
            first_found(low@, all) == first_found(low@, all.skip(m as int)),
        decreases markers@.len() - m,
    {
        proof {
            assert(all.skip(m as int)[0] == markers@[m as int]@);
            assert(all.skip(m as int).skip(1) =~= all.skip(m + 1));
            crate::text::lemma_find_from(low@, markers@[m as int]@, 0);
        }
        if let Some(j) = find_text(low, &markers[m], 0) {
            return Some((j, m));
        }
        m += 1;
    }
    None
}

/// Extract "(feat. X)" / "[ft. Y]" from a track title.
pub fn extract_title_feat(title: &str) -> (r: Option<(String, Vec<String>)>)
    ensures
        match r {
            Some((t, names)) => featured_in_title(title@) == Some((t@, views(names@))),
            None => featured_in_title(title@) is None,
        },
{
    let chars = chars_of(title);
    let size: usize = chars.len();
    let low = lower_chars(&chars);
    let markers = title_marker_list();
    let (k, m) = match find_title_marker(&low, &markers) {
        Some(found) => found,
        None => {
            return None;
        },
    };
    proof {
        reveal_strlit("(feat.");
        reveal_strlit("(feat ");
        reveal_strlit("(ft.");
        reveal_strlit("[feat.");
        reveal_strlit("[ft.");
        assert(markers@[m as int]@ == title_markers()[m as int]);
        assert(markers@[m as int]@.len() > 0);
        assert(low@.len() == size);
    }
    let l: usize = k + markers[m].len();
    let rest = slice_of(&chars, l, size);
    proof {
        assert(rest@ =~= chars@.skip(l as int));
    }
    let ghost closer = if markers@[m as int]@[0] == '(' {
        ')'
    } else {
        ']'
    };
    let n = if markers[m][0] == '(' {
        leading_count(&rest, not_round, Ghost(|c: char| c != closer))
    } else {
        leading_count(&rest, not_square, Ghost(|c: char| c != closer))
    };
    let inner = slice_of(&rest, 0, n);
    proof {
        assert(inner@ =~= rest@.take(rest@.len() - rest@.skip(n as int).len()));
    }
    let names = split_names(&inner);
    proof {
        assert(views(names@).len() == names@.len());
    }
    if n == rest.len() || names.len() == 0 {
        return None;
    }
    let ghost p = |c: char| is_space(c);
    let before = slice_of(&chars, 0, k);
    let before_end = trailing_end(&before, crate::text::space, Ghost(p));
    let mut clean = slice_of(&before, 0, before_end);
    let after = slice_of(&rest, n + 1, rest.len());
    let after_end = trailing_end(&after, crate::text::space, Ghost(p));
    let mut behind = slice_of(&after, 0, after_end);
    proof {
        assert(before@ =~= chars@.take(k as int));
        assert(clean@ =~= before@.take(before_end as int));
        assert(after@ =~= rest@.skip(n as int).skip(1));
        assert(behind@ =~= after@.take(after_end as int));
    }
    clean.append(&mut behind);
    let title = trim_chars(&clean);
    Some((string_of(&title), names))
}

/// The formats of an embedded picture that are told apart.
#[derive(Debug, Clone, Copy, PartialEq, Eq, Structural)]
pub enum PictureFormat {
    Png,
    Gif,
    Bmp,
    /// Any other, or one that the file does not name.
    Other,
}

/// The extension of the file that a picture is saved to: that of a JPEG file
/// where the format is no other.
pub open spec fn extension_of_picture(format: PictureFormat) -> Seq<char> {
    match format {
        PictureFormat::Png => "png"@,
        PictureFormat::Gif => "gif"@,
        PictureFormat::Bmp => "bmp"@,
        PictureFormat::Other => "jpg"@,
    }
}

pub fn picture_extension(format: PictureFormat) -> (r: &'static str)
    ensures
        r@ == extension_of_picture(format),
{
    match format {
        PictureFormat::Png => "png",
        PictureFormat::Gif => "gif",
        PictureFormat::Bmp => "bmp",
        PictureFormat::Other => "jpg",
    }
}

/// An embedded picture and the extension of the file that it is saved to.
#[derive(Debug)]
pub struct Cover {
    pub data: Vec<u8>,
    pub extension: String,
}

/// Everything known about one audio file, ready to be written to the library.
#[derive(Debug)]
pub struct TrackImport {
    pub file_path: String,
    pub title: String,
    pub artists: Vec<String>,
    pub featured_artists: Vec<String>,
    pub album_artists: Vec<String>,
    pub release_title: String,
    pub release_type: Option<String>,
    pub year: Option<i32>,
    pub track_number: Option<i32>,
    pub disc_number: Option<i32>,
    pub duration: Seconds,
    pub audio_format: Option<String>,
    pub audio_bitrate: Option<i32>,
    pub audio_sample_rate: Option<i32>,
    pub audio_bit_depth: Option<i32>,
    pub file_size_bytes: Option<i64>,
    /// Embedded cover art, if any.
    pub cover: Option<Cover>,
}

#[verifier::ext_equal]
pub struct ImportView {
    pub file_path: Seq<char>,
    pub title: Seq<char>,
    pub artists: Seq<Seq<char>>,
    pub featured_artists: Seq<Seq<char>>,
    pub album_artists: Seq<Seq<char>>,
    pub release_title: Seq<char>,
    pub release_type: Option<Seq<char>>,
    pub year: Option<i32>,
    pub track_number: Option<i32>,
    pub disc_number: Option<i32>,
    pub duration: Seconds,
    pub audio_format: Option<Seq<char>>,
    pub audio_bitrate: Option<i32>,
    pub audio_sample_rate: Option<i32>,
    pub audio_bit_depth: Option<i32>,
    pub file_size_bytes: Option<i64>,
    pub cover: Option<Cover>,
}

impl View for TrackImport {
    type V = ImportView;

    open spec fn view(&self) -> ImportView {
        ImportView {
            file_path: self.file_path@,
            title: self.title@,
            artists: views(self.artists@),
            featured_artists: views(self.featured_artists@),
            album_artists: views(self.album_artists@),
            release_title: self.release_title@,
            release_type: opt_view(self.release_type),
            year: self.year,
            track_number: self.track_number,
            disc_number: self.disc_number,
            duration: self.duration,
            audio_format: opt_view(self.audio_format),
            audio_bitrate: self.audio_bitrate,
            audio_sample_rate: self.audio_sample_rate,
            audio_bit_depth: self.audio_bit_depth,
            file_size_bytes: self.file_size_bytes,
            cover: self.cover,
        }
    }
}

/// The tag of an audio file as it was read.
#[derive(Debug)]
pub struct FileTags {
    pub title: Option<String>,
    pub artist: Option<String>,
    pub album: Option<String>,
    pub year: Option<u32>,
    pub track: Option<u32>,
    pub disc: Option<u32>,
    pub album_artist: Option<String>,
    pub cover: Option<Cover>,
}

/// What is known of an audio file besides its tag.
#[derive(Debug)]
pub struct FileFacts {
    pub path: String,
    /// The file name without its extension.
    pub stem: Option<String>,
    pub extension: Option<String>,
    pub duration: Seconds,
    pub bitrate: Option<u32>,
    pub sample_rate: Option<u32>,
    pub bit_depth: Option<u8>,
    pub size: Option<i64>,
}

/// A number that fits a signed column; a larger one is dropped.
pub open spec fn fitting(n: Option<u32>) -> Option<i32> {
    match n {
        Some(v) => if v <= i32::MAX {
            Some(v as i32)
        } else {
            None
        },
        None => None,
    }
}

fn fit(n: Option<u32>) -> (r: Option<i32>)
    ensures
        r == fitting(n),
{
    match n {
        Some(v) => if v <= 0x7fff_ffff {
            Some(v as i32)
        } else {
            None
        },
        None => None,
    }
}

/// The text without the white space around it, or the other one where nothing
/// is left.
pub open spec fn filled(s: Option<Seq<char>>, fallback: Seq<char>) -> Seq<char> {
    match s {
        Some(v) => if trimmed(v).len() > 0 {
            trimmed(v)
        } else {
            fallback
        },
        None => fallback,
    }
}

fn fill(s: &Option<String>, fallback: &str) -> (r: String)
    ensures
        r@ == filled(opt_view(*s), fallback@),
{
    if let Some(v) = s {
        let t = trim(v.as_str());
        if !t.as_str().is_empty() {
            return t;
        }
    }
    fallback.to_owned()
}

/// Whether a list holds a name that differs from `name` at most in the case
/// of ASCII letters.
pub open spec fn lists_ignoring_case(names: Seq<Seq<char>>, name: Seq<char>) -> bool {
    exists|i: int| 0 <= i < names.len() && ascii_lowered(#[trigger] names[i]) == ascii_lowered(name)
}

/// `names` with those of `more` behind them that are not listed yet.
pub open spec fn with_guests(names: Seq<Seq<char>>, more: Seq<Seq<char>>) -> Seq<Seq<char>>
    decreases more.len(),
{
    if more.len() == 0 {
        names
    } else {
        let before = with_guests(names, more.drop_last());
        if lists_ignoring_case(before, more.last()) {
            before
        } else {
            before.push(more.last())
        }
    }
}

fn listed_ignoring_case(names: &Vec<String>, name: &str) -> (r: bool)
    ensures
        r == lists_ignoring_case(views(names@), name@),
{
    let low = ascii_lowercase(name);
    let mut i: usize = 0;
    while i < names.len()
        invariant
            i <= names@.len(),
            low@ == ascii_lowered(name@),
            forall|j: int| 0 <= j < i ==> ascii_lowered(#[trigger] views(names@)[j]) != low@,
        decreases names@.len() - i,
    {
        let other = ascii_lowercase(names[i].as_str());
        proof {
            assert(views(names@)[i as int] == names@[i as int]@);
        }
        if crate::text::same(&other, &low) {
            return true;
        }
        i += 1;
    }
    false
}

fn add_guests(names: &mut Vec<String>, more: Vec<String>)
    ensures
        views(final(names)@) == with_guests(views(old(names)@), views(more@)),
{
    let mut i: usize = 0;
    let ghost start = views(names@);
    proof {
        assert(views(more@.take(0)) =~= Seq::empty());
    }
    while i < more.len()
        invariant
            i <= more@.len(),
            views(names@) == with_guests(start, views(more@.take(i as int))),
        decreases more@.len() - i,
    {
        proof {
            let now = views(more@.take(i + 1));
            assert(now.drop_last() =~= views(more@.take(i as int)));
            assert(now.last() == more@[i as int]@);
        }
        if !listed_ignoring_case(names, more[i].as_str()) {
            let ghost before = names@;
            names.push(more[i].clone());
            proof {
                assert(views(names@) =~= views(before).push(more@[i as int]@));
            }
        }
        i += 1;
    }
    proof {
        assert(more@.take(more@.len() as int) =~= more@);
    }
}

pub open spec fn tag_title(file: FileFacts, tags: Option<FileTags>) -> Seq<char> {
    let fallback = match file.stem {
        Some(s) => s@,
        None => "Unknown"@,
    };
    match tags {
        Some(t) => filled(opt_view(t.title), fallback),
        None => fallback,
    }
}

pub open spec fn tag_artists(tags: Option<FileTags>) -> (Seq<Seq<char>>, Seq<Seq<char>>) {
    tagged_artists(
        match tags {
            Some(t) => match t.artist {
                Some(a) => a@,
                None => Seq::empty(),
            },
            None => Seq::empty(),
        },
    )
}

/// What an audio file is imported as: its tag, completed from the file name
/// and the placeholder names where it says nothing, with the featured artists
/// of the title moved into their list.
pub open spec fn imported(file: FileFacts, tags: Option<FileTags>) -> ImportView {
    let raw_title = tag_title(file, tags);
    let (named, guests) = tag_artists(tags);
    let (title, featured) = match featured_in_title(raw_title) {
        Some((t, more)) => (t, with_guests(guests, more)),
        None => (raw_title, guests),
    };
    let artists = if named.len() == 0 {
        seq!["Unknown Artist"@]
    } else {
        named
    };
    ImportView {
        file_path: file.path@,
        title,
        artists,
        featured_artists: featured,
        album_artists: match tags {
            Some(t) => match t.album_artist {
                Some(a) => if tagged_artists(a@).0.len() > 0 {
                    tagged_artists(a@).0
                } else {
                    artists
                },
                None => artists,
            },
            None => artists,
        },
        release_title: filled(
            match tags {
                Some(t) => opt_view(t.album),
                None => None,
            },
            "Unknown Album"@,
        ),
        release_type: None,
        year: match tags {
            Some(t) => fitting(t.year),
            None => None,
        },
        track_number: match tags {
            Some(t) => fitting(t.track),
            None => None,
        },
        disc_number: match tags {
            Some(t) => fitting(t.disc),
            None => None,
        },
        duration: file.duration,
        audio_format: match file.extension {
            Some(e) => Some(ascii_lowered(e@)),
            None => None,
        },
        audio_bitrate: fitting(file.bitrate),
        audio_sample_rate: fitting(file.sample_rate),
        audio_bit_depth: match file.bit_depth {
            Some(d) => Some(d as i32),
            None => None,
        },
        file_size_bytes: file.size,
        cover: match tags {
            Some(t) => t.cover,
            None => None,
        },
    }
}

/// What an audio file is imported as, from the tag that was read out of it.
pub fn read_file(file: FileFacts, tags: Option<FileTags>) -> (r: TrackImport)
    ensures
        r@ == imported(file, tags),
{
    let mut title = match &file.stem {
        Some(s) => s.clone(),
        None => "Unknown".to_owned(),
    };
    if let Some(t) = &tags {
        title = fill(&t.title, title.as_str());
    }
    assert(title@ == tag_title(file, tags));
    let (mut artists, mut featured) = match &tags {
        Some(t) => match &t.artist {
            Some(a) => split_artist_tag(a.as_str()),
            None => split_artist_tag(String::new().as_str()),
        },
        None => split_artist_tag(String::new().as_str()),
    };
    assert((views(artists@), views(featured@)) == tag_artists(tags));
    if let Some((clean, more)) = extract_title_feat(title.as_str()) {
        title = clean;
        add_guests(&mut featured, more);
    }
    proof {
        assert(views(artists@).len() == artists@.len());
    }
    if artists.len() == 0 {
        artists.push("Unknown Artist".to_owned());
        proof {
            assert(views(artists@) =~= seq!["Unknown Artist"@]);
        }
    }
    let mut album_artists = clone_strings(&artists);
    if let Some(t) = &tags {
        if let Some(a) = &t.album_artist {
            let (main, _) = split_artist_tag(a.as_str());
            proof {
                assert(views(main@).len() == main@.len());
            }
            if main.len() > 0 {
                album_artists = main;
            }
        }
    }
    let audio_format = match &file.extension {
        Some(e) => Some(ascii_lowercase(e.as_str())),
        None => None,
    };
    let audio_bit_depth = match file.bit_depth {
        Some(d) => Some(d as i32),
        None => None,
    };
    match tags {
        Some(t) => TrackImport {
            file_path: file.path,
            title,
            artists,
            featured_artists: featured,
            album_artists,
            release_title: fill(&t.album, "Unknown Album"),
            release_type: None,
            year: fit(t.year),
            track_number: fit(t.track),
            disc_number: fit(t.disc),
            duration: file.duration,
            audio_format,
            audio_bitrate: fit(file.bitrate),
            audio_sample_rate: fit(file.sample_rate),
            audio_bit_depth,
            file_size_bytes: file.size,
            cover: t.cover,
        },
        None => TrackImport {
            file_path: file.path,
            title,
            artists,
            featured_artists: featured,
            album_artists,
            release_title: "Unknown Album".to_owned(),
            release_type: None,
            year: None,
            track_number: None,
            disc_number: None,
            duration: file.duration,
            audio_format,
            audio_bitrate: fit(file.bitrate),
            audio_sample_rate: fit(file.sample_rate),
            audio_bit_depth,
            file_size_bytes: file.size,
            cover: None,
        },
    }
}

/// A track that is read from a file always names an artist and an album
/// artist, whatever its tag says.
pub proof fn law_import_names_artists(file: FileFacts, tags: Option<FileTags>)
    ensures
        imported(file, tags).artists.len() > 0,
        imported(file, tags).album_artists.len() > 0,
{
}

/// What one import run did.
#[derive(Debug)]
pub struct ImportOutcome {
    pub added: usize,
    pub updated: usize,
    /// The files that were not imported, each with the reason.
    pub failed: Vec<(String, String)>,
}

impl Default for ImportOutcome {
    fn default() -> (r: Self)
        ensures
            r.added == 0,
            r.updated == 0,
            r.failed@.len() == 0,
    {
        ImportOutcome { added: 0, updated: 0, failed: Vec::new() }
    }
}

/// What importing one file came to.
#[derive(Debug)]
pub enum FileOutcome {
    Added,
    Updated,
    Failed(String),
}

/// What noting the outcome of one file changes.
pub open spec fn notes_outcome(
    a: ImportOutcome,
    b: ImportOutcome,
    file: String,
    outcome: FileOutcome,
) -> bool {
    &&& b.added == a.added + (if outcome is Added {
        1int
    } else {
        0
    })
    &&& b.updated == a.updated + (if outcome is Updated {
        1int
    } else {
        0
    })
    &&& b.failed@ == match outcome {
        FileOutcome::Failed(reason) => a.failed@.push((file, reason)),
        _ => a.failed@,
    }
}

impl ImportOutcome {
    /// Counts one file.
    pub fn record(&mut self, file: String, outcome: FileOutcome)
        requires
            old(self).added < usize::MAX,
            old(self).updated < usize::MAX,
        ensures
            notes_outcome(*old(self), *final(self), file, outcome),
    {
        match outcome {
            FileOutcome::Added => {
                self.added += 1;
            },
            FileOutcome::Updated => {
                self.updated += 1;
            },
            FileOutcome::Failed(reason) => {
                self.failed.push((file, reason));
            },
        }
    }

    /// The line that reports the run.
    pub fn summary(&self) -> (r: String)
        ensures
            r@ == "imported "@ + crate::text::decimal(self.added as nat) + " track(s)"@ + (
            if self.updated > 0 {
                ", updated "@ + crate::text::decimal(self.updated as nat)
            } else {
                Seq::empty()
            }) + (if self.failed@.len() > 0 {
                ", "@ + crate::text::decimal(self.failed@.len()) + " failed"@
            } else {
                Seq::empty()
            }),
    {
        let mut out = String::new();
        out.append("imported ");
        let added = crate::text::decimal_text(self.added as u64);
        out.append(added.as_str());
        out.append(" track(s)");
        let ghost first = "imported "@ + crate::text::decimal(self.added as nat) + " track(s)"@;
        proof {
            assert(out@ =~= first);
        }
        if self.updated > 0 {
            out.append(", updated ");
            let n = crate::text::decimal_text(self.updated as u64);
            out.append(n.as_str());
        }
        let ghost second = if self.updated > 0 {
            ", updated "@ + crate::text::decimal(self.updated as nat)
        } else {
            Seq::empty()
        };
        proof {
            assert(out@ =~= first + second);
        }
        if self.failed.len() > 0 {
            out.append(", ");
            let n = crate::text::decimal_text(self.failed.len() as u64);
            out.append(n.as_str());
            out.append(" failed");
            proof {
                assert(out@ =~= first + second + (", "@ + crate::text::decimal(self.failed@.len())
                    + " failed"@));
            }
        }
        out
    }
}

/// The extensions that the playback engine can decode.
pub open spec fn is_audio_extension(ext: Seq<char>) -> bool {
    let e = ascii_lowered(ext);
    e == "mp3"@ || e == "flac"@ || e == "ogg"@ || e == "oga"@ || e == "wav"@ || e == "m4a"@ || e
        == "mp4"@ || e == "aac"@
}

/// Whether a file with this extension is imported.
pub fn audio_extension(ext: &str) -> (r: bool)
    ensures
        r == is_audio_extension(ext@),
{
    let low = ascii_lowercase(ext);
    let e = low.as_str();
    crate::text::same(e, "mp3") || crate::text::same(e, "flac") || crate::text::same(e, "ogg")
        || crate::text::same(e, "oga") || crate::text::same(e, "wav") || crate::text::same(e, "m4a")
        || crate::text::same(e, "mp4") || crate::text::same(e, "aac")
}

/// Whether a file beside the audio is the cover of the release.
pub open spec fn is_cover_file(stem: Seq<char>, ext: Seq<char>) -> bool {
    let s = ascii_lowered(stem);
    let e = ascii_lowered(ext);
    (e == "jpg"@ || e == "jpeg"@ || e == "png"@ || e == "webp"@ || e == "bmp"@ || e == "gif"@) && (s
        == "cover"@ || s == "folder"@ || s == "front"@ || s == "album"@)
}

/// Whether a file beside the audio, by its name without the extension and by
/// its extension, is the cover of the release.
pub fn cover_file(stem: &str, ext: &str) -> (r: bool)
    ensures
        r == is_cover_file(stem@, ext@),
{
    let low_stem = ascii_lowercase(stem);
    let low_ext = ascii_lowercase(ext);
    let s = low_stem.as_str();
    let e = low_ext.as_str();
    (crate::text::same(e, "jpg") || crate::text::same(e, "jpeg") || crate::text::same(e, "png")
        || crate::text::same(e, "webp") || crate::text::same(e, "bmp") || crate::text::same(e, "gif"))
        && (crate::text::same(s, "cover") || crate::text::same(s, "folder") || crate::text::same(
        s,
        "front",
    ) || crate::text::same(s, "album"))
}

} // verus!
