//! Tracks of other peers as they are queued, shown and played.

use crate::federation::audio::{MetadataView, TrackMetadata};
use crate::federation::catalog::{or_else, or_other};
use crate::federation::search::{CachedTrackMetadata, CachedView};
use crate::federation::track::{first_chars, line_of, prefix_text, FedTrack, FedTrackView};
use crate::library::import::{ImportView, TrackImport};
use crate::library::models::{
    clone_refs, clone_strings, known_duration, names_of, positive_or_none, ref_names, refs_view,
    ArtistRef, Seconds, TrackItem, TrackView,
};
use crate::names::normalizes;
use crate::text::{
    blank, chars_of, drop_leading, drop_trailing, is_blank, leading_count, opt_view, slice_of,
    string_of, trailing_end, trim, trim_chars, trimmed, views,
};
use vstd::prelude::*;

verus! {

/// Names of artists that are not in the library.
pub open spec fn unknown_refs(names: Seq<Seq<char>>) -> Seq<(i64, Seq<char>)> {
    names.map_values(|n: Seq<char>| ((-1) as i64, n))
}

fn refs_without_id(names: &Vec<String>) -> (r: Vec<ArtistRef>)
    ensures
        refs_view(r@) == unknown_refs(views(names@)),
{
    let mut out: Vec<ArtistRef> = Vec::new();
    let mut i: usize = 0;
    while i < names.len()
        invariant
            i <= names@.len(),
            out@.len() == i,
            forall|j: int| 0 <= j < i ==> (#[trigger] out@[j]).id == -1 && out@[j].name@ == names@[j]@,
        decreases names@.len() - i,
    {
        out.push(ArtistRef { id: -1, name: names[i].clone() });
        i += 1;
    }
    proof {
        assert(refs_view(out@) =~= unknown_refs(views(names@)));
    }
    out
}

/// What stands for the release where it is not known.
pub open spec fn peer_release(owner: Seq<char>) -> Seq<char> {
    "federation · "@ + first_chars(owner, 10)
}

fn release_of_peer(fed: &FedTrack) -> (r: String)
    ensures
        r@ == peer_release(fed.owner@),
{
    let mut out = "federation · ".to_owned();
    out.append(fed.owner_short().as_str());
    out
}

pub open spec fn whole_seconds(d: Option<i64>) -> Option<Seconds> {
    match d {
        Some(n) => Some(Seconds::Whole(n)),
        None => None,
    }
}

fn in_whole_seconds(d: Option<i64>) -> (r: Option<Seconds>)
    ensures
        r == whole_seconds(d),
{
    match d {
        Some(n) => Some(Seconds::Whole(n)),
        None => None,
    }
}

pub open spec fn or_value<T>(a: Option<T>, b: T) -> T {
    match a {
        Some(v) => v,
        None => b,
    }
}

// ---------------------------------------------------------------------------
// A track that waits
// ---------------------------------------------------------------------------

/// A track that has not been fetched, as it is queued.
pub open spec fn pending_item(fed: FedTrackView, id: i64) -> TrackView {
    TrackView {
        id,
        title: fed.title,
        track_number: fed.track_number,
        disc_number: fed.disc_number,
        duration: Seconds::Whole(or_value(fed.duration_seconds, 0)),
        artists: unknown_refs(fed.artist_names),
        featured_artists: unknown_refs(fed.featured_artist_names),
        release_id: (-1) as i64,
        release_title: or_value(fed.release_title, peer_release(fed.owner)),
        release_year: fed.year,
        file_path: Seq::empty(),
        content_id: fed.content_id,
        cover_path: None,
        audio_format: None,
        audio_bitrate: None,
        audio_sample_rate: None,
        audio_bit_depth: None,
        file_size_bytes: None,
        play_count: 0,
        fed: Some(fed),
    }
}

/// A placeholder for a track that has not been fetched: it behaves like a
/// track everywhere and becomes a file when playback reaches it. Its id tells
/// it from the tracks of the library.
pub fn pending_track(fed: &FedTrack, id: i64) -> (r: TrackItem)
    ensures
        r@ == pending_item(fed@, id),
{
    TrackItem {
        id,
        title: fed.title.clone(),
        track_number: fed.track_number,
        disc_number: fed.disc_number,
        duration: Seconds::Whole(
            match fed.duration_seconds {
                Some(n) => n,
                None => 0,
            },
        ),
        artists: refs_without_id(&fed.artist_names),
        featured_artists: refs_without_id(&fed.featured_artist_names),
        release_id: -1,
        release_title: match &fed.release_title {
            Some(t) => t.clone(),
            None => release_of_peer(fed),
        },
        release_year: fed.year,
        file_path: String::new(),
        content_id: fed.content_id.clone(),
        cover_path: None,
        audio_format: None,
        audio_bitrate: None,
        audio_sample_rate: None,
        audio_bit_depth: None,
        file_size_bytes: None,
        play_count: 0,
        fed: Some(fed.clone()),
    }
}

// ---------------------------------------------------------------------------
// A track that was fetched but is not in the library
// ---------------------------------------------------------------------------

pub open spec fn metadata_view(m: Option<TrackMetadata>) -> Option<MetadataView> {
    match m {
        Some(v) => Some(v@),
        None => None,
    }
}

/// What is known of the file of a fetched track.
#[derive(Debug)]
pub struct FetchedFile {
    pub path: String,
    pub extension: Option<String>,
    pub size: Option<i64>,
    /// The content id, where the file could be read.
    pub content_id: Option<String>,
    pub cover_path: Option<String>,
}

/// A text of the owner where it says anything.
pub open spec fn told(t: Option<Seq<char>>) -> Option<Seq<char>> {
    match t {
        Some(s) => if is_blank(s) {
            None
        } else {
            Some(trimmed(s))
        },
        None => None,
    }
}

fn told_text(t: &str) -> (r: Option<String>)
    ensures
        opt_view(r) == told(Some(t@)),
{
    let s = trim(t);
    if s.as_str().is_empty() {
        None
    } else {
        Some(s)
    }
}

/// A fetched track as it is played.
pub open spec fn ephemeral_item(
    fed: FedTrackView,
    meta: Option<MetadataView>,
    file: FetchedFile,
    id: i64,
) -> TrackView {
    TrackView {
        id,
        title: match meta {
            Some(m) => or_value(told(Some(m.title)), fed.title),
            None => fed.title,
        },
        track_number: match meta {
            Some(m) => m.track_number,
            None => None,
        },
        disc_number: match meta {
            Some(m) => m.disc_number,
            None => None,
        },
        duration: or_value(
            match meta {
                Some(m) => or_else(m.duration, whole_seconds(fed.duration_seconds)),
                None => whole_seconds(fed.duration_seconds),
            },
            Seconds::Whole(0),
        ),
        artists: unknown_refs(
            match meta {
                Some(m) => or_other(m.artists, fed.artist_names),
                None => fed.artist_names,
            },
        ),
        featured_artists: unknown_refs(
            match meta {
                Some(m) => m.featured_artists,
                None => fed.featured_artist_names,
            },
        ),
        release_id: (-1) as i64,
        release_title: or_value(
            match meta {
                Some(m) => or_else(told(Some(m.release_title)), fed.release_title),
                None => fed.release_title,
            },
            peer_release(fed.owner),
        ),
        release_year: match meta {
            Some(m) => or_else(m.year, fed.year),
            None => fed.year,
        },
        file_path: file.path@,
        content_id: or_else(fed.content_id, opt_view(file.content_id)),
        cover_path: opt_view(file.cover_path),
        audio_format: match meta {
            Some(m) => or_else(m.audio_format, opt_view(file.extension)),
            None => opt_view(file.extension),
        },
        audio_bitrate: match meta {
            Some(m) => m.audio_bitrate,
            None => None,
        },
        audio_sample_rate: match meta {
            Some(m) => m.audio_sample_rate,
            None => None,
        },
        audio_bit_depth: match meta {
            Some(m) => m.audio_bit_depth,
            None => None,
        },
        file_size_bytes: file.size,
        play_count: 0,
        fed: Some(fed),
    }
}

fn first_known(a: Option<String>, b: Option<String>) -> (r: Option<String>)
    ensures
        opt_view(r) == or_else(opt_view(a), opt_view(b)),
{
    match a {
        Some(s) => Some(s),
        None => b,
    }
}

fn first_number(a: Option<i32>, b: Option<i32>) -> (r: Option<i32>)
    ensures
        r == or_else(a, b),
{
    match a {
        Some(n) => Some(n),
        None => b,
    }
}

fn first_duration(a: Option<Seconds>, b: Option<Seconds>) -> (r: Option<Seconds>)
    ensures
        r == or_else(a, b),
{
    match a {
        Some(n) => Some(n),
        None => b,
    }
}

/// A track that was fetched but not taken into the library, as it is played.
/// What its owner says of it comes first.
pub fn ephemeral_track(
    fed: &FedTrack,
    metadata: &Option<TrackMetadata>,
    file: FetchedFile,
    id: i64,
) -> (r: TrackItem)
    ensures
        r@ == ephemeral_item(fed@, metadata_view(*metadata), file, id),
{
    let whole = in_whole_seconds(fed.duration_seconds);
    let content_id = first_known(fed.content_id.clone(), file.content_id);
    let mut item = TrackItem {
        id,
        title: fed.title.clone(),
        track_number: None,
        disc_number: None,
        duration: Seconds::Whole(0),
        artists: Vec::new(),
        featured_artists: Vec::new(),
        release_id: -1,
        release_title: String::new(),
        release_year: fed.year,
        file_path: file.path,
        content_id,
        cover_path: file.cover_path,
        audio_format: None,
        audio_bitrate: None,
        audio_sample_rate: None,
        audio_bit_depth: None,
        file_size_bytes: file.size,
        play_count: 0,
        fed: Some(fed.clone()),
    };
    let mut release_title = fed.release_title.clone();
    let mut duration = whole;
    match metadata {
        Some(m) => {
            if let Some(t) = told_text(m.title.as_str()) {
                item.title = t;
            }
            item.track_number = m.track_number;
            item.disc_number = m.disc_number;
            duration = first_duration(m.duration, whole);
            proof {
                assert(views(m.artists@).len() == m.artists@.len());
            }
            item.artists = if m.artists.len() > 0 {
                refs_without_id(&m.artists)
            } else {
                refs_without_id(&fed.artist_names)
            };
            item.featured_artists = refs_without_id(&m.featured_artists);
            release_title = first_known(told_text(m.release_title.as_str()), release_title);
            item.release_year = first_number(m.year, fed.year);
            item.audio_format = first_known(m.audio_format.clone(), file.extension);
            item.audio_bitrate = m.audio_bitrate;
            item.audio_sample_rate = m.audio_sample_rate;
            item.audio_bit_depth = m.audio_bit_depth;
        },
        None => {
            item.artists = refs_without_id(&fed.artist_names);
            item.featured_artists = refs_without_id(&fed.featured_artist_names);
            item.audio_format = file.extension;
        },
    }
    item.release_title =
    match release_title {
        Some(t) => t,
        None => release_of_peer(fed),
    };
    item.duration =
    match duration {
        Some(d) => d,
        None => Seconds::Whole(0),
    };
    proof {
        assert(item@ =~= ephemeral_item(fed@, metadata_view(*metadata), file, id));
    }
    item
}

// ---------------------------------------------------------------------------
// What the owner says of a track
// ---------------------------------------------------------------------------

/// What the owner of a track answered when asked about it.
#[derive(Debug)]
pub struct FetchedMetadata {
    pub metadata: Option<TrackMetadata>,
    pub mime_type: String,
    pub total_size: u64,
}

/// A track with what its owner says of it. `format` is the name of the format
/// that its type stands for.
pub open spec fn preview_item(
    base: TrackView,
    fed: FedTrackView,
    meta: Option<MetadataView>,
    total_size: u64,
    format: Option<Seq<char>>,
) -> TrackView {
    TrackView {
        id: base.id,
        title: match meta {
            Some(m) => or_value(told(Some(m.title)), base.title),
            None => base.title,
        },
        track_number: match meta {
            Some(m) => or_else(m.track_number, base.track_number),
            None => base.track_number,
        },
        disc_number: match meta {
            Some(m) => or_else(m.disc_number, base.disc_number),
            None => base.disc_number,
        },
        duration: or_value(
            match meta {
                Some(m) => or_else(m.duration, whole_seconds(fed.duration_seconds)),
                None => whole_seconds(fed.duration_seconds),
            },
            base.duration,
        ),
        artists: match meta {
            Some(m) => if m.artists.len() > 0 {
                unknown_refs(m.artists)
            } else {
                base.artists
            },
            None => base.artists,
        },
        featured_artists: match meta {
            Some(m) => if m.featured_artists.len() > 0 {
                unknown_refs(m.featured_artists)
            } else {
                base.featured_artists
            },
            None => base.featured_artists,
        },
        release_id: base.release_id,
        release_title: match meta {
            Some(m) => or_value(told(Some(m.release_title)), base.release_title),
            None => base.release_title,
        },
        release_year: match meta {
            Some(m) => or_else(or_else(m.year, base.release_year), fed.year),
            None => or_else(base.release_year, fed.year),
        },
        file_path: Seq::empty(),
        content_id: or_else(fed.content_id, base.content_id),
        cover_path: base.cover_path,
        audio_format: match meta {
            Some(m) => or_else(or_else(m.audio_format, format), base.audio_format),
            None => or_else(format, base.audio_format),
        },
        audio_bitrate: match meta {
            Some(m) => or_else(m.audio_bitrate, base.audio_bitrate),
            None => base.audio_bitrate,
        },
        audio_sample_rate: match meta {
            Some(m) => or_else(m.audio_sample_rate, base.audio_sample_rate),
            None => base.audio_sample_rate,
        },
        audio_bit_depth: match meta {
            Some(m) => or_else(m.audio_bit_depth, base.audio_bit_depth),
            None => base.audio_bit_depth,
        },
        file_size_bytes: if total_size > 0 {
            Some(total_size as i64)
        } else {
            base.file_size_bytes
        },
        play_count: base.play_count,
        fed: Some(fed),
    }
}

/// A track with what its owner says of it.
pub fn metadata_preview_track(
    base: &TrackItem,
    fed: &FedTrack,
    fetched: &FetchedMetadata,
    format: Option<String>,
) -> (r: TrackItem)
    ensures
        r@ == preview_item(
            base@,
            fed@,
            metadata_view(fetched.metadata),
            fetched.total_size,
            opt_view(format),
        ),
{
    let whole = in_whole_seconds(fed.duration_seconds);
    let mut item = TrackItem {
        id: base.id,
        title: base.title.clone(),
        track_number: base.track_number,
        disc_number: base.disc_number,
        duration: match whole {
            Some(d) => d,
            None => base.duration,
        },
        artists: clone_refs(&base.artists),
        featured_artists: clone_refs(&base.featured_artists),
        release_id: base.release_id,
        release_title: base.release_title.clone(),
        release_year: first_number(base.release_year, fed.year),
        file_path: String::new(),
        content_id: first_known(fed.content_id.clone(), base.content_id.clone()),
        cover_path: base.cover_path.clone(),
        audio_format: None,
        audio_bitrate: base.audio_bitrate,
        audio_sample_rate: base.audio_sample_rate,
        audio_bit_depth: base.audio_bit_depth,
        file_size_bytes: if fetched.total_size > 0 {
            Some(fetched.total_size as i64)
        } else {
            base.file_size_bytes
        },
        play_count: base.play_count,
        fed: Some(fed.clone()),
    };
    let by_type = first_known(format, base.audio_format.clone());
    match &fetched.metadata {
        Some(m) => {
            if let Some(t) = told_text(m.title.as_str()) {
                item.title = t;
            }
            item.track_number = first_number(m.track_number, base.track_number);
            item.disc_number = first_number(m.disc_number, base.disc_number);
            if let Some(d) = m.duration {
                item.duration = d;
            }
            proof {
                assert(views(m.artists@).len() == m.artists@.len());
                assert(views(m.featured_artists@).len() == m.featured_artists@.len());
            }
            if m.artists.len() > 0 {
                item.artists = refs_without_id(&m.artists);
            }
            if m.featured_artists.len() > 0 {
                item.featured_artists = refs_without_id(&m.featured_artists);
            }
            if let Some(t) = told_text(m.release_title.as_str()) {
                item.release_title = t;
            }
            item.release_year = first_number(first_number(m.year, base.release_year), fed.year);
            item.audio_format = first_known(m.audio_format.clone(), by_type);
            item.audio_bitrate = first_number(m.audio_bitrate, base.audio_bitrate);
            item.audio_sample_rate = first_number(m.audio_sample_rate, base.audio_sample_rate);
            item.audio_bit_depth = first_number(m.audio_bit_depth, base.audio_bit_depth);
        },
        None => {
            item.audio_format = by_type;
        },
    }
    proof {
        assert(item@ =~= preview_item(
            base@,
            fed@,
            metadata_view(fetched.metadata),
            fetched.total_size,
            opt_view(format),
        ));
    }
    item
}

pub open spec fn track_names(refs: Seq<(i64, Seq<char>)>) -> Seq<Seq<char>> {
    refs.map_values(|r: (i64, Seq<char>)| r.1)
}

/// What is remembered of a track. `rounded` is the duration in whole seconds.
pub open spec fn remembered(
    track: TrackView,
    fed: FedTrackView,
    release_type: Option<Seq<char>>,
    rounded: i64,
) -> CachedView {
    CachedView {
        fed,
        title: track.title,
        artists: track_names(track.artists),
        featured_artists: track_names(track.featured_artists),
        release_title: if is_blank(track.release_title) {
            None
        } else {
            Some(track.release_title)
        },
        release_type,
        year: or_else(track.release_year, fed.year),
        duration: positive_or_none(track.duration),
        rounded_seconds: if positive_or_none(track.duration) is Some {
            Some(rounded)
        } else {
            None
        },
        track_number: or_else(track.track_number, fed.track_number),
        disc_number: or_else(track.disc_number, fed.disc_number),
    }
}

/// What is remembered of a track that its owner was asked about.
pub fn cached_track_metadata(
    track: &TrackItem,
    fed: &FedTrack,
    fetched: &FetchedMetadata,
    rounded: i64,
) -> (r: CachedTrackMetadata)
    ensures
        r@ == remembered(
            track@,
            fed@,
            match fetched.metadata {
                Some(m) => opt_view(m.release_type),
                None => None,
            },
            rounded,
        ),
{
    let duration = known_duration(track.duration);
    proof {
        assert(ref_names(track.artists@) =~= track_names(track@.artists));
        assert(ref_names(track.featured_artists@) =~= track_names(track@.featured_artists));
    }
    CachedTrackMetadata {
        fed: fed.clone(),
        title: track.title.clone(),
        artists: names_of(&track.artists),
        featured_artists: names_of(&track.featured_artists),
        release_title: if blank(track.release_title.as_str()) {
            None
        } else {
            Some(track.release_title.clone())
        },
        release_type: match &fetched.metadata {
            Some(m) => m.release_type.clone(),
            None => None,
        },
        year: first_number(track.release_year, fed.year),
        duration,
        rounded_seconds: if duration.is_some() {
            Some(rounded)
        } else {
            None
        },
        track_number: first_number(track.track_number, fed.track_number),
        disc_number: first_number(track.disc_number, fed.disc_number),
    }
}

/// The key under which a track is remembered.
pub fn cached_cache_key(fed: &FedTrack) -> (r: String)
    ensures
        r@ == fed.owner@ + seq![':'] + fed.item_id@,
{
    let mut out = fed.owner.clone();
    out.push(':');
    out.append(fed.item_id.as_str());
    proof {
        assert(out@ =~= fed.owner@ + seq![':'] + fed.item_id@);
    }
    out
}

/// What a file gives with what its owner says of it: everything that the owner
/// says comes first.
pub open spec fn overlaid(import: ImportView, m: MetadataView) -> ImportView {
    ImportView {
        file_path: import.file_path,
        title: or_value(told(Some(m.title)), import.title),
        artists: or_other(m.artists, import.artists),
        featured_artists: or_other(m.featured_artists, import.featured_artists),
        album_artists: if m.album_artists.len() > 0 {
            m.album_artists
        } else {
            or_other(m.artists, import.album_artists)
        },
        release_title: or_value(told(Some(m.release_title)), import.release_title),
        release_type: or_else(m.release_type, import.release_type),
        year: or_else(m.year, import.year),
        track_number: or_else(m.track_number, import.track_number),
        disc_number: or_else(m.disc_number, import.disc_number),
        duration: or_value(m.duration, import.duration),
        audio_format: or_else(m.audio_format, import.audio_format),
        audio_bitrate: or_else(m.audio_bitrate, import.audio_bitrate),
        audio_sample_rate: or_else(m.audio_sample_rate, import.audio_sample_rate),
        audio_bit_depth: or_else(m.audio_bit_depth, import.audio_bit_depth),
        file_size_bytes: import.file_size_bytes,
        cover: import.cover,
    }
}

/// Puts what the owner says over what the tags of a file say.
pub fn apply_remote_metadata(import: &mut TrackImport, meta: &TrackMetadata)
    ensures
        final(import)@ == overlaid(old(import)@, meta@),
{
    let ghost before = import@;
    import.title = told_or(meta.title.as_str(), &import.title);
    let album_artists = names_or(&meta.artists, &import.album_artists);
    import.album_artists = names_or(&meta.album_artists, &album_artists);
    import.artists = names_or(&meta.artists, &import.artists);
    import.featured_artists = names_or(&meta.featured_artists, &import.featured_artists);
    import.release_title = told_or(meta.release_title.as_str(), &import.release_title);
    import.release_type = first_known(meta.release_type.clone(), import.release_type.clone());
    import.year = first_number(meta.year, import.year);
    import.track_number = first_number(meta.track_number, import.track_number);
    import.disc_number = first_number(meta.disc_number, import.disc_number);
    import.duration =
    match meta.duration {
        Some(d) => d,
        None => import.duration,
    };
    import.audio_format = first_known(meta.audio_format.clone(), import.audio_format.clone());
    import.audio_bitrate = first_number(meta.audio_bitrate, import.audio_bitrate);
    import.audio_sample_rate = first_number(meta.audio_sample_rate, import.audio_sample_rate);
    import.audio_bit_depth = first_number(meta.audio_bit_depth, import.audio_bit_depth);
    proof {
        assert(import@ =~= overlaid(before, meta@));
    }
}

fn told_or(t: &str, fallback: &String) -> (r: String)
    ensures
        r@ == or_value(told(Some(t@)), fallback@),
{
    match told_text(t) {
        Some(s) => s,
        None => fallback.clone(),
    }
}

fn names_or(names: &Vec<String>, fallback: &Vec<String>) -> (r: Vec<String>)
    ensures
        views(r@) == or_other(views(names@), views(fallback@)),
{
    proof {
        assert(views(names@).len() == names@.len());
    }
    if names.len() > 0 {
        clone_strings(names)
    } else {
        clone_strings(fallback)
    }
}

// ---------------------------------------------------------------------------
// Names of files
// ---------------------------------------------------------------------------

/// The control characters.
pub open spec fn is_control(c: char) -> bool {
    (c as u32) < 0x20 || 0x7f <= (c as u32) < 0xa0
}

/// The characters that cannot stand in the name of a file.
pub open spec fn is_unsafe(c: char) -> bool {
    c == '/' || c == '\\' || c == ':' || c == '*' || c == '?' || c == '"' || c == '<' || c == '>'
        || c == '|' || is_control(c)
}

pub open spec fn safe_chars(s: Seq<char>) -> Seq<char> {
    s.map_values(
        |c: char|
            if is_unsafe(c) {
                '_'
            } else {
                c
            },
    )
}

pub open spec fn is_dot() -> spec_fn(char) -> bool {
    |c: char| c == '.'
}

/// A text as the stem of the name of a file: without characters that cannot
/// stand there, without white space and dots around it, and not too long.
pub open spec fn stem_of(s: Seq<char>) -> Seq<char> {
    let t = first_chars(
        drop_trailing(drop_leading(trimmed(safe_chars(s)), is_dot()), is_dot()),
        120,
    );
    if t.len() == 0 {
        "track"@
    } else {
        t
    }
}

fn cannot_stand(c: char) -> (r: bool)
    ensures
        r == is_unsafe(c),
{
    let n: u32 = c as u32;
    c == '/' || c == '\\' || c == ':' || c == '*' || c == '?' || c == '"' || c == '<' || c == '>'
        || c == '|' || n < 0x20 || (0x7f <= n && n < 0xa0)
}

/// A text as the stem of the name of a file.
pub fn sanitize_file_stem(value: &str) -> (r: String)
    ensures
        r@ == stem_of(value@),
{
    let chars = chars_of(value);
    let mut safe: Vec<char> = Vec::new();
    let mut i: usize = 0;
    while i < chars.len()
        invariant
            i <= chars@.len(),
            safe@ == safe_chars(chars@.take(i as int)),
        decreases chars@.len() - i,
    {
        proof {
            assert(chars@.take(i + 1) =~= chars@.take(i as int).push(chars@[i as int]));
            assert(safe_chars(chars@.take(i + 1)) =~= safe_chars(chars@.take(i as int)).push(
                safe_chars(chars@.take(i + 1))[i as int],
            ));
        }
        let c = chars[i];
        if cannot_stand(c) {
            safe.push('_');
        } else {
            safe.push(c);
        }
        i += 1;
    }
    proof {
        assert(chars@.take(chars@.len() as int) =~= chars@);
    }
    let clean = trim_chars(&safe);
    let f = |c: char| -> (b: bool)
        ensures
            b == is_dot()(c),
        { c == '.' };
    let from = leading_count(&clean, f, Ghost(is_dot()));
    let rest = slice_of(&clean, from, clean.len());
    proof {
        assert(rest@ =~= clean@.skip(from as int));
    }
    let g = |c: char| -> (b: bool)
        ensures
            b == is_dot()(c),
        { c == '.' };
    let to = trailing_end(&rest, g, Ghost(is_dot()));
    let kept = slice_of(&rest, 0, to);
    proof {
        assert(kept@ =~= rest@.take(to as int));
    }
    let text = string_of(&kept);
    let stem = prefix_text(text.as_str(), 120);
    if stem.as_str().is_empty() {
        "track".to_owned()
    } else {
        stem
    }
}

/// The stem of the name of the file that a track is fetched to.
pub open spec fn download_stem_of<F: Fn(&str) -> String>(f: F, fed: FedTrackView) -> Seq<char> {
    let artists = line_of(f, fed.artist_names, fed.featured_artist_names);
    if artists.len() == 0 {
        stem_of(fed.title)
    } else {
        stem_of(artists + " - "@ + fed.title)
    }
}

pub fn download_stem<F: Fn(&str) -> String>(f: &F, fed: &FedTrack) -> (r: String)
    requires
        normalizes(*f),
    ensures
        r@ == download_stem_of(*f, fed@),
{
    let mut line = fed.artist_line(f);
    if line.as_str().is_empty() {
        sanitize_file_stem(fed.title.as_str())
    } else {
        line.append(" - ");
        line.append(fed.title.as_str());
        sanitize_file_stem(line.as_str())
    }
}

/// The stem of the name of the file of a picture on a card.
pub open spec fn card_stem(artist: Seq<char>, release: Option<Seq<char>>) -> Seq<char> {
    match release {
        Some(r) => "cover-"@ + stem_of(artist) + "-"@ + stem_of(r),
        None => "artist-"@ + stem_of(artist),
    }
}

/// The stem of the name of the file of a picture on a card: the cover of a
/// release, or the image of the artist.
pub fn card_image_stem(artist: &str, release: Option<&str>) -> (r: String)
    ensures
        r@ == card_stem(
            artist@,
            match release {
                Some(t) => Some(t@),
                None => None,
            },
        ),
{
    match release {
        Some(t) => {
            let mut out = "cover-".to_owned();
            out.append(sanitize_file_stem(artist).as_str());
            out.append("-");
            out.append(sanitize_file_stem(t).as_str());
            out
        },
        None => {
            let mut out = "artist-".to_owned();
            out.append(sanitize_file_stem(artist).as_str());
            out
        },
    }
}

/// A name with an extension.
pub fn file_name(stem: &str, extension: &str) -> (r: String)
    ensures
        r@ == stem@ + "."@ + extension@,
{
    let mut out = stem.to_owned();
    out.append(".");
    out.append(extension);
    out
}

/// The names under which a picture on a card can have been kept, in the order
/// in which they are tried.
pub fn card_image_names(stem: &str) -> (r: Vec<String>)
    ensures
        views(r@) == seq![
            stem@ + "."@ + "jpg"@,
            stem@ + "."@ + "png"@,
            stem@ + "."@ + "webp"@,
            stem@ + "."@ + "gif"@,
            stem@ + "."@ + "bmp"@,
        ],
{
    let mut out: Vec<String> = Vec::new();
    out.push(file_name(stem, "jpg"));
    out.push(file_name(stem, "png"));
    out.push(file_name(stem, "webp"));
    out.push(file_name(stem, "gif"));
    out.push(file_name(stem, "bmp"));
    proof {
        assert(views(out@) =~= seq![
            stem@ + "."@ + "jpg"@,
            stem@ + "."@ + "png"@,
            stem@ + "."@ + "webp"@,
            stem@ + "."@ + "gif"@,
            stem@ + "."@ + "bmp"@,
        ]);
    }
    out
}

/// The name of a file has no character that cannot stand there.
pub proof fn law_stem_is_safe(s: Seq<char>, i: int)
    requires
        0 <= i < stem_of(s).len(),
    ensures
        !is_unsafe(stem_of(s)[i]),
{
    reveal_strlit("track");
    let space = |c: char| crate::text::is_space(c);
    let safe = safe_chars(s);
    let a = drop_leading(safe, space);
    let t = trimmed(safe);
    let b = drop_leading(t, is_dot());
    let d = drop_trailing(b, is_dot());
    lemma_leading_part(safe, space);
    lemma_trailing_part(a, space);
    lemma_leading_part(t, is_dot());
    lemma_trailing_part(b, is_dot());
    if d.len() > 0 {
        let c = stem_of(s)[i];
        assert(c == d[i]);
        assert(b.contains(d[i]));
        let x = b.index_of(c);
        assert(t.contains(b[x]));
        let y = t.index_of(c);
        assert(a.contains(t[y]));
        let z = a.index_of(c);
        assert(safe.contains(a[z]));
        let k = safe.index_of(c);
        assert(safe[k] == c);
    }
}

/// Whether every character of a text stands in another.
pub open spec fn made_of(a: Seq<char>, b: Seq<char>) -> bool {
    forall|i: int| 0 <= i < a.len() ==> b.contains(#[trigger] a[i])
}

proof fn lemma_leading_part(s: Seq<char>, p: spec_fn(char) -> bool)
    ensures
        made_of(drop_leading(s, p), s),
    decreases s.len(),
{
    if s.len() > 0 && p(s[0]) {
        lemma_leading_part(s.skip(1), p);
        let d = drop_leading(s, p);
        assert forall|i: int| 0 <= i < d.len() implies s.contains(#[trigger] d[i]) by {
            assert(s.skip(1).contains(d[i]));
            let k = s.skip(1).index_of(d[i]);
            assert(s[k + 1] == d[i]);
        }
    }
}

proof fn lemma_trailing_part(s: Seq<char>, p: spec_fn(char) -> bool)
    ensures
        made_of(drop_trailing(s, p), s),
    decreases s.len(),
{
    if s.len() > 0 && p(s.last()) {
        lemma_trailing_part(s.drop_last(), p);
        let d = drop_trailing(s, p);
        assert forall|i: int| 0 <= i < d.len() implies s.contains(#[trigger] d[i]) by {
            assert(s.drop_last().contains(d[i]));
            let k = s.drop_last().index_of(d[i]);
            assert(s[k] == d[i]);
        }
    }
}

} // verus!
