//! The rows of the library and the ways to find them.

use crate::federation::track::FedTrack;
use crate::library::models::Seconds;
use crate::lists::{find_by, first_where};
use crate::text::{joined, opt_view, same, views};
use vstd::prelude::*;

verus! {

#[derive(Debug)]
pub struct ArtistRow {
    pub id: i64,
    pub name: String,
    pub image_path: Option<String>,
}

#[derive(Debug)]
pub struct ReleaseRow {
    pub id: i64,
    pub title: String,
    pub release_type: String,
    pub year: Option<i32>,
    pub cover_path: Option<String>,
}

/// An artist of a release.
#[derive(Clone, Copy, PartialEq, Eq, Structural, Debug)]
pub struct ReleaseCredit {
    pub release_id: i64,
    pub artist_id: i64,
    pub position: i64,
}

#[derive(Debug)]
pub struct TrackRow {
    pub id: i64,
    pub title: String,
    pub track_number: Option<i32>,
    pub disc_number: Option<i32>,
    pub duration: Seconds,
    pub release_id: i64,
    pub file_path: String,
    pub content_id: Option<String>,
    pub audio_format: Option<String>,
    pub audio_bitrate: Option<i32>,
    pub audio_sample_rate: Option<i32>,
    pub audio_bit_depth: Option<i32>,
    pub file_size_bytes: Option<i64>,
}

/// An artist of a track.
#[derive(Clone, Copy, PartialEq, Eq, Structural, Debug)]
pub struct TrackCredit {
    pub track_id: i64,
    pub artist_id: i64,
    pub featured: bool,
    pub position: i64,
}

#[derive(Debug)]
pub struct PlaylistRow {
    pub id: i64,
    /// The id that the playlist has on every device.
    pub sync_id: Option<String>,
    pub title: String,
    pub description: Option<String>,
}

#[derive(Clone, Copy, PartialEq, Eq, Structural, Debug)]
pub struct PlaylistEntry {
    pub playlist_id: i64,
    pub track_id: i64,
    pub position: i64,
}

#[derive(Clone, Copy, PartialEq, Eq, Structural, Debug)]
pub struct LikeRow {
    pub track_id: i64,
    pub liked_at_ms: i64,
    /// The clock of the synchronised like, which orders it where it is known.
    pub liked_hlc_ms: Option<i64>,
}

/// A liked track of another peer.
#[derive(Debug)]
pub struct FedLikeRow {
    pub fed: FedTrack,
    pub liked_at_ms: i64,
    pub liked_hlc_ms: Option<i64>,
}

/// A track of another peer in a synchronised playlist.
#[derive(Debug)]
pub struct FedEntry {
    pub playlist_sync_id: String,
    pub content_id: String,
    pub fed: FedTrack,
    pub position: i64,
}

#[derive(Clone, Copy, PartialEq, Eq, Structural, Debug)]
pub struct Play {
    pub track_id: i64,
    pub started_at: Option<i64>,
    pub listened_seconds: i32,
    pub completed: bool,
}

/// What a peer said of one of its artists.
#[derive(Debug)]
pub struct NetworkRow {
    pub source_id: String,
    pub source_kind: String,
    pub artist_key: String,
    pub name: String,
    pub image_path: Option<String>,
    pub remote_image_hint: Option<String>,
    pub release_count: i64,
    pub track_count: i64,
    pub seen_at_ms: i64,
}

/// The local library. Rows stand in the order in which they came in.
#[derive(Debug)]
pub struct Library {
    pub artists: Vec<ArtistRow>,
    pub releases: Vec<ReleaseRow>,
    pub release_artists: Vec<ReleaseCredit>,
    pub tracks: Vec<TrackRow>,
    pub track_artists: Vec<TrackCredit>,
    pub playlists: Vec<PlaylistRow>,
    pub playlist_tracks: Vec<PlaylistEntry>,
    pub likes: Vec<LikeRow>,
    pub fed_likes: Vec<FedLikeRow>,
    pub fed_playlist_tracks: Vec<FedEntry>,
    pub history: Vec<Play>,
    pub network: Vec<NetworkRow>,
}

#[verifier::ext_equal]
pub struct ArtistView {
    pub id: i64,
    pub name: Seq<char>,
    pub image_path: Option<Seq<char>>,
}

impl View for ArtistRow {
    type V = ArtistView;

    open spec fn view(&self) -> ArtistView {
        ArtistView { id: self.id, name: self.name@, image_path: opt_view(self.image_path) }
    }
}

#[verifier::ext_equal]
pub struct ReleaseView {
    pub id: i64,
    pub title: Seq<char>,
    pub release_type: Seq<char>,
    pub year: Option<i32>,
    pub cover_path: Option<Seq<char>>,
}

impl View for ReleaseRow {
    type V = ReleaseView;

    open spec fn view(&self) -> ReleaseView {
        ReleaseView {
            id: self.id,
            title: self.title@,
            release_type: self.release_type@,
            year: self.year,
            cover_path: opt_view(self.cover_path),
        }
    }
}

#[verifier::ext_equal]
pub struct TrackRowView {
    pub id: i64,
    pub title: Seq<char>,
    pub track_number: Option<i32>,
    pub disc_number: Option<i32>,
    pub duration: Seconds,
    pub release_id: i64,
    pub file_path: Seq<char>,
    pub content_id: Option<Seq<char>>,
    pub audio_format: Option<Seq<char>>,
    pub audio_bitrate: Option<i32>,
    pub audio_sample_rate: Option<i32>,
    pub audio_bit_depth: Option<i32>,
    pub file_size_bytes: Option<i64>,
}

impl View for TrackRow {
    type V = TrackRowView;

    open spec fn view(&self) -> TrackRowView {
        TrackRowView {
            id: self.id,
            title: self.title@,
            track_number: self.track_number,
            disc_number: self.disc_number,
            duration: self.duration,
            release_id: self.release_id,
            file_path: self.file_path@,
            content_id: opt_view(self.content_id),
            audio_format: opt_view(self.audio_format),
            audio_bitrate: self.audio_bitrate,
            audio_sample_rate: self.audio_sample_rate,
            audio_bit_depth: self.audio_bit_depth,
            file_size_bytes: self.file_size_bytes,
        }
    }
}

/// The smallest id that is larger than every id in use.
pub open spec fn next_id(ids: Seq<i64>) -> int
    decreases ids.len(),
{
    if ids.len() == 0 {
        1
    } else {
        let before = next_id(ids.drop_last());
        if ids.last() >= before {
            ids.last() + 1
        } else {
            before
        }
    }
}

/// A new id is larger than every id in use.
pub proof fn law_new_id_is_unused(ids: Seq<i64>, i: int)
    requires
        0 <= i < ids.len(),
    ensures
        ids[i] < next_id(ids),
    decreases ids.len(),
{
    if i < ids.len() - 1 {
        law_new_id_is_unused(ids.drop_last(), i);
    }
}

pub proof fn lemma_next_id_positive(ids: Seq<i64>)
    ensures
        next_id(ids) >= 1,
    decreases ids.len(),
{
    if ids.len() > 0 {
        lemma_next_id_positive(ids.drop_last());
    }
}

proof fn lemma_next_id_grows(ids: Seq<i64>, i: int)
    requires
        0 <= i <= ids.len(),
    ensures
        next_id(ids.take(i)) <= next_id(ids),
    decreases ids.len() - i,
{
    if i < ids.len() {
        assert(ids.take(i + 1).drop_last() =~= ids.take(i));
        lemma_next_id_grows(ids, i + 1);
    } else {
        assert(ids.take(i) =~= ids);
    }
}

pub(crate) fn fresh_id(ids: &Vec<i64>) -> (r: i64)
    requires
        next_id(ids@) <= i64::MAX,
    ensures
        r == next_id(ids@),
{
    let mut next: i64 = 1;
    let mut i: usize = 0;
    while i < ids.len()
        invariant
            i <= ids@.len(),
            next_id(ids@) <= i64::MAX,
            next == next_id(ids@.take(i as int)),
        decreases ids@.len() - i,
    {
        proof {
            assert(ids@.take(i + 1).drop_last() =~= ids@.take(i as int));
            lemma_next_id_grows(ids@, i + 1);
        }
        if ids[i] >= next {
            next = ids[i] + 1;
        }
        i += 1;
    }
    proof {
        assert(ids@.take(ids@.len() as int) =~= ids@);
    }
    next
}

/// The tracks with the given content id.
pub open spec fn has_content(id: Seq<char>) -> spec_fn(TrackRow) -> bool {
    |t: TrackRow| opt_view(t.content_id) == Some(id)
}

/// The playlists with the given id on every device.
pub open spec fn has_sync_id(id: Seq<char>) -> spec_fn(PlaylistRow) -> bool {
    |p: PlaylistRow| opt_view(p.sync_id) == Some(id)
}

pub open spec fn is_playlist(id: i64) -> spec_fn(PlaylistRow) -> bool {
    |p: PlaylistRow| p.id == id
}

/// The entries of a playlist of other peers' tracks with a content id.
pub open spec fn is_fed_entry(sync_id: Seq<char>, content_id: Seq<char>) -> spec_fn(FedEntry) -> bool {
    |e: FedEntry| e.playlist_sync_id@ == sync_id && e.content_id@ == content_id
}

/// The first local track with a content id.
pub open spec fn track_of_content(lib: Library, id: Seq<char>) -> Option<i64> {
    match first_where(lib.tracks@, has_content(id)) {
        Some(i) => Some(lib.tracks@[i].id),
        None => None,
    }
}

/// The local track that a text names by its content id.
pub open spec fn track_named(lib: Library, content_id: Seq<char>) -> Option<i64> {
    match crate::content_id::canonical(content_id) {
        Some(id) => track_of_content(lib, id),
        None => None,
    }
}

/// The playlist that has an id on every device.
pub open spec fn playlist_of_sync_id(lib: Library, id: Seq<char>) -> Option<i64> {
    match first_where(lib.playlists@, has_sync_id(id)) {
        Some(i) => Some(lib.playlists@[i].id),
        None => None,
    }
}

/// The id that a playlist has on every device.
pub open spec fn sync_id_of(lib: Library, id: i64) -> Option<Seq<char>> {
    match first_where(lib.playlists@, is_playlist(id)) {
        Some(i) => opt_view(lib.playlists@[i].sync_id),
        None => None,
    }
}

impl Library {
    pub fn new() -> (r: Self)
        ensures
            r.artists@.len() == 0,
            r.releases@.len() == 0,
            r.release_artists@.len() == 0,
            r.tracks@.len() == 0,
            r.track_artists@.len() == 0,
            r.playlists@.len() == 0,
            r.playlist_tracks@.len() == 0,
            r.likes@.len() == 0,
            r.fed_likes@.len() == 0,
            r.fed_playlist_tracks@.len() == 0,
            r.history@.len() == 0,
            r.network@.len() == 0,
    {
        Library {
            artists: Vec::new(),
            releases: Vec::new(),
            release_artists: Vec::new(),
            tracks: Vec::new(),
            track_artists: Vec::new(),
            playlists: Vec::new(),
            playlist_tracks: Vec::new(),
            likes: Vec::new(),
            fed_likes: Vec::new(),
            fed_playlist_tracks: Vec::new(),
            history: Vec::new(),
            network: Vec::new(),
        }
    }

    pub(crate) fn content_track(&self, id: &str) -> (r: Option<i64>)
        ensures
            r == track_of_content(*self, id@),
    {
        let f = |t: &TrackRow| -> (b: bool)
            ensures
                b == has_content(id@)(*t),
            {
                match &t.content_id {
                    Some(c) => same(c.as_str(), id),
                    None => false,
                }
            };
        match find_by(&self.tracks, f, Ghost(has_content(id@))) {
            Some(i) => Some(self.tracks[i].id),
            None => None,
        }
    }

    /// The local track with the given content id.
    pub fn track_id_by_content_id(&self, content_id: &str) -> (r: Option<i64>)
        ensures
            r == track_named(*self, content_id@),
    {
        match crate::content_id::normalize_content_id(content_id) {
            Some(id) => self.content_track(id.as_str()),
            None => None,
        }
    }

    pub(crate) fn synced_playlist(&self, sync_id: &str) -> (r: Option<usize>)
        ensures
            match r {
                Some(i) => first_where(self.playlists@, has_sync_id(sync_id@)) == Some(i as int) && i
                    < self.playlists@.len(),
                None => first_where(self.playlists@, has_sync_id(sync_id@)) is None,
            },
    {
        let f = |p: &PlaylistRow| -> (b: bool)
            ensures
                b == has_sync_id(sync_id@)(*p),
            {
                match &p.sync_id {
                    Some(s) => same(s.as_str(), sync_id),
                    None => false,
                }
            };
        find_by(&self.playlists, f, Ghost(has_sync_id(sync_id@)))
    }

    pub(crate) fn playlist_at(&self, id: i64) -> (r: Option<usize>)
        ensures
            match r {
                Some(i) => first_where(self.playlists@, is_playlist(id)) == Some(i as int) && i
                    < self.playlists@.len() && self.playlists@[i as int].id == id,
                None => first_where(self.playlists@, is_playlist(id)) is None,
            },
    {
        let f = |p: &PlaylistRow| -> (b: bool)
            ensures
                b == is_playlist(id)(*p),
            { p.id == id };
        find_by(&self.playlists, f, Ghost(is_playlist(id)))
    }

    /// The id that a playlist has on every device.
    pub fn playlist_sync_id(&self, id: i64) -> (r: Option<String>)
        ensures
            opt_view(r) == sync_id_of(*self, id),
    {
        match self.playlist_at(id) {
            Some(i) => self.playlists[i].sync_id.clone(),
            None => None,
        }
    }

    /// The content id of a track, in canonical form.
    pub fn track_content_id_by_id(&self, track_id: i64) -> (r: Option<String>)
        ensures
            opt_view(r) == match first_where(self.tracks@, is_track(track_id)) {
                Some(i) => crate::content_id::canonical_option(opt_view(self.tracks@[i].content_id)),
                None => None,
            },
    {
        match self.track_at(track_id) {
            Some(i) => crate::content_id::normalize_option(&self.tracks[i].content_id),
            None => None,
        }
    }

    pub(crate) fn track_at(&self, id: i64) -> (r: Option<usize>)
        ensures
            match r {
                Some(i) => first_where(self.tracks@, is_track(id)) == Some(i as int) && i
                    < self.tracks@.len() && self.tracks@[i as int].id == id,
                None => first_where(self.tracks@, is_track(id)) is None,
            },
    {
        let f = |t: &TrackRow| -> (b: bool)
            ensures
                b == is_track(id)(*t),
            { t.id == id };
        find_by(&self.tracks, f, Ghost(is_track(id)))
    }
}

pub open spec fn is_track(id: i64) -> spec_fn(TrackRow) -> bool {
    |t: TrackRow| t.id == id
}

/// The names of a list that is kept as one text: what is between the
/// semicolons, without what is empty.
pub open spec fn names_kept(text: Seq<char>) -> Seq<Seq<char>> {
    crate::text::split_at_text(text, "; "@).filter(nonempty())
}

pub open spec fn nonempty() -> spec_fn(Seq<char>) -> bool {
    |s: Seq<char>| s.len() > 0
}

/// The names of a list that is kept as one text.
pub fn split_joined_names(names: &str) -> (r: Vec<String>)
    ensures
        views(r@) == names_kept(names@),
{
    let chars = crate::text::chars_of(names);
    let sep = crate::text::chars_of("; ");
    proof {
        reveal_strlit("; ");
    }
    let parts = crate::text::split_text(&chars, &sep);
    let mut out: Vec<String> = Vec::new();
    let mut i: usize = 0;
    let ghost all = crate::text::char_views(parts@);
    proof {
        reveal(Seq::filter);
        assert(all.take(0) =~= Seq::empty());
        assert(views(out@) =~= all.take(0).filter(nonempty()));
    }
    while i < parts.len()
        invariant
            i <= parts@.len(),
            all == crate::text::char_views(parts@),
            views(out@) == all.take(i as int).filter(nonempty()),
        decreases parts@.len() - i,
    {
        proof {
            reveal(Seq::filter);
            assert(all.take(i + 1).drop_last() =~= all.take(i as int));
            assert(all.take(i + 1).last() == parts@[i as int]@);
        }
        if parts[i].len() > 0 {
            let ghost before = out@;
            out.push(crate::text::string_of(&parts[i]));
            proof {
                assert(views(out@) =~= views(before).push(parts@[i as int]@));
            }
        }
        i += 1;
    }
    proof {
        assert(all.take(parts@.len() as int) =~= all);
    }
    out
}

/// A list of names as it is after it was kept as one text.
pub open spec fn kept(names: Seq<Seq<char>>) -> Seq<Seq<char>> {
    names_kept(joined(names, "; "@))
}

fn keep(names: &Vec<String>) -> (r: Vec<String>)
    ensures
        views(r@) == kept(views(names@)),
{
    let text = crate::text::join(names, "; ");
    split_joined_names(text.as_str())
}

/// A track of another peer as the library keeps it: its names went through
/// one text, it is nobody's own, and its content id is the given one.
pub open spec fn stored_view(
    fed: crate::federation::track::FedTrackView,
    content_id: Option<Seq<char>>,
) -> crate::federation::track::FedTrackView {
    crate::federation::track::FedTrackView {
        own: false,
        artist_names: kept(fed.artist_names),
        featured_artist_names: kept(fed.featured_artist_names),
        content_id,
        ..fed
    }
}

pub(crate) fn stored(fed: &FedTrack, content_id: Option<String>) -> (r: FedTrack)
    ensures
        r@ == stored_view(fed@, opt_view(content_id)),
{
    FedTrack {
        item_id: fed.item_id.clone(),
        owner: fed.owner.clone(),
        own: false,
        title: fed.title.clone(),
        artist_names: keep(&fed.artist_names),
        featured_artist_names: keep(&fed.featured_artist_names),
        year: fed.year,
        duration_seconds: fed.duration_seconds,
        content_id,
        release_title: fed.release_title.clone(),
        track_number: fed.track_number,
        disc_number: fed.disc_number,
    }
}

} // verus!
