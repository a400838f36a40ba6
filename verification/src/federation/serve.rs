//! Answering peers from the library: the part of an artist's card that this
//! library holds, and the tracks that it serves.

use crate::federation::audio::{image_mime, image_type, MetadataView, TrackMetadata};
use crate::federation::catalog::{
    CatalogAppearance, CatalogAppearanceView, CatalogArtist, CatalogArtistView, CatalogRelease,
    CatalogReleaseView, CatalogTrack, CatalogTrackView, MAX_CATALOG_BYTES, MAX_IMAGE_BYTES,
};
use crate::hex::{hex_decode_item_id, hex_encode, hexed, law_hex_round_trip, unhexed};
use crate::library::edit::{artist_place, row_is_artist, row_is_release};
use crate::library::listing::{
    artist_row, by_place, by_title, by_year, first_of, is_credited_as, is_on_release,
    is_release_by, items_of, items_with_ids, names_in, release_cards, release_refs, track_item,
    ReleaseCardView,
};
use crate::library::models::{
    known_duration, names_of, positive_or_none, ref_names, refs_view, TrackItem, TrackView,
};
use crate::library::network::is_release_named;
use crate::library::tables::{is_track, Library, ReleaseRow, TrackRow};
use crate::lists::{find_by, first_where, lemma_first_where, stable_sorted, viewed};
use crate::names::normalizes;
use crate::text::{ascii_text, decimal_text, opt_view, same, views};
use vstd::prelude::*;
use vstd::utf8::encode_utf8;

verus! {

// ---------------------------------------------------------------------------
// Items
// ---------------------------------------------------------------------------

/// A usable naming of items: every track of this peer has one.
pub open spec fn identifies<G: Fn(i64) -> String>(g: G) -> bool {
    &&& forall|id: i64| #[trigger] call_requires(g, (id,))
    &&& forall|id: i64, a: String, b: String|
        #[trigger] call_ensures(g, (id,), a) && #[trigger] call_ensures(g, (id,), b) ==> a@ == b@
}

pub open spec fn gives_item<G: Fn(i64) -> String>(g: G, id: i64, k: Seq<char>) -> bool {
    exists|r: String| r@ == k && #[trigger] call_ensures(g, (id,), r)
}

/// The item of a track of this peer.
pub open spec fn item_of<G: Fn(i64) -> String>(g: G, id: i64) -> Seq<char> {
    choose|k: Seq<char>| gives_item(g, id, k)
}

fn item<G: Fn(i64) -> String>(g: &G, id: i64) -> (r: String)
    requires
        identifies(*g),
    ensures
        r@ == item_of(*g, id),
{
    let r = g(id);
    proof {
        assert(gives_item(*g, id, r@));
        let k = item_of(*g, id);
        assert(gives_item(*g, id, k));
    }
    r
}

/// What the item of a track is made from.
pub fn track_local_key(id: i64) -> (r: String)
    ensures
        r@ == "track:"@ + crate::text::signed_decimal(id as int),
{
    let mut out = "track:".to_owned();
    out.append(crate::text::signed_text(id).as_str());
    out
}

// ---------------------------------------------------------------------------
// The card of an artist
// ---------------------------------------------------------------------------

/// A track as it is told to a peer.
pub open spec fn told_track(t: TrackView, item: Seq<char>) -> CatalogTrackView {
    CatalogTrackView {
        title: t.title,
        artists: names_in(t.artists),
        featured_artists: names_in(t.featured_artists),
        track_number: t.track_number,
        disc_number: t.disc_number,
        duration: positive_or_none(t.duration),
        content_id: t.content_id,
        item_id: item,
    }
}

fn catalog_track(track: &TrackItem, item_id: String) -> (r: CatalogTrack)
    ensures
        r@ == told_track(track@, item_id@),
{
    proof {
        assert(ref_names(track.artists@) =~= names_in(track@.artists));
        assert(ref_names(track.featured_artists@) =~= names_in(track@.featured_artists));
    }
    CatalogTrack {
        title: track.title.clone(),
        artists: names_of(&track.artists),
        featured_artists: names_of(&track.featured_artists),
        track_number: track.track_number,
        disc_number: track.disc_number,
        duration: known_duration(track.duration),
        content_id: track.content_id.clone(),
        item_id,
    }
}

pub open spec fn told_tracks<G: Fn(i64) -> String>(g: G, tracks: Seq<TrackView>) -> Seq<CatalogTrackView> {
    tracks.map_values(|t: TrackView| told_track(t, item_of(g, t.id)))
}

/// A release as it is told to a peer.
pub open spec fn told_release<G: Fn(i64) -> String>(g: G, lib: Library, id: i64) -> Option<
    CatalogReleaseView,
> {
    match first_where(lib.releases@, row_is_release(id)) {
        Some(i) => Some(
            CatalogReleaseView {
                title: lib.releases@[i].title@,
                release_type: lib.releases@[i].release_type@,
                year: lib.releases@[i].year,
                tracks: told_tracks(
                    g,
                    items_of(lib, stable_sorted(lib.tracks@.filter(is_on_release(id)), by_place())),
                ),
            },
        ),
        None => None,
    }
}

pub open spec fn told_releases<G: Fn(i64) -> String>(g: G, lib: Library, cards: Seq<ReleaseCardView>) -> Seq<
    CatalogReleaseView,
>
    decreases cards.len(),
{
    if cards.len() == 0 {
        Seq::empty()
    } else {
        let before = told_releases(g, lib, cards.drop_last());
        match told_release(g, lib, cards.last().id) {
            Some(r) => before.push(r),
            None => before,
        }
    }
}

/// The tracks that feature an artist as they are told to a peer.
pub open spec fn told_appearances<G: Fn(i64) -> String>(g: G, lib: Library, tracks: Seq<TrackView>) -> Seq<
    CatalogAppearanceView,
>
    decreases tracks.len(),
{
    if tracks.len() == 0 {
        Seq::empty()
    } else {
        let before = told_appearances(g, lib, tracks.drop_last());
        let t = tracks.last();
        match first_where(lib.releases@, row_is_release(t.release_id)) {
            Some(i) => before.push(
                CatalogAppearanceView {
                    release_title: t.release_title,
                    release_type: lib.releases@[i].release_type@,
                    year: t.release_year,
                    track: told_track(t, item_of(g, t.id)),
                },
            ),
            None => before,
        }
    }
}

/// What this library holds of an artist.
pub open spec fn told_artist<F: Fn(&str) -> String, G: Fn(i64) -> String>(
    f: F,
    g: G,
    lib: Library,
    name: Seq<char>,
) -> Option<CatalogArtistView> {
    match artist_place(f, viewed(lib.artists@), name) {
        Some(i) => {
            let id = lib.artists@[i].id;
            Some(
                CatalogArtistView {
                    name: lib.artists@[artist_row(lib.artists@, id)->0].name@,
                    releases: told_releases(
                        g,
                        lib,
                        release_cards(
                            lib,
                            stable_sorted(
                                lib.releases@.filter(is_release_by(lib.release_artists@, id)),
                                by_year(),
                            ),
                        ),
                    ),
                    appears_on: told_appearances(
                        g,
                        lib,
                        items_of(
                            lib,
                            stable_sorted(
                                lib.tracks@.filter(is_credited_as(lib.track_artists@, id, true)),
                                by_title(),
                            ),
                        ),
                    ),
                },
            )
        },
        None => None,
    }
}

pub open spec fn artist_view(a: Option<CatalogArtist>) -> Option<CatalogArtistView> {
    match a {
        Some(v) => Some(v@),
        None => None,
    }
}

fn tracks_told<G: Fn(i64) -> String>(g: &G, tracks: &Vec<TrackItem>) -> (r: Vec<CatalogTrack>)
    requires
        identifies(*g),
    ensures
        viewed(r@) == told_tracks(*g, viewed(tracks@)),
{
    let mut out: Vec<CatalogTrack> = Vec::new();
    let mut i: usize = 0;
    while i < tracks.len()
        invariant
            i <= tracks@.len(),
            identifies(*g),
            out@.len() == i,
            forall|j: int|
                0 <= j < i ==> (#[trigger] out@[j])@ == told_track(
                    tracks@[j]@,
                    item_of(*g, tracks@[j].id),
                ),
        decreases tracks@.len() - i,
    {
        out.push(catalog_track(&tracks[i], item(g, tracks[i].id)));
        i += 1;
    }
    proof {
        assert(viewed(out@) =~= told_tracks(*g, viewed(tracks@)));
    }
    out
}

#[derive(Debug)]
pub struct CatalogResponse {
    pub ok: bool,
    pub error: Option<String>,
    pub artist: Option<CatalogArtist>,
}

/// The answer to a peer that asks for the card of an artist.
pub open spec fn tells_catalog<F: Fn(&str) -> String, G: Fn(i64) -> String>(
    f: F,
    g: G,
    lib: Library,
    name: Seq<char>,
    r: CatalogResponse,
) -> bool {
    &&& r.ok == (told_artist(f, g, lib, name) is Some)
    &&& artist_view(r.artist) == told_artist(f, g, lib, name)
    &&& opt_view(r.error) == (if r.ok {
        None
    } else {
        Some("artist not found in the library"@)
    })
}

impl Library {
    /// What this library holds of an artist, as it is told to a peer.
    pub fn build_catalog_artist<F: Fn(&str) -> String, G: Fn(i64) -> String>(
        &self,
        f: &F,
        g: &G,
        name: &str,
    ) -> (r: Option<CatalogArtist>)
        requires
            normalizes(*f),
            identifies(*g),
        ensures
            artist_view(r) == told_artist(*f, *g, *self, name@),
    {
        let id = match self.artist_id_by_name(f, name) {
            Some(id) => id,
            None => {
                return None;
            },
        };
        proof {
            let i = artist_place(*f, viewed(self.artists@), name@)->0;
            crate::lists::lemma_first_where(
                viewed(self.artists@),
                crate::library::edit::is_named(*f, crate::names::key_of(*f, name@)),
            );
            crate::lists::lemma_first_where(self.artists@, row_is_artist(id));
            assert(row_is_artist(id)(self.artists@[i]));
        }
        let detail = match self.artist(id) {
            Ok(d) => d,
            Err(_) => {
                return None;
            },
        };
        let ghost cards = viewed(detail.releases@);
        let mut releases: Vec<CatalogRelease> = Vec::new();
        let mut i: usize = 0;
        proof {
            assert(cards.take(0) =~= Seq::empty());
            assert(viewed(releases@) =~= Seq::empty());
        }
        while i < detail.releases.len()
            invariant
                i <= detail.releases@.len(),
                identifies(*g),
                cards == viewed(detail.releases@),
                viewed(releases@) == told_releases(*g, *self, cards.take(i as int)),
            decreases detail.releases@.len() - i,
        {
            proof {
                assert(cards.take(i + 1).drop_last() =~= cards.take(i as int));
                assert(cards.take(i + 1).last() == detail.releases@[i as int]@);
            }
            if let Ok(d) = self.release(detail.releases[i].id) {
                let ghost before = releases@;
                let tracks = tracks_told(g, &d.tracks);
                releases.push(
                    CatalogRelease {
                        title: d.title,
                        release_type: d.release_type,
                        year: d.year,
                        tracks,
                    },
                );
                proof {
                    assert(viewed(releases@) =~= viewed(before).push(releases@.last()@));
                    assert(Some(releases@.last()@) == told_release(
                        *g,
                        *self,
                        detail.releases@[i as int].id,
                    ));
                }
            }
            i += 1;
        }
        let ghost guests = viewed(detail.featured_tracks@);
        let mut appears_on: Vec<CatalogAppearance> = Vec::new();
        let mut k: usize = 0;
        proof {
            assert(cards.take(detail.releases@.len() as int) =~= cards);
            assert(guests.take(0) =~= Seq::empty());
            assert(viewed(appears_on@) =~= Seq::empty());
        }
        while k < detail.featured_tracks.len()
            invariant
                k <= detail.featured_tracks@.len(),
                identifies(*g),
                guests == viewed(detail.featured_tracks@),
                viewed(appears_on@) == told_appearances(*g, *self, guests.take(k as int)),
            decreases detail.featured_tracks@.len() - k,
        {
            proof {
                assert(guests.take(k + 1).drop_last() =~= guests.take(k as int));
                assert(guests.take(k + 1).last() == detail.featured_tracks@[k as int]@);
            }
            let t = &detail.featured_tracks[k];
            if let Ok(d) = self.release(t.release_id) {
                let ghost before = appears_on@;
                appears_on.push(
                    CatalogAppearance {
                        release_title: t.release_title.clone(),
                        release_type: d.release_type,
                        year: t.release_year,
                        track: catalog_track(t, item(g, t.id)),
                    },
                );
                proof {
                    assert(viewed(appears_on@) =~= viewed(before).push(appears_on@.last()@));
                }
            }
            k += 1;
        }
        proof {
            assert(guests.take(detail.featured_tracks@.len() as int) =~= guests);
        }
        Some(CatalogArtist { name: detail.name, releases, appears_on })
    }

    /// The answer to a peer that asks for the card of an artist.
    pub fn build_catalog<F: Fn(&str) -> String, G: Fn(i64) -> String>(&self, f: &F, g: &G, name: &str) -> (r:
        CatalogResponse)
        requires
            normalizes(*f),
            identifies(*g),
        ensures
            tells_catalog(*f, *g, *self, name@, r),
    {
        match self.build_catalog_artist(f, g, name) {
            Some(a) => CatalogResponse { ok: true, error: None, artist: Some(a) },
            None => CatalogResponse {
                ok: false,
                error: Some("artist not found in the library".to_owned()),
                artist: None,
            },
        }
    }

    /// The image that a peer asks for: the cover of a release, or the image of
    /// an artist.
    pub fn catalog_image<F: Fn(&str) -> String>(
        &self,
        f: &F,
        wants_cover: bool,
        artist: &str,
        release: &Option<String>,
    ) -> (r: Option<String>)
        requires
            normalizes(*f),
        ensures
            opt_view(r) == if wants_cover {
                match first_where(
                    self.releases@,
                    is_release_named(
                        *f,
                        *self,
                        artist@,
                        crate::federation::card::or_empty(opt_view(*release)),
                    ),
                ) {
                    Some(i) => opt_view(self.releases@[i].cover_path),
                    None => None,
                }
            } else {
                match artist_place(*f, viewed(self.artists@), artist@) {
                    Some(i) => match artist_row(self.artists@, self.artists@[i].id) {
                        Some(k) => opt_view(self.artists@[k].image_path),
                        None => None,
                    },
                    None => None,
                }
            },
    {
        if wants_cover {
            let title = match release {
                Some(t) => t.clone(),
                None => String::new(),
            };
            proof {
                assert(title@ =~= crate::federation::card::or_empty(opt_view(*release)));
            }
            self.release_cover_by_names(f, artist, title.as_str())
        } else {
            match self.artist_id_by_name(f, artist) {
                Some(id) => self.artist_image(id),
                None => None,
            }
        }
    }
}

/// What a peer asks for.
#[derive(Clone, Copy, PartialEq, Eq, Structural, Debug)]
pub enum Want {
    Catalog,
    ArtistImage,
    ReleaseCover,
    Unknown,
}

/// What a peer asks for; nothing means the card of an artist.
pub fn want_of(want: &Option<String>) -> (r: Want)
    ensures
        r == match opt_view(*want) {
            None => Want::Catalog,
            Some(w) => if w == "catalog"@ {
                Want::Catalog
            } else if w == "artist_image"@ {
                Want::ArtistImage
            } else if w == "release_cover"@ {
                Want::ReleaseCover
            } else {
                Want::Unknown
            },
        },
{
    match want {
        None => Want::Catalog,
        Some(w) => if same(w.as_str(), "catalog") {
            Want::Catalog
        } else if same(w.as_str(), "artist_image") {
            Want::ArtistImage
        } else if same(w.as_str(), "release_cover") {
            Want::ReleaseCover
        } else {
            Want::Unknown
        },
    }
}

/// The answer to a peer that asks for something else.
pub fn unknown_want(want: &str) -> (r: CatalogResponse)
    ensures
        !r.ok,
        r.artist is None,
        opt_view(r.error) == Some("unknown request kind '"@ + want@ + "'"@),
{
    let mut e = "unknown request kind '".to_owned();
    e.append(want);
    e.append("'");
    CatalogResponse { ok: false, error: Some(e), artist: None }
}

/// What goes before an image.
#[derive(Debug)]
pub struct ImageHeader {
    pub ok: bool,
    pub error: Option<String>,
    pub mime_type: String,
    pub size: u64,
}

/// Whether an image of a size is sent.
pub open spec fn can_send(size: Option<u64>) -> bool {
    size is Some && 0 < size->0 <= MAX_IMAGE_BYTES
}

/// What goes before the image that a peer asked for. An image that is empty,
/// too large or not there is not sent.
pub fn image_header(size: Option<u64>, extension: &str) -> (r: ImageHeader)
    ensures
        r.ok == can_send(size),
        opt_view(r.error) == (if can_send(size) {
            None
        } else {
            Some("no image"@)
        }),
        r.mime_type@ == (if can_send(size) {
            image_type(extension@)
        } else {
            Seq::empty()
        }),
        r.size == (if can_send(size) {
            size->0
        } else {
            0
        }),
{
    match size {
        Some(n) => if 0 < n && n <= MAX_IMAGE_BYTES {
            return ImageHeader {
                ok: true,
                error: None,
                mime_type: image_mime(extension).to_owned(),
                size: n,
            };
        },
        None => {},
    }
    ImageHeader {
        ok: false,
        error: Some("no image".to_owned()),
        mime_type: String::new(),
        size: 0,
    }
}

/// The request for a picture on a card.
pub fn image_want(release: &Option<String>) -> (r: &'static str)
    ensures
        r@ == if release is Some {
            "release_cover"@
        } else {
            "artist_image"@
        },
{
    if release.is_some() {
        "release_cover"
    } else {
        "artist_image"
    }
}

/// How many bytes of image follow, or none where the peer has no image.
pub fn check_image_header(header: &ImageHeader) -> (r: Result<Option<u64>, String>)
    ensures
        match r {
            Ok(None) => !header.ok || header.size == 0,
            Ok(Some(n)) => header.ok && n == header.size && 0 < n <= MAX_IMAGE_BYTES,
            Err(e) => header.ok && header.size > MAX_IMAGE_BYTES && e@ == "image of "@
                + crate::text::decimal(header.size as nat) + " bytes exceeds the "@
                + crate::text::decimal(MAX_IMAGE_BYTES as nat) + " byte limit"@,
        },
{
    if !header.ok || header.size == 0 {
        return Ok(None);
    }
    if header.size > MAX_IMAGE_BYTES {
        let mut e = "image of ".to_owned();
        e.append(decimal_text(header.size).as_str());
        e.append(" bytes exceeds the ");
        e.append(decimal_text(MAX_IMAGE_BYTES).as_str());
        e.append(" byte limit");
        return Err(e);
    }
    Ok(Some(header.size))
}

/// Whether an answer of a size is read.
pub fn check_catalog_size(size: u64) -> (r: Result<(), String>)
    ensures
        r is Ok == (size <= MAX_CATALOG_BYTES),
        r matches Err(e) ==> e@ == "catalog response exceeds "@ + crate::text::decimal(
            MAX_CATALOG_BYTES as nat,
        ) + " bytes"@,
{
    if size <= MAX_CATALOG_BYTES {
        return Ok(());
    }
    let mut e = "catalog response exceeds ".to_owned();
    e.append(decimal_text(MAX_CATALOG_BYTES).as_str());
    e.append(" bytes");
    Err(e)
}

/// Takes the answer of a peer: its part of the card, or why there is none.
pub fn take_catalog(response: CatalogResponse) -> (r: Result<CatalogArtist, String>)
    ensures
        match r {
            Ok(a) => response.ok && response.artist == Some(a),
            Err(e) => if response.ok {
                response.artist is None && e@ == "empty catalog response"@
            } else {
                e@ == "peer refused the catalog: "@ + match response.error {
                    Some(t) => t@,
                    None => "unknown error"@,
                }
            },
        },
{
    if !response.ok {
        let mut e = "peer refused the catalog: ".to_owned();
        match response.error {
            Some(t) => e.append(t.as_str()),
            None => e.append("unknown error"),
        }
        return Err(e);
    }
    match response.artist {
        Some(a) => Ok(a),
        None => Err("empty catalog response".to_owned()),
    }
}

// ---------------------------------------------------------------------------
// Serving a track
// ---------------------------------------------------------------------------

/// The item that a peer asks for by a text.
pub open spec fn requested_item(text: Seq<char>) -> Option<Seq<u8>> {
    if encode_utf8(text).len() == 64 {
        unhexed(encode_utf8(text), 32)
    } else {
        None
    }
}

/// The tracks of the library whose item is a given one.
pub open spec fn is_served<G: Fn(i64) -> String>(g: G, lib: Library, item: Seq<u8>) -> spec_fn(
    TrackRow,
) -> bool {
    |t: TrackRow|
        item_of(g, t.id) == ascii_text(hexed(item)) && first_where(
            lib.releases@,
            row_is_release(t.release_id),
        ) is Some
}

/// The track whose item is a given one.
pub open spec fn track_of_item<G: Fn(i64) -> String>(g: G, lib: Library, item: Seq<u8>) -> Option<i64> {
    match first_where(lib.tracks@, is_served(g, lib, item)) {
        Some(i) => Some(lib.tracks@[i].id),
        None => None,
    }
}

/// What is needed to answer a peer that asks for a track.
#[derive(Debug)]
pub struct Served {
    pub file_path: String,
    pub metadata: TrackMetadata,
    pub cover_path: Option<String>,
    pub artist_image_path: Option<String>,
}

/// What the library knows of a track that a peer asks for.
pub open spec fn served_metadata(lib: Library, t: TrackView) -> MetadataView {
    let release = first_where(lib.releases@, row_is_release(t.release_id));
    MetadataView {
        title: t.title,
        artists: names_in(t.artists),
        featured_artists: names_in(t.featured_artists),
        album_artists: if release is Some {
            names_in(release_refs(lib, t.release_id))
        } else {
            Seq::empty()
        },
        release_title: t.release_title,
        release_type: match release {
            Some(i) => Some(lib.releases@[i].release_type@),
            None => None,
        },
        year: t.release_year,
        track_number: t.track_number,
        disc_number: t.disc_number,
        duration: positive_or_none(t.duration),
        audio_format: t.audio_format,
        audio_bitrate: t.audio_bitrate,
        audio_sample_rate: t.audio_sample_rate,
        audio_bit_depth: t.audio_bit_depth,
    }
}

/// The image of the first artist of a track.
pub open spec fn served_image(lib: Library, t: TrackView) -> Option<Seq<char>> {
    if t.artists.len() > 0 {
        match artist_row(lib.artists@, t.artists[0].0) {
            Some(i) => opt_view(lib.artists@[i].image_path),
            None => None,
        }
    } else {
        None
    }
}

/// The local track that an item stands for, as it is shown.
pub open spec fn local_of_item<G: Fn(i64) -> String>(g: G, lib: Library, item: Seq<u8>) -> Option<
    TrackView,
> {
    match track_of_item(g, lib, item) {
        Some(id) => first_of(items_with_ids(lib, seq![id])),
        None => None,
    }
}

/// Whether an answer holds the file, the facts and the images of a track.
pub open spec fn serves(lib: Library, t: TrackView, s: Served) -> bool {
    &&& s.file_path@ == t.file_path
    &&& s.metadata@ == served_metadata(lib, t)
    &&& opt_view(s.cover_path) == t.cover_path
    &&& opt_view(s.artist_image_path) == served_image(lib, t)
}

/// What a peer is sent that asks for an item.
pub open spec fn answers_request<G: Fn(i64) -> String>(
    g: G,
    lib: Library,
    item_id: Seq<char>,
    r: Result<Served, &'static str>,
) -> bool {
    match requested_item(item_id) {
        None => r matches Err(e) && e@ == "malformed item_id"@,
        Some(item) => match local_of_item(g, lib, item) {
            None => r matches Err(e) && e@ == "track not found in the library"@,
            Some(t) => r matches Ok(s) && serves(lib, t, s),
        },
    }
}

impl Library {
    fn has_release_row(&self, id: i64) -> (r: bool)
        ensures
            r == (first_where(self.releases@, row_is_release(id)) is Some),
    {
        let f = |r: &ReleaseRow| -> (b: bool)
            ensures
                b == row_is_release(id)(*r),
            { r.id == id };
        find_by(&self.releases, f, Ghost(row_is_release(id))).is_some()
    }

    /// The track that an item of this peer stands for.
    pub fn resolve_local_track_id<G: Fn(i64) -> String>(&self, g: &G, item_id: &[u8]) -> (r: Option<
        i64,
    >)
        requires
            identifies(*g),
        ensures
            r == track_of_item(*g, *self, item_id@),
    {
        let me = self;
        let wanted = hex_encode(item_id);
        let f = |t: &TrackRow| -> (b: bool)
            ensures
                b == is_served(*g, *me, item_id@)(*t),
            { same(item(g, t.id).as_str(), wanted.as_str()) && me.has_release_row(t.release_id) };
        match find_by(&self.tracks, f, Ghost(is_served(*g, *me, item_id@))) {
            Some(i) => Some(self.tracks[i].id),
            None => None,
        }
    }

    /// The local track that an item of this peer stands for.
    pub fn local_track_of_item<G: Fn(i64) -> String>(&self, g: &G, item_id: &[u8]) -> (r: Option<
        TrackItem,
    >)
        requires
            identifies(*g),
        ensures
            crate::library::listing::item_view(r) == local_of_item(*g, *self, item_id@),
    {
        match self.resolve_local_track_id(g, item_id) {
            Some(id) => {
                let mut ids: Vec<i64> = Vec::new();
                ids.push(id);
                let mut found = self.tracks_by_ids(ids.as_slice());
                proof {
                    assert(ids@ =~= seq![id]);
                    assert(viewed(found@).len() == found@.len());
                }
                if found.len() > 0 {
                    Some(found.remove(0))
                } else {
                    None
                }
            },
            None => None,
        }
    }

    /// The file, the facts and the images of a track that a peer asks for.
    pub fn resolve_for_serving<G: Fn(i64) -> String>(&self, g: &G, item_id: &[u8]) -> (r: Option<Served>)
        requires
            identifies(*g),
        ensures
            match (local_of_item(*g, *self, item_id@), r) {
                (Some(t), Some(s)) => serves(*self, t, s),
                (None, None) => true,
                _ => false,
            },
    {
        let track = match self.local_track_of_item(g, item_id) {
            Some(t) => t,
            None => {
                return None;
            },
        };
        let ghost t = track@;
        let mut release_type: Option<String> = None;
        let mut album_artists: Vec<String> = Vec::new();
        proof {
            assert(views(album_artists@) =~= Seq::empty());
        }
        if let Ok(d) = self.release(track.release_id) {
            proof {
                assert(ref_names(d.artists@) =~= names_in(refs_view(d.artists@)));
            }
            album_artists = names_of(&d.artists);
            release_type = Some(d.release_type);
        }
        proof {
            assert(ref_names(track.artists@) =~= names_in(t.artists));
            assert(ref_names(track.featured_artists@) =~= names_in(t.featured_artists));
            assert(t.artists.len() == track.artists@.len());
        }
        let artist_image_path = if track.artists.len() > 0 {
            proof {
                assert(t.artists[0].0 == track.artists@[0].id);
            }
            self.artist_image(track.artists[0].id)
        } else {
            None
        };
        let metadata = TrackMetadata {
            title: track.title,
            artists: names_of(&track.artists),
            featured_artists: names_of(&track.featured_artists),
            album_artists,
            release_title: track.release_title,
            release_type,
            year: track.release_year,
            track_number: track.track_number,
            disc_number: track.disc_number,
            duration: known_duration(track.duration),
            audio_format: track.audio_format,
            audio_bitrate: track.audio_bitrate,
            audio_sample_rate: track.audio_sample_rate,
            audio_bit_depth: track.audio_bit_depth,
        };
        proof {
            assert(metadata@ =~= served_metadata(*self, t));
        }
        Some(
            Served {
                file_path: track.file_path,
                metadata,
                cover_path: track.cover_path,
                artist_image_path,
            },
        )
    }

    /// What a peer is sent that asks for an item, or why it is refused. The
    /// digits of the item may be of either case.
    pub fn answer_request<G: Fn(i64) -> String>(&self, g: &G, item_id: &str) -> (r: Result<
        Served,
        &'static str,
    >)
        requires
            identifies(*g),
        ensures
            answers_request(*g, *self, item_id@, r),
    {
        match hex_decode_item_id(item_id) {
            None => Err("malformed item_id"),
            Some(item) => match self.resolve_for_serving(g, item.as_slice()) {
                Some(served) => Ok(served),
                None => Err("track not found in the library"),
            },
        }
    }
}

proof fn lemma_items_of_one(lib: Library, rows: Seq<TrackRow>, t: TrackRow)
    requires
        rows.len() > 0,
        forall|k: int| 0 <= k < rows.len() ==> #[trigger] rows[k] == t,
        track_item(lib, t) is Some,
    ensures
        items_of(lib, rows).len() > 0,
        Some(items_of(lib, rows)[0]) == track_item(lib, t),
    decreases rows.len(),
{
    let h = rows.drop_last();
    assert(rows[rows.len() - 1] == t);
    if h.len() > 0 {
        assert forall|k: int| 0 <= k < h.len() implies #[trigger] h[k] == t by {
            assert(h[k] == rows[k]);
        }
        lemma_items_of_one(lib, h, t);
    } else {
        assert(items_of(lib, h) =~= Seq::empty());
    }
}

/// Every track of the library is served to whoever asks for it by its item: no
/// two tracks have the same id or the same item, and an item is written in
/// hexadecimal digits.
pub proof fn law_every_track_is_served<G: Fn(i64) -> String>(
    g: G,
    lib: Library,
    i: int,
    item: Seq<u8>,
)
    requires
        0 <= i < lib.tracks@.len(),
        track_item(lib, lib.tracks@[i]) is Some,
        item.len() == 32,
        item_of(g, lib.tracks@[i].id) == ascii_text(hexed(item)),
        forall|j: int|
            0 <= j < lib.tracks@.len() && item_of(g, (#[trigger] lib.tracks@[j]).id) == item_of(
                g,
                lib.tracks@[i].id,
            ) ==> j == i,
    ensures
        requested_item(item_of(g, lib.tracks@[i].id)) == Some(item),
        local_of_item(g, lib, item) == track_item(lib, lib.tracks@[i]),
{
    let row = lib.tracks@[i];
    law_hex_round_trip(item);
    let p = is_served(g, lib, item);
    lemma_first_where(lib.tracks@, p);
    assert(p(row));
    let n = first_where(lib.tracks@, p)->0;
    assert(p(lib.tracks@[n]));
    assert(n == i);
    let q = is_track(row.id);
    let rows = lib.tracks@.filter(q);
    lib.tracks@.lemma_filter_contains(q, i);
    assert forall|k: int| 0 <= k < rows.len() implies #[trigger] rows[k] == row by {
        lib.tracks@.lemma_filter_pred(q, k);
        lib.tracks@.lemma_filter_contains_rev(q, rows[k]);
        let j = lib.tracks@.index_of(rows[k]);
        assert(lib.tracks@[j] == rows[k]);
    }
    lemma_items_of_one(lib, rows, row);
    let ids = seq![row.id];
    assert(ids.last() == row.id);
    assert(items_with_ids(lib, ids.drop_last()) =~= Seq::empty());
    assert(items_with_ids(lib, ids) =~= items_of(lib, rows));
}

} // verus!
