//! What a peer is told of an artist, what is published, and what becomes of a
//! file that was fetched, whatever the library holds.

use crate::federation::audio::MetadataView;
use crate::federation::catalog::{CatalogAppearanceView, CatalogReleaseView};
use crate::federation::lookup::{fetched_import, takes_in_fetched, TakenIn};
use crate::federation::play::{
    ephemeral_item, overlaid, pending_item, preview_item, FetchedFile,
};
use crate::federation::publish::{release_spec, specs_of, track_spec, SpecView};
use crate::federation::search::ItemKind;
use crate::federation::serve::{
    item_of, tells_catalog, told_appearances, told_release, told_releases, told_tracks,
    CatalogResponse,
};
use crate::federation::track::FedTrackView;
use crate::library::change_laws::law_imported_file_is_a_track;
use crate::library::edit::{
    artist_place, is_named, is_release_credit, is_track_credit, row_is_release, shelf, takes_in,
    EditError,
};
use crate::library::export::FederationExport;
use crate::library::import::{Cover, ImportView};
use crate::library::likes::{fed_is_item, fed_is_other_item, likes_track};
use crate::library::listing::{
    by_place, by_title, by_year, is_credited_as, is_on_release, is_release_by, items_of,
    release_cards, track_item, ReleaseCardView,
};
use crate::library::listing_laws::{lemma_items_places, lemma_place_order, lemma_sorted_has};
use crate::library::models::TrackView;
use crate::library::tables::Library;
use crate::lists::{
    first_where, law_stable_sort, lemma_filter_holds, lemma_first_where, stable_sorted, viewed,
};
use crate::names::key_of;
use crate::text::{is_blank, signed_decimal, trimmed};
use vstd::prelude::*;

verus! {

// ---------------------------------------------------------------------------
// What is told of an artist
// ---------------------------------------------------------------------------

/// Whether what is told is a release with an id: its title, its kind and its year.
pub open spec fn tells_release(lib: Library, id: i64, v: CatalogReleaseView) -> bool {
    exists|m: int|
        0 <= m < lib.releases@.len() && (#[trigger] lib.releases@[m]).id == id && v.title
            == lib.releases@[m].title@ && v.release_type == lib.releases@[m].release_type@
            && v.year == lib.releases@[m].year
}

/// A release that is told has its title and year. Every track on it is told with its
/// title, under its item, and nothing else; by disc and then by number.
pub proof fn law_told_release_has_its_tracks<G: Fn(i64) -> String>(
    g: G,
    lib: Library,
    id: i64,
    v: CatalogReleaseView,
)
    requires
        told_release(g, lib, id) == Some(v),
    ensures
        tells_release(lib, id, v),
        forall|k: int|
            0 <= k < lib.tracks@.len() && (#[trigger] lib.tracks@[k]).release_id == id
                ==> exists|i: int|
                0 <= i < v.tracks.len() && (#[trigger] v.tracks[i]).item_id == item_of(
                    g,
                    lib.tracks@[k].id,
                ) && v.tracks[i].title == lib.tracks@[k].title@,
        forall|i: int|
            0 <= i < v.tracks.len() ==> exists|k: int|
                0 <= k < lib.tracks@.len() && (#[trigger] lib.tracks@[k]).release_id == id
                    && (#[trigger] v.tracks[i]).item_id == item_of(g, lib.tracks@[k].id)
                    && v.tracks[i].title == lib.tracks@[k].title@ && v.tracks[i].track_number
                    == lib.tracks@[k].track_number,
        forall|i: int, j: int|
            0 <= i < j < v.tracks.len() ==> {
                let a = #[trigger] v.tracks[i];
                let b = #[trigger] v.tracks[j];
                &&& a.disc_number is None ==> b.disc_number is None
                &&& a.disc_number matches Some(x) ==> (b.disc_number matches Some(y) ==> x <= y)
                &&& a.disc_number == b.disc_number && a.track_number is None
                    ==> b.track_number is None
                &&& a.disc_number == b.disc_number ==> (a.track_number matches Some(x) ==> (
                b.track_number matches Some(y) ==> x <= y))
            },
{
    lemma_first_where(lib.releases@, row_is_release(id));
    let m = first_where(lib.releases@, row_is_release(id))->0;
    assert(lib.releases@[m].id == id);
    let p = is_on_release(id);
    let on = lib.tracks@.filter(p);
    let rows = stable_sorted(on, by_place());
    lemma_place_order();
    law_stable_sort(on, by_place());
    lemma_sorted_has(on, by_place());
    lemma_filter_holds(lib.tracks@, p);
    let places = lemma_items_places(lib, rows);
    let shown = items_of(lib, rows);
    assert(v.tracks == told_tracks(g, shown));
    assert(v.tracks.len() == shown.len());
    assert forall|k: int| 0 <= k < lib.tracks@.len() && (#[trigger] lib.tracks@[k]).release_id
        == id implies exists|i: int|
        0 <= i < v.tracks.len() && (#[trigger] v.tracks[i]).item_id == item_of(
            g,
            lib.tracks@[k].id,
        ) && v.tracks[i].title == lib.tracks@[k].title@ by {
        let t = lib.tracks@[k];
        assert(lib.tracks@.contains(t));
        assert(on.contains(t));
        assert(rows.contains(t));
        let n = rows.index_of(t);
        assert(track_item(lib, rows[n]) is Some);
        let i = choose|i: int| 0 <= i < places.len() && #[trigger] places[i] == n;
        assert(v.tracks[i].item_id == item_of(g, t.id));
    }
    assert forall|i: int| 0 <= i < v.tracks.len() implies exists|k: int|
        0 <= k < lib.tracks@.len() && (#[trigger] lib.tracks@[k]).release_id == id && (
        #[trigger] v.tracks[i]).item_id == item_of(g, lib.tracks@[k].id) && v.tracks[i].title
            == lib.tracks@[k].title@ && v.tracks[i].track_number == lib.tracks@[k].track_number by {
        let t = rows[places[i]];
        assert(rows.contains(t));
        assert(on.contains(t));
        let k = lib.tracks@.index_of(t);
        assert(lib.tracks@[k] == t);
    }
    assert forall|i: int, j: int| 0 <= i < j < v.tracks.len() implies {
        let a = #[trigger] v.tracks[i];
        let b = #[trigger] v.tracks[j];
        &&& a.disc_number is None ==> b.disc_number is None
        &&& a.disc_number matches Some(x) ==> (b.disc_number matches Some(y) ==> x <= y)
        &&& a.disc_number == b.disc_number && a.track_number is None ==> b.track_number is None
        &&& a.disc_number == b.disc_number ==> (a.track_number matches Some(x) ==> (
        b.track_number matches Some(y) ==> x <= y))
    } by {
        assert(places[i] < places[j]);
        assert(by_place()(rows[places[i]], rows[places[j]]));
    }
}

proof fn lemma_told_releases<G: Fn(i64) -> String>(g: G, lib: Library, cards: Seq<ReleaseCardView>)
    ensures
        ({
            let s = told_releases(g, lib, cards);
            &&& forall|c: int|
                0 <= c < cards.len() && told_release(g, lib, (#[trigger] cards[c]).id) is Some
                    ==> s.contains(told_release(g, lib, cards[c].id)->0)
            &&& forall|i: int|
                0 <= i < s.len() ==> exists|c: int|
                    0 <= c < cards.len() && told_release(g, lib, (#[trigger] cards[c]).id) == Some(
                        #[trigger] s[i],
                    )
        }),
    decreases cards.len(),
{
    if cards.len() > 0 {
        let h = cards.drop_last();
        lemma_told_releases(g, lib, h);
        let b = told_releases(g, lib, h);
        let s = told_releases(g, lib, cards);
        let n = cards.len() - 1;
        assert forall|c: int|
            0 <= c < cards.len() && told_release(g, lib, (#[trigger] cards[c]).id)
                is Some implies s.contains(told_release(g, lib, cards[c].id)->0) by {
            if c < n {
                assert(h[c] == cards[c]);
                let i = b.index_of(told_release(g, lib, h[c].id)->0);
                assert(s[i] == b[i]);
            } else {
                assert(s[s.len() - 1] == told_release(g, lib, cards[n].id)->0);
            }
        }
        assert forall|i: int| 0 <= i < s.len() implies exists|c: int|
            0 <= c < cards.len() && told_release(g, lib, (#[trigger] cards[c]).id) == Some(
                #[trigger] s[i],
            ) by {
            if i < b.len() {
                assert(s[i] == b[i]);
                let c = choose|c: int|
                    0 <= c < h.len() && told_release(g, lib, (#[trigger] h[c]).id) == Some(b[i]);
                assert(cards[c] == h[c]);
            } else {
                assert(told_release(g, lib, cards[n].id) == Some(s[i]));
            }
        }
    }
}

/// Whether the artist with an id is credited for a release.
pub open spec fn made_release(lib: Library, artist: i64, release: i64) -> bool {
    exists|c: int|
        0 <= c < lib.release_artists@.len() && (#[trigger] lib.release_artists@[c]).artist_id
            == artist && lib.release_artists@[c].release_id == release
}

proof fn lemma_made(lib: Library, artist: i64, release: i64)
    ensures
        made_release(lib, artist, release) <==> first_where(
            lib.release_artists@,
            is_release_credit(release, artist),
        ) is Some,
{
    let p = is_release_credit(release, artist);
    lemma_first_where(lib.release_artists@, p);
    match first_where(lib.release_artists@, p) {
        Some(c) => {
            assert(lib.release_artists@[c].artist_id == artist);
        },
        None => {
            assert forall|c: int| 0 <= c < lib.release_artists@.len() implies !((
            #[trigger] lib.release_artists@[c]).artist_id == artist
                && lib.release_artists@[c].release_id == release) by {
                assert(!p(lib.release_artists@[c]));
            }
        },
    }
}

/// Whether the release with an id is told.
pub open spec fn is_told(lib: Library, release: i64, s: Seq<CatalogReleaseView>) -> bool {
    exists|i: int| 0 <= i < s.len() && tells_release(lib, release, #[trigger] s[i])
}

/// Whether what is told is a release that the artist with an id is credited for.
pub open spec fn is_work(lib: Library, artist: i64, v: CatalogReleaseView) -> bool {
    exists|k: int|
        0 <= k < lib.releases@.len() && made_release(lib, artist, (#[trigger] lib.releases@[k]).id)
            && tells_release(lib, lib.releases@[k].id, v)
}

/// A peer that asks for an artist is told of them exactly when the library has an
/// artist with the key, and then of every release that they are credited for and of
/// no other.
pub proof fn law_peer_is_told_of_every_release<F: Fn(&str) -> String, G: Fn(i64) -> String>(
    f: F,
    g: G,
    lib: Library,
    name: Seq<char>,
    r: CatalogResponse,
) -> (id: i64)
    requires
        tells_catalog(f, g, lib, name, r),
    ensures
        r.ok <==> r.artist is Some,
        r.ok <==> exists|k: int|
            0 <= k < lib.artists@.len() && key_of(f, (#[trigger] lib.artists@[k]).name@) == key_of(
                f,
                name,
            ),
        !r.ok ==> r.error is Some,
        r.artist matches Some(a) ==> {
            &&& exists|k: int|
                0 <= k < lib.artists@.len() && (#[trigger] lib.artists@[k]).id == id && key_of(
                    f,
                    lib.artists@[k].name@,
                ) == key_of(f, name)
            &&& forall|k: int|
                0 <= k < lib.releases@.len() && made_release(
                    lib,
                    id,
                    (#[trigger] lib.releases@[k]).id,
                ) ==> is_told(lib, lib.releases@[k].id, a@.releases)
            &&& forall|i: int|
                0 <= i < a@.releases.len() ==> is_work(lib, id, #[trigger] a@.releases[i])
        },
{
    let p = is_named(f, key_of(f, name));
    let views = viewed(lib.artists@);
    lemma_first_where(views, p);
    assert forall|k: int| 0 <= k < lib.artists@.len() implies (p(views[k]) <==> key_of(
        f,
        (#[trigger] lib.artists@[k]).name@,
    ) == key_of(f, name)) by {
        assert(views[k] == lib.artists@[k]@);
    }
    match artist_place(f, views, name) {
        Some(k) => {
            assert(key_of(f, lib.artists@[k].name@) == key_of(f, name));
            let id = lib.artists@[k].id;
            let a = r.artist->0@;
            let q = is_release_by(lib.release_artists@, id);
            let by = lib.releases@.filter(q);
            let rows = stable_sorted(by, by_year());
            let cards = release_cards(lib, rows);
            lemma_sorted_has(by, by_year());
            lemma_filter_holds(lib.releases@, q);
            lemma_told_releases(g, lib, cards);
            assert forall|m: int| 0 <= m < lib.releases@.len() implies (q(lib.releases@[m])
                <==> made_release(lib, id, (#[trigger] lib.releases@[m]).id)) by {
                lemma_made(lib, id, lib.releases@[m].id);
            }
            assert forall|m: int|
                0 <= m < lib.releases@.len() && made_release(
                    lib,
                    id,
                    (#[trigger] lib.releases@[m]).id,
                ) implies is_told(lib, lib.releases@[m].id, a.releases) by {
                let row = lib.releases@[m];
                assert(lib.releases@.contains(row));
                assert(by.contains(row));
                assert(rows.contains(row));
                let c = rows.index_of(row);
                assert(cards[c].id == row.id);
                lemma_first_where(lib.releases@, row_is_release(row.id));
                assert(row_is_release(row.id)(lib.releases@[m]));
                let v = told_release(g, lib, row.id)->0;
                law_told_release_has_its_tracks(g, lib, row.id, v);
                let i = a.releases.index_of(v);
                assert(a.releases[i] == v);
            }
            assert forall|i: int| 0 <= i < a.releases.len() implies is_work(
                lib,
                id,
                #[trigger] a.releases[i],
            ) by {
                let c = choose|c: int|
                    0 <= c < cards.len() && told_release(g, lib, (#[trigger] cards[c]).id) == Some(
                        a.releases[i],
                    );
                let row = rows[c];
                assert(cards[c].id == row.id);
                law_told_release_has_its_tracks(g, lib, row.id, a.releases[i]);
                assert(rows.contains(row));
                assert(by.contains(row));
                let m = lib.releases@.index_of(row);
                assert(lib.releases@[m] == row);
            }
            id
        },
        None => 0,
    }
}

// ---------------------------------------------------------------------------
// What is published
// ---------------------------------------------------------------------------

/// Everything that the library exports is published, once: the artists with their
/// names, the releases and the tracks with their titles, artists and places, each
/// under a key that names its kind and its id.
pub proof fn law_everything_is_published(export: FederationExport, s: Seq<SpecView>)
    requires
        s == specs_of(export),
    ensures
        s.len() == export.artists@.len() + export.releases@.len() + export.tracks@.len(),
        forall|k: int|
            0 <= k < export.artists@.len() ==> {
                &&& (#[trigger] s[k]).kind == ItemKind::Artist
                &&& s[k].name == export.artists@[k].1@
                &&& s[k].local_key == "artist:"@ + signed_decimal(export.artists@[k].0 as int)
            },
        forall|k: int|
            0 <= k < export.releases@.len() ==> {
                let v = s[k + export.artists@.len()];
                let r = #[trigger] export.releases@[k];
                &&& v.kind == ItemKind::Release
                &&& v.name == r.title@
                &&& v.year == r.year
                &&& v.artist_names == crate::text::views(r.artist_names@)
                &&& v.local_key == "release:"@ + signed_decimal(r.id as int)
            },
        forall|k: int|
            0 <= k < export.tracks@.len() ==> {
                let v = s[k + export.artists@.len() + export.releases@.len()];
                let t = #[trigger] export.tracks@[k];
                &&& v.kind == ItemKind::Track
                &&& v.name == t.title@
                &&& v.artist_names == crate::text::views(t.artist_names@)
                &&& v.featured_artist_names == crate::text::views(t.featured_artist_names@)
                &&& v.track_number == t.track_number
                &&& v.disc_number == t.disc_number
                &&& v.release_title == Some(t.release_title@)
                &&& v.content_id == crate::text::opt_view(t.content_id)
                &&& v.local_key == "track:"@ + signed_decimal(t.id as int)
            },
{
    let na = export.artists@.len();
    let nr = export.releases@.len();
    let rv = viewed(export.releases@);
    let tv = viewed(export.tracks@);
    assert(rv.len() == nr && tv.len() == export.tracks@.len());
    assert forall|k: int| 0 <= k < export.releases@.len() implies {
        let v = s[k + na];
        let r = #[trigger] export.releases@[k];
        &&& v.kind == ItemKind::Release
        &&& v.name == r.title@
        &&& v.year == r.year
        &&& v.artist_names == crate::text::views(r.artist_names@)
        &&& v.local_key == "release:"@ + signed_decimal(r.id as int)
    } by {
        assert(rv[k] == export.releases@[k]@);
        assert(s[k + na] == release_spec(rv[k]));
    }
    assert forall|k: int| 0 <= k < export.tracks@.len() implies {
        let v = s[k + na + nr];
        let t = #[trigger] export.tracks@[k];
        &&& v.kind == ItemKind::Track
        &&& v.name == t.title@
        &&& v.artist_names == crate::text::views(t.artist_names@)
        &&& v.featured_artist_names == crate::text::views(t.featured_artist_names@)
        &&& v.track_number == t.track_number
        &&& v.disc_number == t.disc_number
        &&& v.release_title == Some(t.release_title@)
        &&& v.content_id == crate::text::opt_view(t.content_id)
        &&& v.local_key == "track:"@ + signed_decimal(t.id as int)
    } by {
        assert(tv[k] == export.tracks@[k]@);
        assert(s[k + na + nr] == track_spec(tv[k]));
    }
}

// ---------------------------------------------------------------------------
// A file that was fetched
// ---------------------------------------------------------------------------

/// What the owner says of a track goes before what its file says, and the file is
/// heard where the owner says nothing.
pub proof fn law_owner_is_heard_first(file: ImportView, m: MetadataView, x: ImportView)
    requires
        x == overlaid(file, m),
    ensures
        x.file_path == file.file_path,
        x.title == (if is_blank(m.title) {
            file.title
        } else {
            trimmed(m.title)
        }),
        x.release_title == (if is_blank(m.release_title) {
            file.release_title
        } else {
            trimmed(m.release_title)
        }),
        m.artists.len() > 0 ==> x.artists == m.artists,
        m.artists.len() == 0 ==> x.artists == file.artists,
        m.featured_artists.len() > 0 ==> x.featured_artists == m.featured_artists,
        m.featured_artists.len() == 0 ==> x.featured_artists == file.featured_artists,
        m.album_artists.len() > 0 ==> x.album_artists == m.album_artists,
        m.album_artists.len() == 0 && m.artists.len() > 0 ==> x.album_artists == m.artists,
        m.album_artists.len() == 0 && m.artists.len() == 0 ==> x.album_artists
            == file.album_artists,
        m.year is Some ==> x.year == m.year,
        m.year is None ==> x.year == file.year,
        m.track_number is Some ==> x.track_number == m.track_number,
        m.track_number is None ==> x.track_number == file.track_number,
        m.disc_number is Some ==> x.disc_number == m.disc_number,
        m.disc_number is None ==> x.disc_number == file.disc_number,
        m.duration matches Some(d) ==> x.duration == d,
        m.duration is None ==> x.duration == file.duration,
        x.cover == file.cover,
{
}

/// A track that waits in the queue keeps what is known of it, and can be told from
/// the tracks of the library by what it stands for.
pub proof fn law_waiting_track_keeps_what_is_known(fed: FedTrackView, id: i64, v: TrackView)
    requires
        v == pending_item(fed, id),
    ensures
        v.id == id,
        v.fed == Some(fed),
        v.title == fed.title,
        v.track_number == fed.track_number,
        v.disc_number == fed.disc_number,
        v.content_id == fed.content_id,
        v.release_year == fed.year,
        v.file_path.len() == 0,
        fed.release_title matches Some(t) ==> v.release_title == t,
        v.artists.len() == fed.artist_names.len(),
        forall|k: int|
            0 <= k < fed.artist_names.len() ==> (#[trigger] v.artists[k]).1 == fed.artist_names[k],
        v.featured_artists.len() == fed.featured_artist_names.len(),
        forall|k: int|
            0 <= k < fed.featured_artist_names.len() ==> (#[trigger] v.featured_artists[k]).1
                == fed.featured_artist_names[k],
{
}

/// A fetched track is played from its file under the name that its owner gives it, or
/// else the one that it was found by.
pub proof fn law_fetched_track_is_played_from_its_file(
    fed: FedTrackView,
    meta: Option<MetadataView>,
    file: FetchedFile,
    id: i64,
    v: TrackView,
)
    requires
        v == ephemeral_item(fed, meta, file, id),
    ensures
        v.id == id,
        v.fed == Some(fed),
        v.file_path == file.path@,
        meta is None || is_blank(meta->0.title) ==> v.title == fed.title,
        meta is Some && !is_blank(meta->0.title) ==> v.title == trimmed(meta->0.title),
        fed.content_id is Some ==> v.content_id == fed.content_id,
        fed.content_id is None ==> v.content_id == crate::text::opt_view(file.content_id),
        meta is Some && meta->0.artists.len() > 0 ==> v.artists.len() == meta->0.artists.len()
            && forall|k: int|
            0 <= k < v.artists.len() ==> (#[trigger] v.artists[k]).1 == meta->0.artists[k],
        meta is None || meta->0.artists.len() == 0 ==> v.artists.len() == fed.artist_names.len()
            && forall|k: int|
            0 <= k < v.artists.len() ==> (#[trigger] v.artists[k]).1 == fed.artist_names[k],
{
}

/// What is shown of a track before it is fetched is what its owner says, and what was
/// known where the owner says nothing. The track stays the same.
pub proof fn law_preview_is_of_the_same_track(
    base: TrackView,
    fed: FedTrackView,
    meta: Option<MetadataView>,
    size: u64,
    format: Option<Seq<char>>,
    v: TrackView,
)
    requires
        v == preview_item(base, fed, meta, size, format),
    ensures
        v.id == base.id,
        v.fed == Some(fed),
        v.play_count == base.play_count,
        v.cover_path == base.cover_path,
        meta is None || is_blank(meta->0.title) ==> v.title == base.title,
        meta is Some && !is_blank(meta->0.title) ==> v.title == trimmed(meta->0.title),
        meta is None || is_blank(meta->0.release_title) ==> v.release_title == base.release_title,
        meta is Some && !is_blank(meta->0.release_title) ==> v.release_title == trimmed(
            meta->0.release_title,
        ),
        meta is None || meta->0.track_number is None ==> v.track_number == base.track_number,
        meta is Some && meta->0.track_number is Some ==> v.track_number == meta->0.track_number,
        meta is None || meta->0.artists.len() == 0 ==> v.artists == base.artists,
        meta is Some && meta->0.artists.len() > 0 ==> v.artists.len() == meta->0.artists.len()
            && forall|k: int|
            0 <= k < v.artists.len() ==> (#[trigger] v.artists[k]).1 == meta->0.artists[k],
{
}

/// A fetched file becomes a track of the library at its path, and a like of the track
/// moves onto it with its time. Without a like no like changes.
pub proof fn law_like_moves_onto_the_fetched_file<F: Fn(&str) -> String>(
    f: F,
    a: Library,
    b: Library,
    import: ImportView,
    metadata: Option<MetadataView>,
    cover: Option<Cover>,
    item_id: Seq<char>,
    r: Result<TakenIn, EditError>,
)
    requires
        takes_in_fetched(f, a, b, import, metadata, cover, item_id, r),
        import.artists.len() <= i64::MAX,
        import.featured_artists.len() <= i64::MAX,
        metadata is Some ==> metadata->0.artists.len() <= i64::MAX
            && metadata->0.featured_artists.len() <= i64::MAX,
    ensures
        r is Err ==> b == a,
        r matches Ok(t) ==> {
            let liked = exists|n: int|
                0 <= n < a.fed_likes@.len() && (#[trigger] a.fed_likes@[n]).fed.item_id@ == item_id;
            &&& exists|k: int|
                0 <= k < b.tracks@.len() && (#[trigger] b.tracks@[k]).id == t.upserted.track_id
                    && b.tracks@[k].file_path@ == import.file_path
            &&& !liked ==> b.likes == a.likes && b.fed_likes == a.fed_likes
            &&& liked ==> exists|m: int, n: int|
                0 <= m < b.likes@.len() && 0 <= n < a.fed_likes@.len() && (
                #[trigger] b.likes@[m]).track_id == t.upserted.track_id && (
                #[trigger] a.fed_likes@[n]).fed.item_id@ == item_id && b.likes@[m].liked_at_ms
                    == a.fed_likes@[n].liked_at_ms && b.likes@[m].liked_hlc_ms
                    == a.fed_likes@[n].liked_hlc_ms
            &&& forall|m: int|
                0 <= m < b.fed_likes@.len() ==> (#[trigger] b.fed_likes@[m]).fed.item_id@ != item_id
            &&& forall|n: int|
                0 <= n < a.fed_likes@.len() && (#[trigger] a.fed_likes@[n]).fed.item_id@ != item_id
                    ==> b.fed_likes@.contains(a.fed_likes@[n])
            &&& b.history == a.history
            &&& b.playlists == a.playlists
            &&& cover is Some ==> t.cover == cover
        },
{
    match r {
        Ok(t) => {
            let x = fetched_import(import, metadata, cover);
            let c = Library { likes: a.likes, fed_likes: a.fed_likes, ..b };
            assert(shelf(c) == shelf(b));
            assert(takes_in(f, a, c, x, Ok(t.upserted)));
            law_imported_file_is_a_track(f, a, c, x, Ok(t.upserted));
            let s = shelf(b).tracks;
            let k = choose|k: int|
                0 <= k < s.len() && (#[trigger] s[k]).id == t.upserted.track_id && s[k].file_path
                    == x.file_path;
            assert(s[k] == b.tracks@[k]@);
            assert(b.tracks@[k].id == t.upserted.track_id);
            let p = fed_is_item(item_id);
            lemma_first_where(a.fed_likes@, p);
            lemma_filter_holds(a.fed_likes@, fed_is_other_item(item_id));
            match first_where(a.fed_likes@, p) {
                Some(n) => {
                    assert(a.fed_likes@[n].fed.item_id@ == item_id);
                    assert forall|m: int| 0 <= m < b.fed_likes@.len() implies (
                    #[trigger] b.fed_likes@[m]).fed.item_id@ != item_id by {
                        assert(b.fed_likes@.contains(b.fed_likes@[m]));
                    }
                    assert forall|m: int|
                        0 <= m < a.fed_likes@.len() && (#[trigger] a.fed_likes@[m]).fed.item_id@
                            != item_id implies b.fed_likes@.contains(a.fed_likes@[m]) by {
                        assert(a.fed_likes@.contains(a.fed_likes@[m]));
                    }
                    let q = likes_track(t.upserted.track_id);
                    lemma_first_where(a.likes@, q);
                    let m = match first_where(a.likes@, q) {
                        Some(i) => i,
                        None => a.likes@.len() as int,
                    };
                    assert(b.likes@[m].track_id == t.upserted.track_id);
                },
                None => {
                    assert forall|n: int| 0 <= n < a.fed_likes@.len() implies (
                    #[trigger] a.fed_likes@[n]).fed.item_id@ != item_id by {
                        assert(!p(a.fed_likes@[n]));
                    }
                },
            }
        },
        Err(_) => {},
    }
}

// ---------------------------------------------------------------------------
// Appearances
// ---------------------------------------------------------------------------

/// Whether a track is told as an appearance, by its item and its title.
pub open spec fn is_told_of<G: Fn(i64) -> String>(
    g: G,
    s: Seq<CatalogAppearanceView>,
    id: i64,
    title: Seq<char>,
) -> bool {
    exists|i: int|
        0 <= i < s.len() && (#[trigger] s[i]).track.item_id == item_of(g, id) && s[i].track.title
            == title
}

proof fn lemma_told_appearances<G: Fn(i64) -> String>(g: G, lib: Library, tracks: Seq<TrackView>)
    ensures
        ({
            let s = told_appearances(g, lib, tracks);
            &&& forall|k: int|
                0 <= k < tracks.len() && first_where(
                    lib.releases@,
                    row_is_release((#[trigger] tracks[k]).release_id),
                ) is Some ==> is_told_of(g, s, tracks[k].id, tracks[k].title)
            &&& forall|i: int|
                0 <= i < s.len() ==> is_one_of(g, tracks, #[trigger] s[i])
        }),
    decreases tracks.len(),
{
    if tracks.len() > 0 {
        let h = tracks.drop_last();
        let n = tracks.len() - 1;
        lemma_told_appearances(g, lib, h);
        let b = told_appearances(g, lib, h);
        let s = told_appearances(g, lib, tracks);
        assert(tracks[n] == tracks.last());
        assert(forall|i: int| 0 <= i < b.len() ==> i < s.len() && #[trigger] s[i] == b[i]);
        assert forall|k: int|
            0 <= k < tracks.len() && first_where(
                lib.releases@,
                row_is_release((#[trigger] tracks[k]).release_id),
            ) is Some implies is_told_of(g, s, tracks[k].id, tracks[k].title) by {
            if k < n {
                assert(h[k] == tracks[k]);
                assert(is_told_of(g, b, h[k].id, h[k].title));
                let i = choose|i: int|
                    0 <= i < b.len() && (#[trigger] b[i]).track.item_id == item_of(g, h[k].id)
                        && b[i].track.title == h[k].title;
                assert(s[i] == b[i]);
            } else {
                assert(s[s.len() - 1].track.title == tracks[n].title);
            }
        }
        assert forall|i: int| 0 <= i < s.len() implies is_one_of(g, tracks, #[trigger] s[i]) by {
            if i < b.len() {
                assert(is_one_of(g, h, b[i]));
                let k = choose|k: int|
                    0 <= k < h.len() && b[i].track.item_id == item_of(g, (#[trigger] h[k]).id)
                        && b[i].track.title == h[k].title;
                assert(tracks[k] == h[k]);
            } else {
                assert(s[i].track.title == tracks[n].title);
            }
        }
    }
}

/// Whether an appearance is of one of the tracks.
pub open spec fn is_one_of<G: Fn(i64) -> String>(
    g: G,
    tracks: Seq<TrackView>,
    x: CatalogAppearanceView,
) -> bool {
    exists|k: int|
        0 <= k < tracks.len() && x.track.item_id == item_of(g, (#[trigger] tracks[k]).id)
            && x.track.title == tracks[k].title
}

/// Whether an artist is a guest on a track.
pub open spec fn is_guest(lib: Library, artist: i64, track: i64) -> bool {
    exists|c: int|
        0 <= c < lib.track_artists@.len() && (#[trigger] lib.track_artists@[c]).artist_id == artist
            && lib.track_artists@[c].track_id == track && lib.track_artists@[c].featured
}

proof fn lemma_guest(lib: Library, artist: i64, track: i64)
    ensures
        is_guest(lib, artist, track) <==> first_where(
            lib.track_artists@,
            is_track_credit(track, artist, true),
        ) is Some,
{
    let p = is_track_credit(track, artist, true);
    lemma_first_where(lib.track_artists@, p);
    match first_where(lib.track_artists@, p) {
        Some(c) => {
            assert(lib.track_artists@[c].artist_id == artist);
        },
        None => {
            assert forall|c: int| 0 <= c < lib.track_artists@.len() implies !((
            #[trigger] lib.track_artists@[c]).artist_id == artist
                && lib.track_artists@[c].track_id == track && lib.track_artists@[c].featured) by {
                assert(!p(lib.track_artists@[c]));
            }
        },
    }
}

/// A peer that asks for an artist is told of every track that the artist is a guest on and
/// that has a release, and of no other.
pub proof fn law_peer_is_told_of_every_appearance<F: Fn(&str) -> String, G: Fn(i64) -> String>(
    f: F,
    g: G,
    lib: Library,
    name: Seq<char>,
    r: CatalogResponse,
) -> (id: i64)
    requires
        tells_catalog(f, g, lib, name, r),
        r.ok,
    ensures
        exists|k: int|
            0 <= k < lib.artists@.len() && (#[trigger] lib.artists@[k]).id == id && key_of(
                f,
                lib.artists@[k].name@,
            ) == key_of(f, name),
        forall|t: int|
            0 <= t < lib.tracks@.len() && is_guest(lib, id, (#[trigger] lib.tracks@[t]).id) && (
            exists|m: int|
                0 <= m < lib.releases@.len() && (#[trigger] lib.releases@[m]).id
                    == lib.tracks@[t].release_id) ==> is_told_of(
                g,
                r.artist->0@.appears_on,
                lib.tracks@[t].id,
                lib.tracks@[t].title@,
            ),
        forall|i: int|
            0 <= i < r.artist->0@.appears_on.len() ==> exists|t: int|
                0 <= t < lib.tracks@.len() && is_guest(lib, id, (#[trigger] lib.tracks@[t]).id)
                    && (#[trigger] r.artist->0@.appears_on[i]).track.item_id == item_of(
                    g,
                    lib.tracks@[t].id,
                ) && r.artist->0@.appears_on[i].track.title == lib.tracks@[t].title@,
{
    let views = viewed(lib.artists@);
    let p = is_named(f, key_of(f, name));
    lemma_first_where(views, p);
    let k = artist_place(f, views, name)->0;
    assert(views[k] == lib.artists@[k]@);
    assert(key_of(f, lib.artists@[k].name@) == key_of(f, name));
    let id = lib.artists@[k].id;
    let s = r.artist->0@.appears_on;
    let q = is_credited_as(lib.track_artists@, id, true);
    let on = lib.tracks@.filter(q);
    let rows = stable_sorted(on, by_title());
    let shown = items_of(lib, rows);
    lemma_sorted_has(on, by_title());
    lemma_filter_holds(lib.tracks@, q);
    lemma_told_appearances(g, lib, shown);
    let places = lemma_items_places(lib, rows);
    assert(s == told_appearances(g, lib, shown));
    assert forall|t: int|
        0 <= t < lib.tracks@.len() && is_guest(lib, id, (#[trigger] lib.tracks@[t]).id) && (exists|
            m: int,
        |
            0 <= m < lib.releases@.len() && (#[trigger] lib.releases@[m]).id
                == lib.tracks@[t].release_id) implies is_told_of(
        g,
        s,
        lib.tracks@[t].id,
        lib.tracks@[t].title@,
    ) by {
        let row = lib.tracks@[t];
        lemma_guest(lib, id, row.id);
        assert(q(row));
        assert(lib.tracks@.contains(row));
        assert(on.contains(row));
        assert(rows.contains(row));
        let n = rows.index_of(row);
        lemma_first_where(lib.releases@, row_is_release(row.release_id));
        let m = choose|m: int|
            0 <= m < lib.releases@.len() && (#[trigger] lib.releases@[m]).id == row.release_id;
        assert(row_is_release(row.release_id)(lib.releases@[m]));
        assert(track_item(lib, rows[n]) is Some);
        let i = choose|i: int| 0 <= i < places.len() && #[trigger] places[i] == n;
        assert(shown[i].id == row.id && shown[i].title == row.title@ && shown[i].release_id
            == row.release_id);
        assert(is_told_of(g, s, shown[i].id, shown[i].title));
    }
    assert forall|i: int| 0 <= i < s.len() implies exists|t: int|
        0 <= t < lib.tracks@.len() && is_guest(lib, id, (#[trigger] lib.tracks@[t]).id) && (
        #[trigger] s[i]).track.item_id == item_of(g, lib.tracks@[t].id) && s[i].track.title
            == lib.tracks@[t].title@ by {
        assert(is_one_of(g, shown, s[i]));
        let n = choose|n: int|
            0 <= n < shown.len() && s[i].track.item_id == item_of(g, (#[trigger] shown[n]).id)
                && s[i].track.title == shown[n].title;
        let row = rows[places[n]];
        assert(rows.contains(row));
        assert(on.contains(row));
        assert(q(row));
        lemma_guest(lib, id, row.id);
        let t = lib.tracks@.index_of(row);
        assert(lib.tracks@[t] == row);
    }
    id
}

} // verus!
