//! What holds of what the library tells: of a track, to the federation, and to
//! and from peers.

use crate::content_id::canonical_option;
use crate::library::artists::{by_size, is_used, LibraryFilters, LibrarySourceMode, NetworkView};
use crate::library::edit::{row_is_artist, row_is_release};
use crate::library::export::{
    backfills, exported_release, exported_track, exported_tracks, exports, is_hash_of, settled_id,
    unhashed, ContentIdBackfillStats, FederationExport,
};
use crate::library::listing::{
    artist_row, by_position, credited, is_credit, local_card, local_cards, plays, refs_of,
    track_credits, track_item, ArtistCardView,
};
use crate::library::listing_laws::lemma_sorted_has;
use crate::library::models::TrackView;
use crate::library::network::{
    asked, asks_images, credits_artist, has_image, hears_artists, is_kept, is_on_a_track, is_word,
    by_nearness, preview_of, previews_of, sets_images, tells_artists, told_cards, told_key,
    with_previews, NetworkArtistImageRequest, NetworkArtistPreview, PreviewView,
};
use crate::library::tables::{ArtistRow, Library, Play, TrackCredit, TrackRow};
use crate::lists::{
    at_most, first_where, law_stable_sort, lemma_filter_holds, lemma_first_where, stable_sorted,
    total_preorder, viewed,
};
use crate::names::key_of;
use crate::text::{is_blank, opt_view, trimmed};
use vstd::prelude::*;

verus! {

// ---------------------------------------------------------------------------
// A track
// ---------------------------------------------------------------------------

/// How often a track was played to the end.
pub open spec fn full_plays(history: Seq<Play>, track_id: i64) -> nat
    decreases history.len(),
{
    if history.len() == 0 {
        0
    } else {
        full_plays(history.drop_last(), track_id) + if history.last().track_id == track_id
            && history.last().completed {
            1nat
        } else {
            0nat
        }
    }
}

proof fn lemma_full_plays(history: Seq<Play>, track_id: i64)
    ensures
        plays(history, track_id) == full_plays(history, track_id),
    decreases history.len(),
{
    reveal(Seq::filter);
    if history.len() > 0 {
        lemma_full_plays(history.drop_last(), track_id);
    }
}

/// A track is listed with what the library holds of it: its title, its numbers
/// and its file, the title and the year of its release, its content id in
/// canonical form, and how often it was played to the end.
pub proof fn law_listed_track_says_what_is_stored(lib: Library, t: TrackRow, v: TrackView)
    requires
        track_item(lib, t) == Some(v),
    ensures
        v.id == t.id,
        v.title == t.title@,
        v.track_number == t.track_number,
        v.disc_number == t.disc_number,
        v.duration == t.duration,
        v.file_path == t.file_path@,
        v.release_id == t.release_id,
        v.content_id == canonical_option(opt_view(t.content_id)),
        v.fed is None,
        v.play_count == full_plays(lib.history@, t.id) as i64,
        exists|k: int|
            0 <= k < lib.releases@.len() && (#[trigger] lib.releases@[k]).id == t.release_id
                && lib.releases@[k].title@ == v.release_title && lib.releases@[k].year
                == v.release_year && opt_view(lib.releases@[k].cover_path) == v.cover_path,
{
    lemma_full_plays(lib.history@, t.id);
    lemma_first_where(lib.releases@, row_is_release(t.release_id));
    let k = first_where(lib.releases@, row_is_release(t.release_id))->0;
    assert(lib.releases@[k].id == t.release_id);
}

/// Whether there is an artist with an id.
pub open spec fn is_there(artists: Seq<ArtistRow>, id: i64) -> bool {
    exists|k: int| 0 <= k < artists.len() && (#[trigger] artists[k]).id == id
}

/// Where each of the named artists stands among the ids; the places grow, and none
/// who is there is passed over.
proof fn lemma_refs_places(artists: Seq<ArtistRow>, ids: Seq<i64>) -> (places: Seq<int>)
    ensures
        places.len() == refs_of(artists, ids).len(),
        forall|i: int|
            0 <= i < places.len() ==> 0 <= #[trigger] places[i] < ids.len() && refs_of(
                artists,
                ids,
            )[i].0 == ids[places[i]] && exists|k: int|
                0 <= k < artists.len() && (#[trigger] artists[k]).id == ids[places[i]]
                    && artists[k].name@ == refs_of(artists, ids)[i].1,
        forall|i: int, j: int|
            0 <= i < j < places.len() ==> #[trigger] places[i] < #[trigger] places[j],
        forall|m: int|
            0 <= m < ids.len() && is_there(artists, #[trigger] ids[m]) ==> exists|i: int|
                0 <= i < places.len() && #[trigger] places[i] == m,
    decreases ids.len(),
{
    if ids.len() == 0 {
        Seq::empty()
    } else {
        let h = ids.drop_last();
        let n = ids.len() - 1;
        let before = lemma_refs_places(artists, h);
        let r = refs_of(artists, ids);
        lemma_first_where(artists, row_is_artist(ids.last()));
        assert forall|m: int| 0 <= m < n implies #[trigger] ids[m] == h[m] by {}
        match artist_row(artists, ids.last()) {
            Some(q) => {
                let places = before.push(n);
                assert(artists[q].id == ids[n]);
                assert forall|i: int| 0 <= i < places.len() implies 0 <= #[trigger] places[i]
                    < ids.len() && r[i].0 == ids[places[i]] && exists|k: int|
                    0 <= k < artists.len() && (#[trigger] artists[k]).id == ids[places[i]]
                        && artists[k].name@ == r[i].1 by {
                    if i < before.len() {
                        assert(r[i] == refs_of(artists, h)[i]);
                    }
                }
                assert forall|m: int|
                    0 <= m < ids.len() && is_there(artists, #[trigger] ids[m]) implies exists|
                    i: int,
                |
                    0 <= i < places.len() && #[trigger] places[i] == m by {
                    if m < n {
                        assert(ids[m] == h[m]);
                        let i = choose|i: int| 0 <= i < before.len() && #[trigger] before[i] == m;
                        assert(places[i] == m);
                    } else {
                        assert(places[before.len() as int] == m);
                    }
                }
                places
            },
            None => {
                assert forall|m: int|
                    0 <= m < ids.len() && is_there(artists, #[trigger] ids[m]) implies exists|
                    i: int,
                |
                    0 <= i < before.len() && #[trigger] before[i] == m by {
                    if m < n {
                        assert(ids[m] == h[m]);
                    } else {
                        let k = choose|k: int|
                            0 <= k < artists.len() && (#[trigger] artists[k]).id == ids[m];
                        assert(row_is_artist(ids.last())(artists[k]));
                    }
                }
                before
            },
        }
    }
}

/// The artists of a track are listed by their positions, each under their name,
/// those who are featured apart from the others; and every credit to an artist
/// who is there is listed.
pub proof fn law_listed_artists_are_the_credited(
    lib: Library,
    t: TrackRow,
    v: TrackView,
    featured: bool,
) -> (credits: Seq<TrackCredit>)
    requires
        track_item(lib, t) == Some(v),
    ensures
        ({
            let refs = if featured {
                v.featured_artists
            } else {
                v.artists
            };
            &&& credits.len() == refs.len()
            &&& forall|i: int|
                0 <= i < credits.len() ==> {
                    &&& lib.track_artists@.contains(#[trigger] credits[i])
                    &&& credits[i].track_id == t.id
                    &&& credits[i].featured == featured
                    &&& credits[i].artist_id == refs[i].0
                    &&& exists|k: int|
                        0 <= k < lib.artists@.len() && (#[trigger] lib.artists@[k]).id == refs[i].0
                            && lib.artists@[k].name@ == refs[i].1
                }
            &&& forall|i: int, j: int|
                0 <= i < j < credits.len() ==> (#[trigger] credits[i]).position <= (
                #[trigger] credits[j]).position
            &&& forall|c: TrackCredit|
                #[trigger] lib.track_artists@.contains(c) && c.track_id == t.id && c.featured
                    == featured && is_there(lib.artists@, c.artist_id)
                    ==> credits.contains(c)
        }),
{
    let refs = if featured {
        v.featured_artists
    } else {
        v.artists
    };
    let p = is_credit(t.id, featured);
    let own = lib.track_artists@.filter(p);
    let leq = by_position();
    let sorted = track_credits(lib, t.id, featured);
    law_stable_sort(own, leq);
    assert(total_preorder(leq));
    lemma_sorted_has(own, leq);
    lemma_filter_holds(lib.track_artists@, p);
    let ids = credited(sorted);
    let places = lemma_refs_places(lib.artists@, ids);
    let credits = places.map_values(|i: int| sorted[i]);
    assert(refs == refs_of(lib.artists@, ids));
    assert forall|i: int| 0 <= i < credits.len() implies {
        &&& lib.track_artists@.contains(#[trigger] credits[i])
        &&& credits[i].track_id == t.id
        &&& credits[i].featured == featured
        &&& credits[i].artist_id == refs[i].0
        &&& exists|k: int|
            0 <= k < lib.artists@.len() && (#[trigger] lib.artists@[k]).id == refs[i].0
                && lib.artists@[k].name@ == refs[i].1
    } by {
        let q = places[i];
        assert(credits[i] == sorted[q]);
        assert(sorted.contains(sorted[q]));
        assert(own.contains(sorted[q]));
        assert(ids[q] == sorted[q].artist_id);
    }
    assert forall|i: int, j: int| 0 <= i < j < credits.len() implies (
    #[trigger] credits[i]).position <= (#[trigger] credits[j]).position by {
        assert(places[i] < places[j]);
        assert(leq(sorted[places[i]], sorted[places[j]]));
    }
    assert forall|c: TrackCredit|
        #[trigger] lib.track_artists@.contains(c) && c.track_id == t.id && c.featured == featured
            && is_there(lib.artists@, c.artist_id) implies credits.contains(c) by {
        assert(p(c));
        assert(own.contains(c));
        assert(sorted.contains(c));
        let m = sorted.index_of(c);
        assert(ids[m] == c.artist_id);
        let i = choose|i: int| 0 <= i < places.len() && #[trigger] places[i] == m;
        assert(credits[i] == c);
    }
    credits
}

// ---------------------------------------------------------------------------
// To the federation
// ---------------------------------------------------------------------------

/// The content id that a track has: its own where that is one, else the first that
/// was read from its file.
pub open spec fn content_of(t: TrackRow, hashes: Seq<(i64, String)>, id: Option<Seq<char>>) -> bool {
    if canonical_option(opt_view(t.content_id)) is Some {
        id == canonical_option(opt_view(t.content_id))
    } else if id is Some {
        exists|k: int|
            0 <= k < hashes.len() && (#[trigger] hashes[k]).0 == t.id && hashes[k].1@ == id->0
    } else {
        forall|k: int| 0 <= k < hashes.len() ==> (#[trigger] hashes[k]).0 != t.id
    }
}

proof fn lemma_content_of(t: TrackRow, hashes: Seq<(i64, String)>)
    ensures
        content_of(t, hashes, settled_id(t, hashes)),
{
    lemma_first_where(hashes, is_hash_of(t.id));
    if let Some(k) = first_where(hashes, is_hash_of(t.id)) {
        assert(hashes[k].0 == t.id);
    } else {
        assert forall|k: int| 0 <= k < hashes.len() implies (#[trigger] hashes[k]).0 != t.id by {
            assert(!is_hash_of(t.id)(hashes[k]));
        }
    }
}

proof fn lemma_exported_places(
    lib: Library,
    rows: Seq<TrackRow>,
    hashes: Seq<(i64, String)>,
) -> (places: Seq<int>)
    ensures
        places.len() == exported_tracks(lib, rows, hashes).len(),
        forall|i: int|
            0 <= i < places.len() ==> 0 <= #[trigger] places[i] < rows.len() && exported_track(
                lib,
                rows[places[i]],
                hashes,
            ) == Some(exported_tracks(lib, rows, hashes)[i]),
        forall|k: int|
            0 <= k < rows.len() && exported_track(lib, #[trigger] rows[k], hashes) is Some ==> exists|
                i: int,
            |
                0 <= i < places.len() && #[trigger] places[i] == k,
    decreases rows.len(),
{
    if rows.len() == 0 {
        Seq::empty()
    } else {
        let h = rows.drop_last();
        let before = lemma_exported_places(lib, h, hashes);
        assert forall|k: int| 0 <= k < h.len() implies #[trigger] rows[k] == h[k] by {}
        match exported_track(lib, rows.last(), hashes) {
            Some(_) => {
                let places = before.push(rows.len() - 1);
                assert forall|k: int|
                    0 <= k < rows.len() && exported_track(lib, #[trigger] rows[k], hashes)
                        is Some implies exists|i: int|
                    0 <= i < places.len() && #[trigger] places[i] == k by {
                    if k < h.len() {
                        assert(exported_track(lib, h[k], hashes) is Some);
                        let i = choose|i: int| 0 <= i < before.len() && #[trigger] before[i] == k;
                        assert(places[i] == k);
                    } else {
                        assert(places[before.len() as int] == k);
                    }
                }
                places
            },
            None => {
                assert forall|k: int|
                    0 <= k < rows.len() && exported_track(lib, #[trigger] rows[k], hashes)
                        is Some implies exists|i: int|
                    0 <= i < before.len() && #[trigger] before[i] == k by {
                    assert(exported_track(lib, h[k], hashes) is Some);
                }
                before
            },
        }
    }
}

/// What is published is all that the library holds: every artist under their
/// name, every release under its title, and every track that is on a release,
/// under its title and with its content id; nothing else.
pub proof fn law_export_publishes_everything(
    a: Library,
    b: Library,
    hashes: Seq<(i64, String)>,
    r: FederationExport,
)
    requires
        exports(a, b, hashes, r),
    ensures
        r.artists@.len() == a.artists@.len(),
        forall|k: int|
            0 <= k < a.artists@.len() ==> (#[trigger] r.artists@[k]).0 == a.artists@[k].id
                && r.artists@[k].1@ == a.artists@[k].name@,
        r.releases@.len() == a.releases@.len(),
        forall|k: int|
            0 <= k < a.releases@.len() ==> (#[trigger] r.releases@[k]).id == a.releases@[k].id
                && r.releases@[k].title@ == a.releases@[k].title@ && r.releases@[k].year
                == a.releases@[k].year,
        forall|k: int|
            0 <= k < a.tracks@.len() && (exists|j: int|
                0 <= j < a.releases@.len() && (#[trigger] a.releases@[j]).id
                    == a.tracks@[k].release_id) ==> exists|i: int|
                0 <= i < r.tracks@.len() && (#[trigger] r.tracks@[i]).id == (
                #[trigger] a.tracks@[k]).id && r.tracks@[i].title@ == a.tracks@[k].title@
                    && content_of(a.tracks@[k], hashes, opt_view(r.tracks@[i].content_id)),
        forall|i: int|
            0 <= i < r.tracks@.len() ==> exists|k: int|
                0 <= k < a.tracks@.len() && (#[trigger] r.tracks@[i]).id == (
                #[trigger] a.tracks@[k]).id && r.tracks@[i].title@ == a.tracks@[k].title@
                    && r.tracks@[i].track_number == a.tracks@[k].track_number,
{
    let x = r.artists@.map_values(|p: (i64, String)| (p.0, p.1@));
    assert(x.len() == r.artists@.len());
    assert forall|k: int| 0 <= k < a.artists@.len() implies (#[trigger] r.artists@[k]).0
        == a.artists@[k].id && r.artists@[k].1@ == a.artists@[k].name@ by {
        assert(x[k] == (r.artists@[k].0, r.artists@[k].1@));
    }
    let y = viewed(r.releases@);
    assert(y.len() == r.releases@.len());
    assert forall|k: int| 0 <= k < a.releases@.len() implies (#[trigger] r.releases@[k]).id
        == a.releases@[k].id && r.releases@[k].title@ == a.releases@[k].title@
        && r.releases@[k].year == a.releases@[k].year by {
        assert(y[k] == r.releases@[k]@);
        assert(y[k] == exported_release(a, a.releases@[k]));
    }
    let v = viewed(r.tracks@);
    assert(v.len() == r.tracks@.len());
    let places = lemma_exported_places(a, a.tracks@, hashes);
    assert forall|k: int|
        0 <= k < a.tracks@.len() && (exists|j: int|
            0 <= j < a.releases@.len() && (#[trigger] a.releases@[j]).id == a.tracks@[k].release_id)
        implies exists|i: int|
        0 <= i < r.tracks@.len() && (#[trigger] r.tracks@[i]).id == (#[trigger] a.tracks@[k]).id
            && r.tracks@[i].title@ == a.tracks@[k].title@ && content_of(
            a.tracks@[k],
            hashes,
            opt_view(r.tracks@[i].content_id),
        ) by {
        let t = a.tracks@[k];
        let p = row_is_release(t.release_id);
        lemma_first_where(a.releases@, p);
        let j = choose|j: int|
            0 <= j < a.releases@.len() && (#[trigger] a.releases@[j]).id == t.release_id;
        assert(p(a.releases@[j]));
        assert(exported_track(a, a.tracks@[k], hashes) is Some);
        let i = choose|i: int| 0 <= i < places.len() && #[trigger] places[i] == k;
        assert(v[i] == r.tracks@[i]@);
        lemma_content_of(t, hashes);
        assert(r.tracks@[i].id == t.id);
    }
    assert forall|i: int| 0 <= i < r.tracks@.len() implies exists|k: int|
        0 <= k < a.tracks@.len() && (#[trigger] r.tracks@[i]).id == (#[trigger] a.tracks@[k]).id
            && r.tracks@[i].title@ == a.tracks@[k].title@ && r.tracks@[i].track_number
            == a.tracks@[k].track_number by {
        assert(v[i] == r.tracks@[i]@);
        assert(exported_track(a, a.tracks@[places[i]], hashes) == Some(v[i]));
    }
}

/// Giving every track its content id changes nothing but content ids: a track has
/// its own in canonical form, else the one that was read from its file, and
/// one whose file could not be read stays as it is. Publishing does the same,
/// but takes away what is no content id.
pub proof fn law_content_ids_are_settled(
    a: Library,
    b: Library,
    hashes: Seq<(i64, String)>,
    r: ContentIdBackfillStats,
    k: int,
)
    requires
        backfills(a, b, hashes, r),
        0 <= k < a.tracks@.len(),
    ensures
        b.tracks@.len() == a.tracks@.len(),
        r.checked == a.tracks@.len(),
        b.tracks@[k].id == a.tracks@[k].id,
        b.tracks@[k].title@ == a.tracks@[k].title@,
        b.tracks@[k].file_path@ == a.tracks@[k].file_path@,
        content_of(a.tracks@[k], hashes, opt_view(b.tracks@[k].content_id)) || (content_of(
            a.tracks@[k],
            hashes,
            None,
        ) && b.tracks@[k]@ == a.tracks@[k]@),
{
    let x = viewed(a.tracks@);
    let y = viewed(b.tracks@);
    assert(x.len() == a.tracks@.len() && y.len() == b.tracks@.len());
    assert(x[k] == a.tracks@[k]@ && y[k] == b.tracks@[k]@);
    lemma_content_of(a.tracks@[k], hashes);
}

/// The files that have to be read are those of the tracks without a content id, and
/// no others.
pub proof fn law_files_to_read_lack_content(rows: Seq<TrackRow>, id: i64, path: Seq<char>)
    ensures
        unhashed(rows).contains((id, path)) <==> exists|k: int|
            0 <= k < rows.len() && (#[trigger] rows[k]).id == id && rows[k].file_path@ == path
                && canonical_option(opt_view(rows[k].content_id)) is None,
    decreases rows.len(),
{
    if rows.len() > 0 {
        let h = rows.drop_last();
        let n = rows.len() - 1;
        law_files_to_read_lack_content(h, id, path);
        let before = unhashed(h);
        let all = unhashed(rows);
        if all.contains((id, path)) {
            let i = all.index_of((id, path));
            if i < before.len() {
                assert(before[i] == (id, path));
                let k = choose|k: int|
                    0 <= k < h.len() && (#[trigger] h[k]).id == id && h[k].file_path@ == path
                        && canonical_option(opt_view(h[k].content_id)) is None;
                assert(rows[k] == h[k]);
            } else {
                assert(rows[n].id == id);
            }
        }
        if exists|k: int|
            0 <= k < rows.len() && (#[trigger] rows[k]).id == id && rows[k].file_path@ == path
                && canonical_option(opt_view(rows[k].content_id)) is None {
            let k = choose|k: int|
                0 <= k < rows.len() && (#[trigger] rows[k]).id == id && rows[k].file_path@ == path
                    && canonical_option(opt_view(rows[k].content_id)) is None;
            if k < n {
                assert(h[k] == rows[k]);
                let i = before.index_of((id, path));
                assert(all[i] == (id, path));
            } else {
                assert(all[before.len() as int] == (id, path));
            }
        }
    }
}

// ---------------------------------------------------------------------------
// To peers
// ---------------------------------------------------------------------------

proof fn lemma_previews<F: Fn(&str) -> String>(f: F, cards: Seq<ArtistCardView>) -> (places: Seq<int>)
    ensures
        places.len() == previews_of(f, cards).len(),
        forall|i: int|
            0 <= i < places.len() ==> 0 <= #[trigger] places[i] < cards.len() && previews_of(
                f,
                cards,
            )[i] == preview_of(f, cards[places[i]]) && key_of(f, cards[places[i]].name).len() > 0
                && cards[places[i]].track_count > 0,
        forall|i: int, j: int|
            0 <= i < j < places.len() ==> #[trigger] places[i] < #[trigger] places[j],
        forall|k: int|
            0 <= k < cards.len() && key_of(f, (#[trigger] cards[k]).name).len() > 0
                && cards[k].track_count > 0 ==> exists|i: int|
                0 <= i < places.len() && #[trigger] places[i] == k,
    decreases cards.len(),
{
    if cards.len() == 0 {
        Seq::empty()
    } else {
        let h = cards.drop_last();
        let n = cards.len() - 1;
        let before = lemma_previews(f, h);
        assert forall|k: int| 0 <= k < n implies #[trigger] cards[k] == h[k] by {}
        if key_of(f, cards.last().name).len() > 0 && cards.last().track_count > 0 {
            let places = before.push(n);
            assert forall|k: int|
                0 <= k < cards.len() && key_of(f, (#[trigger] cards[k]).name).len() > 0
                    && cards[k].track_count > 0 implies exists|i: int|
                0 <= i < places.len() && #[trigger] places[i] == k by {
                if k < n {
                    assert(key_of(f, h[k].name).len() > 0);
                    let i = choose|i: int| 0 <= i < before.len() && #[trigger] before[i] == k;
                    assert(places[i] == k);
                } else {
                    assert(places[before.len() as int] == k);
                }
            }
            places
        } else {
            assert forall|k: int|
                0 <= k < cards.len() && key_of(f, (#[trigger] cards[k]).name).len() > 0
                    && cards[k].track_count > 0 implies exists|i: int|
                0 <= i < before.len() && #[trigger] before[i] == k by {
                assert(key_of(f, h[k].name).len() > 0);
            }
            before
        }
    }
}

/// Peers are told of the artists of this library who are on a track, under the key
/// of their name, those with more releases first; and where nothing is left
/// behind, of every one whose name has a key.
pub proof fn law_peers_are_told_of_artists<F: Fn(&str) -> String>(
    f: F,
    lib: Library,
    limit: usize,
    r: (Vec<NetworkArtistPreview>, Option<String>),
)
    requires
        tells_artists(f, lib, 0, limit, r),
    ensures
        r.0@.len() <= limit,
        forall|i: int|
            0 <= i < r.0@.len() ==> (#[trigger] r.0@[i]).track_count > 0 && r.0@[i].artist_key@
                == key_of(f, r.0@[i].name@) && r.0@[i].artist_key@.len() > 0 && exists|k: int|
                0 <= k < lib.artists@.len() && (#[trigger] lib.artists@[k]).name@ == r.0@[i].name@,
        forall|i: int, j: int|
            0 <= i < j < r.0@.len() ==> (#[trigger] r.0@[i]).release_count >= (
            #[trigger] r.0@[j]).release_count,
        r.1 is None ==> forall|k: int|
            0 <= k < lib.artists@.len() && key_of(f, (#[trigger] lib.artists@[k]).name@).len() > 0
                && local_card(lib, lib.artists@[k]).track_count > 0 && (exists|c: int|
                0 <= c < lib.track_artists@.len() && (#[trigger] lib.track_artists@[c]).artist_id
                    == lib.artists@[k].id) ==> exists|i: int|
                0 <= i < r.0@.len() && (#[trigger] r.0@[i]).name@ == lib.artists@[k].name@,
{
    let p = is_on_a_track(lib.track_artists@);
    let rows = lib.artists@.filter(p);
    let cards = local_cards(lib, rows);
    let leq = by_size();
    assert forall|a: ArtistCardView, b: ArtistCardView| #[trigger] leq(a, b) || leq(b, a) by {
        crate::library::listing_laws::lemma_no_case_order(a.name, b.name, b.name);
    }
    assert forall|a: ArtistCardView, b: ArtistCardView, c: ArtistCardView| #[trigger]
        leq(a, b) && #[trigger] leq(b, c) implies leq(a, c) by {
        crate::library::listing_laws::lemma_no_case_order(a.name, b.name, c.name);
    }
    law_stable_sort(cards, leq);
    lemma_sorted_has(cards, leq);
    lemma_filter_holds(lib.artists@, p);
    let all = stable_sorted(cards, leq);
    assert(told_cards(lib, 0) == all);
    let some = at_most(all, limit as int);
    let places = lemma_previews(f, some);
    let v = viewed(r.0@);
    assert(v.len() == r.0@.len());
    assert(v.len() <= some.len()) by {
        lemma_previews_len(f, some);
    }
    assert forall|i: int| 0 <= i < some.len() implies #[trigger] some[i] == all[i] by {}
    assert forall|i: int| 0 <= i < r.0@.len() implies (#[trigger] r.0@[i]).track_count > 0
        && r.0@[i].artist_key@ == key_of(f, r.0@[i].name@) && r.0@[i].artist_key@.len() > 0
        && exists|k: int|
        0 <= k < lib.artists@.len() && (#[trigger] lib.artists@[k]).name@ == r.0@[i].name@ by {
        assert(v[i] == r.0@[i]@);
        let c = some[places[i]];
        assert(all.contains(c)) by {
            assert(all[places[i]] == c);
        }
        let m = cards.index_of(c);
        assert(cards[m] == local_card(lib, rows[m]));
        assert(rows.contains(rows[m]));
        let k = lib.artists@.index_of(rows[m]);
        assert(lib.artists@[k] == rows[m]);
    }
    assert forall|i: int, j: int| 0 <= i < j < r.0@.len() implies (
    #[trigger] r.0@[i]).release_count >= (#[trigger] r.0@[j]).release_count by {
        assert(v[i] == r.0@[i]@ && v[j] == r.0@[j]@);
        assert(places[i] < places[j]);
        assert(leq(all[places[i]], all[places[j]]));
    }
    if r.1 is None {
        assert(some == all);
        assert forall|k: int|
            0 <= k < lib.artists@.len() && key_of(f, (#[trigger] lib.artists@[k]).name@).len() > 0
                && local_card(lib, lib.artists@[k]).track_count > 0 && (exists|c: int|
                0 <= c < lib.track_artists@.len() && (#[trigger] lib.track_artists@[c]).artist_id
                    == lib.artists@[k].id) implies exists|i: int|
            0 <= i < r.0@.len() && (#[trigger] r.0@[i]).name@ == lib.artists@[k].name@ by {
            let a = lib.artists@[k];
            lemma_first_where(lib.track_artists@, credits_artist(a.id));
            let c = choose|c: int|
                0 <= c < lib.track_artists@.len() && (#[trigger] lib.track_artists@[c]).artist_id
                    == a.id;
            assert(credits_artist(a.id)(lib.track_artists@[c]));
            assert(p(a));
            assert(lib.artists@.contains(a));
            assert(rows.contains(a));
            let m = rows.index_of(a);
            assert(cards[m] == local_card(lib, a));
            assert(cards.contains(cards[m]));
            assert(all.contains(cards[m]));
            let q = all.index_of(cards[m]);
            assert(key_of(f, some[q].name).len() > 0);
            let i = choose|i: int| 0 <= i < places.len() && #[trigger] places[i] == q;
            assert(v[i] == r.0@[i]@);
        }
    }
}

proof fn lemma_previews_len<F: Fn(&str) -> String>(f: F, cards: Seq<ArtistCardView>)
    ensures
        previews_of(f, cards).len() <= cards.len(),
    decreases cards.len(),
{
    if cards.len() > 0 {
        lemma_previews_len(f, cards.drop_last());
    }
}

// ---------------------------------------------------------------------------
// From peers
// ---------------------------------------------------------------------------

/// Whether a peer's word on an artist is kept, as of a time.
pub open spec fn is_heard(
    s: Seq<NetworkView>,
    source_id: Seq<char>,
    key: Seq<char>,
    now_ms: i64,
) -> bool {
    exists|m: int|
        0 <= m < s.len() && (#[trigger] s[m]).source_id == source_id && s[m].artist_key == key
            && s[m].seen_at_ms == now_ms && s[m].track_count > 0
}

proof fn lemma_previews_heard<F: Fn(&str) -> String>(
    f: F,
    s: Seq<NetworkView>,
    source_id: Seq<char>,
    source_kind: Seq<char>,
    previews: Seq<PreviewView>,
    now_ms: i64,
)
    ensures
        ({
            let r = with_previews(f, s, source_id, source_kind, previews, now_ms);
            &&& s.len() <= r.len()
            &&& forall|m: int|
                0 <= m < s.len() && s[m].source_id != source_id ==> #[trigger] r[m] == s[m]
            &&& forall|m: int|
                0 <= m < s.len() ==> (#[trigger] r[m]).source_id == s[m].source_id
                    && r[m].artist_key == s[m].artist_key && r[m].image_path == s[m].image_path
            &&& forall|m: int|
                s.len() <= m < r.len() ==> (#[trigger] r[m]).source_id == source_id
            &&& forall|i: int|
                0 <= i < previews.len() && is_kept(f, #[trigger] previews[i]) ==> is_heard(
                    r,
                    source_id,
                    told_key(f, previews[i]),
                    now_ms,
                )
        }),
    decreases previews.len(),
{
    if previews.len() > 0 {
        let h = previews.drop_last();
        let n = previews.len() - 1;
        lemma_previews_heard(f, s, source_id, source_kind, h, now_ms);
        let b = with_previews(f, s, source_id, source_kind, h, now_ms);
        let r = with_previews(f, s, source_id, source_kind, previews, now_ms);
        let p = previews.last();
        lemma_first_where(b, is_word(source_id, told_key(f, p)));
        if is_kept(f, p) {
            let place = match first_where(b, is_word(source_id, told_key(f, p))) {
                Some(i) => i,
                None => b.len() as int,
            };
            assert(r[place].source_id == source_id && r[place].artist_key == told_key(f, p)
                && r[place].seen_at_ms == now_ms);
            assert forall|m: int| 0 <= m < b.len() && m != place implies #[trigger] r[m] == b[m] by {}
            assert forall|i: int|
                0 <= i < previews.len() && is_kept(f, #[trigger] previews[i]) implies is_heard(
                r,
                source_id,
                told_key(f, previews[i]),
                now_ms,
            ) by {
                if i < n {
                    assert(previews[i] == h[i]);
                    assert(is_heard(b, source_id, told_key(f, h[i]), now_ms));
                    let m = choose|m: int|
                        0 <= m < b.len() && (#[trigger] b[m]).source_id == source_id
                            && b[m].artist_key == told_key(f, h[i]) && b[m].seen_at_ms == now_ms
                            && b[m].track_count > 0;
                    if m != place {
                        assert(r[m] == b[m]);
                    } else {
                        assert(r[place].artist_key == told_key(f, h[i]));
                    }
                }
            }
        } else {
            assert forall|i: int|
                0 <= i < previews.len() && is_kept(f, #[trigger] previews[i]) implies is_heard(
                r,
                source_id,
                told_key(f, previews[i]),
                now_ms,
            ) by {
                assert(previews[i] == h[i]);
            }
        }
    }
}

/// What a peer tells of an artist with a track is kept as of now, under the key
/// that it gives or that of the name; what other peers told stays as it is, and
/// so does an image that was fetched. A peer without an id is not heard.
pub proof fn law_peer_is_heard<F: Fn(&str) -> String>(
    f: F,
    a: Library,
    b: Library,
    source_id: Seq<char>,
    source_kind: Seq<char>,
    artists: Seq<PreviewView>,
    now_ms: i64,
    r: usize,
)
    requires
        hears_artists(f, a, b, source_id, source_kind, artists, now_ms, r),
    ensures
        is_blank(source_id) ==> b == a && r == 0,
        !is_blank(source_id) && !is_blank(source_kind) ==> {
            let x = viewed(a.network@);
            let y = viewed(b.network@);
            &&& forall|i: int|
                0 <= i < artists.len() && (#[trigger] artists[i]).track_count > 0 && !is_blank(
                    artists[i].artist_key,
                ) ==> is_heard(y, trimmed(source_id), artists[i].artist_key, now_ms)
            &&& forall|i: int|
                0 <= i < artists.len() && (#[trigger] artists[i]).track_count > 0 && is_blank(
                    artists[i].artist_key,
                ) && key_of(f, artists[i].name).len() > 0 ==> is_heard(
                    y,
                    trimmed(source_id),
                    key_of(f, artists[i].name),
                    now_ms,
                )
            &&& forall|m: int|
                0 <= m < x.len() && x[m].source_id != trimmed(source_id) ==> y.len() > m
                    && #[trigger] y[m] == x[m]
            &&& forall|m: int|
                0 <= m < x.len() ==> y.len() > m && (#[trigger] y[m]).image_path == x[m].image_path
        },
{
    if !is_blank(source_id) && !is_blank(source_kind) {
        let x = viewed(a.network@);
        let y = viewed(b.network@);
        lemma_previews_heard(f, x, trimmed(source_id), trimmed(source_kind), artists, now_ms);
        assert forall|i: int|
            0 <= i < artists.len() && (#[trigger] artists[i]).track_count > 0 && !is_blank(
                artists[i].artist_key,
            ) implies is_heard(y, trimmed(source_id), artists[i].artist_key, now_ms) by {
            let k = artists[i].artist_key;
            if k.len() == 0 {
                assert(trimmed(k).len() == 0);
            }
            assert(is_kept(f, artists[i]));
        }
        assert forall|i: int|
            0 <= i < artists.len() && (#[trigger] artists[i]).track_count > 0 && is_blank(
                artists[i].artist_key,
            ) && key_of(f, artists[i].name).len() > 0 implies is_heard(
            y,
            trimmed(source_id),
            key_of(f, artists[i].name),
            now_ms,
        ) by {
            assert(is_kept(f, artists[i]));
        }
    }
}

/// Whether a peer told of an artist whose image was not fetched, no longer than a week
/// ago, and is one of the own devices unless everyone is heard.
pub open spec fn offers_image(
    lib: Library,
    filters: LibraryFilters,
    now_ms: i64,
    key: Seq<char>,
    source_id: Seq<char>,
) -> bool {
    exists|m: int|
        {
            &&& 0 <= m < lib.network@.len()
            &&& (#[trigger] lib.network@[m]).artist_key@ == key
            &&& lib.network@[m].source_id@ == source_id
            &&& lib.network@[m].image_path is None
            &&& lib.network@[m].seen_at_ms >= now_ms - 7 * 24 * 3600 * 1000
            &&& filters.source_mode == LibrarySourceMode::Global || lib.network@[m].source_kind@
                == "personal"@
        }
}

proof fn lemma_asked<F: Fn(&str) -> String>(
    f: F,
    lib: Library,
    filters: LibraryFilters,
    names: Seq<Seq<char>>,
    limit: usize,
    now_ms: i64,
)
    ensures
        ({
            let r = asked(f, lib, filters, names, limit, now_ms);
            &&& r.requests.len() <= limit
            &&& forall|i: int|
                0 <= i < r.requests.len() ==> r.keys.contains(
                    (#[trigger] r.requests[i]).artist_key,
                ) && offers_image(
                    lib,
                    filters,
                    now_ms,
                    r.requests[i].artist_key,
                    r.requests[i].source_id,
                )
            &&& forall|i: int, j: int|
                0 <= i < j < r.requests.len() ==> (#[trigger] r.requests[i]).artist_key != (
                #[trigger] r.requests[j]).artist_key
        }),
    decreases names.len(),
{
    if names.len() > 0 {
        let h = names.drop_last();
        lemma_asked(f, lib, filters, h, limit, now_ms);
        let b = asked(f, lib, filters, h, limit, now_ms);
        let r = asked(f, lib, filters, names, limit, now_ms);
        let k = key_of(f, names.last());
        if !(b.requests.len() >= limit || k.len() == 0 || b.keys.contains(k)) {
            assert(r.keys[b.keys.len() as int] == k);
            assert forall|x: Seq<char>| b.keys.contains(x) implies #[trigger] r.keys.contains(x) by {
                let i = b.keys.index_of(x);
                assert(r.keys[i] == x);
            }
            let p = has_image(k, filters, now_ms);
            let own = lib.network@.filter(p);
            let rows = stable_sorted(own, by_nearness());
            lemma_filter_holds(lib.network@, p);
            lemma_sorted_has(own, by_nearness());
            if rows.len() > 0 {
                assert(rows.contains(rows[0]));
                assert(own.contains(rows[0]));
                let m = lib.network@.index_of(rows[0]);
                assert(lib.network@[m] == rows[0]);
                assert(p(rows[0]));
                let n = b.requests.len() as int;
                assert(r.requests[n].artist_key == k);
                assert(lib.network@[m].artist_key@ == r.requests[n].artist_key);
                assert(is_used(lib.network@[m]@, filters, now_ms));
                assert(offers_image(lib, filters, now_ms, k, r.requests[n].source_id));
                assert forall|i: int| 0 <= i < r.requests.len() implies r.keys.contains(
                    (#[trigger] r.requests[i]).artist_key,
                ) && offers_image(
                    lib,
                    filters,
                    now_ms,
                    r.requests[i].artist_key,
                    r.requests[i].source_id,
                ) by {
                    if i < n {
                        assert(r.requests[i] == b.requests[i]);
                        assert(b.keys.contains(b.requests[i].artist_key));
                    }
                }
                assert forall|i: int, j: int| 0 <= i < j < r.requests.len() implies (
                #[trigger] r.requests[i]).artist_key != (#[trigger] r.requests[j]).artist_key by {
                    assert(r.requests[i] == b.requests[i]);
                    assert(b.keys.contains(b.requests[i].artist_key));
                    if j < n {
                        assert(r.requests[j] == b.requests[j]);
                    }
                }
            } else {
                assert(r.requests == b.requests);
            }
        }
    }
}

/// Peers are asked for at most so many images, for no artist twice, and only those
/// whose word is used and whose image was not fetched; and for none while only
/// this library is shown.
pub proof fn law_images_are_asked_for_once<F: Fn(&str) -> String>(
    f: F,
    lib: Library,
    filters: LibraryFilters,
    names: Seq<Seq<char>>,
    limit: usize,
    now_ms: i64,
    r: Seq<NetworkArtistImageRequest>,
)
    requires
        asks_images(f, lib, filters, names, limit, now_ms, r),
    ensures
        r.len() <= limit,
        filters.source_mode == LibrarySourceMode::Local ==> r.len() == 0,
        forall|i: int, j: int|
            0 <= i < j < r.len() ==> (#[trigger] r[i]).artist_key@ != (#[trigger] r[j]).artist_key@,
        forall|i: int|
            0 <= i < r.len() ==> offers_image(
                lib,
                filters,
                now_ms,
                (#[trigger] r[i]).artist_key@,
                r[i].source_id@,
            ),
{
    lemma_asked(f, lib, filters, names, limit, now_ms);
    let v = viewed(r);
    assert(v.len() == r.len());
    if !(filters.source_mode is Local || limit == 0) {
        let q = asked(f, lib, filters, names, limit, now_ms).requests;
        assert(v == q);
        assert forall|i: int, j: int| 0 <= i < j < r.len() implies (#[trigger] r[i]).artist_key@
            != (#[trigger] r[j]).artist_key@ by {
            assert(v[i] == r[i]@ && v[j] == r[j]@);
            assert(q[i].artist_key != q[j].artist_key);
        }
        assert forall|i: int| 0 <= i < r.len() implies offers_image(
            lib,
            filters,
            now_ms,
            (#[trigger] r[i]).artist_key@,
            r[i].source_id@,
        ) by {
            assert(v[i] == r[i]@);
            assert(offers_image(lib, filters, now_ms, q[i].artist_key, q[i].source_id));
        }
    } else {
        assert(v.len() == 0);
    }
}

/// The image goes to the artists with the name who have none; an image that is
/// there stays, and so does everyone with another name.
pub proof fn law_image_fills_a_gap<F: Fn(&str) -> String>(
    f: F,
    a: Library,
    b: Library,
    name: Seq<char>,
    image: Seq<char>,
    r: bool,
    k: int,
)
    requires
        sets_images(f, a, b, name, image, r),
        0 <= k < a.artists@.len(),
    ensures
        b.artists@.len() == a.artists@.len(),
        b.artists@[k].name@ == a.artists@[k].name@,
        key_of(f, a.artists@[k].name@) == key_of(f, name) && a.artists@[k].image_path is None
            ==> opt_view(b.artists@[k].image_path) == Some(image) && r,
        !(key_of(f, a.artists@[k].name@) == key_of(f, name) && a.artists@[k].image_path is None)
            ==> b.artists@[k]@ == a.artists@[k]@,
{
    let x = viewed(a.artists@);
    let y = viewed(b.artists@);
    assert(x.len() == a.artists@.len() && y.len() == b.artists@.len());
    assert(x[k] == a.artists@[k]@ && y[k] == b.artists@[k]@);
}

} // verus!
