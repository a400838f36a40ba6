//! What holds of what the library lists, whatever is in it.

use crate::library::edit::{is_release_credit, is_track_credit, row_is_artist, row_is_release};
use crate::library::listing::{
    artist_answer, by_place, by_plays, by_title, by_year, is_credited_as, is_on_release,
    is_release_by, items_of, release_answer, release_card, track_item,
};
use crate::library::models::{ArtistDetail, ReleaseDetail};
use crate::library::tables::{Library, Play, ReleaseRow, TrackRow};
use crate::lists::{
    at_most, first_where, law_stable_sort, lemma_filter_holds, lemma_first_where, stable_sorted,
    total_preorder, viewed,
};
use crate::text::{
    ascii_lowered, lemma_precedes_total, lemma_precedes_transitive, no_case_leq, precedes,
};
use vstd::prelude::*;

verus! {

// ---------------------------------------------------------------------------
// Orders
// ---------------------------------------------------------------------------

/// The order of texts without regard to the case of their letters is total.
pub proof fn lemma_no_case_order(a: Seq<char>, b: Seq<char>, c: Seq<char>)
    ensures
        no_case_leq(a, b) || no_case_leq(b, a),
        no_case_leq(a, b) && no_case_leq(b, c) ==> no_case_leq(a, c),
{
    let x = ascii_lowered(a);
    let y = ascii_lowered(b);
    let z = ascii_lowered(c);
    lemma_precedes_total(x, y);
    lemma_precedes_total(y, z);
    lemma_precedes_total(x, z);
    if no_case_leq(a, b) && no_case_leq(b, c) && precedes(z, x) {
        if precedes(x, y) {
            lemma_precedes_transitive(z, x, y);
        }
    }
}

/// What a sorted list holds.
pub proof fn lemma_sorted_has<T>(s: Seq<T>, leq: spec_fn(T, T) -> bool)
    ensures
        forall|x: T| #[trigger] stable_sorted(s, leq).contains(x) <==> s.contains(x),
{
    broadcast use vstd::seq_lib::group_to_multiset_ensures;

    law_stable_sort(s, leq);
    let t = stable_sorted(s, leq);
    assert forall|x: T| #[trigger] t.contains(x) <==> s.contains(x) by {
        assert(t.contains(x) <==> t.to_multiset().count(x) > 0);
        assert(s.contains(x) <==> s.to_multiset().count(x) > 0);
    }
}

pub proof fn lemma_place_order()
    ensures
        total_preorder(by_place()),
{
    let leq = by_place();
    assert forall|a: TrackRow, b: TrackRow| #[trigger] leq(a, b) || leq(b, a) by {
        lemma_no_case_order(a.title@, b.title@, b.title@);
    }
    assert forall|a: TrackRow, b: TrackRow, c: TrackRow| #[trigger]
        leq(a, b) && #[trigger] leq(b, c) implies leq(a, c) by {
        lemma_no_case_order(a.title@, b.title@, c.title@);
    }
}

proof fn lemma_year_order()
    ensures
        total_preorder(by_year()),
{
    let leq = by_year();
    assert forall|a: ReleaseRow, b: ReleaseRow| #[trigger] leq(a, b) || leq(b, a) by {
        lemma_no_case_order(a.title@, b.title@, b.title@);
    }
    assert forall|a: ReleaseRow, b: ReleaseRow, c: ReleaseRow| #[trigger]
        leq(a, b) && #[trigger] leq(b, c) implies leq(a, c) by {
        lemma_no_case_order(a.title@, b.title@, c.title@);
    }
}

proof fn lemma_plays_order(history: Seq<Play>)
    ensures
        total_preorder(by_plays(history)),
{
    let leq = by_plays(history);
    assert forall|a: TrackRow, b: TrackRow| #[trigger] leq(a, b) || leq(b, a) by {
        lemma_no_case_order(a.title@, b.title@, b.title@);
    }
    assert forall|a: TrackRow, b: TrackRow, c: TrackRow| #[trigger]
        leq(a, b) && #[trigger] leq(b, c) implies leq(a, c) by {
        lemma_no_case_order(a.title@, b.title@, c.title@);
    }
}

proof fn lemma_title_order()
    ensures
        total_preorder(by_title()),
{
    let leq = by_title();
    assert forall|a: TrackRow, b: TrackRow| #[trigger] leq(a, b) || leq(b, a) by {
        lemma_no_case_order(a.title@, b.title@, b.title@);
    }
    assert forall|a: TrackRow, b: TrackRow, c: TrackRow| #[trigger]
        leq(a, b) && #[trigger] leq(b, c) implies leq(a, c) by {
        lemma_no_case_order(a.title@, b.title@, c.title@);
    }
}

/// Where each of the listed tracks stands among the rows: the places grow, and
/// no row that can be listed is passed over.
pub proof fn lemma_items_places(lib: Library, rows: Seq<TrackRow>) -> (places: Seq<int>)
    ensures
        places.len() == items_of(lib, rows).len(),
        forall|i: int|
            0 <= i < places.len() ==> 0 <= #[trigger] places[i] < rows.len() && track_item(
                lib,
                rows[places[i]],
            ) == Some(items_of(lib, rows)[i]),
        forall|i: int, j: int|
            0 <= i < j < places.len() ==> #[trigger] places[i] < #[trigger] places[j],
        forall|k: int|
            0 <= k < rows.len() && track_item(lib, #[trigger] rows[k]) is Some ==> exists|i: int|
                0 <= i < places.len() && #[trigger] places[i] == k,
    decreases rows.len(),
{
    if rows.len() == 0 {
        Seq::empty()
    } else {
        let h = rows.drop_last();
        let before = lemma_items_places(lib, h);
        assert forall|k: int| 0 <= k < h.len() implies #[trigger] rows[k] == h[k] by {}
        match track_item(lib, rows.last()) {
            Some(_) => {
                let places = before.push(rows.len() - 1);
                assert forall|k: int|
                    0 <= k < rows.len() && track_item(lib, #[trigger] rows[k])
                        is Some implies exists|i: int|
                    0 <= i < places.len() && #[trigger] places[i] == k by {
                    if k < h.len() {
                        assert(track_item(lib, h[k]) is Some);
                        let i = choose|i: int| 0 <= i < before.len() && #[trigger] before[i] == k;
                        assert(places[i] == k);
                    } else {
                        assert(places[before.len() as int] == k);
                    }
                }
                places
            },
            None => {
                assert forall|k: int|
                    0 <= k < rows.len() && track_item(lib, #[trigger] rows[k])
                        is Some implies exists|i: int|
                    0 <= i < before.len() && #[trigger] before[i] == k by {
                    assert(track_item(lib, h[k]) is Some);
                }
                before
            },
        }
    }
}

// ---------------------------------------------------------------------------
// Releases
// ---------------------------------------------------------------------------

/// The tracks of a release are listed by disc and number: of two tracks the one
/// on the earlier disc comes first, on the same disc the one with the smaller
/// number, and what has no number comes behind what has one.
pub proof fn law_release_tracks_are_in_order(
    lib: Library,
    id: i64,
    r: Result<ReleaseDetail, String>,
    i: int,
    j: int,
)
    requires
        release_answer(lib, id, r),
        r is Ok,
        0 <= i < j < r->Ok_0.tracks@.len(),
    ensures
        ({
            let a = r->Ok_0.tracks@[i];
            let b = r->Ok_0.tracks@[j];
            &&& a.disc_number is None ==> b.disc_number is None
            &&& a.disc_number matches Some(x) ==> (b.disc_number matches Some(y) ==> x <= y)
            &&& a.disc_number == b.disc_number ==> {
                &&& a.track_number is None ==> b.track_number is None
                &&& a.track_number matches Some(x) ==> (b.track_number matches Some(y) ==> x <= y)
            }
            &&& a.disc_number == b.disc_number && a.track_number == b.track_number
                ==> !precedes(ascii_lowered(b.title@), ascii_lowered(a.title@))
        }),
{
    let d = r->Ok_0;
    let rows = stable_sorted(lib.tracks@.filter(is_on_release(id)), by_place());
    lemma_place_order();
    law_stable_sort(lib.tracks@.filter(is_on_release(id)), by_place());
    let places = lemma_items_places(lib, rows);
    let v = viewed(d.tracks@);
    assert(v[i] == d.tracks@[i]@);
    assert(v[j] == d.tracks@[j]@);
    assert(places[i] < places[j]);
    assert(by_place()(rows[places[i]], rows[places[j]]));
}

/// A release is shown exactly when there is one with the id, and what is listed
/// of it are the tracks that are on it: every one, and no other.
pub proof fn law_release_lists_its_tracks(
    lib: Library,
    id: i64,
    r: Result<ReleaseDetail, String>,
)
    requires
        release_answer(lib, id, r),
    ensures
        r is Ok <==> exists|k: int| 0 <= k < lib.releases@.len() && #[trigger] lib.releases@[k].id == id,
        r matches Ok(d) ==> {
            &&& forall|k: int|
                0 <= k < lib.tracks@.len() && (#[trigger] lib.tracks@[k]).release_id == id
                    ==> exists|i: int|
                    0 <= i < d.tracks@.len() && (#[trigger] d.tracks@[i]).id == lib.tracks@[k].id
                        && d.tracks@[i].title@ == lib.tracks@[k].title@
                        && d.tracks@[i].file_path@ == lib.tracks@[k].file_path@
            &&& forall|i: int|
                0 <= i < d.tracks@.len() ==> exists|k: int|
                    0 <= k < lib.tracks@.len() && (#[trigger] lib.tracks@[k]).release_id == id
                        && lib.tracks@[k].id == (#[trigger] d.tracks@[i]).id
                        && d.tracks@[i].title@ == lib.tracks@[k].title@
                        && d.tracks@[i].file_path@ == lib.tracks@[k].file_path@
            &&& d.tracks@.len() <= lib.tracks@.len()
        },
{
    lemma_first_where(lib.releases@, row_is_release(id));
    match r {
        Ok(d) => {
            let p = is_on_release(id);
            let rows = stable_sorted(lib.tracks@.filter(p), by_place());
            lemma_sorted_has(lib.tracks@.filter(p), by_place());
            law_stable_sort(lib.tracks@.filter(p), by_place());
            lib.tracks@.lemma_filter_len(p);
            lemma_filter_holds(lib.tracks@, p);
            let places = lemma_items_places(lib, rows);
            let v = viewed(d.tracks@);
            assert forall|k: int|
                0 <= k < lib.tracks@.len() && (#[trigger] lib.tracks@[k]).release_id
                    == id implies exists|i: int|
                0 <= i < d.tracks@.len() && (#[trigger] d.tracks@[i]).id == lib.tracks@[k].id
                    && d.tracks@[i].title@ == lib.tracks@[k].title@ && d.tracks@[i].file_path@
                    == lib.tracks@[k].file_path@ by {
                let t = lib.tracks@[k];
                assert(lib.tracks@.contains(t));
                assert(lib.tracks@.filter(p).contains(t));
                assert(rows.contains(t));
                let m = rows.index_of(t);
                assert(rows[m] == t);
                assert(track_item(lib, rows[m]) is Some);
                let i = choose|i: int| 0 <= i < places.len() && #[trigger] places[i] == m;
                assert(v[i] == d.tracks@[i]@);
                assert(d.tracks@[i].id == t.id);
            }
            assert forall|i: int| 0 <= i < d.tracks@.len() implies exists|k: int|
                0 <= k < lib.tracks@.len() && (#[trigger] lib.tracks@[k]).release_id == id
                    && lib.tracks@[k].id == (#[trigger] d.tracks@[i]).id && d.tracks@[i].title@
                    == lib.tracks@[k].title@ && d.tracks@[i].file_path@
                    == lib.tracks@[k].file_path@ by {
                assert(v[i] == d.tracks@[i]@);
                let t = rows[places[i]];
                assert(rows.contains(t));
                assert(lib.tracks@.filter(p).contains(t));
                assert(lib.tracks@.contains(t));
                let k = lib.tracks@.index_of(t);
                assert(lib.tracks@[k] == t);
            }
            lemma_items_len(lib, rows);
        },
        Err(_) => {},
    }
}

proof fn lemma_items_len(lib: Library, rows: Seq<TrackRow>)
    ensures
        items_of(lib, rows).len() <= rows.len(),
    decreases rows.len(),
{
    if rows.len() > 0 {
        lemma_items_len(lib, rows.drop_last());
    }
}

// ---------------------------------------------------------------------------
// Artists
// ---------------------------------------------------------------------------

/// The releases of an artist are listed with the newest first, and those whose
/// year is not known behind the others.
pub proof fn law_artist_releases_are_newest_first(
    lib: Library,
    id: i64,
    r: Result<ArtistDetail, String>,
    i: int,
    j: int,
)
    requires
        artist_answer(lib, id, r),
        r is Ok,
        0 <= i < j < r->Ok_0.releases@.len(),
    ensures
        ({
            let a = r->Ok_0.releases@[i];
            let b = r->Ok_0.releases@[j];
            &&& a.year is None ==> b.year is None
            &&& a.year matches Some(x) ==> (b.year matches Some(y) ==> x >= y)
            &&& a.year == b.year ==> !precedes(
                ascii_lowered(b.title@),
                ascii_lowered(a.title@),
            )
        }),
{
    let d = r->Ok_0;
    let own = lib.releases@.filter(is_release_by(lib.release_artists@, id));
    lemma_year_order();
    law_stable_sort(own, by_year());
    let rows = stable_sorted(own, by_year());
    let v = viewed(d.releases@);
    assert(v.len() == d.releases@.len() && v.len() == rows.len());
    assert(v[i] == d.releases@[i]@ && v[j] == d.releases@[j]@);
    assert(v[i] == release_card(lib, rows[i]) && v[j] == release_card(lib, rows[j]));
    assert(by_year()(rows[i], rows[j]));
}

/// An artist is shown exactly when there is one with the id, under their name,
/// and their releases are those that are credited to them: every one, and no
/// other.
pub proof fn law_artist_shows_own_releases(
    lib: Library,
    id: i64,
    r: Result<ArtistDetail, String>,
)
    requires
        artist_answer(lib, id, r),
    ensures
        r is Ok <==> exists|k: int| 0 <= k < lib.artists@.len() && #[trigger] lib.artists@[k].id == id,
        r matches Ok(d) ==> {
            &&& exists|k: int|
                0 <= k < lib.artists@.len() && (#[trigger] lib.artists@[k]).id == id
                    && lib.artists@[k].name@ == d.name@
            &&& forall|k: int, c: int|
                0 <= k < lib.releases@.len() && 0 <= c < lib.release_artists@.len()
                    && (#[trigger] lib.release_artists@[c]).artist_id == id
                    && lib.release_artists@[c].release_id == (#[trigger] lib.releases@[k]).id
                    ==> exists|i: int|
                    0 <= i < d.releases@.len() && (#[trigger] d.releases@[i]).id
                        == lib.releases@[k].id && d.releases@[i].title@ == lib.releases@[k].title@
            &&& forall|i: int|
                0 <= i < d.releases@.len() ==> exists|c: int|
                    0 <= c < lib.release_artists@.len() && (#[trigger] lib.release_artists@[c]).artist_id
                        == id && lib.release_artists@[c].release_id == (#[trigger] d.releases@[i]).id
        },
{
    lemma_first_where(lib.artists@, row_is_artist(id));
    match r {
        Ok(d) => {
            let p = is_release_by(lib.release_artists@, id);
            let own = lib.releases@.filter(p);
            let rows = stable_sorted(own, by_year());
            law_stable_sort(own, by_year());
            lemma_sorted_has(own, by_year());
            lemma_filter_holds(lib.releases@, p);
            let v = viewed(d.releases@);
            assert(v.len() == d.releases@.len() && v.len() == rows.len());
            assert forall|k: int, c: int|
                0 <= k < lib.releases@.len() && 0 <= c < lib.release_artists@.len()
                    && (#[trigger] lib.release_artists@[c]).artist_id == id
                    && lib.release_artists@[c].release_id == (#[trigger] lib.releases@[k]).id
                implies exists|i: int|
                0 <= i < d.releases@.len() && (#[trigger] d.releases@[i]).id
                    == lib.releases@[k].id && d.releases@[i].title@ == lib.releases@[k].title@ by {
                let t = lib.releases@[k];
                lemma_first_where(lib.release_artists@, is_release_credit(t.id, id));
                assert(is_release_credit(t.id, id)(lib.release_artists@[c]));
                assert(p(t));
                assert(lib.releases@.contains(t));
                assert(own.contains(t));
                assert(rows.contains(t));
                let i = rows.index_of(t);
                assert(v[i] == d.releases@[i]@);
                assert(v[i] == release_card(lib, rows[i]));
                assert(d.releases@[i].id == t.id);
            }
            assert forall|i: int| 0 <= i < d.releases@.len() implies exists|c: int|
                0 <= c < lib.release_artists@.len() && (#[trigger] lib.release_artists@[c]).artist_id
                    == id && lib.release_artists@[c].release_id
                    == (#[trigger] d.releases@[i]).id by {
                assert(v[i] == d.releases@[i]@);
                assert(v[i] == release_card(lib, rows[i]));
                let t = rows[i];
                assert(rows.contains(t));
                assert(own.contains(t));
                assert(p(t));
                lemma_first_where(lib.release_artists@, is_release_credit(t.id, id));
                let c = first_where(lib.release_artists@, is_release_credit(t.id, id))->0;
                assert(lib.release_artists@[c].artist_id == id);
            }
        },
        Err(_) => {},
    }
}

/// The top tracks of an artist are at most ten, and those that were played more
/// often come first.
pub proof fn law_artist_top_tracks_are_most_played(
    lib: Library,
    id: i64,
    r: Result<ArtistDetail, String>,
)
    requires
        artist_answer(lib, id, r),
        r is Ok,
    ensures
        r->Ok_0.top_tracks@.len() <= 10,
        forall|i: int, j: int|
            0 <= i < j < r->Ok_0.top_tracks@.len() ==> (#[trigger] r->Ok_0.top_tracks@[i]).play_count
                >= (#[trigger] r->Ok_0.top_tracks@[j]).play_count,
{
    let d = r->Ok_0;
    let own = lib.tracks@.filter(is_credited_as(lib.track_artists@, id, false));
    let leq = by_plays(lib.history@);
    lemma_plays_order(lib.history@);
    law_stable_sort(own, leq);
    let rows = stable_sorted(own, leq);
    let places = lemma_items_places(lib, rows);
    let v = viewed(d.top_tracks@);
    let all = items_of(lib, rows);
    assert(v == at_most(all, 10));
    assert(v.len() == d.top_tracks@.len() && v.len() <= all.len());
    assert forall|i: int, j: int| 0 <= i < j < d.top_tracks@.len() implies (
    #[trigger] d.top_tracks@[i]).play_count >= (#[trigger] d.top_tracks@[j]).play_count by {
        assert(v[i] == d.top_tracks@[i]@ && v[j] == d.top_tracks@[j]@);
        assert(places[i] < places[j]);
        assert(leq(rows[places[i]], rows[places[j]]));
    }
}

/// The tracks on which an artist is featured are listed by title, and each has
/// the artist among those who are featured on it.
pub proof fn law_artist_featured_tracks(
    lib: Library,
    id: i64,
    r: Result<ArtistDetail, String>,
)
    requires
        artist_answer(lib, id, r),
        r is Ok,
    ensures
        forall|i: int, j: int|
            0 <= i < j < r->Ok_0.featured_tracks@.len() ==> !precedes(
                ascii_lowered((#[trigger] r->Ok_0.featured_tracks@[j]).title@),
                ascii_lowered((#[trigger] r->Ok_0.featured_tracks@[i]).title@),
            ),
        forall|i: int|
            0 <= i < r->Ok_0.featured_tracks@.len() ==> exists|c: int|
                0 <= c < lib.track_artists@.len() && (#[trigger] lib.track_artists@[c]).artist_id
                    == id && lib.track_artists@[c].featured && lib.track_artists@[c].track_id
                    == (#[trigger] r->Ok_0.featured_tracks@[i]).id,
{
    let d = r->Ok_0;
    let p = is_credited_as(lib.track_artists@, id, true);
    let own = lib.tracks@.filter(p);
    let leq = by_title();
    lemma_title_order();
    law_stable_sort(own, leq);
    lemma_sorted_has(own, leq);
    lemma_filter_holds(lib.tracks@, p);
    let rows = stable_sorted(own, leq);
    let places = lemma_items_places(lib, rows);
    let v = viewed(d.featured_tracks@);
    assert forall|i: int, j: int| 0 <= i < j < d.featured_tracks@.len() implies !precedes(
        ascii_lowered((#[trigger] d.featured_tracks@[j]).title@),
        ascii_lowered((#[trigger] d.featured_tracks@[i]).title@),
    ) by {
        assert(v[i] == d.featured_tracks@[i]@ && v[j] == d.featured_tracks@[j]@);
        assert(places[i] < places[j]);
        assert(leq(rows[places[i]], rows[places[j]]));
    }
    assert forall|i: int| 0 <= i < d.featured_tracks@.len() implies exists|c: int|
        0 <= c < lib.track_artists@.len() && (#[trigger] lib.track_artists@[c]).artist_id == id
            && lib.track_artists@[c].featured && lib.track_artists@[c].track_id == (
        #[trigger] d.featured_tracks@[i]).id by {
        assert(v[i] == d.featured_tracks@[i]@);
        let t = rows[places[i]];
        assert(rows.contains(t));
        assert(own.contains(t));
        lemma_first_where(lib.track_artists@, is_track_credit(t.id, id, true));
        let c = first_where(lib.track_artists@, is_track_credit(t.id, id, true))->0;
        assert(lib.track_artists@[c].artist_id == id);
    }
}

} // verus!
