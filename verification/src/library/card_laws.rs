//! What holds of the numbers on the cards of the library.

use crate::library::edit::row_is_release;
use crate::library::listing::{
    artist_answer, by_place, credited_releases, credited_tracks, distinct, is_main_of,
    is_on_release, is_play_of, items_of, local_card, of_artist, release_answer, release_card,
    release_count, release_of_artist, track_count, track_item,
};
use crate::library::models::{ArtistDetail, ReleaseDetail};
use crate::library::tables::{ArtistRow, Library, ReleaseRow, TrackRow};
use crate::lists::{law_stable_sort, lemma_filter_holds, lemma_first_where, stable_sorted, viewed};
use vstd::prelude::*;

verus! {

proof fn lemma_distinct_ids(s: Seq<i64>)
    ensures
        distinct(s).no_duplicates(),
        forall|x: i64| #[trigger] distinct(s).contains(x) <==> s.contains(x),
    decreases s.len(),
{
    if s.len() > 0 {
        let h = s.drop_last();
        lemma_distinct_ids(h);
        let b = distinct(h);
        let d = distinct(s);
        assert(s[s.len() - 1] == s.last());
        assert forall|x: i64| #[trigger] d.contains(x) <==> s.contains(x) by {
            if b.contains(x) {
                assert(h.contains(x));
                assert(s[h.index_of(x)] == x);
                assert(d[b.index_of(x)] == x);
            }
            if s.contains(x) {
                let i = s.index_of(x);
                if i < h.len() {
                    assert(h[i] == x);
                    assert(b.contains(x));
                    assert(d[b.index_of(x)] == x);
                } else if d != b {
                    assert(d[d.len() - 1] == x);
                }
            }
        }
    }
}

/// The releases that an artist is credited for.
pub open spec fn works_of(lib: Library, artist: i64) -> Set<i64> {
    lib.release_artists@.filter(|c: crate::library::tables::ReleaseCredit| c.artist_id == artist).map_values(
        |c: crate::library::tables::ReleaseCredit| c.release_id,
    ).to_set()
}

/// The tracks that an artist is credited on.
pub open spec fn songs_of(lib: Library, artist: i64) -> Set<i64> {
    lib.track_artists@.filter(|c: crate::library::tables::TrackCredit| c.artist_id == artist).map_values(
        |c: crate::library::tables::TrackCredit| c.track_id,
    ).to_set()
}

/// The card of an artist counts each release and each track that the artist is credited
/// for once, in whatever roles; and nothing exactly when there is none.
pub proof fn law_artist_card_counts_each_once(lib: Library, a: ArtistRow)
    requires
        lib.release_artists@.len() <= i64::MAX,
        lib.track_artists@.len() <= i64::MAX,
    ensures
        local_card(lib, a).release_count == works_of(lib, a.id).len(),
        local_card(lib, a).track_count == songs_of(lib, a.id).len(),
        local_card(lib, a).id == a.id,
        local_card(lib, a).name == a.name@,
        forall|c: int|
            0 <= c < lib.release_artists@.len() && (#[trigger] lib.release_artists@[c]).artist_id
                == a.id ==> local_card(lib, a).release_count > 0 && works_of(lib, a.id).contains(
                lib.release_artists@[c].release_id,
            ),
        forall|c: int|
            0 <= c < lib.track_artists@.len() && (#[trigger] lib.track_artists@[c]).artist_id
                == a.id ==> local_card(lib, a).track_count > 0 && songs_of(lib, a.id).contains(
                lib.track_artists@[c].track_id,
            ),
        local_card(lib, a).release_count <= lib.release_artists@.len(),
        local_card(lib, a).track_count <= lib.track_artists@.len(),
{
    let p = release_of_artist(a.id);
    let q = of_artist(a.id);
    let rs = lib.release_artists@.filter(p);
    let ts = lib.track_artists@.filter(q);
    let x = credited_releases(rs);
    let y = credited_tracks(ts);
    assert(p =~= (|c: crate::library::tables::ReleaseCredit| c.artist_id == a.id));
    assert(q =~= (|c: crate::library::tables::TrackCredit| c.artist_id == a.id));
    lemma_distinct_ids(x);
    lemma_distinct_ids(y);
    distinct(x).unique_seq_to_set();
    distinct(y).unique_seq_to_set();
    assert(distinct(x).to_set() =~= x.to_set()) by {
        assert forall|i: i64| distinct(x).to_set().contains(i) <==> x.to_set().contains(i) by {
            assert(distinct(x).contains(i) <==> x.contains(i));
        }
    }
    assert(distinct(y).to_set() =~= y.to_set()) by {
        assert forall|i: i64| distinct(y).to_set().contains(i) <==> y.to_set().contains(i) by {
            assert(distinct(y).contains(i) <==> y.contains(i));
        }
    }
    assert(works_of(lib, a.id) == x.to_set());
    assert(songs_of(lib, a.id) == y.to_set());
    lib.release_artists@.lemma_filter_len(p);
    lib.track_artists@.lemma_filter_len(q);
    lemma_filter_holds(lib.release_artists@, p);
    lemma_filter_holds(lib.track_artists@, q);
    lemma_distinct_len(x);
    lemma_distinct_len(y);
    assert forall|c: int|
        0 <= c < lib.release_artists@.len() && (#[trigger] lib.release_artists@[c]).artist_id
            == a.id implies local_card(lib, a).release_count > 0 && works_of(lib, a.id).contains(
        lib.release_artists@[c].release_id,
    ) by {
        let row = lib.release_artists@[c];
        assert(lib.release_artists@.contains(row));
        assert(rs.contains(row));
        let i = rs.index_of(row);
        assert(x[i] == row.release_id);
        assert(distinct(x).contains(row.release_id));
    }
    assert forall|c: int|
        0 <= c < lib.track_artists@.len() && (#[trigger] lib.track_artists@[c]).artist_id
            == a.id implies local_card(lib, a).track_count > 0 && songs_of(lib, a.id).contains(
        lib.track_artists@[c].track_id,
    ) by {
        let row = lib.track_artists@[c];
        assert(lib.track_artists@.contains(row));
        assert(ts.contains(row));
        let i = ts.index_of(row);
        assert(y[i] == row.track_id);
        assert(distinct(y).contains(row.track_id));
    }
}

proof fn lemma_distinct_len(s: Seq<i64>)
    ensures
        distinct(s).len() <= s.len(),
    decreases s.len(),
{
    if s.len() > 0 {
        lemma_distinct_len(s.drop_last());
    }
}

proof fn lemma_all_shown(lib: Library, rows: Seq<TrackRow>)
    requires
        forall|i: int| 0 <= i < rows.len() ==> track_item(lib, #[trigger] rows[i]) is Some,
    ensures
        items_of(lib, rows).len() == rows.len(),
    decreases rows.len(),
{
    if rows.len() > 0 {
        let h = rows.drop_last();
        assert forall|i: int| 0 <= i < h.len() implies track_item(lib, #[trigger] h[i]) is Some by {
            assert(h[i] == rows[i]);
        }
        lemma_all_shown(lib, h);
        assert(track_item(lib, rows[rows.len() - 1]) is Some);
    }
}

/// The card of a release counts as many tracks as the release lists when it is opened.
pub proof fn law_release_card_counts_what_is_listed(
    lib: Library,
    row: ReleaseRow,
    r: Result<ReleaseDetail, String>,
)
    requires
        release_answer(lib, row.id, r),
        lib.releases@.contains(row),
        lib.tracks@.len() <= i64::MAX,
    ensures
        r is Ok,
        release_card(lib, row).track_count == r->Ok_0.tracks@.len(),
        release_card(lib, row).id == row.id,
        release_card(lib, row).title == row.title@,
        release_card(lib, row).year == row.year,
{
    let p = is_on_release(row.id);
    lemma_first_where(lib.releases@, row_is_release(row.id));
    let k = lib.releases@.index_of(row);
    assert(row_is_release(row.id)(lib.releases@[k]));
    let on = lib.tracks@.filter(p);
    let rows = stable_sorted(on, by_place());
    law_stable_sort(on, by_place());
    crate::library::listing_laws::lemma_sorted_has(on, by_place());
    lemma_filter_holds(lib.tracks@, p);
    lib.tracks@.lemma_filter_len(p);
    assert forall|i: int| 0 <= i < rows.len() implies track_item(lib, #[trigger] rows[i]) is Some by {
        assert(rows.contains(rows[i]));
        assert(on.contains(rows[i]));
        assert(p(rows[i]));
    }
    lemma_all_shown(lib, rows);
    let d = r->Ok_0;
    assert(viewed(d.tracks@).len() == d.tracks@.len());
}

/// The page of an artist counts the tracks that the artist is a main artist of and the
/// plays of the artist's tracks: none exactly when there is none.
pub proof fn law_artist_page_counts(lib: Library, id: i64, r: Result<ArtistDetail, String>)
    requires
        artist_answer(lib, id, r),
        r is Ok,
        lib.track_artists@.len() <= i64::MAX,
        lib.history@.len() <= i64::MAX,
    ensures
        0 <= r->Ok_0.total_track_count <= lib.track_artists@.len(),
        0 <= r->Ok_0.total_play_count <= lib.history@.len(),
        r->Ok_0.total_track_count == 0 <==> forall|c: int|
            0 <= c < lib.track_artists@.len() ==> !((#[trigger] lib.track_artists@[c]).artist_id
                == id && !lib.track_artists@[c].featured),
        r->Ok_0.id == id,
{
    let p = is_main_of(id);
    let credits = lib.track_artists@;
    credits.lemma_filter_len(p);
    lib.history@.lemma_filter_len(is_play_of(credits, id));
    lemma_filter_holds(credits, p);
    if credits.filter(p).len() > 0 {
        let x = credits.filter(p)[0];
        assert(credits.filter(p).contains(x));
        let c = credits.index_of(x);
        assert(credits[c].artist_id == id);
    } else {
        assert forall|c: int| 0 <= c < credits.len() implies !((#[trigger] credits[c]).artist_id
            == id && !credits[c].featured) by {
            if p(credits[c]) {
                assert(credits.contains(credits[c]));
                assert(credits.filter(p).contains(credits[c]));
            }
        }
    }
}

} // verus!
