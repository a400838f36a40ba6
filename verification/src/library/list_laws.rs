//! What holds of playlists and likes whatever is put in or taken out.

use crate::content_id::{canonical, canonical_option};
use crate::federation::track::FedTrackView;
use crate::library::likes::{
    fed_has_content, fed_is_item, fed_lacks_content, fed_no_duplicate, found_fed_like,
    latest_fed_like, likes_content, likes_no_content, likes_track, lowest_of, lowest_track,
    toggled, upserts_like, with_like, LikeError,
};
use crate::library::playlists::{
    entries_view, found_fed_entry, is_entry, is_other_entry, keyed_as, last_place, sets_fed_track,
    with_entries, with_entry, with_fed_entry, without_tracks, FedEntryView,
};
use crate::library::tables::{
    is_fed_entry, stored_view, FedEntry, FedLikeRow, Library, LikeRow, PlaylistEntry,
    TrackRow,
};
use crate::lists::{
    first_where, lemma_all_stay, lemma_filter_full, lemma_filter_holds, lemma_first_mapped,
    lemma_first_where,
};
use vstd::prelude::*;

verus! {

// ---------------------------------------------------------------------------
// Playlists
// ---------------------------------------------------------------------------

proof fn lemma_last_place(s: Seq<PlaylistEntry>, playlist_id: i64, i: int)
    requires
        0 <= i < s.len(),
        s[i].playlist_id == playlist_id,
    ensures
        last_place(s, playlist_id) is Some,
        s[i].position <= last_place(s, playlist_id)->0,
    decreases s.len(),
{
    if i < s.len() - 1 {
        lemma_last_place(s.drop_last(), playlist_id, i);
    }
}

/// A track that is put into a playlist stands behind everything that was in it,
/// as long as there is a number for its place.
pub proof fn law_added_track_goes_last(
    s: Seq<PlaylistEntry>,
    playlist_id: i64,
    track_id: i64,
    i: int,
)
    requires
        first_where(s, is_entry(playlist_id, track_id)) is None,
        last_place(s, playlist_id) matches Some(p) ==> p < i64::MAX,
        0 <= i < s.len(),
        s[i].playlist_id == playlist_id,
    ensures
        with_entry(s, playlist_id, track_id).last().track_id == track_id,
        with_entry(s, playlist_id, track_id).last().playlist_id == playlist_id,
        s[i].position < with_entry(s, playlist_id, track_id).last().position,
{
    lemma_last_place(s, playlist_id, i);
}

/// A track that is in a playlist is not put into it again.
pub proof fn law_adding_again_changes_nothing(
    s: Seq<PlaylistEntry>,
    playlist_id: i64,
    track_id: i64,
)
    ensures
        with_entry(with_entry(s, playlist_id, track_id), playlist_id, track_id) == with_entry(
            s,
            playlist_id,
            track_id,
        ),
{
    lemma_entry_is_in(s, playlist_id, track_id);
}

proof fn lemma_entry_is_in(s: Seq<PlaylistEntry>, playlist_id: i64, track_id: i64)
    ensures
        first_where(with_entry(s, playlist_id, track_id), is_entry(playlist_id, track_id)) is Some,
{
    let p = is_entry(playlist_id, track_id);
    let w = with_entry(s, playlist_id, track_id);
    lemma_first_where(w, p);
    if first_where(s, p) is None {
        assert(p(w[s.len() as int]));
    }
}

proof fn lemma_entry_stays_in(s: Seq<PlaylistEntry>, playlist_id: i64, track_id: i64, other: i64)
    requires
        first_where(s, is_entry(playlist_id, other)) is Some,
    ensures
        first_where(with_entry(s, playlist_id, track_id), is_entry(playlist_id, other)) is Some,
{
    let p = is_entry(playlist_id, other);
    let w = with_entry(s, playlist_id, track_id);
    lemma_first_where(s, p);
    lemma_first_where(w, p);
    let i = first_where(s, p)->0;
    assert(w[i] == s[i]);
}

/// Every track that was put into a playlist is in it.
pub proof fn law_added_tracks_are_in(
    s: Seq<PlaylistEntry>,
    playlist_id: i64,
    ids: Seq<i64>,
    i: int,
)
    requires
        0 <= i < ids.len(),
    ensures
        first_where(with_entries(s, playlist_id, ids), is_entry(playlist_id, ids[i])) is Some,
    decreases ids.len(),
{
    let before = with_entries(s, playlist_id, ids.drop_last());
    if i < ids.len() - 1 {
        law_added_tracks_are_in(s, playlist_id, ids.drop_last(), i);
        lemma_entry_stays_in(before, playlist_id, ids.last(), ids[i]);
    } else {
        lemma_entry_is_in(before, playlist_id, ids.last());
    }
}

/// Putting tracks into a playlist leaves what was there as it was.
pub proof fn law_adding_keeps_the_others(
    s: Seq<PlaylistEntry>,
    playlist_id: i64,
    ids: Seq<i64>,
    i: int,
)
    requires
        0 <= i < s.len(),
    ensures
        s.len() <= with_entries(s, playlist_id, ids).len(),
        with_entries(s, playlist_id, ids)[i] == s[i],
    decreases ids.len(),
{
    if ids.len() > 0 {
        law_adding_keeps_the_others(s, playlist_id, ids.drop_last(), i);
    }
}

/// Taking tracks out of a playlist takes out those and nothing else.
pub proof fn law_removal_takes_what_it_names(
    s: Seq<PlaylistEntry>,
    playlist_id: i64,
    ids: Seq<i64>,
    e: PlaylistEntry,
)
    ensures
        without_tracks(s, playlist_id, ids).contains(e) <==> s.contains(e) && !(e.playlist_id
            == playlist_id && ids.contains(e.track_id)),
    decreases ids.len(),
{
    if ids.len() > 0 {
        let h = ids.drop_last();
        let before = without_tracks(s, playlist_id, h);
        law_removal_takes_what_it_names(s, playlist_id, h, e);
        lemma_filter_holds(before, is_other_entry(playlist_id, ids.last()));
        assert(ids.contains(e.track_id) <==> h.contains(e.track_id) || e.track_id == ids.last())
            by {
            if ids.contains(e.track_id) {
                let i = ids.index_of(e.track_id);
                if i < h.len() {
                    assert(h[i] == e.track_id);
                }
            }
            if h.contains(e.track_id) {
                let i = h.index_of(e.track_id);
                assert(ids[i] == e.track_id);
            }
            assert(ids[ids.len() - 1] == ids.last());
        }
    }
}

/// Taking out a track that was just put in gives the playlist back.
pub proof fn law_add_then_remove(s: Seq<PlaylistEntry>, playlist_id: i64, track_id: i64)
    requires
        first_where(s, is_entry(playlist_id, track_id)) is None,
    ensures
        with_entry(s, playlist_id, track_id).filter(is_other_entry(playlist_id, track_id)) == s,
{
    reveal(Seq::filter);
    let p = is_other_entry(playlist_id, track_id);
    let w = with_entry(s, playlist_id, track_id);
    lemma_first_where(s, is_entry(playlist_id, track_id));
    assert forall|i: int| 0 <= i < s.len() implies p(#[trigger] s[i]) by {
        assert(!is_entry(playlist_id, track_id)(s[i]));
    }
    lemma_all_stay(s, p);
    assert(w.drop_last() =~= s);
}

/// Another peer's track that was set in a playlist is read back as it was set.
pub proof fn law_fed_entry_is_read_back(
    before: Library,
    after: Library,
    sync_id: Seq<char>,
    fed: FedTrackView,
    position: i64,
)
    requires
        sets_fed_track(before, after, sync_id, fed, position),
        canonical_option(fed.content_id) is Some,
    ensures
        found_fed_entry(after, sync_id, fed.content_id->0) == Some(
            stored_view(fed, canonical_option(fed.content_id)),
        ),
{
    let id = canonical_option(fed.content_id)->0;
    let e = FedEntryView {
        sync_id,
        content_id: id,
        fed: FedTrackView { content_id: Some(id), ..fed },
        position,
    };
    let s = entries_view(before.fed_playlist_tracks@);
    let w = entries_view(after.fed_playlist_tracks@);
    let p = keyed_as(sync_id, id);
    lemma_first_where(s, p);
    lemma_first_where(w, p);
    let place = match first_where(s, p) {
        Some(i) => i,
        None => s.len() as int,
    };
    assert(w == with_fed_entry(s, e));
    assert(w[place] == e);
    assert(p(w[place]));
    let k = first_where(w, p)->0;
    assert(k == place) by {
        if k < place {
            assert(w[k] == s[k]);
        }
    }
    let rows = after.fed_playlist_tracks@;
    lemma_first_mapped(rows, |r: FedEntry| r@, is_fed_entry(sync_id, id), p);
    assert(rows[place]@ == e);
}

// ---------------------------------------------------------------------------
// Likes
// ---------------------------------------------------------------------------

proof fn lemma_lowest(tracks: Seq<TrackRow>, id: Seq<char>)
    ensures
        lowest_of(tracks, id) matches Some(t) ==> exists|i: int|
            0 <= i < tracks.len() && (#[trigger] tracks[i]).id == t && crate::text::opt_view(
                tracks[i].content_id,
            ) == Some(id),
    decreases tracks.len(),
{
    if tracks.len() > 0 {
        let h = tracks.drop_last();
        lemma_lowest(h, id);
        if let Some(t) = lowest_of(tracks, id) {
            if lowest_of(h, id) == Some(t) {
                let i = choose|i: int|
                    0 <= i < h.len() && (#[trigger] h[i]).id == t && crate::text::opt_view(
                        h[i].content_id,
                    ) == Some(id);
                assert(tracks[i] == h[i]);
            } else {
                assert(tracks[tracks.len() - 1].id == t);
            }
        }
    }
}

/// Toggling a like on and then off again gives the likes back.
pub proof fn law_like_then_unlike(before: Library, liked: Library, content_id: Seq<char>, at: i64)
    requires
        toggled(before, content_id) == Ok::<bool, LikeError>(true),
        liked.tracks == before.tracks,
        liked.fed_likes == before.fed_likes,
        liked.likes@ == before.likes@.push(
            LikeRow {
                track_id: lowest_track(before, canonical(content_id)->0)->0,
                liked_at_ms: at,
                liked_hlc_ms: None,
            },
        ),
    ensures
        toggled(liked, content_id) == Ok::<bool, LikeError>(false),
        liked.likes@.filter(likes_no_content(liked.tracks@, canonical(content_id)->0))
            == before.likes@,
        liked.fed_likes@.filter(fed_lacks_content(canonical(content_id)->0)) == before.fed_likes@,
{
    reveal(Seq::filter);
    let id = canonical(content_id)->0;
    let p = likes_no_content(before.tracks@, id);
    let row = liked.likes@.last();
    lemma_lowest(before.tracks@, id);
    assert(likes_content(before.tracks@, id, row));
    assert(liked.likes@.drop_last() =~= before.likes@);
    lemma_filter_full(before.likes@, p);
    lemma_filter_full(before.fed_likes@, fed_lacks_content(id));
}

proof fn lemma_filter_twice<T>(s: Seq<T>, p: spec_fn(T) -> bool)
    ensures
        s.filter(p).filter(p) == s.filter(p),
{
    let r = s.filter(p);
    assert forall|i: int| 0 <= i < r.len() implies p(#[trigger] r[i]) by {
        s.lemma_filter_pred(p, i);
    }
    lemma_all_stay(r, p);
}

/// A like that was taken back is not there to be taken back again.
pub proof fn law_unlike_is_complete(before: Library, after: Library, content_id: Seq<char>)
    requires
        toggled(before, content_id) == Ok::<bool, LikeError>(false),
        after.tracks == before.tracks,
        after.likes@ == before.likes@.filter(
            likes_no_content(before.tracks@, canonical(content_id)->0),
        ),
        after.fed_likes@ == before.fed_likes@.filter(fed_lacks_content(canonical(content_id)->0)),
    ensures
        toggled(after, content_id) != Ok::<bool, LikeError>(false),
{
    let id = canonical(content_id)->0;
    lemma_filter_twice(before.likes@, likes_no_content(before.tracks@, id));
    lemma_filter_twice(before.fed_likes@, fed_lacks_content(id));
}

/// A like that arrives twice is there once, and it is the one that arrived.
pub proof fn law_synced_like_is_idempotent(s: Seq<LikeRow>, row: LikeRow)
    ensures
        with_like(with_like(s, row), row) == with_like(s, row),
        with_like(s, row).contains(row),
{
    let p = likes_track(row.track_id);
    let w = with_like(s, row);
    lemma_first_where(s, p);
    lemma_first_where(w, p);
    let place = match first_where(s, p) {
        Some(i) => i,
        None => s.len() as int,
    };
    assert(w[place] == row);
    assert(p(w[place]));
    let k = first_where(w, p)->0;
    assert(k == place) by {
        if k < place {
            assert(w[k] == s[k]);
        }
    }
    assert(w.update(place, row) =~= w);
}

/// No two liked tracks of other peers are the same item.
pub open spec fn distinct_items(s: Seq<FedLikeRow>) -> bool {
    forall|i: int, j: int|
        0 <= i < j < s.len() ==> (#[trigger] s[i]).fed.item_id@ != (#[trigger] s[j]).fed.item_id@
}

proof fn lemma_only_like(s: Seq<FedLikeRow>, id: Seq<char>, k: int)
    requires
        0 <= k < s.len(),
        fed_has_content(id)(s[k]),
        forall|i: int| 0 <= i < s.len() && i != k ==> !fed_has_content(id)(#[trigger] s[i]),
    ensures
        latest_fed_like(s, id) == Some(k),
    decreases s.len(),
{
    let h = s.drop_last();
    if k < h.len() {
        assert(h[k] == s[k]);
        assert forall|i: int| 0 <= i < h.len() && i != k implies !fed_has_content(id)(
            #[trigger] h[i],
        ) by {
            assert(h[i] == s[i]);
        }
        lemma_only_like(h, id, k);
        assert(!fed_has_content(id)(s[s.len() - 1]));
    } else {
        assert forall|i: int| 0 <= i < h.len() implies !fed_has_content(id)(#[trigger] h[i]) by {
            assert(h[i] == s[i]);
        }
        lemma_no_like(h, id);
    }
}

proof fn lemma_no_like(s: Seq<FedLikeRow>, id: Seq<char>)
    requires
        forall|i: int| 0 <= i < s.len() ==> !fed_has_content(id)(#[trigger] s[i]),
    ensures
        latest_fed_like(s, id) is None,
    decreases s.len(),
{
    if s.len() > 0 {
        let h = s.drop_last();
        assert forall|i: int| 0 <= i < h.len() implies !fed_has_content(id)(#[trigger] h[i]) by {
            assert(h[i] == s[i]);
        }
        lemma_no_like(h, id);
        assert(!fed_has_content(id)(s[s.len() - 1]));
    }
}

proof fn lemma_items_of_rest(s: Seq<FedLikeRow>, p: spec_fn(FedLikeRow) -> bool)
    requires
        distinct_items(s),
    ensures
        distinct_items(s.filter(p)),
    decreases s.len(),
{
    reveal(Seq::filter);
    if s.len() > 0 {
        let h = s.drop_last();
        assert forall|i: int, j: int| 0 <= i < j < h.len() implies (
        #[trigger] h[i]).fed.item_id@ != (#[trigger] h[j]).fed.item_id@ by {
            assert(h[i] == s[i] && h[j] == s[j]);
        }
        lemma_items_of_rest(h, p);
        let r = s.filter(p);
        assert forall|i: int, j: int| 0 <= i < j < r.len() implies (
        #[trigger] r[i]).fed.item_id@ != (#[trigger] r[j]).fed.item_id@ by {
            if p(s.last()) && j == r.len() - 1 {
                let x = h.filter(p)[i];
                assert(r[i] == x);
                lemma_filter_holds(h, p);
                assert(h.filter(p).contains(x));
                let k = h.index_of(x);
                assert(s[k] == x);
            } else {
                assert(r[i] == h.filter(p)[i] && r[j] == h.filter(p)[j]);
            }
        }
    }
}

/// A synchronised like of another peer's track that changes something is read
/// back as it arrived, whatever was liked under the same content id before.
pub proof fn law_synced_fed_like_is_read_back(
    before: Library,
    after: Library,
    fed: FedTrackView,
    hlc: i64,
)
    requires
        distinct_items(before.fed_likes@),
        canonical_option(fed.content_id) is Some,
        upserts_like(before, after, fed, hlc, true),
    ensures
        found_fed_like(after, fed.content_id->0) == Some(
            stored_view(fed, canonical_option(fed.content_id)),
        ),
{
    let id = canonical_option(fed.content_id)->0;
    let p = fed_no_duplicate(fed.item_id, id);
    let base = before.fed_likes@.filter(p);
    let now = after.fed_likes@;
    lemma_items_of_rest(before.fed_likes@, p);
    lemma_filter_holds(before.fed_likes@, p);
    lemma_first_where(base, fed_is_item(fed.item_id));
    let place = match first_where(base, fed_is_item(fed.item_id)) {
        Some(i) => i,
        None => base.len() as int,
    };
    assert(fed_has_content(id)(now[place]));
    assert forall|i: int| 0 <= i < now.len() && i != place implies !fed_has_content(id)(
        #[trigger] now[i],
    ) by {
        if first_where(base, fed_is_item(fed.item_id)) is None {
            assert(now.drop_last()[i] == base[i]);
        }
        assert(now[i] == base[i]);
        assert(base.contains(base[i]));
        assert(p(base[i]));
        if fed_has_content(id)(base[i]) {
            assert(fed_is_item(fed.item_id)(base[i]));
        }
    }
    lemma_only_like(now, id, place);
}

} // verus!
