//! What holds of playlists and likes as they are changed and as they are shown.

use crate::content_id::{canonical, canonical_option};
use crate::federation::laws::lemma_no_order_is_total;
use crate::federation::track::{FedTrack, FedTrackView};
use crate::library::likes::{
    fed_is_item, fed_is_other_item, fed_lacks_content, fed_unrelated, likes_content,
    likes_no_content, likes_other_track, likes_track, lowest_of, sets_like, toggles_fed_like,
    toggles_like, transfers_like, LikeError,
};
use crate::library::list_laws::{
    law_added_tracks_are_in, law_adding_keeps_the_others, law_removal_takes_what_it_names,
};
use crate::library::listing::track_item;
use crate::library::listing_laws::{lemma_no_case_order, lemma_sorted_has};
use crate::library::models::{PlaylistCard, PlaylistDetail, TrackView};
use crate::library::playlist_view::{
    by_liked, by_place_in_playlist, by_playlist_title, entry_tracks, fed_entries, in_playlist,
    is_shown_fed, liked_fed, liked_local, local_entries, playlist_answer, playlist_card,
    playlist_cards, playlists_answer, shown_fed, by_entry_position, by_fed_place,
};
use crate::library::playlists::{
    adds_local_tracks, adds_peer_tracks, creates_playlist, entries_view, fed_views, holds_content,
    is_entry, is_other_fed_entry, is_other_playlist, is_track_with, keyed_as, lacks_content,
    last_fed_place, last_place, law_new_playlist_id_is_unused, of_other_playlist, place_behind,
    removes_contents, removes_local_tracks, removes_playlist, track_has_content, updates_playlist,
    with_fed_tracks, without_contents, without_fed_contents, FedEntryView,
};
use crate::library::tables::{
    is_playlist, is_track, sync_id_of, FedEntry, Library, LikeRow, PlaylistEntry, PlaylistRow,
    TrackRow,
};
use crate::lists::{
    first_where, law_stable_sort, lemma_all_stay, lemma_filter_full, lemma_filter_holds,
    lemma_first_where, stable_sorted, total_preorder, viewed,
};
use crate::text::{ascii_lowered, opt_view, precedes};
use vstd::prelude::*;

verus! {

// ---------------------------------------------------------------------------
// Making, renaming and deleting
// ---------------------------------------------------------------------------

/// A playlist that is made has an id that no other has, stands under its title,
/// and leaves the others as they are.
pub proof fn law_made_playlist_is_there(
    a: Library,
    b: Library,
    title: Seq<char>,
    now_nanos: u64,
    process: u32,
    r: PlaylistCard,
)
    requires
        creates_playlist(a, b, title, now_nanos, process, r),
    ensures
        exists|k: int|
            0 <= k < b.playlists@.len() && (#[trigger] b.playlists@[k]).id == r.id
                && b.playlists@[k].title@ == title && b.playlists@[k].sync_id is Some,
        forall|k: int| 0 <= k < a.playlists@.len() ==> (#[trigger] a.playlists@[k]).id < r.id,
        forall|k: int|
            0 <= k < a.playlists@.len() ==> b.playlists@.len() > k && #[trigger] b.playlists@[k]
                == a.playlists@[k],
        b.playlist_tracks == a.playlist_tracks,
        b.fed_playlist_tracks == a.fed_playlist_tracks,
{
    let n = a.playlists@.len() as int;
    assert(b.playlists@[n].id == r.id);
    assert forall|k: int| 0 <= k < a.playlists@.len() implies (#[trigger] a.playlists@[k]).id
        < r.id by {
        law_new_playlist_id_is_unused(a.playlists@, k);
    }
    assert forall|k: int| 0 <= k < a.playlists@.len() implies b.playlists@.len() > k
        && #[trigger] b.playlists@[k] == a.playlists@[k] by {
        assert(b.playlists@.drop_last()[k] == a.playlists@[k]);
    }
}

/// A playlist that is renamed has its new title and description, and nothing else
/// changes; an id that no playlist has changes nothing.
pub proof fn law_renamed_playlist_has_its_title(
    a: Library,
    b: Library,
    id: i64,
    title: Seq<char>,
    description: Option<String>,
    k: int,
)
    requires
        updates_playlist(a, b, id, title, description),
        0 <= k < a.playlists@.len(),
        forall|m: int| 0 <= m < k ==> (#[trigger] a.playlists@[m]).id != id,
    ensures
        b.playlists@.len() == a.playlists@.len(),
        b.playlists@[k].id == a.playlists@[k].id,
        b.playlists@[k].sync_id == a.playlists@[k].sync_id,
        a.playlists@[k].id == id ==> b.playlists@[k].title@ == title
            && b.playlists@[k].description == description,
        a.playlists@[k].id != id ==> b.playlists@[k] == a.playlists@[k],
        b.playlist_tracks == a.playlist_tracks,
        b.fed_playlist_tracks == a.fed_playlist_tracks,
{
    lemma_first_where(a.playlists@, is_playlist(id));
    if let Some(i) = first_where(a.playlists@, is_playlist(id)) {
        if i < k {
            assert(a.playlists@[i].id != id);
        }
        if a.playlists@[k].id == id {
            assert(is_playlist(id)(a.playlists@[k]));
        }
    } else {
        assert(!is_playlist(id)(a.playlists@[k]));
    }
}

/// A playlist that is deleted is gone with everything in it; the others stay as
/// they are.
pub proof fn law_deleted_playlist_is_gone(
    a: Library,
    b: Library,
    id: i64,
    p: PlaylistRow,
    e: PlaylistEntry,
)
    requires
        removes_playlist(a, b, id),
    ensures
        b.playlists@.contains(p) <==> a.playlists@.contains(p) && p.id != id,
        (exists|k: int| 0 <= k < a.playlists@.len() && #[trigger] a.playlists@[k].id == id) ==> (
        b.playlist_tracks@.contains(e) <==> a.playlist_tracks@.contains(e) && e.playlist_id != id),
        b.likes == a.likes,
        b.tracks == a.tracks,
{
    lemma_filter_holds(a.playlists@, is_other_playlist(id));
    lemma_filter_holds(a.playlist_tracks@, of_other_playlist(id));
    lemma_first_where(a.playlists@, is_playlist(id));
    if exists|k: int| 0 <= k < a.playlists@.len() && #[trigger] a.playlists@[k].id == id {
        let k = choose|k: int| 0 <= k < a.playlists@.len() && #[trigger] a.playlists@[k].id == id;
        assert(is_playlist(id)(a.playlists@[k]));
    }
}

// ---------------------------------------------------------------------------
// Putting in and taking out
// ---------------------------------------------------------------------------

/// Tracks can be put into a playlist when it and they are there; then each of them
/// is in it, and what was in it keeps its place.
pub proof fn law_tracks_are_put_in(
    a: Library,
    b: Library,
    playlist_id: i64,
    ids: Seq<i64>,
    r: bool,
)
    requires
        adds_local_tracks(a, b, playlist_id, ids, r),
    ensures
        r <==> ids.len() == 0 || ((exists|k: int|
            0 <= k < a.playlists@.len() && #[trigger] a.playlists@[k].id == playlist_id) && forall|
            i: int,
        |
            0 <= i < ids.len() ==> exists|k: int|
                0 <= k < a.tracks@.len() && (#[trigger] a.tracks@[k]).id == #[trigger] ids[i]),
        r ==> forall|i: int|
            0 <= i < ids.len() ==> exists|m: int|
                0 <= m < b.playlist_tracks@.len() && (#[trigger] b.playlist_tracks@[m]).playlist_id
                    == playlist_id && b.playlist_tracks@[m].track_id == #[trigger] ids[i],
        !r ==> b.playlist_tracks@ == a.playlist_tracks@,
        b.playlist_tracks@.len() >= a.playlist_tracks@.len(),
        b.playlist_tracks@.take(a.playlist_tracks@.len() as int) == a.playlist_tracks@,
{
    lemma_first_where(a.playlists@, is_playlist(playlist_id));
    if let Some(k) = first_where(a.playlists@, is_playlist(playlist_id)) {
        assert(a.playlists@[k].id == playlist_id);
    } else {
        assert forall|k: int| 0 <= k < a.playlists@.len() implies #[trigger] a.playlists@[k].id
            != playlist_id by {
            assert(!is_playlist(playlist_id)(a.playlists@[k]));
        }
    }
    assert forall|i: int| 0 <= i < ids.len() implies (first_where(
        a.tracks@,
        is_track(#[trigger] ids[i]),
    ) is Some <==> exists|k: int|
        0 <= k < a.tracks@.len() && (#[trigger] a.tracks@[k]).id == ids[i]) by {
        lemma_first_where(a.tracks@, is_track(ids[i]));
        if let Some(k) = first_where(a.tracks@, is_track(ids[i])) {
            assert(a.tracks@[k].id == ids[i]);
        } else {
            assert forall|k: int| 0 <= k < a.tracks@.len() implies (#[trigger] a.tracks@[k]).id
                != ids[i] by {
                assert(!is_track(ids[i])(a.tracks@[k]));
            }
        }
    }
    if r {
        assert forall|i: int| 0 <= i < ids.len() implies exists|m: int|
            0 <= m < b.playlist_tracks@.len() && (#[trigger] b.playlist_tracks@[m]).playlist_id
                == playlist_id && b.playlist_tracks@[m].track_id == #[trigger] ids[i] by {
            law_added_tracks_are_in(a.playlist_tracks@, playlist_id, ids, i);
            lemma_first_where(b.playlist_tracks@, is_entry(playlist_id, ids[i]));
            let m = first_where(b.playlist_tracks@, is_entry(playlist_id, ids[i]))->0;
            assert(b.playlist_tracks@[m].playlist_id == playlist_id);
        }
    }
    let x = a.playlist_tracks@;
    let y = b.playlist_tracks@;
    if r {
        if x.len() > 0 {
            law_adding_keeps_the_others(x, playlist_id, ids, 0);
        }
        assert forall|m: int| 0 <= m < x.len() implies #[trigger] y[m] == x[m] by {
            law_adding_keeps_the_others(x, playlist_id, ids, m);
        }
    }
    assert(y.take(x.len() as int) =~= x);
}

/// Taking tracks out of a playlist takes out those, and leaves every other entry
/// of this and of any other playlist.
pub proof fn law_tracks_are_taken_out(
    a: Library,
    b: Library,
    playlist_id: i64,
    ids: Seq<i64>,
    e: PlaylistEntry,
)
    requires
        removes_local_tracks(a, b, playlist_id, ids),
    ensures
        b.playlist_tracks@.contains(e) <==> a.playlist_tracks@.contains(e) && !(e.playlist_id
            == playlist_id && exists|i: int| 0 <= i < ids.len() && #[trigger] ids[i] == e.track_id),
        b.tracks == a.tracks,
        b.playlists == a.playlists,
{
    law_removal_takes_what_it_names(a.playlist_tracks@, playlist_id, ids, e);
}

/// Whether the track of an entry has a content id.
pub open spec fn entry_has(tracks: Seq<TrackRow>, e: PlaylistEntry, id: Seq<char>) -> bool {
    exists|k: int|
        0 <= k < tracks.len() && (#[trigger] tracks[k]).id == e.track_id && opt_view(
            tracks[k].content_id,
        ) == Some(id)
}

proof fn lemma_entry_has(tracks: Seq<TrackRow>, e: PlaylistEntry, id: Seq<char>)
    ensures
        track_has_content(tracks, e.track_id, id) <==> entry_has(tracks, e, id),
{
    let p = is_track_with(e.track_id, id);
    lemma_first_where(tracks, p);
    if let Some(k) = first_where(tracks, p) {
        assert(tracks[k].id == e.track_id);
    } else {
        if entry_has(tracks, e, id) {
            let k = choose|k: int|
                0 <= k < tracks.len() && (#[trigger] tracks[k]).id == e.track_id && opt_view(
                    tracks[k].content_id,
                ) == Some(id);
            assert(!p(tracks[k]));
        }
    }
}

/// Whether a content id is one of several texts.
pub open spec fn is_named_in(ids: Seq<Seq<char>>, id: Seq<char>) -> bool {
    exists|i: int| 0 <= i < ids.len() && canonical(#[trigger] ids[i]) == Some(id)
}

proof fn lemma_named_last(ids: Seq<Seq<char>>, id: Seq<char>)
    requires
        ids.len() > 0,
    ensures
        is_named_in(ids, id) <==> is_named_in(ids.drop_last(), id) || canonical(ids.last()) == Some(
            id,
        ),
{
    let h = ids.drop_last();
    if is_named_in(ids, id) {
        let i = choose|i: int| 0 <= i < ids.len() && canonical(#[trigger] ids[i]) == Some(id);
        if i < h.len() {
            assert(h[i] == ids[i]);
        }
    }
    if is_named_in(h, id) {
        let i = choose|i: int| 0 <= i < h.len() && canonical(#[trigger] h[i]) == Some(id);
        assert(ids[i] == h[i]);
    }
    if canonical(ids.last()) == Some(id) {
        assert(ids[ids.len() - 1] == ids.last());
    }
}

proof fn lemma_contents_out(
    tracks: Seq<TrackRow>,
    s: Seq<PlaylistEntry>,
    playlist_id: i64,
    ids: Seq<Seq<char>>,
    e: PlaylistEntry,
)
    ensures
        without_contents(tracks, s, playlist_id, ids).contains(e) <==> s.contains(e) && !(
        e.playlist_id == playlist_id && exists|id: Seq<char>| #[trigger]
            is_named_in(ids, id) && entry_has(tracks, e, id)),
    decreases ids.len(),
{
    if ids.len() > 0 {
        let h = ids.drop_last();
        let before = without_contents(tracks, s, playlist_id, h);
        lemma_contents_out(tracks, s, playlist_id, h, e);
        if let Some(id) = canonical(ids.last()) {
            lemma_filter_holds(before, lacks_content(tracks, playlist_id, id));
            lemma_entry_has(tracks, e, id);
            lemma_named_last(ids, id);
        }
        assert forall|x: Seq<char>| #[trigger] is_named_in(ids, x) implies is_named_in(h, x)
            || canonical(ids.last()) == Some(x) by {
            lemma_named_last(ids, x);
        }
        assert forall|x: Seq<char>| #[trigger] is_named_in(h, x) implies is_named_in(ids, x) by {
            lemma_named_last(ids, x);
        }
    }
}

proof fn lemma_fed_contents_out(
    s: Seq<FedEntry>,
    sync_id: Seq<char>,
    ids: Seq<Seq<char>>,
    e: FedEntry,
)
    ensures
        without_fed_contents(s, sync_id, ids).contains(e) <==> s.contains(e) && !(
        e.playlist_sync_id@ == sync_id && is_named_in(ids, e.content_id@)),
    decreases ids.len(),
{
    if ids.len() > 0 {
        let h = ids.drop_last();
        let before = without_fed_contents(s, sync_id, h);
        lemma_fed_contents_out(s, sync_id, h, e);
        lemma_named_last(ids, e.content_id@);
        if let Some(id) = canonical(ids.last()) {
            lemma_filter_holds(before, is_other_fed_entry(sync_id, id));
        }
    }
}

/// Taking content ids out of a playlist takes out the entries whose track has one
/// of them, local tracks and tracks of other peers alike, and leaves every
/// other entry.
pub proof fn law_contents_are_taken_out(
    a: Library,
    b: Library,
    playlist_id: i64,
    ids: Seq<Seq<char>>,
    e: PlaylistEntry,
    x: FedEntry,
)
    requires
        removes_contents(a, b, playlist_id, ids),
    ensures
        b.playlist_tracks@.contains(e) <==> a.playlist_tracks@.contains(e) && !(e.playlist_id
            == playlist_id && exists|id: Seq<char>| #[trigger]
            is_named_in(ids, id) && entry_has(a.tracks@, e, id)),
        b.fed_playlist_tracks@.contains(x) <==> a.fed_playlist_tracks@.contains(x) && !(sync_id_of(
            a,
            playlist_id,
        ) == Some(x.playlist_sync_id@) && is_named_in(ids, x.content_id@)),
{
    lemma_contents_out(a.tracks@, a.playlist_tracks@, playlist_id, ids, e);
    if let Some(s) = sync_id_of(a, playlist_id) {
        lemma_fed_contents_out(a.fed_playlist_tracks@, s, ids, x);
    }
}

// ---------------------------------------------------------------------------
// Tracks of other peers
// ---------------------------------------------------------------------------

proof fn lemma_last_fed_place(s: Seq<FedEntry>, sync_id: Seq<char>, i: int)
    requires
        0 <= i < s.len(),
        s[i].playlist_sync_id@ == sync_id,
    ensures
        last_fed_place(s, sync_id) is Some,
        s[i].position <= last_fed_place(s, sync_id)->0,
    decreases s.len(),
{
    if i < s.len() - 1 {
        lemma_last_fed_place(s.drop_last(), sync_id, i);
    }
}

proof fn lemma_last_local_place(s: Seq<PlaylistEntry>, playlist_id: i64, i: int)
    requires
        0 <= i < s.len(),
        s[i].playlist_id == playlist_id,
    ensures
        last_place(s, playlist_id) is Some,
        s[i].position <= last_place(s, playlist_id)->0,
    decreases s.len(),
{
    if i < s.len() - 1 {
        lemma_last_local_place(s.drop_last(), playlist_id, i);
    }
}

proof fn lemma_fed_tracks_in(
    s: Seq<FedEntryView>,
    sync_id: Seq<char>,
    first: i64,
    tracks: Seq<FedTrackView>,
)
    ensures
        ({
            let r = with_fed_tracks(s, sync_id, first, tracks);
            &&& r.1 >= first
            &&& s.len() <= r.0.len()
            &&& forall|m: int|
                0 <= m < s.len() ==> (#[trigger] r.0[m]).sync_id == s[m].sync_id
                    && r.0[m].content_id == s[m].content_id && r.0[m].position == s[m].position
            &&& forall|m: int|
                0 <= m < s.len() && s[m].sync_id != sync_id ==> #[trigger] r.0[m] == s[m]
            &&& forall|m: int|
                s.len() <= m < r.0.len() ==> (#[trigger] r.0[m]).sync_id == sync_id
                    && r.0[m].position >= first
            &&& forall|i: int|
                0 <= i < tracks.len() && canonical_option((#[trigger] tracks[i]).content_id) is Some
                    ==> exists|m: int|
                    0 <= m < r.0.len() && (#[trigger] r.0[m]).sync_id == sync_id
                        && r.0[m].content_id == canonical_option(tracks[i].content_id)->0
        }),
    decreases tracks.len(),
{
    if tracks.len() > 0 {
        let h = tracks.drop_last();
        lemma_fed_tracks_in(s, sync_id, first, h);
        let before = with_fed_tracks(s, sync_id, first, h);
        let r = with_fed_tracks(s, sync_id, first, tracks);
        let fed = tracks.last();
        let w = r.0;
        let b = before.0;
        match canonical_option(fed.content_id) {
            None => {
                assert forall|i: int|
                    0 <= i < tracks.len() && canonical_option((#[trigger] tracks[i]).content_id)
                        is Some implies exists|m: int|
                    0 <= m < w.len() && (#[trigger] w[m]).sync_id == sync_id && w[m].content_id
                        == canonical_option(tracks[i].content_id)->0 by {
                    assert(h[i] == tracks[i]);
                }
            },
            Some(id) => {
                lemma_first_where(b, keyed_as(sync_id, id));
                let place = match first_where(b, keyed_as(sync_id, id)) {
                    Some(i) => i,
                    None => b.len() as int,
                };
                assert(w[place].sync_id == sync_id && w[place].content_id == id);
                assert forall|m: int| 0 <= m < b.len() && m != place implies #[trigger] w[m]
                    == b[m] by {}
                assert forall|i: int|
                    0 <= i < tracks.len() && canonical_option((#[trigger] tracks[i]).content_id)
                        is Some implies exists|m: int|
                    0 <= m < w.len() && (#[trigger] w[m]).sync_id == sync_id && w[m].content_id
                        == canonical_option(tracks[i].content_id)->0 by {
                    if i < h.len() {
                        assert(h[i] == tracks[i]);
                        let m = choose|m: int|
                            0 <= m < b.len() && (#[trigger] b[m]).sync_id == sync_id
                                && b[m].content_id == canonical_option(h[i].content_id)->0;
                        assert(w[m].content_id == b[m].content_id);
                    } else {
                        assert(w[place].content_id == id);
                    }
                }
            },
        }
    }
}

/// Tracks of other peers that are put into a playlist are in it, each that has a
/// content id; what was in the playlist keeps its place, and the new ones stand
/// behind it. Other playlists stay as they are.
pub proof fn law_peer_tracks_are_put_in(
    a: Library,
    b: Library,
    playlist_id: i64,
    tracks: Seq<FedTrack>,
    now_nanos: u64,
    process: u32,
    r: bool,
)
    requires
        adds_peer_tracks(a, b, playlist_id, tracks, now_nanos, process, r),
        tracks.len() > 0,
    ensures
        r <==> exists|k: int| 0 <= k < a.playlists@.len() && #[trigger] a.playlists@[k].id == playlist_id,
        !r ==> b == a,
        r ==> exists|sync_id: Seq<char>|
            {
                &&& #[trigger] is_known_as(b.playlists@, playlist_id, sync_id)
                &&& forall|i: int|
                    0 <= i < tracks.len() && canonical_option((#[trigger] tracks[i])@.content_id)
                        is Some ==> #[trigger] fed_holds(
                        b.fed_playlist_tracks@,
                        sync_id,
                        canonical_option(tracks[i]@.content_id)->0,
                    )
                &&& forall|m: int, n: int|
                    0 <= m < a.fed_playlist_tracks@.len() <= n < b.fed_playlist_tracks@.len() && (
                    #[trigger] a.fed_playlist_tracks@[m]).playlist_sync_id@ == sync_id
                        && a.fed_playlist_tracks@[m].position < i64::MAX
                        ==> a.fed_playlist_tracks@[m].position < (
                    #[trigger] b.fed_playlist_tracks@[n]).position
                &&& forall|m: int, n: int|
                    0 <= m < a.playlist_tracks@.len() && a.fed_playlist_tracks@.len() <= n
                        < b.fed_playlist_tracks@.len() && (#[trigger] a.playlist_tracks@[m]).playlist_id
                        == playlist_id && a.playlist_tracks@[m].position < i64::MAX
                        ==> a.playlist_tracks@[m].position < (
                    #[trigger] b.fed_playlist_tracks@[n]).position
            },
        forall|m: int|
            0 <= m < a.fed_playlist_tracks@.len() ==> b.fed_playlist_tracks@.len() > m && (
            #[trigger] b.fed_playlist_tracks@[m]).position == a.fed_playlist_tracks@[m].position,
{
    lemma_first_where(a.playlists@, is_playlist(playlist_id));
    match first_where(a.playlists@, is_playlist(playlist_id)) {
        None => {
            assert forall|k: int| 0 <= k < a.playlists@.len() implies #[trigger] a.playlists@[k].id
                != playlist_id by {
                assert(!is_playlist(playlist_id)(a.playlists@[k]));
            }
        },
        Some(k) => {
            assert(a.playlists@[k].id == playlist_id);
            let sync_id = opt_view(b.playlists@[k].sync_id)->0;
            let x = entries_view(a.fed_playlist_tracks@);
            let y = entries_view(b.fed_playlist_tracks@);
            let far = crate::library::playlists::later_place(
                last_place(a.playlist_tracks@, playlist_id),
                last_fed_place(a.fed_playlist_tracks@, sync_id),
            );
            let first = place_behind(Some(far));
            lemma_fed_tracks_in(x, sync_id, first, fed_views(tracks));
            assert(x.len() == a.fed_playlist_tracks@.len());
            assert(y.len() == b.fed_playlist_tracks@.len());
            assert(b.playlists@[k].id == playlist_id);
            assert(is_known_as(b.playlists@, playlist_id, sync_id));
            assert forall|i: int|
                0 <= i < tracks.len() && canonical_option((#[trigger] tracks[i])@.content_id)
                    is Some implies #[trigger] fed_holds(
                b.fed_playlist_tracks@,
                sync_id,
                canonical_option(tracks[i]@.content_id)->0,
            ) by {
                assert(fed_views(tracks)[i] == tracks[i]@);
                let m = choose|m: int|
                    0 <= m < y.len() && (#[trigger] y[m]).sync_id == sync_id && y[m].content_id
                        == canonical_option(tracks[i]@.content_id)->0;
                assert(y[m] == b.fed_playlist_tracks@[m]@);
                assert(b.fed_playlist_tracks@[m].playlist_sync_id@ == sync_id);
            }
            assert forall|m: int, n: int|
                0 <= m < a.fed_playlist_tracks@.len() <= n < b.fed_playlist_tracks@.len() && (
                #[trigger] a.fed_playlist_tracks@[m]).playlist_sync_id@ == sync_id
                    && a.fed_playlist_tracks@[m].position
                    < i64::MAX implies a.fed_playlist_tracks@[m].position < (
            #[trigger] b.fed_playlist_tracks@[n]).position by {
                lemma_last_fed_place(a.fed_playlist_tracks@, sync_id, m);
                assert(y[n] == b.fed_playlist_tracks@[n]@);
                assert(y[n].position >= first);
            }
            assert forall|m: int, n: int|
                0 <= m < a.playlist_tracks@.len() && a.fed_playlist_tracks@.len() <= n
                    < b.fed_playlist_tracks@.len() && (#[trigger] a.playlist_tracks@[m]).playlist_id
                    == playlist_id && a.playlist_tracks@[m].position
                    < i64::MAX implies a.playlist_tracks@[m].position < (
            #[trigger] b.fed_playlist_tracks@[n]).position by {
                lemma_last_local_place(a.playlist_tracks@, playlist_id, m);
                assert(y[n] == b.fed_playlist_tracks@[n]@);
                assert(y[n].position >= first);
            }
            assert forall|m: int| 0 <= m < a.fed_playlist_tracks@.len() implies b.fed_playlist_tracks@.len()
                > m && (#[trigger] b.fed_playlist_tracks@[m]).position
                == a.fed_playlist_tracks@[m].position by {
                assert(x[m] == a.fed_playlist_tracks@[m]@);
                assert(y[m] == b.fed_playlist_tracks@[m]@);
            }
        },
    }
}

/// Whether a playlist has an id on every device.
pub open spec fn is_known_as(s: Seq<PlaylistRow>, id: i64, sync_id: Seq<char>) -> bool {
    exists|k: int|
        0 <= k < s.len() && (#[trigger] s[k]).id == id && opt_view(s[k].sync_id) == Some(sync_id)
}

/// Whether another peer's track with a content id is in a playlist.
pub open spec fn fed_holds(s: Seq<FedEntry>, sync_id: Seq<char>, id: Seq<char>) -> bool {
    exists|m: int|
        0 <= m < s.len() && (#[trigger] s[m]).playlist_sync_id@ == sync_id && s[m].content_id@ == id
}

// ---------------------------------------------------------------------------
// The list of playlists
// ---------------------------------------------------------------------------

/// The playlists are listed behind the one of the liked tracks, which counts all
/// that is liked: each playlist once, under its title and by title.
pub proof fn law_every_playlist_is_listed(lib: Library, r: Seq<PlaylistCard>)
    requires
        playlists_answer(lib, r),
    ensures
        r.len() == lib.playlists@.len() + 1,
        r[0].id == -1,
        r[0].track_count == lib.likes@.len() + lib.fed_likes@.len(),
        forall|k: int|
            0 <= k < lib.playlists@.len() ==> exists|i: int|
                1 <= i < r.len() && (#[trigger] r[i]).id == (#[trigger] lib.playlists@[k]).id
                    && r[i].title@ == lib.playlists@[k].title@,
        forall|i: int|
            1 <= i < r.len() ==> exists|k: int|
                0 <= k < lib.playlists@.len() && (#[trigger] r[i]).id == (
                #[trigger] lib.playlists@[k]).id && r[i].title@ == lib.playlists@[k].title@,
        forall|i: int, j: int|
            1 <= i < j < r.len() ==> !precedes(
                ascii_lowered((#[trigger] r[j]).title@),
                ascii_lowered((#[trigger] r[i]).title@),
            ),
{
    let leq = by_playlist_title();
    assert forall|a: PlaylistRow, b: PlaylistRow| #[trigger] leq(a, b) || leq(b, a) by {
        lemma_no_case_order(a.title@, b.title@, b.title@);
    }
    assert forall|a: PlaylistRow, b: PlaylistRow, c: PlaylistRow| #[trigger]
        leq(a, b) && #[trigger] leq(b, c) implies leq(a, c) by {
        lemma_no_case_order(a.title@, b.title@, c.title@);
    }
    law_stable_sort(lib.playlists@, leq);
    lemma_sorted_has(lib.playlists@, leq);
    let rows = stable_sorted(lib.playlists@, leq);
    let v = viewed(r);
    assert(v.len() == r.len());
    assert(v.len() == rows.len() + 1);
    assert(v[0] == r[0]@);
    assert forall|i: int| 1 <= i < r.len() implies (#[trigger] r[i])@ == playlist_card(
        lib,
        rows[i - 1],
    ) by {
        assert(v[i] == r[i]@);
        assert(v[i] == playlist_cards(lib, rows)[i - 1]);
    }
    assert forall|k: int| 0 <= k < lib.playlists@.len() implies exists|i: int|
        1 <= i < r.len() && (#[trigger] r[i]).id == (#[trigger] lib.playlists@[k]).id
            && r[i].title@ == lib.playlists@[k].title@ by {
        let p = lib.playlists@[k];
        assert(lib.playlists@.contains(p));
        assert(rows.contains(p));
        let i = rows.index_of(p) + 1;
        assert(r[i]@ == playlist_card(lib, rows[i - 1]));
    }
    assert forall|i: int| 1 <= i < r.len() implies exists|k: int|
        0 <= k < lib.playlists@.len() && (#[trigger] r[i]).id == (#[trigger] lib.playlists@[k]).id
            && r[i].title@ == lib.playlists@[k].title@ by {
        let p = rows[i - 1];
        assert(rows.contains(p));
        let k = lib.playlists@.index_of(p);
        assert(lib.playlists@[k] == p);
        assert(r[i]@ == playlist_card(lib, p));
    }
    assert forall|i: int, j: int| 1 <= i < j < r.len() implies !precedes(
        ascii_lowered((#[trigger] r[j]).title@),
        ascii_lowered((#[trigger] r[i]).title@),
    ) by {
        assert(leq(rows[i - 1], rows[j - 1]));
        assert(r[i]@ == playlist_card(lib, rows[i - 1]));
        assert(r[j]@ == playlist_card(lib, rows[j - 1]));
    }
}

// ---------------------------------------------------------------------------
// One playlist
// ---------------------------------------------------------------------------

proof fn lemma_place_order()
    ensures
        total_preorder(by_place_in_playlist()),
{
    let leq = by_place_in_playlist();
    assert forall|a: (i64, TrackView), b: (i64, TrackView)| #[trigger] leq(a, b) || leq(b, a) by {
        lemma_no_order_is_total(a.1.title, b.1.title, a.1.title);
    }
    assert forall|a: (i64, TrackView), b: (i64, TrackView), c: (i64, TrackView)| #[trigger]
        leq(a, b) && #[trigger] leq(b, c) implies leq(a, c) by {
        lemma_no_order_is_total(a.1.title, b.1.title, c.1.title);
    }
}

proof fn lemma_liked_order()
    ensures
        total_preorder(by_liked()),
{
    let leq = by_liked();
    assert forall|a: (i64, TrackView), b: (i64, TrackView)| #[trigger] leq(a, b) || leq(b, a) by {
        lemma_no_order_is_total(a.1.title, b.1.title, a.1.title);
    }
    assert forall|a: (i64, TrackView), b: (i64, TrackView), c: (i64, TrackView)| #[trigger]
        leq(a, b) && #[trigger] leq(b, c) implies leq(a, c) by {
        lemma_no_order_is_total(a.1.title, b.1.title, c.1.title);
    }
}

/// Whether a local track stands in a playlist at a position.
pub open spec fn stands_at(lib: Library, id: i64, track_id: i64, position: i64) -> bool {
    exists|m: int|
        0 <= m < lib.playlist_tracks@.len() && (#[trigger] lib.playlist_tracks@[m]).playlist_id
            == id && lib.playlist_tracks@[m].track_id == track_id && lib.playlist_tracks@[m].position
            == position
}

proof fn lemma_local_entries(lib: Library, rows: Seq<PlaylistEntry>)
    ensures
        forall|i: int|
            0 <= i < local_entries(lib, rows).len() ==> exists|m: int|
                0 <= m < rows.len() && (#[trigger] rows[m]).track_id == (
                #[trigger] local_entries(lib, rows)[i]).1.id && rows[m].position == local_entries(
                    lib,
                    rows,
                )[i].0 && local_entries(lib, rows)[i].1.fed is None,
        forall|m: int|
            0 <= m < rows.len() && is_listable(lib, (#[trigger] rows[m]).track_id) ==> exists|i: int|
                0 <= i < local_entries(lib, rows).len() && (
                #[trigger] local_entries(lib, rows)[i]).1.id == rows[m].track_id && local_entries(
                    lib,
                    rows,
                )[i].0 == rows[m].position,
    decreases rows.len(),
{
    let all = local_entries(lib, rows);
    if rows.len() > 0 {
        let h = rows.drop_last();
        let n = rows.len() - 1;
        let before = local_entries(lib, h);
        lemma_local_entries(lib, h);
        lemma_first_where(lib.tracks@, is_track(rows.last().track_id));
        assert forall|i: int| 0 <= i < before.len() implies #[trigger] all[i] == before[i] by {}
        assert forall|i: int| 0 <= i < all.len() implies exists|m: int|
            0 <= m < rows.len() && (#[trigger] rows[m]).track_id == (#[trigger] all[i]).1.id
                && rows[m].position == all[i].0 && all[i].1.fed is None by {
            if i < before.len() {
                assert(all[i] == before[i]);
                let m = choose|m: int|
                    0 <= m < h.len() && (#[trigger] h[m]).track_id == before[i].1.id
                        && h[m].position == before[i].0 && before[i].1.fed is None;
                assert(rows[m] == h[m]);
            } else {
                assert(rows[n].track_id == all[i].1.id);
            }
        }
        assert forall|m: int|
            0 <= m < rows.len() && is_listable(lib, (#[trigger] rows[m]).track_id) implies exists|
            i: int,
        |
            0 <= i < all.len() && (#[trigger] all[i]).1.id == rows[m].track_id && all[i].0
                == rows[m].position by {
            if m < n {
                assert(rows[m] == h[m]);
                assert(is_listable(lib, h[m].track_id));
                let i = choose|i: int|
                    0 <= i < before.len() && (#[trigger] before[i]).1.id == h[m].track_id
                        && before[i].0 == h[m].position;
                assert(all[i] == before[i]);
            } else {
                lemma_listable(lib, rows[m].track_id);
                assert(all[before.len() as int].1.id == rows[m].track_id);
            }
        }
    }
}

/// Whether there is a track with an id, and a release for every such track.
pub open spec fn is_listable(lib: Library, track_id: i64) -> bool {
    &&& exists|k: int| 0 <= k < lib.tracks@.len() && #[trigger] lib.tracks@[k].id == track_id
    &&& forall|k: int|
        0 <= k < lib.tracks@.len() && (#[trigger] lib.tracks@[k]).id == track_id ==> exists|j: int|
            0 <= j < lib.releases@.len() && (#[trigger] lib.releases@[j]).id
                == lib.tracks@[k].release_id
}

proof fn lemma_listable(lib: Library, track_id: i64)
    requires
        is_listable(lib, track_id),
    ensures
        first_where(lib.tracks@, is_track(track_id)) matches Some(i) && track_item(
            lib,
            lib.tracks@[i],
        ) is Some,
{
    lemma_first_where(lib.tracks@, is_track(track_id));
    let k = choose|k: int| 0 <= k < lib.tracks@.len() && #[trigger] lib.tracks@[k].id == track_id;
    assert(is_track(track_id)(lib.tracks@[k]));
    let i = first_where(lib.tracks@, is_track(track_id))->0;
    assert(lib.tracks@[i].id == track_id);
    let j = choose|j: int|
        0 <= j < lib.releases@.len() && (#[trigger] lib.releases@[j]).id
            == lib.tracks@[i].release_id;
    let p = crate::library::edit::row_is_release(lib.tracks@[i].release_id);
    lemma_first_where(lib.releases@, p);
    assert(p(lib.releases@[j]));
}

/// A playlist is shown in its order: its tracks stand by their positions, each
/// local one is an entry of the playlist, and every entry whose track can be
/// listed is shown.
pub proof fn law_playlist_is_shown_in_order(
    lib: Library,
    id: i64,
    next_pending_id: i64,
    r: Result<PlaylistDetail, String>,
) -> (positions: Seq<i64>)
    requires
        playlist_answer(lib, id, next_pending_id, r),
        id != -1,
        r is Ok,
    ensures
        positions.len() == r->Ok_0.tracks@.len(),
        forall|i: int, j: int|
            0 <= i < j < positions.len() ==> #[trigger] positions[i] <= #[trigger] positions[j],
        forall|i: int|
            0 <= i < positions.len() && (#[trigger] r->Ok_0.tracks@[i]).fed is None ==> stands_at(
                lib,
                id,
                r->Ok_0.tracks@[i].id,
                positions[i],
            ),
        forall|m: int|
            0 <= m < lib.playlist_tracks@.len() && (#[trigger] lib.playlist_tracks@[m]).playlist_id
                == id && is_listable(lib, lib.playlist_tracks@[m].track_id) ==> exists|i: int|
                0 <= i < positions.len() && (#[trigger] r->Ok_0.tracks@[i]).id
                    == lib.playlist_tracks@[m].track_id && positions[i]
                    == lib.playlist_tracks@[m].position,
        forall|x: FedEntry|
            #[trigger] lib.fed_playlist_tracks@.contains(x) && sync_id_of(lib, id) == Some(
                x.playlist_sync_id@,
            ) && (forall|m: int|
                0 <= m < lib.playlist_tracks@.len() && (
                #[trigger] lib.playlist_tracks@[m]).playlist_id == id ==> !entry_has(
                    lib.tracks@,
                    lib.playlist_tracks@[m],
                    x.content_id@,
                )) ==> exists|i: int|
                0 <= i < positions.len() && (#[trigger] r->Ok_0.tracks@[i]).title@ == x.fed.title@
                    && r->Ok_0.tracks@[i].fed is Some && positions[i] == x.position,
{
    let d = r->Ok_0;
    let p = in_playlist(id);
    let rows = stable_sorted(lib.playlist_tracks@.filter(p), by_entry_position());
    let local = local_entries(lib, rows);
    let fed = match sync_id_of(lib, id) {
        Some(s) => fed_entries(shown_fed(lib, id, s), next_pending_id as int),
        None => Seq::empty(),
    };
    let both = local + fed;
    let leq = by_place_in_playlist();
    let sorted = stable_sorted(both, leq);
    lemma_place_order();
    law_stable_sort(both, leq);
    lemma_sorted_has(both, leq);
    lemma_local_entries(lib, rows);
    lemma_filter_holds(lib.playlist_tracks@, p);
    lemma_sorted_has(lib.playlist_tracks@.filter(p), by_entry_position());
    let positions = sorted.map_values(|e: (i64, TrackView)| e.0);
    let v = viewed(d.tracks@);
    assert(v == entry_tracks(sorted));
    assert(v.len() == d.tracks@.len() && v.len() == sorted.len());
    assert forall|i: int| 0 <= i < positions.len() implies (#[trigger] d.tracks@[i])@
        == sorted[i].1 && positions[i] == sorted[i].0 by {
        assert(v[i] == d.tracks@[i]@);
    }
    assert forall|i: int, j: int| 0 <= i < j < positions.len() implies #[trigger] positions[i]
        <= #[trigger] positions[j] by {
        assert(leq(sorted[i], sorted[j]));
    }
    assert forall|i: int|
        0 <= i < positions.len() && (#[trigger] d.tracks@[i]).fed is None implies stands_at(
        lib,
        id,
        d.tracks@[i].id,
        positions[i],
    ) by {
        assert(d.tracks@[i]@ == sorted[i].1);
        assert(sorted.contains(sorted[i]));
        let k = both.index_of(sorted[i]);
        if k < local.len() {
            assert(local[k] == sorted[i]);
            let m = choose|m: int|
                0 <= m < rows.len() && (#[trigger] rows[m]).track_id == local[k].1.id
                    && rows[m].position == local[k].0 && local[k].1.fed is None;
            let e = rows[m];
            assert(rows.contains(e));
            assert(lib.playlist_tracks@.filter(p).contains(e));
            let q = lib.playlist_tracks@.index_of(e);
            assert(lib.playlist_tracks@[q] == e);
        } else {
            assert(fed[k - local.len()] == sorted[i]);
        }
    }
    assert forall|m: int|
        0 <= m < lib.playlist_tracks@.len() && (#[trigger] lib.playlist_tracks@[m]).playlist_id
            == id && is_listable(lib, lib.playlist_tracks@[m].track_id) implies exists|i: int|
        0 <= i < positions.len() && (#[trigger] d.tracks@[i]).id == lib.playlist_tracks@[m].track_id
            && positions[i] == lib.playlist_tracks@[m].position by {
        let e = lib.playlist_tracks@[m];
        assert(lib.playlist_tracks@.contains(e));
        assert(lib.playlist_tracks@.filter(p).contains(e));
        assert(rows.contains(e));
        let q = rows.index_of(e);
        assert(is_listable(lib, rows[q].track_id));
        let k = choose|k: int|
            0 <= k < local.len() && (#[trigger] local[k]).1.id == rows[q].track_id && local[k].0
                == rows[q].position;
        assert(both[k] == local[k]);
        assert(both.contains(local[k]));
        assert(sorted.contains(local[k]));
        let i = sorted.index_of(local[k]);
        assert(d.tracks@[i]@ == sorted[i].1);
    }
    assert forall|x: FedEntry|
        #[trigger] lib.fed_playlist_tracks@.contains(x) && sync_id_of(lib, id) == Some(
            x.playlist_sync_id@,
        ) && (forall|m: int|
            0 <= m < lib.playlist_tracks@.len() && (#[trigger] lib.playlist_tracks@[m]).playlist_id
                == id ==> !entry_has(lib.tracks@, lib.playlist_tracks@[m], x.content_id@)) implies exists|
        i: int,
    |
        0 <= i < positions.len() && (#[trigger] d.tracks@[i]).title@ == x.fed.title@
            && d.tracks@[i].fed is Some && positions[i] == x.position by {
        let s = x.playlist_sync_id@;
        let f = is_shown_fed(lib, id, s);
        let g = holds_content(lib, id, x.content_id@);
        lemma_first_where(lib.playlist_tracks@, g);
        assert(first_where(lib.playlist_tracks@, g) is None) by {
            if let Some(m) = first_where(lib.playlist_tracks@, g) {
                assert(g(lib.playlist_tracks@[m]));
                lemma_entry_has(lib.tracks@, lib.playlist_tracks@[m], x.content_id@);
            }
        }
        assert(f(x));
        lemma_filter_holds(lib.fed_playlist_tracks@, f);
        lemma_sorted_has(lib.fed_playlist_tracks@.filter(f), by_fed_place());
        let shown = shown_fed(lib, id, s);
        assert(shown.contains(x));
        let k = shown.index_of(x);
        assert(fed[k].0 == x.position);
        assert(both[local.len() + k] == fed[k]);
        assert(both.contains(fed[k]));
        assert(sorted.contains(fed[k]));
        let i = sorted.index_of(fed[k]);
        assert(d.tracks@[i]@ == sorted[i].1);
        assert(d.tracks@[i]@.fed is Some);
    }
    positions
}

/// When a like was made, by its clock where there is one.
pub open spec fn time_of(hlc: Option<i64>, at: i64) -> i64 {
    if hlc is Some {
        hlc->0
    } else {
        at
    }
}

proof fn lemma_liked_local(lib: Library, rows: Seq<TrackRow>)
    ensures
        forall|i: int|
            0 <= i < liked_local(lib, rows).len() ==> (#[trigger] liked_local(lib, rows)[i]).1.fed
                is None && exists|m: int|
                0 <= m < lib.likes@.len() && (#[trigger] lib.likes@[m]).track_id == liked_local(
                    lib,
                    rows,
                )[i].1.id && time_of(lib.likes@[m].liked_hlc_ms, lib.likes@[m].liked_at_ms)
                    == liked_local(lib, rows)[i].0,
        forall|k: int|
            0 <= k < rows.len() && track_item(lib, #[trigger] rows[k]) is Some && (exists|m: int|
                0 <= m < lib.likes@.len() && (#[trigger] lib.likes@[m]).track_id == rows[k].id)
                ==> exists|i: int|
                0 <= i < liked_local(lib, rows).len() && (#[trigger] liked_local(lib, rows)[i]).1.id
                    == rows[k].id,
    decreases rows.len(),
{
    let all = liked_local(lib, rows);
    if rows.len() > 0 {
        let h = rows.drop_last();
        let n = rows.len() - 1;
        let before = liked_local(lib, h);
        lemma_liked_local(lib, h);
        lemma_first_where(lib.likes@, likes_track(rows.last().id));
        assert forall|i: int| 0 <= i < before.len() implies #[trigger] all[i] == before[i] by {}
        assert forall|i: int| 0 <= i < all.len() implies (#[trigger] all[i]).1.fed is None
            && exists|m: int|
            0 <= m < lib.likes@.len() && (#[trigger] lib.likes@[m]).track_id == all[i].1.id
                && time_of(lib.likes@[m].liked_hlc_ms, lib.likes@[m].liked_at_ms) == all[i].0 by {
            if i < before.len() {
                assert(all[i] == before[i]);
            } else {
                let m = first_where(lib.likes@, likes_track(rows.last().id))->0;
                assert(lib.likes@[m].track_id == all[i].1.id);
            }
        }
        assert forall|k: int|
            0 <= k < rows.len() && track_item(lib, #[trigger] rows[k]) is Some && (exists|m: int|
                0 <= m < lib.likes@.len() && (#[trigger] lib.likes@[m]).track_id == rows[k].id)
            implies exists|i: int|
            0 <= i < all.len() && (#[trigger] all[i]).1.id == rows[k].id by {
            if k < n {
                assert(rows[k] == h[k]);
                let i = choose|i: int|
                    0 <= i < before.len() && (#[trigger] before[i]).1.id == h[k].id;
                assert(all[i] == before[i]);
            } else {
                let m = choose|m: int|
                    0 <= m < lib.likes@.len() && (#[trigger] lib.likes@[m]).track_id == rows[k].id;
                assert(likes_track(rows[k].id)(lib.likes@[m]));
                assert(all[before.len() as int].1.id == rows[k].id);
            }
        }
    }
}

/// The liked tracks are shown with what was liked last first; each local one is
/// liked, and every liked one that can be listed is shown, and so is every
/// liked track of another peer.
pub proof fn law_liked_tracks_are_newest_first(
    lib: Library,
    next_pending_id: i64,
    r: Result<PlaylistDetail, String>,
) -> (times: Seq<i64>)
    requires
        playlist_answer(lib, -1i64, next_pending_id, r),
    ensures
        r is Ok,
        times.len() == r->Ok_0.tracks@.len(),
        forall|i: int, j: int|
            0 <= i < j < times.len() ==> #[trigger] times[i] >= #[trigger] times[j],
        forall|i: int|
            0 <= i < times.len() && (#[trigger] r->Ok_0.tracks@[i]).fed is None ==> exists|m: int|
                0 <= m < lib.likes@.len() && (#[trigger] lib.likes@[m]).track_id
                    == r->Ok_0.tracks@[i].id && time_of(
                    lib.likes@[m].liked_hlc_ms,
                    lib.likes@[m].liked_at_ms,
                ) == times[i],
        forall|k: int|
            0 <= k < lib.tracks@.len() && track_item(lib, #[trigger] lib.tracks@[k]) is Some && (
            exists|m: int|
                0 <= m < lib.likes@.len() && (#[trigger] lib.likes@[m]).track_id
                    == lib.tracks@[k].id) ==> exists|i: int|
                0 <= i < times.len() && (#[trigger] r->Ok_0.tracks@[i]).id == lib.tracks@[k].id,
        forall|m: int|
            0 <= m < lib.fed_likes@.len() ==> exists|i: int|
                0 <= i < times.len() && (#[trigger] r->Ok_0.tracks@[i]).title@ == (
                #[trigger] lib.fed_likes@[m]).fed.title@ && r->Ok_0.tracks@[i].fed is Some
                    && times[i] == time_of(
                    lib.fed_likes@[m].liked_hlc_ms,
                    lib.fed_likes@[m].liked_at_ms,
                ),
{
    let d = r->Ok_0;
    let local = liked_local(lib, lib.tracks@);
    let fed = liked_fed(lib.fed_likes@, next_pending_id as int);
    let both = local + fed;
    let leq = by_liked();
    let sorted = stable_sorted(both, leq);
    lemma_liked_order();
    law_stable_sort(both, leq);
    lemma_sorted_has(both, leq);
    lemma_liked_local(lib, lib.tracks@);
    let times = sorted.map_values(|e: (i64, TrackView)| e.0);
    let v = viewed(d.tracks@);
    assert(v == entry_tracks(sorted));
    assert(v.len() == d.tracks@.len() && v.len() == sorted.len());
    assert forall|i: int| 0 <= i < times.len() implies (#[trigger] d.tracks@[i])@ == sorted[i].1
        && times[i] == sorted[i].0 by {
        assert(v[i] == d.tracks@[i]@);
    }
    assert forall|i: int, j: int| 0 <= i < j < times.len() implies #[trigger] times[i]
        >= #[trigger] times[j] by {
        assert(leq(sorted[i], sorted[j]));
    }
    assert forall|i: int| 0 <= i < times.len() && (#[trigger] d.tracks@[i]).fed is None implies exists|
        m: int,
    |
        0 <= m < lib.likes@.len() && (#[trigger] lib.likes@[m]).track_id == d.tracks@[i].id
            && time_of(lib.likes@[m].liked_hlc_ms, lib.likes@[m].liked_at_ms) == times[i] by {
        assert(d.tracks@[i]@ == sorted[i].1);
        assert(sorted.contains(sorted[i]));
        let k = both.index_of(sorted[i]);
        if k < local.len() {
            assert(local[k] == sorted[i]);
        } else {
            assert(fed[k - local.len()] == sorted[i]);
        }
    }
    assert forall|k: int|
        0 <= k < lib.tracks@.len() && track_item(lib, #[trigger] lib.tracks@[k]) is Some && (exists|
            m: int,
        |
            0 <= m < lib.likes@.len() && (#[trigger] lib.likes@[m]).track_id == lib.tracks@[k].id)
        implies exists|i: int|
        0 <= i < times.len() && (#[trigger] d.tracks@[i]).id == lib.tracks@[k].id by {
        let q = choose|q: int| 0 <= q < local.len() && (#[trigger] local[q]).1.id == lib.tracks@[k].id;
        assert(both[q] == local[q]);
        assert(both.contains(local[q]));
        assert(sorted.contains(local[q]));
        let i = sorted.index_of(local[q]);
        assert(d.tracks@[i]@ == sorted[i].1);
    }
    assert forall|m: int| 0 <= m < lib.fed_likes@.len() implies exists|i: int|
        0 <= i < times.len() && (#[trigger] d.tracks@[i]).title@ == (
        #[trigger] lib.fed_likes@[m]).fed.title@ && d.tracks@[i].fed is Some && times[i] == time_of(
            lib.fed_likes@[m].liked_hlc_ms,
            lib.fed_likes@[m].liked_at_ms,
        ) by {
        assert(both[local.len() + m] == fed[m]);
        assert(both.contains(fed[m]));
        assert(sorted.contains(fed[m]));
        let i = sorted.index_of(fed[m]);
        assert(d.tracks@[i]@ == sorted[i].1);
        assert(d.tracks@[i]@.fed is Some);
    }
    times
}

// ---------------------------------------------------------------------------
// Likes
// ---------------------------------------------------------------------------

/// Whether a content id is liked: as a local track, or as another peer's.
pub open spec fn is_liked(lib: Library, id: Seq<char>) -> bool {
    ||| exists|m: int, k: int|
        0 <= m < lib.likes@.len() && 0 <= k < lib.tracks@.len() && (
        #[trigger] lib.likes@[m]).track_id == (#[trigger] lib.tracks@[k]).id && opt_view(
            lib.tracks@[k].content_id,
        ) == Some(id)
    ||| exists|m: int|
        0 <= m < lib.fed_likes@.len() && opt_view((#[trigger] lib.fed_likes@[m]).fed.content_id)
            == Some(id)
}

proof fn lemma_is_liked(lib: Library, id: Seq<char>)
    ensures
        is_liked(lib, id) <==> lib.likes@.filter(likes_no_content(lib.tracks@, id)).len()
            < lib.likes@.len() || lib.fed_likes@.filter(fed_lacks_content(id)).len()
            < lib.fed_likes@.len(),
{
    let p = likes_no_content(lib.tracks@, id);
    let q = fed_lacks_content(id);
    lib.likes@.lemma_filter_len(p);
    lib.fed_likes@.lemma_filter_len(q);
    lemma_filter_holds(lib.likes@, p);
    lemma_filter_holds(lib.fed_likes@, q);
    if is_liked(lib, id) {
        if exists|m: int, k: int|
            0 <= m < lib.likes@.len() && 0 <= k < lib.tracks@.len() && (
            #[trigger] lib.likes@[m]).track_id == (#[trigger] lib.tracks@[k]).id && opt_view(
                lib.tracks@[k].content_id,
            ) == Some(id) {
            let (m, k) = choose|m: int, k: int|
                0 <= m < lib.likes@.len() && 0 <= k < lib.tracks@.len() && (
                #[trigger] lib.likes@[m]).track_id == (#[trigger] lib.tracks@[k]).id && opt_view(
                    lib.tracks@[k].content_id,
                ) == Some(id);
            if lib.likes@.filter(p).len() >= lib.likes@.len() {
                lemma_filter_full(lib.likes@, p);
                assert(lib.likes@.contains(lib.likes@[m]));
                assert(p(lib.likes@[m]));
                assert(likes_content(lib.tracks@, id, lib.likes@[m]));
            }
        } else {
            let m = choose|m: int|
                0 <= m < lib.fed_likes@.len() && opt_view(
                    (#[trigger] lib.fed_likes@[m]).fed.content_id,
                ) == Some(id);
            if lib.fed_likes@.filter(q).len() >= lib.fed_likes@.len() {
                lemma_filter_full(lib.fed_likes@, q);
                assert(lib.fed_likes@.contains(lib.fed_likes@[m]));
                assert(q(lib.fed_likes@[m]));
            }
        }
    } else {
        assert forall|m: int| 0 <= m < lib.likes@.len() implies p(#[trigger] lib.likes@[m]) by {
            if likes_content(lib.tracks@, id, lib.likes@[m]) {
                let k = choose|k: int|
                    0 <= k < lib.tracks@.len() && (#[trigger] lib.tracks@[k]).id
                        == lib.likes@[m].track_id && opt_view(lib.tracks@[k].content_id) == Some(id);
                assert(lib.tracks@[k].id == lib.likes@[m].track_id);
            }
        }
        lemma_all_stay(lib.likes@, p);
        assert forall|m: int| 0 <= m < lib.fed_likes@.len() implies q(
            #[trigger] lib.fed_likes@[m],
        ) by {}
        lemma_all_stay(lib.fed_likes@, q);
    }
}

proof fn lemma_lowest_has(tracks: Seq<TrackRow>, id: Seq<char>)
    ensures
        lowest_of(tracks, id) is Some <==> exists|k: int|
            0 <= k < tracks.len() && opt_view((#[trigger] tracks[k]).content_id) == Some(id),
        lowest_of(tracks, id) matches Some(t) ==> exists|k: int|
            0 <= k < tracks.len() && (#[trigger] tracks[k]).id == t && opt_view(
                tracks[k].content_id,
            ) == Some(id),
    decreases tracks.len(),
{
    if tracks.len() > 0 {
        let h = tracks.drop_last();
        let n = tracks.len() - 1;
        lemma_lowest_has(h, id);
        assert forall|k: int| 0 <= k < n implies #[trigger] tracks[k] == h[k] by {}
        if opt_view(tracks.last().content_id) == Some(id) {
            assert(opt_view(tracks[n].content_id) == Some(id));
        }
        if let Some(t) = lowest_of(h, id) {
            let k = choose|k: int|
                0 <= k < h.len() && (#[trigger] h[k]).id == t && opt_view(h[k].content_id) == Some(
                    id,
                );
            assert(tracks[k] == h[k]);
        }
        if exists|k: int|
            0 <= k < tracks.len() && opt_view((#[trigger] tracks[k]).content_id) == Some(id) {
            let k = choose|k: int|
                0 <= k < tracks.len() && opt_view((#[trigger] tracks[k]).content_id) == Some(id);
            if k < n {
                assert(h[k] == tracks[k]);
            }
        }
        assert(tracks[n] == tracks.last());
    }
}

/// Toggling the like of a content id turns it round: what was liked no longer is,
/// and what was not is. It fails for what is no content id, and for one that is
/// neither liked nor here, and then changes nothing.
pub proof fn law_toggling_turns_the_like_round(
    a: Library,
    b: Library,
    content_id: Seq<char>,
    now_ms: i64,
    r: Result<bool, LikeError>,
)
    requires
        toggles_like(a, b, content_id, now_ms, r),
    ensures
        b.tracks == a.tracks,
        canonical(content_id) is None ==> r is Err,
        canonical(content_id) matches Some(id) ==> {
            &&& is_liked(a, id) ==> r == Ok::<bool, LikeError>(false) && !is_liked(b, id)
            &&& !is_liked(a, id) ==> {
                &&& r is Ok <==> exists|k: int|
                    0 <= k < a.tracks@.len() && opt_view((#[trigger] a.tracks@[k]).content_id)
                        == Some(id)
                &&& r is Ok ==> r == Ok::<bool, LikeError>(true) && is_liked(b, id)
            }
        },
        r is Err ==> b == a,
{
    if let Some(id) = canonical(content_id) {
        lemma_is_liked(a, id);
        lemma_is_liked(b, id);
        lemma_lowest_has(a.tracks@, id);
        if is_liked(a, id) {
            let p = likes_no_content(a.tracks@, id);
            lemma_filter_holds(a.likes@, p);
            assert forall|m: int| 0 <= m < b.likes@.len() implies p(#[trigger] b.likes@[m]) by {
                assert(b.likes@.contains(b.likes@[m]));
            }
            lemma_all_stay(b.likes@, p);
            let q = fed_lacks_content(id);
            lemma_filter_holds(a.fed_likes@, q);
            assert forall|m: int| 0 <= m < b.fed_likes@.len() implies q(
                #[trigger] b.fed_likes@[m],
            ) by {
                assert(b.fed_likes@.contains(b.fed_likes@[m]));
            }
            lemma_all_stay(b.fed_likes@, q);
        } else if r is Ok {
            let t = lowest_of(a.tracks@, id)->0;
            let k = choose|k: int|
                0 <= k < a.tracks@.len() && (#[trigger] a.tracks@[k]).id == t && opt_view(
                    a.tracks@[k].content_id,
                ) == Some(id);
            let m = a.likes@.len() as int;
            assert(b.likes@[m].track_id == b.tracks@[k].id);
        }
    }
}

/// Setting the like of a track likes it as of the clock, taking it back leaves no
/// like of it, and other tracks stay as they are.
pub proof fn law_synced_like_is_set(
    a: Library,
    b: Library,
    track_id: i64,
    liked: bool,
    hlc: i64,
    r: bool,
    other: LikeRow,
)
    requires
        sets_like(a, b, track_id, liked, hlc, r),
        other.track_id != track_id,
    ensures
        liked ==> exists|m: int|
            0 <= m < b.likes@.len() && (#[trigger] b.likes@[m]).track_id == track_id
                && b.likes@[m].liked_hlc_ms == Some(hlc),
        !liked ==> forall|m: int|
            0 <= m < b.likes@.len() ==> (#[trigger] b.likes@[m]).track_id != track_id,
        b.likes@.contains(other) <==> a.likes@.contains(other),
{
    lemma_first_where(a.likes@, likes_track(track_id));
    lemma_filter_holds(a.likes@, likes_other_track(track_id));
    let x = a.likes@;
    let y = b.likes@;
    if liked {
        let place = match first_where(x, likes_track(track_id)) {
            Some(i) => i,
            None => x.len() as int,
        };
        assert(y[place].track_id == track_id);
        if y.contains(other) {
            let m = y.index_of(other);
            assert(x[m] == other);
        }
        if x.contains(other) {
            let m = x.index_of(other);
            assert(y[m] == other);
        }
    } else {
        assert forall|m: int| 0 <= m < y.len() implies (#[trigger] y[m]).track_id != track_id by {
            assert(y.contains(y[m]));
        }
    }
}

/// Whether another peer's track, or the same audio, is liked.
pub open spec fn fed_is_liked(lib: Library, item_id: Seq<char>, id: Option<Seq<char>>) -> bool {
    ||| exists|m: int|
        0 <= m < lib.fed_likes@.len() && (#[trigger] lib.fed_likes@[m]).fed.item_id@ == item_id
    ||| id matches Some(c) && is_liked(lib, c)
}

/// Toggling the like of another peer's track turns it round: a like of the same
/// item or of the same audio is taken back, whether the track is here or not;
/// else the track is liked.
pub proof fn law_toggling_a_peer_track_turns_its_like_round(
    a: Library,
    b: Library,
    fed: FedTrack,
    now_ms: i64,
    r: bool,
)
    requires
        toggles_fed_like(a, b, fed, now_ms, r),
    ensures
        r == !fed_is_liked(a, fed.item_id@, canonical_option(opt_view(fed.content_id))),
        r == fed_is_liked(b, fed.item_id@, canonical_option(opt_view(fed.content_id))),
        r ==> b.fed_likes@.len() == a.fed_likes@.len() + 1 && b.fed_likes@.last().fed.title@
            == fed.title@ && b.likes@ == a.likes@,
{
    let item = fed.item_id@;
    let id = canonical_option(opt_view(fed.content_id));
    let p = fed_unrelated(item, id);
    let rest = a.fed_likes@.filter(p);
    lemma_filter_holds(a.fed_likes@, p);
    a.fed_likes@.lemma_filter_len(p);
    if let Some(c) = id {
        let g = likes_no_content(a.tracks@, c);
        lemma_filter_holds(a.likes@, g);
        a.likes@.lemma_filter_len(g);
        lemma_is_liked(a, c);
        lemma_is_liked(b, c);
        if fed_is_liked(a, item, id) {
            if rest.len() == a.fed_likes@.len() {
                lemma_filter_full(a.fed_likes@, p);
                assert forall|m: int| 0 <= m < a.fed_likes@.len() implies fed_lacks_content(c)(
                    #[trigger] a.fed_likes@[m],
                ) && a.fed_likes@[m].fed.item_id@ != item by {
                    assert(a.fed_likes@.contains(a.fed_likes@[m]));
                    assert(p(a.fed_likes@[m]));
                }
                lemma_all_stay(a.fed_likes@, fed_lacks_content(c));
            }
        } else {
            assert forall|m: int| 0 <= m < a.fed_likes@.len() implies p(
                #[trigger] a.fed_likes@[m],
            ) by {}
            lemma_all_stay(a.fed_likes@, p);
        }
        if !r {
            assert forall|m: int| 0 <= m < b.likes@.len() implies g(#[trigger] b.likes@[m]) by {
                assert(b.likes@.contains(b.likes@[m]));
            }
            lemma_all_stay(b.likes@, g);
            assert forall|m: int| 0 <= m < b.fed_likes@.len() implies fed_lacks_content(c)(
                #[trigger] b.fed_likes@[m],
            ) && b.fed_likes@[m].fed.item_id@ != item by {
                assert(b.fed_likes@.contains(b.fed_likes@[m]));
            }
            lemma_all_stay(b.fed_likes@, fed_lacks_content(c));
        } else {
            assert(b.fed_likes@[a.fed_likes@.len() as int].fed@.item_id == item);
        }
    } else {
        if fed_is_liked(a, item, id) {
            if rest.len() == a.fed_likes@.len() {
                lemma_filter_full(a.fed_likes@, p);
                let m = choose|m: int|
                    0 <= m < a.fed_likes@.len() && (#[trigger] a.fed_likes@[m]).fed.item_id@
                        == item;
                assert(a.fed_likes@.contains(a.fed_likes@[m]));
                assert(p(a.fed_likes@[m]));
            }
        } else {
            assert forall|m: int| 0 <= m < a.fed_likes@.len() implies p(
                #[trigger] a.fed_likes@[m],
            ) by {}
            lemma_all_stay(a.fed_likes@, p);
        }
        if !r {
            assert forall|m: int| 0 <= m < b.fed_likes@.len() implies (
            #[trigger] b.fed_likes@[m]).fed.item_id@ != item by {
                assert(b.fed_likes@.contains(b.fed_likes@[m]));
            }
        } else {
            assert(b.fed_likes@[a.fed_likes@.len() as int].fed@.item_id == item);
        }
    }
}

/// The like of another peer's track moves onto the local track that it became,
/// with its time: the local one is liked, and the other is no longer.
pub proof fn law_transferred_like_moves(
    a: Library,
    b: Library,
    item_id: Seq<char>,
    track_id: i64,
    r: bool,
)
    requires
        transfers_like(a, b, item_id, track_id, r),
    ensures
        r <==> exists|m: int|
            0 <= m < a.fed_likes@.len() && #[trigger] a.fed_likes@[m].fed.item_id@ == item_id,
        !r ==> b == a,
        r ==> forall|m: int|
            0 <= m < b.fed_likes@.len() ==> #[trigger] b.fed_likes@[m].fed.item_id@ != item_id,
        r ==> exists|m: int, n: int|
            0 <= m < b.likes@.len() && 0 <= n < a.fed_likes@.len() && (
            #[trigger] b.likes@[m]).track_id == track_id && (
            #[trigger] a.fed_likes@[n]).fed.item_id@ == item_id && b.likes@[m].liked_at_ms
                == a.fed_likes@[n].liked_at_ms && b.likes@[m].liked_hlc_ms
                == a.fed_likes@[n].liked_hlc_ms,
{
    lemma_first_where(a.fed_likes@, fed_is_item(item_id));
    lemma_filter_holds(a.fed_likes@, fed_is_other_item(item_id));
    match first_where(a.fed_likes@, fed_is_item(item_id)) {
        Some(n) => {
            assert(a.fed_likes@[n].fed.item_id@ == item_id);
            assert forall|m: int| 0 <= m < b.fed_likes@.len() implies #[trigger] b.fed_likes@[m].fed.item_id@
                != item_id by {
                assert(b.fed_likes@.contains(b.fed_likes@[m]));
            }
            lemma_first_where(a.likes@, likes_track(track_id));
            let place = match first_where(a.likes@, likes_track(track_id)) {
                Some(i) => i,
                None => a.likes@.len() as int,
            };
            assert(b.likes@[place].track_id == track_id);
        },
        None => {
            assert forall|m: int| 0 <= m < a.fed_likes@.len() implies #[trigger] a.fed_likes@[m].fed.item_id@
                != item_id by {
                assert(!fed_is_item(item_id)(a.fed_likes@[m]));
            }
        },
    }
}

} // verus!
