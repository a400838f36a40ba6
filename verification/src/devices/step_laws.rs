//! What an operation of any device brings about, in the state and in the
//! library.

use crate::content_id::{canonical, canonical_option, law_canonical_is_idempotent};
use crate::devices::model::{SyncOpPayload, SyncOpWire};
use crate::devices::sync::{item_step, like_step, op_step, playlist_step, World};
use crate::federation::track::FedTrackView;
use crate::library::likes::{
    fed_is_item, fed_lacks_content, fed_no_duplicate, likes_other_track, likes_track, same_like,
};
use crate::library::playlists::{
    entries_view, fed_of_other_playlist, is_entry, is_other_entry, is_other_fed_entry, keyed_as,
    lacks_sync_id, of_other_playlist,
};
use crate::library::tables::{
    has_content, has_sync_id, playlist_of_sync_id, track_named, track_of_content, Library, LikeRow,
    PlaylistEntry, PlaylistRow, TrackRow,
};
use crate::lists::{first_where, lemma_filter_holds, lemma_first_where};
use crate::text::{is_blank, opt_view};
use vstd::prelude::*;

verus! {

/// Whether a track is the first one with a content id.
pub open spec fn first_with_content(tracks: Seq<TrackRow>, id: Seq<char>, k: int) -> bool {
    &&& 0 <= k < tracks.len()
    &&& opt_view(tracks[k].content_id) == Some(id)
    &&& forall|m: int| 0 <= m < k ==> opt_view((#[trigger] tracks[m]).content_id) != Some(id)
}

/// Whether a playlist is the first one with an id on every device.
pub open spec fn first_with_sync_id(playlists: Seq<PlaylistRow>, id: Seq<char>, k: int) -> bool {
    &&& 0 <= k < playlists.len()
    &&& opt_view(playlists[k].sync_id) == Some(id)
    &&& forall|m: int| 0 <= m < k ==> opt_view((#[trigger] playlists[m]).sync_id) != Some(id)
}

proof fn lemma_first_track(l: Library, id: Seq<char>, k: int)
    requires
        first_with_content(l.tracks@, id, k),
        canonical(id) == Some(id),
    ensures
        track_named(l, id) == Some(l.tracks@[k].id),
        track_of_content(l, id) == Some(l.tracks@[k].id),
{
    lemma_first_where(l.tracks@, has_content(id));
    assert(has_content(id)(l.tracks@[k]));
    let i = first_where(l.tracks@, has_content(id))->0;
    if i < k {
        assert(opt_view(l.tracks@[i].content_id) != Some(id));
    }
}

proof fn lemma_first_playlist(l: Library, id: Seq<char>, k: int)
    requires
        first_with_sync_id(l.playlists@, id, k),
    ensures
        playlist_of_sync_id(l, id) == Some(l.playlists@[k].id),
        first_where(l.playlists@, has_sync_id(id)) == Some(k),
{
    lemma_first_where(l.playlists@, has_sync_id(id));
    assert(has_sync_id(id)(l.playlists@[k]));
    let i = first_where(l.playlists@, has_sync_id(id))->0;
    if i < k {
        assert(opt_view(l.playlists@[i].sync_id) != Some(id));
    }
}

// ---------------------------------------------------------------------------
// Likes
// ---------------------------------------------------------------------------

/// A like, or its withdrawal, holds for its content id unless what was known of
/// it has a later clock; what is known of other content ids stays as it was.
pub proof fn law_latest_like_holds(
    a: World,
    b: World,
    content_id: Seq<char>,
    liked: bool,
    fed: Option<FedTrackView>,
    hlc: i64,
    op: Seq<char>,
    changed: bool,
    id: Seq<char>,
    other: Seq<char>,
)
    requires
        like_step(a, b, content_id, liked, fed, hlc, op, changed),
        canonical(content_id) == Some(id),
        other != id,
    ensures
        b.sync.likes@.dom().contains(id),
        b.sync.likes@[id].hlc >= hlc,
        !a.sync.likes@.dom().contains(id) || a.sync.likes@[id].hlc < hlc ==> {
            &&& b.sync.likes@[id].liked == liked
            &&& b.sync.likes@[id].hlc == hlc
            &&& changed
        },
        a.sync.likes@.dom().contains(id) && a.sync.likes@[id].hlc > hlc ==> b.sync.likes@[id]
            == a.sync.likes@[id],
        b.sync.likes@.dom().contains(other) <==> a.sync.likes@.dom().contains(other),
        a.sync.likes@.dom().contains(other) ==> b.sync.likes@[other] == a.sync.likes@[other],
{
}

/// After a like or its withdrawal was taken over, the library likes the track
/// with that content id exactly when the state that holds for it says so, as of
/// the clock of the state. What the library says of other tracks stays.
pub proof fn law_like_reaches_the_library(
    a: World,
    b: World,
    content_id: Seq<char>,
    liked: bool,
    fed: Option<FedTrackView>,
    hlc: i64,
    op: Seq<char>,
    changed: bool,
    id: Seq<char>,
    k: int,
)
    requires
        like_step(a, b, content_id, liked, fed, hlc, op, changed),
        canonical(content_id) == Some(id),
        first_with_content(a.library.tracks@, id, k),
    ensures
        b.sync.likes@.dom().contains(id),
        b.sync.likes@[id].liked ==> exists|m: int|
            0 <= m < b.library.likes@.len() && (#[trigger] b.library.likes@[m]).track_id
                == a.library.tracks@[k].id && b.library.likes@[m].liked_hlc_ms == Some(
                b.sync.likes@[id].hlc,
            ) && b.library.likes@[m].liked_at_ms == b.sync.likes@[id].hlc,
        !b.sync.likes@[id].liked ==> forall|m: int|
            0 <= m < b.library.likes@.len() ==> (#[trigger] b.library.likes@[m]).track_id
                != a.library.tracks@[k].id,
        b.sync.likes@[id].liked ==> forall|m: int|
            0 <= m < b.library.fed_likes@.len() ==> opt_view(
                (#[trigger] b.library.fed_likes@[m]).fed.content_id,
            ) != Some(id),
        forall|row: LikeRow|
            row.track_id != a.library.tracks@[k].id ==> (#[trigger] b.library.likes@.contains(row)
                <==> a.library.likes@.contains(row)),
        b.library.tracks == a.library.tracks,
{
    law_canonical_is_idempotent(content_id);
    lemma_first_track(a.library, id, k);
    let t = a.library.tracks@[k].id;
    let x = a.library.likes@;
    let y = b.library.likes@;
    let s = b.sync.likes@[id];
    lemma_filter_holds(x, likes_other_track(t));
    lemma_filter_holds(a.library.fed_likes@, fed_lacks_content(id));
    lemma_first_where(x, likes_track(t));
    if s.liked {
        let row = LikeRow { track_id: t, liked_at_ms: s.hlc, liked_hlc_ms: Some(s.hlc) };
        match first_where(x, likes_track(t)) {
            Some(i) => {
                assert(y[i] == row);
                assert forall|r: LikeRow| r.track_id != t implies (#[trigger] y.contains(r)
                    <==> x.contains(r)) by {
                    if y.contains(r) {
                        let m = y.index_of(r);
                        assert(x[m] == r);
                    }
                    if x.contains(r) {
                        let m = x.index_of(r);
                        assert(y[m] == r);
                    }
                }
            },
            None => {
                assert(y[x.len() as int] == row);
                assert forall|r: LikeRow| r.track_id != t implies (#[trigger] y.contains(r)
                    <==> x.contains(r)) by {
                    if y.contains(r) {
                        let m = y.index_of(r);
                        assert(x[m] == r);
                    }
                    if x.contains(r) {
                        let m = x.index_of(r);
                        assert(y[m] == r);
                    }
                }
            },
        }
        assert forall|m: int| 0 <= m < b.library.fed_likes@.len() implies opt_view(
            (#[trigger] b.library.fed_likes@[m]).fed.content_id,
        ) != Some(id) by {
            assert(b.library.fed_likes@.contains(b.library.fed_likes@[m]));
        }
    } else {
        assert forall|m: int| 0 <= m < y.len() implies (#[trigger] y[m]).track_id != t by {
            assert(y.contains(y[m]));
        }
    }
}

/// A like of a track that is not in the library is kept with what is known of
/// the track; its withdrawal takes it away. The likes of local tracks stay.
pub proof fn law_like_of_a_track_elsewhere_is_kept(
    a: World,
    b: World,
    content_id: Seq<char>,
    liked: bool,
    fed: Option<FedTrackView>,
    hlc: i64,
    op: Seq<char>,
    changed: bool,
    id: Seq<char>,
)
    requires
        like_step(a, b, content_id, liked, fed, hlc, op, changed),
        canonical(content_id) == Some(id),
        forall|m: int|
            0 <= m < a.library.tracks@.len() ==> opt_view(
                (#[trigger] a.library.tracks@[m]).content_id,
            ) != Some(id),
    ensures
        b.library.likes == a.library.likes,
        fed matches Some(f) ==> (b.sync.likes@[id].liked && canonical_option(f.content_id) == Some(
            id,
        ) ==> exists|m: int|
            0 <= m < b.library.fed_likes@.len() && (
            #[trigger] b.library.fed_likes@[m]).fed.item_id@ == f.item_id
                && b.library.fed_likes@[m].fed.title@ == f.title
                && b.library.fed_likes@[m].liked_hlc_ms == Some(b.sync.likes@[id].hlc)),
        !liked && (!a.sync.likes@.dom().contains(id) || a.sync.likes@[id].hlc < hlc)
            ==> forall|m: int|
            0 <= m < b.library.fed_likes@.len() ==> opt_view(
                (#[trigger] b.library.fed_likes@[m]).fed.content_id,
            ) != Some(id),
{
    law_canonical_is_idempotent(content_id);
    lemma_first_where(a.library.tracks@, has_content(id));
    assert(track_named(a.library, id) is None) by {
        if let Some(i) = first_where(a.library.tracks@, has_content(id)) {
            assert(has_content(id)(a.library.tracks@[i]));
        }
    }
    lemma_filter_holds(a.library.fed_likes@, fed_lacks_content(id));
    assert forall|m: int|
        0 <= m < b.library.fed_likes@.len() && !liked && (!a.sync.likes@.dom().contains(id)
            || a.sync.likes@[id].hlc < hlc) implies opt_view(
        (#[trigger] b.library.fed_likes@[m]).fed.content_id,
    ) != Some(id) by {
        assert(b.library.fed_likes@.contains(b.library.fed_likes@[m]));
    }
    if let Some(f) = fed {
        if b.sync.likes@[id].liked && canonical_option(f.content_id) == Some(id) {
            let base = a.library.fed_likes@.filter(fed_no_duplicate(f.item_id, id));
            lemma_first_where(base, fed_is_item(f.item_id));
            match first_where(base, fed_is_item(f.item_id)) {
                Some(i) => {
                    if base.len() == a.library.fed_likes@.len() && same_like(
                        base[i],
                        f,
                        b.sync.likes@[id].hlc,
                    ) {
                        crate::lists::lemma_filter_full(
                            a.library.fed_likes@,
                            fed_no_duplicate(f.item_id, id),
                        );
                        assert(b.library.fed_likes@[i] == base[i]);
                    } else {
                        assert(b.library.fed_likes@[i].fed@ == (FedTrackView {
                            content_id: Some(id),
                            ..f
                        }));
                    }
                },
                None => {
                    let n = b.library.fed_likes@.len() - 1;
                    assert(b.library.fed_likes@[n] == b.library.fed_likes@.last());
                },
            }
        }
    }
}

// ---------------------------------------------------------------------------
// Playlists
// ---------------------------------------------------------------------------

/// The latest that was said of a playlist holds, and the library follows it: a
/// playlist that is made or renamed is there under its title, one that is
/// deleted is gone with everything in it, and an older word changes nothing.
pub proof fn law_playlist_reaches_the_library(
    a: World,
    b: World,
    playlist_id: Seq<char>,
    title: Seq<char>,
    deleted: bool,
    hlc: i64,
    op: Seq<char>,
    changed: bool,
)
    requires
        playlist_step(a, b, playlist_id, title, deleted, hlc, op, changed),
    ensures
        b.sync.playlists@.dom().contains(playlist_id),
        ({
            let known = a.sync.playlists@.dom().contains(playlist_id);
            let was = a.sync.playlists@[playlist_id];
            let st = b.sync.playlists@[playlist_id];
            &&& !known || was.hlc < hlc ==> {
                &&& changed
                &&& st.deleted == deleted
                &&& st.title == title
                &&& st.hlc == hlc
                &&& !deleted && !is_blank(title) ==> exists|k: int|
                    0 <= k < b.library.playlists@.len() && opt_view(
                        (#[trigger] b.library.playlists@[k]).sync_id,
                    ) == Some(playlist_id) && b.library.playlists@[k].title@ == title
                &&& deleted ==> forall|k: int|
                    0 <= k < b.library.playlists@.len() ==> opt_view(
                        (#[trigger] b.library.playlists@[k]).sync_id,
                    ) != Some(playlist_id)
                &&& deleted ==> forall|k: int|
                    0 <= k < b.library.fed_playlist_tracks@.len() ==> (
                    #[trigger] b.library.fed_playlist_tracks@[k]).playlist_sync_id@ != playlist_id
            }
            &&& known && was.hlc > hlc ==> !changed && st == was && b.library == a.library
        }),
{
    let rows = b.library.playlists@;
    if changed && deleted {
        lemma_filter_holds(a.library.playlists@, lacks_sync_id(playlist_id));
        lemma_filter_holds(a.library.fed_playlist_tracks@, fed_of_other_playlist(playlist_id));
        assert forall|k: int| 0 <= k < rows.len() implies opt_view((#[trigger] rows[k]).sync_id)
            != Some(playlist_id) by {
            assert(rows.contains(rows[k]));
        }
        assert forall|k: int| 0 <= k < b.library.fed_playlist_tracks@.len() implies (
        #[trigger] b.library.fed_playlist_tracks@[k]).playlist_sync_id@ != playlist_id by {
            assert(b.library.fed_playlist_tracks@.contains(b.library.fed_playlist_tracks@[k]));
        }
    } else if changed && !is_blank(title) {
        lemma_first_where(a.library.playlists@, has_sync_id(playlist_id));
        match first_where(a.library.playlists@, has_sync_id(playlist_id)) {
            Some(i) => {
                assert(rows[i].title@ == title);
            },
            None => {
                assert(rows[rows.len() - 1].title@ == title);
            },
        }
    }
}

/// The tracks in a playlist that is deleted leave it; the entries of other
/// playlists stay.
pub proof fn law_deleted_playlist_is_emptied(
    a: World,
    b: World,
    playlist_id: Seq<char>,
    title: Seq<char>,
    hlc: i64,
    op: Seq<char>,
    changed: bool,
    k: int,
)
    requires
        playlist_step(a, b, playlist_id, title, true, hlc, op, changed),
        changed,
        first_with_sync_id(a.library.playlists@, playlist_id, k),
    ensures
        forall|e: PlaylistEntry|
            #[trigger] b.library.playlist_tracks@.contains(e)
                <==> a.library.playlist_tracks@.contains(e) && e.playlist_id
                != a.library.playlists@[k].id,
        forall|p: PlaylistRow|
            #[trigger] b.library.playlists@.contains(p) <==> a.library.playlists@.contains(p)
                && opt_view(p.sync_id) != Some(playlist_id),
{
    lemma_first_playlist(a.library, playlist_id, k);
    lemma_filter_holds(
        a.library.playlist_tracks@,
        of_other_playlist(a.library.playlists@[k].id),
    );
    lemma_filter_holds(a.library.playlists@, lacks_sync_id(playlist_id));
}

/// Making or renaming a playlist leaves every other playlist and every entry as
/// it was.
pub proof fn law_renaming_keeps_the_rest(
    a: World,
    b: World,
    playlist_id: Seq<char>,
    title: Seq<char>,
    hlc: i64,
    op: Seq<char>,
    changed: bool,
    k: int,
)
    requires
        playlist_step(a, b, playlist_id, title, false, hlc, op, changed),
        0 <= k < a.library.playlists@.len(),
    ensures
        b.library.playlist_tracks == a.library.playlist_tracks,
        b.library.fed_playlist_tracks == a.library.fed_playlist_tracks,
        k < b.library.playlists@.len(),
        b.library.playlists@[k].id == a.library.playlists@[k].id,
        opt_view(a.library.playlists@[k].sync_id) != Some(playlist_id) ==> b.library.playlists@[k]
            == a.library.playlists@[k],
{
    lemma_first_where(a.library.playlists@, has_sync_id(playlist_id));
    if changed && !is_blank(title) {
        match first_where(a.library.playlists@, has_sync_id(playlist_id)) {
            Some(i) => {
                assert(b.library.playlists@ == a.library.playlists@.update(
                    i,
                    b.library.playlists@[i],
                ));
            },
            None => {
                assert(b.library.playlists@.drop_last()[k] == a.library.playlists@[k]);
            },
        }
    }
}

// ---------------------------------------------------------------------------
// Playlist items
// ---------------------------------------------------------------------------

/// The latest that was said of a playlist item holds: after its addition or its
/// removal was taken over, the track that is here is in the playlist of the
/// library when the state says so, and a removal that holds takes it out.
pub proof fn law_item_reaches_the_library(
    a: World,
    b: World,
    playlist_id: Seq<char>,
    content_id: Seq<char>,
    present: bool,
    position: i64,
    fed: Option<FedTrackView>,
    hlc: i64,
    op: Seq<char>,
    changed: bool,
    k: int,
    p: int,
)
    requires
        item_step(a, b, playlist_id, content_id, present, position, fed, hlc, op, changed),
        canonical(content_id) == Some(content_id),
        first_with_content(a.library.tracks@, content_id, k),
        first_with_sync_id(a.library.playlists@, playlist_id, p),
    ensures
        b.sync.items@.dom().contains(playlist_id),
        b.sync.items@[playlist_id].dom().contains(content_id),
        ({
            let known = a.sync.items@.dom().contains(playlist_id)
                && a.sync.items@[playlist_id].dom().contains(content_id);
            let was = a.sync.items@[playlist_id][content_id];
            let st = b.sync.items@[playlist_id][content_id];
            let track = a.library.tracks@[k].id;
            let list = a.library.playlists@[p].id;
            &&& !known || was.hlc < hlc ==> changed && st.present == present && st.position
                == position && st.hlc == hlc
            &&& known && was.hlc > hlc ==> st == was
            &&& st.present ==> exists|m: int|
                0 <= m < b.library.playlist_tracks@.len() && (
                #[trigger] b.library.playlist_tracks@[m]).playlist_id == list
                    && b.library.playlist_tracks@[m].track_id == track
            &&& !st.present && (!known || was.hlc < hlc) ==> forall|m: int|
                0 <= m < b.library.playlist_tracks@.len() ==> !((
                #[trigger] b.library.playlist_tracks@[m]).playlist_id == list
                    && b.library.playlist_tracks@[m].track_id == track)
        }),
{
    lemma_first_track(a.library, content_id, k);
    lemma_first_playlist(a.library, playlist_id, p);
    let track = a.library.tracks@[k].id;
    let list = a.library.playlists@[p].id;
    let x = a.library.playlist_tracks@;
    let y = b.library.playlist_tracks@;
    lemma_first_where(x, is_entry(list, track));
    lemma_filter_holds(x, is_other_entry(list, track));
    let st = b.sync.items@[playlist_id][content_id];
    if st.present {
        match first_where(x, is_entry(list, track)) {
            Some(i) => {
                assert(y[i].track_id == track);
            },
            None => {
                assert(y[x.len() as int].track_id == track);
            },
        }
    } else if changed {
        assert forall|m: int| 0 <= m < y.len() implies !((#[trigger] y[m]).playlist_id == list
            && y[m].track_id == track) by {
            assert(y.contains(y[m]));
        }
    }
}

/// An item that holds stands in the playlist with what came along of its track,
/// at the position of the state; one whose removal holds is gone.
pub proof fn law_item_of_another_peer_is_kept(
    a: World,
    b: World,
    playlist_id: Seq<char>,
    content_id: Seq<char>,
    present: bool,
    position: i64,
    fed: Option<FedTrackView>,
    hlc: i64,
    op: Seq<char>,
    changed: bool,
)
    requires
        item_step(a, b, playlist_id, content_id, present, position, fed, hlc, op, changed),
        canonical(content_id) == Some(content_id),
        fed matches Some(f) ==> canonical_option(f.content_id) == Some(content_id),
    ensures
        ({
            let known = a.sync.items@.dom().contains(playlist_id)
                && a.sync.items@[playlist_id].dom().contains(content_id);
            let was = a.sync.items@[playlist_id][content_id];
            let st = b.sync.items@[playlist_id][content_id];
            let rows = b.library.fed_playlist_tracks@;
            &&& fed matches Some(f) ==> (st.present ==> exists|m: int|
                0 <= m < rows.len() && (#[trigger] rows[m]).playlist_sync_id@ == playlist_id
                    && rows[m].content_id@ == content_id && rows[m].fed.title@ == f.title
                    && rows[m].position == st.position)
            &&& !st.present && (!known || was.hlc < hlc) ==> forall|m: int|
                0 <= m < rows.len() ==> !((#[trigger] rows[m]).playlist_sync_id@ == playlist_id
                    && rows[m].content_id@ == content_id)
        }),
{
    let rows = b.library.fed_playlist_tracks@;
    let st = b.sync.items@[playlist_id][content_id];
    lemma_filter_holds(
        a.library.fed_playlist_tracks@,
        is_other_fed_entry(playlist_id, content_id),
    );
    if st.present {
        if let Some(f) = fed {
            let x = entries_view(a.library.fed_playlist_tracks@);
            let y = entries_view(rows);
            lemma_first_where(x, keyed_as(playlist_id, content_id));
            assert(y.len() == rows.len());
            match first_where(x, keyed_as(playlist_id, content_id)) {
                Some(i) => {
                    assert(y[i] == rows[i]@);
                    assert(y[i].content_id == content_id);
                },
                None => {
                    let i = x.len() as int;
                    assert(y[i] == rows[i]@);
                    assert(y[i].content_id == content_id);
                },
            }
        }
    } else {
        assert forall|m: int| 0 <= m < rows.len() && changed implies !((
        #[trigger] rows[m]).playlist_sync_id@ == playlist_id && rows[m].content_id@
            == content_id) by {
            assert(rows.contains(rows[m]));
        }
    }
}

// ---------------------------------------------------------------------------
// Operations
// ---------------------------------------------------------------------------

/// Each operation is taken at its word: whatever nothing later was known of is
/// afterwards as the operation says, as of its clock.
pub proof fn law_operation_says_what_holds(
    a: World,
    b: World,
    op: SyncOpWire,
    now: i64,
    changed: bool,
    delivered: bool,
)
    requires
        op_step(a, b, op, now, changed, delivered),
    ensures
        op.payload matches SyncOpPayload::TrackLikeSet { content_id, liked, fed } ==> (canonical(
            content_id@,
        ) matches Some(id) ==> (!a.sync.likes@.dom().contains(id) || a.sync.likes@[id].hlc
            < op.hlc_ms ==> b.sync.likes@[id].liked == liked && b.sync.likes@[id].hlc
            == op.hlc_ms)),
        op.payload matches SyncOpPayload::PlaylistCreated { playlist_id, title } ==> (
        !a.sync.playlists@.dom().contains(playlist_id@) || a.sync.playlists@[playlist_id@].hlc
            < op.hlc_ms ==> b.sync.playlists@[playlist_id@].title == title@
            && !b.sync.playlists@[playlist_id@].deleted && b.sync.playlists@[playlist_id@].hlc
            == op.hlc_ms),
        op.payload matches SyncOpPayload::PlaylistRenamed { playlist_id, title } ==> (
        !a.sync.playlists@.dom().contains(playlist_id@) || a.sync.playlists@[playlist_id@].hlc
            < op.hlc_ms ==> b.sync.playlists@[playlist_id@].title == title@
            && !b.sync.playlists@[playlist_id@].deleted && b.sync.playlists@[playlist_id@].hlc
            == op.hlc_ms),
        op.payload matches SyncOpPayload::PlaylistDeleted { playlist_id } ==> (
        !a.sync.playlists@.dom().contains(playlist_id@) || a.sync.playlists@[playlist_id@].hlc
            < op.hlc_ms ==> b.sync.playlists@[playlist_id@].deleted
            && b.sync.playlists@[playlist_id@].hlc == op.hlc_ms),
        op.payload matches SyncOpPayload::PlaylistTrackAdded {
            playlist_id,
            content_id,
            position,
            fed,
        } ==> (!(a.sync.items@.dom().contains(playlist_id@)
            && a.sync.items@[playlist_id@].dom().contains(content_id@))
            || a.sync.items@[playlist_id@][content_id@].hlc < op.hlc_ms
            ==> b.sync.items@[playlist_id@][content_id@].present
            && b.sync.items@[playlist_id@][content_id@].position == position
            && b.sync.items@[playlist_id@][content_id@].hlc == op.hlc_ms),
        op.payload matches SyncOpPayload::PlaylistTrackRemoved { playlist_id, content_id } ==> (!(
        a.sync.items@.dom().contains(playlist_id@) && a.sync.items@[playlist_id@].dom().contains(
            content_id@,
        )) || a.sync.items@[playlist_id@][content_id@].hlc < op.hlc_ms
            ==> !b.sync.items@[playlist_id@][content_id@].present
            && b.sync.items@[playlist_id@][content_id@].hlc == op.hlc_ms),
        op.payload matches SyncOpPayload::DeviceTrusted { target_device_id } ==> (
        a.sync.devices@.dom().contains(target_device_id@)
            ==> b.sync.devices@.dom().contains(target_device_id@)),
        op.payload matches SyncOpPayload::PlaybackCommand { target_device_id, .. } ==> (delivered
            <==> target_device_id@ == a.sync.device_id@
            && !a.sync.applied_playback@.dom().contains(op.op_id@)) && (delivered
            ==> b.sync.applied_playback@.dom().contains(op.op_id@)),
        !(op.payload is PlaybackCommand) ==> !delivered,
{
}

/// A playback command that was carried out is not carried out again.
pub proof fn law_playback_command_runs_once(
    a: World,
    b: World,
    c: World,
    op: SyncOpWire,
    now: i64,
    later: i64,
    changed: bool,
    rechanged: bool,
    delivered: bool,
    redelivered: bool,
)
    requires
        op_step(a, b, op, now, changed, delivered),
        op_step(b, c, op, later, rechanged, redelivered),
    ensures
        !(delivered && redelivered),
        op.payload is PlaybackCommand ==> !redelivered,
{
}

} // verus!
