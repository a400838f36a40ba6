//! What holds after a change of this device was recorded.

use crate::content_id::{canonical, canonical_option};
use crate::devices::gc::{gc_step, op_origin};
use crate::devices::laws::law_recording_moves_on;
use crate::devices::model::{
    received_item, synced_of, tells_track, PlaybackTrack, SyncOpPayload, SyncOpWire,
};
use crate::devices::pact_laws::law_clearing_loses_no_like_and_no_device;
use crate::devices::record::{
    added_along, adds_fed_tracks, adds_item, adds_tracks, distinct_canonical, fed_added_along,
    fed_added_step, fed_added_through, is_last_op, is_next_op, keep_step, max_seq_of, named_along,
    names_playlist, op_name, record_step, recorded_along, records, records_fed_like,
    records_removals, removes_item,
};
use crate::devices::step_laws::law_operation_says_what_holds;
use crate::devices::sync::{op_step, DeviceSync, OpRow, World};
use crate::federation::track::{FedTrack, FedTrackView};
use crate::library::playlists::{content_places, is_entry};
use crate::library::tables::{is_playlist, is_track, sync_id_of, Library};
use crate::lists::{first_where, lemma_first_where};
use crate::text::{is_blank, opt_view};
use crate::devices::peers::marks_seen;
use crate::library::models::{TrackItem, TrackView};
use vstd::prelude::*;

verus! {

/// Whether something is known of a track in a playlist.
pub open spec fn is_item_known(s: DeviceSync, list: Seq<char>, c: Seq<char>) -> bool {
    s.items@.dom().contains(list) && s.items@[list].dom().contains(c)
}

/// Whether a track is known to be in a playlist, or not to be.
pub open spec fn is_item_held(s: DeviceSync, list: Seq<char>, c: Seq<char>, present: bool) -> bool {
    is_item_known(s, list, c) && s.items@[list][c].present == present
}

/// Whether the clock of the device leads what it knows of the playlists.
pub open spec fn clock_leads(s: DeviceSync) -> bool {
    forall|list: Seq<char>, c: Seq<char>| #[trigger]
        is_item_known(s, list, c) ==> s.items@[list][c].hlc <= s.last_hlc_ms
}

proof fn lemma_item_recorded(
    a: World,
    b: World,
    p: SyncOpPayload,
    now: i64,
    list: Seq<char>,
    c: Seq<char>,
    present: bool,
)
    requires
        record_step(a, b, p, now, false),
        clock_leads(a.sync),
        present ==> (p matches SyncOpPayload::PlaylistTrackAdded { playlist_id, content_id, .. }
            && playlist_id@ == list && content_id@ == c),
        !present ==> removes_item(p, list, c),
    ensures
        clock_leads(b.sync),
        is_item_held(b.sync, list, c, present),
        forall|l: Seq<char>, k: Seq<char>, x: bool|
            (l != list || k != c) ==> #[trigger] is_item_held(b.sync, l, k, x) == is_item_held(
                a.sync,
                l,
                k,
                x,
            ),
{
    law_recording_moves_on(a, b, p, now, false);
    let (op, m, changed) = choose|op: SyncOpWire, m: DeviceSync, changed: bool| #[trigger]
        keep_step(a, World { sync: m, library: b.library }, op, now, changed, false) && is_next_op(
            a.sync,
            op,
            p,
            now,
        ) && gc_step(m, b.sync);
    assert(keep_step(a, World { sync: m, library: b.library }, op, now, changed, false));
    law_clearing_loses_no_like_and_no_device(m, b.sync);
    assert(op.hlc_ms > a.sync.last_hlc_ms);
    assert(b.sync.last_hlc_ms == op.hlc_ms);
    if is_item_known(a.sync, list, c) {
        assert(a.sync.items@[list][c].hlc < op.hlc_ms);
    }
    assert(b.sync.items == m.items);
    assert forall|l: Seq<char>, k: Seq<char>| #[trigger] is_item_known(b.sync, l, k) implies b.sync.items@[l][k].hlc
        <= b.sync.last_hlc_ms by {
        if l != list || k != c {
            assert(is_item_known(a.sync, l, k));
        }
    }
}

proof fn lemma_items_recorded(
    a: World,
    b: World,
    ps: Seq<SyncOpPayload>,
    now: i64,
    w: Seq<World>,
    list: Seq<char>,
    cs: Seq<Seq<char>>,
    present: bool,
    n: int,
)
    requires
        recorded_along(a, b, ps, now, w),
        clock_leads(a.sync),
        cs.len() == ps.len(),
        forall|k: int|
            0 <= k < ps.len() ==> if present {
                #[trigger] ps[k] matches SyncOpPayload::PlaylistTrackAdded {
                    playlist_id,
                    content_id,
                    ..
                } && playlist_id@ == list && content_id@ == cs[k]
            } else {
                removes_item(ps[k], list, cs[k])
            },
        0 <= n <= ps.len(),
    ensures
        clock_leads(w[n].sync),
        forall|k: int|
            0 <= k < n ==> is_item_held(w[n].sync, list, #[trigger] cs[k], present),
    decreases n,
{
    if n > 0 {
        lemma_items_recorded(a, b, ps, now, w, list, cs, present, n - 1);
        let p = ps[n - 1];
        assert(record_step(w[n - 1], w[n - 1 + 1], p, now, false));
        lemma_item_recorded(w[n - 1], w[n], p, now, list, cs[n - 1], present);
        assert forall|k: int| 0 <= k < n implies is_item_held(
            w[n].sync,
            list,
            #[trigger] cs[k],
            present,
        ) by {
            if k < n - 1 {
                assert(is_item_held(w[n - 1].sync, list, cs[k], present));
            }
        }
    }
}

proof fn lemma_content_places(lib: Library, playlist_id: i64, ids: Seq<i64>, j: int)
    requires
        0 <= j < ids.len(),
    ensures
        match (
            first_where(lib.tracks@, is_track(ids[j])),
            first_where(lib.playlist_tracks@, is_entry(playlist_id, ids[j])),
        ) {
            (Some(t), Some(e)) => canonical_option(opt_view(lib.tracks@[t].content_id)) matches Some(
                id,
            ) ==> exists|k: int|
                0 <= k < content_places(lib, playlist_id, ids).len() && #[trigger] content_places(
                    lib,
                    playlist_id,
                    ids,
                )[k].0 == id,
            _ => true,
        },
    decreases ids.len(),
{
    let h = ids.drop_last();
    let s = content_places(lib, playlist_id, ids);
    let b = content_places(lib, playlist_id, h);
    if j < h.len() {
        lemma_content_places(lib, playlist_id, h, j);
        assert(h[j] == ids[j]);
        match (
            first_where(lib.tracks@, is_track(ids[j])),
            first_where(lib.playlist_tracks@, is_entry(playlist_id, ids[j])),
        ) {
            (Some(t), Some(e)) => {
                if let Some(id) = canonical_option(opt_view(lib.tracks@[t].content_id)) {
                    let k = choose|k: int| 0 <= k < b.len() && #[trigger] b[k].0 == id;
                    assert(s[k] == b[k]);
                }
            },
            _ => {},
        }
    } else {
        match (
            first_where(lib.tracks@, is_track(ids[j])),
            first_where(lib.playlist_tracks@, is_entry(playlist_id, ids[j])),
        ) {
            (Some(t), Some(e)) => {
                if let Some(id) = canonical_option(opt_view(lib.tracks@[t].content_id)) {
                    assert(s[s.len() - 1].0 == id);
                }
            },
            _ => {},
        }
    }
}

/// Tracks whose addition to a playlist is recorded are known to be in it: each that
/// stands in it and whose content is known, under the id that the playlist has on every
/// device.
pub proof fn law_added_tracks_are_known(
    a: World,
    b: World,
    playlist_id: i64,
    ids: Seq<i64>,
    now: i64,
    nanos: u64,
    process: u32,
    r: bool,
) -> (list: Seq<char>)
    requires
        adds_tracks(a, b, playlist_id, ids, now, nanos, process, r),
        clock_leads(a.sync),
    ensures
        r <==> exists|k: int|
            0 <= k < a.library.playlists@.len() && (#[trigger] a.library.playlists@[k]).id
                == playlist_id,
        !r ==> b == a,
        r ==> forall|j: int, t: int, e: int|
            {
                &&& 0 <= j < ids.len()
                &&& 0 <= t < a.library.tracks@.len()
                &&& 0 <= e < a.library.playlist_tracks@.len()
                &&& (#[trigger] a.library.tracks@[t]).id == #[trigger] ids[j]
                &&& forall|m: int| 0 <= m < t ==> a.library.tracks@[m].id != ids[j]
                &&& (#[trigger] a.library.playlist_tracks@[e]).playlist_id == playlist_id
                &&& a.library.playlist_tracks@[e].track_id == ids[j]
                &&& canonical_option(opt_view(a.library.tracks@[t].content_id)) is Some
            } ==> is_item_held(
                b.sync,
                list,
                canonical_option(opt_view(a.library.tracks@[t].content_id))->0,
                true,
            ),
{
    lemma_first_where(a.library.playlists@, is_playlist(playlist_id));
    if r {
        let (m, sync_id, ps) = choose|m: World, sync_id: Seq<char>, ps: Seq<SyncOpPayload>|
            #[trigger]
            added_along(a, m, b, playlist_id, ids, now, nanos, process, sync_id, ps);
        let i = first_where(a.library.playlists@, is_playlist(playlist_id));
        assert(i is Some);
        assert(a.library.playlists@[i->0].id == playlist_id);
        let lib = m.library;
        let rows = content_places(lib, playlist_id, ids);
        let cs = rows.map_values(|x: (Seq<char>, i64)| x.0);
        assert(records(m, b, ps, now));
        let w = choose|w: Seq<World>| #[trigger] recorded_along(m, b, ps, now, w);
        assert forall|k: int| 0 <= k < ps.len() implies (#[trigger] ps[k] matches SyncOpPayload::PlaylistTrackAdded {
            playlist_id,
            content_id,
            ..
        } && playlist_id@ == sync_id && content_id@ == cs[k]) by {
            assert(adds_item(ps[k], sync_id, rows[k].0, rows[k].1, None));
        }
        lemma_items_recorded(m, b, ps, now, w, sync_id, cs, true, ps.len() as int);
        assert(w[ps.len() as int] == b);
        assert(lib.tracks == a.library.tracks && lib.playlist_tracks == a.library.playlist_tracks);
        assert forall|j: int, t: int, e: int|
            {
                &&& 0 <= j < ids.len()
                &&& 0 <= t < a.library.tracks@.len()
                &&& 0 <= e < a.library.playlist_tracks@.len()
                &&& (#[trigger] a.library.tracks@[t]).id == #[trigger] ids[j]
                &&& forall|m: int| 0 <= m < t ==> a.library.tracks@[m].id != ids[j]
                &&& (#[trigger] a.library.playlist_tracks@[e]).playlist_id == playlist_id
                &&& a.library.playlist_tracks@[e].track_id == ids[j]
                &&& canonical_option(opt_view(a.library.tracks@[t].content_id)) is Some
            } implies is_item_held(
            b.sync,
            sync_id,
            canonical_option(opt_view(a.library.tracks@[t].content_id))->0,
            true,
        ) by {
            let id = ids[j];
            lemma_content_places(lib, playlist_id, ids, j);
            lemma_first_where(lib.tracks@, is_track(id));
            lemma_first_where(lib.playlist_tracks@, is_entry(playlist_id, id));
            assert(is_track(id)(lib.tracks@[t]));
            assert(is_entry(playlist_id, id)(lib.playlist_tracks@[e]));
            assert(first_where(lib.tracks@, is_track(id)) == Some(t));
            let c = canonical_option(opt_view(a.library.tracks@[t].content_id))->0;
            let k = choose|k: int| 0 <= k < rows.len() && #[trigger] rows[k].0 == c;
            assert(cs[k] == c);
        }
        sync_id
    } else {
        Seq::empty()
    }
}

proof fn lemma_distinct_canonical(ids: Seq<String>, j: int)
    requires
        0 <= j < ids.len(),
        canonical(ids[j]@) is Some,
    ensures
        distinct_canonical(ids).contains(canonical(ids[j]@)->0),
    decreases ids.len(),
{
    let h = ids.drop_last();
    let b = distinct_canonical(h);
    let s = distinct_canonical(ids);
    let c = canonical(ids[j]@)->0;
    if j < h.len() {
        assert(h[j] == ids[j]);
        lemma_distinct_canonical(h, j);
        assert(s[b.index_of(c)] == c);
    } else if !b.contains(c) {
        assert(s[s.len() - 1] == c);
    }
}

/// Tracks whose removal from a playlist is recorded are known not to be in it.
pub proof fn law_removed_tracks_are_known(
    a: World,
    b: World,
    playlist_id: i64,
    ids: Seq<String>,
    now: i64,
    list: Seq<char>,
    j: int,
)
    requires
        records_removals(a, b, playlist_id, ids, now),
        clock_leads(a.sync),
        sync_id_of(a.library, playlist_id) == Some(list),
        0 <= j < ids.len(),
        canonical(ids[j]@) is Some,
    ensures
        is_item_held(b.sync, list, canonical(ids[j]@)->0, false),
{
    let cs = distinct_canonical(ids);
    let ps = choose|ps: Seq<SyncOpPayload>| #[trigger]
        records(a, b, ps, now) && ps.len() == cs.len() && forall|k: int|
            0 <= k < ps.len() ==> removes_item(#[trigger] ps[k], list, cs[k]);
    assert(records(a, b, ps, now));
    let w = choose|w: Seq<World>| #[trigger] recorded_along(a, b, ps, now, w);
    assert forall|k: int| 0 <= k < ps.len() implies removes_item(#[trigger] ps[k], list, cs[k]) by {}
    lemma_items_recorded(a, b, ps, now, w, list, cs, false, ps.len() as int);
    assert(w[ps.len() as int] == b);
    lemma_distinct_canonical(ids, j);
    let k = cs.index_of(canonical(ids[j]@)->0);
    assert(is_item_held(b.sync, list, cs[k], false));
}

proof fn lemma_fed_items_recorded(
    a: World,
    b: World,
    playlist_id: i64,
    list: Seq<char>,
    tracks: Seq<FedTrack>,
    now: i64,
    w: Seq<World>,
    n: int,
)
    requires
        fed_added_along(a, b, playlist_id, list, tracks, now, w),
        clock_leads(a.sync),
        0 <= n <= tracks.len(),
    ensures
        clock_leads(w[n].sync),
        forall|k: int|
            0 <= k < n && canonical_option((#[trigger] tracks[k])@.content_id) is Some
                ==> is_item_held(
                w[n].sync,
                list,
                canonical_option(tracks[k]@.content_id)->0,
                true,
            ),
    decreases n,
{
    if n > 0 {
        lemma_fed_items_recorded(a, b, playlist_id, list, tracks, now, w, n - 1);
        let fed = tracks[n - 1]@;
        assert(fed_added_step(w[n - 1], w[n - 1 + 1], playlist_id, list, fed, n - 1, now));
        match canonical_option(fed.content_id) {
            None => {},
            Some(id) => {
                let p = choose|p: SyncOpPayload| #[trigger]
                    record_step(w[n - 1], w[n], p, now, false) && adds_item(
                        p,
                        list,
                        id,
                        match crate::library::playlists::content_place(
                            w[n - 1].library,
                            playlist_id,
                            id,
                        ) {
                            Some(m) => m,
                            None => (n - 1) as i64,
                        },
                        crate::devices::model::synced_of(fed),
                    );
                lemma_item_recorded(w[n - 1], w[n], p, now, list, id, true);
                assert forall|k: int|
                    0 <= k < n && canonical_option((#[trigger] tracks[k])@.content_id)
                        is Some implies is_item_held(
                    w[n].sync,
                    list,
                    canonical_option(tracks[k]@.content_id)->0,
                    true,
                ) by {
                    if k < n - 1 {
                        assert(is_item_held(
                            w[n - 1].sync,
                            list,
                            canonical_option(tracks[k]@.content_id)->0,
                            true,
                        ));
                    }
                }
            },
        }
    }
}

/// Tracks of other peers whose addition to a playlist is recorded are known to be in it,
/// each whose content is known.
pub proof fn law_added_peer_tracks_are_known(
    a: World,
    b: World,
    playlist_id: i64,
    tracks: Seq<FedTrack>,
    now: i64,
    nanos: u64,
    process: u32,
    r: bool,
) -> (list: Seq<char>)
    requires
        adds_fed_tracks(a, b, playlist_id, tracks, now, nanos, process, r),
        clock_leads(a.sync),
    ensures
        r <==> exists|k: int|
            0 <= k < a.library.playlists@.len() && (#[trigger] a.library.playlists@[k]).id
                == playlist_id,
        !r ==> b == a,
        r ==> forall|k: int|
            0 <= k < tracks.len() && canonical_option((#[trigger] tracks[k])@.content_id) is Some
                ==> is_item_held(b.sync, list, canonical_option(tracks[k]@.content_id)->0, true),
{
    lemma_first_where(a.library.playlists@, is_playlist(playlist_id));
    if r {
        let (m, sync_id, w) = choose|m: World, sync_id: Seq<char>, w: Seq<World>| #[trigger]
            fed_added_through(a, m, b, playlist_id, tracks, now, nanos, process, sync_id, w);
        let i = first_where(a.library.playlists@, is_playlist(playlist_id));
        assert(i is Some);
        assert(a.library.playlists@[i->0].id == playlist_id);
        lemma_fed_items_recorded(
            m,
            b,
            playlist_id,
            sync_id,
            tracks,
            now,
            w,
            tracks.len() as int,
        );
        assert(w[tracks.len() as int] == b);
        sync_id
    } else {
        Seq::empty()
    }
}

/// The name of a playlist that is recorded is the one that is known of it under the id
/// that it has on every device, unless a later word on it is known.
pub proof fn law_recorded_name_is_known(
    a: World,
    b: World,
    playlist_id: i64,
    title: Seq<char>,
    created: bool,
    now: i64,
    nanos: u64,
    process: u32,
    r: bool,
) -> (list: Seq<char>)
    requires
        names_playlist(a, b, playlist_id, title, created, now, nanos, process, r),
    ensures
        r <==> exists|k: int|
            0 <= k < a.library.playlists@.len() && (#[trigger] a.library.playlists@[k]).id
                == playlist_id,
        !r ==> b == a,
        r && (a.sync.playlists@.dom().contains(list) ==> a.sync.playlists@[list].hlc
            <= a.sync.last_hlc_ms || a.sync.playlists@[list].hlc < now) ==> {
            &&& b.sync.playlists@.dom().contains(list)
            &&& b.sync.playlists@[list].title == title
            &&& !b.sync.playlists@[list].deleted
            &&& !is_blank(title) ==> exists|k: int|
                0 <= k < b.library.playlists@.len() && opt_view(
                    (#[trigger] b.library.playlists@[k]).sync_id,
                ) == Some(list) && b.library.playlists@[k].title@ == title
        },
{
    lemma_first_where(a.library.playlists@, is_playlist(playlist_id));
    if r {
        let (m, p) = choose|m: World, p: SyncOpPayload| #[trigger]
            named_along(a, m, b, playlist_id, title, created, now, nanos, process, p);
        let i = first_where(a.library.playlists@, is_playlist(playlist_id));
        assert(i is Some);
        assert(a.library.playlists@[i->0].id == playlist_id);
        let list = if created {
            p->PlaylistCreated_playlist_id@
        } else {
            p->PlaylistRenamed_playlist_id@
        };
        assert(record_step(m, b, p, now, false));
        let (op, n, changed) = choose|op: SyncOpWire, n: DeviceSync, changed: bool| #[trigger]
            keep_step(m, World { sync: n, library: b.library }, op, now, changed, false)
                && is_next_op(m.sync, op, p, now) && gc_step(n, b.sync);
        let x = World {
            sync: DeviceSync { local_seq: op.seq, last_hlc_ms: op.hlc_ms, ..m.sync },
            library: m.library,
        };
        let y = World {
            sync: DeviceSync { ops: m.sync.ops, vectors: m.sync.vectors, ..n },
            library: b.library,
        };
        assert(op_step(x, y, op, now, changed, false));
        law_clearing_loses_no_like_and_no_device(n, b.sync);
        crate::devices::step_laws::law_playlist_reaches_the_library(
            x,
            y,
            list,
            title,
            false,
            op.hlc_ms,
            op.op_id@,
            changed,
        );
        list
    } else {
        Seq::empty()
    }
}

/// A like of a track of another peer that is recorded is known, and so is its
/// withdrawal, unless a later word on the track is known. A track whose content is not
/// known is not recorded.
pub proof fn law_recorded_peer_like_is_known(
    a: World,
    b: World,
    fed: FedTrack,
    liked: bool,
    now: i64,
)
    requires
        records_fed_like(a, b, fed, liked, now),
    ensures
        match canonical_option(opt_view(fed.content_id)) {
            None => b == a,
            Some(id) => (a.sync.likes@.dom().contains(id) ==> a.sync.likes@[id].hlc
                <= a.sync.last_hlc_ms || a.sync.likes@[id].hlc < now) ==> (liked
                ==> b.sync.likes@.dom().contains(id) && b.sync.likes@[id].liked) && (!liked
                && b.sync.likes@.dom().contains(id) ==> !b.sync.likes@[id].liked),
        },
{
    if let Some(id) = canonical_option(opt_view(fed.content_id)) {
        crate::content_id::law_canonical_is_idempotent(fed.content_id->0@);
        let p = choose|p: SyncOpPayload| #[trigger]
            record_step(a, b, p, now, false) && (p matches SyncOpPayload::TrackLikeSet {
                content_id: c,
                liked: l,
                ..
            } && c@ == id && l == liked);
        assert(record_step(a, b, p, now, false));
        let (op, m, changed) = choose|op: SyncOpWire, m: DeviceSync, changed: bool| #[trigger]
            keep_step(a, World { sync: m, library: b.library }, op, now, changed, false)
                && is_next_op(a.sync, op, p, now) && gc_step(m, b.sync);
        let x = World {
            sync: DeviceSync { local_seq: op.seq, last_hlc_ms: op.hlc_ms, ..a.sync },
            library: a.library,
        };
        let y = World {
            sync: DeviceSync { ops: a.sync.ops, vectors: a.sync.vectors, ..m },
            library: b.library,
        };
        assert(op_step(x, y, op, now, changed, false));
        law_operation_says_what_holds(x, y, op, now, changed, false);
        law_clearing_loses_no_like_and_no_device(m, b.sync);
    }
}

// ---------------------------------------------------------------------------
// Operations and devices
// ---------------------------------------------------------------------------

proof fn lemma_max_seq(ops: Seq<OpRow>, device: Seq<char>)
    ensures
        match max_seq_of(ops, device) {
            Some(n) => (exists|i: int|
                0 <= i < ops.len() && (#[trigger] ops[i]).op.origin_device_id@ == device
                    && ops[i].op.seq == n) && forall|i: int|
                0 <= i < ops.len() && (#[trigger] ops[i]).op.origin_device_id@ == device
                    ==> ops[i].op.seq <= n,
            None => forall|i: int|
                0 <= i < ops.len() ==> (#[trigger] ops[i]).op.origin_device_id@ != device,
        },
    decreases ops.len(),
{
    if ops.len() > 0 {
        let h = ops.drop_last();
        lemma_max_seq(h, device);
        assert(forall|i: int| 0 <= i < h.len() ==> #[trigger] ops[i] == h[i]);
        let n = ops.len() - 1;
        assert(ops[n] == ops.last());
        match max_seq_of(h, device) {
            Some(m) => {
                let i = choose|i: int|
                    0 <= i < h.len() && (#[trigger] h[i]).op.origin_device_id@ == device
                        && h[i].op.seq == m;
                assert(ops[i] == h[i]);
            },
            None => {},
        }
    }
}

/// The last operation of a device is the one with the greatest number of those that are
/// known of it.
pub proof fn law_last_operation_is_the_greatest(s: DeviceSync, device: Seq<char>, r: i64)
    requires
        is_last_op(s, device, r),
    ensures
        forall|i: int|
            0 <= i < s.ops@.len() && (#[trigger] s.ops@[i]).op.origin_device_id@ == device
                ==> s.ops@[i].op.seq <= r,
        r != 0 ==> exists|i: int|
            0 <= i < s.ops@.len() && (#[trigger] s.ops@[i]).op.origin_device_id@ == device
                && s.ops@[i].op.seq == r,
{
    lemma_max_seq(s.ops@, device);
}

/// The device that an operation came from is read back from its name.
pub proof fn law_operation_names_its_device(device: Seq<char>, seq: i64)
    requires
        forall|i: int| 0 <= i < device.len() ==> #[trigger] device[i] != ':',
    ensures
        op_origin(op_name(device, seq)) == device,
{
    let s = op_name(device, seq);
    let p = |c: char| c == ':';
    lemma_first_where(s, p);
    assert(s[device.len() as int] == ':');
    assert(forall|i: int| 0 <= i < device.len() ==> s[i] == #[trigger] device[i]);
    match first_where(s, p) {
        Some(i) => {
            assert(p(s[i]));
            if i < device.len() {
                assert(s[i] == device[i]);
            }
            if i > device.len() {
                assert(!p(s[device.len() as int]));
            }
            assert(s.take(i) =~= device);
        },
        None => {
            assert(!p(s[device.len() as int]));
        },
    }
}

/// A device that is seen is known to have been, and at its new address; its trust does not
/// change, and neither do the others. A device that is not known stays so.
pub proof fn law_seen_device_is_noted(
    a: DeviceSync,
    b: DeviceSync,
    d: Seq<char>,
    endpoint_id: Option<String>,
    now: i64,
)
    requires
        marks_seen(a, b, d, endpoint_id, now),
    ensures
        a.devices@.dom().contains(d) ==> {
            &&& b.devices@.dom().contains(d)
            &&& b.devices@[d].last_seen == Some(now)
            &&& endpoint_id matches Some(e) ==> b.devices@[d].endpoint_id == e@
            &&& b.devices@[d].trusted_at == a.devices@[d].trusted_at
            &&& b.devices@[d].revoked_at == a.devices@[d].revoked_at
            &&& b.devices@[d].name == a.devices@[d].name
        },
        forall|o: Seq<char>|
            o != d ==> (#[trigger] b.devices@.dom().contains(o) == a.devices@.dom().contains(o))
                && (a.devices@.dom().contains(o) ==> b.devices@[o] == a.devices@[o]),
        !a.devices@.dom().contains(d) ==> !b.devices@.dom().contains(d),
{
}

/// A track of a peer is exchanged between devices as it is, but as nobody's own; without
/// a content id it is not exchanged.
pub proof fn law_exchanged_track_is_the_same(fed: FedTrackView)
    ensures
        synced_of(fed) is Some <==> canonical_option(fed.content_id) is Some,
        synced_of(fed) matches Some(x) ==> {
            &&& x.owner == fed.owner
            &&& x.item_id == fed.item_id
            &&& x.title == fed.title
            &&& x.artist_names == fed.artist_names
            &&& x.featured_artist_names == fed.featured_artist_names
            &&& x.track_number == fed.track_number
            &&& x.disc_number == fed.disc_number
            &&& x.release_title == fed.release_title
            &&& x.year == fed.year
            &&& x.content_id == canonical_option(fed.content_id)
            &&& !x.own
        },
{
}

/// A track that is told to another device is shown there as it is here: under its title,
/// with its artists, its number and its content. The file does not come along.
pub proof fn law_told_track_is_shown_the_same(
    t: TrackItem,
    p: PlaybackTrack,
    text: Seq<char>,
    v: TrackView,
)
    requires
        tells_track(t, p),
        v == received_item(p, text),
    ensures
        v.title == t.title@,
        v.track_number == t.track_number,
        v.disc_number == t.disc_number,
        v.duration == t.duration,
        v.release_title == t.release_title@,
        v.release_year == t.release_year,
        v.play_count == t.play_count,
        v.file_path.len() == 0,
        t.content_id matches Some(c) ==> v.content_id == Some(c@),
        v.artists.len() == t.artists@.len(),
        forall|k: int|
            0 <= k < t.artists@.len() ==> (#[trigger] v.artists[k]).1 == t.artists@[k].name@,
        v.featured_artists.len() == t.featured_artists@.len(),
        forall|k: int|
            0 <= k < t.featured_artists@.len() ==> (#[trigger] v.featured_artists[k]).1
                == t.featured_artists@[k].name@,
        t.fed is None ==> v.fed is None,
        v.fed matches Some(f) ==> !f.own && f.title == t.fed->0.title@,
{
    let a = crate::library::models::ref_names(t.artists@);
    let g = crate::library::models::ref_names(t.featured_artists@);
    assert(a.len() == t.artists@.len() && g.len() == t.featured_artists@.len());
    assert(forall|k: int| 0 <= k < a.len() ==> #[trigger] a[k] == t.artists@[k].name@);
    assert(forall|k: int| 0 <= k < g.len() ==> #[trigger] g[k] == t.featured_artists@[k].name@);
}

} // verus!
