//! What a device does on its own: each change becomes an operation that the
//! others will be told of.

use crate::content_id::{canonical, canonical_option, normalize_content_id, normalize_option};
use crate::devices::exchange::has_room;
use crate::devices::gc::gc_step;
use crate::devices::model::{
    synced_of, synced_view, PlaybackCommand, SyncOpPayload, SyncOpWire, SyncedFedTrack,
};
use crate::devices::sync::{bumped, is_op, op_step, DeviceSync, OpRow, World};
use crate::federation::track::{FedTrack, FedTrackView};
use crate::library::playlists::{
    content_place, content_places, lemma_sync_id_keeps_room, makes_sync_id, next_playlist_id,
    places_view,
};
use crate::library::tables::{sync_id_of, Library};
use crate::lists::{first_where, holds_text};
use crate::text::{blank, is_blank, opt_view, same, signed_text, trim, trimmed};
use vstd::prelude::*;

verus! {

/// The id of an operation: the device and the number.
pub open spec fn op_name(device: Seq<char>, seq: i64) -> Seq<char> {
    device + seq![':'] + crate::text::signed_decimal(seq as int)
}

/// The clock of a new operation: now, but always later than the last.
pub open spec fn next_hlc(last: i64, now: i64) -> int {
    if now > last {
        now as int
    } else {
        last + 1
    }
}

/// Whether an operation is the next one of a device.
pub open spec fn is_next_op(s: DeviceSync, op: SyncOpWire, payload: SyncOpPayload, now: i64) -> bool {
    &&& op.seq == s.local_seq + 1
    &&& op.hlc_ms == next_hlc(s.last_hlc_ms, now)
    &&& op.op_id@ == op_name(s.device_id@, op.seq)
    &&& op.origin_device_id@ == s.device_id@
    &&& op.payload == payload
}

/// What an operation of this device does: it is carried out and kept, and the
/// number and the clock of the device go on.
pub open spec fn keep_step(a: World, b: World, op: SyncOpWire, now: i64, changed: bool, delivered: bool) -> bool {
    &&& op_step(
        World {
            sync: DeviceSync { local_seq: op.seq, last_hlc_ms: op.hlc_ms, ..a.sync },
            library: a.library,
        },
        World {
            sync: DeviceSync { ops: a.sync.ops, vectors: a.sync.vectors, ..b.sync },
            library: b.library,
        },
        op,
        now,
        changed,
        delivered,
    )
    &&& b.sync.ops@ == (if first_where(a.sync.ops@, is_op(op.op_id@)) is Some {
        a.sync.ops@
    } else {
        a.sync.ops@.push(OpRow { op, received_at_ms: now })
    })
    &&& b.sync.vectors@ == bumped(a.sync.vectors@, a.sync.device_id@, op.seq)
}

/// What recording a change does. Tombstones that every device has seen go at
/// the same time.
pub open spec fn record_step(
    a: World,
    b: World,
    payload: SyncOpPayload,
    now: i64,
    delivered: bool,
) -> bool {
    exists|op: SyncOpWire, m: DeviceSync, changed: bool| #[trigger]
        keep_step(a, World { sync: m, library: b.library }, op, now, changed, delivered)
            && is_next_op(a.sync, op, payload, now) && gc_step(m, b.sync)
}

/// Whether a device can record so many more operations.
pub open spec fn can_record(s: DeviceSync, l: Library, n: int, now: i64) -> bool {
    &&& s.local_seq + n <= i64::MAX
    &&& s.last_hlc_ms + n <= i64::MAX
    &&& now + n <= i64::MAX
    &&& has_room(l, n)
}

/// The way from one state to another through several recorded changes.
pub open spec fn recorded_along(
    a: World,
    b: World,
    payloads: Seq<SyncOpPayload>,
    now: i64,
    w: Seq<World>,
) -> bool {
    &&& w.len() == payloads.len() + 1
    &&& w[0] == a
    &&& w.last() == b
    &&& forall|i: int|
        0 <= i < payloads.len() ==> record_step(w[i], w[i + 1], #[trigger] payloads[i], now, false)
}

/// What recording several changes does, in order.
pub open spec fn records(a: World, b: World, payloads: Seq<SyncOpPayload>, now: i64) -> bool {
    exists|w: Seq<World>| #[trigger] recorded_along(a, b, payloads, now, w)
}

proof fn lemma_records_none(a: World, now: i64)
    ensures
        records(a, a, Seq::empty(), now),
{
    assert(recorded_along(a, a, Seq::empty(), now, seq![a]));
}

proof fn lemma_records_one_more(
    a: World,
    m: World,
    b: World,
    done: Seq<SyncOpPayload>,
    p: SyncOpPayload,
    now: i64,
)
    requires
        records(a, m, done, now),
        record_step(m, b, p, now, false),
    ensures
        records(a, b, done.push(p), now),
{
    let w = choose|w: Seq<World>| #[trigger] recorded_along(a, m, done, now, w);
    let w1 = w.push(b);
    let all = done.push(p);
    assert forall|i: int| 0 <= i < all.len() implies record_step(
        w1[i],
        w1[i + 1],
        #[trigger] all[i],
        now,
        false,
    ) by {
        if i < done.len() {
            assert(all[i] == done[i]);
        }
    }
    assert(recorded_along(a, b, all, now, w1));
}

/// Recording moves the number by one, keeps the clock within reach, and takes
/// at most one new playlist id.
proof fn lemma_record_room(a: World, b: World, p: SyncOpPayload, now: i64, delivered: bool)
    requires
        record_step(a, b, p, now, delivered),
    ensures
        b.sync.local_seq == a.sync.local_seq + 1,
        b.sync.last_hlc_ms == next_hlc(a.sync.last_hlc_ms, now),
        next_playlist_id(b.library.playlists@) <= next_playlist_id(a.library.playlists@) + 1,
{
    let (op, m, changed) = choose|op: SyncOpWire, m: DeviceSync, changed: bool| #[trigger]
        keep_step(a, World { sync: m, library: b.library }, op, now, changed, delivered)
            && is_next_op(a.sync, op, p, now) && gc_step(m, b.sync);
    let x = World {
        sync: DeviceSync { local_seq: op.seq, last_hlc_ms: op.hlc_ms, ..a.sync },
        library: a.library,
    };
    let y = World {
        sync: DeviceSync { ops: a.sync.ops, vectors: a.sync.vectors, ..m },
        library: b.library,
    };
    crate::devices::exchange::lemma_op_room(x, y, op, now, changed, delivered);
    assert(y.sync.local_seq == x.sync.local_seq && y.sync.last_hlc_ms == x.sync.last_hlc_ms) by {
        match op.payload {
            SyncOpPayload::TrackLikeSet { .. } => {},
            SyncOpPayload::PlaylistCreated { .. } => {},
            SyncOpPayload::PlaylistRenamed { .. } => {},
            SyncOpPayload::PlaylistDeleted { .. } => {},
            SyncOpPayload::PlaylistTrackAdded { .. } => {},
            SyncOpPayload::PlaylistTrackRemoved { .. } => {},
            SyncOpPayload::DeviceProfileSet { .. } => {},
            SyncOpPayload::DeviceTrusted { .. } => {},
            SyncOpPayload::DeviceRevoked { .. } => {},
            SyncOpPayload::PlaybackCommand { .. } => {},
        }
    }
}

/// The operation that adds an item to a playlist.
pub open spec fn adds_item(
    p: SyncOpPayload,
    playlist_id: Seq<char>,
    content_id: Seq<char>,
    position: i64,
    fed: Option<FedTrackView>,
) -> bool {
    p matches SyncOpPayload::PlaylistTrackAdded { playlist_id: i, content_id: c, position: n, fed: f }
        && i@ == playlist_id && c@ == content_id && n == position && synced_view(f) == fed
}

/// The operation that takes an item out of a playlist.
pub open spec fn removes_item(p: SyncOpPayload, playlist_id: Seq<char>, content_id: Seq<char>) -> bool {
    p matches SyncOpPayload::PlaylistTrackRemoved { playlist_id: i, content_id: c } && i@
        == playlist_id && c@ == content_id
}

/// The valid content ids of a list in canonical form, each once, in order.
pub open spec fn distinct_canonical(ids: Seq<String>) -> Seq<Seq<char>>
    decreases ids.len(),
{
    if ids.len() == 0 {
        Seq::empty()
    } else {
        let before = distinct_canonical(ids.drop_last());
        match canonical(ids.last()@) {
            Some(id) => if before.contains(id) {
                before
            } else {
                before.push(id)
            },
            None => before,
        }
    }
}

/// What recording the addition of another peer's track to a playlist does:
/// nothing for a track without a content id. The position is the one that the
/// library has for it, else its place in what was added.
pub open spec fn fed_added_step(
    a: World,
    b: World,
    playlist_id: i64,
    sync_id: Seq<char>,
    fed: FedTrackView,
    place: int,
    now: i64,
) -> bool {
    match canonical_option(fed.content_id) {
        None => b == a,
        Some(id) => exists|p: SyncOpPayload| #[trigger]
            record_step(a, b, p, now, false) && adds_item(
                p,
                sync_id,
                id,
                match content_place(a.library, playlist_id, id) {
                    Some(n) => n,
                    None => place as i64,
                },
                synced_of(fed),
            ),
    }
}

pub open spec fn fed_added_along(
    a: World,
    b: World,
    playlist_id: i64,
    sync_id: Seq<char>,
    tracks: Seq<FedTrack>,
    now: i64,
    w: Seq<World>,
) -> bool {
    &&& w.len() == tracks.len() + 1
    &&& w[0] == a
    &&& w.last() == b
    &&& forall|i: int|
        0 <= i < tracks.len() ==> fed_added_step(
            w[i],
            w[i + 1],
            playlist_id,
            sync_id,
            (#[trigger] tracks[i])@,
            i,
            now,
        )
}

/// A device that withdraws its trust in itself would shut itself out.
#[derive(Clone, Copy, PartialEq, Eq, Structural, Debug)]
pub enum RevokeError {
    OwnDevice,
}

impl RevokeError {
    pub fn message(&self) -> (r: &'static str)
        ensures
            r@ == "cannot revoke this device from itself"@,
    {
        "cannot revoke this device from itself"
    }
}

/// The largest number of an operation of a device, if there is one.
pub open spec fn max_seq_of(ops: Seq<OpRow>, device: Seq<char>) -> Option<i64>
    decreases ops.len(),
{
    if ops.len() == 0 {
        None
    } else {
        let before = max_seq_of(ops.drop_last(), device);
        let r = ops.last();
        if r.op.origin_device_id@ == device && (before matches Some(n) ==> n < r.op.seq) {
            Some(r.op.seq)
        } else {
            before
        }
    }
}

/// What recording a like, or its withdrawal, does.
pub open spec fn records_like(
    a: World,
    b: World,
    content_id: Seq<char>,
    liked: bool,
    now_ms: i64,
) -> bool {
    match canonical(content_id) {
        None => b == a,
        Some(id) => exists|p: SyncOpPayload| #[trigger]
            record_step(
                a,
                b,
                p,
                now_ms,
                false,
            ) && (p matches SyncOpPayload::TrackLikeSet { content_id: c, liked: l, fed }
                && c@ == id && l == liked && fed is None),
    }
}

/// What recording the deletion of a playlist does.
pub open spec fn records_deletion(a: World, b: World, playlist_id: i64, now_ms: i64) -> bool {
    match sync_id_of(a.library, playlist_id) {
        None => b == a,
        Some(id) => exists|p: SyncOpPayload| #[trigger]
            record_step(
                a,
                b,
                p,
                now_ms,
                false,
            ) && (p matches SyncOpPayload::PlaylistDeleted { playlist_id: i } && i@ == id),
    }
}

/// What withdrawing the trust in a device does.
pub open spec fn revokes(
    a: World,
    b: World,
    device_id: Seq<char>,
    now_ms: i64,
    r: Result<(), RevokeError>,
) -> bool {
    &&& r is Err == (device_id == a.sync.device_id@)
    &&& r is Err ==> b == a
    &&& r is Ok ==> exists|p: SyncOpPayload, m: DeviceSync| #[trigger]
        record_step(
            a,
            World { sync: m, library: b.library },
            p,
            now_ms,
            false,
        ) && gc_step(m, b.sync) && (p matches SyncOpPayload::DeviceRevoked {
            target_device_id: t,
            target_max_seq_seen: n,
        } && t@ == device_id && n == crate::devices::trust::or_zero(
            max_seq_of(a.sync.ops@, device_id),
        ))
}

/// What recording a like of a track of another peer does.
pub open spec fn records_fed_like(
    a: World,
    b: World,
    fed: FedTrack,
    liked: bool,
    now_ms: i64,
) -> bool {
    match canonical_option(opt_view(fed.content_id)) {
        None => b == a,
        Some(id) => exists|p: SyncOpPayload| #[trigger]
            record_step(
                a,
                b,
                p,
                now_ms,
                false,
            ) && (p matches SyncOpPayload::TrackLikeSet { content_id: c, liked: l, fed: f }
                && c@ == id && l == liked && synced_view(f) == (if liked {
                synced_of(fed@)
            } else {
                None
            })),
    }
}

/// What recording that tracks were taken out of a playlist does.
pub open spec fn records_removals(
    a: World,
    b: World,
    playlist_id: i64,
    content_ids: Seq<String>,
    now_ms: i64,
) -> bool {
    match sync_id_of(a.library, playlist_id) {
        None => b == a,
        Some(id) => exists|ps: Seq<SyncOpPayload>| #[trigger]
            records(
                a,
                b,
                ps,
                now_ms,
            ) && ps.len() == distinct_canonical(content_ids).len() && forall|k: int|
            0 <= k < ps.len() ==> removes_item(
                #[trigger] ps[k],
                id,
                distinct_canonical(content_ids)[k],
            ),
    }
}

/// Whether a number is that of the last operation of a device.
pub open spec fn is_last_op(s: DeviceSync, device_id: Seq<char>, r: i64) -> bool {
    r == crate::devices::trust::or_zero(max_seq_of(s.ops@, device_id))
}

impl DeviceSync {
    /// Records a change of this device and carries it out; gives whether it is
    /// a playback command that is to be carried out here.
    pub fn record_local_op(&mut self, library: &mut Library, payload: SyncOpPayload, now_ms: i64) -> (r:
        bool)
        requires
            old(self).local_seq < i64::MAX,
            old(self).last_hlc_ms < i64::MAX,
            has_room(*old(library), 0),
        ensures
            record_step(
                World { sync: *old(self), library: *old(library) },
                World { sync: *final(self), library: *final(library) },
                payload,
                now_ms,
                r,
            ),
    {
        let ghost a = World { sync: *self, library: *library };
        let seq: i64 = self.local_seq + 1;
        let hlc: i64 = if now_ms > self.last_hlc_ms {
            now_ms
        } else {
            self.last_hlc_ms + 1
        };
        let mut op_id = self.device_id.clone();
        op_id.push(':');
        op_id.append(signed_text(seq).as_str());
        proof {
            assert(op_id@ =~= op_name(self.device_id@, seq));
        }
        let op = SyncOpWire {
            op_id,
            origin_device_id: self.device_id.clone(),
            seq,
            hlc_ms: hlc,
            payload,
        };
        let known = self.knows_op(op.op_id.as_str());
        self.local_seq = seq;
        self.last_hlc_ms = hlc;
        let (changed, delivered) = self.apply_op(library, &op, now_ms);
        let own = self.device_id.clone();
        self.note_seq(own.as_str(), seq);
        let ghost whole = op;
        if !known {
            self.ops.push(OpRow { op, received_at_ms: now_ms });
        }
        let ghost m = *self;
        self.gc_tombstones();
        proof {
            assert(keep_step(
                a,
                World { sync: m, library: *library },
                whole,
                now_ms,
                changed,
                delivered,
            ));
            assert(is_next_op(a.sync, whole, payload, now_ms));
            assert(gc_step(m, *self));
            let b = World { sync: *self, library: *library };
            assert(keep_step(
                a,
                World { sync: m, library: b.library },
                whole,
                now_ms,
                changed,
                delivered,
            ));
            assert(record_step(a, b, payload, now_ms, delivered));
        }
        delivered
    }

    /// Records that a track is liked, or no longer; nothing for what is no
    /// content id.
    pub fn record_content_like(
        &mut self,
        library: &mut Library,
        content_id: &str,
        liked: bool,
        now_ms: i64,
    )
        requires
            can_record(*old(self), *old(library), 1, now_ms),
        ensures
            records_like(
                World { sync: *old(self), library: *old(library) },
                World { sync: *final(self), library: *final(library) },
                content_id@,
                liked,
                now_ms,
            ),
    {
        let id = match normalize_content_id(content_id) {
            Some(id) => id,
            None => {
                return;
            },
        };
        let ghost a = World { sync: *self, library: *library };
        let p = SyncOpPayload::TrackLikeSet { content_id: id, liked, fed: None };
        let ghost whole = p;
        let d = self.record_local_op(library, p, now_ms);
        proof {
            assert(record_step(
                a,
                World { sync: *self, library: *library },
                whole,
                now_ms,
                d,
            ));
            lemma_not_delivered(a, World { sync: *self, library: *library }, whole, now_ms, d);
        }
    }

    /// Records that another peer's track is liked, or no longer. A like
    /// carries what is known of the track.
    pub fn record_fed_like(
        &mut self,
        library: &mut Library,
        fed: &FedTrack,
        liked: bool,
        now_ms: i64,
    )
        requires
            can_record(*old(self), *old(library), 1, now_ms),
        ensures
            records_fed_like(
                World { sync: *old(self), library: *old(library) },
                World { sync: *final(self), library: *final(library) },
                *fed,
                liked,
                now_ms,
            ),
    {
        let id = match normalize_option(&fed.content_id) {
            Some(id) => id,
            None => {
                return;
            },
        };
        let ghost a = World { sync: *self, library: *library };
        let told = if liked {
            SyncedFedTrack::from_fed(fed)
        } else {
            None
        };
        let p = SyncOpPayload::TrackLikeSet { content_id: id, liked, fed: told };
        let ghost whole = p;
        let d = self.record_local_op(library, p, now_ms);
        proof {
            assert(record_step(
                a,
                World { sync: *self, library: *library },
                whole,
                now_ms,
                d,
            ));
            lemma_not_delivered(a, World { sync: *self, library: *library }, whole, now_ms, d);
        }
    }

    /// Records that a playlist was made; gives false if there is no such
    /// playlist.
    pub fn record_playlist_created(
        &mut self,
        library: &mut Library,
        playlist_id: i64,
        title: &str,
        now_ms: i64,
        now_nanos: u64,
        process: u32,
    ) -> (r: bool)
        requires
            can_record(*old(self), *old(library), 1, now_ms),
        ensures
            names_playlist(
                World { sync: *old(self), library: *old(library) },
                World { sync: *final(self), library: *final(library) },
                playlist_id,
                title@,
                true,
                now_ms,
                now_nanos,
                process,
                r,
            ),
    {
        let ghost a = World { sync: *self, library: *library };
        let sync_id = match library.ensure_playlist_sync_id(playlist_id, now_nanos, process) {
            Some(s) => s,
            None => {
                return false;
            },
        };
        let ghost m = World { sync: *self, library: *library };
        proof {
            lemma_sync_id_keeps_room(
                a.library,
                m.library,
                playlist_id,
                now_nanos,
                process,
                Some(sync_id@),
            );
        }
        let p = SyncOpPayload::PlaylistCreated { playlist_id: sync_id, title: title.to_owned() };
        let ghost whole = p;
        let d = self.record_local_op(library, p, now_ms);
        proof {
            let b = World { sync: *self, library: *library };
            lemma_not_delivered(m, b, whole, now_ms, d);
            assert(named_along(
                a,
                m,
                b,
                playlist_id,
                title@,
                true,
                now_ms,
                now_nanos,
                process,
                whole,
            ));
        }
        true
    }

    /// Records that a playlist was renamed; gives false if there is no such
    /// playlist.
    pub fn record_playlist_renamed(
        &mut self,
        library: &mut Library,
        playlist_id: i64,
        title: &str,
        now_ms: i64,
        now_nanos: u64,
        process: u32,
    ) -> (r: bool)
        requires
            can_record(*old(self), *old(library), 1, now_ms),
        ensures
            names_playlist(
                World { sync: *old(self), library: *old(library) },
                World { sync: *final(self), library: *final(library) },
                playlist_id,
                title@,
                false,
                now_ms,
                now_nanos,
                process,
                r,
            ),
    {
        let ghost a = World { sync: *self, library: *library };
        let sync_id = match library.ensure_playlist_sync_id(playlist_id, now_nanos, process) {
            Some(s) => s,
            None => {
                return false;
            },
        };
        let ghost m = World { sync: *self, library: *library };
        proof {
            lemma_sync_id_keeps_room(
                a.library,
                m.library,
                playlist_id,
                now_nanos,
                process,
                Some(sync_id@),
            );
        }
        let p = SyncOpPayload::PlaylistRenamed { playlist_id: sync_id, title: title.to_owned() };
        let ghost whole = p;
        let d = self.record_local_op(library, p, now_ms);
        proof {
            let b = World { sync: *self, library: *library };
            lemma_not_delivered(m, b, whole, now_ms, d);
            assert(named_along(
                a,
                m,
                b,
                playlist_id,
                title@,
                false,
                now_ms,
                now_nanos,
                process,
                whole,
            ));
        }
        true
    }

    /// Records that a playlist is deleted; nothing for one that other devices
    /// do not know of.
    pub fn record_playlist_deleted(&mut self, library: &mut Library, playlist_id: i64, now_ms: i64)
        requires
            can_record(*old(self), *old(library), 1, now_ms),
        ensures
            records_deletion(
                World { sync: *old(self), library: *old(library) },
                World { sync: *final(self), library: *final(library) },
                playlist_id,
                now_ms,
            ),
    {
        let sync_id = match library.playlist_sync_id(playlist_id) {
            Some(s) => s,
            None => {
                return;
            },
        };
        let ghost a = World { sync: *self, library: *library };
        let p = SyncOpPayload::PlaylistDeleted { playlist_id: sync_id };
        let ghost whole = p;
        let d = self.record_local_op(library, p, now_ms);
        proof {
            lemma_not_delivered(a, World { sync: *self, library: *library }, whole, now_ms, d);
        }
    }

    /// Records that local tracks were added to a playlist; gives false if
    /// there is no such playlist.
    pub fn record_playlist_tracks_added(
        &mut self,
        library: &mut Library,
        playlist_id: i64,
        track_ids: &[i64],
        now_ms: i64,
        now_nanos: u64,
        process: u32,
    ) -> (r: bool)
        requires
            can_record(*old(self), *old(library), track_ids@.len() as int, now_ms),
        ensures
            adds_tracks(
                World { sync: *old(self), library: *old(library) },
                World { sync: *final(self), library: *final(library) },
                playlist_id,
                track_ids@,
                now_ms,
                now_nanos,
                process,
                r,
            ),
    {
        let ghost a = World { sync: *self, library: *library };
        let sync_id = match library.ensure_playlist_sync_id(playlist_id, now_nanos, process) {
            Some(s) => s,
            None => {
                return false;
            },
        };
        let ghost m = World { sync: *self, library: *library };
        proof {
            lemma_sync_id_keeps_room(
                a.library,
                m.library,
                playlist_id,
                now_nanos,
                process,
                Some(sync_id@),
            );
        }
        let rows = library.playlist_track_content_positions(playlist_id, track_ids);
        proof {
            lemma_few_places(m.library, playlist_id, track_ids@);
        }
        let ghost mut done: Seq<SyncOpPayload> = Seq::empty();
        let mut i: usize = 0;
        proof {
            lemma_records_none(m, now_ms);
        }
        while i < rows.len()
            invariant
                i <= rows@.len(),
                rows@.len() <= track_ids@.len(),
                can_record(a.sync, a.library, track_ids@.len() as int, now_ms),
                self.local_seq == a.sync.local_seq + i,
                self.last_hlc_ms <= (if a.sync.last_hlc_ms > now_ms {
                    a.sync.last_hlc_ms
                } else {
                    now_ms
                }) + i,
                next_playlist_id(library.playlists@) <= next_playlist_id(a.library.playlists@) + i,
                done.len() == i,
                forall|k: int|
                    0 <= k < i ==> adds_item(
                        #[trigger] done[k],
                        sync_id@,
                        rows@[k].0@,
                        rows@[k].1,
                        None,
                    ),
                records(m, World { sync: *self, library: *library }, done, now_ms),
            decreases rows@.len() - i,
        {
            let ghost x = World { sync: *self, library: *library };
            let p = SyncOpPayload::PlaylistTrackAdded {
                playlist_id: sync_id.clone(),
                content_id: rows[i].0.clone(),
                position: rows[i].1,
                fed: None,
            };
            let ghost whole = p;
            let d = self.record_local_op(library, p, now_ms);
            proof {
                let y = World { sync: *self, library: *library };
                lemma_not_delivered(x, y, whole, now_ms, d);
                lemma_record_room(x, y, whole, now_ms, d);
                lemma_records_one_more(m, x, y, done, whole, now_ms);
                done = done.push(whole);
            }
            i += 1;
        }
        proof {
            let b = World { sync: *self, library: *library };
            assert forall|k: int| 0 <= k < done.len() implies adds_item(
                #[trigger] done[k],
                sync_id@,
                content_places(m.library, playlist_id, track_ids@)[k].0,
                content_places(m.library, playlist_id, track_ids@)[k].1,
                None,
            ) by {
                assert(places_view(rows@)[k] == (rows@[k].0@, rows@[k].1));
            }
            assert(added_along(
                a,
                m,
                b,
                playlist_id,
                track_ids@,
                now_ms,
                now_nanos,
                process,
                sync_id@,
                done,
            ));
        }
        true
    }

    /// Records that tracks of other peers were added to a playlist; gives
    /// false if there is no such playlist.
    pub fn record_playlist_fed_tracks_added(
        &mut self,
        library: &mut Library,
        playlist_id: i64,
        tracks: &[FedTrack],
        now_ms: i64,
        now_nanos: u64,
        process: u32,
    ) -> (r: bool)
        requires
            can_record(*old(self), *old(library), tracks@.len() as int, now_ms),
            tracks@.len() <= i64::MAX,
        ensures
            adds_fed_tracks(
                World { sync: *old(self), library: *old(library) },
                World { sync: *final(self), library: *final(library) },
                playlist_id,
                tracks@,
                now_ms,
                now_nanos,
                process,
                r,
            ),
    {
        let ghost a = World { sync: *self, library: *library };
        let sync_id = match library.ensure_playlist_sync_id(playlist_id, now_nanos, process) {
            Some(s) => s,
            None => {
                return false;
            },
        };
        let ghost m = World { sync: *self, library: *library };
        proof {
            lemma_sync_id_keeps_room(
                a.library,
                m.library,
                playlist_id,
                now_nanos,
                process,
                Some(sync_id@),
            );
        }
        let ghost mut w: Seq<World> = seq![m];
        let mut i: usize = 0;
        proof {
            assert(fed_added_along(m, m, playlist_id, sync_id@, tracks@.take(0), now_ms, w));
        }
        while i < tracks.len()
            invariant
                i <= tracks@.len() <= i64::MAX,
                can_record(a.sync, a.library, tracks@.len() as int, now_ms),
                self.local_seq <= a.sync.local_seq + i,
                self.last_hlc_ms <= (if a.sync.last_hlc_ms > now_ms {
                    a.sync.last_hlc_ms
                } else {
                    now_ms
                }) + i,
                next_playlist_id(library.playlists@) <= next_playlist_id(a.library.playlists@) + i,
                fed_added_along(
                    m,
                    World { sync: *self, library: *library },
                    playlist_id,
                    sync_id@,
                    tracks@.take(i as int),
                    now_ms,
                    w,
                ),
            decreases tracks@.len() - i,
        {
            let ghost x = World { sync: *self, library: *library };
            let fed = &tracks[i];
            if let Some(id) = normalize_option(&fed.content_id) {
                let position: i64 = match library.playlist_content_position(
                    playlist_id,
                    id.as_str(),
                ) {
                    Some(n) => n,
                    None => i as i64,
                };
                let p = SyncOpPayload::PlaylistTrackAdded {
                    playlist_id: sync_id.clone(),
                    content_id: id,
                    position,
                    fed: SyncedFedTrack::from_fed(fed),
                };
                let ghost whole = p;
                let d = self.record_local_op(library, p, now_ms);
                proof {
                    let y = World { sync: *self, library: *library };
                    lemma_not_delivered(x, y, whole, now_ms, d);
                    lemma_record_room(x, y, whole, now_ms, d);
                    assert(record_step(x, y, whole, now_ms, false));
                }
            }
            proof {
                let y = World { sync: *self, library: *library };
                assert(fed_added_step(
                    x,
                    y,
                    playlist_id,
                    sync_id@,
                    tracks@[i as int]@,
                    i as int,
                    now_ms,
                ));
                let w1 = w.push(y);
                let done = tracks@.take(i + 1);
                assert forall|k: int| 0 <= k < done.len() implies fed_added_step(
                    w1[k],
                    w1[k + 1],
                    playlist_id,
                    sync_id@,
                    (#[trigger] done[k])@,
                    k,
                    now_ms,
                ) by {
                    if k < i {
                        assert(tracks@.take(i as int)[k] == done[k]);
                    }
                }
                w = w1;
                assert(fed_added_along(m, y, playlist_id, sync_id@, done, now_ms, w));
            }
            i += 1;
        }
        proof {
            assert(tracks@.take(tracks@.len() as int) =~= tracks@);
            let b = World { sync: *self, library: *library };
            assert(fed_added_through(
                a,
                m,
                b,
                playlist_id,
                tracks@,
                now_ms,
                now_nanos,
                process,
                sync_id@,
                w,
            ));
        }
        true
    }

    /// Records that tracks were taken out of a playlist, each content once;
    /// nothing for a playlist that other devices do not know of.
    pub fn record_playlist_content_removed(
        &mut self,
        library: &mut Library,
        playlist_id: i64,
        content_ids: &[String],
        now_ms: i64,
    )
        requires
            can_record(*old(self), *old(library), content_ids@.len() as int, now_ms),
        ensures
            records_removals(
                World { sync: *old(self), library: *old(library) },
                World { sync: *final(self), library: *final(library) },
                playlist_id,
                content_ids@,
                now_ms,
            ),
    {
        let sync_id = match library.playlist_sync_id(playlist_id) {
            Some(s) => s,
            None => {
                return;
            },
        };
        let ghost a = World { sync: *self, library: *library };
        let mut seen: Vec<String> = Vec::new();
        let ghost mut done: Seq<SyncOpPayload> = Seq::empty();
        let mut i: usize = 0;
        proof {
            lemma_records_none(a, now_ms);
            assert(crate::text::views(seen@) =~= distinct_canonical(content_ids@.take(0)));
        }
        while i < content_ids.len()
            invariant
                i <= content_ids@.len(),
                can_record(a.sync, a.library, content_ids@.len() as int, now_ms),
                seen@.len() <= i,
                self.local_seq == a.sync.local_seq + seen@.len(),
                self.last_hlc_ms <= (if a.sync.last_hlc_ms > now_ms {
                    a.sync.last_hlc_ms
                } else {
                    now_ms
                }) + seen@.len(),
                next_playlist_id(library.playlists@) <= next_playlist_id(a.library.playlists@)
                    + seen@.len(),
                crate::text::views(seen@) == distinct_canonical(content_ids@.take(i as int)),
                done.len() == seen@.len(),
                forall|k: int|
                    0 <= k < done.len() ==> removes_item(
                        #[trigger] done[k],
                        sync_id@,
                        seen@[k]@,
                    ),
                records(a, World { sync: *self, library: *library }, done, now_ms),
            decreases content_ids@.len() - i,
        {
            proof {
                assert(content_ids@.take(i + 1).drop_last() =~= content_ids@.take(i as int));
            }
            if let Some(id) = normalize_content_id(content_ids[i].as_str()) {
                let known = holds_text(&seen, id.as_str());
                if !known {
                    let ghost x = World { sync: *self, library: *library };
                    let p = SyncOpPayload::PlaylistTrackRemoved {
                        playlist_id: sync_id.clone(),
                        content_id: id.clone(),
                    };
                    let ghost whole = p;
                    let d = self.record_local_op(library, p, now_ms);
                    proof {
                        let y = World { sync: *self, library: *library };
                        lemma_not_delivered(x, y, whole, now_ms, d);
                        lemma_record_room(x, y, whole, now_ms, d);
                        lemma_records_one_more(a, x, y, done, whole, now_ms);
                        done = done.push(whole);
                    }
                    let ghost before = seen@;
                    seen.push(id);
                    proof {
                        assert(crate::text::views(seen@) =~= crate::text::views(before).push(
                            seen@.last()@,
                        ));
                        assert forall|k: int| 0 <= k < done.len() implies removes_item(
                            #[trigger] done[k],
                            sync_id@,
                            seen@[k]@,
                        ) by {
                            if k < before.len() {
                                assert(seen@[k] == before[k]);
                            }
                        }
                    }
                }
            }
            i += 1;
        }
        proof {
            assert(content_ids@.take(content_ids@.len() as int) =~= content_ids@);
            assert forall|k: int| 0 <= k < done.len() implies removes_item(
                #[trigger] done[k],
                sync_id@,
                distinct_canonical(content_ids@)[k],
            ) by {
                assert(crate::text::views(seen@)[k] == seen@[k]@);
            }
        }
    }

    /// Records a playback command for a device; nothing for no device. Gives
    /// whether it is to be carried out here.
    pub fn record_playback_command(
        &mut self,
        library: &mut Library,
        target_device_id: &str,
        command: PlaybackCommand,
        now_ms: i64,
    ) -> (r: bool)
        requires
            can_record(*old(self), *old(library), 1, now_ms),
        ensures
            if is_blank(target_device_id@) {
                !r && *final(self) == *old(self) && *final(library) == *old(library)
            } else {
                exists|p: SyncOpPayload| #[trigger]
                    record_step(
                        World { sync: *old(self), library: *old(library) },
                        World { sync: *final(self), library: *final(library) },
                        p,
                        now_ms,
                        r,
                    ) && (p matches SyncOpPayload::PlaybackCommand {
                        target_device_id: t,
                        command: c,
                    } && t@ == target_device_id@ && c == command)
            },
    {
        if blank(target_device_id) {
            return false;
        }
        let p = SyncOpPayload::PlaybackCommand {
            target_device_id: target_device_id.to_owned(),
            command,
        };
        self.record_local_op(library, p, now_ms)
    }

    /// The number up to which operations of a device are known.
    pub fn last_op_of(&self, device_id: &str) -> (r: i64)
        ensures
            is_last_op(*self, device_id@, r),
    {
        let mut best: Option<i64> = None;
        let mut i: usize = 0;
        while i < self.ops.len()
            invariant
                i <= self.ops@.len(),
                best == max_seq_of(self.ops@.take(i as int), device_id@),
            decreases self.ops@.len() - i,
        {
            proof {
                assert(self.ops@.take(i + 1).drop_last() =~= self.ops@.take(i as int));
            }
            let op = &self.ops[i].op;
            if same(op.origin_device_id.as_str(), device_id) {
                let larger = match best {
                    Some(n) => n < op.seq,
                    None => true,
                };
                if larger {
                    best = Some(op.seq);
                }
            }
            i += 1;
        }
        proof {
            assert(self.ops@.take(self.ops@.len() as int) =~= self.ops@);
        }
        match best {
            Some(n) => n,
            None => 0,
        }
    }

    /// Withdraws the trust in a device: what it did up to now stays. A device
    /// cannot do this to itself.
    pub fn revoke_device(&mut self, library: &mut Library, device_id: &str, now_ms: i64) -> (r: Result<
        (),
        RevokeError,
    >)
        requires
            can_record(*old(self), *old(library), 1, now_ms),
        ensures
            revokes(
                World { sync: *old(self), library: *old(library) },
                World { sync: *final(self), library: *final(library) },
                device_id@,
                now_ms,
                r,
            ),
    {
        if same(device_id, self.device_id.as_str()) {
            return Err(RevokeError::OwnDevice);
        }
        let ghost a = World { sync: *self, library: *library };
        let cutoff = self.last_op_of(device_id);
        let p = SyncOpPayload::DeviceRevoked {
            target_device_id: device_id.to_owned(),
            target_max_seq_seen: cutoff,
        };
        let ghost whole = p;
        let d = self.record_local_op(library, p, now_ms);
        let ghost m = *self;
        proof {
            lemma_not_delivered(a, World { sync: m, library: *library }, whole, now_ms, d);
        }
        self.gc_tombstones();
        proof {
            assert(record_step(a, World { sync: m, library: *library }, whole, now_ms, false));
        }
        Ok(())
    }

    /// Names this device; a blank name becomes the usual one. At an address,
    /// the others are told.
    pub fn set_device_name(
        &mut self,
        library: &mut Library,
        name: &str,
        client_version: &str,
        address: Option<(String, String)>,
        now_ms: i64,
    )
        requires
            can_record(*old(self), *old(library), 1, now_ms),
        ensures
            exists|m: DeviceSync| #[trigger]
                renamed(*old(self), m, given_name(name@), client_version@) && match address {
                    None => *final(self) == m && *final(library) == *old(library),
                    Some((endpoint_id, ticket)) => exists|p: SyncOpPayload| #[trigger]
                        record_step(
                            World { sync: m, library: *old(library) },
                            World { sync: *final(self), library: *final(library) },
                            p,
                            now_ms,
                            false,
                        ) && (p matches SyncOpPayload::DeviceProfileSet {
                            name: n,
                            client_version: v,
                            endpoint_ticket: t,
                            endpoint_id: e,
                        } && n@ == given_name(name@) && v@ == client_version@ && t == ticket && e
                            == endpoint_id),
                },
    {
        let ghost a = *self;
        let ghost name_given = name@;
        let name = if blank(name) {
            "furumi".to_owned()
        } else {
            trim(name)
        };
        self.name = name.clone();
        let found = match self.devices.get(self.device_id.as_str()) {
            Some(d) => Some(d.clone()),
            None => None,
        };
        if let Some(d) = found {
            let mut row = d;
            row.name = name.clone();
            row.client_version = client_version.to_owned();
            let id = self.device_id.clone();
            self.devices.set(id.as_str(), row);
        }
        let ghost m = *self;
        proof {
            assert(renamed(a, m, name@, client_version@));
        }
        if let Some((endpoint_id, endpoint_ticket)) = address {
            let ghost x = World { sync: *self, library: *library };
            let p = SyncOpPayload::DeviceProfileSet {
                name,
                client_version: client_version.to_owned(),
                endpoint_ticket,
                endpoint_id,
            };
            let ghost whole = p;
            let d = self.record_local_op(library, p, now_ms);
            proof {
                let y = World { sync: *self, library: *library };
                lemma_not_delivered(x, y, whole, now_ms, d);
                assert(record_step(x, y, whole, now_ms, false));
            }
        }
        proof {
            assert(renamed(a, m, given_name(name_given), client_version@));
        }
    }
}

/// The name that a device gets.
pub open spec fn given_name(name: Seq<char>) -> Seq<char> {
    if is_blank(name) {
        "furumi"@
    } else {
        trimmed(name)
    }
}

/// What naming a device changes.
pub open spec fn renamed(a: DeviceSync, b: DeviceSync, name: Seq<char>, client_version: Seq<char>) -> bool {
    let id = a.device_id@;
    &&& b.name@ == name
    &&& b.devices@ == (if a.devices@.dom().contains(id) {
        a.devices@.insert(
            id,
            crate::devices::trust::DeviceView { name, client_version, ..a.devices@[id] },
        )
    } else {
        a.devices@
    })
    &&& b == DeviceSync { name: b.name, devices: b.devices, ..a }
}

/// Only a playback command is carried out at once.
proof fn lemma_not_delivered(a: World, b: World, p: SyncOpPayload, now: i64, delivered: bool)
    requires
        record_step(a, b, p, now, delivered),
        !(p is PlaybackCommand),
    ensures
        !delivered,
        record_step(a, b, p, now, false),
{
}

/// A list of tracks has at most as many places as tracks.
proof fn lemma_few_places(l: Library, playlist_id: i64, ids: Seq<i64>)
    ensures
        content_places(l, playlist_id, ids).len() <= ids.len(),
    decreases ids.len(),
{
    if ids.len() > 0 {
        lemma_few_places(l, playlist_id, ids.drop_last());
    }
}

pub open spec fn named_along(
    a: World,
    m: World,
    b: World,
    playlist_id: i64,
    title: Seq<char>,
    created: bool,
    now: i64,
    nanos: u64,
    process: u32,
    p: SyncOpPayload,
) -> bool {
    let id = if created {
        p->PlaylistCreated_playlist_id@
    } else {
        p->PlaylistRenamed_playlist_id@
    };
    &&& makes_sync_id(a.library, m.library, playlist_id, nanos, process, Some(id))
    &&& m.sync == a.sync
    &&& if created {
        p is PlaylistCreated && p->PlaylistCreated_title@ == title
    } else {
        p is PlaylistRenamed && p->PlaylistRenamed_title@ == title
    }
    &&& record_step(m, b, p, now, false)
}

/// What recording the name of a playlist does: the playlist gets the id that
/// it has on every device, and the others are told.
pub open spec fn names_playlist(
    a: World,
    b: World,
    playlist_id: i64,
    title: Seq<char>,
    created: bool,
    now: i64,
    nanos: u64,
    process: u32,
    r: bool,
) -> bool {
    if !r {
        b == a && first_where(
            a.library.playlists@,
            crate::library::tables::is_playlist(playlist_id),
        ) is None
    } else {
        exists|m: World, p: SyncOpPayload| #[trigger]
            named_along(a, m, b, playlist_id, title, created, now, nanos, process, p)
    }
}

pub open spec fn added_along(
    a: World,
    m: World,
    b: World,
    playlist_id: i64,
    track_ids: Seq<i64>,
    now: i64,
    nanos: u64,
    process: u32,
    sync_id: Seq<char>,
    ps: Seq<SyncOpPayload>,
) -> bool {
    let rows = content_places(m.library, playlist_id, track_ids);
    &&& makes_sync_id(a.library, m.library, playlist_id, nanos, process, Some(sync_id))
    &&& m.sync == a.sync
    &&& records(m, b, ps, now)
    &&& ps.len() == rows.len()
    &&& forall|k: int|
        0 <= k < ps.len() ==> adds_item(#[trigger] ps[k], sync_id, rows[k].0, rows[k].1, None)
}

/// What recording the addition of local tracks to a playlist does: one
/// operation for each that has a content id, with its position.
pub open spec fn adds_tracks(
    a: World,
    b: World,
    playlist_id: i64,
    track_ids: Seq<i64>,
    now: i64,
    nanos: u64,
    process: u32,
    r: bool,
) -> bool {
    if !r {
        b == a && first_where(
            a.library.playlists@,
            crate::library::tables::is_playlist(playlist_id),
        ) is None
    } else {
        exists|m: World, sync_id: Seq<char>, ps: Seq<SyncOpPayload>| #[trigger]
            added_along(a, m, b, playlist_id, track_ids, now, nanos, process, sync_id, ps)
    }
}

pub open spec fn fed_added_through(
    a: World,
    m: World,
    b: World,
    playlist_id: i64,
    tracks: Seq<FedTrack>,
    now: i64,
    nanos: u64,
    process: u32,
    sync_id: Seq<char>,
    w: Seq<World>,
) -> bool {
    &&& makes_sync_id(a.library, m.library, playlist_id, nanos, process, Some(sync_id))
    &&& m.sync == a.sync
    &&& fed_added_along(m, b, playlist_id, sync_id, tracks, now, w)
}

/// What recording the addition of tracks of other peers to a playlist does.
pub open spec fn adds_fed_tracks(
    a: World,
    b: World,
    playlist_id: i64,
    tracks: Seq<FedTrack>,
    now: i64,
    nanos: u64,
    process: u32,
    r: bool,
) -> bool {
    if !r {
        b == a && first_where(
            a.library.playlists@,
            crate::library::tables::is_playlist(playlist_id),
        ) is None
    } else {
        exists|m: World, sync_id: Seq<char>, w: Seq<World>| #[trigger]
            fed_added_through(a, m, b, playlist_id, tracks, now, nanos, process, sync_id, w)
    }
}

} // verus!
