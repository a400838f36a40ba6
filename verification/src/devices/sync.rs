//! The synchronised state of a device and what an operation does to it and to
//! the library.

use crate::content_id::{canonical, canonical_option, law_canonical_is_idempotent, normalize_content_id};
use crate::devices::lww::{
    is_later, merged, wins, ItemState, ItemView, LikeState, LikeView, PlaylistState, PlaylistView,
};
use crate::devices::model::{
    synced_view, DeviceProfileWire, PlaybackSnapshot, SyncOpPayload, SyncOpWire, SyncedFedTrack,
    PROTOCOL_VERSION,
};
use crate::devices::trust::{
    accepts, accepts_op, active, put_profile, revoke, trust, with_profile, with_revoked,
    with_trusted, DeviceRow, Devices,
};
use crate::federation::track::FedTrackView;
use crate::keyed::Keyed;
use crate::library::likes::{
    fed_lacks_content, found_fed_like, likes_other_track, upserts_like, with_like,
};
use crate::library::playlists::{
    adds_content, deletes_playlist, drops_content, sets_fed_track, sets_playlist,
};
use crate::library::tables::{playlist_of_sync_id, track_named, Library, LikeRow};
use crate::text::{blank, is_blank, opt_view, same};
use vstd::prelude::*;

verus! {

/// An invite that was handed out.
#[derive(Debug)]
pub struct InviteRow {
    pub secret_hash: String,
    pub expires_at_ms: i64,
    pub created_at_ms: i64,
    pub used_at_ms: Option<i64>,
}

#[verifier::ext_equal]
pub struct InviteView {
    pub secret_hash: Seq<char>,
    pub expires_at: i64,
    pub created_at: i64,
    pub used_at: Option<i64>,
}

impl View for InviteRow {
    type V = InviteView;

    open spec fn view(&self) -> InviteView {
        InviteView {
            secret_hash: self.secret_hash@,
            expires_at: self.expires_at_ms,
            created_at: self.created_at_ms,
            used_at: self.used_at_ms,
        }
    }
}

/// The answer to a request to join.
#[derive(Clone, Copy, PartialEq, Eq, Structural, Debug)]
pub enum PairingAnswer {
    Pending,
    Accepted,
    Denied,
}

/// A request to join.
#[derive(Debug)]
pub struct PendingRow {
    pub device_id: String,
    pub name: String,
    pub client_version: String,
    pub endpoint_id: String,
    pub endpoint_ticket: String,
    pub invite_id: String,
    pub created_at_ms: i64,
    pub answered_at_ms: Option<i64>,
    pub status: PairingAnswer,
    pub requester_group_id: Option<String>,
    pub requester_group_active_devices: usize,
    pub requester_group_devices: Vec<DeviceProfileWire>,
    pub use_requester_group: bool,
}

#[verifier::ext_equal]
pub struct PendingView {
    pub device_id: Seq<char>,
    pub name: Seq<char>,
    pub client_version: Seq<char>,
    pub endpoint_id: Seq<char>,
    pub endpoint_ticket: Seq<char>,
    pub invite_id: Seq<char>,
    pub created_at: i64,
    pub answered_at: Option<i64>,
    pub status: PairingAnswer,
    pub group_id: Option<Seq<char>>,
    pub group_active: usize,
    pub group_devices: Seq<DeviceProfileWire>,
    pub use_requester_group: bool,
}

impl View for PendingRow {
    type V = PendingView;

    open spec fn view(&self) -> PendingView {
        PendingView {
            device_id: self.device_id@,
            name: self.name@,
            client_version: self.client_version@,
            endpoint_id: self.endpoint_id@,
            endpoint_ticket: self.endpoint_ticket@,
            invite_id: self.invite_id@,
            created_at: self.created_at_ms,
            answered_at: self.answered_at_ms,
            status: self.status,
            group_id: opt_view(self.requester_group_id),
            group_active: self.requester_group_active_devices,
            group_devices: self.requester_group_devices@,
            use_requester_group: self.use_requester_group,
        }
    }
}

/// An operation and when it came in.
#[derive(Debug)]
pub struct OpRow {
    pub op: SyncOpWire,
    pub received_at_ms: i64,
}

/// What a device knows of its group.
pub struct DeviceSync {
    pub device_id: String,
    pub group_id: String,
    pub name: String,
    /// The number of the last operation of this device.
    pub local_seq: i64,
    /// The clock of the last operation of this device.
    pub last_hlc_ms: i64,
    pub devices: Keyed<DeviceRow>,
    pub invites: Keyed<InviteRow>,
    pub pending: Keyed<PendingRow>,
    pub ops: Vec<OpRow>,
    /// The last operation that is known of each device.
    pub vectors: Keyed<i64>,
    /// For each other device, the last operation of each that it has.
    pub acks: Keyed<Keyed<i64>>,
    /// Up to which operation of each device tombstones are gone.
    pub compacted: Keyed<i64>,
    pub likes: Keyed<LikeState>,
    pub playlists: Keyed<PlaylistState>,
    /// The items of each playlist, by content id.
    pub items: Keyed<Keyed<ItemState>>,
    /// The playback commands that were carried out.
    pub applied_playback: Keyed<i64>,
    pub local_playback: Option<PlaybackSnapshot>,
    /// When the playback of each other device was last reported.
    pub remote_playback: Keyed<i64>,
    pub last_sync: Option<String>,
    pub last_error: Option<String>,
}

/// The state of a device together with its library.
pub struct World {
    pub sync: DeviceSync,
    pub library: Library,
}

// ---------------------------------------------------------------------------
// What each operation means
// ---------------------------------------------------------------------------

/// The likes of local tracks after one was set or taken away.
pub open spec fn synced_likes(likes: Seq<LikeRow>, track_id: i64, liked: bool, hlc: i64) -> Seq<
    LikeRow,
> {
    if liked {
        with_like(likes, LikeRow { track_id, liked_at_ms: hlc, liked_hlc_ms: Some(hlc) })
    } else {
        likes.filter(likes_other_track(track_id))
    }
}

/// What a like, or its withdrawal, does: the later of it and of what is known
/// holds, and the library follows what holds. A like of a track that is here
/// is a like of that track; of one that is not, it is kept with what is known
/// of the track.
pub open spec fn like_step(
    a: World,
    b: World,
    content_id: Seq<char>,
    liked: bool,
    fed: Option<FedTrackView>,
    hlc: i64,
    op: Seq<char>,
    changed: bool,
) -> bool {
    match canonical(content_id) {
        None => b == a && !changed,
        Some(id) => {
            let v = LikeView { liked, hlc, op };
            let applied = wins(a.sync.likes@, id, v);
            let holds = merged(a.sync.likes@, id, v)[id];
            &&& b.sync.likes@ == merged(a.sync.likes@, id, v)
            &&& b.sync == DeviceSync { likes: b.sync.likes, ..a.sync }
            &&& match track_named(a.library, id) {
                Some(t) => {
                    &&& b.library.likes@ == synced_likes(
                        a.library.likes@,
                        t,
                        holds.liked,
                        holds.hlc,
                    )
                    &&& b.library.fed_likes@ == (if holds.liked {
                        a.library.fed_likes@.filter(fed_lacks_content(id))
                    } else {
                        a.library.fed_likes@
                    })
                    &&& b.library == Library {
                        likes: b.library.likes,
                        fed_likes: b.library.fed_likes,
                        ..a.library
                    }
                    &&& changed == (applied || holds.liked || b.library.likes@.len()
                        < a.library.likes@.len())
                },
                None => if holds.liked {
                    match fed {
                        Some(f) => exists|r: bool| #[trigger]
                            upserts_like(a.library, b.library, f, holds.hlc, r) && changed == (
                            applied || r),
                        None => b.library == a.library && changed == applied,
                    }
                } else if applied {
                    &&& changed
                    &&& b.library.fed_likes@ == a.library.fed_likes@.filter(fed_lacks_content(id))
                    &&& b.library == Library { fed_likes: b.library.fed_likes, ..a.library }
                } else {
                    b.library == a.library && !changed
                },
            }
        },
    }
}

/// What the creation, the renaming or the deletion of a playlist does.
pub open spec fn playlist_step(
    a: World,
    b: World,
    playlist_id: Seq<char>,
    title: Seq<char>,
    deleted: bool,
    hlc: i64,
    op: Seq<char>,
    changed: bool,
) -> bool {
    let v = PlaylistView { title, deleted, hlc, op };
    &&& changed == wins(a.sync.playlists@, playlist_id, v)
    &&& b.sync.playlists@ == merged(a.sync.playlists@, playlist_id, v)
    &&& b.sync == DeviceSync { playlists: b.sync.playlists, ..a.sync }
    &&& if changed && deleted {
        deletes_playlist(a.library, b.library, playlist_id)
    } else if changed && !is_blank(title) {
        sets_playlist(a.library, b.library, playlist_id, title)
    } else {
        b.library == a.library
    }
}

/// The items of a playlist.
pub open spec fn items_of(
    m: Map<Seq<char>, Map<Seq<char>, ItemView>>,
    playlist_id: Seq<char>,
) -> Map<Seq<char>, ItemView> {
    if m.dom().contains(playlist_id) {
        m[playlist_id]
    } else {
        Map::empty()
    }
}

/// The items of all playlists with one merged into them.
pub open spec fn merged_item(
    m: Map<Seq<char>, Map<Seq<char>, ItemView>>,
    playlist_id: Seq<char>,
    content_id: Seq<char>,
    v: ItemView,
) -> Map<Seq<char>, Map<Seq<char>, ItemView>> {
    m.insert(playlist_id, merged(items_of(m, playlist_id), content_id, v))
}

/// What is known of the track of an item: what came along, else what a like
/// keeps of it.
pub open spec fn item_track(l: Library, content_id: Seq<char>, fed: Option<FedTrackView>) -> Option<
    FedTrackView,
> {
    match fed {
        Some(f) => Some(f),
        None => found_fed_like(l, content_id),
    }
}

/// What the addition or the removal of a playlist item does. An item that
/// holds is put into the playlist of the library, as the track that is here
/// and with what is known of the track of another peer.
pub open spec fn item_step(
    a: World,
    b: World,
    playlist_id: Seq<char>,
    content_id: Seq<char>,
    present: bool,
    position: i64,
    fed: Option<FedTrackView>,
    hlc: i64,
    op: Seq<char>,
    changed: bool,
) -> bool {
    let v = ItemView { present, position, hlc, op };
    let known = items_of(a.sync.items@, playlist_id);
    let applied = wins(known, content_id, v);
    let holds = merged(known, content_id, v)[content_id];
    &&& b.sync.items@ == merged_item(a.sync.items@, playlist_id, content_id, v)
    &&& b.sync == DeviceSync { items: b.sync.items, ..a.sync }
    &&& if holds.present {
        let mid = Library { playlist_tracks: b.library.playlist_tracks, ..a.library };
        let track = item_track(a.library, content_id, fed);
        &&& adds_content(a.library, mid, playlist_id, content_id)
        &&& match track {
            Some(f) => sets_fed_track(mid, b.library, playlist_id, f, holds.position),
            None => b.library == mid,
        }
        &&& changed == (applied || (track_named(a.library, content_id) is Some
            && playlist_of_sync_id(a.library, playlist_id) is Some) || (track matches Some(f)
            && canonical_option(f.content_id) is Some))
    } else if applied {
        changed && drops_content(a.library, b.library, playlist_id, content_id)
    } else {
        b.library == a.library && !changed
    }
}

/// The devices after a profile was taken over. One's own is not; one that is
/// trusted from now on is trusted since now.
pub open spec fn profiled(
    m: Devices,
    own: Seq<char>,
    p: DeviceProfileWire,
    trusted: bool,
    now: i64,
) -> Devices {
    if p.device_id@ == own {
        m
    } else if trusted {
        with_trusted(with_profile(m, p, now), p.device_id@, now)
    } else {
        with_profile(m, p, p.updated_at_ms)
    }
}

/// The devices after several profiles were taken over, in order.
pub open spec fn profiled_all(m: Devices, own: Seq<char>, ps: Seq<DeviceProfileWire>, now: i64) -> Devices
    decreases ps.len(),
{
    if ps.len() == 0 {
        m
    } else {
        profiled(profiled_all(m, own, ps.drop_last(), now), own, ps.last(), false, now)
    }
}

/// The profile that an operation sets.
pub open spec fn profile_of(op: SyncOpWire) -> DeviceProfileWire
    recommends
        op.payload is DeviceProfileSet,
{
    DeviceProfileWire {
        device_id: op.origin_device_id,
        name: op.payload->DeviceProfileSet_name,
        client_version: op.payload->DeviceProfileSet_client_version,
        protocol_version: PROTOCOL_VERSION,
        endpoint_id: op.payload->DeviceProfileSet_endpoint_id,
        endpoint_ticket: op.payload->DeviceProfileSet_endpoint_ticket,
        revoked: false,
        revoke_cutoff_seq: None,
        updated_at_ms: op.hlc_ms,
    }
}

/// Whether a playback command is to be carried out: it is for this device,
/// and was not carried out before.
pub open spec fn delivers(s: DeviceSync, target: Seq<char>, op: Seq<char>) -> bool {
    target == s.device_id@ && !s.applied_playback@.dom().contains(op)
}

/// What an operation does; whether it changes anything that is shown, and
/// whether it carries a playback command that is to be carried out now.
pub open spec fn op_step(
    a: World,
    b: World,
    op: SyncOpWire,
    now: i64,
    changed: bool,
    delivered: bool,
) -> bool {
    match op.payload {
        SyncOpPayload::TrackLikeSet { content_id, liked, fed } => !delivered && like_step(
            a,
            b,
            content_id@,
            liked,
            synced_view(fed),
            op.hlc_ms,
            op.op_id@,
            changed,
        ),
        SyncOpPayload::PlaylistCreated { playlist_id, title } => !delivered && playlist_step(
            a,
            b,
            playlist_id@,
            title@,
            false,
            op.hlc_ms,
            op.op_id@,
            changed,
        ),
        SyncOpPayload::PlaylistRenamed { playlist_id, title } => !delivered && playlist_step(
            a,
            b,
            playlist_id@,
            title@,
            false,
            op.hlc_ms,
            op.op_id@,
            changed,
        ),
        SyncOpPayload::PlaylistDeleted { playlist_id } => !delivered && playlist_step(
            a,
            b,
            playlist_id@,
            Seq::empty(),
            true,
            op.hlc_ms,
            op.op_id@,
            changed,
        ),
        SyncOpPayload::PlaylistTrackAdded { playlist_id, content_id, position, fed } => !delivered
            && item_step(
            a,
            b,
            playlist_id@,
            content_id@,
            true,
            position,
            synced_view(fed),
            op.hlc_ms,
            op.op_id@,
            changed,
        ),
        SyncOpPayload::PlaylistTrackRemoved { playlist_id, content_id } => !delivered && item_step(
            a,
            b,
            playlist_id@,
            content_id@,
            false,
            0,
            None,
            op.hlc_ms,
            op.op_id@,
            changed,
        ),
        SyncOpPayload::DeviceProfileSet { .. } => {
            &&& !delivered
            &&& !changed
            &&& b.library == a.library
            &&& b.sync.devices@ == profiled(
                a.sync.devices@,
                a.sync.device_id@,
                profile_of(op),
                false,
                now,
            )
            &&& b.sync == DeviceSync { devices: b.sync.devices, ..a.sync }
        },
        SyncOpPayload::DeviceTrusted { target_device_id } => {
            &&& !delivered
            &&& changed == (a.sync.devices@.dom().contains(target_device_id@)
                && a.sync.devices@[target_device_id@].revoked_at is Some)
            &&& b.library == a.library
            &&& b.sync.devices@ == with_trusted(a.sync.devices@, target_device_id@, op.hlc_ms)
            &&& b.sync == DeviceSync { devices: b.sync.devices, ..a.sync }
        },
        SyncOpPayload::DeviceRevoked { target_device_id, target_max_seq_seen } => {
            &&& !delivered
            &&& changed == active(a.sync.devices@, target_device_id@)
            &&& b.library == a.library
            &&& b.sync.devices@ == with_revoked(
                a.sync.devices@,
                target_device_id@,
                op.hlc_ms,
                op.origin_device_id@,
                target_max_seq_seen,
            )
            &&& b.sync == DeviceSync { devices: b.sync.devices, ..a.sync }
        },
        SyncOpPayload::PlaybackCommand { target_device_id, .. } => {
            &&& !changed
            &&& b.library == a.library
            &&& delivered == delivers(a.sync, target_device_id@, op.op_id@)
            &&& b.sync.applied_playback@ == (if delivered {
                a.sync.applied_playback@.insert(op.op_id@, now)
            } else {
                a.sync.applied_playback@
            })
            &&& b.sync == DeviceSync { applied_playback: b.sync.applied_playback, ..a.sync }
        },
    }
}

/// The rows of operations with an id.
pub open spec fn is_op(id: Seq<char>) -> spec_fn(OpRow) -> bool {
    |r: OpRow| r.op.op_id@ == id
}

/// The last known operations with one more: a number never goes back.
pub open spec fn bumped(m: Map<Seq<char>, i64>, device: Seq<char>, seq: i64) -> Map<Seq<char>, i64> {
    if m.dom().contains(device) && m[device] >= seq {
        m
    } else {
        m.insert(device, seq)
    }
}

impl DeviceSync {
    /// Takes a like, or its withdrawal, into the state and the library; gives
    /// whether anything changed.
    pub fn apply_like_state(
        &mut self,
        library: &mut Library,
        content_id: &str,
        liked: bool,
        fed: &Option<SyncedFedTrack>,
        hlc_ms: i64,
        op_id: &str,
    ) -> (changed: bool)
        ensures
            like_step(
                World { sync: *old(self), library: *old(library) },
                World { sync: *final(self), library: *final(library) },
                content_id@,
                liked,
                synced_view(*fed),
                hlc_ms,
                op_id@,
                changed,
            ),
    {
        let id = match normalize_content_id(content_id) {
            Some(id) => id,
            None => {
                return false;
            },
        };
        proof {
            law_canonical_is_idempotent(content_id@);
        }
        let ghost v = LikeView { liked, hlc: hlc_ms, op: op_id@ };
        let ghost known = self.likes@;
        let current = match self.likes.get(id.as_str()) {
            Some(c) => Some((c.liked, c.hlc_ms, is_later(hlc_ms, op_id, c.hlc_ms, c.op_id.as_str()))),
            None => None,
        };
        let (applied, eff_liked, eff_hlc) = match current {
            None => (true, liked, hlc_ms),
            Some((was, at, later)) => if later {
                (true, liked, hlc_ms)
            } else {
                (false, was, at)
            },
        };
        if applied {
            let row = LikeState { liked, hlc_ms, op_id: op_id.to_owned() };
            proof {
                assert(row@ =~= v);
            }
            self.likes.set(id.as_str(), row);
        }
        proof {
            assert(applied == wins(known, id@, v));
            assert(self.likes@ =~= merged(known, id@, v));
        }
        match library.track_id_by_content_id(id.as_str()) {
            Some(track_id) => {
                let a = library.set_synced_like(track_id, eff_liked, eff_hlc);
                if eff_liked {
                    let _ = library.remove_fed_like_by_content_id(id.as_str());
                }
                applied || a
            },
            None => {
                if eff_liked {
                    match fed {
                        Some(f) => {
                            let track = f.to_fed_track();
                            let ghost before = *library;
                            let r = library.upsert_synced_fed_like(&track, eff_hlc);
                            proof {
                                assert(upserts_like(
                                    before,
                                    *library,
                                    synced_view(*fed)->0,
                                    merged(known, id@, v)[id@].hlc,
                                    r,
                                ));
                            }
                            applied || r
                        },
                        None => applied,
                    }
                } else if applied {
                    let _ = library.remove_fed_like_by_content_id(id.as_str());
                    true
                } else {
                    false
                }
            },
        }
    }

    /// Takes the creation, renaming or deletion of a playlist into the state
    /// and the library; gives whether anything changed.
    pub fn apply_playlist_state(
        &mut self,
        library: &mut Library,
        playlist_id: &str,
        title: &str,
        deleted: bool,
        hlc_ms: i64,
        op_id: &str,
    ) -> (changed: bool)
        requires
            crate::library::playlists::next_playlist_id(old(library).playlists@) <= i64::MAX,
        ensures
            playlist_step(
                World { sync: *old(self), library: *old(library) },
                World { sync: *final(self), library: *final(library) },
                playlist_id@,
                title@,
                deleted,
                hlc_ms,
                op_id@,
                changed,
            ),
    {
        let ghost v = PlaylistView { title: title@, deleted, hlc: hlc_ms, op: op_id@ };
        let applied = match self.playlists.get(playlist_id) {
            Some(c) => is_later(hlc_ms, op_id, c.hlc_ms, c.op_id.as_str()),
            None => true,
        };
        if !applied {
            return false;
        }
        let row = PlaylistState {
            title: title.to_owned(),
            deleted,
            hlc_ms,
            op_id: op_id.to_owned(),
        };
        proof {
            assert(row@ =~= v);
        }
        self.playlists.set(playlist_id, row);
        if deleted {
            library.delete_playlist_by_sync_id(playlist_id);
        } else if !blank(title) {
            let _ = library.upsert_synced_playlist(playlist_id, title);
        }
        true
    }

    /// Takes the addition or removal of a playlist item into the state and
    /// the library; gives whether anything that is shown changed.
    pub fn apply_playlist_item_state(
        &mut self,
        library: &mut Library,
        playlist_id: &str,
        content_id: &str,
        present: bool,
        position: i64,
        fed: &Option<SyncedFedTrack>,
        hlc_ms: i64,
        op_id: &str,
    ) -> (changed: bool)
        ensures
            item_step(
                World { sync: *old(self), library: *old(library) },
                World { sync: *final(self), library: *final(library) },
                playlist_id@,
                content_id@,
                present,
                position,
                synced_view(*fed),
                hlc_ms,
                op_id@,
                changed,
            ),
    {
        let ghost v = ItemView { present, position, hlc: hlc_ms, op: op_id@ };
        let ghost all = self.items@;
        let ghost known = items_of(self.items@, playlist_id@);
        let mut table = match self.items.take(playlist_id) {
            Some(t) => t,
            None => Keyed::new(),
        };
        let current = match table.get(content_id) {
            Some(c) => Some(
                (c.present, c.position, is_later(hlc_ms, op_id, c.hlc_ms, c.op_id.as_str())),
            ),
            None => None,
        };
        let (applied, eff_present, eff_position) = match current {
            None => (true, present, position),
            Some((was, at, later)) => if later {
                (true, present, position)
            } else {
                (false, was, at)
            },
        };
        if applied {
            let row = ItemState { present, position, hlc_ms, op_id: op_id.to_owned() };
            proof {
                assert(row@ =~= v);
            }
            table.set(content_id, row);
        }
        proof {
            assert(table@ =~= merged(known, content_id@, v));
        }
        self.items.set(playlist_id, table);
        proof {
            assert(self.items@ =~= merged_item(all, playlist_id@, content_id@, v));
        }
        if eff_present {
            let added = library.add_content_id_to_synced_playlist(playlist_id, content_id);
            match fed {
                Some(f) => {
                    let track = f.to_fed_track();
                    let r = library.upsert_fed_playlist_track(playlist_id, &track, eff_position);
                    applied || added || r
                },
                None => match library.fed_like_by_content_id(content_id) {
                    Some(track) => {
                        let r = library.upsert_fed_playlist_track(
                            playlist_id,
                            &track,
                            eff_position,
                        );
                        applied || added || r
                    },
                    None => applied || added,
                },
            }
        } else if applied {
            library.remove_content_id_from_synced_playlist(playlist_id, content_id);
            true
        } else {
            false
        }
    }

    /// Takes over the profile of a device.
    pub fn apply_device_profile(&mut self, profile: &DeviceProfileWire, trusted: bool, now_ms: i64)
        ensures
            final(self).devices@ == profiled(
                old(self).devices@,
                old(self).device_id@,
                *profile,
                trusted,
                now_ms,
            ),
            *final(self) == (DeviceSync { devices: final(self).devices, ..*old(self) }),
    {
        if same(profile.device_id.as_str(), self.device_id.as_str()) {
            return;
        }
        if trusted {
            put_profile(&mut self.devices, profile, now_ms);
            let _ = trust(&mut self.devices, profile.device_id.as_str(), now_ms);
        } else {
            put_profile(&mut self.devices, profile, profile.updated_at_ms);
        }
    }

    /// Trusts a device from a time on; gives whether the trust in it had been
    /// withdrawn.
    pub fn apply_device_trusted(&mut self, target_device_id: &str, hlc_ms: i64) -> (r: bool)
        ensures
            final(self).devices@ == with_trusted(old(self).devices@, target_device_id@, hlc_ms),
            r == (old(self).devices@.dom().contains(target_device_id@) && old(
                self,
            ).devices@[target_device_id@].revoked_at is Some),
            *final(self) == (DeviceSync { devices: final(self).devices, ..*old(self) }),
    {
        trust(&mut self.devices, target_device_id, hlc_ms)
    }

    /// Withdraws the trust in a device; gives whether it was trusted.
    pub fn apply_device_revoked(
        &mut self,
        target_device_id: &str,
        hlc_ms: i64,
        revoked_by: &str,
        target_max_seq_seen: i64,
    ) -> (r: bool)
        ensures
            final(self).devices@ == with_revoked(
                old(self).devices@,
                target_device_id@,
                hlc_ms,
                revoked_by@,
                target_max_seq_seen,
            ),
            r == active(old(self).devices@, target_device_id@),
            *final(self) == (DeviceSync { devices: final(self).devices, ..*old(self) }),
    {
        revoke(&mut self.devices, target_device_id, hlc_ms, revoked_by, target_max_seq_seen)
    }

    /// Takes over several profiles.
    pub fn apply_device_profiles(&mut self, profiles: &[DeviceProfileWire], now_ms: i64)
        ensures
            final(self).devices@ == profiled_all(
                old(self).devices@,
                old(self).device_id@,
                profiles@,
                now_ms,
            ),
            *final(self) == (DeviceSync { devices: final(self).devices, ..*old(self) }),
    {
        let ghost start = *self;
        let mut i: usize = 0;
        while i < profiles.len()
            invariant
                i <= profiles@.len(),
                self.devices@ == profiled_all(
                    start.devices@,
                    start.device_id@,
                    profiles@.take(i as int),
                    now_ms,
                ),
                *self == (DeviceSync { devices: self.devices, ..start }),
            decreases profiles@.len() - i,
        {
            proof {
                assert(profiles@.take(i + 1).drop_last() =~= profiles@.take(i as int));
            }
            self.apply_device_profile(&profiles[i], false, now_ms);
            i += 1;
        }
        proof {
            assert(profiles@.take(profiles@.len() as int) =~= profiles@);
        }
    }

    /// Whether an operation is taken over.
    pub fn should_accept_op(&self, op: &SyncOpWire) -> (r: bool)
        ensures
            r == accepts(self.devices@, self.device_id@, op.origin_device_id@, op.seq),
    {
        accepts_op(
            &self.devices,
            self.device_id.as_str(),
            op.origin_device_id.as_str(),
            op.seq,
        )
    }

    /// Notes a playback command for this device; gives whether it is to be
    /// carried out. Each is carried out once.
    pub fn apply_playback_command(&mut self, target_device_id: &str, op_id: &str, now_ms: i64) -> (r:
        bool)
        ensures
            r == delivers(*old(self), target_device_id@, op_id@),
            final(self).applied_playback@ == (if r {
                old(self).applied_playback@.insert(op_id@, now_ms)
            } else {
                old(self).applied_playback@
            }),
            *final(self) == (DeviceSync {
                applied_playback: final(self).applied_playback,
                ..*old(self)
            }),
    {
        if !same(target_device_id, self.device_id.as_str()) {
            return false;
        }
        if self.applied_playback.contains(op_id) {
            return false;
        }
        self.applied_playback.set(op_id, now_ms);
        true
    }

    /// Carries out an operation; gives whether anything that is shown
    /// changed, and whether its playback command is to be carried out.
    pub fn apply_op(&mut self, library: &mut Library, op: &SyncOpWire, now_ms: i64) -> (r: (bool, bool))
        requires
            crate::library::playlists::next_playlist_id(old(library).playlists@) <= i64::MAX,
        ensures
            op_step(
                World { sync: *old(self), library: *old(library) },
                World { sync: *final(self), library: *final(library) },
                *op,
                now_ms,
                r.0,
                r.1,
            ),
    {
        let hlc = op.hlc_ms;
        let id = op.op_id.as_str();
        match &op.payload {
            SyncOpPayload::TrackLikeSet { content_id, liked, fed } => {
                let c = self.apply_like_state(library, content_id.as_str(), *liked, fed, hlc, id);
                (c, false)
            },
            SyncOpPayload::PlaylistCreated { playlist_id, title } => {
                let c = self.apply_playlist_state(
                    library,
                    playlist_id.as_str(),
                    title.as_str(),
                    false,
                    hlc,
                    id,
                );
                (c, false)
            },
            SyncOpPayload::PlaylistRenamed { playlist_id, title } => {
                let c = self.apply_playlist_state(
                    library,
                    playlist_id.as_str(),
                    title.as_str(),
                    false,
                    hlc,
                    id,
                );
                (c, false)
            },
            SyncOpPayload::PlaylistDeleted { playlist_id } => {
                proof {
                    reveal_strlit("");
                    assert(""@ =~= Seq::<char>::empty());
                }
                let c = self.apply_playlist_state(
                    library,
                    playlist_id.as_str(),
                    "",
                    true,
                    hlc,
                    id,
                );
                (c, false)
            },
            SyncOpPayload::PlaylistTrackAdded { playlist_id, content_id, position, fed } => {
                let c = self.apply_playlist_item_state(
                    library,
                    playlist_id.as_str(),
                    content_id.as_str(),
                    true,
                    *position,
                    fed,
                    hlc,
                    id,
                );
                (c, false)
            },
            SyncOpPayload::PlaylistTrackRemoved { playlist_id, content_id } => {
                let c = self.apply_playlist_item_state(
                    library,
                    playlist_id.as_str(),
                    content_id.as_str(),
                    false,
                    0,
                    &None,
                    hlc,
                    id,
                );
                (c, false)
            },
            SyncOpPayload::DeviceProfileSet {
                name,
                client_version,
                endpoint_ticket,
                endpoint_id,
            } => {
                let profile = DeviceProfileWire {
                    device_id: op.origin_device_id.clone(),
                    name: name.clone(),
                    client_version: client_version.clone(),
                    protocol_version: PROTOCOL_VERSION,
                    endpoint_id: endpoint_id.clone(),
                    endpoint_ticket: endpoint_ticket.clone(),
                    revoked: false,
                    revoke_cutoff_seq: None,
                    updated_at_ms: hlc,
                };
                self.apply_device_profile(&profile, false, now_ms);
                (false, false)
            },
            SyncOpPayload::DeviceTrusted { target_device_id } => {
                let c = self.apply_device_trusted(target_device_id.as_str(), hlc);
                (c, false)
            },
            SyncOpPayload::DeviceRevoked { target_device_id, target_max_seq_seen } => {
                let c = self.apply_device_revoked(
                    target_device_id.as_str(),
                    hlc,
                    op.origin_device_id.as_str(),
                    *target_max_seq_seen,
                );
                (c, false)
            },
            SyncOpPayload::PlaybackCommand { target_device_id, .. } => {
                let d = self.apply_playback_command(target_device_id.as_str(), id, now_ms);
                (false, d)
            },
        }
    }
}

} // verus!
