//! What devices exchange: operations, snapshots, profiles, playback state.

use crate::content_id::{canonical, canonical_option};
use crate::federation::track::{FedTrack, FedTrackView};
use crate::library::models::{
    clone_strings, names_of, ref_names, ArtistRef, Seconds, TrackItem, TrackView,
};
use crate::lists::viewed;
use crate::text::{opt_view, views};
use vstd::prelude::*;

verus! {

pub const PROTOCOL_VERSION: u16 = 1;

/// How long an invite is valid.
pub const INVITE_TTL_MS: i64 = 600_000;

/// How long a joining device waits for the answer to its request.
pub const PAIRING_WAIT_MS: i64 = 300_000;

pub const MAX_LINE: usize = 8_388_608;

/// How many operations one message carries at most.
pub const MAX_OPS_PER_BATCH: usize = 1000;

/// A request to join, shown to the person who answers it.
#[derive(Debug)]
pub struct PendingPairing {
    pub request_id: String,
    pub device_id: String,
    pub name: String,
    pub client_version: String,
    pub requester_group_id: Option<String>,
    pub requester_group_active_devices: usize,
}

#[derive(Debug)]
pub struct DeviceStatusRow {
    pub device_id: String,
    pub name: String,
    pub client_version: String,
    pub endpoint_id: String,
    pub last_seen_ms: Option<i64>,
    pub revoked: bool,
    pub is_self: bool,
}

#[derive(Debug)]
pub struct DeviceSyncStatus {
    pub this_device_id: String,
    pub this_device_name: String,
    pub group_id: String,
    pub active_devices: usize,
    pub revoked_devices: usize,
    pub pending_requests: usize,
    pub ops_total: usize,
    pub tombstone_ops: usize,
    pub compactable_tombstones: usize,
    pub outbox_ops: usize,
    pub snapshot_likes: usize,
    pub snapshot_playlists: usize,
    pub snapshot_items: usize,
    pub unresolved_playlist_items: usize,
    pub peer_ack_floor: String,
    pub last_sync: Option<String>,
    pub last_error: Option<String>,
    pub devices: Vec<DeviceStatusRow>,
}

#[derive(Clone, Copy, PartialEq, Eq, Structural, Debug)]
pub enum PlaybackRepeat {
    Off,
    One,
    All,
}

impl Default for PlaybackRepeat {
    fn default() -> (r: Self)
        ensures
            r == PlaybackRepeat::Off,
    {
        PlaybackRepeat::Off
    }
}

/// A track of another peer with a content id, as devices exchange it.
#[derive(Debug)]
pub struct SyncedFedTrack {
    pub item_id: String,
    pub owner: String,
    pub title: String,
    pub artist_names: Vec<String>,
    pub featured_artist_names: Vec<String>,
    pub year: Option<i32>,
    pub duration_seconds: Option<i64>,
    pub content_id: String,
    pub release_title: Option<String>,
    pub track_number: Option<i32>,
    pub disc_number: Option<i32>,
}

impl View for SyncedFedTrack {
    type V = FedTrackView;

    open spec fn view(&self) -> FedTrackView {
        FedTrackView {
            item_id: self.item_id@,
            owner: self.owner@,
            own: false,
            title: self.title@,
            artist_names: views(self.artist_names@),
            featured_artist_names: views(self.featured_artist_names@),
            year: self.year,
            duration_seconds: self.duration_seconds,
            content_id: Some(self.content_id@),
            release_title: opt_view(self.release_title),
            track_number: self.track_number,
            disc_number: self.disc_number,
        }
    }
}

pub open spec fn synced_view(f: Option<SyncedFedTrack>) -> Option<FedTrackView> {
    match f {
        Some(t) => Some(t@),
        None => None,
    }
}

/// What a federated track is exchanged as: itself with its canonical content
/// id, as nobody's own; nothing without a valid content id.
pub open spec fn synced_of(fed: FedTrackView) -> Option<FedTrackView> {
    match canonical_option(fed.content_id) {
        Some(id) => Some(FedTrackView { own: false, content_id: Some(id), ..fed }),
        None => None,
    }
}

impl SyncedFedTrack {
    pub fn from_fed(fed: &FedTrack) -> (r: Option<Self>)
        ensures
            synced_view(r) == synced_of(fed@),
    {
        let content_id = match crate::content_id::normalize_option(&fed.content_id) {
            Some(id) => id,
            None => {
                return None;
            },
        };
        let out = SyncedFedTrack {
            item_id: fed.item_id.clone(),
            owner: fed.owner.clone(),
            title: fed.title.clone(),
            artist_names: clone_strings(&fed.artist_names),
            featured_artist_names: clone_strings(&fed.featured_artist_names),
            year: fed.year,
            duration_seconds: fed.duration_seconds,
            content_id,
            release_title: fed.release_title.clone(),
            track_number: fed.track_number,
            disc_number: fed.disc_number,
        };
        Some(out)
    }

    pub fn to_fed_track(&self) -> (r: FedTrack)
        ensures
            r@ == self@,
    {
        FedTrack {
            item_id: self.item_id.clone(),
            owner: self.owner.clone(),
            own: false,
            title: self.title.clone(),
            artist_names: clone_strings(&self.artist_names),
            featured_artist_names: clone_strings(&self.featured_artist_names),
            year: self.year,
            duration_seconds: self.duration_seconds,
            content_id: Some(self.content_id.clone()),
            release_title: self.release_title.clone(),
            track_number: self.track_number,
            disc_number: self.disc_number,
        }
    }
}

impl Clone for SyncedFedTrack {
    fn clone(&self) -> (r: Self)
        ensures
            r@ == self@,
    {
        SyncedFedTrack {
            item_id: self.item_id.clone(),
            owner: self.owner.clone(),
            title: self.title.clone(),
            artist_names: clone_strings(&self.artist_names),
            featured_artist_names: clone_strings(&self.featured_artist_names),
            year: self.year,
            duration_seconds: self.duration_seconds,
            content_id: self.content_id.clone(),
            release_title: self.release_title.clone(),
            track_number: self.track_number,
            disc_number: self.disc_number,
        }
    }
}

/// A track as it is exchanged for playback on another device. It carries no
/// path: paths are device-local.
#[derive(Debug)]
pub struct PlaybackTrack {
    pub id: i64,
    pub title: String,
    pub track_number: Option<i32>,
    pub disc_number: Option<i32>,
    pub duration: Seconds,
    pub artist_names: Vec<String>,
    pub featured_artist_names: Vec<String>,
    pub release_id: i64,
    pub release_title: String,
    pub release_year: Option<i32>,
    pub file_path: String,
    pub content_id: Option<String>,
    pub audio_format: Option<String>,
    pub audio_bitrate: Option<i32>,
    pub audio_sample_rate: Option<i32>,
    pub audio_bit_depth: Option<i32>,
    pub file_size_bytes: Option<i64>,
    pub play_count: i64,
    pub fed: Option<SyncedFedTrack>,
}

#[verifier::ext_equal]
pub struct PlaybackTrackView {
    pub id: i64,
    pub title: Seq<char>,
    pub track_number: Option<i32>,
    pub disc_number: Option<i32>,
    pub duration: Seconds,
    pub artist_names: Seq<Seq<char>>,
    pub featured_artist_names: Seq<Seq<char>>,
    pub release_id: i64,
    pub release_title: Seq<char>,
    pub release_year: Option<i32>,
    pub file_path: Seq<char>,
    pub content_id: Option<Seq<char>>,
    pub audio_format: Option<Seq<char>>,
    pub audio_bitrate: Option<i32>,
    pub audio_sample_rate: Option<i32>,
    pub audio_bit_depth: Option<i32>,
    pub file_size_bytes: Option<i64>,
    pub play_count: i64,
    pub fed: Option<FedTrackView>,
}

impl View for PlaybackTrack {
    type V = PlaybackTrackView;

    open spec fn view(&self) -> PlaybackTrackView {
        PlaybackTrackView {
            id: self.id,
            title: self.title@,
            track_number: self.track_number,
            disc_number: self.disc_number,
            duration: self.duration,
            artist_names: views(self.artist_names@),
            featured_artist_names: views(self.featured_artist_names@),
            release_id: self.release_id,
            release_title: self.release_title@,
            release_year: self.release_year,
            file_path: self.file_path@,
            content_id: opt_view(self.content_id),
            audio_format: opt_view(self.audio_format),
            audio_bitrate: self.audio_bitrate,
            audio_sample_rate: self.audio_sample_rate,
            audio_bit_depth: self.audio_bit_depth,
            file_size_bytes: self.file_size_bytes,
            play_count: self.play_count,
            fed: synced_view(self.fed),
        }
    }
}

impl Clone for PlaybackTrack {
    fn clone(&self) -> (r: Self)
        ensures
            r@ == self@,
    {
        let fed = match &self.fed {
            Some(f) => Some(f.clone()),
            None => None,
        };
        PlaybackTrack {
            id: self.id,
            title: self.title.clone(),
            track_number: self.track_number,
            disc_number: self.disc_number,
            duration: self.duration,
            artist_names: clone_strings(&self.artist_names),
            featured_artist_names: clone_strings(&self.featured_artist_names),
            release_id: self.release_id,
            release_title: self.release_title.clone(),
            release_year: self.release_year,
            file_path: self.file_path.clone(),
            content_id: self.content_id.clone(),
            audio_format: self.audio_format.clone(),
            audio_bitrate: self.audio_bitrate,
            audio_sample_rate: self.audio_sample_rate,
            audio_bit_depth: self.audio_bit_depth,
            file_size_bytes: self.file_size_bytes,
            play_count: self.play_count,
            fed,
        }
    }
}

/// What the id that stands for an exchanged track is derived from: its
/// content id, else the item of its owner, else what it is called.
pub open spec fn portable_key(track: PlaybackTrack, duration_text: Seq<char>) -> Seq<char> {
    match canonical_option(opt_view(track.content_id)) {
        Some(id) => "content:"@ + id,
        None => match track.fed {
            Some(fed) => match canonical(fed.content_id@) {
                Some(id) => "content:"@ + id,
                None => "fed:"@ + fed.owner@ + seq![':'] + fed.item_id@,
            },
            None => "remote:"@ + crate::text::signed_decimal(track.id as int) + seq![':']
                + track.title@ + seq![':'] + track.release_title@ + seq![':'] + duration_text,
        },
    }
}

/// Credits without ids.
pub open spec fn loose_refs(names: Seq<Seq<char>>) -> Seq<(i64, Seq<char>)> {
    names.map_values(|n: Seq<char>| (-1i64, n))
}

pub(crate) fn make_refs(names: &Vec<String>) -> (r: Vec<ArtistRef>)
    ensures
        crate::library::models::refs_view(r@) == loose_refs(views(names@)),
{
    let mut out: Vec<ArtistRef> = Vec::new();
    let mut i: usize = 0;
    while i < names.len()
        invariant
            i <= names@.len(),
            crate::library::models::refs_view(out@) == loose_refs(views(names@.take(i as int))),
        decreases names@.len() - i,
    {
        let ghost before = out@;
        out.push(ArtistRef { id: -1, name: names[i].clone() });
        proof {
            assert(crate::library::models::refs_view(out@)
                =~= crate::library::models::refs_view(before).push((-1i64, names@[i as int]@)));
            assert(loose_refs(views(names@.take(i + 1))) =~= loose_refs(
                views(names@.take(i as int)),
            ).push((-1i64, names@[i as int]@)));
        }
        i += 1;
    }
    proof {
        assert(names@.take(names@.len() as int) =~= names@);
    }
    out
}

/// What other devices are told of a track.
pub open spec fn tells_track(track: TrackItem, r: PlaybackTrack) -> bool {
    &&& r.id == track.id
    &&& r.title@ == track.title@
    &&& r.track_number == track.track_number
    &&& r.disc_number == track.disc_number
    &&& r.duration == track.duration
    &&& views(r.artist_names@) == ref_names(track.artists@)
    &&& views(r.featured_artist_names@) == ref_names(track.featured_artists@)
    &&& r.release_id == track.release_id
    &&& r.release_title@ == track.release_title@
    &&& r.release_year == track.release_year
    &&& r.file_path@.len() == 0
    &&& opt_view(r.content_id) == match track@.content_id {
        Some(id) => Some(id),
        None => match track@.fed {
            Some(fed) => fed.content_id,
            None => None,
        },
    }
    &&& opt_view(r.audio_format) == track@.audio_format
    &&& r.audio_bitrate == track.audio_bitrate
    &&& r.audio_sample_rate == track.audio_sample_rate
    &&& r.audio_bit_depth == track.audio_bit_depth
    &&& r.file_size_bytes == track.file_size_bytes
    &&& r.play_count == track.play_count
    &&& synced_view(r.fed) == match track@.fed {
        Some(fed) => synced_of(fed),
        None => None,
    }
}

impl PlaybackTrack {
    /// The id that stands for the track on a device that does not have it.
    /// `duration_text` is the duration as it is written out.
    pub fn portable_placeholder_id(&self, duration_text: &str) -> (r: i64)
        ensures
            r == crate::digest::placeholder_of(
                crate::digest::blake3_digest(
                    vstd::utf8::encode_utf8(portable_key(*self, duration_text@)),
                ),
            ),
            r < 0,
    {
        let mut key = String::new();
        if let Some(id) = crate::content_id::normalize_option(&self.content_id) {
            key.append("content:");
            key.append(id.as_str());
            proof {
                assert(key@ =~= portable_key(*self, duration_text@));
            }
        } else if let Some(fed) = &self.fed {
            match crate::content_id::normalize_content_id(fed.content_id.as_str()) {
                Some(id) => {
                    key.append("content:");
                    key.append(id.as_str());
                },
                None => {
                    key.append("fed:");
                    key.append(fed.owner.as_str());
                    key.push(':');
                    key.append(fed.item_id.as_str());
                },
            }
            proof {
                assert(key@ =~= portable_key(*self, duration_text@));
            }
        } else {
            key.append("remote:");
            key.append(crate::text::signed_text(self.id).as_str());
            key.push(':');
            key.append(self.title.as_str());
            key.push(':');
            key.append(self.release_title.as_str());
            key.push(':');
            key.append(duration_text);
            proof {
                assert(key@ =~= portable_key(*self, duration_text@));
            }
        }
        crate::digest::text_placeholder(key.as_str())
    }

    /// A track as it is handed to another device: without its path, under the
    /// content id of the track or of the federated track it stands for.
    pub fn from_track(track: &TrackItem) -> (r: Self)
        ensures
            tells_track(*track, r),
    {
        let content_id = match &track.content_id {
            Some(id) => Some(id.clone()),
            None => match &track.fed {
                Some(fed) => fed.content_id.clone(),
                None => None,
            },
        };
        let fed = match &track.fed {
            Some(fed) => SyncedFedTrack::from_fed(fed),
            None => None,
        };
        PlaybackTrack {
            id: track.id,
            title: track.title.clone(),
            track_number: track.track_number,
            disc_number: track.disc_number,
            duration: track.duration,
            artist_names: names_of(&track.artists),
            featured_artist_names: names_of(&track.featured_artists),
            release_id: track.release_id,
            release_title: track.release_title.clone(),
            release_year: track.release_year,
            file_path: String::new(),
            content_id,
            audio_format: track.audio_format.clone(),
            audio_bitrate: track.audio_bitrate,
            audio_sample_rate: track.audio_sample_rate,
            audio_bit_depth: track.audio_bit_depth,
            file_size_bytes: track.file_size_bytes,
            play_count: track.play_count,
            fed,
        }
    }

    /// A received track as an item of the queue.
    pub fn to_track_item(&self, duration_text: &str) -> (r: TrackItem)
        ensures
            r@ == received_item(*self, duration_text@),
    {
        TrackItem {
            id: self.portable_placeholder_id(duration_text),
            title: self.title.clone(),
            track_number: self.track_number,
            disc_number: self.disc_number,
            duration: self.duration,
            artists: make_refs(&self.artist_names),
            featured_artists: make_refs(&self.featured_artist_names),
            release_id: self.release_id,
            release_title: self.release_title.clone(),
            release_year: self.release_year,
            file_path: String::new(),
            content_id: self.content_id.clone(),
            cover_path: None,
            audio_format: self.audio_format.clone(),
            audio_bitrate: self.audio_bitrate,
            audio_sample_rate: self.audio_sample_rate,
            audio_bit_depth: self.audio_bit_depth,
            file_size_bytes: self.file_size_bytes,
            play_count: self.play_count,
            fed: match &self.fed {
                Some(fed) => Some(fed.to_fed_track()),
                None => None,
            },
        }
    }
}

pub open spec fn received_item(track: PlaybackTrack, duration_text: Seq<char>) -> TrackView {
    TrackView {
        id: crate::digest::placeholder_of(
            crate::digest::blake3_digest(
                vstd::utf8::encode_utf8(portable_key(track, duration_text)),
            ),
        ) as i64,
        title: track.title@,
        track_number: track.track_number,
        disc_number: track.disc_number,
        duration: track.duration,
        artists: loose_refs(views(track.artist_names@)),
        featured_artists: loose_refs(views(track.featured_artist_names@)),
        release_id: track.release_id,
        release_title: track.release_title@,
        release_year: track.release_year,
        file_path: Seq::empty(),
        content_id: opt_view(track.content_id),
        cover_path: None,
        audio_format: opt_view(track.audio_format),
        audio_bitrate: track.audio_bitrate,
        audio_sample_rate: track.audio_sample_rate,
        audio_bit_depth: track.audio_bit_depth,
        file_size_bytes: track.file_size_bytes,
        play_count: track.play_count,
        fed: synced_view(track.fed),
    }
}

/// The same track gets the same id on every device: two tracks with the same
/// canonical content id, whatever else they carry.
pub proof fn law_portable_id_follows_content(
    a: PlaybackTrack,
    b: PlaybackTrack,
    s: Seq<char>,
    t: Seq<char>,
)
    requires
        canonical_option(opt_view(a.content_id)) is Some,
        canonical_option(opt_view(a.content_id)) == canonical_option(opt_view(b.content_id)),
    ensures
        received_item(a, s).id == received_item(b, t).id,
{
}

#[derive(Debug)]
pub struct PlaybackStateWire {
    pub queue: Vec<PlaybackTrack>,
    pub queue_pos: usize,
    pub playing: bool,
    pub paused: bool,
    pub idle_since_ms: Option<i64>,
    pub position: Seconds,
    pub volume: u8,
    pub shuffle: bool,
    pub repeat: PlaybackRepeat,
}

#[derive(Debug)]
pub struct PlaybackSnapshot {
    pub device_id: String,
    pub device_name: String,
    pub active: bool,
    pub updated_at_ms: i64,
    pub state: PlaybackStateWire,
}

#[verifier::ext_equal]
pub struct PlaybackStateView {
    pub queue: Seq<PlaybackTrackView>,
    pub queue_pos: usize,
    pub playing: bool,
    pub paused: bool,
    pub idle_since: Option<i64>,
    pub position: Seconds,
    pub volume: u8,
    pub shuffle: bool,
    pub repeat: PlaybackRepeat,
}

impl View for PlaybackStateWire {
    type V = PlaybackStateView;

    open spec fn view(&self) -> PlaybackStateView {
        PlaybackStateView {
            queue: viewed(self.queue@),
            queue_pos: self.queue_pos,
            playing: self.playing,
            paused: self.paused,
            idle_since: self.idle_since_ms,
            position: self.position,
            volume: self.volume,
            shuffle: self.shuffle,
            repeat: self.repeat,
        }
    }
}

impl Clone for PlaybackStateWire {
    fn clone(&self) -> (r: Self)
        ensures
            r@ == self@,
    {
        let mut queue: Vec<PlaybackTrack> = Vec::new();
        let mut i: usize = 0;
        while i < self.queue.len()
            invariant
                i <= self.queue@.len(),
                queue@.len() == i,
                forall|j: int| 0 <= j < i ==> (#[trigger] queue@[j])@ == self.queue@[j]@,
            decreases self.queue@.len() - i,
        {
            queue.push(self.queue[i].clone());
            i += 1;
        }
        proof {
            assert(viewed(queue@) =~= viewed(self.queue@));
        }
        PlaybackStateWire {
            queue,
            queue_pos: self.queue_pos,
            playing: self.playing,
            paused: self.paused,
            idle_since_ms: self.idle_since_ms,
            position: self.position,
            volume: self.volume,
            shuffle: self.shuffle,
            repeat: self.repeat,
        }
    }
}

#[verifier::ext_equal]
pub struct PlaybackView {
    pub device_id: Seq<char>,
    pub device_name: Seq<char>,
    pub active: bool,
    pub updated_at: i64,
    pub state: PlaybackStateView,
}

impl View for PlaybackSnapshot {
    type V = PlaybackView;

    open spec fn view(&self) -> PlaybackView {
        PlaybackView {
            device_id: self.device_id@,
            device_name: self.device_name@,
            active: self.active,
            updated_at: self.updated_at_ms,
            state: self.state@,
        }
    }
}

impl Clone for PlaybackSnapshot {
    fn clone(&self) -> (r: Self)
        ensures
            r@ == self@,
    {
        PlaybackSnapshot {
            device_id: self.device_id.clone(),
            device_name: self.device_name.clone(),
            active: self.active,
            updated_at_ms: self.updated_at_ms,
            state: self.state.clone(),
        }
    }
}

/// A playback that may not be known.
pub open spec fn playback_view(p: Option<PlaybackSnapshot>) -> Option<PlaybackView> {
    match p {
        Some(s) => Some(s@),
        None => None,
    }
}

#[derive(Debug)]
pub enum PlaybackCommand {
    SetState { state: PlaybackStateWire, seek: bool },
    ActiveChanged {
        active_device_id: String,
        active_device_name: String,
        state: PlaybackStateWire,
    },
}

#[derive(Debug)]
pub struct InviteWire {
    pub v: u16,
    pub ticket: String,
    pub device_id: String,
    pub invite_id: String,
    pub secret: String,
    pub expires_at_ms: i64,
}

#[derive(Debug)]
pub struct DeviceProfileWire {
    pub device_id: String,
    pub name: String,
    pub client_version: String,
    pub protocol_version: u16,
    pub endpoint_id: String,
    pub endpoint_ticket: String,
    pub revoked: bool,
    pub revoke_cutoff_seq: Option<i64>,
    pub updated_at_ms: i64,
}

#[derive(Debug)]
pub struct SyncOpWire {
    pub op_id: String,
    pub origin_device_id: String,
    pub seq: i64,
    pub hlc_ms: i64,
    pub payload: SyncOpPayload,
}

#[derive(Debug)]
pub enum SyncOpPayload {
    TrackLikeSet { content_id: String, liked: bool, fed: Option<SyncedFedTrack> },
    PlaylistCreated { playlist_id: String, title: String },
    PlaylistRenamed { playlist_id: String, title: String },
    PlaylistDeleted { playlist_id: String },
    PlaylistTrackAdded {
        playlist_id: String,
        content_id: String,
        position: i64,
        fed: Option<SyncedFedTrack>,
    },
    PlaylistTrackRemoved { playlist_id: String, content_id: String },
    DeviceProfileSet {
        name: String,
        client_version: String,
        endpoint_ticket: String,
        endpoint_id: String,
    },
    DeviceTrusted { target_device_id: String },
    DeviceRevoked { target_device_id: String, target_max_seq_seen: i64 },
    PlaybackCommand { target_device_id: String, command: PlaybackCommand },
}

/// The operations that take something away. They are kept until every device
/// has seen them.
pub open spec fn takes_away(p: SyncOpPayload) -> bool {
    match p {
        SyncOpPayload::TrackLikeSet { liked, .. } => !liked,
        SyncOpPayload::PlaylistDeleted { .. } => true,
        SyncOpPayload::PlaylistTrackRemoved { .. } => true,
        SyncOpPayload::DeviceRevoked { .. } => true,
        _ => false,
    }
}

/// The name of an operation's kind.
pub open spec fn kind_name(p: SyncOpPayload) -> Seq<char> {
    match p {
        SyncOpPayload::TrackLikeSet { .. } => "track_like_set"@,
        SyncOpPayload::PlaylistCreated { .. } => "playlist_created"@,
        SyncOpPayload::PlaylistRenamed { .. } => "playlist_renamed"@,
        SyncOpPayload::PlaylistDeleted { .. } => "playlist_deleted"@,
        SyncOpPayload::PlaylistTrackAdded { .. } => "playlist_track_added"@,
        SyncOpPayload::PlaylistTrackRemoved { .. } => "playlist_track_removed"@,
        SyncOpPayload::DeviceProfileSet { .. } => "device_profile_set"@,
        SyncOpPayload::DeviceTrusted { .. } => "device_trusted"@,
        SyncOpPayload::DeviceRevoked { .. } => "device_revoked"@,
        SyncOpPayload::PlaybackCommand { .. } => "playback_command"@,
    }
}

impl SyncOpPayload {
    pub fn is_tombstone(&self) -> (r: bool)
        ensures
            r == takes_away(*self),
    {
        match self {
            SyncOpPayload::TrackLikeSet { liked, .. } => !*liked,
            SyncOpPayload::PlaylistDeleted { .. } => true,
            SyncOpPayload::PlaylistTrackRemoved { .. } => true,
            SyncOpPayload::DeviceRevoked { .. } => true,
            _ => false,
        }
    }
}

pub fn payload_kind(payload: &SyncOpPayload) -> (r: &'static str)
    ensures
        r@ == kind_name(*payload),
{
    match payload {
        SyncOpPayload::TrackLikeSet { .. } => "track_like_set",
        SyncOpPayload::PlaylistCreated { .. } => "playlist_created",
        SyncOpPayload::PlaylistRenamed { .. } => "playlist_renamed",
        SyncOpPayload::PlaylistDeleted { .. } => "playlist_deleted",
        SyncOpPayload::PlaylistTrackAdded { .. } => "playlist_track_added",
        SyncOpPayload::PlaylistTrackRemoved { .. } => "playlist_track_removed",
        SyncOpPayload::DeviceProfileSet { .. } => "device_profile_set",
        SyncOpPayload::DeviceTrusted { .. } => "device_trusted",
        SyncOpPayload::DeviceRevoked { .. } => "device_revoked",
        SyncOpPayload::PlaybackCommand { .. } => "playback_command",
    }
}

#[derive(Debug)]
pub struct SnapshotLike {
    pub content_id: String,
    pub hlc_ms: i64,
    pub op_id: String,
    pub fed: Option<SyncedFedTrack>,
}

#[derive(Debug)]
pub struct SnapshotLikeTombstone {
    pub content_id: String,
    pub hlc_ms: i64,
    pub op_id: String,
}

#[derive(Debug)]
pub struct SnapshotPlaylistItem {
    pub content_id: String,
    pub position: i64,
    pub hlc_ms: i64,
    pub op_id: String,
    pub fed: Option<SyncedFedTrack>,
}

#[derive(Debug)]
pub struct SnapshotPlaylist {
    pub playlist_id: String,
    pub title: String,
    pub hlc_ms: i64,
    pub op_id: String,
    pub items: Vec<SnapshotPlaylistItem>,
}

#[derive(Debug)]
pub struct SnapshotPlaylistTombstone {
    pub playlist_id: String,
    pub hlc_ms: i64,
    pub op_id: String,
}

#[derive(Debug)]
pub struct SnapshotPlaylistItemTombstone {
    pub playlist_id: String,
    pub content_id: String,
    pub hlc_ms: i64,
    pub op_id: String,
}

/// The whole synchronised state, as it is handed to another device.
#[derive(Debug)]
pub struct SyncSnapshot {
    pub likes: Vec<SnapshotLike>,
    pub unlikes: Vec<SnapshotLikeTombstone>,
    pub playlists: Vec<SnapshotPlaylist>,
    pub deleted_playlists: Vec<SnapshotPlaylistTombstone>,
    pub removed_playlist_items: Vec<SnapshotPlaylistItemTombstone>,
}

} // verus!
