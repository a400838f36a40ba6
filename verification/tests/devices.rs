//! Devices of one listener that keep their likes, playlists and playback in
//! step.

use furumi::devices::lww::is_later;
use furumi::devices::model::{
    payload_kind, DeviceProfileWire, PlaybackCommand, PlaybackRepeat, PlaybackSnapshot,
    PlaybackStateWire, PlaybackTrack, SyncOpPayload, SyncOpWire, SyncSnapshot, SyncedFedTrack,
    PROTOCOL_VERSION,
};
use furumi::devices::pairing::{
    after_attempt, check_invite, decode_invite, default_device_name, hash_secret, hex_from_seed,
    invite_link, pair_request_id, Address, Admission, Hello, InviteError, PairAttempt, PairNext,
    PairRequest, PairResponse, SyncResponse,
};
use furumi::devices::peers::{now_label, short_id};
use furumi::devices::record::RevokeError;
use furumi::devices::session::{HelloOutcome, HelloRefusal, PairOutcome};
use furumi::devices::sync::DeviceSync;
use furumi::federation::track::FedTrack;
use furumi::library::models::{ArtistRef, Seconds, TrackItem};
use furumi::library::playlists::LIKES_PLAYLIST_ID;
use furumi::library::tables::Library;

const NOW: i64 = 1_767_225_600_000;
const PLAYBACK_COMMAND_TTL_MS: i64 = 30_000;

fn test_sync() -> (DeviceSync, Library) {
    (DeviceSync::create("secret-of-this-device", &None, "test", NOW), Library::new())
}

fn other_sync() -> (DeviceSync, Library) {
    (DeviceSync::create("secret-of-another-device", &None, "test", NOW), Library::new())
}

fn device_revoked(sync: &DeviceSync, device_id: &str) -> bool {
    sync.devices.get(device_id).is_some_and(|device| device.revoked_at_ms.is_some())
}

fn device_known(sync: &DeviceSync, device_id: &str) -> bool {
    sync.devices.contains(device_id)
}

fn tombstones(sync: &DeviceSync) -> usize {
    sync.ops.iter().filter(|row| row.op.payload.is_tombstone()).count()
}

fn test_fed_track(content_id: &str) -> FedTrack {
    FedTrack {
        item_id: "fed_item_1".to_string(),
        owner: "fed_owner_1".to_string(),
        own: false,
        title: "Remote Song".to_string(),
        artist_names: vec!["Remote Artist".to_string()],
        featured_artist_names: Vec::new(),
        year: Some(2026),
        duration_seconds: Some(123),
        content_id: Some(content_id.to_string()),
        release_title: Some("Remote Release".to_string()),
        track_number: Some(1),
        disc_number: Some(1),
    }
}

fn empty_snapshot() -> SyncSnapshot {
    SyncSnapshot {
        likes: Vec::new(),
        unlikes: Vec::new(),
        playlists: Vec::new(),
        deleted_playlists: Vec::new(),
        removed_playlist_items: Vec::new(),
    }
}

fn set_state() -> PlaybackCommand {
    PlaybackCommand::SetState {
        state: PlaybackStateWire {
            queue: Vec::new(),
            queue_pos: 0,
            playing: false,
            paused: false,
            idle_since_ms: None,
            position: Seconds::Measured(0.0f64.to_bits()),
            volume: 42,
            shuffle: false,
            repeat: PlaybackRepeat::Off,
        },
        seek: false,
    }
}

fn detects_tombstones() {
    assert!(SyncOpPayload::TrackLikeSet { content_id: "b3:0".into(), liked: false, fed: None }
        .is_tombstone());
    assert!(!SyncOpPayload::TrackLikeSet { content_id: "b3:0".into(), liked: true, fed: None }
        .is_tombstone());
}

#[test]
fn devices_tombstone_detection() {
    detects_tombstones();
}

#[test]
fn tests_tombstone_detection() {
    detects_tombstones();
}

fn local_song() -> TrackItem {
    TrackItem {
        id: 7,
        title: "Local Song".to_string(),
        track_number: Some(1),
        disc_number: Some(1),
        duration: Seconds::Measured(180.0f64.to_bits()),
        artists: vec![ArtistRef { id: 1, name: "Local Artist".to_string() }],
        featured_artists: Vec::new(),
        release_id: 2,
        release_title: "Local Release".to_string(),
        release_year: Some(2026),
        file_path: r"C:\Users\me\Music\song.mp3".to_string(),
        content_id: Some(format!("b3:{}", "a".repeat(64))),
        cover_path: None,
        audio_format: Some("mp3".to_string()),
        audio_bitrate: Some(320),
        audio_sample_rate: Some(44_100),
        audio_bit_depth: None,
        file_size_bytes: Some(123_456),
        play_count: 3,
        fed: None,
    }
}

fn paths_stay_local() {
    let source = local_song();
    let wire = PlaybackTrack::from_track(&source);
    assert!(wire.file_path.is_empty());

    let mut legacy_wire = wire;
    legacy_wire.file_path = "/Users/me/Music/song.mp3".to_string();
    let restored = legacy_wire.to_track_item("180");
    assert!(restored.id < 0);
    assert_ne!(restored.id, source.id);
    assert!(restored.file_path.is_empty());
    assert_eq!(restored.content_id, source.content_id);
}

#[test]
fn devices_playback_tracks_do_not_sync_device_local_paths() {
    paths_stay_local();
}

#[test]
fn tests_playback_tracks_do_not_sync_device_local_paths() {
    paths_stay_local();
}

fn compacted_revoke() {
    let (mut sync, mut library) = test_sync();
    let device_id = "dev_old";

    sync.apply_device_trusted(device_id, 10);
    assert!(device_known(&sync, device_id));

    sync.revoke_device(&mut library, device_id, NOW).unwrap();
    assert!(!device_known(&sync, device_id));
}

#[test]
fn devices_compacted_device_revoke_removes_device_row() {
    compacted_revoke();
}

#[test]
fn tests_compacted_device_revoke_removes_device_row() {
    compacted_revoke();
}

#[test]
fn devices_playback_command_is_targeted_and_deduplicated() {
    let (mut sync, _) = test_sync();
    let own = sync.device_id.clone();
    assert!(!sync.apply_playback_command("dev_other", "op_other", NOW));
    assert!(sync.apply_playback_command(&own, "op_1", NOW));
    assert!(!sync.apply_playback_command(&own, "op_1", NOW));
}

fn trust_comes_back() {
    let (mut sync, _) = test_sync();
    let device_id = "dev_readd";

    sync.apply_device_trusted(device_id, 10);
    assert!(!device_revoked(&sync, device_id));

    sync.apply_device_revoked(device_id, 20, "dev_owner", 0);
    assert!(device_revoked(&sync, device_id));

    sync.apply_device_trusted(device_id, 30);
    assert!(!device_revoked(&sync, device_id));

    sync.apply_device_revoked(device_id, 25, "dev_owner", 0);
    assert!(!device_revoked(&sync, device_id));

    sync.apply_device_profile(
        &DeviceProfileWire {
            device_id: device_id.to_string(),
            name: "readded".to_string(),
            client_version: "test".to_string(),
            protocol_version: PROTOCOL_VERSION,
            endpoint_id: String::new(),
            endpoint_ticket: String::new(),
            revoked: true,
            revoke_cutoff_seq: Some(0),
            updated_at_ms: 20,
        },
        false,
        NOW,
    );
    assert!(!device_revoked(&sync, device_id));
}

#[test]
fn devices_newer_device_trust_reactivates_revoked_device() {
    trust_comes_back();
}

#[test]
fn tests_newer_device_trust_reactivates_revoked_device() {
    trust_comes_back();
}

fn gc_waits() {
    let (mut sync, mut library) = test_sync();
    let origin = sync.device_id.clone();
    sync.apply_device_trusted("dev_a", 1);
    sync.apply_device_trusted("dev_b", 1);

    sync.record_local_op(
        &mut library,
        SyncOpPayload::PlaylistDeleted { playlist_id: "pl_deleted".to_string() },
        NOW,
    );
    assert_eq!(tombstones(&sync), 1);

    let ack = [(origin, 1)];
    sync.note_peer_vector("dev_a", &ack);
    sync.gc_tombstones();
    assert_eq!(tombstones(&sync), 1);

    sync.note_peer_vector("dev_b", &ack);
    sync.gc_tombstones();
    assert_eq!(tombstones(&sync), 0);
}

#[test]
fn devices_tombstone_gc_waits_for_every_active_remote_ack() {
    gc_waits();
}

#[test]
fn tests_tombstone_gc_waits_for_every_active_remote_ack() {
    gc_waits();
}

fn snapshot_carries_deletions() {
    let (mut source, mut source_library) = test_sync();
    let source_playlist = source_library.create_playlist("Gone", 1, 1);
    let playlist_sync_id =
        source_library.ensure_playlist_sync_id(source_playlist.id, 1, 1).unwrap();
    source.apply_playlist_state(
        &mut source_library,
        &playlist_sync_id,
        "Gone",
        false,
        10,
        "dev_remote:1",
    );
    source.apply_playlist_state(
        &mut source_library,
        &playlist_sync_id,
        "",
        true,
        20,
        "dev_remote:2",
    );
    let snapshot = source.snapshot(&source_library);
    assert!(snapshot
        .deleted_playlists
        .iter()
        .any(|playlist| playlist.playlist_id == playlist_sync_id));

    let (mut peer, mut peer_library) = other_sync();
    let peer_playlist = peer_library.upsert_synced_playlist(&playlist_sync_id, "Gone");
    assert!(peer_library.playlist(peer_playlist, -10).is_ok());

    peer.apply_snapshot(&mut peer_library, &snapshot);
    assert!(!peer_library.playlists().iter().any(|playlist| playlist.title == "Gone"));
}

#[test]
fn devices_snapshot_carries_deleted_playlists_to_repair_stale_peers() {
    snapshot_carries_deletions();
}

#[test]
fn tests_snapshot_carries_deleted_playlists_to_repair_stale_peers() {
    snapshot_carries_deletions();
}

fn like_metadata_repairs() {
    let (mut sync, mut library) = test_sync();
    let content_id = format!("b3:{}", "a".repeat(64));
    let fed = test_fed_track(&content_id);
    let synced = SyncedFedTrack::from_fed(&fed);
    assert!(synced.is_some());

    assert!(sync.apply_like_state(&mut library, &content_id, true, &None, 10, "dev_remote:1"));
    assert!(library.fed_like_ids().is_empty());

    assert!(sync.apply_like_state(&mut library, &content_id, true, &synced, 10, "dev_remote:1"));
    let keys = library.fed_like_ids();
    assert!(keys.contains(&fed.item_id));
    assert!(keys.contains(&content_id));

    assert!(sync.apply_like_state(&mut library, &content_id, false, &None, 11, "dev_remote:2"));
    assert!(library.fed_like_ids().is_empty());
}

#[test]
fn devices_synced_fed_like_metadata_repairs_existing_like_state() {
    like_metadata_repairs();
}

#[test]
fn tests_synced_fed_like_metadata_repairs_existing_like_state() {
    like_metadata_repairs();
}

fn likes_follow_the_clock() {
    let (mut sync, mut library) = test_sync();
    let old_content_id = format!("b3:{}", "c".repeat(64));
    let new_content_id = format!("b3:{}", "d".repeat(64));
    let mut old_fed = test_fed_track(&old_content_id);
    old_fed.item_id = "fed_old".to_string();
    old_fed.title = "Old Fed".to_string();
    let mut new_fed = test_fed_track(&new_content_id);
    new_fed.item_id = "fed_new".to_string();
    new_fed.title = "New Fed".to_string();

    let new_synced = SyncedFedTrack::from_fed(&new_fed);
    let old_synced = SyncedFedTrack::from_fed(&old_fed);
    sync.apply_like_state(&mut library, &new_content_id, true, &new_synced, 20, "dev_remote:2");
    sync.apply_like_state(&mut library, &old_content_id, true, &old_synced, 10, "dev_remote:1");

    let titles: Vec<String> = library
        .playlist(LIKES_PLAYLIST_ID, -10)
        .unwrap()
        .tracks
        .into_iter()
        .map(|track| track.title)
        .collect();
    assert_eq!(titles, vec!["New Fed", "Old Fed"]);
}

#[test]
fn devices_synced_fed_likes_are_ordered_by_hlc_not_receive_time() {
    likes_follow_the_clock();
}

#[test]
fn tests_synced_fed_likes_are_ordered_by_hlc_not_receive_time() {
    likes_follow_the_clock();
}

fn item_metadata_creates() {
    let (mut sync, mut library) = test_sync();
    let playlist = library.create_playlist("Remote Mix", 1, 1);
    let playlist_sync_id = library.ensure_playlist_sync_id(playlist.id, 1, 1).unwrap();
    let content_id = format!("b3:{}", "b".repeat(64));
    let fed = test_fed_track(&content_id);
    let synced = SyncedFedTrack::from_fed(&fed);

    assert!(sync.apply_playlist_item_state(
        &mut library,
        &playlist_sync_id,
        &content_id,
        true,
        3,
        &synced,
        10,
        "dev_remote:2",
    ));

    let detail = library.playlist(playlist.id, -10).unwrap();
    assert_eq!(detail.tracks.len(), 1);
    assert!(detail.tracks[0].is_fed_pending());
    assert_eq!(detail.tracks[0].title, fed.title);
    assert_eq!(sync.status(&library).unresolved_playlist_items, 0);

    assert!(sync.apply_playlist_item_state(
        &mut library,
        &playlist_sync_id,
        &content_id,
        false,
        0,
        &None,
        11,
        "dev_remote:3",
    ));
    assert_eq!(library.playlist(playlist.id, -10).unwrap().tracks.len(), 0);
}

#[test]
fn devices_synced_playlist_item_metadata_creates_pending_fed_track() {
    item_metadata_creates();
}

#[test]
fn tests_synced_playlist_item_metadata_creates_pending_fed_track() {
    item_metadata_creates();
}

fn stale_metadata_repairs() {
    let (mut sync, mut library) = test_sync();
    let playlist = library.create_playlist("Remote Mix", 1, 1);
    let playlist_sync_id = library.ensure_playlist_sync_id(playlist.id, 1, 1).unwrap();
    let content_id = format!("b3:{}", "e".repeat(64));
    let fed = test_fed_track(&content_id);
    let synced = SyncedFedTrack::from_fed(&fed);

    assert!(sync.apply_playlist_item_state(
        &mut library,
        &playlist_sync_id,
        &content_id,
        true,
        7,
        &None,
        10,
        "dev_remote:2",
    ));
    assert_eq!(library.playlist(playlist.id, -10).unwrap().tracks.len(), 0);
    assert_eq!(sync.status(&library).unresolved_playlist_items, 1);

    assert!(sync.apply_playlist_item_state(
        &mut library,
        &playlist_sync_id,
        &content_id,
        true,
        7,
        &synced,
        10,
        "dev_remote:2",
    ));
    let detail = library.playlist(playlist.id, -10).unwrap();
    assert_eq!(detail.tracks.len(), 1);
    assert!(detail.tracks[0].is_fed_pending());
    assert_eq!(detail.tracks[0].title, fed.title);
}

#[test]
fn devices_stale_synced_playlist_item_metadata_repairs_pending_fed_track() {
    stale_metadata_repairs();
}

#[test]
fn tests_stale_synced_playlist_item_metadata_repairs_pending_fed_track() {
    stale_metadata_repairs();
}

// ---------------------------------------------------------------------------

#[test]
fn a_device_is_named_by_its_secret() {
    let (sync, _) = test_sync();
    let digest = blake3::hash(b"secret-of-this-device").to_hex();
    assert!(sync.device_id.starts_with("dev_"));
    assert!(sync.device_id.contains(&digest.as_str()[..8]));
    assert!(sync.group_id.starts_with("grp_"));
    assert!(sync.devices.contains(&sync.device_id));
    assert_eq!(sync.identity_summary().0, sync.device_id);
}

#[test]
fn every_payload_has_a_kind() {
    assert_eq!(
        payload_kind(&SyncOpPayload::PlaylistDeleted { playlist_id: "p".into() }),
        "playlist_deleted"
    );
    assert_eq!(
        payload_kind(&SyncOpPayload::PlaybackCommand {
            target_device_id: "d".into(),
            command: set_state(),
        }),
        "playback_command"
    );
}

#[test]
fn the_later_stamp_wins() {
    assert!(is_later(2, "a", 1, "z"));
    assert!(is_later(1, "b", 1, "a"));
    assert!(!is_later(1, "a", 1, "a"));
    assert!(!is_later(1, "z", 2, "a"));
}

#[test]
fn devices_agree_whatever_the_order() {
    let first = format!("b3:{}", "1".repeat(64));
    let op = |seq: i64, hlc: i64, liked: bool| SyncOpWire {
        op_id: format!("dev_remote:{seq}"),
        origin_device_id: "dev_remote".to_string(),
        seq,
        hlc_ms: hlc,
        payload: SyncOpPayload::TrackLikeSet { content_id: first.clone(), liked, fed: None },
    };
    let (mut a, mut la) = test_sync();
    let (mut b, mut lb) = other_sync();
    a.apply_device_trusted("dev_remote", 1);
    b.apply_device_trusted("dev_remote", 1);
    let (changed, commands) = a.apply_ops(&mut la, vec![op(1, 10, true), op(2, 20, false)], NOW);
    assert!(changed && commands.is_empty());
    b.apply_ops(&mut lb, vec![op(2, 20, false), op(1, 10, true)], NOW);
    assert!(!a.likes.get(&first).unwrap().liked);
    assert!(!b.likes.get(&first).unwrap().liked);
    assert_eq!(a.vector(), b.vector());
    // Nothing happens the second time.
    let (changed, _) = a.apply_ops(&mut la, vec![op(1, 10, true), op(2, 20, false)], NOW);
    assert!(!changed);
    assert_eq!(a.ops.len(), 2);
}

#[test]
fn operations_of_strangers_are_ignored() {
    let (mut sync, mut library) = test_sync();
    let op = SyncOpWire {
        op_id: "dev_x:1".into(),
        origin_device_id: "dev_x".into(),
        seq: 1,
        hlc_ms: 5,
        payload: SyncOpPayload::PlaylistCreated { playlist_id: "p".into(), title: "Mix".into() },
    };
    assert!(!sync.should_accept_op(&op));
    let (changed, _) = sync.apply_ops(&mut library, vec![op], NOW);
    assert!(!changed && sync.ops.is_empty() && library.playlists.is_empty());
}

#[test]
fn recording_moves_the_clock_on() {
    let (mut sync, mut library) = test_sync();
    let content_id = format!("b3:{}", "7".repeat(64));
    sync.record_content_like(&mut library, &content_id, true, NOW);
    assert_eq!(sync.last_hlc_ms, NOW);
    assert_eq!(sync.local_seq, 1);
    // The wall clock went back: the clock of the device does not.
    sync.record_content_like(&mut library, &content_id, false, NOW - 1000);
    assert_eq!(sync.last_hlc_ms, NOW + 1);
    assert_eq!(sync.local_seq, 2);
    assert!(!sync.likes.get(&content_id).is_some_and(|like| like.liked));
}

#[test]
fn a_device_cannot_revoke_itself() {
    let (mut sync, mut library) = test_sync();
    let own = sync.device_id.clone();
    assert_eq!(sync.revoke_device(&mut library, &own, NOW), Err(RevokeError::OwnDevice));
    assert!(!RevokeError::OwnDevice.message().is_empty());
}

#[test]
fn recorded_playlists_reach_another_device() {
    let (mut a, mut la) = test_sync();
    let (mut b, mut lb) = other_sync();
    let playlist = la.create_playlist("Mix", 1, 1);
    assert!(a.record_playlist_created(&mut la, playlist.id, "Mix", NOW, 1, 1));
    let content_id = format!("b3:{}", "5".repeat(64));
    let fed = test_fed_track(&content_id);
    assert!(la.add_fed_tracks_to_playlist(playlist.id, &vec![test_fed_track(&content_id)], 1, 1));
    assert!(a.record_playlist_fed_tracks_added(&mut la, playlist.id, &[fed], NOW, 1, 1));
    let snapshot = a.snapshot(&la);
    assert_eq!(snapshot.playlists.len(), 1);
    assert_eq!(snapshot.playlists[0].items.len(), 1);
    assert!(b.apply_snapshot(&mut lb, &snapshot));
    let card = lb.playlists().into_iter().find(|card| card.title == "Mix").unwrap();
    let detail = lb.playlist(card.id, -10).unwrap();
    assert_eq!(detail.tracks.len(), 1);
    assert_eq!(detail.tracks[0].content_id.as_deref(), Some(content_id.as_str()));
}

#[test]
fn a_snapshot_brings_likes_and_withdrawals() {
    let (mut a, mut la) = test_sync();
    let (mut b, mut lb) = other_sync();
    let kept = format!("b3:{}", "1".repeat(64));
    let gone = format!("b3:{}", "2".repeat(64));
    a.apply_like_state(&mut la, &kept, true, &None, 10, "dev_r:1");
    a.apply_like_state(&mut la, &gone, false, &None, 20, "dev_r:2");
    b.apply_like_state(&mut lb, &gone, true, &None, 5, "dev_s:1");
    b.apply_snapshot(&mut lb, &a.snapshot(&la));
    assert!(b.likes.get(&kept).unwrap().liked);
    assert!(!b.likes.get(&gone).unwrap().liked);
}

#[test]
fn invites_are_links_that_run_out() {
    let (mut sync, _) = test_sync();
    let invite = sync.create_invite("ticket", "inv_1", "s3cret", NOW).unwrap();
    assert_eq!(invite.device_id, sync.device_id);
    assert_eq!(invite.expires_at_ms, NOW + 600_000);
    assert!(sync.create_invite("ticket", "inv_1", "other", NOW).is_none());
    let link = invite_link(b"{}");
    assert!(link.starts_with("frid://i/"));
    assert_eq!(decode_invite(&link), Ok(b"{}".to_vec()));
    assert_eq!(decode_invite("https://example.com"), Err(InviteError::NotAnInvite));
    assert!(check_invite(&invite, NOW).is_ok());
    assert_eq!(check_invite(&invite, NOW + 600_001), Err(InviteError::Expired));
    assert_eq!(hash_secret("s3cret"), blake3::hash(b"s3cret").to_hex().to_string());
    assert_eq!(sync.invites.get("inv_1").unwrap().secret_hash, hash_secret("s3cret"));
}

#[test]
fn names_and_ids_are_short_and_fixed() {
    assert_eq!(pair_request_id("inv", "dev"), pair_request_id("inv", "dev"));
    assert_ne!(pair_request_id("inv", "dev"), pair_request_id("inv", "other"));
    assert_eq!(default_device_name(&Some("laptop".to_string()), "dev_1"), "laptop-dev_1");
    assert_eq!(default_device_name(&None, "dev_0123456789"), "furumi-dev_012345");
    assert_eq!(short_id("dev_0123456789abcdef"), "dev_012345");
    assert_eq!(hex_from_seed(b"seed", 4).len(), 8);
    assert!(!now_label(NOW).is_empty());
}

fn profile_of(sync: &mut DeviceSync) -> DeviceProfileWire {
    sync.own_profile("test", "endpoint", "ticket", NOW)
}

fn address() -> Address {
    Address {
        client_version: "test".into(),
        endpoint_id: "endpoint".into(),
        ticket: "ticket".into(),
    }
}

fn request(sync: &mut DeviceSync, invite_id: &str, secret: &str) -> PairRequest {
    let profile = profile_of(sync);
    PairRequest {
        invite_id: invite_id.into(),
        secret: secret.into(),
        profile,
        group_id: Some(sync.group_id.clone()),
        group_active_devices: 1,
        devices: Vec::new(),
        vector: Vec::new(),
        ops: Vec::new(),
        snapshot: empty_snapshot(),
        playback: None,
    }
}

#[test]
fn pairing_takes_an_invite_and_an_answer() {
    let (mut host, mut lh) = test_sync();
    let (mut guest, mut lg) = other_sync();
    host.create_invite("ticket", "inv_1", "s3cret", NOW).unwrap();

    // A wrong secret is refused.
    let wrong = request(&mut guest, "inv_1", "wrong");
    match host.handle_pair_request(&mut lh, wrong, "endpoint".into(), &address(), NOW, NOW) {
        PairOutcome::Refused { admission, asked } => {
            assert!(matches!(admission, Admission::Invalid));
            assert!(asked.is_none());
        }
        PairOutcome::LetIn { .. } => unreachable!(),
    }

    // The right one waits for an answer.
    let asking = request(&mut guest, "inv_1", "s3cret");
    let request_id =
        match host.handle_pair_request(&mut lh, asking, "endpoint".into(), &address(), NOW, NOW) {
            PairOutcome::Refused { admission, asked } => {
                assert!(matches!(admission, Admission::Pending));
                asked.unwrap().request_id
            }
            PairOutcome::LetIn { .. } => unreachable!(),
        };
    host.answer_pairing(&mut lh, &request_id, true, false, NOW);

    let asking = request(&mut guest, "inv_1", "s3cret");
    match host.handle_pair_request(&mut lh, asking, "endpoint".into(), &address(), NOW, NOW) {
        PairOutcome::LetIn { group_id, profile, told, .. } => {
            assert_eq!(group_id, host.group_id);
            assert_eq!(profile.device_id, host.device_id);
            let host_id = host.device_id.clone();
            let response = PairResponse {
                accepted: true,
                pending: false,
                error: None,
                group_id: Some(group_id),
                profile: Some(profile),
                devices: told.devices,
                vector: told.vector,
                ops: Vec::new(),
                snapshot: told.snapshot,
                playback: None,
            };
            let (attempt, _) = guest.finish_pairing(&mut lg, &host_id, response, NOW);
            assert!(matches!(attempt, PairAttempt::Accepted(_)));
        }
        PairOutcome::Refused { .. } => unreachable!(),
    }
    assert!(host.is_active_trusted(&guest.device_id));
    assert!(guest.is_active_trusted(&host.device_id));
    assert_eq!(guest.group_id, host.group_id);

    // From now on they talk to each other.
    let profile = profile_of(&mut guest);
    let hello = Hello {
        group_id: guest.group_id.clone(),
        profile,
        devices: Vec::new(),
        vector: Vec::new(),
        ops: Vec::new(),
        snapshot: empty_snapshot(),
        playback: None,
    };
    match host.handle_hello(&mut lh, hello, "endpoint".into(), &address(), NOW, NOW) {
        HelloOutcome::Accepted { told, .. } => {
            let host_id = host.device_id.clone();
            let response = SyncResponse {
                accepted: true,
                error: None,
                devices: told.devices,
                vector: told.vector,
                ops: Vec::new(),
                snapshot: told.snapshot,
                playback: None,
            };
            assert!(guest
                .finish_sync(&mut lg, &host_id, "endpoint".into(), response, NOW)
                .is_ok());
        }
        HelloOutcome::Refused(_) => unreachable!(),
    }
}

#[test]
fn a_hello_of_a_stranger_is_refused() {
    let (mut host, mut lh) = test_sync();
    let (mut guest, _) = other_sync();
    let hello = |guest: &mut DeviceSync, group_id: String| Hello {
        group_id,
        profile: profile_of(guest),
        devices: Vec::new(),
        vector: Vec::new(),
        ops: Vec::new(),
        snapshot: empty_snapshot(),
        playback: None,
    };
    let other_group = hello(&mut guest, "grp_other".into());
    match host.handle_hello(&mut lh, other_group, "endpoint".into(), &address(), NOW, NOW) {
        HelloOutcome::Refused(refusal) => {
            assert!(matches!(refusal, HelloRefusal::OtherGroup));
            assert!(!refusal.message().is_empty());
        }
        HelloOutcome::Accepted { .. } => unreachable!(),
    }
    let group = host.group_id.clone();
    let same_group = hello(&mut guest, group);
    match host.handle_hello(&mut lh, same_group, "endpoint".into(), &address(), NOW, NOW) {
        HelloOutcome::Refused(refusal) => assert!(matches!(refusal, HelloRefusal::NotTrusted)),
        HelloOutcome::Accepted { .. } => unreachable!(),
    }
}

#[test]
fn asking_to_pair_goes_on_until_the_time_is_up() {
    assert!(matches!(after_attempt(PairAttempt::Pending, 10, 20), PairNext::TryAgain));
    assert!(matches!(after_attempt(PairAttempt::Pending, 21, 20), PairNext::GiveUp(_)));
    assert!(matches!(
        after_attempt(PairAttempt::Accepted("laptop".into()), 10, 20),
        PairNext::Joined(_)
    ));
    assert!(matches!(
        after_attempt(PairAttempt::Denied("no".into()), 10, 20),
        PairNext::GiveUp(_)
    ));
}

#[test]
fn playback_of_another_device_is_shown_once() {
    let (mut sync, _) = test_sync();
    sync.apply_device_trusted("dev_a", 1);
    let snapshot = |at: i64| PlaybackSnapshot {
        device_id: "dev_a".into(),
        device_name: "A".into(),
        active: true,
        updated_at_ms: at,
        state: match set_state() {
            PlaybackCommand::SetState { state, .. } => state,
            PlaybackCommand::ActiveChanged { state, .. } => state,
        },
    };
    assert!(sync.apply_playback_snapshot(&snapshot(10)));
    assert!(!sync.apply_playback_snapshot(&snapshot(10)));
    assert!(sync.apply_playback_snapshot(&snapshot(11)));
}

#[test]
fn what_is_recorded_reaches_another_device_by_its_operations() {
    let (mut a, mut la) = test_sync();
    let (mut b, mut lb) = other_sync();
    let profile = profile_of(&mut a);
    b.apply_device_profile(&profile, true, NOW);
    let content_id = format!("b3:{}", "6".repeat(64));
    let playlist = la.create_playlist("Mix", 1, 1);
    assert!(a.record_playlist_created(&mut la, playlist.id, "Mix", NOW, 1, 1));
    la.update_playlist(playlist.id, "Better mix", Some("for the road".to_string()));
    assert!(a.record_playlist_renamed(&mut la, playlist.id, "Better mix", NOW, 1, 1));
    a.record_fed_like(&mut la, &test_fed_track(&content_id), true, NOW);
    assert!(la.add_fed_tracks_to_playlist(playlist.id, &vec![test_fed_track(&content_id)], 1, 1));
    let fed = test_fed_track(&content_id);
    assert!(a.record_playlist_fed_tracks_added(&mut la, playlist.id, &[fed], NOW, 1, 1));

    let told = a.ops_for_peer(&b.device_id.clone(), NOW);
    assert_eq!(told.len(), 4);
    let ops: Vec<SyncOpWire> = std::mem::take(&mut a.ops).into_iter().map(|row| row.op).collect();
    let clocks: Vec<i64> = ops.iter().map(|op| op.hlc_ms).collect();
    assert_eq!(clocks, vec![NOW, NOW + 1, NOW + 2, NOW + 3]);
    let (changed, commands) = b.apply_ops(&mut lb, ops, NOW);
    assert!(changed && commands.is_empty());
    let card = lb.playlists().into_iter().find(|card| card.title == "Better mix").unwrap();
    assert_eq!(lb.playlist(card.id, -10).unwrap().tracks.len(), 1);
    assert_eq!(lb.playlist(LIKES_PLAYLIST_ID, -10).unwrap().tracks.len(), 1);

    b.record_playlist_content_removed(
        &mut lb,
        card.id,
        &[content_id.clone(), content_id.to_uppercase().replace("B3", "b3")],
        NOW + 10,
    );
    assert_eq!(b.local_seq, 1);
    assert!(lb.playlist(card.id, -10).unwrap().tracks.is_empty());
    b.record_playlist_deleted(&mut lb, card.id, NOW + 20);
    assert_eq!(b.local_seq, 2);
    assert!(lb.playlist(card.id, -10).is_err());
    b.record_fed_like(&mut lb, &test_fed_track(&content_id), false, NOW + 30);
    assert!(lb.playlist(LIKES_PLAYLIST_ID, -10).unwrap().tracks.is_empty());
    let mut nameless = test_fed_track(&content_id);
    nameless.content_id = None;
    b.record_fed_like(&mut lb, &nameless, true, NOW + 40);
    assert_eq!(b.local_seq, 3);
}

#[test]
fn playback_commands_are_recorded_for_a_device() {
    let (mut a, mut la) = test_sync();
    assert!(!a.record_playback_command(&mut la, " ", set_state(), NOW));
    assert_eq!(a.ops.len(), 0);
    assert!(!a.record_playback_command(&mut la, "dev_other", set_state(), NOW));
    let own = a.device_id.clone();
    assert!(a.record_playback_command(&mut la, &own, set_state(), NOW));
    assert_eq!(a.ops.len(), 2);
}

#[test]
fn a_device_is_renamed_with_and_without_an_address() {
    let (mut a, mut la) = test_sync();
    a.set_device_name(&mut la, "  Kitchen ", "2.0", None, NOW);
    assert_eq!(a.name, "Kitchen");
    assert_eq!(a.ops.len(), 0);
    let row = a.devices.get(&a.device_id).unwrap();
    assert_eq!((row.name.as_str(), row.client_version.as_str()), ("Kitchen", "2.0"));
    let address = Some(("endpoint".to_string(), "ticket".to_string()));
    a.set_device_name(&mut la, "Hall", "2.0", address, NOW);
    assert_eq!(payload_kind(&a.ops[0].op.payload), "device_profile_set");
}

#[test]
fn reachable_devices_are_the_targets() {
    let (mut a, _) = test_sync();
    let mut profile = profile_of(&mut other_sync().0);
    profile.endpoint_id = "endpoint-of-b".to_string();
    profile.endpoint_ticket = " ".to_string();
    a.apply_device_profile(&profile, true, NOW);
    assert_eq!(a.active_remote_endpoint_ids(), vec!["endpoint-of-b".to_string()]);
    assert!(a.sync_targets().is_empty());
    profile.endpoint_ticket = "ticket".to_string();
    a.apply_device_profile(&profile, true, NOW);
    assert_eq!(a.sync_targets().len(), 1);
    a.note_failure("dev_0123456789", "no route");
    assert_eq!(a.last_error.as_deref(), Some("dev_012345: no route"));
}

#[test]
fn playback_without_a_time_is_of_now() {
    let (mut a, _) = test_sync();
    let snapshot = |at: i64| {
        let PlaybackCommand::SetState { state, .. } = set_state() else {
            unreachable!()
        };
        PlaybackSnapshot {
            device_id: "d".to_string(),
            device_name: "n".to_string(),
            active: true,
            updated_at_ms: at,
            state,
        }
    };
    a.publish_playback(snapshot(0), NOW);
    assert_eq!(a.local_playback.as_ref().unwrap().updated_at_ms, NOW);
    a.publish_playback(snapshot(5), NOW);
    assert_eq!(a.local_playback.as_ref().unwrap().updated_at_ms, 5);
}

#[test]
fn the_order_of_likes_is_repaired_from_the_state() {
    let (mut a, mut la) = test_sync();
    let content_id = format!("b3:{}", "7".repeat(64));
    let fed = SyncedFedTrack::from_fed(&test_fed_track(&content_id));
    a.apply_like_state(&mut la, &content_id, true, &fed, 50, "dev_r:1");
    la.fed_likes[0].liked_hlc_ms = None;
    la.fed_likes[0].liked_at_ms = 9;
    a.repair_like_order_from_sync_state(&mut la);
    assert_eq!(la.fed_likes[0].liked_hlc_ms, Some(50));
}

#[test]
fn playback_commands_are_caught_up_only_by_their_target_while_fresh() {
    let (mut sync, mut library) = test_sync();
    sync.record_playback_command(&mut library, "dev_target", set_state(), NOW);
    sync.record_playback_command(&mut library, "dev_other", set_state(), NOW);

    let commands = |sync: &DeviceSync, peer: &str| {
        let rows = sync.ops_for_peer(peer, NOW - PLAYBACK_COMMAND_TTL_MS);
        rows.into_iter()
            .filter(|row| {
                matches!(sync.ops[*row].op.payload, SyncOpPayload::PlaybackCommand { .. })
            })
            .count()
    };
    assert_eq!(commands(&sync, "dev_target"), 1);
    assert_eq!(commands(&sync, "dev_unknown"), 0);

    for row in sync.ops.iter_mut() {
        if matches!(row.op.payload, SyncOpPayload::PlaybackCommand { .. }) {
            row.op.hlc_ms = NOW - (PLAYBACK_COMMAND_TTL_MS + 1);
        }
    }
    assert_eq!(commands(&sync, "dev_target"), 0);
}

#[test]
fn only_playback_commands_grow_too_old_to_be_sent() {
    let (mut sync, mut library) = test_sync();
    let content_id = format!("b3:{}", "6".repeat(64));
    sync.record_fed_like(&mut library, &test_fed_track(&content_id), true, NOW);
    sync.record_playback_command(&mut library, "dev_target", set_state(), NOW);
    let clock = sync.ops[1].op.hlc_ms;
    assert_eq!(sync.ops_for_peer("dev_target", clock), vec![0, 1]);
    assert_eq!(sync.ops_for_peer("dev_target", clock + 1), vec![0]);
}

type Listed = Vec<(String, String, i64, i64, String)>;

/// Everything that a snapshot lists, in a fixed order.
fn listed(snapshot: &SyncSnapshot) -> Listed {
    let mut all = Listed::new();
    for like in &snapshot.likes {
        all.push(("like".into(), like.content_id.clone(), 0, like.hlc_ms, like.op_id.clone()));
    }
    for like in &snapshot.unlikes {
        all.push(("unlike".into(), like.content_id.clone(), 0, like.hlc_ms, like.op_id.clone()));
    }
    for list in &snapshot.playlists {
        let name = format!("{} {}", list.playlist_id, list.title);
        all.push(("playlist".into(), name, 0, list.hlc_ms, list.op_id.clone()));
        for item in &list.items {
            let name = format!("{} {}", list.playlist_id, item.content_id);
            all.push(("item".into(), name, item.position, item.hlc_ms, item.op_id.clone()));
        }
    }
    for list in &snapshot.deleted_playlists {
        all.push(("deleted".into(), list.playlist_id.clone(), 0, list.hlc_ms, list.op_id.clone()));
    }
    for item in &snapshot.removed_playlist_items {
        let name = format!("{} {}", item.playlist_id, item.content_id);
        all.push(("removed".into(), name, 0, item.hlc_ms, item.op_id.clone()));
    }
    all.sort();
    all
}

#[test]
fn a_fresh_device_gives_the_same_snapshot_back() {
    let (mut a, mut la) = test_sync();
    let (mut b, mut lb) = other_sync();
    let id = |digit: &str| format!("b3:{}", digit.repeat(64));
    a.apply_like_state(&mut la, &id("1"), true, &None, 10, "dev_r:1");
    a.apply_like_state(&mut la, &id("2"), false, &None, 20, "dev_r:2");
    a.apply_playlist_state(&mut la, "pl_1", "Mix", false, 30, "dev_r:3");
    a.apply_playlist_state(&mut la, "pl_2", "mix", false, 31, "dev_r:4");
    a.apply_playlist_state(&mut la, "pl_3", "", true, 32, "dev_r:5");
    a.apply_playlist_item_state(&mut la, "pl_1", &id("3"), true, 7, &None, 40, "dev_r:6");
    a.apply_playlist_item_state(&mut la, "pl_1", &id("4"), false, 9, &None, 41, "dev_r:7");
    a.apply_playlist_item_state(&mut la, "pl_2", &id("3"), true, -1, &None, 42, "dev_r:8");
    let told = a.snapshot(&la);
    assert_eq!(listed(&told).len(), 8);

    b.apply_snapshot(&mut lb, &told);
    assert_eq!(listed(&b.snapshot(&lb)), listed(&told));
    b.apply_snapshot(&mut lb, &told);
    assert_eq!(listed(&b.snapshot(&lb)), listed(&told));
}

#[test]
fn a_snapshot_lists_a_like_once() {
    let (mut a, mut la) = test_sync();
    let id = format!("b3:{}", "a".repeat(64));
    a.apply_like_state(&mut la, &id, true, &None, 10, "dev_r:1");
    a.apply_like_state(&mut la, &id.to_uppercase().replace("B3", "b3"), true, &None, 20, "dev_r:2");
    let told = a.snapshot(&la);
    assert_eq!(told.likes.len(), 1);
    assert_eq!((told.likes[0].content_id.as_str(), told.likes[0].hlc_ms), (id.as_str(), 20));
}
