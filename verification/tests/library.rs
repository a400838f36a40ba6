//! The local library: importing, listing, searching, editing and deleting.

use furumi::federation::track::FedTrack;
use furumi::library::artists::{LibraryFilters, LibrarySourceMode};
use furumi::library::edit::EditError;
use furumi::library::export::sqlite_database_size;
use furumi::library::import::{ImportOutcome, TrackImport};
use furumi::library::likes::LikeError;
use furumi::library::models::{ReleaseEdit, Seconds, TrackEdit};
use furumi::library::network::NetworkArtistPreview;
use furumi::library::playlists::LIKES_PLAYLIST_ID;
use furumi::library::tables::Library;

const NOW: i64 = 1_767_225_600_000;
const DAY: i64 = 86_400_000;

/// Small letters, with everything that is neither a letter nor a digit as a
/// single space.
fn normalize(value: &str) -> String {
    let mut out = String::new();
    for c in value.to_lowercase().chars() {
        if c.is_alphanumeric() {
            out.push(c);
        } else if !out.is_empty() && !out.ends_with(' ') {
            out.push(' ');
        }
    }
    out.trim_end().to_string()
}

fn import(title: &str, artist: &str, featured: &[&str], album: &str) -> TrackImport {
    TrackImport {
        file_path: format!("/music/{artist}/{album}/{title}.mp3"),
        title: title.to_string(),
        artists: vec![artist.to_string()],
        featured_artists: featured.iter().map(|name| (*name).to_string()).collect(),
        album_artists: vec![artist.to_string()],
        release_title: album.to_string(),
        release_type: None,
        year: Some(2020),
        track_number: None,
        disc_number: None,
        duration: Seconds::Measured(60.0f64.to_bits()),
        audio_format: Some("mp3".into()),
        audio_bitrate: Some(320),
        audio_sample_rate: Some(44100),
        audio_bit_depth: None,
        file_size_bytes: Some(1),
        cover: None,
    }
}

fn add_track(lib: &mut Library, title: &str, artist: &str, album: &str) -> i64 {
    add_track_with_featured(lib, title, artist, &[], album)
}

fn add_track_with_featured(
    lib: &mut Library,
    title: &str,
    artist: &str,
    featured: &[&str],
    album: &str,
) -> i64 {
    let import = import(title, artist, featured, album);
    let id = lib.upsert_track(&normalize, &import).unwrap().track_id;
    let content_id = format!("b3:{}", blake3::hash(import.file_path.as_bytes()).to_hex());
    for row in lib.tracks.iter_mut() {
        if row.id == id {
            row.content_id = Some(content_id.clone());
        }
    }
    id
}

fn artist_filters(hide_featured_only: bool) -> LibraryFilters {
    LibraryFilters { hide_featured_only, ..Default::default() }
}

fn fed_track(item: &str, owner: &str, title: &str, content_id: &str) -> FedTrack {
    FedTrack {
        item_id: item.to_string(),
        owner: owner.to_string(),
        own: false,
        title: title.to_string(),
        artist_names: vec!["Remote Artist".to_string()],
        featured_artist_names: Vec::new(),
        year: Some(2026),
        duration_seconds: Some(123),
        content_id: Some(content_id.to_string()),
        release_title: Some("Remote Release".to_string()),
        track_number: Some(1),
        disc_number: Some(1),
    }
}

fn local_stats_counts() {
    let mut lib = Library::new();
    add_track(&mut lib, "One", "Artist", "First");
    add_track(&mut lib, "Two", "Artist", "Second");

    let stats = lib.local_stats(0, 0);
    assert_eq!(stats.artist_count, 1);
    assert_eq!(stats.release_count, 2);
    assert_eq!(stats.track_count, 2);
    assert_eq!(stats.audio_bytes, 2);
    assert_eq!(stats.tracks_without_size, 0);
}

#[test]
fn mod_local_stats_counts_library_rows_and_audio_bytes() {
    local_stats_counts();
}

#[test]
fn tests_local_stats_counts_library_rows_and_audio_bytes() {
    local_stats_counts();
}

fn artists_page_order() {
    let mut lib = Library::new();
    add_track(&mut lib, "Solo", "Zed", "Zed Album");
    add_track_with_featured(&mut lib, "Guest One", "A Host", &["Guest"], "A Host Album");
    add_track_with_featured(&mut lib, "Guest Two", "B Host", &["Guest"], "B Host Album");

    let page = lib.artists(&normalize, 1, 10, artist_filters(false), NOW);
    let zed_pos = page.items.iter().position(|artist| artist.name == "Zed").unwrap();
    let guest_pos = page.items.iter().position(|artist| artist.name == "Guest").unwrap();
    let guest = &page.items[guest_pos];

    assert_eq!(guest.release_count, 0);
    assert_eq!(guest.track_count, 2);
    assert!(zed_pos < guest_pos);

    let filtered = lib.artists(&normalize, 1, 10, artist_filters(true), NOW);
    assert!(filtered.items.iter().all(|artist| artist.release_count > 0));
    assert!(!filtered.items.iter().any(|artist| artist.name == "Guest"));
}

#[test]
fn mod_artists_page_prioritizes_releases_then_tracks() {
    artists_page_order();
}

#[test]
fn tests_artists_page_prioritizes_releases_then_tracks() {
    artists_page_order();
}

fn image_hint_becomes_image() {
    let mut lib = Library::new();
    let artist_key = normalize("Remote Artist");
    lib.replace_network_artist_cache(
        &normalize,
        "peer-a",
        "personal",
        &vec![NetworkArtistPreview {
            artist_key: artist_key.clone(),
            name: "Remote Artist".into(),
            image_path: Some("peer-local/image.jpg".into()),
            release_count: 1,
            track_count: 3,
        }],
        NOW,
    );

    let filters = LibraryFilters { source_mode: LibrarySourceMode::My, ..Default::default() };
    let page = lib.artists(&normalize, 1, 10, filters, NOW);
    assert_eq!(page.items[0].image_path, None);

    let requests = lib.network_artist_image_requests(
        &normalize,
        filters,
        &vec!["Remote Artist".into()],
        8,
        NOW,
    );
    assert_eq!(requests.len(), 1);
    assert_eq!(requests[0].source_id, "peer-a");
    assert_eq!(requests[0].artist_key, artist_key);

    assert!(lib.set_network_artist_image("peer-a", &artist_key, "/tmp/remote-artist.jpg"));
    let page = lib.artists(&normalize, 1, 10, filters, NOW);
    assert_eq!(page.items[0].image_path.as_deref(), Some("/tmp/remote-artist.jpg"));
}

#[test]
fn mod_network_artist_image_hint_becomes_local_image_after_fetch() {
    image_hint_becomes_image();
}

#[test]
fn tests_network_artist_image_hint_becomes_local_image_after_fetch() {
    image_hint_becomes_image();
}

fn import_creates() {
    let mut lib = Library::new();
    let track_id = add_track(&mut lib, "Song", "Artist", "Album");
    let page = lib.artists(&normalize, 1, 10, artist_filters(false), NOW);
    assert_eq!(page.total, 1);
    assert_eq!(page.items[0].name, "Artist");
    assert_eq!(page.items[0].track_count, 1);

    let detail = lib.artist(page.items[0].id).unwrap();
    assert_eq!(detail.releases.len(), 1);
    assert_eq!(detail.top_tracks.len(), 1);

    let release = lib.release(detail.releases[0].id).unwrap();
    assert_eq!(release.tracks.len(), 1);
    assert_eq!(release.tracks[0].id, track_id);
    assert_eq!(release.tracks[0].artists[0].name, "Artist");
}

#[test]
fn mod_import_creates_artist_release_track() {
    import_creates();
}

#[test]
fn tests_import_creates_artist_release_track() {
    import_creates();
}

fn reimport_updates() {
    let mut lib = Library::new();
    let first = add_track(&mut lib, "Song", "Artist", "Album");
    let second = add_track(&mut lib, "Song", "Artist", "Album");
    assert_eq!(first, second);
    let page = lib.artists(&normalize, 1, 10, artist_filters(false), NOW);
    assert_eq!(page.items[0].track_count, 1);
}

#[test]
fn mod_reimport_updates_instead_of_duplicating() {
    reimport_updates();
}

#[test]
fn tests_reimport_updates_instead_of_duplicating() {
    reimport_updates();
}

fn backfill_hashes() {
    let mut lib = Library::new();
    let import = TrackImport {
        file_path: "/music/portable.bin".to_string(),
        title: "Portable".to_string(),
        artists: vec!["Artist".to_string()],
        featured_artists: Vec::new(),
        album_artists: vec!["Artist".to_string()],
        release_title: "Album".to_string(),
        release_type: None,
        year: Some(2026),
        track_number: None,
        disc_number: None,
        duration: Seconds::Measured(60.0f64.to_bits()),
        audio_format: Some("bin".into()),
        audio_bitrate: None,
        audio_sample_rate: None,
        audio_bit_depth: None,
        file_size_bytes: Some(19),
        cover: None,
    };
    let track_id = lib.upsert_track(&normalize, &import).unwrap().track_id;
    let expected = format!("b3:{}", blake3::hash(b"portable content id").to_hex());
    let wanted = lib.tracks_to_hash();
    assert_eq!(wanted, vec![(track_id, "/music/portable.bin".to_string())]);

    let stats = lib.backfill_missing_content_ids(&vec![(track_id, expected.clone())]);
    assert_eq!(stats.hashed, 1);
    assert_eq!(stats.updated(), 1);
    assert_eq!(lib.track_content_id_by_id(track_id).as_deref(), Some(expected.as_str()));
    assert!(lib.tracks_to_hash().is_empty());
}

#[test]
fn mod_content_id_backfill_hashes_missing_track_ids() {
    backfill_hashes();
}

#[test]
fn tests_content_id_backfill_hashes_missing_track_ids() {
    backfill_hashes();
}

fn search_finds() {
    let mut lib = Library::new();
    add_track(&mut lib, "Neon Lights", "Neon Artist", "Neon Album");
    let results = lib.search(&normalize, "neon", 10);
    assert_eq!(results.artists.len(), 1);
    assert_eq!(results.releases.len(), 1);
    assert_eq!(results.tracks.len(), 1);
    // A wildcard of the query language must not match everything.
    assert_eq!(lib.search(&normalize, "%", 10).len(), 0);
}

#[test]
fn mod_search_finds_all_kinds() {
    search_finds();
}

#[test]
fn tests_search_finds_all_kinds() {
    search_finds();
}

fn search_ranks() {
    let mut lib = Library::new();
    add_track(&mut lib, "A Needle", "A Needle Artist", "A Needle Album");
    add_track(&mut lib, "Needle", "Needle", "Needle");

    let results = lib.search(&normalize, "needle", 10);
    assert_eq!(results.artists[0].name, "Needle");
    assert_eq!(results.releases[0].title, "Needle");
    assert_eq!(results.tracks[0].title, "Needle");
}

#[test]
fn mod_search_ranks_exact_names_first() {
    search_ranks();
}

#[test]
fn tests_search_ranks_exact_names_first() {
    search_ranks();
}

fn search_folds_case() {
    let mut lib = Library::new();
    add_track(&mut lib, "Nothing Else Matters", "Металлика", "Чёрный альбом");
    assert_eq!(lib.search(&normalize, "металлика", 10).artists.len(), 1);
    assert_eq!(lib.search(&normalize, "МЕТАЛЛИКА", 10).artists.len(), 1);
    assert_eq!(lib.search(&normalize, "чёрный", 10).releases.len(), 1);
    assert_eq!(lib.search(&normalize, "matters", 10).tracks.len(), 1);
}

#[test]
fn mod_search_folds_case_beyond_ascii() {
    search_folds_case();
}

#[test]
fn tests_search_folds_case_beyond_ascii() {
    search_folds_case();
}

fn playlists_and_likes() {
    let mut lib = Library::new();
    let track_id = add_track(&mut lib, "Song", "Artist", "Album");
    let playlist = lib.create_playlist("Mix", 1, 1);
    assert!(lib.add_tracks_to_playlist(playlist.id, &[track_id]));
    assert_eq!(lib.playlist(playlist.id, -10).unwrap().tracks.len(), 1);

    let content_id = lib.track_content_id_by_id(track_id).unwrap();
    assert_eq!(lib.toggle_like_by_content_id(&content_id, NOW), Ok(true));
    assert_eq!(lib.liked_content_ids(), vec![content_id.clone()]);
    assert_eq!(lib.playlist(LIKES_PLAYLIST_ID, -10).unwrap().tracks.len(), 1);
    assert_eq!(lib.toggle_like_by_content_id(&content_id, NOW), Ok(false));

    lib.remove_tracks_from_playlist(playlist.id, &[track_id]);
    assert_eq!(lib.playlist(playlist.id, -10).unwrap().tracks.len(), 0);
    lib.delete_playlist(playlist.id);
    // Only the playlist of the liked tracks remains.
    assert_eq!(lib.playlists().len(), 1);
}

#[test]
fn mod_playlists_and_likes_round_trip() {
    playlists_and_likes();
}

#[test]
fn tests_playlists_and_likes_round_trip() {
    playlists_and_likes();
}

fn liked_titles(lib: &Library) -> Vec<String> {
    lib.playlist(LIKES_PLAYLIST_ID, -10)
        .unwrap()
        .tracks
        .into_iter()
        .map(|track| track.title)
        .collect()
}

fn set_liked_at(lib: &mut Library, track_id: i64, at: i64) {
    for like in lib.likes.iter_mut() {
        if like.track_id == track_id {
            like.liked_at_ms = at;
        }
    }
}

fn likes_order() {
    let mut lib = Library::new();
    let old_id = add_track(&mut lib, "Old Local", "Artist", "Album");
    let new_id = add_track(&mut lib, "New Local", "Artist", "Album");
    let old_content_id = lib.track_content_id_by_id(old_id).unwrap();
    let new_content_id = lib.track_content_id_by_id(new_id).unwrap();
    let content_id = format!("b3:{}", "c".repeat(64));
    let fed = fed_track("fed_item_order", "fed_owner_order", "Middle Fed", &content_id);

    assert_eq!(lib.toggle_like_by_content_id(&old_content_id, NOW), Ok(true));
    assert_eq!(lib.toggle_like_by_content_id(&new_content_id, NOW), Ok(true));
    assert!(lib.toggle_fed_like(&fed, NOW));
    set_liked_at(&mut lib, old_id, NOW);
    set_liked_at(&mut lib, new_id, NOW + DAY);
    for like in lib.fed_likes.iter_mut() {
        like.liked_at_ms = NOW + 2 * DAY;
    }
    assert_eq!(liked_titles(&lib), vec!["Middle Fed", "New Local", "Old Local"]);

    assert_eq!(lib.toggle_like_by_content_id(&old_content_id, NOW), Ok(false));
    assert_eq!(lib.toggle_like_by_content_id(&old_content_id, NOW), Ok(true));
    set_liked_at(&mut lib, old_id, NOW + 3 * DAY);
    assert_eq!(liked_titles(&lib), vec!["Old Local", "Middle Fed", "New Local"]);
}

#[test]
fn mod_likes_playlist_orders_local_and_federated_by_liked_at() {
    likes_order();
}

#[test]
fn tests_likes_playlist_orders_local_and_federated_by_liked_at() {
    likes_order();
}

fn synced_playlist_shows_pending() {
    let mut lib = Library::new();
    let playlist = lib.create_playlist("Remote Mix", 1, 1);
    let sync_id = lib.ensure_playlist_sync_id(playlist.id, 1, 1).unwrap();
    let content_id = format!("b3:{}", "a".repeat(64));
    let mut fed = fed_track("fed_item_1", "fed_owner_1", "Remote Song", &content_id);
    fed.featured_artist_names = vec!["Remote Guest".to_string()];
    fed.track_number = Some(2);

    assert!(lib.upsert_fed_playlist_track(&sync_id, &fed, 4));
    assert!(lib.has_playlist_content_reference(&sync_id, &content_id));

    let detail = lib.playlist(playlist.id, -10).unwrap();
    assert_eq!(detail.tracks.len(), 1);
    let track = &detail.tracks[0];
    assert!(track.is_fed_pending());
    assert_eq!(track.title, "Remote Song");
    assert_eq!(track.artist_line(), "Remote Artist feat. Remote Guest");
    assert_eq!(track.release_title, "Remote Release");
    assert_eq!(track.content_id.as_deref(), Some(content_id.as_str()));

    let card = lib.playlists().into_iter().find(|card| card.id == playlist.id).unwrap();
    assert_eq!(card.track_count, 1);

    lib.remove_content_ids_from_playlist(playlist.id, &vec![content_id.clone()]);
    assert_eq!(lib.playlist(playlist.id, -10).unwrap().tracks.len(), 0);
    assert!(lib.fed_playlist_track_by_content_id(&sync_id, &content_id).is_none());
}

#[test]
fn mod_synced_playlist_can_show_federated_pending_tracks() {
    synced_playlist_shows_pending();
}

#[test]
fn tests_synced_playlist_can_show_federated_pending_tracks() {
    synced_playlist_shows_pending();
}

fn pending_track_has_a_position() {
    let mut lib = Library::new();
    let local_id = add_track(&mut lib, "Local Song", "Artist", "Album");
    let playlist = lib.create_playlist("Remote Mix", 1, 1);
    let content_id = format!("b3:{}", "b".repeat(64));
    let mut fed = fed_track("fed_item_2", "fed_owner_2", "Remote Song", &content_id);
    fed.track_number = Some(2);

    assert!(lib.add_tracks_to_playlist(playlist.id, &[local_id]));
    assert!(lib.add_fed_tracks_to_playlist(playlist.id, &vec![fed], 1, 1));

    assert_eq!(lib.playlist_content_position(playlist.id, &content_id), Some(1));
    let detail = lib.playlist(playlist.id, -10).unwrap();
    let titles: Vec<String> = detail.tracks.into_iter().map(|track| track.title).collect();
    assert_eq!(titles, vec!["Local Song", "Remote Song"]);
}

#[test]
fn mod_add_federated_pending_track_to_playlist_records_position() {
    pending_track_has_a_position();
}

#[test]
fn tests_add_federated_pending_track_to_playlist_records_position() {
    pending_track_has_a_position();
}

fn edit_relinks() {
    let mut lib = Library::new();
    let track_id = add_track(&mut lib, "Song", "Artist", "Album");
    lib.update_track(
        &normalize,
        track_id,
        &TrackEdit {
            title: "Renamed".into(),
            artists: vec!["Other".into()],
            featured_artists: vec!["Guest".into()],
            track_number: Some(2),
            disc_number: None,
            cover_path: None,
        },
    )
    .unwrap();
    let track = lib.tracks_by_ids(&[track_id]).remove(0);
    assert_eq!(track.title, "Renamed");
    assert_eq!(track.artists[0].name, "Other");
    assert_eq!(track.featured_artists[0].name, "Guest");
    assert_eq!(track.track_number, Some(2));
}

#[test]
fn mod_track_edit_relinks_artists() {
    edit_relinks();
}

#[test]
fn tests_track_edit_relinks_artists() {
    edit_relinks();
}

fn deleting_artist_cleans_up() {
    let mut lib = Library::new();
    add_track(&mut lib, "Song", "Solo", "Solo Album");
    let page = lib.artists(&normalize, 1, 10, artist_filters(false), NOW);
    lib.delete_artist(page.items[0].id);
    assert_eq!(lib.artists(&normalize, 1, 10, artist_filters(false), NOW).total, 0);
    assert_eq!(lib.search(&normalize, "Song", 10).len(), 0);
}

#[test]
fn mod_deleting_artist_cleans_up_own_content() {
    deleting_artist_cleans_up();
}

#[test]
fn tests_deleting_artist_cleans_up_own_content() {
    deleting_artist_cleans_up();
}

fn delete_track_drops_release() {
    let mut lib = Library::new();
    let track_id = add_track(&mut lib, "Only", "Artist", "Album");
    lib.delete_track(track_id);
    let page = lib.artists(&normalize, 1, 10, artist_filters(false), NOW);
    let detail = lib.artist(page.items[0].id).unwrap();
    assert!(detail.releases.is_empty());
}

#[test]
fn mod_delete_track_drops_empty_release() {
    delete_track_drops_release();
}

#[test]
fn tests_delete_track_drops_empty_release() {
    delete_track_drops_release();
}

fn history_counts() {
    let mut lib = Library::new();
    let track_id = add_track(&mut lib, "Song", "Artist", "Album");
    lib.add_history(track_id, None, 60, true);
    lib.add_history(track_id, None, 10, false);
    let track = lib.tracks_by_ids(&[track_id]).remove(0);
    assert_eq!(track.play_count, 1);
}

#[test]
fn mod_history_counts_completed_plays() {
    history_counts();
}

#[test]
fn tests_history_counts_completed_plays() {
    history_counts();
}

// ---------------------------------------------------------------------------

#[test]
fn blank_names_are_refused_and_change_nothing() {
    let mut lib = Library::new();
    let mut blank = import("Song", "Artist", &[], "Album");
    blank.artists = vec!["  ".to_string()];
    assert_eq!(lib.upsert_track(&normalize, &blank), Err(EditError::EmptyName));
    assert!(lib.artists.is_empty() && lib.releases.is_empty() && lib.tracks.is_empty());
    assert_eq!(EditError::EmptyName.message(), "artist name is empty");
    assert_eq!(EditError::NotFound.message(), "FOREIGN KEY constraint failed");
}

#[test]
fn crediting_a_missing_track_is_refused() {
    let mut lib = Library::new();
    let edit = TrackEdit {
        title: "Renamed".into(),
        artists: vec!["Other".into()],
        featured_artists: Vec::new(),
        track_number: None,
        disc_number: None,
        cover_path: None,
    };
    assert_eq!(lib.update_track(&normalize, 7, &edit), Err(EditError::NotFound));
    assert!(lib.artists.is_empty());
}

#[test]
fn a_file_that_is_taken_in_again_adds_nothing() {
    let mut lib = Library::new();
    let file = import("Song", "Artist", &["Guest"], "Album");
    let first = lib.upsert_track(&normalize, &file).unwrap();
    assert!(first.created && first.wants_cover);
    let sizes = (lib.artists.len(), lib.releases.len(), lib.tracks.len(), lib.track_artists.len());
    let second = lib.upsert_track(&normalize, &file).unwrap();
    assert!(!second.created);
    assert_eq!(second.track_id, first.track_id);
    assert_eq!(second.release_id, first.release_id);
    assert_eq!(
        sizes,
        (lib.artists.len(), lib.releases.len(), lib.tracks.len(), lib.track_artists.len())
    );
}

#[test]
fn a_file_without_album_artists_opens_a_release_each_time() {
    let mut lib = Library::new();
    let mut file = import("Song", "Artist", &[], "Album");
    file.album_artists = Vec::new();
    lib.upsert_track(&normalize, &file).unwrap();
    lib.upsert_track(&normalize, &file).unwrap();
    assert_eq!(lib.releases.len(), 2);
    assert_eq!(lib.tracks.len(), 1);
}

#[test]
fn a_release_gets_a_year_and_a_cover_once() {
    let mut lib = Library::new();
    let mut file = import("One", "Artist", &[], "Album");
    file.year = None;
    let first = lib.upsert_track(&normalize, &file).unwrap();
    lib.set_release_cover(first.release_id, "/covers/release_1.jpg".to_string());
    let mut other = import("Two", "artist", &[], "ALBUM");
    other.year = Some(1999);
    let second = lib.upsert_track(&normalize, &other).unwrap();
    assert_eq!(second.release_id, first.release_id);
    assert!(!second.wants_cover);
    assert_eq!(lib.releases[0].year, Some(1999));
    assert_eq!(lib.artists.len(), 1);
}

#[test]
fn deleting_an_artist_keeps_collaborations() {
    let mut lib = Library::new();
    let mut shared = import("Both", "One", &[], "Album");
    shared.artists = vec!["One".to_string(), "Two".to_string()];
    let shared = lib.upsert_track(&normalize, &shared).unwrap().track_id;
    let own = add_track(&mut lib, "Alone", "One", "Other Album");
    let one = lib.artist_id_by_name(&normalize, "one").unwrap();
    lib.add_history(own, None, 60, true);
    lib.delete_artist(one);
    assert!(lib.artist_id_by_name(&normalize, "One").is_none());
    assert_eq!(lib.tracks.len(), 1);
    assert_eq!(lib.tracks[0].id, shared);
    assert_eq!(lib.releases.len(), 1);
    assert!(lib.history.is_empty());
    assert!(lib.track_artists.iter().all(|credit| credit.artist_id != one));
}

#[test]
fn deleting_a_release_takes_everything_that_refers_to_its_tracks() {
    let mut lib = Library::new();
    let track = add_track(&mut lib, "Song", "Artist", "Album");
    let content_id = lib.track_content_id_by_id(track).unwrap();
    let playlist = lib.create_playlist("Mix", 1, 1);
    assert!(lib.add_tracks_to_playlist(playlist.id, &[track]));
    assert_eq!(lib.toggle_like_by_content_id(&content_id, NOW), Ok(true));
    lib.delete_release(lib.releases[0].id);
    assert!(lib.tracks.is_empty() && lib.likes.is_empty() && lib.playlist_tracks.is_empty());
    assert!(lib.track_artists.is_empty() && lib.release_artists.is_empty());
    assert_eq!(lib.release(1).err().as_deref(), Some("release not found"));
}

#[test]
fn editing_a_release_credits_it_anew() {
    let mut lib = Library::new();
    add_track(&mut lib, "Song", "Artist", "Album");
    let id = lib.releases[0].id;
    lib.update_release(
        &normalize,
        id,
        &ReleaseEdit {
            title: "Renamed".into(),
            release_type: "ep".into(),
            year: Some(2001),
            artists: vec!["Other".into()],
        },
    )
    .unwrap();
    let detail = lib.release(id).unwrap();
    assert_eq!(detail.title, "Renamed");
    assert_eq!(detail.release_type, "ep");
    assert_eq!(detail.year, Some(2001));
    assert_eq!(detail.artists.len(), 1);
    assert_eq!(detail.artists[0].name, "Other");
}

#[test]
fn an_artist_cannot_take_the_name_of_another() {
    let mut lib = Library::new();
    add_track(&mut lib, "Song", "One", "Album");
    add_track(&mut lib, "Song", "Two", "Album");
    let two = lib.artist_id_by_name(&normalize, "Two").unwrap();
    assert!(lib.update_artist(two, "ONE", None).is_err());
    lib.update_artist(two, "Three", Some("/img.jpg".to_string())).unwrap();
    assert_eq!(lib.artist_image(two).as_deref(), Some("/img.jpg"));
}

#[test]
fn likes_need_a_content_id_and_a_track() {
    let mut lib = Library::new();
    assert_eq!(lib.toggle_like_by_content_id("b3:zz", NOW), Err(LikeError::InvalidContentId));
    let unknown = format!("b3:{}", "f".repeat(64));
    assert_eq!(lib.toggle_like_by_content_id(&unknown, NOW), Err(LikeError::NoLocalTrack));
    let fed = fed_track("item", "owner", "Song", &unknown);
    assert!(lib.toggle_fed_like(&fed, NOW));
    assert_eq!(lib.fed_like_ids(), vec!["item".to_string(), unknown.clone()]);
    // A like of another peer's track can be taken back by its content id.
    assert_eq!(lib.toggle_like_by_content_id(&unknown, NOW), Ok(false));
    assert!(lib.fed_likes.is_empty());
}

#[test]
fn a_like_moves_to_the_imported_track() {
    let mut lib = Library::new();
    let content_id = format!("b3:{}", "9".repeat(64));
    let fed = fed_track("item", "owner", "Song", &content_id);
    assert!(lib.toggle_fed_like(&fed, NOW));
    let track = add_track(&mut lib, "Song", "Artist", "Album");
    assert!(lib.transfer_fed_like("item", track));
    assert!(lib.fed_likes.is_empty());
    assert_eq!(lib.likes.len(), 1);
    assert_eq!(lib.likes[0].track_id, track);
    assert_eq!(lib.likes[0].liked_at_ms, NOW);
    assert!(!lib.transfer_fed_like("item", track));
}

#[test]
fn playlists_that_are_not_there_are_not_found() {
    let lib = Library::new();
    assert_eq!(lib.playlist(5, -10).err().as_deref(), Some("playlist not found"));
    assert_eq!(lib.artist(5).err().as_deref(), Some("artist not found"));
}

#[test]
fn adding_tracks_twice_keeps_one_place() {
    let mut lib = Library::new();
    let one = add_track(&mut lib, "One", "Artist", "Album");
    let two = add_track(&mut lib, "Two", "Artist", "Album");
    let playlist = lib.create_playlist("Mix", 1, 1);
    assert!(lib.add_tracks_to_playlist(playlist.id, &[one, two, one]));
    let places: Vec<(i64, i64)> =
        lib.playlist_tracks.iter().map(|entry| (entry.track_id, entry.position)).collect();
    assert_eq!(places, vec![(one, 0), (two, 1)]);
    // A track that is not there cannot be added, and nothing changes.
    assert!(!lib.add_tracks_to_playlist(playlist.id, &[99]));
    assert_eq!(lib.playlist_tracks.len(), 2);
}

#[test]
fn the_cache_of_other_peers_runs_out() {
    let mut lib = Library::new();
    let preview = NetworkArtistPreview {
        artist_key: String::new(),
        name: " Remote ".into(),
        image_path: None,
        release_count: -3,
        track_count: 2,
    };
    let kept = lib.replace_network_artist_cache(&normalize, "peer", "global", &vec![preview], NOW);
    assert_eq!(kept, 1);
    assert_eq!(lib.network[0].artist_key, "remote");
    assert_eq!(lib.network[0].release_count, 0);
    let mine = LibraryFilters { source_mode: LibrarySourceMode::My, ..Default::default() };
    let all = LibraryFilters { source_mode: LibrarySourceMode::Global, ..Default::default() };
    assert_eq!(lib.artists(&normalize, 1, 10, mine, NOW).total, 0);
    assert_eq!(lib.artists(&normalize, 1, 10, all, NOW).total, 1);
    assert_eq!(lib.artists(&normalize, 1, 10, all, NOW + 8 * DAY).total, 0);
    assert_eq!(lib.replace_network_artist_cache(&normalize, " ", "global", &vec![], NOW), 0);
}

#[test]
fn an_import_counts_what_became_of_each_file() {
    let mut lib = Library::new();
    let mut outcome = ImportOutcome::default();
    let song = import("Song", "Artist", &[], "Album");
    let first = lib.import_file(&normalize, "a.mp3".to_string(), Ok(song), &mut outcome);
    let first = first.unwrap();
    assert!(first.created && first.wants_cover);
    let song = import("Song", "Artist", &[], "Album");
    let again = lib.import_file(&normalize, "a.mp3".to_string(), Ok(song), &mut outcome);
    let again = again.unwrap();
    assert!(!again.created);
    assert_eq!((again.track_id, again.release_id), (first.track_id, first.release_id));
    let unread = Err("cannot read tags".to_string());
    assert!(lib.import_file(&normalize, "b.mp3".to_string(), unread, &mut outcome).is_none());
    let nameless = import("Song", " ", &[], "Album");
    assert!(lib
        .import_file(&normalize, "c.mp3".to_string(), Ok(nameless), &mut outcome)
        .is_none());
    assert_eq!((outcome.added, outcome.updated), (1, 1));
    assert_eq!(
        outcome.failed,
        vec![
            ("b.mp3".to_string(), "cannot read tags".to_string()),
            ("c.mp3".to_string(), "artist name is empty".to_string()),
        ]
    );
    assert_eq!(lib.tracks.len(), 1);
}

#[test]
fn sizes_are_added_up() {
    let mut lib = Library::new();
    add_track(&mut lib, "Song", "Artist", "Album");
    let stats = lib.local_stats(10, sqlite_database_size(100, 20, 3));
    assert_eq!((stats.audio_bytes, stats.cover_bytes, stats.database_bytes), (1, 10, 123));
    assert_eq!(stats.total_bytes(), 134);
    assert_eq!(lib.local_stats(u64::MAX, 1).total_bytes(), u64::MAX);
}

#[test]
fn tracks_are_found_by_content() {
    let mut lib = Library::new();
    let id = add_track(&mut lib, "Song", "Artist", "Album");
    let content_id = lib.tracks[0].content_id.clone().unwrap();
    assert_eq!(lib.local_content_ids(), vec![content_id.clone()]);
    assert_eq!(lib.track_by_content_id(&content_id).unwrap().id, id);
    assert!(lib.track_by_content_id("b3:short").is_none());
    assert!(lib.track_by_content_id(&format!("b3:{}", "0".repeat(64))).is_none());
}

#[test]
fn an_artist_gets_an_image_once() {
    let mut lib = Library::new();
    add_track(&mut lib, "Song", "Artist", "Album");
    assert!(!lib.set_artist_image_if_missing(&normalize, "Nobody", "/a.jpg"));
    assert!(lib.set_artist_image_if_missing(&normalize, "ARTIST", "/a.jpg"));
    assert!(!lib.set_artist_image_if_missing(&normalize, "Artist", "/b.jpg"));
    assert_eq!(lib.artists[0].image_path.as_deref(), Some("/a.jpg"));
    assert_eq!(
        lib.catalog_image(&normalize, false, "artist", &None).as_deref(),
        Some("/a.jpg")
    );
    let release_id = lib.releases[0].id;
    lib.set_release_cover(release_id, "/cover.png".to_string());
    assert_eq!(
        lib.catalog_image(&normalize, true, "Artist", &Some("album".to_string())).as_deref(),
        Some("/cover.png")
    );
    assert_eq!(lib.catalog_image(&normalize, true, "Artist", &None), None);
    assert_eq!(lib.catalog_image(&normalize, false, "Nobody", &None), None);
}

#[test]
fn artists_are_told_in_parts() {
    let mut lib = Library::new();
    for artist in ["A", "B", "C"] {
        add_track(&mut lib, "Song", artist, "Album");
    }
    let (first, next) = lib.artist_preview_slice(&normalize, 0, 2);
    assert_eq!((first.len(), next.as_deref()), (2, Some("2")));
    let (rest, next) = lib.artist_preview_slice(&normalize, 2, 2);
    assert_eq!((rest.len(), next), (1, None));
}

#[test]
fn a_federated_like_is_read_back_as_it_is_stored() {
    let mut lib = Library::new();
    let content_id = format!("b3:{}", "d".repeat(64));
    let mut fed = fed_track("item_own", "owner_own", "Own", &content_id);
    fed.own = true;
    fed.artist_names = vec!["A; B".to_string()];
    assert!(lib.toggle_fed_like(&fed, NOW));
    let detail = lib.playlist(LIKES_PLAYLIST_ID, -10).unwrap();
    let shown = detail.tracks[0].fed.as_ref().unwrap();
    assert!(!shown.own);
    assert_eq!(shown.artist_names, vec!["A", "B"]);

    let playlist = lib.create_playlist("Mix", 1, 1);
    assert!(lib.add_fed_tracks_to_playlist(playlist.id, &vec![fed], 1, 1));
    let detail = lib.playlist(playlist.id, -10).unwrap();
    let shown = detail.tracks[0].fed.as_ref().unwrap();
    assert!(!shown.own);
    assert_eq!(shown.artist_names, vec!["A", "B"]);
}

#[test]
fn likes_of_the_same_second_go_by_title() {
    let mut lib = Library::new();
    let a = add_track(&mut lib, "Alpha", "Artist", "Album");
    let b = add_track(&mut lib, "Beta", "Artist", "Album");
    let first = lib.track_content_id_by_id(a).unwrap();
    let second = lib.track_content_id_by_id(b).unwrap();
    assert_eq!(lib.toggle_like_by_content_id(&first, 1000), Ok(true));
    assert_eq!(lib.toggle_like_by_content_id(&second, 1500), Ok(true));
    assert_eq!(liked_titles(&lib), vec!["Alpha", "Beta"]);
    assert_eq!(lib.toggle_like_by_content_id(&second, 1500), Ok(false));
    assert_eq!(lib.toggle_like_by_content_id(&second, 2000), Ok(true));
    assert_eq!(liked_titles(&lib), vec!["Beta", "Alpha"]);
}

#[test]
fn a_playlist_without_local_tracks_goes_on_behind_its_start() {
    let mut lib = Library::new();
    let playlist = lib.create_playlist("Mix", 1, 1);
    let one = format!("b3:{}", "e".repeat(64));
    let two = format!("b3:{}", "f".repeat(64));
    let fed = fed_track("item_1", "owner_1", "One", &one);
    assert!(lib.add_fed_tracks_to_playlist(playlist.id, &vec![fed], 1, 1));
    lib.fed_playlist_tracks[0].position = -5;
    let fed = fed_track("item_2", "owner_1", "Two", &two);
    assert!(lib.add_fed_tracks_to_playlist(playlist.id, &vec![fed], 1, 1));
    let added = lib.fed_playlist_tracks.iter().find(|row| row.content_id == two).unwrap();
    assert_eq!(added.position, 0);
}
