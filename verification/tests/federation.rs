//! What peers hold, and how it is found, merged, fetched and served.

use furumi::federation::audio::{
    already_fetched, check_header, check_received, download_name, extension_for_mime, guess_mime,
    image_extension, image_follows, image_mime, partial_name, refuse_header, sends_image,
    serve_header, whole_track_request, TrackMetadata,
};
use furumi::federation::capabilities::{
    answer_capabilities, CapabilityAsk, ObservedVersions, ProtocolVersions,
};
use furumi::federation::card::{
    artist_card, card_owners, check_card_sources, dht_appearance_hit,
};
use furumi::federation::catalog::{
    merge_catalogs, CatalogAppearance, CatalogArtist, CatalogRelease, CatalogTrack,
};
use furumi::federation::lookup::{
    cached_with_content, fallback_sources, find_by_label, first_published_track, next_lookup,
    next_source, not_found, plan_playback, play_local, play_taken_in, DownloadStep, LookupStep,
    PlayPlan, SourceStep,
};
use furumi::federation::play::{
    apply_remote_metadata, cached_cache_key, cached_track_metadata, card_image_names,
    card_image_stem, download_stem, ephemeral_track, metadata_preview_track, sanitize_file_stem,
    FetchedFile, FetchedMetadata,
};
use furumi::federation::publish::{
    apply_settings, autostart, collect_specs, device_network_name, publish_label, start_step, sync_label, FedSettings,
    PublishStats, SettingsStep, StartStep, SyncStats,
};
use furumi::federation::search::{
    cached_matches_query, rank_fed_search_results, search, FedArtistHit, ItemKind, NetItem,
};
use furumi::federation::serve::{
    check_catalog_size, check_image_header, image_header, image_want, take_catalog,
    track_local_key, unknown_want, want_of, Want,
};
use furumi::federation::similarity::{
    admit_request, choose_similar, first_round, local_hit, needs_second_round, query_plan,
    request_limit, take_response, PeerHit,
};
use furumi::federation::track::FedTrack;
use furumi::hex::hex_decode_item_id;
use furumi::library::import::TrackImport;
use furumi::library::models::{Seconds, TrackItem};
use furumi::library::tables::Library;

const CONTENT: &str = "b3:0123456789abcdef0123456789abcdef0123456789abcdef0123456789abcdef";

/// Small letters, with everything that is neither a letter nor a digit as a
/// single space.
fn normalize(value: &str) -> String {
    let mut out = String::new();
    for c in value.to_lowercase().chars() {
        if c.is_alphanumeric() {
            out.push(c);
        } else if !out.is_empty() && !out.ends_with(' ') {
            out.push(' ');
        }
    }
    out.trim_end().to_string()
}

fn tokenize(value: &str) -> Vec<String> {
    value.split(' ').filter(|word| !word.is_empty()).map(str::to_string).collect()
}

/// In how many bits two signatures differ.
fn bits_apart(a: &[u8], b: &[u8]) -> u32 {
    a.iter().zip(b).map(|(x, y)| (x ^ y).count_ones()).sum()
}

fn seconds(value: f64) -> Seconds {
    Seconds::Measured(value.to_bits())
}

fn strings(names: &[&str]) -> Vec<String> {
    names.iter().map(|name| (*name).to_string()).collect()
}

#[test]
fn snapshot_reports_only_strictly_newer_versions() {
    let local = vec![("jam".to_string(), 1), ("music_dht".to_string(), 3)];
    let mut observed = ObservedVersions::default();
    observed.observe(
        "peer",
        "1.0",
        &vec![("music_dht".to_string(), 99), ("jam".to_string(), furumi::jam::PROTOCOL_VERSION)],
    );
    let snapshot = ProtocolVersions::snapshot(&local, &observed);
    assert_eq!(snapshot.newer.len(), 1);
    assert_eq!(snapshot.newer[0].id, "music_dht");
    assert_eq!(snapshot.newer[0].local, 3);
    assert_eq!(snapshot.newer[0].observed, 99);
    assert_eq!(snapshot.observed_peers, 1);
}

fn track(title: &str, number: i32, item: &str) -> CatalogTrack {
    CatalogTrack {
        title: title.into(),
        artists: vec!["Metallica".into()],
        featured_artists: Vec::new(),
        track_number: Some(number),
        disc_number: None,
        duration: Some(seconds(100.0)),
        content_id: None,
        item_id: item.into(),
    }
}

#[test]
fn merges_and_dedupes_across_peers() {
    let catalog = |item_prefix: &str| CatalogArtist {
        name: "Metallica".into(),
        releases: vec![CatalogRelease {
            title: "Black Album".into(),
            release_type: "album".into(),
            year: Some(1991),
            tracks: vec![
                track("Enter Sandman", 1, &format!("{item_prefix}1")),
                track("Sad But True", 2, &format!("{item_prefix}2")),
            ],
        }],
        appears_on: Vec::new(),
    };
    let card = merge_catalogs(
        &normalize,
        "Metallica",
        vec![("peer-a".to_string(), catalog("a")), ("peer-b".to_string(), catalog("b"))],
    );
    assert_eq!(card.peers, 2);
    assert_eq!(card.releases.len(), 1);
    let release = &card.releases[0];
    assert_eq!(release.year, Some(1991));
    assert_eq!(release.tracks.len(), 2);
    // Both peers stay as sources of the deduplicated track.
    assert_eq!(release.tracks[0].sources.len(), 2);
}

#[test]
fn merges_featured_appearances_across_peers() {
    let featured = |item: &str| {
        let mut track = track("Guest Verse", 3, item);
        track.artists = vec!["Host".into()];
        track.featured_artists = vec!["Guest".into()];
        track
    };
    let catalog = |item: &str| CatalogArtist {
        name: "Guest".into(),
        releases: Vec::new(),
        appears_on: vec![CatalogAppearance {
            release_title: "Host Album".into(),
            release_type: "album".into(),
            year: Some(2024),
            track: featured(item),
        }],
    };
    let card = merge_catalogs(
        &normalize,
        "Guest",
        vec![("peer-a".to_string(), catalog("a1")), ("peer-b".to_string(), catalog("b1"))],
    );

    assert!(card.releases.is_empty());
    assert_eq!(card.appears_on.len(), 1);
    assert_eq!(card.appears_on[0].track.sources.len(), 2);
    assert_eq!(card.appears_on[0].track.artists, vec!["Host"]);
    assert_eq!(card.appears_on[0].track.featured_artists, vec!["Guest"]);
}

#[test]
fn merge_catalogs_sorts_releases_newest_first() {
    let release = |title: &str, year: Option<i32>, item: &str| CatalogRelease {
        title: title.into(),
        release_type: "album".into(),
        year,
        tracks: vec![track("Song", 1, item)],
    };
    let card = merge_catalogs(
        &normalize,
        "Metallica",
        vec![(
            "peer-a".to_string(),
            CatalogArtist {
                name: "Metallica".into(),
                releases: vec![
                    release("Old Album", Some(1991), "a1"),
                    release("New Album", Some(2024), "a2"),
                    release("Undated Album", None, "a3"),
                ],
                appears_on: Vec::new(),
            },
        )],
    );

    let titles: Vec<&str> = card.releases.iter().map(|release| release.title.as_str()).collect();
    assert_eq!(titles, vec!["New Album", "Old Album", "Undated Album"]);
}

fn dht_track(main: &[&str], featured: &[&str]) -> NetItem {
    NetItem {
        id: "item-1".into(),
        owner: "peer-a".into(),
        kind: ItemKind::Track,
        name: "Guest Verse".into(),
        normalized_name: normalize("Guest Verse"),
        artist_names: strings(main),
        featured_artist_names: strings(featured),
        year: Some(2024),
        release_type: Some("album".into()),
        release_title: Some("Host Album".into()),
        track_number: Some(2),
        disc_number: Some(1),
        duration: Some(seconds(180.0)),
        rounded_seconds: Some(180),
        content_id: Some(CONTENT.into()),
        tokens: strings(&["guest", "verse"]),
    }
}

fn appearance_needs_a_featured_artist() {
    let normalized = normalize("Guest");
    assert!(dht_appearance_hit(&normalize, &dht_track(&["Guest"], &[]), &normalized, "Guest")
        .is_none());

    let hit =
        dht_appearance_hit(&normalize, &dht_track(&["Host"], &["Guest"]), &normalized, "Guest")
            .unwrap();
    assert_eq!(hit.release_title, "Host Album");
    assert_eq!(hit.release_type, "album");
    assert_eq!(hit.year, Some(2024));
    assert_eq!(hit.track.artists, vec!["Host"]);
    assert_eq!(hit.track.featured_artists, vec!["Guest"]);
    assert_eq!(hit.track.track_number, Some(2));
    assert_eq!(hit.track.disc_number, Some(1));
}

#[test]
fn mod_dht_appearance_requires_explicit_featured_artist() {
    appearance_needs_a_featured_artist();
}

#[test]
fn tests_dht_appearance_requires_explicit_featured_artist() {
    appearance_needs_a_featured_artist();
}

fn fed(item: &str, owner: &str, title: &str, main: &[&str], featured: &[&str]) -> FedTrack {
    FedTrack {
        item_id: item.into(),
        owner: owner.into(),
        own: false,
        title: title.into(),
        artist_names: strings(main),
        featured_artist_names: strings(featured),
        year: None,
        duration_seconds: None,
        content_id: None,
        release_title: None,
        track_number: None,
        disc_number: None,
    }
}

fn exact_names_first() {
    let normalized = normalize("ежемесячные");
    let mut artists = vec![
        FedArtistHit { name: "Booker".into(), peers: 3 },
        FedArtistHit { name: "Ежемесячные".into(), peers: 1 },
    ];
    let mut tracks = vec![
        fed("a", "peer-a", "Гость", &["Other"], &["Ежемесячные"]),
        fed("b", "peer-b", "Ежемесячные", &["Other"], &[]),
    ];

    rank_fed_search_results(&normalize, &mut artists, &mut tracks, &normalized);

    assert_eq!(artists[0].name, "Ежемесячные");
    assert_eq!(tracks[0].title, "Ежемесячные");
}

#[test]
fn mod_federation_search_ranks_exact_names_first() {
    exact_names_first();
}

#[test]
fn tests_federation_search_ranks_exact_names_first() {
    exact_names_first();
}

// ---------------------------------------------------------------------------

#[test]
fn search_counts_the_peers_of_an_artist() {
    let mut second = dht_track(&["Host"], &["Guest"]);
    second.owner = "peer-b".into();
    second.id = "item-2".into();
    let items = vec![dht_track(&["Host"], &["Guest"]), second];
    let found = search(&normalize, &tokenize, "guest verse", "me", &items, &Vec::new());
    assert_eq!(found.tracks.len(), 2);
    assert_eq!(found.tracks[0].duration_seconds, Some(180));
}

#[test]
fn a_card_needs_a_source() {
    let empty = artist_card(&normalize, "Nobody", "me", Vec::new(), &Vec::new(), &Vec::new());
    assert!(empty.is_err());
    let items = vec![dht_track(&["Host"], &["Guest"])];
    let card = artist_card(&normalize, "Guest", "me", Vec::new(), &items, &Vec::new()).unwrap();
    assert_eq!(card.appears_on.len(), 1);
    assert!(card_owners(&normalize, &items, "Host", "peer-a").is_empty());
}

#[test]
fn mime_types_and_extensions_match() {
    assert_eq!(guess_mime("flac"), "audio/flac");
    assert_eq!(extension_for_mime("audio/mpeg"), "mp3");
    assert_eq!(image_extension(image_mime("png")), "png");
    assert_eq!(download_name("a-b", "audio/flac"), "a-b.flac");
    assert_eq!(partial_name("a-b", "audio/flac"), ".a-b.flac.part");
}

fn metadata() -> TrackMetadata {
    TrackMetadata {
        title: "Song".into(),
        artists: strings(&["Artist"]),
        featured_artists: Vec::new(),
        album_artists: Vec::new(),
        release_title: "Album".into(),
        release_type: None,
        year: Some(2020),
        track_number: None,
        disc_number: None,
        duration: Some(seconds(60.0)),
        audio_format: None,
        audio_bitrate: None,
        audio_sample_rate: None,
        audio_bit_depth: None,
    }
}

#[test]
fn a_refusal_reaches_the_requester() {
    let refused = refuse_header("no such item");
    assert!(check_header(&refused).err().unwrap().contains("no such item"));
    let request = whole_track_request("item");
    assert_eq!(request.offset, 0);
    let header = serve_header(&request, "flac", 100, metadata(), &None, &None);
    assert!(check_header(&header).is_ok());
    assert_eq!(header.mime_type, "audio/flac");
    assert_eq!(header.total_size, 100);
    assert!(check_received(100, 100).is_ok());
    assert!(check_received(99, 100).is_err());
    assert!(already_fetched(Some(100), 100) && !already_fetched(None, 100));
    assert_eq!(image_follows(0, "cover"), Ok(false));
    assert_eq!(image_follows(10, "cover"), Ok(true));
    assert!(image_follows(16_777_217, "cover").is_err());
    assert!(sends_image(1) && !sends_image(16_777_217));
}

#[test]
fn capability_requests_are_answered_by_version() {
    assert!(answer_capabilities(CapabilityAsk::Get(1)).is_ok());
    assert_eq!(
        answer_capabilities(CapabilityAsk::Get(9)),
        Err("unsupported capability protocol 9".to_string())
    );
    assert_eq!(
        answer_capabilities(CapabilityAsk::Other),
        Err("expected capability request".to_string())
    );
}

#[test]
fn a_track_is_looked_for_in_other_places_when_its_owner_fails() {
    let mut track = fed("a", "peer-a", "Song", &["Artist"], &[]);
    match next_source(&track, 0, &None) {
        SourceStep::Ask { owner, item_id } => {
            assert_eq!((owner.as_str(), item_id.as_str()), ("peer-a", "a"));
        }
        _ => unreachable!(),
    }
    assert!(matches!(next_source(&track, 1, &None), SourceStep::GiveUp));
    track.content_id = Some(CONTENT.into());
    assert!(matches!(next_source(&track, 1, &None), SourceStep::LookUp { .. }));
    let items = vec![dht_track(&["Host"], &[])];
    let others = fallback_sources(&track, &items);
    assert!(!others.contains(&("peer-a".to_string(), "a".to_string())));
}

#[test]
fn playback_is_planned_by_owner() {
    let malformed = fed("a", "peer-a", "Song", &["Artist"], &[]);
    assert_eq!(
        plan_playback(&malformed, true, true).err().as_deref(),
        Some("malformed item id in the result")
    );
    let mut track = fed(&"ab".repeat(32), "peer-a", "Song", &["Artist"], &[]);
    assert!(matches!(plan_playback(&track, true, true), Ok(PlayPlan::Fetch { into_library: true })));
    assert!(matches!(
        plan_playback(&track, true, false),
        Ok(PlayPlan::Fetch { into_library: false })
    ));
    assert_eq!(
        plan_playback(&track, false, false).err().as_deref(),
        Some("malformed owner id 'peer-a'")
    );
    track.own = true;
    assert!(matches!(plan_playback(&track, false, false), Ok(PlayPlan::Local)));
    assert_eq!(
        play_local(None).err().as_deref(),
        Some("this track is no longer in the local library")
    );
}

#[test]
fn content_lookups_are_repeated_before_the_label_is_tried() {
    assert!(matches!(next_lookup(&normalize, 0, None, false), LookupStep::Content { .. }));
    assert!(matches!(next_lookup(&normalize, 3, Some("Artist-Song"), false), LookupStep::Label));
    assert!(matches!(next_lookup(&normalize, 3, None, false), LookupStep::GiveUp));
    assert!(matches!(next_lookup(&normalize, 3, Some("Artist-Song"), true), LookupStep::GiveUp));
}

#[test]
fn file_names_are_safe() {
    assert!(!sanitize_file_stem("a/b\\c:d").contains('/'));
    let stem = download_stem(&normalize, &fed("a", "peer-a", "So/ng", &["Art:ist"], &[]));
    assert!(!stem.contains('/') && !stem.contains(':'));
    assert_ne!(card_image_stem("Artist", None), card_image_stem("Artist", Some("Album")));
}

#[test]
fn remote_metadata_takes_the_place_of_tags() {
    let mut import = TrackImport {
        file_path: "/tmp/a.mp3".into(),
        title: "a".into(),
        artists: strings(&["Unknown Artist"]),
        featured_artists: Vec::new(),
        album_artists: strings(&["Unknown Artist"]),
        release_title: "Unknown Album".into(),
        release_type: None,
        year: None,
        track_number: Some(4),
        disc_number: None,
        duration: seconds(1.0),
        audio_format: None,
        audio_bitrate: None,
        audio_sample_rate: None,
        audio_bit_depth: None,
        file_size_bytes: None,
        cover: None,
    };
    apply_remote_metadata(&mut import, &metadata());
    assert_eq!(import.title, "Song");
    assert_eq!(import.artists, vec!["Artist"]);
    assert_eq!(import.album_artists, vec!["Artist"]);
    assert_eq!(import.release_title, "Album");
    assert_eq!(import.year, Some(2020));
    assert_eq!(import.track_number, Some(4));
    assert_eq!(import.duration, seconds(60.0));
    let file = FetchedFile {
        path: "/tmp/a.mp3".into(),
        extension: Some("mp3".into()),
        size: Some(3),
        content_id: None,
        cover_path: None,
    };
    let item = ephemeral_track(
        &fed("a", "peer-a", "Fed", &["Artist"], &[]),
        &Some(metadata()),
        file,
        -5,
    );
    assert_eq!(item.id, -5);
    assert_eq!(item.title, "Song");
    assert!(item.fed.is_some());
}

#[test]
fn settings_decide_whether_the_network_is_joined() {
    let mut settings = FedSettings::default();
    settings.enabled = false;
    assert!(matches!(apply_settings(&settings), Ok(SettingsStep::Leave)));
    assert!(autostart(&settings).is_none());
    settings.enabled = true;
    settings.network_id = "  ".into();
    assert!(apply_settings(&settings).is_err());
    settings.network_id = " home ".into();
    assert!(matches!(apply_settings(&settings), Ok(SettingsStep::Join(name)) if name == "home"));
    assert!(matches!(start_step(&None, "home"), StartStep::Start));
    assert!(matches!(start_step(&Some("home".into()), "home"), StartStep::Keep));
    assert!(matches!(start_step(&Some("away".into()), "home"), StartStep::Restart));
}

#[test]
fn labels_say_what_was_published() {
    let sync = SyncStats { added: 1, updated: 2, removed: 3, unchanged: 4, failed: 0 };
    let publish = PublishStats { records: 5, keys: 6, remote_nodes: 7 };
    assert!(sync_label("12:00", &sync).starts_with("12:00"));
    assert!(publish_label("12:00", &sync, &publish).contains('5'));
}

#[test]
fn the_library_is_published_and_served_by_item() {
    let mut lib = Library::new();
    let import = TrackImport {
        file_path: "/music/song.mp3".into(),
        title: "Song".into(),
        artists: strings(&["Artist"]),
        featured_artists: strings(&["Guest"]),
        album_artists: strings(&["Artist"]),
        release_title: "Album".into(),
        release_type: None,
        year: Some(2020),
        track_number: Some(1),
        disc_number: None,
        duration: seconds(60.0),
        audio_format: Some("mp3".into()),
        audio_bitrate: None,
        audio_sample_rate: None,
        audio_bit_depth: None,
        file_size_bytes: Some(1),
        cover: None,
    };
    let id = lib.upsert_track(&normalize, &import).unwrap().track_id;
    let export = lib.federation_export(&vec![(id, CONTENT.to_string())]);
    assert_eq!(export.tracks.len(), 1);
    assert_eq!(export.tracks[0].content_id.as_deref(), Some(CONTENT));
    let specs = collect_specs(export);
    assert!(specs.iter().any(|spec| spec.kind == ItemKind::Track && spec.name == "Song"));
    assert!(specs.iter().any(|spec| spec.kind == ItemKind::Release && spec.name == "Album"));
    assert!(specs.iter().any(|spec| spec.kind == ItemKind::Artist && spec.name == "Artist"));

    let item_of =
        |id: i64| blake3::hash(track_local_key(id).as_bytes()).to_hex().to_string();
    let served = lib.answer_request(&item_of, &item_of(id)).unwrap();
    assert_eq!(served.file_path, "/music/song.mp3");
    assert_eq!(served.metadata.title, "Song");
    assert!(lib.answer_request(&item_of, &item_of(id).to_uppercase()).is_ok());
    assert_eq!(lib.answer_request(&item_of, "unknown").err(), Some("malformed item_id"));
    assert_eq!(
        lib.answer_request(&item_of, &item_of(id + 1)).err(),
        Some("track not found in the library")
    );
    let bytes = hex_decode_item_id(&item_of(id)).unwrap();
    assert_eq!(lib.resolve_local_track_id(&item_of, &bytes), Some(id));
    assert!(lib.resolve_for_serving(&item_of, &bytes[1..]).is_none());

    let mut own = fed("item", "peer", "Song", &["Artist"], &[]);
    own.item_id = item_of(id).to_uppercase();
    let remote = fed(&"cd".repeat(32), "peer", "Song", &["Artist"], &[]);
    assert!(matches!(lib.plan_download(&item_of, &remote, true), Ok(DownloadStep::Fetch)));
    assert_eq!(
        lib.plan_download(&item_of, &remote, false).err().as_deref(),
        Some("malformed owner id 'peer'")
    );
    let mut known = fed(&"cd".repeat(32), "peer", "Song", &["Artist"], &[]);
    known.content_id = Some(CONTENT.into());
    match lib.plan_download(&item_of, &known, false) {
        Ok(DownloadStep::Here(track)) => assert_eq!(track.id, id),
        _ => unreachable!(),
    }
    known.own = true;
    assert_eq!(
        lib.plan_download(&item_of, &known, true).err().as_deref(),
        Some("this track is no longer in the local library")
    );
    known.item_id = "short".into();
    assert_eq!(
        lib.plan_download(&item_of, &known, true).err().as_deref(),
        Some("malformed item id in the result")
    );
    let played = lib.play_own(&item_of, &own).unwrap();
    assert!(played.track.id == id && !played.imported);
    own.item_id = item_of(id + 1);
    assert_eq!(
        lib.play_own(&item_of, &own).err().as_deref(),
        Some("this track is no longer in the local library")
    );
    own.item_id = "item".to_string();
    assert_eq!(
        lib.play_own(&item_of, &own).err().as_deref(),
        Some("malformed item id in the result")
    );

    let catalog = lib.build_catalog(&normalize, &item_of, "artist");
    let artist = take_catalog(catalog).unwrap();
    assert_eq!(artist.releases.len(), 1);
    assert_eq!(artist.releases[0].tracks[0].item_id, item_of(id));
    let guest = lib.build_catalog_artist(&normalize, &item_of, "Guest").unwrap();
    assert_eq!(guest.appears_on.len(), 1);
    assert!(take_catalog(lib.build_catalog(&normalize, &item_of, "nobody")).is_err());
}

#[test]
fn catalog_requests_are_checked() {
    assert!(matches!(want_of(&None), Want::Catalog));
    assert!(matches!(want_of(&Some("nonsense".into())), Want::Unknown));
    assert!(take_catalog(unknown_want("nonsense")).is_err());
    assert!(matches!(want_of(&Some(image_want(&None).to_string())), Want::ArtistImage));
    let album = Some("Album".to_string());
    assert!(matches!(want_of(&Some(image_want(&album).to_string())), Want::ReleaseCover));
    assert!(check_catalog_size(4_194_304).is_ok());
    assert!(check_catalog_size(4_194_305).is_err());
    assert_eq!(check_image_header(&image_header(Some(10), "png")), Ok(Some(10)));
    assert_eq!(check_image_header(&image_header(None, "png")), Ok(None));
}

#[test]
fn similar_tracks_are_chosen_once_and_few_per_artist() {
    let hit = |item: &str, artist: &str, bits: u8, score: f32| PeerHit {
        track: fed(item, "peer", item, &[artist], &[]),
        score: score.to_bits(),
        signature: Some(vec![bits; 16]),
    };
    let chosen = choose_similar(
        &normalize,
        &bits_apart,
        &None,
        vec![0xff; 16],
        10,
        50,
        vec![
            hit("a", "One", 0x00, 0.5),
            hit("b", "One", 0x0f, 0.9),
            hit("c", "One", 0x33, 0.8),
            hit("d", "One", 0x55, 0.7),
            hit("e", "Two", 0x66, 0.1),
            hit("f", "Two", 0xff, 0.95),
        ],
    );
    let titles: Vec<&str> = chosen.tracks.iter().map(|track| track.title.as_str()).collect();
    assert_eq!(titles, vec!["b", "c", "d", "e"]);
}

#[test]
fn peers_are_asked_in_two_rounds() {
    let routed = strings(&["peer-a", "peer-b", "me"]);
    let known = strings(&["peer-b", "peer-c"]);
    let plan = query_plan("me", &routed, &known);
    assert!(plan.iter().all(|peer| peer.owner != "me"));
    assert!(plan.len() <= 48);
    assert!(first_round(100) <= 16);
    assert_eq!(first_round(3), 3);
    assert!(!needs_second_round(3, 0, 0, 10));
    assert!(needs_second_round(17, 10, 3, 10));
    assert!(!needs_second_round(17, 10, 4, 10));
    assert_eq!((request_limit(0, 50), request_limit(7, 50), request_limit(90, 50)), (1, 7, 50));
    assert!(take_response("peer", false, &Some("busy".into()), Vec::new()).is_err());
}

#[test]
fn a_shared_track_is_found_by_content_then_by_label() {
    let item = || dht_track(&["Host"], &["Guest"]);
    let found = first_published_track(&vec![item()], "peer-a").unwrap();
    assert!(found.own && found.title == "Guest Verse");
    assert_eq!(found.duration_seconds, Some(180));
    assert!(first_published_track(&Vec::new(), "peer-a").is_none());
    let found = find_by_label(&normalize, &tokenize, &vec![item()], CONTENT, "", "peer-b").unwrap();
    assert!(!found.own && found.item_id == "item-1");
    let mut other = item();
    other.content_id = None;
    assert!(find_by_label(&normalize, &tokenize, &vec![other], CONTENT, "", "peer-b").is_none());
    assert_eq!(not_found(3), "no peers currently publish this shared track");
    assert_eq!(
        not_found(0),
        "no federation peers reachable yet — check the Federation tab and retry"
    );
}

fn local_track() -> TrackItem {
    let mut lib = Library::new();
    let import = TrackImport {
        file_path: "/music/base.mp3".into(),
        title: "Base".into(),
        artists: strings(&["Artist"]),
        featured_artists: strings(&["Guest"]),
        album_artists: strings(&["Artist"]),
        release_title: "Album".into(),
        release_type: None,
        year: Some(2020),
        track_number: Some(7),
        disc_number: None,
        duration: seconds(60.0),
        audio_format: Some("mp3".into()),
        audio_bitrate: None,
        audio_sample_rate: None,
        audio_bit_depth: None,
        file_size_bytes: Some(1),
        cover: None,
    };
    let id = lib.upsert_track(&normalize, &import).unwrap().track_id;
    lib.tracks_by_ids(&[id]).remove(0)
}

#[test]
fn what_an_owner_says_of_a_track_is_shown_and_remembered() {
    let base = local_track();
    let mut track = fed("item", "owner", "Song", &["Artist"], &[]);
    track.content_id = Some(CONTENT.into());
    track.disc_number = Some(2);
    let mut told = metadata();
    told.title = "  Told title ".into();
    told.artists = strings(&["Told artist"]);
    told.featured_artists = Vec::new();
    told.release_title = " ".into();
    told.release_type = Some("single".into());
    told.disc_number = None;
    let fetched =
        FetchedMetadata { metadata: Some(told), mime_type: "audio/flac".into(), total_size: 10 };
    let shown = metadata_preview_track(&base, &track, &fetched, Some("flac".into()));
    assert_eq!(shown.title, "Told title");
    assert_eq!((shown.artists[0].id, shown.artists[0].name.as_str()), (-1, "Told artist"));
    assert_eq!(shown.featured_artists[0].name, "Guest");
    assert_eq!(shown.release_title, "Album");
    assert_eq!(shown.file_path, "");
    assert_eq!(shown.content_id.as_deref(), Some(CONTENT));

    let cached = cached_track_metadata(&shown, &track, &fetched, 60);
    assert_eq!(cached.release_type.as_deref(), Some("single"));
    assert_eq!(cached.release_title.as_deref(), Some("Album"));
    assert_eq!(cached.disc_number, Some(2));
    assert_eq!(cached_cache_key(&track), "owner:item");
    let cached = vec![cached];
    let found = cached_with_content(&cached, CONTENT).unwrap();
    assert_eq!((found.title.as_str(), found.owner.as_str()), ("Told title", "owner"));
    assert!(cached_with_content(&cached, "b3:other").is_none());
    assert!(cached_matches_query(&normalize, &tokenize, &cached[0], "album"));
    assert!(cached_matches_query(&normalize, &tokenize, &cached[0], "guest album"));
    assert!(!cached_matches_query(&normalize, &tokenize, &cached[0], "guest elsewhere"));
    assert!(!cached_matches_query(&normalize, &tokenize, &cached[0], ""));
    assert!(check_card_sources(&normalize, "guest", &Vec::new(), false, &cached).is_ok());
    assert_eq!(
        check_card_sources(&normalize, "Nobody", &Vec::new(), false, &cached).err().as_deref(),
        Some("no peers hold artist \"Nobody\"")
    );
    assert!(check_card_sources(&normalize, "Nobody", &Vec::new(), true, &cached).is_ok());
}

#[test]
fn a_fetched_file_is_taken_in_with_its_like() {
    let mut lib = Library::new();
    let liked = fed("item", "owner", "Song", &["Artist"], &[]);
    assert!(lib.toggle_fed_like(&liked, 5_000));
    let import = TrackImport {
        file_path: "/music/fetched.mp3".into(),
        title: "From the tag".into(),
        artists: strings(&["Artist"]),
        featured_artists: Vec::new(),
        album_artists: strings(&["Artist"]),
        release_title: "Album".into(),
        release_type: None,
        year: None,
        track_number: None,
        disc_number: None,
        duration: seconds(60.0),
        audio_format: Some("mp3".into()),
        audio_bitrate: None,
        audio_sample_rate: None,
        audio_bit_depth: None,
        file_size_bytes: Some(1),
        cover: None,
    };
    let taken = lib.take_in_fetched(&normalize, import, &None, None, "item").unwrap();
    let id = taken.upserted.track_id;
    assert!(taken.upserted.created && taken.upserted.wants_cover && taken.cover.is_none());
    assert_eq!(taken.image_wanted_for.as_deref(), Some("Artist"));
    assert!(lib.fed_likes.is_empty());
    assert_eq!((lib.likes[0].track_id, lib.likes[0].liked_at_ms), (id, 5_000));
    let played = play_taken_in(taken.track).unwrap();
    assert!(played.imported && played.track.title == "From the tag");
    assert!(play_taken_in(None).is_none());
}

#[test]
fn names_and_labels_of_the_network() {
    assert_eq!(device_network_name("grp_1"), "furumi-device-sync:grp_1");
    assert_eq!(
        card_image_names("a"),
        strings(&["a.jpg", "a.png", "a.webp", "a.gif", "a.bmp"])
    );
    assert!(admit_request(true).is_ok());
    assert_eq!(
        admit_request(false).err().as_deref(),
        Some("similarity federation is disabled or has no privacy consent")
    );
    let hit = local_hit(local_track(), "item".into(), 60, 1.0f32.to_bits(), vec![3; 16]);
    assert_eq!((hit.title.as_str(), hit.duration_seconds), ("Base", Some(60)));
    assert_eq!(hit.artist_names, strings(&["Artist"]));
    assert_eq!(hit.release_title.as_deref(), Some("Album"));
    assert_eq!(hit.embedding_signature, Some(vec![3; 16]));
}

#[test]
fn an_untitled_appearance_keeps_every_source() {
    let catalog = |item: &str| CatalogArtist {
        name: String::new(),
        releases: Vec::new(),
        appears_on: vec![CatalogAppearance {
            release_title: "R".into(),
            release_type: String::new(),
            year: None,
            track: CatalogTrack {
                title: String::new(),
                artists: Vec::new(),
                featured_artists: Vec::new(),
                track_number: None,
                disc_number: None,
                duration: None,
                content_id: None,
                item_id: item.into(),
            },
        }],
    };
    let catalogs = vec![("a".to_string(), catalog("a1")), ("b".to_string(), catalog("b1"))];
    let card = merge_catalogs(&normalize, "G", catalogs);
    assert_eq!(card.appears_on.len(), 1);
    let sources = &card.appears_on[0].track.sources;
    assert_eq!(sources[0], ("a".to_string(), "a1".to_string()));
    assert_eq!(sources[1], ("b".to_string(), "b1".to_string()));
    assert_eq!(sources.len(), 2);
}
