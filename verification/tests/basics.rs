//! The command line, paths, stored tables, frames and small texts.

use furumi::cli::{action, Action};
use furumi::content_id::{audio_content_id, normalize_content_id};
use furumi::digest::{digest, digest_text, text_placeholder};
use furumi::framing::{first_line, first_line_or_rest, framed, take_byte, LineError, LineStep};
use furumi::hex::{hex_decode_item_id, hex_encode};
use furumi::keyed::Keyed;
use furumi::library::import::{
    audio_extension, cover_file, read_file, FileFacts, FileOutcome, FileTags, ImportOutcome,
};
use furumi::library::models::{minutes_text, Seconds, TrackItem};
use furumi::library::paths::{
    check_files_found, cover_path, covers_dir, default_db_path, path_in, path_with_suffix,
};
use furumi::library::playlists::make_playlist_sync_id;
use furumi::library::schema::{migrations, Columns};
use furumi::library::tables::{split_joined_names, Library};
use furumi::names::key;
use furumi::text::{before, contains_text, join, same_no_case, signed_text, trim, two_digit_text};

fn strings(names: &[&str]) -> Vec<String> {
    names.iter().map(|name| (*name).to_string()).collect()
}

#[test]
fn the_command_line_asks_for_one_thing() {
    assert_eq!(action(&strings(&["furumi"])), Action::Run);
    assert_eq!(action(&strings(&["furumi", "--status"])), Action::Status { json: false });
    assert_eq!(
        action(&strings(&["furumi", "--status", "--status-json"])),
        Action::Status { json: true }
    );
    assert_eq!(action(&strings(&["furumi", "-V", "--status"])), Action::Version);
    assert_eq!(action(&strings(&["furumi", "--version", "-h"])), Action::Help);
}

#[test]
fn the_database_stands_in_the_data_directory() {
    assert_eq!(default_db_path(Some("/data")), Ok("/data/library.db".to_string()));
    assert_eq!(default_db_path(None), Err("cannot determine the data directory".to_string()));
    assert_eq!(path_in("/data/", "x"), "/data/x");
    assert_eq!(path_in("", "x"), "x");
    assert_eq!(covers_dir(Some("/data")), "/data/covers");
    assert_eq!(covers_dir(None), "covers");
    assert_eq!(cover_path("/data/covers", 7, "png"), "/data/covers/release_7.png");
    assert_eq!(path_with_suffix("/data/library.db", "-wal"), "/data/library.db-wal");
    assert_eq!(
        check_files_found("/music", 0),
        Err("no audio files found at /music (supported: mp3, flac, ogg, oga, wav, m4a, mp4, aac)"
            .to_string())
    );
    assert_eq!(check_files_found("/music", 1), Ok(()));
}

#[test]
fn missing_columns_are_added() {
    let full = Columns {
        fed_likes: strings(&["featured_artist_names", "content_id", "liked_hlc_ms"]),
        likes: strings(&["liked_hlc_ms"]),
        tracks: strings(&["content_id"]),
        playlists: strings(&["sync_id"]),
        network_artist_cache: strings(&["remote_image_hint"]),
    };
    assert!(migrations(&full).is_empty());
    let old = Columns { playlists: strings(&["id"]), ..full };
    assert_eq!(
        migrations(&old),
        vec![
            "ALTER TABLE playlists ADD COLUMN sync_id TEXT",
            "CREATE UNIQUE INDEX IF NOT EXISTS idx_playlists_sync_id ON playlists(sync_id)",
        ]
    );
}

#[test]
fn playlists_without_a_sync_id_get_one() {
    let mut lib = Library::new();
    lib.create_playlist("One", 1, 1);
    lib.create_playlist("Two", 2, 1);
    let kept = lib.playlists[0].sync_id.clone();
    lib.playlists[1].sync_id = None;
    lib.fill_sync_ids(&[5, 6], 9);
    assert_eq!(lib.playlists[0].sync_id, kept);
    assert_eq!(
        lib.playlists[1].sync_id,
        Some(make_playlist_sync_id(lib.playlists[1].id, "Two", 6, 9))
    );
}

#[test]
fn lines_are_framed() {
    let frame = framed(b"hello".to_vec());
    assert_eq!(frame, b"hello\n");
    assert_eq!(first_line(&frame, 100), Ok(b"hello".to_vec()));
    assert_eq!(first_line(b"hello", 100), Err(LineError::Ended));
    assert_eq!(first_line_or_rest(b"hello", 100), Ok(b"hello".to_vec()));
    assert_eq!(first_line(b"hello\n", 3), Err(LineError::TooLong));
    let mut line = Vec::new();
    assert!(matches!(take_byte(&mut line, b'a', 1), LineStep::More));
    assert!(matches!(take_byte(&mut line, b'\n', 1), LineStep::Done));
}

#[test]
fn item_ids_are_hex() {
    let id: Vec<u8> = (0..32).collect();
    let text = hex_encode(&id);
    assert_eq!(text.len(), 64);
    assert!(text.starts_with("000102"));
    assert_eq!(hex_decode_item_id(&text), Some(id));
    assert_eq!(hex_decode_item_id("00"), None);
    assert_eq!(hex_decode_item_id(&"zz".repeat(32)), None);
}

#[test]
fn digests_are_blake3() {
    assert_eq!(digest(b"abc"), blake3::hash(b"abc").as_bytes().to_vec());
    assert_eq!(digest_text("abc"), blake3::hash(b"abc").to_hex().to_string());
    assert!(text_placeholder("abc") < 0);
    assert_ne!(text_placeholder("abc"), text_placeholder("abd"));
}

#[test]
fn content_ids_have_one_form() {
    let id = format!("b3:{}", "a".repeat(64));
    assert_eq!(normalize_content_id(&format!("  B3:{} ", "A".repeat(64))), Some(id));
    assert_eq!(normalize_content_id("b3:123"), None);
    assert_eq!(normalize_content_id(&format!("b3:{}", "g".repeat(64))), None);
}

#[test]
fn a_keyed_map_keeps_its_order() {
    let mut map: Keyed<i64> = Keyed::new();
    map.set("b", 1);
    map.set("a", 2);
    map.set("b", 3);
    assert_eq!(map.len(), 2);
    assert_eq!(map.get("b"), Some(&3));
    assert_eq!(map.at(0).0, "b");
    assert!(map.remove("b") && !map.remove("b"));
    assert_eq!(map.position("a"), Some(0));
}

#[test]
fn tags_and_fallbacks_make_an_import() {
    let facts = || FileFacts {
        path: "/music/file name.mp3".into(),
        stem: Some("file name".into()),
        extension: Some("MP3".into()),
        duration: Seconds::Measured(60.0f64.to_bits()),
        bitrate: Some(320),
        sample_rate: Some(44_100),
        bit_depth: None,
        size: Some(5),
    };
    let plain = read_file(facts(), None);
    assert_eq!(plain.title, "file name");
    assert_eq!(plain.artists, vec!["Unknown Artist"]);
    assert_eq!(plain.release_title, "Unknown Album");
    let tagged = read_file(
        facts(),
        Some(FileTags {
            title: Some(" Song (feat. X) ".into()),
            artist: Some("A; B feat. C".into()),
            album: Some("Album".into()),
            year: Some(2020),
            track: Some(3),
            disc: None,
            album_artist: None,
            cover: None,
        }),
    );
    assert_eq!(tagged.title, "Song");
    assert_eq!(tagged.artists, vec!["A", "B"]);
    assert_eq!(tagged.featured_artists, vec!["C", "X"]);
    assert_eq!(tagged.album_artists, vec!["A", "B"]);
    assert_eq!(tagged.track_number, Some(3));
    assert!(audio_extension("FLAC") && !audio_extension("txt"));
    assert!(cover_file("Folder", "JPG") && !cover_file("back", "jpg"));
}

#[test]
fn an_import_is_summed_up() {
    let mut outcome = ImportOutcome::default();
    outcome.record("a".into(), FileOutcome::Added);
    assert_eq!(outcome.summary(), "imported 1 track(s)");
    outcome.record("b".into(), FileOutcome::Updated);
    outcome.record("c".into(), FileOutcome::Failed("bad".into()));
    assert_eq!(outcome.summary(), "imported 1 track(s), updated 1, 1 failed");
}

#[test]
fn the_status_line_says_how_audio_is_coded() {
    let mut item = TrackItem {
        id: 1,
        title: "Song".into(),
        track_number: None,
        disc_number: None,
        duration: Seconds::Whole(61),
        artists: Vec::new(),
        featured_artists: Vec::new(),
        release_id: 1,
        release_title: String::new(),
        release_year: None,
        file_path: String::new(),
        content_id: None,
        cover_path: None,
        audio_format: Some("flac".into()),
        audio_bitrate: Some(900),
        audio_sample_rate: Some(44_100),
        audio_bit_depth: None,
        file_size_bytes: None,
        play_count: 0,
        fed: None,
    };
    assert_eq!(item.tech_label_full("44.1", ""), "FLAC \u{b7} 900kbps \u{b7} 44.1kHz");
    item.audio_format = None;
    item.file_size_bytes = Some(1);
    item.audio_bitrate = None;
    assert_eq!(item.tech_label_full("44.1", "0.0"), "44.1kHz \u{b7} 0.0MB");
    assert_eq!(item.duration_label(0), "1:01");
    assert_eq!(minutes_text(3725), "62:05");
}

#[test]
fn small_texts() {
    assert_eq!(trim(" a b "), "a b");
    assert_eq!(join(&strings(&["a", "b"]), ", "), "a, b");
    assert_eq!(signed_text(-12), "-12");
    assert_eq!(two_digit_text(7), "07");
    assert!(before("a", "b") && before("", "a") && !before("b", "a"));
    assert!(contains_text("hello", "ell") && !contains_text("hello", "x"));
    assert!(same_no_case("ABC", "abc"));
    assert_eq!(split_joined_names("A; B"), vec!["A", "B"]);
    assert_eq!(key(&|s: &str| s.to_uppercase(), "a"), "A");
}

#[test]
fn the_content_id_is_the_digest_of_the_file() {
    let expected = format!("b3:{}", blake3::hash(b"music").to_hex());
    assert_eq!(audio_content_id(b"music"), expected);
    assert_eq!(normalize_content_id(&expected), Some(expected));
    assert_ne!(audio_content_id(b"music"), audio_content_id(b"other"));
}
