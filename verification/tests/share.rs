//! Links to tracks.

use furumi::library::models::{ArtistRef, Seconds, TrackItem};
use furumi::share::{
    cached_track_share_link, parse_frid_link, percent_decode, percent_encode, track_can_share,
    track_share_link,
};

fn track(title: &str, artist: &str, release: &str, content_id: &str) -> TrackItem {
    TrackItem {
        id: 1,
        title: title.into(),
        track_number: None,
        disc_number: None,
        duration: Seconds::Measured(1.0f64.to_bits()),
        artists: vec![ArtistRef { id: 1, name: artist.into() }],
        featured_artists: Vec::new(),
        release_id: 1,
        release_title: release.into(),
        release_year: None,
        file_path: String::new(),
        content_id: Some(content_id.into()),
        cover_path: None,
        audio_format: None,
        audio_bitrate: None,
        audio_sample_rate: None,
        audio_bit_depth: None,
        file_size_bytes: None,
        play_count: 0,
        fed: None,
    }
}

#[test]
fn share_link_uses_content_id_and_readable_label() {
    let track = track(
        "Трек",
        "Артист",
        "Release",
        "b3:0123456789abcdef0123456789abcdef0123456789abcdef0123456789abcdef",
    );
    assert_eq!(
        track_share_link(&track, None).as_deref(),
        Some(
            "frid://b3:0123456789abcdef0123456789abcdef0123456789abcdef0123456789abcdef?t=%D0%90%D1%80%D1%82%D0%B8%D1%81%D1%82-%D0%A2%D1%80%D0%B5%D0%BA"
        )
    );
}

#[test]
fn parses_frid_content_link() {
    let link = parse_frid_link(
        "frid://b3:0123456789abcdef0123456789abcdef0123456789abcdef0123456789abcdef?t=Artist-Track",
    )
    .expect("valid link");
    assert_eq!(
        link.content_id,
        "b3:0123456789abcdef0123456789abcdef0123456789abcdef0123456789abcdef"
    );
    assert_eq!(link.label.as_deref(), Some("Artist-Track"));
    assert!(parse_frid_link("https://example.com").is_none());
}

#[test]
fn parses_percent_encoded_label() {
    let link = parse_frid_link(
        "frid://B3:0123456789ABCDEF0123456789abcdef0123456789abcdef0123456789abcdef?t=Rammstein-Du%20Riechst%20So%20Gut",
    )
    .expect("valid link");
    assert_eq!(
        link.content_id,
        "b3:0123456789abcdef0123456789abcdef0123456789abcdef0123456789abcdef"
    );
    assert_eq!(link.label.as_deref(), Some("Rammstein-Du Riechst So Gut"));

    // Cyrillic labels and a missing label both survive.
    let link = parse_frid_link(
        "frid://b3:0123456789abcdef0123456789abcdef0123456789abcdef0123456789abcdef?t=%D0%90%D1%80%D1%82%D0%B8%D1%81%D1%82",
    )
    .expect("valid link");
    assert_eq!(link.label.as_deref(), Some("Артист"));
    let link = parse_frid_link(
        "frid://b3:0123456789abcdef0123456789abcdef0123456789abcdef0123456789abcdef",
    )
    .expect("valid link");
    assert_eq!(link.label, None);
}

#[test]
fn share_link_round_trips_through_parse() {
    let track = track(
        "Du Riechst So Gut",
        "Rammstein",
        "Herzeleid",
        "b3:5ebd9e61e1154a64470e6ee4dd1225550f380dd575d01fd4ffba6a5bd1b34104",
    );
    let link = track_share_link(&track, None).expect("link");
    let parsed = parse_frid_link(&link).expect("parses back");
    assert_eq!(
        parsed.content_id,
        "b3:5ebd9e61e1154a64470e6ee4dd1225550f380dd575d01fd4ffba6a5bd1b34104"
    );
    assert_eq!(parsed.label.as_deref(), Some("Rammstein-Du Riechst So Gut"));
}

#[test]
fn percent_encoding_keeps_plain_characters() {
    assert_eq!(percent_encode("a-b_c.d~9"), "a-b_c.d~9");
    assert_eq!(percent_encode("a b/ж"), "a%20b%2F%D0%B6");
    assert_eq!(percent_decode("a%20b%2F%D0%B6"), "a b/ж");
    assert_eq!(percent_decode("100%"), "100%");
    assert_eq!(percent_decode("a+b"), "a b");
    // Bytes that are no text are replaced.
    assert_eq!(percent_decode("%FF"), "\u{fffd}");
}

#[test]
fn a_track_without_content_id_takes_a_hash() {
    let mut item = track("Song", "Artist", "Release", "none");
    item.content_id = None;
    assert!(cached_track_share_link(&item).is_none());
    assert!(track_share_link(&item, None).is_none());
    let hash = format!("b3:{}", "0".repeat(64));
    assert!(!track_can_share(&item));
    assert!(track_share_link(&item, Some(hash.clone())).is_none());
    item.file_path = "/music/song.mp3".into();
    assert!(track_can_share(&item));
    assert_eq!(
        track_share_link(&item, Some(hash.clone())),
        Some(format!("frid://{hash}?t=Artist-Song"))
    );
}
