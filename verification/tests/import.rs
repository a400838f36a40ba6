//! Reading the tags of audio files.

use furumi::library::import::{
    extract_title_feat, picture_extension, split_artist_tag, PictureFormat,
};

#[test]
fn splits_plain_artist() {
    let (main, feat) = split_artist_tag("Daft Punk");
    assert_eq!(main, vec!["Daft Punk"]);
    assert!(feat.is_empty());
}

#[test]
fn splits_multiple_and_featured() {
    let (main, feat) = split_artist_tag("A; B feat. C & D");
    assert_eq!(main, vec!["A", "B"]);
    assert_eq!(feat, vec!["C", "D"]);
}

#[test]
fn keeps_commas_inside_names() {
    let (main, _) = split_artist_tag("Tyler, The Creator");
    assert_eq!(main, vec!["Tyler, The Creator"]);
}

#[test]
fn extracts_feat_from_title() {
    let (title, names) = extract_title_feat("Song (feat. X & Y)").unwrap();
    assert_eq!(title, "Song");
    assert_eq!(names, vec!["X", "Y"]);
    assert!(extract_title_feat("Plain Song").is_none());
}

#[test]
fn markers_are_found_in_the_text_itself() {
    let (title, names) = extract_title_feat("\u{130} (feat. X)").unwrap();
    assert_eq!(title, "\u{130}");
    assert_eq!(names, vec!["X"]);
    let (title, names) = extract_title_feat("\u{130}\u{130} [FT. Y] (Live)").unwrap();
    assert_eq!(title, "\u{130}\u{130} (Live)");
    assert_eq!(names, vec!["Y"]);
    assert!(extract_title_feat("\u{130} (feat. X").is_none());
    let (main, feat) = split_artist_tag("\u{130} feat. X");
    assert_eq!(main, vec!["\u{130}"]);
    assert_eq!(feat, vec!["X"]);
    let (main, feat) = split_artist_tag("\u{130}feat. X");
    assert_eq!(main, vec!["\u{130}feat. X"]);
    assert!(feat.is_empty());
}

#[test]
fn pictures_are_saved_with_the_extension_of_their_format() {
    assert_eq!(picture_extension(PictureFormat::Png), "png");
    assert_eq!(picture_extension(PictureFormat::Gif), "gif");
    assert_eq!(picture_extension(PictureFormat::Bmp), "bmp");
    assert_eq!(picture_extension(PictureFormat::Other), "jpg");
}
