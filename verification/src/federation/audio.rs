//! Fetching a track from its owner and serving one: a request line, a header
//! line, then the bytes of the images and of the audio.

use crate::library::models::Seconds;
use crate::text::{ascii_lowercase, decimal_text, same};
use vstd::prelude::*;

verus! {

pub const AUDIO_PROTOCOL_VERSION: u16 = 1;

/// The longest request or header line.
pub const MAX_PROTOCOL_LINE: usize = 4096;

/// Images above this size are neither sent nor taken.
pub const MAX_COVER_BYTES: u64 = 16_777_216;

#[derive(Debug)]
pub struct AudioRequest {
    /// The item, in hexadecimal digits.
    pub item_id: String,
    /// Where in the audio to start.
    pub offset: u64,
    /// Whether the images are wanted too.
    pub want_cover: bool,
}

/// What the owner knows of a track.
#[derive(Debug)]
pub struct TrackMetadata {
    pub title: String,
    pub artists: Vec<String>,
    pub featured_artists: Vec<String>,
    pub album_artists: Vec<String>,
    pub release_title: String,
    pub release_type: Option<String>,
    pub year: Option<i32>,
    pub track_number: Option<i32>,
    pub disc_number: Option<i32>,
    pub duration: Option<Seconds>,
    pub audio_format: Option<String>,
    pub audio_bitrate: Option<i32>,
    pub audio_sample_rate: Option<i32>,
    pub audio_bit_depth: Option<i32>,
}

#[verifier::ext_equal]
pub struct MetadataView {
    pub title: Seq<char>,
    pub artists: Seq<Seq<char>>,
    pub featured_artists: Seq<Seq<char>>,
    pub album_artists: Seq<Seq<char>>,
    pub release_title: Seq<char>,
    pub release_type: Option<Seq<char>>,
    pub year: Option<i32>,
    pub track_number: Option<i32>,
    pub disc_number: Option<i32>,
    pub duration: Option<Seconds>,
    pub audio_format: Option<Seq<char>>,
    pub audio_bitrate: Option<i32>,
    pub audio_sample_rate: Option<i32>,
    pub audio_bit_depth: Option<i32>,
}

impl View for TrackMetadata {
    type V = MetadataView;

    open spec fn view(&self) -> MetadataView {
        MetadataView {
            title: self.title@,
            artists: crate::text::views(self.artists@),
            featured_artists: crate::text::views(self.featured_artists@),
            album_artists: crate::text::views(self.album_artists@),
            release_title: self.release_title@,
            release_type: crate::text::opt_view(self.release_type),
            year: self.year,
            track_number: self.track_number,
            disc_number: self.disc_number,
            duration: self.duration,
            audio_format: crate::text::opt_view(self.audio_format),
            audio_bitrate: self.audio_bitrate,
            audio_sample_rate: self.audio_sample_rate,
            audio_bit_depth: self.audio_bit_depth,
        }
    }
}

#[derive(Debug)]
pub struct AudioResponseHeader {
    pub ok: bool,
    pub error: Option<String>,
    pub mime_type: String,
    pub total_size: u64,
    pub offset: u64,
    pub metadata: Option<TrackMetadata>,
    /// The size of the cover, which comes right behind the header.
    pub cover_size: u64,
    pub cover_mime: String,
    /// The size of the image of the main artist, behind the cover.
    pub artist_image_size: u64,
    pub artist_image_mime: String,
}

/// A fetched track. An image is its bytes and the extension of its file.
#[derive(Debug)]
pub struct Downloaded {
    pub path: String,
    pub mime_type: String,
    pub metadata: Option<TrackMetadata>,
    pub cover: Option<(Vec<u8>, &'static str)>,
    pub artist_image: Option<(Vec<u8>, &'static str)>,
}

/// The type of an image file, by its extension.
pub open spec fn image_type(ext: Seq<char>) -> Seq<char> {
    let e = crate::text::ascii_lowered(ext);
    if e == "png"@ {
        "image/png"@
    } else if e == "webp"@ {
        "image/webp"@
    } else if e == "gif"@ {
        "image/gif"@
    } else if e == "bmp"@ {
        "image/bmp"@
    } else {
        "image/jpeg"@
    }
}

pub fn image_mime(ext: &str) -> (r: &'static str)
    ensures
        r@ == image_type(ext@),
{
    let low = ascii_lowercase(ext);
    let e = low.as_str();
    if same(e, "png") {
        "image/png"
    } else if same(e, "webp") {
        "image/webp"
    } else if same(e, "gif") {
        "image/gif"
    } else if same(e, "bmp") {
        "image/bmp"
    } else {
        "image/jpeg"
    }
}

/// The extension of an image of a type.
pub open spec fn extension_of_image(mime: Seq<char>) -> Seq<char> {
    if mime == "image/png"@ {
        "png"@
    } else if mime == "image/webp"@ {
        "webp"@
    } else if mime == "image/gif"@ {
        "gif"@
    } else if mime == "image/bmp"@ {
        "bmp"@
    } else {
        "jpg"@
    }
}

/// The extension for a received image, from its type.
pub fn image_extension(mime: &str) -> (r: &'static str)
    ensures
        r@ == extension_of_image(mime@),
{
    if same(mime, "image/png") {
        "png"
    } else if same(mime, "image/webp") {
        "webp"
    } else if same(mime, "image/gif") {
        "gif"
    } else if same(mime, "image/bmp") {
        "bmp"
    } else {
        "jpg"
    }
}

/// The type of an audio file, by its extension.
pub open spec fn audio_type(ext: Seq<char>) -> Seq<char> {
    let e = crate::text::ascii_lowered(ext);
    if e == "mp3"@ {
        "audio/mpeg"@
    } else if e == "flac"@ {
        "audio/flac"@
    } else if e == "ogg"@ || e == "oga"@ {
        "audio/ogg"@
    } else if e == "opus"@ {
        "audio/opus"@
    } else if e == "wav"@ {
        "audio/wav"@
    } else if e == "m4a"@ || e == "mp4"@ || e == "alac"@ {
        "audio/mp4"@
    } else if e == "aac"@ {
        "audio/aac"@
    } else if e == "aiff"@ || e == "aif"@ {
        "audio/aiff"@
    } else {
        "application/octet-stream"@
    }
}

pub fn guess_mime(ext: &str) -> (r: &'static str)
    ensures
        r@ == audio_type(ext@),
{
    let low = ascii_lowercase(ext);
    let e = low.as_str();
    if same(e, "mp3") {
        "audio/mpeg"
    } else if same(e, "flac") {
        "audio/flac"
    } else if same(e, "ogg") || same(e, "oga") {
        "audio/ogg"
    } else if same(e, "opus") {
        "audio/opus"
    } else if same(e, "wav") {
        "audio/wav"
    } else if same(e, "m4a") || same(e, "mp4") || same(e, "alac") {
        "audio/mp4"
    } else if same(e, "aac") {
        "audio/aac"
    } else if same(e, "aiff") || same(e, "aif") {
        "audio/aiff"
    } else {
        "application/octet-stream"
    }
}

/// The extension of an audio file of a type.
pub open spec fn extension_of_audio(mime: Seq<char>) -> Seq<char> {
    if mime == "audio/mpeg"@ {
        "mp3"@
    } else if mime == "audio/flac"@ || mime == "audio/x-flac"@ {
        "flac"@
    } else if mime == "audio/ogg"@ {
        "ogg"@
    } else if mime == "audio/opus"@ {
        "opus"@
    } else if mime == "audio/wav"@ || mime == "audio/x-wav"@ {
        "wav"@
    } else if mime == "audio/mp4"@ || mime == "audio/x-m4a"@ {
        "m4a"@
    } else if mime == "audio/aac"@ {
        "aac"@
    } else if mime == "audio/aiff"@ {
        "aiff"@
    } else {
        "bin"@
    }
}

/// The extension for a fetched file, from the type that its owner reported.
pub fn extension_for_mime(mime: &str) -> (r: &'static str)
    ensures
        r@ == extension_of_audio(mime@),
{
    if same(mime, "audio/mpeg") {
        "mp3"
    } else if same(mime, "audio/flac") || same(mime, "audio/x-flac") {
        "flac"
    } else if same(mime, "audio/ogg") {
        "ogg"
    } else if same(mime, "audio/opus") {
        "opus"
    } else if same(mime, "audio/wav") || same(mime, "audio/x-wav") {
        "wav"
    } else if same(mime, "audio/mp4") || same(mime, "audio/x-m4a") {
        "m4a"
    } else if same(mime, "audio/aac") {
        "aac"
    } else if same(mime, "audio/aiff") {
        "aiff"
    } else {
        "bin"
    }
}

/// The request for a whole track with its images.
pub fn whole_track_request(item_id: &str) -> (r: AudioRequest)
    ensures
        r.item_id@ == item_id@,
        r.offset == 0,
        r.want_cover,
{
    AudioRequest { item_id: item_id.to_owned(), offset: 0, want_cover: true }
}

/// Why a peer does not send.
pub open spec fn refusal_text(header: AudioResponseHeader) -> Seq<char> {
    "peer refused the stream: "@ + match header.error {
        Some(e) => e@,
        None => "unknown error"@,
    }
}

/// The reason that a peer gave, or nothing.
pub open spec fn refusal_or_empty(error: Option<Seq<char>>) -> Seq<char> {
    match error {
        Some(e) => e,
        None => Seq::empty(),
    }
}

/// Whether the peer sends; else the message that says why not.
pub fn check_header(header: &AudioResponseHeader) -> (r: Result<(), String>)
    ensures
        match r {
            Ok(_) => header.ok,
            Err(e) => !header.ok && e@ == refusal_text(*header),
        },
{
    if header.ok {
        return Ok(());
    }
    let mut message = String::new();
    message.append("peer refused the stream: ");
    match &header.error {
        Some(e) => message.append(e.as_str()),
        None => message.append("unknown error"),
    }
    proof {
        assert(message@ =~= refusal_text(*header));
    }
    Err(message)
}

/// The message for an image that is too large.
pub open spec fn oversized_text(what: Seq<char>, size: u64) -> Seq<char> {
    what + " of "@ + crate::text::decimal(size as nat) + " bytes exceeds the "@
        + crate::text::decimal(MAX_COVER_BYTES as nat) + " byte limit"@
}

/// Whether an image of this size follows in the stream; an error if it is
/// larger than one may be.
pub fn image_follows(size: u64, what: &str) -> (r: Result<bool, String>)
    ensures
        match r {
            Ok(b) => size <= MAX_COVER_BYTES && b == (size > 0),
            Err(e) => size > MAX_COVER_BYTES && e@ == oversized_text(what@, size),
        },
{
    if size == 0 {
        return Ok(false);
    }
    if size <= MAX_COVER_BYTES {
        return Ok(true);
    }
    let mut message = String::new();
    message.append(what);
    message.append(" of ");
    message.append(decimal_text(size).as_str());
    message.append(" bytes exceeds the ");
    message.append(decimal_text(MAX_COVER_BYTES).as_str());
    message.append(" byte limit");
    proof {
        assert(message@ =~= oversized_text(what@, size));
    }
    Err(message)
}

/// The name of a fetched file.
pub fn download_name(stem: &str, mime: &str) -> (r: String)
    ensures
        r@ == stem@ + seq!['.'] + extension_of_audio(mime@),
{
    let mut out = stem.to_owned();
    out.push('.');
    out.append(extension_for_mime(mime));
    proof {
        assert(out@ =~= stem@ + seq!['.'] + extension_of_audio(mime@));
    }
    out
}

/// The name of a file while it is fetched.
pub fn partial_name(stem: &str, mime: &str) -> (r: String)
    ensures
        r@ == seq!['.'] + stem@ + seq!['.'] + extension_of_audio(mime@) + ".part"@,
{
    let mut out = String::new();
    out.push('.');
    out.append(download_name(stem, mime).as_str());
    out.append(".part");
    proof {
        assert(out@ =~= seq!['.'] + stem@ + seq!['.'] + extension_of_audio(mime@) + ".part"@);
    }
    out
}

/// Whether the audio was fetched whole before.
pub open spec fn is_whole(on_disk: Option<u64>, total_size: u64, r: bool) -> bool {
    r == (total_size > 0 && on_disk == Some(total_size))
}

/// Whether the audio was fetched whole before: the file is there and has the
/// size that the owner reports.
pub fn already_fetched(on_disk: Option<u64>, total_size: u64) -> (r: bool)
    ensures
        is_whole(on_disk, total_size, r),
{
    match on_disk {
        Some(n) => total_size > 0 && n == total_size,
        None => false,
    }
}

pub open spec fn incomplete_text(received: u64, total: u64) -> Seq<char> {
    "download incomplete: got "@ + crate::text::decimal(received as nat) + " of "@
        + crate::text::decimal(total as nat) + " bytes"@
}

/// Whether all of the audio came.
pub open spec fn all_received(received: u64, total_size: u64, r: Result<(), String>) -> bool {
    match r {
        Ok(_) => total_size == 0 || received == total_size,
        Err(e) => total_size > 0 && received != total_size && e@ == incomplete_text(
            received,
            total_size,
        ),
    }
}

/// Whether all of the audio came; a size of zero says that the owner does not
/// know it.
pub fn check_received(received: u64, total_size: u64) -> (r: Result<(), String>)
    ensures
        all_received(received, total_size, r),
{
    if total_size == 0 || received == total_size {
        return Ok(());
    }
    let mut message = String::new();
    message.append("download incomplete: got ");
    message.append(decimal_text(received).as_str());
    message.append(" of ");
    message.append(decimal_text(total_size).as_str());
    message.append(" bytes");
    proof {
        assert(message@ =~= incomplete_text(received, total_size));
    }
    Err(message)
}

/// Whether an image of this size is sent along.
pub fn sends_image(size: u64) -> (r: bool)
    ensures
        r == (0 < size <= MAX_COVER_BYTES),
{
    0 < size && size <= MAX_COVER_BYTES
}

/// An image that is sent along: its size and the extension of its file.
pub type ServedImage = Option<(u64, String)>;

pub open spec fn served_size(image: ServedImage) -> u64 {
    match image {
        Some((n, _)) => n,
        None => 0,
    }
}

pub open spec fn served_type(image: ServedImage) -> Seq<char> {
    match image {
        Some((_, ext)) => image_type(ext@),
        None => Seq::empty(),
    }
}

fn image_fields(image: &ServedImage) -> (r: (u64, String))
    ensures
        r.0 == served_size(*image),
        r.1@ == served_type(*image),
{
    match image {
        Some((n, ext)) => (*n, image_mime(ext.as_str()).to_owned()),
        None => (0, String::new()),
    }
}

/// What goes before a served track.
pub open spec fn heads_stream(
    request: AudioRequest,
    extension: Seq<char>,
    total_size: u64,
    metadata: TrackMetadata,
    cover: ServedImage,
    artist_image: ServedImage,
    r: AudioResponseHeader,
) -> bool {
    &&& r.ok
    &&& r.error is None
    &&& r.mime_type@ == audio_type(extension)
    &&& r.total_size == total_size
    &&& r.offset == (if request.offset < total_size {
        request.offset
    } else {
        total_size
    })
    &&& r.metadata == Some(metadata)
    &&& r.cover_size == (if request.want_cover {
        served_size(cover)
    } else {
        0
    })
    &&& r.cover_mime@ == (if request.want_cover {
        served_type(cover)
    } else {
        Seq::empty()
    })
    &&& r.artist_image_size == (if request.want_cover {
        served_size(artist_image)
    } else {
        0
    })
    &&& r.artist_image_mime@ == (if request.want_cover {
        served_type(artist_image)
    } else {
        Seq::empty()
    })
}

/// The header that goes before a served track. The audio starts at the wanted
/// offset, at its end at most. The images go along only when they are wanted.
pub fn serve_header(
    request: &AudioRequest,
    extension: &str,
    total_size: u64,
    metadata: TrackMetadata,
    cover: &ServedImage,
    artist_image: &ServedImage,
) -> (r: AudioResponseHeader)
    ensures
        heads_stream(*request, extension@, total_size, metadata, *cover, *artist_image, r),
{
    let offset: u64 = if request.offset < total_size {
        request.offset
    } else {
        total_size
    };
    let (cover_size, cover_mime) = if request.want_cover {
        image_fields(cover)
    } else {
        (0, String::new())
    };
    let (artist_image_size, artist_image_mime) = if request.want_cover {
        image_fields(artist_image)
    } else {
        (0, String::new())
    };
    AudioResponseHeader {
        ok: true,
        error: None,
        mime_type: guess_mime(extension).to_owned(),
        total_size,
        offset,
        metadata: Some(metadata),
        cover_size,
        cover_mime,
        artist_image_size,
        artist_image_mime,
    }
}

/// The header that refuses a request.
pub fn refuse_header(message: &str) -> (r: AudioResponseHeader)
    ensures
        !r.ok,
        r.error matches Some(e) && e@ == message@,
        r.mime_type@.len() == 0,
        r.total_size == 0,
        r.offset == 0,
        r.metadata is None,
        r.cover_size == 0,
        r.cover_mime@.len() == 0,
        r.artist_image_size == 0,
        r.artist_image_mime@.len() == 0,
{
    AudioResponseHeader {
        ok: false,
        error: Some(message.to_owned()),
        mime_type: String::new(),
        total_size: 0,
        offset: 0,
        metadata: None,
        cover_size: 0,
        cover_mime: String::new(),
        artist_image_size: 0,
        artist_image_mime: String::new(),
    }
}

/// The one who asks for a refused track learns the reason.
pub proof fn law_refusal_reaches_the_requester(header: AudioResponseHeader, message: Seq<char>)
    requires
        !header.ok,
        header.error matches Some(e) && e@ == message,
    ensures
        refusal_text(header) == "peer refused the stream: "@ + message,
{
}

/// A type of image that is known comes back from its extension: an image
/// keeps its type on the way.
pub proof fn law_image_type_round_trip(ext: Seq<char>)
    ensures
        image_type(extension_of_image(image_type(ext))) == image_type(ext),
{
    reveal_strlit("png");
    reveal_strlit("webp");
    reveal_strlit("gif");
    reveal_strlit("bmp");
    reveal_strlit("jpg");
    reveal_strlit("image/png");
    reveal_strlit("image/webp");
    reveal_strlit("image/gif");
    reveal_strlit("image/bmp");
    reveal_strlit("image/jpeg");
    assert("image/png"@[6] == 'p');
    assert("image/webp"@[6] == 'w');
    assert("image/gif"@[6] == 'g');
    assert("image/bmp"@[6] == 'b');
    assert("image/jpeg"@[6] == 'j');
    assert(crate::text::ascii_lowered("png"@) =~= "png"@);
    assert(crate::text::ascii_lowered("webp"@) =~= "webp"@);
    assert(crate::text::ascii_lowered("gif"@) =~= "gif"@);
    assert(crate::text::ascii_lowered("bmp"@) =~= "bmp"@);
    assert(crate::text::ascii_lowered("jpg"@) =~= "jpg"@);
    assert("jpg"@[0] == 'j');
    assert("png"@[0] == 'p');
    assert("webp"@[0] == 'w');
    assert("gif"@[0] == 'g');
    assert("bmp"@[0] == 'b');
}

} // verus!
