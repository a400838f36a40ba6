//! Data shapes of the library: what is listed, shown and edited.

use crate::federation::track::{FedTrack, FedTrackView};
use crate::text::{joined, opt_view, signed_decimal, views};
use vstd::prelude::*;

verus! {

/// A length of time. A length in whole seconds is kept as such; a measured one
/// is kept as the bits of the double-precision number of seconds, which is
/// carried and never computed on here.
#[derive(Clone, Copy, PartialEq, Eq, Structural, Debug)]
pub enum Seconds {
    Whole(i64),
    Measured(u64),
}

/// Whether a length of time is more than nothing. Of the bits of a number those
/// of the positive ones are the smallest, up to those of infinity.
pub open spec fn is_positive(d: Seconds) -> bool {
    match d {
        Seconds::Whole(n) => n > 0,
        Seconds::Measured(bits) => 0 < bits <= 0x7ff0_0000_0000_0000u64,
    }
}

pub open spec fn positive_or_none(d: Seconds) -> Option<Seconds> {
    if is_positive(d) {
        Some(d)
    } else {
        None
    }
}

/// A length of time where there is one.
pub(crate) fn known_duration(d: Seconds) -> (r: Option<Seconds>)
    ensures
        r == positive_or_none(d),
{
    let positive = match d {
        Seconds::Whole(n) => n > 0,
        Seconds::Measured(bits) => 0 < bits && bits <= 0x7ff0_0000_0000_0000u64,
    };
    if positive {
        Some(d)
    } else {
        None
    }
}

#[derive(Clone, Copy, PartialEq, Eq, Structural, Debug)]
pub enum Availability {
    Local,
    Remote,
    Mixed,
}

#[derive(Debug)]
pub struct ArtistCard {
    pub id: i64,
    pub name: String,
    /// Path to a local image file, if one is set for the artist.
    pub image_path: Option<String>,
    pub release_count: i64,
    pub track_count: i64,
    pub availability: Availability,
}

#[derive(Debug)]
pub struct ArtistRef {
    pub id: i64,
    pub name: String,
}

impl Clone for ArtistRef {
    fn clone(&self) -> (r: Self)
        ensures
            r == *self,
    {
        ArtistRef { id: self.id, name: self.name.clone() }
    }
}

/// One track as it is listed and queued.
#[derive(Debug)]
pub struct TrackItem {
    pub id: i64,
    pub title: String,
    pub track_number: Option<i32>,
    pub disc_number: Option<i32>,
    pub duration: Seconds,
    pub artists: Vec<ArtistRef>,
    pub featured_artists: Vec<ArtistRef>,
    pub release_id: i64,
    pub release_title: String,
    pub release_year: Option<i32>,
    /// Absolute path to the local audio file.
    pub file_path: String,
    pub content_id: Option<String>,
    /// Path to a local cover image (the release cover).
    pub cover_path: Option<String>,
    pub audio_format: Option<String>,
    pub audio_bitrate: Option<i32>,
    pub audio_sample_rate: Option<i32>,
    pub audio_bit_depth: Option<i32>,
    pub file_size_bytes: Option<i64>,
    /// Completed local plays.
    pub play_count: i64,
    /// The federated track that this item stands for.
    pub fed: Option<FedTrack>,
}

/// The credits of a track: the artist's id and name.
pub open spec fn refs_view(v: Seq<ArtistRef>) -> Seq<(i64, Seq<char>)> {
    v.map_values(|a: ArtistRef| (a.id, a.name@))
}

/// The names in a list of credits.
pub open spec fn ref_names(v: Seq<ArtistRef>) -> Seq<Seq<char>> {
    v.map_values(|a: ArtistRef| a.name@)
}

#[verifier::ext_equal]
pub struct TrackView {
    pub id: i64,
    pub title: Seq<char>,
    pub track_number: Option<i32>,
    pub disc_number: Option<i32>,
    pub duration: Seconds,
    pub artists: Seq<(i64, Seq<char>)>,
    pub featured_artists: Seq<(i64, Seq<char>)>,
    pub release_id: i64,
    pub release_title: Seq<char>,
    pub release_year: Option<i32>,
    pub file_path: Seq<char>,
    pub content_id: Option<Seq<char>>,
    pub cover_path: Option<Seq<char>>,
    pub audio_format: Option<Seq<char>>,
    pub audio_bitrate: Option<i32>,
    pub audio_sample_rate: Option<i32>,
    pub audio_bit_depth: Option<i32>,
    pub file_size_bytes: Option<i64>,
    pub play_count: i64,
    pub fed: Option<FedTrackView>,
}

impl View for TrackItem {
    type V = TrackView;

    open spec fn view(&self) -> TrackView {
        TrackView {
            id: self.id,
            title: self.title@,
            track_number: self.track_number,
            disc_number: self.disc_number,
            duration: self.duration,
            artists: refs_view(self.artists@),
            featured_artists: refs_view(self.featured_artists@),
            release_id: self.release_id,
            release_title: self.release_title@,
            release_year: self.release_year,
            file_path: self.file_path@,
            content_id: opt_view(self.content_id),
            cover_path: opt_view(self.cover_path),
            audio_format: opt_view(self.audio_format),
            audio_bitrate: self.audio_bitrate,
            audio_sample_rate: self.audio_sample_rate,
            audio_bit_depth: self.audio_bit_depth,
            file_size_bytes: self.file_size_bytes,
            play_count: self.play_count,
            fed: match self.fed {
                Some(f) => Some(f@),
                None => None,
            },
        }
    }
}

#[derive(Debug)]
pub struct ReleaseCard {
    pub id: i64,
    pub title: String,
    pub release_type: String,
    pub year: Option<i32>,
    pub cover_path: Option<String>,
    pub track_count: i64,
    pub availability: Availability,
}

#[derive(Debug)]
pub struct ArtistDetail {
    pub id: i64,
    pub name: String,
    pub image_path: Option<String>,
    pub total_track_count: i64,
    pub total_play_count: i64,
    pub top_tracks: Vec<TrackItem>,
    pub releases: Vec<ReleaseCard>,
    /// Tracks where this artist is featured (the only content for artists
    /// without own releases).
    pub featured_tracks: Vec<TrackItem>,
}

#[derive(Debug)]
pub struct ReleaseDetail {
    pub id: i64,
    pub title: String,
    pub release_type: String,
    pub year: Option<i32>,
    pub cover_path: Option<String>,
    pub artists: Vec<ArtistRef>,
    pub tracks: Vec<TrackItem>,
}

#[derive(Debug)]
pub struct PlaylistCard {
    pub id: i64,
    pub title: String,
    pub track_count: i64,
    /// "normal" for user playlists, "likes" for the virtual Likes playlist.
    pub kind: String,
}

#[derive(Debug)]
pub struct PlaylistDetail {
    pub id: i64,
    pub title: String,
    pub description: Option<String>,
    pub tracks: Vec<TrackItem>,
}

#[derive(Debug)]
pub struct SearchResults {
    pub artists: Vec<ArtistCard>,
    pub releases: Vec<ReleaseCard>,
    pub tracks: Vec<TrackItem>,
}

impl Default for SearchResults {
    fn default() -> (r: Self)
        ensures
            r.artists@.len() == 0,
            r.releases@.len() == 0,
            r.tracks@.len() == 0,
    {
        SearchResults { artists: Vec::new(), releases: Vec::new(), tracks: Vec::new() }
    }
}

#[derive(Debug)]
pub struct ArtistsPage {
    pub items: Vec<ArtistCard>,
    pub total: i64,
    pub page: i64,
    pub has_more: bool,
}

/// Edited values submitted from the track edit form. `None` numbers clear
/// the column.
#[derive(Debug)]
pub struct TrackEdit {
    pub title: String,
    pub artists: Vec<String>,
    pub featured_artists: Vec<String>,
    pub track_number: Option<i32>,
    pub disc_number: Option<i32>,
    pub cover_path: Option<String>,
}

#[derive(Debug)]
pub struct ReleaseEdit {
    pub title: String,
    pub release_type: String,
    pub year: Option<i32>,
    pub artists: Vec<String>,
}

pub(crate) fn clone_refs(v: &Vec<ArtistRef>) -> (r: Vec<ArtistRef>)
    ensures
        r@ == v@,
{
    let r = v.clone();
    proof {
        assert(r@ =~= v@);
    }
    r
}

pub(crate) fn clone_strings(v: &Vec<String>) -> (r: Vec<String>)
    ensures
        r@ == v@,
{
    let r = v.clone();
    proof {
        assert(r@ =~= v@);
    }
    r
}

impl Clone for TrackItem {
    fn clone(&self) -> (r: Self)
        ensures
            r@ == self@,
    {
        TrackItem {
            id: self.id,
            title: self.title.clone(),
            track_number: self.track_number,
            disc_number: self.disc_number,
            duration: self.duration,
            artists: clone_refs(&self.artists),
            featured_artists: clone_refs(&self.featured_artists),
            release_id: self.release_id,
            release_title: self.release_title.clone(),
            release_year: self.release_year,
            file_path: self.file_path.clone(),
            content_id: self.content_id.clone(),
            cover_path: self.cover_path.clone(),
            audio_format: self.audio_format.clone(),
            audio_bitrate: self.audio_bitrate,
            audio_sample_rate: self.audio_sample_rate,
            audio_bit_depth: self.audio_bit_depth,
            file_size_bytes: self.file_size_bytes,
            play_count: self.play_count,
            fed: match &self.fed {
                Some(f) => Some(f.clone()),
                None => None,
            },
        }
    }
}

/// The main artists, separated by commas, and behind "feat." the featured
/// ones.
pub open spec fn credit_line(artists: Seq<Seq<char>>, featured: Seq<Seq<char>>) -> Seq<char> {
    let main = crate::text::joined(artists, ", "@);
    let guests = crate::text::joined(featured, ", "@);
    if featured.len() == 0 {
        main
    } else if artists.len() == 0 {
        "feat. "@ + guests
    } else {
        main + " feat. "@ + guests
    }
}

/// Minutes and seconds: `total / 60`, a colon and `total % 60` in at least two
/// places, both with the sign of `total`.
pub open spec fn minutes_label(total: int) -> Seq<char> {
    if total >= 0 {
        crate::text::decimal((total / 60) as nat) + seq![':'] + crate::text::two_digits(
            (total % 60) as nat,
        )
    } else {
        let m = (-total) / 60;
        let s = (-total) % 60;
        crate::text::signed_decimal(-m) + seq![':'] + (if s == 0 {
            seq!['0', '0']
        } else {
            crate::text::signed_decimal(-s)
        })
    }
}

pub fn minutes_text(total: i64) -> (r: String)
    ensures
        r@ == minutes_label(total as int),
{
    if total >= 0 {
        let t: u64 = total as u64;
        let mut out = crate::text::decimal_text(t / 60);
        out.push(':');
        let tail = crate::text::two_digit_text(t % 60);
        out.append(tail.as_str());
        proof {
            assert(out@ =~= minutes_label(total as int));
        }
        out
    } else {
        let t: u64 = if total == i64::MIN {
            0x8000_0000_0000_0000u64
        } else {
            (-total) as u64
        };
        let m: u64 = t / 60;
        let s: u64 = t % 60;
        let mut out = crate::text::signed_text(-(m as i64));
        out.push(':');
        if s == 0 {
            out.push('0');
            out.push('0');
        } else {
            let tail = crate::text::signed_text(-(s as i64));
            out.append(tail.as_str());
        }
        proof {
            assert(out@ =~= minutes_label(total as int));
        }
        out
    }
}

/// The text that `str::to_uppercase` gives.
pub uninterp spec fn uppercased(s: Seq<char>) -> Seq<char>;

/// `str::to_uppercase`: the capital letters of a text, by its characters alone.
#[verifier::external_body]
fn uppercase(s: &str) -> (r: String)
    ensures
        r@ == uppercased(s@),
{
    s.to_uppercase()
}

/// One part where there is something to say.
pub open spec fn part_if(known: bool, part: Seq<char>) -> Seq<Seq<char>> {
    if known {
        seq![part]
    } else {
        Seq::empty()
    }
}

/// The parts of the line on how the audio is coded.
pub open spec fn tech_parts(
    format: Option<Seq<char>>,
    bitrate: Option<i32>,
    rate_known: bool,
    khz: Seq<char>,
    size_known: bool,
    megabytes: Seq<char>,
) -> Seq<Seq<char>> {
    part_if(format is Some, uppercased(format->0)) + part_if(
        bitrate is Some,
        signed_decimal(bitrate->0 as int) + "kbps"@,
    ) + part_if(rate_known, khz + "kHz"@) + part_if(size_known, megabytes + "MB"@)
}

impl TrackItem {
    /// The credited artists as one line, the featured ones behind "feat.".
    pub fn artist_line(&self) -> (r: String)
        ensures
            r@ == credit_line(ref_names(self.artists@), ref_names(self.featured_artists@)),
    {
        let main = names_of(&self.artists);
        let featured = names_of(&self.featured_artists);
        let mut out = crate::text::join(&main, ", ");
        proof {
            assert(views(main@).len() == main@.len());
            assert(views(featured@).len() == featured@.len());
        }
        if featured.len() > 0 {
            if main.len() > 0 {
                out.append(" ");
            }
            out.append("feat. ");
            let tail = crate::text::join(&featured, ", ");
            out.append(tail.as_str());
            proof {
                reveal_strlit(" ");
                reveal_strlit("feat. ");
                reveal_strlit(" feat. ");
                assert(" "@ + "feat. "@ =~= " feat. "@);
                assert(out@ =~= credit_line(
                    ref_names(self.artists@),
                    ref_names(self.featured_artists@),
                ));
            }
        }
        out
    }

    /// The duration as minutes and seconds, for a duration rounded to whole
    /// seconds.
    pub fn duration_label(&self, rounded: i64) -> (r: String)
        ensures
            r@ == minutes_label(
                match self.duration {
                    Seconds::Whole(n) => n as int,
                    Seconds::Measured(_) => rounded as int,
                },
            ),
    {
        match self.duration {
            Seconds::Whole(n) => minutes_text(n),
            Seconds::Measured(_) => minutes_text(rounded),
        }
    }

    /// The line for the status bar on how the audio is coded: the format in
    /// capitals, the bit rate, the sample rate and the size, each where it is
    /// known. The sample rate in kilohertz and the size in megabytes, both with
    /// one decimal, are handed in as text.
    pub fn tech_label_full(&self, khz: &str, megabytes: &str) -> (r: String)
        ensures
            r@ == joined(
                tech_parts(
                    opt_view(self.audio_format),
                    self.audio_bitrate,
                    self.audio_sample_rate is Some,
                    khz@,
                    self.file_size_bytes is Some,
                    megabytes@,
                ),
                " \u{b7} "@,
            ),
    {
        let mut parts: Vec<String> = Vec::new();
        match &self.audio_format {
            Some(format) => {
                parts.push(uppercase(format.as_str()));
            },
            None => {},
        }
        match self.audio_bitrate {
            Some(bitrate) => {
                let mut part = crate::text::signed_text(bitrate as i64);
                part.append("kbps");
                parts.push(part);
            },
            None => {},
        }
        if self.audio_sample_rate.is_some() {
            let mut part = khz.to_owned();
            part.append("kHz");
            parts.push(part);
        }
        if self.file_size_bytes.is_some() {
            let mut part = megabytes.to_owned();
            part.append("MB");
            parts.push(part);
        }
        proof {
            assert(views(parts@) =~= tech_parts(
                opt_view(self.audio_format),
                self.audio_bitrate,
                self.audio_sample_rate is Some,
                khz@,
                self.file_size_bytes is Some,
                megabytes@,
            ));
        }
        crate::text::join(&parts, " \u{b7} ")
    }

    /// A federated track without a local file.
    pub fn is_fed_pending(&self) -> (r: bool)
        ensures
            r == (self.fed is Some && self.file_path@.len() == 0),
    {
        self.fed.is_some() && self.file_path.as_str().is_empty()
    }
}

pub(crate) fn names_of(v: &Vec<ArtistRef>) -> (r: Vec<String>)
    ensures
        views(r@) == ref_names(v@),
{
    let mut out: Vec<String> = Vec::new();
    let mut i: usize = 0;
    while i < v.len()
        invariant
            i <= v@.len(),
            views(out@) == ref_names(v@.take(i as int)),
        decreases v@.len() - i,
    {
        let ghost before = out@;
        out.push(v[i].name.clone());
        proof {
            assert(views(out@) =~= views(before).push(v@[i as int].name@));
            assert(ref_names(v@.take(i + 1)) =~= ref_names(v@.take(i as int)).push(
                v@[i as int].name@,
            ));
        }
        i += 1;
    }
    proof {
        assert(v@.take(v@.len() as int) =~= v@);
    }
    out
}

impl SearchResults {
    /// How many results there are in all.
    pub fn len(&self) -> (r: usize)
        requires
            self.artists@.len() + self.releases@.len() + self.tracks@.len() <= usize::MAX,
        ensures
            r == self.artists@.len() + self.releases@.len() + self.tracks@.len(),
    {
        self.artists.len() + self.releases.len() + self.tracks.len()
    }
}

} // verus!
