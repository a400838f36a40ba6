//! What the library publishes, and what it counts.

use crate::content_id::{canonical_option, normalize_option};
use crate::library::edit::row_is_release;
use crate::library::listing::{names_in, release_refs, track_refs};
use crate::library::models::{names_of, ref_names, refs_view, Seconds};
use crate::library::tables::{ArtistRow, Library, ReleaseRow, TrackRow, TrackRowView};
use crate::lists::{count_by, count_where, find_by, first_where, viewed};
use crate::text::{opt_view, same_option, views};
use vstd::prelude::*;

verus! {

#[derive(Debug)]
pub struct ExportRelease {
    pub id: i64,
    pub title: String,
    pub year: Option<i32>,
    pub release_type: String,
    pub artist_names: Vec<String>,
}

#[verifier::ext_equal]
pub struct ExportReleaseView {
    pub id: i64,
    pub title: Seq<char>,
    pub year: Option<i32>,
    pub release_type: Seq<char>,
    pub artist_names: Seq<Seq<char>>,
}

impl View for ExportRelease {
    type V = ExportReleaseView;

    open spec fn view(&self) -> ExportReleaseView {
        ExportReleaseView {
            id: self.id,
            title: self.title@,
            year: self.year,
            release_type: self.release_type@,
            artist_names: views(self.artist_names@),
        }
    }
}

#[derive(Debug)]
pub struct ExportTrack {
    pub id: i64,
    pub title: String,
    pub year: Option<i32>,
    pub duration: Seconds,
    pub artist_names: Vec<String>,
    pub featured_artist_names: Vec<String>,
    pub release_title: String,
    pub release_type: String,
    pub track_number: Option<i32>,
    pub disc_number: Option<i32>,
    pub content_id: Option<String>,
}

#[verifier::ext_equal]
pub struct ExportTrackView {
    pub id: i64,
    pub title: Seq<char>,
    pub year: Option<i32>,
    pub duration: Seconds,
    pub artist_names: Seq<Seq<char>>,
    pub featured_artist_names: Seq<Seq<char>>,
    pub release_title: Seq<char>,
    pub release_type: Seq<char>,
    pub track_number: Option<i32>,
    pub disc_number: Option<i32>,
    pub content_id: Option<Seq<char>>,
}

impl View for ExportTrack {
    type V = ExportTrackView;

    open spec fn view(&self) -> ExportTrackView {
        ExportTrackView {
            id: self.id,
            title: self.title@,
            year: self.year,
            duration: self.duration,
            artist_names: views(self.artist_names@),
            featured_artist_names: views(self.featured_artist_names@),
            release_title: self.release_title@,
            release_type: self.release_type@,
            track_number: self.track_number,
            disc_number: self.disc_number,
            content_id: opt_view(self.content_id),
        }
    }
}

/// What is handed to the federation for publishing.
#[derive(Debug)]
pub struct FederationExport {
    pub artists: Vec<(i64, String)>,
    pub releases: Vec<ExportRelease>,
    pub tracks: Vec<ExportTrack>,
}

// ---------------------------------------------------------------------------
// Content ids
// ---------------------------------------------------------------------------

/// The content ids that were read from files, by the ids of the tracks.
pub type Hashes = Vec<(i64, String)>;

pub open spec fn is_hash_of(id: i64) -> spec_fn((i64, String)) -> bool {
    |h: (i64, String)| h.0 == id
}

pub open spec fn hash_of(hashes: Seq<(i64, String)>, id: i64) -> Option<Seq<char>> {
    match first_where(hashes, is_hash_of(id)) {
        Some(i) => Some(hashes[i].1@),
        None => None,
    }
}

/// The content id of a track: its own in canonical form, or the one that was
/// read from its file.
pub open spec fn settled_id(t: TrackRow, hashes: Seq<(i64, String)>) -> Option<Seq<char>> {
    match canonical_option(opt_view(t.content_id)) {
        Some(id) => Some(id),
        None => hash_of(hashes, t.id),
    }
}

fn hash_for(hashes: &Hashes, id: i64) -> (r: Option<String>)
    ensures
        opt_view(r) == hash_of(hashes@, id),
{
    let f = |h: &(i64, String)| -> (b: bool)
        ensures
            b == is_hash_of(id)(*h),
        { h.0 == id };
    match find_by(hashes, f, Ghost(is_hash_of(id))) {
        Some(i) => Some(hashes[i].1.clone()),
        None => None,
    }
}

fn settle(t: &TrackRow, hashes: &Hashes) -> (r: Option<String>)
    ensures
        opt_view(r) == settled_id(*t, hashes@),
{
    match normalize_option(&t.content_id) {
        Some(id) => Some(id),
        None => hash_for(hashes, t.id),
    }
}

/// Whether a track has no content id that can be used.
pub open spec fn is_unhashed(t: TrackRow) -> bool {
    canonical_option(opt_view(t.content_id)) is None
}

pub open spec fn unhashed(rows: Seq<TrackRow>) -> Seq<(i64, Seq<char>)>
    decreases rows.len(),
{
    if rows.len() == 0 {
        Seq::empty()
    } else if is_unhashed(rows.last()) {
        unhashed(rows.drop_last()).push((rows.last().id, rows.last().file_path@))
    } else {
        unhashed(rows.drop_last())
    }
}

pub open spec fn paths_view(s: Seq<(i64, String)>) -> Seq<(i64, Seq<char>)> {
    s.map_values(|p: (i64, String)| (p.0, p.1@))
}

/// The tracks after content ids were settled: one that cannot be is left as it
/// is where `keep` says so, else it loses its content id.
pub open spec fn settled(rows: Seq<TrackRowView>, t: Seq<TrackRow>, hashes: Seq<(i64, String)>, keep: bool) -> Seq<
    TrackRowView,
> {
    Seq::new(
        rows.len(),
        |i: int|
            if keep && settled_id(t[i], hashes) is None {
                rows[i]
            } else {
                TrackRowView { content_id: settled_id(t[i], hashes), ..rows[i] }
            },
    )
}

#[derive(Clone, Copy, PartialEq, Eq, Structural, Debug)]
pub struct ContentIdBackfillStats {
    pub checked: usize,
    pub normalized: usize,
    pub hashed: usize,
    pub failed: usize,
}

impl ContentIdBackfillStats {
    /// How many tracks got another content id.
    pub fn updated(&self) -> (r: usize)
        requires
            self.normalized + self.hashed <= usize::MAX,
        ensures
            r == self.normalized + self.hashed,
    {
        self.normalized + self.hashed
    }
}

impl Default for ContentIdBackfillStats {
    fn default() -> (r: Self)
        ensures
            r.checked == 0,
            r.normalized == 0,
            r.hashed == 0,
            r.failed == 0,
    {
        ContentIdBackfillStats { checked: 0, normalized: 0, hashed: 0, failed: 0 }
    }
}

/// Whether the content id of a track is written in another form than the
/// canonical one.
pub open spec fn is_normalized() -> spec_fn(TrackRow) -> bool {
    |t: TrackRow|
        {
            let c = canonical_option(opt_view(t.content_id));
            c is Some && opt_view(t.content_id) != c
        }
}

pub open spec fn is_hashed(hashes: Seq<(i64, String)>) -> spec_fn(TrackRow) -> bool {
    |t: TrackRow| is_unhashed(t) && hash_of(hashes, t.id) is Some
}

pub open spec fn is_failed(hashes: Seq<(i64, String)>) -> spec_fn(TrackRow) -> bool {
    |t: TrackRow| is_unhashed(t) && hash_of(hashes, t.id) is None
}

/// What giving every track a content id changes.
pub open spec fn backfills(
    a: Library,
    b: Library,
    hashes: Seq<(i64, String)>,
    r: ContentIdBackfillStats,
) -> bool {
    &&& viewed(b.tracks@) == settled(
        viewed(a.tracks@),
        a.tracks@,
        hashes,
        true,
    )
    &&& (Library { tracks: a.tracks, ..b }) == a
    &&& r.checked == a.tracks@.len()
    &&& r.normalized == count_where(a.tracks@, is_normalized())
    &&& r.hashed == count_where(a.tracks@, is_hashed(hashes))
    &&& r.failed == count_where(a.tracks@, is_failed(hashes))
}

impl Library {
    /// The tracks whose files have to be read for a content id, with the
    /// paths of the files.
    pub fn tracks_to_hash(&self) -> (r: Vec<(i64, String)>)
        ensures
            paths_view(r@) == unhashed(self.tracks@),
    {
        let mut out: Vec<(i64, String)> = Vec::new();
        let mut i: usize = 0;
        proof {
            assert(self.tracks@.take(0) =~= Seq::empty());
            assert(paths_view(out@) =~= Seq::empty());
        }
        while i < self.tracks.len()
            invariant
                i <= self.tracks@.len(),
                paths_view(out@) == unhashed(self.tracks@.take(i as int)),
            decreases self.tracks@.len() - i,
        {
            proof {
                assert(self.tracks@.take(i + 1).drop_last() =~= self.tracks@.take(i as int));
            }
            let t = &self.tracks[i];
            if normalize_option(&t.content_id).is_none() {
                let ghost before = out@;
                out.push((t.id, t.file_path.clone()));
                proof {
                    assert(paths_view(out@) =~= paths_view(before).push((t.id, t.file_path@)));
                }
            }
            i += 1;
        }
        proof {
            assert(self.tracks@.take(self.tracks@.len() as int) =~= self.tracks@);
        }
        out
    }

    fn settle_content_ids(&mut self, hashes: &Hashes, keep: bool)
        ensures
            viewed(final(self).tracks@) == settled(
                viewed(old(self).tracks@),
                old(self).tracks@,
                hashes@,
                keep,
            ),
            (Library { tracks: old(self).tracks, ..*final(self) }) == *old(self),
    {
        let ghost rows = self.tracks@;
        let ghost whole = *self;
        let ghost goal = settled(viewed(rows), rows, hashes@, keep);
        let size: usize = self.tracks.len();
        let mut i: usize = 0;
        while i < size
            invariant
                i <= size,
                size == rows.len(),
                self.tracks@.len() == size,
                goal == settled(viewed(rows), rows, hashes@, keep),
                (Library { tracks: whole.tracks, ..*self }) == whole,
                forall|j: int| i <= j < size ==> #[trigger] self.tracks@[j] == rows[j],
                forall|j: int| 0 <= j < i ==> (#[trigger] self.tracks@[j])@ == goal[j],
            decreases size - i,
        {
            let ghost before = self.tracks@;
            let id = settle(&self.tracks[i], hashes);
            if !keep || id.is_some() {
                self.tracks[i].content_id = id;
            }
            proof {
                assert(self.tracks@[i as int]@ =~= goal[i as int]);
                assert forall|j: int| 0 <= j < i + 1 implies (#[trigger] self.tracks@[j])@
                    == goal[j] by {
                    if j < i {
                        assert(self.tracks@[j] == before[j]);
                    }
                }
            }
            i += 1;
        }
        proof {
            assert(viewed(self.tracks@) =~= goal);
        }
    }

    /// Gives every track a content id in canonical form: its own, or the one
    /// that was read from its file. A track whose file could not be read stays
    /// as it is.
    pub fn backfill_missing_content_ids(&mut self, hashes: &Hashes) -> (r: ContentIdBackfillStats)
        ensures
            backfills(*old(self), *final(self), hashes@, r),
    {
        let f = |t: &TrackRow| -> (b: bool)
            ensures
                b == is_normalized()(*t),
            {
                let c = normalize_option(&t.content_id);
                c.is_some() && !same_option(&t.content_id, &c)
            };
        let g = |t: &TrackRow| -> (b: bool)
            ensures
                b == is_hashed(hashes@)(*t),
            { normalize_option(&t.content_id).is_none() && hash_for(hashes, t.id).is_some() };
        let h = |t: &TrackRow| -> (b: bool)
            ensures
                b == is_failed(hashes@)(*t),
            { normalize_option(&t.content_id).is_none() && hash_for(hashes, t.id).is_none() };
        let stats = ContentIdBackfillStats {
            checked: self.tracks.len(),
            normalized: count_by(&self.tracks, f, Ghost(is_normalized())),
            hashed: count_by(&self.tracks, g, Ghost(is_hashed(hashes@))),
            failed: count_by(&self.tracks, h, Ghost(is_failed(hashes@))),
        };
        self.settle_content_ids(hashes, true);
        stats
    }
}

// ---------------------------------------------------------------------------
// Publishing
// ---------------------------------------------------------------------------

pub open spec fn exported_release(lib: Library, r: ReleaseRow) -> ExportReleaseView {
    ExportReleaseView {
        id: r.id,
        title: r.title@,
        year: r.year,
        release_type: r.release_type@,
        artist_names: names_in(release_refs(lib, r.id)),
    }
}

pub open spec fn exported_track(lib: Library, t: TrackRow, hashes: Seq<(i64, String)>) -> Option<
    ExportTrackView,
> {
    match first_where(lib.releases@, row_is_release(t.release_id)) {
        Some(i) => {
            let r = lib.releases@[i];
            Some(
                ExportTrackView {
                    id: t.id,
                    title: t.title@,
                    year: r.year,
                    duration: t.duration,
                    artist_names: names_in(track_refs(lib, t.id, false)),
                    featured_artist_names: names_in(track_refs(lib, t.id, true)),
                    release_title: r.title@,
                    release_type: r.release_type@,
                    track_number: t.track_number,
                    disc_number: t.disc_number,
                    content_id: settled_id(t, hashes),
                },
            )
        },
        None => None,
    }
}

pub open spec fn exported_tracks(lib: Library, rows: Seq<TrackRow>, hashes: Seq<(i64, String)>) -> Seq<
    ExportTrackView,
>
    decreases rows.len(),
{
    if rows.len() == 0 {
        Seq::empty()
    } else {
        let before = exported_tracks(lib, rows.drop_last(), hashes);
        match exported_track(lib, rows.last(), hashes) {
            Some(t) => before.push(t),
            None => before,
        }
    }
}

pub open spec fn artist_names_of(rows: Seq<ArtistRow>) -> Seq<(i64, Seq<char>)> {
    rows.map_values(|a: ArtistRow| (a.id, a.name@))
}

/// What is published, and what changes on the way.
pub open spec fn exports(
    a: Library,
    b: Library,
    hashes: Seq<(i64, String)>,
    r: FederationExport,
) -> bool {
    &&& r.artists@.map_values(|a: (i64, String)| (a.0, a.1@)) == artist_names_of(
        a.artists@,
    )
    &&& viewed(r.releases@) == a.releases@.map_values(
        |x: ReleaseRow| exported_release(a, x),
    )
    &&& viewed(r.tracks@) == exported_tracks(a, a.tracks@, hashes)
    &&& viewed(b.tracks@) == settled(
        viewed(a.tracks@),
        a.tracks@,
        hashes,
        false,
    )
    &&& (Library { tracks: a.tracks, ..b }) == a
}

impl Library {
    fn export_releases(&self) -> (r: Vec<ExportRelease>)
        ensures
            viewed(r@) == self.releases@.map_values(|x: ReleaseRow| exported_release(*self, x)),
    {
        let mut out: Vec<ExportRelease> = Vec::new();
        let mut i: usize = 0;
        while i < self.releases.len()
            invariant
                i <= self.releases@.len(),
                out@.len() == i,
                forall|j: int|
                    0 <= j < i ==> (#[trigger] out@[j])@ == exported_release(
                        *self,
                        self.releases@[j],
                    ),
            decreases self.releases@.len() - i,
        {
            let r = &self.releases[i];
            let refs = self.release_artists_of(r.id);
            proof {
                assert(ref_names(refs@) =~= names_in(refs_view(refs@)));
            }
            out.push(
                ExportRelease {
                    id: r.id,
                    title: r.title.clone(),
                    year: r.year,
                    release_type: r.release_type.clone(),
                    artist_names: names_of(&refs),
                },
            );
            i += 1;
        }
        proof {
            assert(viewed(out@) =~= self.releases@.map_values(
                |x: ReleaseRow| exported_release(*self, x),
            ));
        }
        out
    }

    fn export_track(&self, i: usize, hashes: &Hashes) -> (r: Option<ExportTrack>)
        requires
            i < self.tracks@.len(),
        ensures
            match r {
                Some(t) => exported_track(*self, self.tracks@[i as int], hashes@) == Some(t@),
                None => exported_track(*self, self.tracks@[i as int], hashes@) is None,
            },
    {
        let t = &self.tracks[i];
        let release_id = t.release_id;
        let f = |r: &ReleaseRow| -> (b: bool)
            ensures
                b == row_is_release(release_id)(*r),
            { r.id == release_id };
        match find_by(&self.releases, f, Ghost(row_is_release(release_id))) {
            Some(k) => {
                let r = &self.releases[k];
                let main = self.credit_refs(t.id, false);
                let featured = self.credit_refs(t.id, true);
                proof {
                    assert(ref_names(main@) =~= names_in(refs_view(main@)));
                    assert(ref_names(featured@) =~= names_in(refs_view(featured@)));
                }
                Some(
                    ExportTrack {
                        id: t.id,
                        title: t.title.clone(),
                        year: r.year,
                        duration: t.duration,
                        artist_names: names_of(&main),
                        featured_artist_names: names_of(&featured),
                        release_title: r.title.clone(),
                        release_type: r.release_type.clone(),
                        track_number: t.track_number,
                        disc_number: t.disc_number,
                        content_id: settle(t, hashes),
                    },
                )
            },
            None => None,
        }
    }

    /// Everything that is published: names and small facts, never files. On
    /// the way every track gets its content id in canonical form, or loses one
    /// that cannot be used.
    pub fn federation_export(&mut self, hashes: &Hashes) -> (r: FederationExport)
        ensures
            exports(*old(self), *final(self), hashes@, r),
    {
        let mut artists: Vec<(i64, String)> = Vec::new();
        let mut i: usize = 0;
        while i < self.artists.len()
            invariant
                i <= self.artists@.len(),
                *self == *old(self),
                artists@.len() == i,
                forall|j: int|
                    0 <= j < i ==> (#[trigger] artists@[j]).0 == self.artists@[j].id
                        && artists@[j].1@ == self.artists@[j].name@,
            decreases self.artists@.len() - i,
        {
            artists.push((self.artists[i].id, self.artists[i].name.clone()));
            i += 1;
        }
        proof {
            assert(artists@.map_values(|a: (i64, String)| (a.0, a.1@)) =~= artist_names_of(
                self.artists@,
            ));
        }
        let releases = self.export_releases();
        let mut tracks: Vec<ExportTrack> = Vec::new();
        let mut k: usize = 0;
        proof {
            assert(self.tracks@.take(0) =~= Seq::empty());
            assert(viewed(tracks@) =~= Seq::empty());
        }
        while k < self.tracks.len()
            invariant
                k <= self.tracks@.len(),
                *self == *old(self),
                viewed(tracks@) == exported_tracks(*self, self.tracks@.take(k as int), hashes@),
            decreases self.tracks@.len() - k,
        {
            proof {
                assert(self.tracks@.take(k + 1).drop_last() =~= self.tracks@.take(k as int));
            }
            if let Some(t) = self.export_track(k, hashes) {
                let ghost before = tracks@;
                let ghost v = t@;
                tracks.push(t);
                proof {
                    assert(viewed(tracks@) =~= viewed(before).push(v));
                }
            }
            k += 1;
        }
        proof {
            assert(self.tracks@.take(self.tracks@.len() as int) =~= self.tracks@);
        }
        self.settle_content_ids(hashes, false);
        FederationExport { artists, releases, tracks }
    }
}

// ---------------------------------------------------------------------------
// Counting
// ---------------------------------------------------------------------------

#[derive(Clone, Copy, PartialEq, Eq, Structural, Debug)]
pub struct LocalLibraryStats {
    pub artist_count: i64,
    pub release_count: i64,
    pub track_count: i64,
    pub audio_bytes: u64,
    pub tracks_without_size: i64,
    pub cover_bytes: u64,
    pub database_bytes: u64,
}

impl Default for LocalLibraryStats {
    fn default() -> (r: Self)
        ensures
            r.artist_count == 0,
            r.release_count == 0,
            r.track_count == 0,
            r.audio_bytes == 0,
            r.tracks_without_size == 0,
            r.cover_bytes == 0,
            r.database_bytes == 0,
    {
        LocalLibraryStats {
            artist_count: 0,
            release_count: 0,
            track_count: 0,
            audio_bytes: 0,
            tracks_without_size: 0,
            cover_bytes: 0,
            database_bytes: 0,
        }
    }
}

pub open spec fn capped(n: int) -> u64 {
    if n > u64::MAX {
        u64::MAX
    } else {
        n as u64
    }
}

fn sum_capped(a: u64, b: u64) -> (r: u64)
    ensures
        r == capped(a + b),
{
    a.saturating_add(b)
}

impl LocalLibraryStats {
    /// How much everything takes.
    pub fn total_bytes(&self) -> (r: u64)
        ensures
            r == capped(self.audio_bytes + self.cover_bytes + self.database_bytes),
    {
        sum_capped(sum_capped(self.audio_bytes, self.cover_bytes), self.database_bytes)
    }
}

/// The size of a database: the file and the two files beside it.
pub fn sqlite_database_size(file: u64, wal: u64, shm: u64) -> (r: u64)
    ensures
        r == capped(file + wal + shm),
{
    sum_capped(sum_capped(file, wal), shm)
}

/// The size of the audio of some tracks; one that is not known counts as
/// nothing.
pub open spec fn audio_size(rows: Seq<TrackRow>) -> int
    decreases rows.len(),
{
    if rows.len() == 0 {
        0
    } else {
        audio_size(rows.drop_last()) + match rows.last().file_size_bytes {
            Some(n) => if n >= 0 {
                n as int
            } else {
                0
            },
            None => 0,
        }
    }
}

pub open spec fn lacks_size() -> spec_fn(TrackRow) -> bool {
    |t: TrackRow| t.file_size_bytes is None
}

proof fn lemma_audio_size_grows(rows: Seq<TrackRow>, i: int)
    requires
        0 <= i <= rows.len(),
    ensures
        0 <= audio_size(rows.take(i)) <= audio_size(rows),
    decreases rows.len() - i,
{
    if i < rows.len() {
        lemma_audio_size_grows(rows, i + 1);
        assert(rows.take(i + 1).drop_last() =~= rows.take(i));
        lemma_audio_size_positive(rows.take(i));
    } else {
        assert(rows.take(i) =~= rows);
        lemma_audio_size_positive(rows);
    }
}

proof fn lemma_audio_size_positive(rows: Seq<TrackRow>)
    ensures
        0 <= audio_size(rows),
    decreases rows.len(),
{
    if rows.len() > 0 {
        lemma_audio_size_positive(rows.drop_last());
    }
}

/// What the library holds.
pub open spec fn counts_library(
    lib: Library,
    cover_bytes: u64,
    database_bytes: u64,
    r: LocalLibraryStats,
) -> bool {
    &&& r.artist_count == lib.artists@.len()
    &&& r.release_count == lib.releases@.len()
    &&& r.track_count == lib.tracks@.len()
    &&& r.audio_bytes == audio_size(lib.tracks@)
    &&& r.tracks_without_size == count_where(lib.tracks@, lacks_size())
    &&& r.cover_bytes == cover_bytes
    &&& r.database_bytes == database_bytes
}

impl Library {
    /// What the library holds. The sizes of the covers and of the database are
    /// those on disk.
    pub fn local_stats(&self, cover_bytes: u64, database_bytes: u64) -> (r: LocalLibraryStats)
        requires
            self.artists@.len() <= i64::MAX,
            self.releases@.len() <= i64::MAX,
            self.tracks@.len() <= i64::MAX,
            audio_size(self.tracks@) <= i64::MAX,
        ensures
            counts_library(*self, cover_bytes, database_bytes, r),
    {
        let mut audio_bytes: u64 = 0;
        let mut i: usize = 0;
        proof {
            assert(self.tracks@.take(0) =~= Seq::empty());
        }
        while i < self.tracks.len()
            invariant
                i <= self.tracks@.len(),
                audio_size(self.tracks@) <= i64::MAX,
                audio_bytes == audio_size(self.tracks@.take(i as int)),
            decreases self.tracks@.len() - i,
        {
            proof {
                assert(self.tracks@.take(i + 1).drop_last() =~= self.tracks@.take(i as int));
                lemma_audio_size_grows(self.tracks@, i + 1);
            }
            if let Some(n) = self.tracks[i].file_size_bytes {
                if n >= 0 {
                    audio_bytes = audio_bytes + n as u64;
                }
            }
            i += 1;
        }
        proof {
            assert(self.tracks@.take(self.tracks@.len() as int) =~= self.tracks@);
        }
        let f = |t: &TrackRow| -> (b: bool)
            ensures
                b == lacks_size()(*t),
            { t.file_size_bytes.is_none() };
        let unknown = count_by(&self.tracks, f, Ghost(lacks_size()));
        LocalLibraryStats {
            artist_count: self.artists.len() as i64,
            release_count: self.releases.len() as i64,
            track_count: self.tracks.len() as i64,
            audio_bytes,
            tracks_without_size: unknown as i64,
            cover_bytes,
            database_bytes,
        }
    }
}

} // verus!
