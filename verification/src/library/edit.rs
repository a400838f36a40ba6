//! Writing to the library: taking in a file, editing and deleting.

use crate::library::import::{FileOutcome, ImportOutcome, ImportView, TrackImport};
use crate::library::models::{ReleaseEdit, TrackEdit};
use crate::library::tables::{
    fresh_id, lemma_next_id_positive, next_id, ArtistRow, ArtistView, Library, ReleaseCredit,
    ReleaseRow, ReleaseView, TrackCredit, TrackRow, TrackRowView,
};
use crate::lists::{find_by, first_where, lemma_first_mapped, retain_by, viewed};
use crate::names::{key, key_of, normalizes};
use crate::text::{
    ascii_lowered, blank, is_blank, opt_view, same, same_no_case, trim, trimmed, views,
};
use vstd::prelude::*;

verus! {

/// The artists, the releases and the tracks with their credits.
#[verifier::ext_equal]
pub struct Shelf {
    pub artists: Seq<ArtistView>,
    pub releases: Seq<ReleaseView>,
    pub release_artists: Seq<ReleaseCredit>,
    pub tracks: Seq<TrackRowView>,
    pub track_artists: Seq<TrackCredit>,
}

pub open spec fn shelf(lib: Library) -> Shelf {
    Shelf {
        artists: viewed(lib.artists@),
        releases: viewed(lib.releases@),
        release_artists: lib.release_artists@,
        tracks: viewed(lib.tracks@),
        track_artists: lib.track_artists@,
    }
}

/// Whether nothing but the shelf differs.
pub open spec fn same_but_shelf(a: Library, b: Library) -> bool {
    a == (Library {
        artists: a.artists,
        releases: a.releases,
        release_artists: a.release_artists,
        tracks: a.tracks,
        track_artists: a.track_artists,
        ..b
    })
}

#[derive(Clone, Copy, PartialEq, Eq, Structural, Debug)]
pub enum EditError {
    EmptyName,
    NotFound,
}

impl EditError {
    /// The message for the user.
    pub fn message(&self) -> (r: String)
        ensures
            r@ == match *self {
                EditError::EmptyName => "artist name is empty"@,
                EditError::NotFound => "FOREIGN KEY constraint failed"@,
            },
    {
        match self {
            EditError::EmptyName => "artist name is empty".to_owned(),
            EditError::NotFound => "FOREIGN KEY constraint failed".to_owned(),
        }
    }
}

// ---------------------------------------------------------------------------
// Ids
// ---------------------------------------------------------------------------

pub open spec fn artist_ids(s: Seq<ArtistView>) -> Seq<i64> {
    s.map_values(|a: ArtistView| a.id)
}

pub open spec fn release_ids(s: Seq<ReleaseView>) -> Seq<i64> {
    s.map_values(|a: ReleaseView| a.id)
}

pub open spec fn track_ids(s: Seq<TrackRowView>) -> Seq<i64> {
    s.map_values(|a: TrackRowView| a.id)
}

fn new_artist_id(v: &Vec<ArtistRow>) -> (r: i64)
    requires
        next_id(artist_ids(viewed(v@))) <= i64::MAX,
    ensures
        r == next_id(artist_ids(viewed(v@))),
{
    let mut ids: Vec<i64> = Vec::new();
    let mut i: usize = 0;
    while i < v.len()
        invariant
            i <= v@.len(),
            ids@.len() == i,
            forall|j: int| 0 <= j < i ==> #[trigger] ids@[j] == v@[j].id,
        decreases v@.len() - i,
    {
        ids.push(v[i].id);
        i += 1;
    }
    proof {
        assert(ids@ =~= artist_ids(viewed(v@)));
    }
    fresh_id(&ids)
}

fn new_release_id(v: &Vec<ReleaseRow>) -> (r: i64)
    requires
        next_id(release_ids(viewed(v@))) <= i64::MAX,
    ensures
        r == next_id(release_ids(viewed(v@))),
{
    let mut ids: Vec<i64> = Vec::new();
    let mut i: usize = 0;
    while i < v.len()
        invariant
            i <= v@.len(),
            ids@.len() == i,
            forall|j: int| 0 <= j < i ==> #[trigger] ids@[j] == v@[j].id,
        decreases v@.len() - i,
    {
        ids.push(v[i].id);
        i += 1;
    }
    proof {
        assert(ids@ =~= release_ids(viewed(v@)));
    }
    fresh_id(&ids)
}

fn new_track_id(v: &Vec<TrackRow>) -> (r: i64)
    requires
        next_id(track_ids(viewed(v@))) <= i64::MAX,
    ensures
        r == next_id(track_ids(viewed(v@))),
{
    let mut ids: Vec<i64> = Vec::new();
    let mut i: usize = 0;
    while i < v.len()
        invariant
            i <= v@.len(),
            ids@.len() == i,
            forall|j: int| 0 <= j < i ==> #[trigger] ids@[j] == v@[j].id,
        decreases v@.len() - i,
    {
        ids.push(v[i].id);
        i += 1;
    }
    proof {
        assert(ids@ =~= track_ids(viewed(v@)));
    }
    fresh_id(&ids)
}

// ---------------------------------------------------------------------------
// Artists by name
// ---------------------------------------------------------------------------

/// The artists whose name has a key.
pub open spec fn is_named<F: Fn(&str) -> String>(f: F, k: Seq<char>) -> spec_fn(ArtistView) -> bool {
    |a: ArtistView| key_of(f, a.name) == k
}

pub open spec fn row_is_named<F: Fn(&str) -> String>(f: F, k: Seq<char>) -> spec_fn(ArtistRow) -> bool {
    |a: ArtistRow| key_of(f, a.name@) == k
}

/// The place of the artist with a name.
pub open spec fn artist_place<F: Fn(&str) -> String>(f: F, s: Seq<ArtistView>, name: Seq<char>) -> Option<
    int,
> {
    first_where(s, is_named(f, key_of(f, name)))
}

/// The id of the artist with a name, or the one that it would get.
pub open spec fn artist_id<F: Fn(&str) -> String>(f: F, s: Seq<ArtistView>, name: Seq<char>) -> int {
    match artist_place(f, s, trimmed(name)) {
        Some(i) => s[i].id as int,
        None => next_id(artist_ids(s)),
    }
}

/// The artists with the one that has a name, which is new where there is none.
pub open spec fn with_artist_named<F: Fn(&str) -> String>(f: F, s: Seq<ArtistView>, name: Seq<char>) -> Seq<
    ArtistView,
> {
    match artist_place(f, s, trimmed(name)) {
        Some(i) => s,
        None => s.push(
            ArtistView {
                id: next_id(artist_ids(s)) as i64,
                name: trimmed(name),
                image_path: None,
            },
        ),
    }
}

pub(crate) fn place_of_artist<F: Fn(&str) -> String>(f: &F, artists: &Vec<ArtistRow>, name: &str) -> (r:
    Option<usize>)
    requires
        normalizes(*f),
    ensures
        match r {
            Some(i) => artist_place(*f, viewed(artists@), name@) == Some(i as int) && i
                < artists@.len(),
            None => artist_place(*f, viewed(artists@), name@) is None,
        },
{
    let k = key(f, name);
    let g = |a: &ArtistRow| -> (b: bool)
        ensures
            b == row_is_named(*f, k@)(*a),
        { same(key(f, a.name.as_str()).as_str(), k.as_str()) };
    let found = find_by(artists, g, Ghost(row_is_named(*f, k@)));
    proof {
        lemma_first_mapped(
            artists@,
            |a: ArtistRow| a@,
            row_is_named(*f, k@),
            is_named(*f, k@),
        );
    }
    found
}

/// How many ids are free for new artists.
pub open spec fn room_for(s: Seq<ArtistView>, n: int) -> bool {
    next_id(artist_ids(s)) + n <= i64::MAX
}

proof fn lemma_one_more_id<F: Fn(&str) -> String>(f: F, s: Seq<ArtistView>, name: Seq<char>)
    requires
        room_for(s, 1),
    ensures
        next_id(artist_ids(s)) <= next_id(artist_ids(with_artist_named(f, s, name))) <= next_id(
            artist_ids(s),
        ) + 1,
{
    let w = with_artist_named(f, s, name);
    if artist_place(f, s, trimmed(name)) is None {
        assert(artist_ids(w).drop_last() =~= artist_ids(s));
        assert(artist_ids(w).last() == next_id(artist_ids(s)) as i64);
    }
}

/// Finds the artist with a name, or takes it in.
pub(crate) fn find_or_create_artist<F: Fn(&str) -> String>(
    f: &F,
    artists: &mut Vec<ArtistRow>,
    name: &str,
) -> (r: i64)
    requires
        normalizes(*f),
        room_for(viewed(old(artists)@), 1),
    ensures
        viewed(final(artists)@) == with_artist_named(*f, viewed(old(artists)@), name@),
        r == artist_id(*f, viewed(old(artists)@), name@),
{
    let clean = trim(name);
    match place_of_artist(f, artists, clean.as_str()) {
        Some(i) => artists[i].id,
        None => {
            let ghost before = artists@;
            let id = new_artist_id(artists);
            artists.push(ArtistRow { id, name: clean, image_path: None });
            proof {
                assert(viewed(artists@) =~= viewed(before).push(artists@.last()@));
            }
            id
        },
    }
}

// ---------------------------------------------------------------------------
// Credits
// ---------------------------------------------------------------------------

pub open spec fn is_release_credit(release_id: i64, artist_id: i64) -> spec_fn(ReleaseCredit) -> bool {
    |c: ReleaseCredit| c.release_id == release_id && c.artist_id == artist_id
}

pub open spec fn is_track_credit(track_id: i64, artist_id: i64, featured: bool) -> spec_fn(
    TrackCredit,
) -> bool {
    |c: TrackCredit| c.track_id == track_id && c.artist_id == artist_id && c.featured == featured
}

pub open spec fn with_release_credit(s: Seq<ReleaseCredit>, c: ReleaseCredit) -> Seq<ReleaseCredit> {
    if first_where(s, is_release_credit(c.release_id, c.artist_id)) is Some {
        s
    } else {
        s.push(c)
    }
}

pub open spec fn with_track_credit(s: Seq<TrackCredit>, c: TrackCredit) -> Seq<TrackCredit> {
    if first_where(s, is_track_credit(c.track_id, c.artist_id, c.featured)) is Some {
        s
    } else {
        s.push(c)
    }
}

/// A shelf after a release was credited to several artists by name. Each has
/// the place of its name; one who is credited already keeps the place.
pub open spec fn release_credited<F: Fn(&str) -> String>(
    f: F,
    s: Shelf,
    release_id: i64,
    names: Seq<Seq<char>>,
) -> Shelf
    decreases names.len(),
{
    if names.len() == 0 {
        s
    } else {
        let b = release_credited(f, s, release_id, names.drop_last());
        Shelf {
            artists: with_artist_named(f, b.artists, names.last()),
            release_artists: with_release_credit(
                b.release_artists,
                ReleaseCredit {
                    release_id,
                    artist_id: artist_id(f, b.artists, names.last()) as i64,
                    position: (names.len() - 1) as i64,
                },
            ),
            ..b
        }
    }
}

/// A shelf after a track was credited to several artists by name.
pub open spec fn track_credited<F: Fn(&str) -> String>(
    f: F,
    s: Shelf,
    track_id: i64,
    names: Seq<Seq<char>>,
    featured: bool,
) -> Shelf
    decreases names.len(),
{
    if names.len() == 0 {
        s
    } else {
        let b = track_credited(f, s, track_id, names.drop_last(), featured);
        Shelf {
            artists: with_artist_named(f, b.artists, names.last()),
            track_artists: with_track_credit(
                b.track_artists,
                TrackCredit {
                    track_id,
                    artist_id: artist_id(f, b.artists, names.last()) as i64,
                    featured,
                    position: (names.len() - 1) as i64,
                },
            ),
            ..b
        }
    }
}

fn link_release_artists<F: Fn(&str) -> String>(
    f: &F,
    lib: &mut Library,
    release_id: i64,
    names: &Vec<String>,
)
    requires
        normalizes(*f),
        room_for(viewed(old(lib).artists@), names@.len() as int),
    ensures
        shelf(*final(lib)) == release_credited(*f, shelf(*old(lib)), release_id, views(names@)),
        same_but_shelf(*final(lib), *old(lib)),
        next_id(artist_ids(viewed(final(lib).artists@))) <= next_id(
            artist_ids(viewed(old(lib).artists@)),
        ) + names@.len(),
{
    let ghost start = *lib;
    let ghost all = views(names@);
    let mut i: usize = 0;
    proof {
        assert(all.take(0) =~= Seq::empty());
        lemma_next_id_positive(artist_ids(viewed(lib.artists@)));
    }
    while i < names.len()
        invariant
            i <= names@.len(),
            names@.len() <= i64::MAX,
            all == views(names@),
            normalizes(*f),
            same_but_shelf(*lib, start),
            shelf(*lib) == release_credited(*f, shelf(start), release_id, all.take(i as int)),
            room_for(viewed(lib.artists@), names@.len() - i),
            next_id(artist_ids(viewed(lib.artists@))) <= next_id(artist_ids(viewed(start.artists@)))
                + i,
        decreases names@.len() - i,
    {
        let ghost b = *lib;
        proof {
            assert(all.take(i + 1).drop_last() =~= all.take(i as int));
            assert(all.take(i + 1).last() == names@[i as int]@);
            lemma_one_more_id(*f, viewed(b.artists@), names@[i as int]@);
        }
        let artist_id = find_or_create_artist(f, &mut lib.artists, names[i].as_str());
        let g = |c: &ReleaseCredit| -> (b: bool)
            ensures
                b == is_release_credit(release_id, artist_id)(*c),
            { c.release_id == release_id && c.artist_id == artist_id };
        if find_by(
            &lib.release_artists,
            g,
            Ghost(is_release_credit(release_id, artist_id)),
        ).is_none() {
            lib.release_artists.push(ReleaseCredit { release_id, artist_id, position: i as i64 });
        }
        proof {
            assert(shelf(*lib) =~= release_credited(
                *f,
                shelf(start),
                release_id,
                all.take(i + 1),
            ));
        }
        i += 1;
    }
    proof {
        assert(all.take(names@.len() as int) =~= all);
    }
}

/// Credits a track to artists by name.
fn link_track_artists<F: Fn(&str) -> String>(
    f: &F,
    lib: &mut Library,
    track_id: i64,
    names: &Vec<String>,
    featured: bool,
)
    requires
        normalizes(*f),
        room_for(viewed(old(lib).artists@), names@.len() as int),
    ensures
        shelf(*final(lib)) == track_credited(
            *f,
            shelf(*old(lib)),
            track_id,
            views(names@),
            featured,
        ),
        same_but_shelf(*final(lib), *old(lib)),
        next_id(artist_ids(viewed(final(lib).artists@))) <= next_id(
            artist_ids(viewed(old(lib).artists@)),
        ) + names@.len(),
{
    let ghost start = *lib;
    let ghost all = views(names@);
    let mut i: usize = 0;
    proof {
        assert(all.take(0) =~= Seq::empty());
        lemma_next_id_positive(artist_ids(viewed(lib.artists@)));
    }
    while i < names.len()
        invariant
            i <= names@.len(),
            names@.len() <= i64::MAX,
            all == views(names@),
            normalizes(*f),
            same_but_shelf(*lib, start),
            shelf(*lib) == track_credited(
                *f,
                shelf(start),
                track_id,
                all.take(i as int),
                featured,
            ),
            room_for(viewed(lib.artists@), names@.len() - i),
            next_id(artist_ids(viewed(lib.artists@))) <= next_id(artist_ids(viewed(start.artists@)))
                + i,
        decreases names@.len() - i,
    {
        let ghost b = *lib;
        proof {
            assert(all.take(i + 1).drop_last() =~= all.take(i as int));
            assert(all.take(i + 1).last() == names@[i as int]@);
            lemma_one_more_id(*f, viewed(b.artists@), names@[i as int]@);
        }
        let artist_id = find_or_create_artist(f, &mut lib.artists, names[i].as_str());
        let g = |c: &TrackCredit| -> (b: bool)
            ensures
                b == is_track_credit(track_id, artist_id, featured)(*c),
            { c.track_id == track_id && c.artist_id == artist_id && c.featured == featured };
        if find_by(
            &lib.track_artists,
            g,
            Ghost(is_track_credit(track_id, artist_id, featured)),
        ).is_none() {
            lib.track_artists.push(
                TrackCredit { track_id, artist_id, featured, position: i as i64 },
            );
        }
        proof {
            assert(shelf(*lib) =~= track_credited(
                *f,
                shelf(start),
                track_id,
                all.take(i + 1),
                featured,
            ));
        }
        i += 1;
    }
    proof {
        assert(all.take(names@.len() as int) =~= all);
    }
}

/// Whether one of several names is blank.
pub open spec fn any_blank(names: Seq<Seq<char>>) -> bool {
    exists|i: int| 0 <= i < names.len() && is_blank(#[trigger] names[i])
}

fn has_blank(names: &Vec<String>) -> (r: bool)
    ensures
        r == any_blank(views(names@)),
{
    let ghost all = views(names@);
    let mut i: usize = 0;
    while i < names.len()
        invariant
            i <= names@.len(),
            all == views(names@),
            forall|j: int| 0 <= j < i ==> !is_blank(#[trigger] all[j]),
        decreases names@.len() - i,
    {
        proof {
            assert(all[i as int] == names@[i as int]@);
        }
        if blank(names[i].as_str()) {
            return true;
        }
        i += 1;
    }
    false
}

// ---------------------------------------------------------------------------
// Taking in a file
// ---------------------------------------------------------------------------

/// The artist that a release is found by.
pub open spec fn main_album_artist(import: ImportView) -> Seq<char> {
    if import.album_artists.len() > 0 {
        import.album_artists[0]
    } else {
        "Unknown Artist"@
    }
}

/// The releases of an artist with a title; the case of ASCII letters does not
/// matter.
pub open spec fn is_release_of(credits: Seq<ReleaseCredit>, title: Seq<char>, artist_id: i64) -> spec_fn(
    ReleaseView,
) -> bool {
    |r: ReleaseView|
        ascii_lowered(r.title) == ascii_lowered(title) && first_where(
            credits,
            is_release_credit(r.id, artist_id),
        ) is Some
}

pub open spec fn row_is_release_of(credits: Seq<ReleaseCredit>, title: Seq<char>, artist_id: i64) -> spec_fn(
    ReleaseRow,
) -> bool {
    |r: ReleaseRow| is_release_of(credits, title, artist_id)(r@)
}

/// The place of the release that a file belongs to.
pub open spec fn import_release<F: Fn(&str) -> String>(f: F, s: Shelf, import: ImportView) -> Option<int> {
    first_where(
        s.releases,
        is_release_of(
            s.release_artists,
            import.release_title,
            artist_id(f, s.artists, main_album_artist(import)) as i64,
        ),
    )
}

/// Whether a name that is needed to take a file in is blank.
pub open spec fn lacks_name<F: Fn(&str) -> String>(f: F, s: Shelf, import: ImportView) -> bool {
    ||| is_blank(main_album_artist(import))
    ||| import_release(f, s, import) is None && any_blank(import.album_artists)
    ||| any_blank(import.artists)
    ||| any_blank(import.featured_artists)
}

/// The shelf with the release of a file, and the id of the release. A release
/// that is there gets the year if it has none.
pub open spec fn with_release_of<F: Fn(&str) -> String>(f: F, s: Shelf, import: ImportView) -> (
    Shelf,
    i64,
) {
    let named = Shelf {
        artists: with_artist_named(f, s.artists, main_album_artist(import)),
        ..s
    };
    match import_release(f, s, import) {
        Some(i) => {
            let r = s.releases[i];
            (
                Shelf {
                    releases: s.releases.update(
                        i,
                        ReleaseView {
                            year: if r.year is Some {
                                r.year
                            } else {
                                import.year
                            },
                            ..r
                        },
                    ),
                    ..named
                },
                r.id,
            )
        },
        None => {
            let id = next_id(release_ids(s.releases)) as i64;
            let fresh = Shelf {
                releases: s.releases.push(
                    ReleaseView {
                        id,
                        title: import.release_title,
                        release_type: "album"@,
                        year: import.year,
                        cover_path: None,
                    },
                ),
                ..named
            };
            (release_credited(f, fresh, id, import.album_artists), id)
        },
    }
}

pub open spec fn is_file(path: Seq<char>) -> spec_fn(TrackRowView) -> bool {
    |t: TrackRowView| t.file_path == path
}

pub open spec fn row_is_file(path: Seq<char>) -> spec_fn(TrackRow) -> bool {
    |t: TrackRow| t.file_path@ == path
}

pub open spec fn of_other_track(id: i64) -> spec_fn(TrackCredit) -> bool {
    |c: TrackCredit| c.track_id != id
}

/// The row of a track that a file gives.
pub open spec fn imported_row(
    id: i64,
    release_id: i64,
    content_id: Option<Seq<char>>,
    import: ImportView,
) -> TrackRowView {
    TrackRowView {
        id,
        title: import.title,
        track_number: import.track_number,
        disc_number: import.disc_number,
        duration: import.duration,
        release_id,
        file_path: import.file_path,
        content_id,
        audio_format: import.audio_format,
        audio_bitrate: import.audio_bitrate,
        audio_sample_rate: import.audio_sample_rate,
        audio_bit_depth: import.audio_bit_depth,
        file_size_bytes: import.file_size_bytes,
    }
}

/// The shelf with the track of a file, its id, and whether it is new. A track
/// is known by the path of its file; one that is there keeps its content id
/// and loses its credits.
pub open spec fn with_track_of(s: Shelf, release_id: i64, import: ImportView) -> (Shelf, i64, bool) {
    match first_where(s.tracks, is_file(import.file_path)) {
        Some(i) => {
            let t = s.tracks[i];
            (
                Shelf {
                    tracks: s.tracks.update(
                        i,
                        imported_row(t.id, release_id, t.content_id, import),
                    ),
                    track_artists: s.track_artists.filter(of_other_track(t.id)),
                    ..s
                },
                t.id,
                false,
            )
        },
        None => {
            let id = next_id(track_ids(s.tracks)) as i64;
            (
                Shelf { tracks: s.tracks.push(imported_row(id, release_id, None, import)), ..s },
                id,
                true,
            )
        },
    }
}

/// The shelf after a file was taken in, the id of the track, whether it is
/// new, and the id of its release.
pub open spec fn upserted<F: Fn(&str) -> String>(f: F, s: Shelf, import: ImportView) -> (
    Shelf,
    i64,
    bool,
    i64,
) {
    let (r, release_id) = with_release_of(f, s, import);
    let (t, track_id, created) = with_track_of(r, release_id, import);
    (
        track_credited(
            f,
            track_credited(f, t, track_id, import.artists, false),
            track_id,
            import.featured_artists,
            true,
        ),
        track_id,
        created,
        release_id,
    )
}

/// What a run notes of a file that could not be taken in.
pub open spec fn notes_failure(
    before: ImportOutcome,
    after: ImportOutcome,
    file: String,
    message: Seq<char>,
) -> bool {
    &&& after.added == before.added
    &&& after.updated == before.updated
    &&& after.failed@.len() == before.failed@.len() + 1
    &&& after.failed@.drop_last() =~= before.failed@
    &&& after.failed@.last().0 == file
    &&& after.failed@.last().1@ == message
}

/// What taking in a file gave.
#[derive(Clone, Copy, PartialEq, Eq, Structural, Debug)]
pub struct Upserted {
    pub track_id: i64,
    pub created: bool,
    pub release_id: i64,
    /// Whether the release has no cover yet.
    pub wants_cover: bool,
}

pub open spec fn is_release(id: i64) -> spec_fn(ReleaseView) -> bool {
    |r: ReleaseView| r.id == id
}

pub open spec fn row_is_release(id: i64) -> spec_fn(ReleaseRow) -> bool {
    |r: ReleaseRow| r.id == id
}

/// Whether a release has no cover.
pub open spec fn lacks_cover(s: Seq<ReleaseView>, id: i64) -> bool {
    match first_where(s, is_release(id)) {
        Some(i) => s[i].cover_path is None,
        None => true,
    }
}

/// Whether the tables have ids left for everything that a file can bring.
pub open spec fn can_take_in(s: Shelf, import: ImportView) -> bool {
    &&& room_for(
        s.artists,
        1int + import.album_artists.len() + import.artists.len() + import.featured_artists.len(),
    )
    &&& next_id(release_ids(s.releases)) <= i64::MAX
    &&& next_id(track_ids(s.tracks)) <= i64::MAX
}

fn release_row_of(
    releases: &Vec<ReleaseRow>,
    credits: &Vec<ReleaseCredit>,
    title: &str,
    artist_id: i64,
) -> (r: Option<usize>)
    ensures
        match r {
            Some(i) => first_where(viewed(releases@), is_release_of(credits@, title@, artist_id))
                == Some(i as int) && i < releases@.len(),
            None => first_where(
                viewed(releases@),
                is_release_of(credits@, title@, artist_id),
            ) is None,
        },
{
    let g = |r: &ReleaseRow| -> (b: bool)
        ensures
            b == row_is_release_of(credits@, title@, artist_id)(*r),
        { same_no_case(r.title.as_str(), title) && has_release_credit(credits, r.id, artist_id) };
    let found = find_by(releases, g, Ghost(row_is_release_of(credits@, title@, artist_id)));
    proof {
        lemma_first_mapped(
            releases@,
            |r: ReleaseRow| r@,
            row_is_release_of(credits@, title@, artist_id),
            is_release_of(credits@, title@, artist_id),
        );
    }
    found
}

pub(crate) fn has_release_credit(credits: &Vec<ReleaseCredit>, release_id: i64, artist_id: i64) -> (r: bool)
    ensures
        r == (first_where(credits@, is_release_credit(release_id, artist_id)) is Some),
{
    let h = |c: &ReleaseCredit| -> (b: bool)
        ensures
            b == is_release_credit(release_id, artist_id)(*c),
        { c.release_id == release_id && c.artist_id == artist_id };
    find_by(credits, h, Ghost(is_release_credit(release_id, artist_id))).is_some()
}

fn known_artist_id<F: Fn(&str) -> String>(f: &F, artists: &Vec<ArtistRow>, name: &str) -> (r: i64)
    requires
        normalizes(*f),
        room_for(viewed(artists@), 0),
    ensures
        r == artist_id(*f, viewed(artists@), name@),
{
    let clean = trim(name);
    match place_of_artist(f, artists, clean.as_str()) {
        Some(i) => artists[i].id,
        None => new_artist_id(artists),
    }
}

fn first_album_artist(import: &TrackImport) -> (r: String)
    ensures
        r@ == main_album_artist(import@),
{
    if import.album_artists.len() > 0 {
        import.album_artists[0].clone()
    } else {
        "Unknown Artist".to_owned()
    }
}

fn put_release<F: Fn(&str) -> String>(f: &F, lib: &mut Library, import: &TrackImport) -> (r: i64)
    requires
        normalizes(*f),
        can_take_in(shelf(*old(lib)), import@),
    ensures
        (shelf(*final(lib)), r) == with_release_of(*f, shelf(*old(lib)), import@),
        same_but_shelf(*final(lib), *old(lib)),
        next_id(artist_ids(viewed(final(lib).artists@))) <= next_id(
            artist_ids(viewed(old(lib).artists@)),
        ) + 1 + import.album_artists@.len(),
{
    let ghost s = shelf(*lib);
    let name = first_album_artist(import);
    proof {
        lemma_one_more_id(*f, viewed(lib.artists@), name@);
    }
    let artist = find_or_create_artist(f, &mut lib.artists, name.as_str());
    match release_row_of(
        &lib.releases,
        &lib.release_artists,
        import.release_title.as_str(),
        artist,
    ) {
        Some(i) => {
            let id = lib.releases[i].id;
            if lib.releases[i].year.is_none() {
                let title = lib.releases[i].title.clone();
                let release_type = lib.releases[i].release_type.clone();
                let cover_path = lib.releases[i].cover_path.clone();
                lib.releases[i] = ReleaseRow { id, title, release_type, year: import.year, cover_path };
            }
            proof {
                let w = with_release_of(*f, s, import@).0;
                assert(shelf(*lib).releases =~= w.releases);
                assert(shelf(*lib) =~= w);
            }
            id
        },
        None => {
            let id = new_release_id(&lib.releases);
            let ghost rows = lib.releases@;
            lib.releases.push(
                ReleaseRow {
                    id,
                    title: import.release_title.clone(),
                    release_type: "album".to_owned(),
                    year: import.year,
                    cover_path: None,
                },
            );
            proof {
                let v = ReleaseView {
                    id,
                    title: import@.release_title,
                    release_type: "album"@,
                    year: import@.year,
                    cover_path: None,
                };
                assert(viewed(lib.releases@) =~= viewed(rows).push(v));
                let named = Shelf {
                    artists: with_artist_named(*f, s.artists, main_album_artist(import@)),
                    ..s
                };
                assert(shelf(*lib) =~= (Shelf { releases: s.releases.push(v), ..named }));
            }
            link_release_artists(f, lib, id, &import.album_artists);
            id
        },
    }
}

proof fn lemma_release_credits_only<F: Fn(&str) -> String>(
    f: F,
    s: Shelf,
    release_id: i64,
    names: Seq<Seq<char>>,
)
    ensures
        ({
            let r = release_credited(f, s, release_id, names);
            &&& r.releases == s.releases
            &&& r.tracks == s.tracks
            &&& r.track_artists == s.track_artists
        }),
    decreases names.len(),
{
    if names.len() > 0 {
        lemma_release_credits_only(f, s, release_id, names.drop_last());
    }
}

proof fn lemma_track_credits_only<F: Fn(&str) -> String>(
    f: F,
    s: Shelf,
    track_id: i64,
    names: Seq<Seq<char>>,
    featured: bool,
)
    ensures
        ({
            let r = track_credited(f, s, track_id, names, featured);
            &&& r.releases == s.releases
            &&& r.tracks == s.tracks
            &&& r.release_artists == s.release_artists
        }),
    decreases names.len(),
{
    if names.len() > 0 {
        lemma_track_credits_only(f, s, track_id, names.drop_last(), featured);
    }
}

fn put_track(lib: &mut Library, release_id: i64, import: &TrackImport) -> (r: (i64, bool))
    requires
        next_id(track_ids(viewed(old(lib).tracks@))) <= i64::MAX,
    ensures
        (shelf(*final(lib)), r.0, r.1) == with_track_of(shelf(*old(lib)), release_id, import@),
        same_but_shelf(*final(lib), *old(lib)),
        final(lib).artists == old(lib).artists,
{
    let ghost s = shelf(*lib);
    let ghost rows = lib.tracks@;
    let path = import.file_path.as_str();
    let g = |t: &TrackRow| -> (b: bool)
        ensures
            b == row_is_file(path@)(*t),
        { same(t.file_path.as_str(), path) };
    let found = find_by(&lib.tracks, g, Ghost(row_is_file(path@)));
    proof {
        lemma_first_mapped(rows, |t: TrackRow| t@, row_is_file(path@), is_file(path@));
    }
    match found {
        Some(i) => {
            let id = lib.tracks[i].id;
            let content_id = lib.tracks[i].content_id.clone();
            lib.tracks[i] = track_row(id, release_id, content_id, import);
            let h = |c: &TrackCredit| -> (b: bool)
                ensures
                    b == of_other_track(id)(*c),
                { c.track_id != id };
            retain_by(&mut lib.track_artists, h, Ghost(of_other_track(id)));
            proof {
                let w = with_track_of(s, release_id, import@).0;
                assert(shelf(*lib).tracks =~= w.tracks);
                assert(shelf(*lib) =~= w);
            }
            (id, false)
        },
        None => {
            let id = new_track_id(&lib.tracks);
            lib.tracks.push(track_row(id, release_id, None, import));
            proof {
                let w = with_track_of(s, release_id, import@).0;
                assert(shelf(*lib).tracks =~= w.tracks);
                assert(shelf(*lib) =~= w);
            }
            (id, true)
        },
    }
}

fn track_row(id: i64, release_id: i64, content_id: Option<String>, import: &TrackImport) -> (r: TrackRow)
    ensures
        r@ == imported_row(id, release_id, opt_view(content_id), import@),
{
    TrackRow {
        id,
        title: import.title.clone(),
        track_number: import.track_number,
        disc_number: import.disc_number,
        duration: import.duration,
        release_id,
        file_path: import.file_path.clone(),
        content_id,
        audio_format: import.audio_format.clone(),
        audio_bitrate: import.audio_bitrate,
        audio_sample_rate: import.audio_sample_rate,
        audio_bit_depth: import.audio_bit_depth,
        file_size_bytes: import.file_size_bytes,
    }
}

pub(crate) fn release_at(releases: &Vec<ReleaseRow>, id: i64) -> (r: Option<usize>)
    ensures
        match r {
            Some(i) => first_where(viewed(releases@), is_release(id)) == Some(i as int) && i
                < releases@.len() && releases@[i as int].id == id,
            None => first_where(viewed(releases@), is_release(id)) is None,
        },
{
    let g = |r: &ReleaseRow| -> (b: bool)
        ensures
            b == row_is_release(id)(*r),
        { r.id == id };
    let found = find_by(releases, g, Ghost(row_is_release(id)));
    proof {
        lemma_first_mapped(releases@, |r: ReleaseRow| r@, row_is_release(id), is_release(id));
    }
    found
}

/// What taking a file in changes.
pub open spec fn takes_in<F: Fn(&str) -> String>(
    f: F,
    a: Library,
    b: Library,
    import: ImportView,
    r: Result<Upserted, EditError>,
) -> bool {
    &&& r is Err == lacks_name(f, shelf(a), import)
    &&& match r {
        Err(e) => e == EditError::EmptyName && b == a,
        Ok(u) => {
            &&& (shelf(b), u.track_id, u.created, u.release_id) == upserted(
                f,
                shelf(a),
                import,
            )
            &&& u.wants_cover == lacks_cover(viewed(b.releases@), u.release_id)
            &&& same_but_shelf(b, a)
        },
    }
}

/// What editing a track changes.
pub open spec fn edits_track<F: Fn(&str) -> String>(
    f: F,
    a: Library,
    b: Library,
    id: i64,
    edit: TrackEdit,
    r: Result<(), EditError>,
) -> bool {
    &&& r == credit_check(
        has_track(shelf(a), id),
        views(edit.artists@) + views(edit.featured_artists@),
    )
    &&& match r {
        Err(e) => b == a,
        Ok(_) => {
            &&& shelf(b) == track_edited(f, shelf(a), id, edit)
            &&& same_but_shelf(b, a)
        },
    }
}

/// What editing a release changes.
pub open spec fn edits_release<F: Fn(&str) -> String>(
    f: F,
    a: Library,
    b: Library,
    id: i64,
    edit: ReleaseEdit,
    r: Result<(), EditError>,
) -> bool {
    &&& r == credit_check(
        has_release(shelf(a), id),
        views(edit.artists@),
    )
    &&& match r {
        Err(e) => b == a,
        Ok(_) => {
            &&& shelf(b) == release_edited(f, shelf(a), id, edit)
            &&& same_but_shelf(b, a)
        },
    }
}

/// What naming an artist changes.
pub open spec fn edits_artist(
    a: Library,
    b: Library,
    id: i64,
    name: Seq<char>,
    image_path: Option<Seq<char>>,
    r: Result<(), String>,
) -> bool {
    &&& r is Err == (first_where(
        viewed(a.artists@),
        is_other_with_name(id, name),
    ) is Some)
    &&& match r {
        Err(e) => e@ == "an artist named \""@ + name + "\" already exists"@ && b
            == a,
        Ok(_) => {
            &&& viewed(b.artists@) == renamed_artist(
                viewed(a.artists@),
                id,
                name,
                image_path,
            )
            &&& (Library { artists: a.artists, ..b }) == a
        },
    }
}

/// What setting the cover of a release changes.
pub open spec fn sets_cover(
    a: Library,
    b: Library,
    release_id: i64,
    cover_path: Seq<char>,
) -> bool {
    &&& viewed(b.releases@) == with_cover(
        viewed(a.releases@),
        release_id,
        Some(cover_path),
    )
    &&& (Library { releases: a.releases, ..b }) == a
}

impl Library {
    /// Takes a file in: its artists, its release and the track, which is known
    /// by the path of the file. Where a name that is needed is blank, nothing
    /// changes.
    pub fn upsert_track<F: Fn(&str) -> String>(&mut self, f: &F, import: &TrackImport) -> (r: Result<
        Upserted,
        EditError,
    >)
        requires
            normalizes(*f),
            can_take_in(shelf(*old(self)), import@),
        ensures
            takes_in(*f, *old(self), *final(self), import@, r),
    {
        let ghost s = shelf(*self);
        let name = first_album_artist(import);
        if blank(name.as_str()) || has_blank(&import.artists) || has_blank(
            &import.featured_artists,
        ) {
            return Err(EditError::EmptyName);
        }
        let artist = known_artist_id(f, &self.artists, name.as_str());
        let known = release_row_of(
            &self.releases,
            &self.release_artists,
            import.release_title.as_str(),
            artist,
        );
        if known.is_none() && has_blank(&import.album_artists) {
            return Err(EditError::EmptyName);
        }
        let release_id = put_release(f, self, import);
        proof {
            lemma_next_id_positive(artist_ids(viewed(self.artists@)));
            lemma_release_keeps_tracks(*f, s, import@);
        }
        let (track_id, created) = put_track(self, release_id, import);
        link_track_artists(f, self, track_id, &import.artists, false);
        link_track_artists(f, self, track_id, &import.featured_artists, true);
        let wants_cover = match release_at(&self.releases, release_id) {
            Some(i) => self.releases[i].cover_path.is_none(),
            None => true,
        };
        Ok(Upserted { track_id, created, release_id, wants_cover })
    }

    /// Takes one file of an import in, or notes why it cannot be: it could not be
    /// read, or a name that is needed is blank.
    pub fn import_file<F: Fn(&str) -> String>(
        &mut self,
        f: &F,
        file: String,
        read: Result<TrackImport, String>,
        outcome: &mut ImportOutcome,
    ) -> (r: Option<Upserted>)
        requires
            normalizes(*f),
            read matches Ok(import) ==> can_take_in(shelf(*old(self)), import@),
            old(outcome).added < usize::MAX,
            old(outcome).updated < usize::MAX,
        ensures
            match read {
                Ok(import) => if lacks_name(*f, shelf(*old(self)), import@) {
                    &&& r is None
                    &&& *final(self) == *old(self)
                    &&& notes_failure(*old(outcome), *final(outcome), file, "artist name is empty"@)
                } else {
                    let (s, track_id, created, release_id) = upserted(
                        *f,
                        shelf(*old(self)),
                        import@,
                    );
                    &&& r == Some(
                        Upserted {
                            track_id,
                            created,
                            release_id,
                            wants_cover: lacks_cover(s.releases, release_id),
                        },
                    )
                    &&& shelf(*final(self)) == s
                    &&& same_but_shelf(*final(self), *old(self))
                    &&& final(outcome).added == old(outcome).added + if created {
                        1int
                    } else {
                        0int
                    }
                    &&& final(outcome).updated == old(outcome).updated + if created {
                        0int
                    } else {
                        1int
                    }
                    &&& final(outcome).failed@ == old(outcome).failed@
                },
                Err(message) => {
                    &&& r is None
                    &&& *final(self) == *old(self)
                    &&& notes_failure(*old(outcome), *final(outcome), file, message@)
                },
            },
    {
        match read {
            Ok(import) => match self.upsert_track(f, &import) {
                Ok(u) => {
                    if u.created {
                        outcome.record(file, FileOutcome::Added);
                    } else {
                        outcome.record(file, FileOutcome::Updated);
                    }
                    Some(u)
                },
                Err(e) => {
                    outcome.record(file, FileOutcome::Failed(e.message()));
                    None
                },
            },
            Err(message) => {
                outcome.record(file, FileOutcome::Failed(message));
                None
            },
        }
    }

    /// Sets the cover of a release.
    pub fn set_release_cover(&mut self, release_id: i64, cover_path: String)
        ensures
            sets_cover(*old(self), *final(self), release_id, cover_path@),
    {
        put_cover(&mut self.releases, release_id, Some(cover_path));
    }

    /// Edits a track. Its cover is that of its release. The credits are made
    /// anew; where they cannot be, nothing changes.
    pub fn update_track<F: Fn(&str) -> String>(&mut self, f: &F, id: i64, edit: &TrackEdit) -> (r:
        Result<(), EditError>)
        requires
            normalizes(*f),
            room_for(
                viewed(old(self).artists@),
                0int + edit.artists@.len() + edit.featured_artists@.len(),
            ),
        ensures
            edits_track(*f, *old(self), *final(self), id, *edit, r),
    {
        let ghost s = shelf(*self);
        let ghost main = views(edit.artists@);
        let ghost guests = views(edit.featured_artists@);
        let place = self.track_at(id);
        proof {
            lemma_first_mapped(
                self.tracks@,
                |t: TrackRow| t@,
                crate::library::tables::is_track(id),
                is_track_row(id),
            );
            lemma_blank_in_either(main, guests);
            assert(main.len() == edit.artists@.len());
            assert(guests.len() == edit.featured_artists@.len());
            if main.len() > 0 {
                assert((main + guests)[0] == main[0]);
            } else if guests.len() > 0 {
                assert((main + guests)[0] == guests[0]);
            }
        }
        match place {
            None => {
                if edit.artists.len() > 0 || edit.featured_artists.len() > 0 {
                    let first_is_blank = if edit.artists.len() > 0 {
                        blank(edit.artists[0].as_str())
                    } else {
                        blank(edit.featured_artists[0].as_str())
                    };
                    if first_is_blank {
                        return Err(EditError::EmptyName);
                    }
                    return Err(EditError::NotFound);
                }
            },
            Some(i) => {
                if has_blank(&edit.artists) || has_blank(&edit.featured_artists) {
                    return Err(EditError::EmptyName);
                }
                let release_id = self.tracks[i].release_id;
                let duration = self.tracks[i].duration;
                let file_path = self.tracks[i].file_path.clone();
                let content_id = self.tracks[i].content_id.clone();
                let audio_format = self.tracks[i].audio_format.clone();
                let audio_bitrate = self.tracks[i].audio_bitrate;
                let audio_sample_rate = self.tracks[i].audio_sample_rate;
                let audio_bit_depth = self.tracks[i].audio_bit_depth;
                let file_size_bytes = self.tracks[i].file_size_bytes;
                self.tracks[i] =
                TrackRow {
                    id,
                    title: edit.title.clone(),
                    track_number: edit.track_number,
                    disc_number: edit.disc_number,
                    duration,
                    release_id,
                    file_path,
                    content_id,
                    audio_format,
                    audio_bitrate,
                    audio_sample_rate,
                    audio_bit_depth,
                    file_size_bytes,
                };
                put_cover(&mut self.releases, release_id, edit.cover_path.clone());
                proof {
                    assert(shelf(*self).tracks =~= titled(s.tracks, id, *edit));
                }
            },
        }
        let h = |c: &TrackCredit| -> (b: bool)
            ensures
                b == of_other_track(id)(*c),
            { c.track_id != id };
        retain_by(&mut self.track_artists, h, Ghost(of_other_track(id)));
        proof {
            assert(shelf(*self) =~= stripped(s, id, *edit));
        }
        link_track_artists(f, self, id, &edit.artists, false);
        link_track_artists(f, self, id, &edit.featured_artists, true);
        Ok(())
    }

    /// Edits a release. Without artists the current ones stay.
    pub fn update_release<F: Fn(&str) -> String>(&mut self, f: &F, id: i64, edit: &ReleaseEdit) -> (r:
        Result<(), EditError>)
        requires
            normalizes(*f),
            room_for(viewed(old(self).artists@), edit.artists@.len() as int),
        ensures
            edits_release(*f, *old(self), *final(self), id, *edit, r),
    {
        let ghost s = shelf(*self);
        let ghost names = views(edit.artists@);
        proof {
            assert(names.len() == edit.artists@.len());
        }
        match release_at(&self.releases, id) {
            None => {
                if edit.artists.len() > 0 {
                    proof {
                        assert(names[0] == edit.artists@[0]@);
                    }
                    if blank(edit.artists[0].as_str()) {
                        return Err(EditError::EmptyName);
                    }
                    return Err(EditError::NotFound);
                }
            },
            Some(i) => {
                if has_blank(&edit.artists) {
                    return Err(EditError::EmptyName);
                }
                let cover_path = self.releases[i].cover_path.clone();
                self.releases[i] =
                ReleaseRow {
                    id,
                    title: edit.title.clone(),
                    release_type: edit.release_type.clone(),
                    year: edit.year,
                    cover_path,
                };
            },
        }
        proof {
            assert(shelf(*self).releases =~= retitled(s.releases, id, *edit));
        }
        if edit.artists.len() > 0 {
            let h = |c: &ReleaseCredit| -> (b: bool)
                ensures
                    b == of_other_release(id)(*c),
                { c.release_id != id };
            retain_by(&mut self.release_artists, h, Ghost(of_other_release(id)));
            proof {
                assert(shelf(*self) =~= (Shelf {
                    releases: retitled(s.releases, id, *edit),
                    release_artists: s.release_artists.filter(of_other_release(id)),
                    ..s
                }));
            }
            link_release_artists(f, self, id, &edit.artists);
        } else {
            proof {
                assert(shelf(*self) =~= release_edited(*f, s, id, *edit));
            }
        }
        Ok(())
    }

    /// Names an artist and sets the image. A name that another artist has is
    /// an error.
    pub fn update_artist(&mut self, id: i64, name: &str, image_path: Option<String>) -> (r: Result<
        (),
        String,
    >)
        ensures
            edits_artist(*old(self), *final(self), id, name@, opt_view(image_path), r),
    {
        let g = |a: &ArtistRow| -> (b: bool)
            ensures
                b == row_is_other_with_name(id, name@)(*a),
            { a.id != id && same_no_case(a.name.as_str(), name) };
        let taken = find_by(&self.artists, g, Ghost(row_is_other_with_name(id, name@)));
        proof {
            lemma_first_mapped(
                self.artists@,
                |a: ArtistRow| a@,
                row_is_other_with_name(id, name@),
                is_other_with_name(id, name@),
            );
            lemma_first_mapped(
                self.artists@,
                |a: ArtistRow| a@,
                row_is_artist(id),
                is_artist(id),
            );
        }
        if taken.is_some() {
            let mut e = "an artist named \"".to_owned();
            e.append(name);
            e.append("\" already exists");
            return Err(e);
        }
        let h = |a: &ArtistRow| -> (b: bool)
            ensures
                b == row_is_artist(id)(*a),
            { a.id == id };
        let ghost before = self.artists@;
        if let Some(i) = find_by(&self.artists, h, Ghost(row_is_artist(id))) {
            self.artists[i] = ArtistRow { id, name: name.to_owned(), image_path };
            proof {
                assert(viewed(self.artists@) =~= renamed_artist(
                    viewed(before),
                    id,
                    name@,
                    opt_view(image_path),
                ));
            }
        }
        Ok(())
    }
}

proof fn lemma_release_keeps_tracks<F: Fn(&str) -> String>(f: F, s: Shelf, import: ImportView)
    ensures
        with_release_of(f, s, import).0.tracks == s.tracks,
{
    let named = Shelf { artists: with_artist_named(f, s.artists, main_album_artist(import)), ..s };
    let id = next_id(release_ids(s.releases)) as i64;
    let fresh = Shelf {
        releases: s.releases.push(
            ReleaseView {
                id,
                title: import.release_title,
                release_type: "album"@,
                year: import.year,
                cover_path: None,
            },
        ),
        ..named
    };
    lemma_release_credits_only(f, fresh, id, import.album_artists);
}

/// The releases after one got a cover.
pub open spec fn with_cover(s: Seq<ReleaseView>, id: i64, cover: Option<Seq<char>>) -> Seq<ReleaseView> {
    match first_where(s, is_release(id)) {
        Some(i) => s.update(i, ReleaseView { cover_path: cover, ..s[i] }),
        None => s,
    }
}

fn put_cover(releases: &mut Vec<ReleaseRow>, id: i64, cover_path: Option<String>)
    ensures
        viewed(final(releases)@) == with_cover(viewed(old(releases)@), id, opt_view(cover_path)),
{
    let ghost before = releases@;
    if let Some(i) = release_at(releases, id) {
        let title = releases[i].title.clone();
        let release_type = releases[i].release_type.clone();
        let year = releases[i].year;
        releases[i] = ReleaseRow { id, title, release_type, year, cover_path };
        proof {
            assert(viewed(releases@) =~= with_cover(viewed(before), id, opt_view(cover_path)));
        }
    }
}

// ---------------------------------------------------------------------------
// Editing
// ---------------------------------------------------------------------------

pub open spec fn is_track_row(id: i64) -> spec_fn(TrackRowView) -> bool {
    |t: TrackRowView| t.id == id
}

pub open spec fn has_track(s: Shelf, id: i64) -> bool {
    first_where(s.tracks, is_track_row(id)) is Some
}

pub open spec fn has_release(s: Shelf, id: i64) -> bool {
    first_where(s.releases, is_release(id)) is Some
}

/// Whether something that is there or not can be credited to artists by name.
pub open spec fn credit_check(there: bool, names: Seq<Seq<char>>) -> Result<(), EditError> {
    if there {
        if any_blank(names) {
            Err(EditError::EmptyName)
        } else {
            Ok(())
        }
    } else if names.len() == 0 {
        Ok(())
    } else if is_blank(names[0]) {
        Err(EditError::EmptyName)
    } else {
        Err(EditError::NotFound)
    }
}

proof fn lemma_blank_in_either(a: Seq<Seq<char>>, b: Seq<Seq<char>>)
    ensures
        any_blank(a + b) == (any_blank(a) || any_blank(b)),
{
    let s = a + b;
    if any_blank(a) {
        let i = choose|i: int| 0 <= i < a.len() && is_blank(#[trigger] a[i]);
        assert(is_blank(s[i]));
    }
    if any_blank(b) {
        let i = choose|i: int| 0 <= i < b.len() && is_blank(#[trigger] b[i]);
        assert(is_blank(s[a.len() + i]));
    }
    if any_blank(s) {
        let i = choose|i: int| 0 <= i < s.len() && is_blank(#[trigger] s[i]);
        if i < a.len() {
            assert(is_blank(a[i]));
        } else {
            assert(is_blank(b[i - a.len()]));
        }
    }
}

/// The tracks after one was edited.
pub open spec fn titled(s: Seq<TrackRowView>, id: i64, edit: TrackEdit) -> Seq<TrackRowView> {
    match first_where(s, is_track_row(id)) {
        Some(i) => s.update(
            i,
            TrackRowView {
                title: edit.title@,
                track_number: edit.track_number,
                disc_number: edit.disc_number,
                ..s[i]
            },
        ),
        None => s,
    }
}

/// The shelf after a track was edited, before it is credited anew.
pub open spec fn stripped(s: Shelf, id: i64, edit: TrackEdit) -> Shelf {
    Shelf {
        tracks: titled(s.tracks, id, edit),
        releases: match first_where(s.tracks, is_track_row(id)) {
            Some(i) => with_cover(s.releases, s.tracks[i].release_id, opt_view(edit.cover_path)),
            None => s.releases,
        },
        track_artists: s.track_artists.filter(of_other_track(id)),
        ..s
    }
}

/// The shelf after a track was edited.
pub open spec fn track_edited<F: Fn(&str) -> String>(f: F, s: Shelf, id: i64, edit: TrackEdit) -> Shelf {
    track_credited(
        f,
        track_credited(f, stripped(s, id, edit), id, views(edit.artists@), false),
        id,
        views(edit.featured_artists@),
        true,
    )
}

pub open spec fn of_other_release(id: i64) -> spec_fn(ReleaseCredit) -> bool {
    |c: ReleaseCredit| c.release_id != id
}

/// The releases after one was edited.
pub open spec fn retitled(s: Seq<ReleaseView>, id: i64, edit: ReleaseEdit) -> Seq<ReleaseView> {
    match first_where(s, is_release(id)) {
        Some(i) => s.update(
            i,
            ReleaseView {
                title: edit.title@,
                release_type: edit.release_type@,
                year: edit.year,
                ..s[i]
            },
        ),
        None => s,
    }
}

/// The shelf after a release was edited.
pub open spec fn release_edited<F: Fn(&str) -> String>(f: F, s: Shelf, id: i64, edit: ReleaseEdit) -> Shelf {
    let titled = Shelf { releases: retitled(s.releases, id, edit), ..s };
    if edit.artists@.len() > 0 {
        release_credited(
            f,
            Shelf {
                release_artists: s.release_artists.filter(of_other_release(id)),
                ..titled
            },
            id,
            views(edit.artists@),
        )
    } else {
        titled
    }
}

pub open spec fn is_artist(id: i64) -> spec_fn(ArtistView) -> bool {
    |a: ArtistView| a.id == id
}

pub open spec fn row_is_artist(id: i64) -> spec_fn(ArtistRow) -> bool {
    |a: ArtistRow| a.id == id
}

/// Another artist with a name; the case of ASCII letters does not matter.
pub open spec fn is_other_with_name(id: i64, name: Seq<char>) -> spec_fn(ArtistView) -> bool {
    |a: ArtistView| a.id != id && ascii_lowered(a.name) == ascii_lowered(name)
}

pub open spec fn row_is_other_with_name(id: i64, name: Seq<char>) -> spec_fn(ArtistRow) -> bool {
    |a: ArtistRow| a.id != id && ascii_lowered(a.name@) == ascii_lowered(name)
}

/// The artists after one was named.
pub open spec fn renamed_artist(
    s: Seq<ArtistView>,
    id: i64,
    name: Seq<char>,
    image_path: Option<Seq<char>>,
) -> Seq<ArtistView> {
    match first_where(s, is_artist(id)) {
        Some(i) => s.update(i, ArtistView { id, name, image_path }),
        None => s,
    }
}

} // verus!
