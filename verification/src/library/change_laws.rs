//! What taking in a file, editing and deleting bring about in the library.

use crate::library::delete::{
    artist_dropped, cleaned, deletes_artist, deletes_release, deletes_track, empty_releases,
    entry_stays, is_other_artist, like_stays, orphans, play_stays, release_stays, stock,
    track_stays, tracks_dropped, tracks_on,
};
use crate::library::edit::{
    any_blank, artist_id, artist_ids, artist_place, edits_artist, edits_release, edits_track,
    import_release, is_artist, is_file, is_named, is_other_with_name, is_release,
    is_release_credit, is_release_of, is_track_credit, is_track_row, main_album_artist,
    of_other_release, of_other_track, release_credited, release_ids, retitled, sets_cover, shelf,
    stripped, takes_in, track_credited, track_ids, with_artist_named, with_release_of,
    with_track_of, EditError, Shelf, Upserted,
};
use crate::library::import::ImportView;
use crate::library::models::{ReleaseEdit, TrackEdit};
use crate::library::shelf_laws::{law_cleanup_leaves_no_empty_release, sound};
use crate::library::tables::{
    next_id, ArtistView, Library, LikeRow, PlaylistEntry, ReleaseView, TrackCredit, TrackRowView,
};
use crate::lists::{first_where, lemma_filter_holds, lemma_first_where, viewed};
use crate::names::key_of;
use crate::text::{ascii_lowered, is_blank, opt_view, trimmed, views};
use vstd::prelude::*;

verus! {

/// Whether an artist with an id has a name, as names are compared.
pub open spec fn is_called<F: Fn(&str) -> String>(
    f: F,
    artists: Seq<ArtistView>,
    id: i64,
    name: Seq<char>,
) -> bool {
    exists|k: int|
        0 <= k < artists.len() && (#[trigger] artists[k]).id == id && key_of(f, artists[k].name)
            == key_of(f, trimmed(name))
}

/// Whether a track is credited to an artist with a name.
pub open spec fn track_is_by<F: Fn(&str) -> String>(
    f: F,
    s: Shelf,
    track_id: i64,
    featured: bool,
    name: Seq<char>,
) -> bool {
    exists|m: int|
        0 <= m < s.track_artists.len() && (#[trigger] s.track_artists[m]).track_id == track_id
            && s.track_artists[m].featured == featured && is_called(
            f,
            s.artists,
            s.track_artists[m].artist_id,
            name,
        )
}

/// Whether a release is credited to an artist with a name.
pub open spec fn release_is_by<F: Fn(&str) -> String>(
    f: F,
    s: Shelf,
    release_id: i64,
    name: Seq<char>,
) -> bool {
    exists|m: int|
        0 <= m < s.release_artists.len() && (#[trigger] s.release_artists[m]).release_id
            == release_id && is_called(f, s.artists, s.release_artists[m].artist_id, name)
}

/// Whether an artist with an id has one of several names.
pub open spec fn is_one_of<F: Fn(&str) -> String>(
    f: F,
    artists: Seq<ArtistView>,
    id: i64,
    names: Seq<Seq<char>>,
) -> bool {
    exists|i: int| 0 <= i < names.len() && is_called(f, artists, id, #[trigger] names[i])
}

/// Whether one list starts with another.
spec fn grows<T>(a: Seq<T>, b: Seq<T>) -> bool {
    a.len() <= b.len() && forall|k: int| 0 <= k < a.len() ==> #[trigger] b[k] == a[k]
}

proof fn lemma_called_stays<F: Fn(&str) -> String>(
    f: F,
    a: Seq<ArtistView>,
    b: Seq<ArtistView>,
    id: i64,
    name: Seq<char>,
)
    requires
        grows(a, b),
        is_called(f, a, id, name),
    ensures
        is_called(f, b, id, name),
{
    let k = choose|k: int|
        0 <= k < a.len() && (#[trigger] a[k]).id == id && key_of(f, a[k].name) == key_of(
            f,
            trimmed(name),
        );
    assert(b[k] == a[k]);
}

proof fn lemma_artist_named<F: Fn(&str) -> String>(f: F, s: Seq<ArtistView>, name: Seq<char>)
    ensures
        grows(s, with_artist_named(f, s, name)),
        is_called(f, with_artist_named(f, s, name), artist_id(f, s, name) as i64, name),
{
    let k = key_of(f, trimmed(name));
    lemma_first_where(s, is_named(f, k));
    let r = with_artist_named(f, s, name);
    match artist_place(f, s, trimmed(name)) {
        Some(i) => {
            assert(r[i].id == artist_id(f, s, name) as i64);
        },
        None => {
            assert(r[s.len() as int].id == artist_id(f, s, name) as i64);
        },
    }
}

proof fn lemma_track_credited<F: Fn(&str) -> String>(
    f: F,
    s: Shelf,
    track_id: i64,
    names: Seq<Seq<char>>,
    featured: bool,
)
    requires
        names.len() <= i64::MAX,
    ensures
        ({
            let r = track_credited(f, s, track_id, names, featured);
            &&& r.tracks == s.tracks
            &&& r.releases == s.releases
            &&& r.release_artists == s.release_artists
            &&& grows(s.artists, r.artists)
            &&& grows(s.track_artists, r.track_artists)
            &&& forall|i: int|
                0 <= i < names.len() ==> track_is_by(f, r, track_id, featured, #[trigger] names[i])
            &&& forall|m: int|
                s.track_artists.len() <= m < r.track_artists.len() ==> {
                    &&& (#[trigger] r.track_artists[m]).track_id == track_id
                    &&& r.track_artists[m].featured == featured
                    &&& exists|i: int|
                        0 <= i < names.len() && r.track_artists[m].position == i && is_called(
                            f,
                            r.artists,
                            r.track_artists[m].artist_id,
                            #[trigger] names[i],
                        )
                }
        }),
    decreases names.len(),
{
    if names.len() > 0 {
        let h = names.drop_last();
        let n = names.len() - 1;
        let b = track_credited(f, s, track_id, h, featured);
        let r = track_credited(f, s, track_id, names, featured);
        lemma_track_credited(f, s, track_id, h, featured);
        lemma_artist_named(f, b.artists, names.last());
        let id = artist_id(f, b.artists, names.last()) as i64;
        let p = is_track_credit(track_id, id, featured);
        lemma_first_where(b.track_artists, p);
        let place = match first_where(b.track_artists, p) {
            Some(m) => m,
            None => b.track_artists.len() as int,
        };
        assert(r.track_artists[place].artist_id == id);
        assert(r.track_artists[place].track_id == track_id);
        assert forall|i: int| 0 <= i < names.len() implies track_is_by(
            f,
            r,
            track_id,
            featured,
            #[trigger] names[i],
        ) by {
            if i < n {
                assert(names[i] == h[i]);
                assert(track_is_by(f, b, track_id, featured, h[i]));
                let m = choose|m: int|
                    0 <= m < b.track_artists.len() && (#[trigger] b.track_artists[m]).track_id
                        == track_id && b.track_artists[m].featured == featured && is_called(
                        f,
                        b.artists,
                        b.track_artists[m].artist_id,
                        h[i],
                    );
                assert(r.track_artists[m] == b.track_artists[m]);
                lemma_called_stays(f, b.artists, r.artists, b.track_artists[m].artist_id, h[i]);
            } else {
                assert(is_called(f, r.artists, r.track_artists[place].artist_id, names[i]));
            }
        }
        assert forall|m: int| s.track_artists.len() <= m < r.track_artists.len() implies {
            &&& (#[trigger] r.track_artists[m]).track_id == track_id
            &&& r.track_artists[m].featured == featured
            &&& exists|i: int|
                0 <= i < names.len() && r.track_artists[m].position == i && is_called(
                    f,
                    r.artists,
                    r.track_artists[m].artist_id,
                    #[trigger] names[i],
                )
        } by {
            if m < b.track_artists.len() {
                assert(r.track_artists[m] == b.track_artists[m]);
                let i = choose|i: int|
                    0 <= i < h.len() && b.track_artists[m].position == i && is_called(
                        f,
                        b.artists,
                        b.track_artists[m].artist_id,
                        #[trigger] h[i],
                    );
                assert(names[i] == h[i]);
                lemma_called_stays(f, b.artists, r.artists, b.track_artists[m].artist_id, h[i]);
            } else {
                assert(is_called(f, r.artists, r.track_artists[m].artist_id, names[n]));
                assert(r.track_artists[m].position == n);
            }
        }
    }
}

proof fn lemma_release_credited<F: Fn(&str) -> String>(
    f: F,
    s: Shelf,
    release_id: i64,
    names: Seq<Seq<char>>,
)
    ensures
        ({
            let r = release_credited(f, s, release_id, names);
            &&& r.tracks == s.tracks
            &&& r.releases == s.releases
            &&& r.track_artists == s.track_artists
            &&& grows(s.artists, r.artists)
            &&& grows(s.release_artists, r.release_artists)
            &&& forall|i: int|
                0 <= i < names.len() ==> release_is_by(f, r, release_id, #[trigger] names[i])
            &&& forall|m: int|
                s.release_artists.len() <= m < r.release_artists.len() ==> {
                    &&& (#[trigger] r.release_artists[m]).release_id == release_id
                    &&& exists|i: int|
                        0 <= i < names.len() && is_called(
                            f,
                            r.artists,
                            r.release_artists[m].artist_id,
                            #[trigger] names[i],
                        )
                }
        }),
    decreases names.len(),
{
    if names.len() > 0 {
        let h = names.drop_last();
        let n = names.len() - 1;
        let b = release_credited(f, s, release_id, h);
        let r = release_credited(f, s, release_id, names);
        lemma_release_credited(f, s, release_id, h);
        lemma_artist_named(f, b.artists, names.last());
        let id = artist_id(f, b.artists, names.last()) as i64;
        let p = is_release_credit(release_id, id);
        lemma_first_where(b.release_artists, p);
        let place = match first_where(b.release_artists, p) {
            Some(m) => m,
            None => b.release_artists.len() as int,
        };
        assert(r.release_artists[place].artist_id == id);
        assert(r.release_artists[place].release_id == release_id);
        assert forall|i: int| 0 <= i < names.len() implies release_is_by(
            f,
            r,
            release_id,
            #[trigger] names[i],
        ) by {
            if i < n {
                assert(names[i] == h[i]);
                assert(release_is_by(f, b, release_id, h[i]));
                let m = choose|m: int|
                    0 <= m < b.release_artists.len() && (#[trigger] b.release_artists[m]).release_id
                        == release_id && is_called(
                        f,
                        b.artists,
                        b.release_artists[m].artist_id,
                        h[i],
                    );
                assert(r.release_artists[m] == b.release_artists[m]);
                lemma_called_stays(f, b.artists, r.artists, b.release_artists[m].artist_id, h[i]);
            } else {
                assert(is_called(f, r.artists, r.release_artists[place].artist_id, names[i]));
            }
        }
        assert forall|m: int| s.release_artists.len() <= m < r.release_artists.len() implies {
            &&& (#[trigger] r.release_artists[m]).release_id == release_id
            &&& exists|i: int|
                0 <= i < names.len() && is_called(
                    f,
                    r.artists,
                    r.release_artists[m].artist_id,
                    #[trigger] names[i],
                )
        } by {
            if m < b.release_artists.len() {
                assert(r.release_artists[m] == b.release_artists[m]);
                let i = choose|i: int|
                    0 <= i < h.len() && is_called(
                        f,
                        b.artists,
                        b.release_artists[m].artist_id,
                        #[trigger] h[i],
                    );
                assert(names[i] == h[i]);
                lemma_called_stays(f, b.artists, r.artists, b.release_artists[m].artist_id, h[i]);
            } else {
                assert(is_called(f, r.artists, r.release_artists[m].artist_id, names[n]));
            }
        }
    }
}

proof fn lemma_by_stays<F: Fn(&str) -> String>(
    f: F,
    a: Shelf,
    b: Shelf,
    track_id: i64,
    featured: bool,
    name: Seq<char>,
)
    requires
        track_is_by(f, a, track_id, featured, name),
        grows(a.artists, b.artists),
        grows(a.track_artists, b.track_artists),
    ensures
        track_is_by(f, b, track_id, featured, name),
{
    let m = choose|m: int|
        0 <= m < a.track_artists.len() && (#[trigger] a.track_artists[m]).track_id == track_id
            && a.track_artists[m].featured == featured && is_called(
            f,
            a.artists,
            a.track_artists[m].artist_id,
            name,
        );
    assert(b.track_artists[m] == a.track_artists[m]);
    lemma_called_stays(f, a.artists, b.artists, a.track_artists[m].artist_id, name);
}

// ---------------------------------------------------------------------------
// Taking in a file
// ---------------------------------------------------------------------------

/// A file that is taken in is a track of the library: the track with its path has
/// its title, its numbers and its duration, and is on a release with the title
/// that the file names. It is new exactly when no track had the path. Tracks of
/// other files stay as they are.
pub proof fn law_imported_file_is_a_track<F: Fn(&str) -> String>(
    f: F,
    a: Library,
    b: Library,
    import: ImportView,
    r: Result<Upserted, EditError>,
)
    requires
        takes_in(f, a, b, import, r),
        r is Ok,
        import.artists.len() <= i64::MAX,
        import.featured_artists.len() <= i64::MAX,
    ensures
        ({
            let u = r->Ok_0;
            let s = shelf(a);
            let t = shelf(b);
            &&& exists|k: int|
                {
                    &&& 0 <= k < t.tracks.len()
                    &&& (#[trigger] t.tracks[k]).id == u.track_id
                    &&& t.tracks[k].file_path == import.file_path
                    &&& t.tracks[k].title == import.title
                    &&& t.tracks[k].track_number == import.track_number
                    &&& t.tracks[k].disc_number == import.disc_number
                    &&& t.tracks[k].duration == import.duration
                    &&& t.tracks[k].release_id == u.release_id
                }
            &&& exists|k: int|
                0 <= k < t.releases.len() && (#[trigger] t.releases[k]).id == u.release_id
                    && ascii_lowered(t.releases[k].title) == ascii_lowered(import.release_title)
                    && (import.year is Some ==> t.releases[k].year is Some)
            &&& u.created <==> forall|k: int|
                0 <= k < s.tracks.len() ==> (#[trigger] s.tracks[k]).file_path != import.file_path
            &&& forall|k: int|
                0 <= k < s.tracks.len() && s.tracks[k].file_path != import.file_path
                    ==> t.tracks.len() > k && #[trigger] t.tracks[k] == s.tracks[k]
        }),
{
    let s = shelf(a);
    let t = shelf(b);
    let u = r->Ok_0;
    let (x, release_id) = with_release_of(f, s, import);
    let (y, track_id, created) = with_track_of(x, release_id, import);
    let m = track_credited(f, y, track_id, import.artists, false);
    lemma_track_credited(f, y, track_id, import.artists, false);
    lemma_track_credited(f, m, track_id, import.featured_artists, true);
    assert(t.tracks == y.tracks);
    assert(t.releases == x.releases);
    assert(x.tracks == s.tracks) by {
        lemma_release_part(f, s, import);
    }
    lemma_release_part(f, s, import);
    lemma_first_where(x.tracks, is_file(import.file_path));
    match first_where(x.tracks, is_file(import.file_path)) {
        Some(i) => {
            assert(t.tracks[i].id == u.track_id);
            assert(s.tracks[i].file_path == import.file_path);
        },
        None => {
            assert(t.tracks[s.tracks.len() as int].id == u.track_id);
            assert forall|k: int| 0 <= k < s.tracks.len() implies (#[trigger] s.tracks[k]).file_path
                != import.file_path by {
                assert(!is_file(import.file_path)(x.tracks[k]));
            }
        },
    }
}

proof fn lemma_release_part<F: Fn(&str) -> String>(f: F, s: Shelf, import: ImportView)
    ensures
        ({
            let (x, release_id) = with_release_of(f, s, import);
            &&& x.tracks == s.tracks
            &&& x.track_artists == s.track_artists
            &&& grows(s.artists, x.artists)
            &&& exists|k: int|
                0 <= k < x.releases.len() && (#[trigger] x.releases[k]).id == release_id
                    && ascii_lowered(x.releases[k].title) == ascii_lowered(import.release_title)
                    && (import.year is Some ==> x.releases[k].year is Some)
            &&& import_release(f, s, import) is None ==> forall|i: int|
                0 <= i < import.album_artists.len() ==> release_is_by(
                    f,
                    x,
                    release_id,
                    #[trigger] import.album_artists[i],
                )
            &&& grows(s.release_artists, x.release_artists)
        }),
{
    let name = main_album_artist(import);
    let (x, release_id) = with_release_of(f, s, import);
    lemma_artist_named(f, s.artists, name);
    let p = is_release_of(
        s.release_artists,
        import.release_title,
        artist_id(f, s.artists, name) as i64,
    );
    lemma_first_where(s.releases, p);
    match import_release(f, s, import) {
        Some(i) => {
            assert(x.releases[i].id == release_id);
        },
        None => {
            let id = next_id(release_ids(s.releases)) as i64;
            let named = Shelf { artists: with_artist_named(f, s.artists, name), ..s };
            let fresh = Shelf {
                releases: s.releases.push(
                    ReleaseView {
                        id,
                        title: import.release_title,
                        release_type: "album"@,
                        year: import.year,
                        cover_path: None,
                    },
                ),
                ..named
            };
            lemma_release_credited(f, fresh, id, import.album_artists);
            assert(x.releases[s.releases.len() as int].id == release_id);
            assert forall|k: int| 0 <= k < s.artists.len() implies #[trigger] x.artists[k]
                == s.artists[k] by {
                assert(fresh.artists[k] == s.artists[k]);
            }
        },
    }
}

/// A file that is taken in is credited to the artists that it names, each in the
/// role in which it names them, and to no one else. The release is credited to
/// the artists of the album where it is new.
pub proof fn law_imported_file_is_credited<F: Fn(&str) -> String>(
    f: F,
    a: Library,
    b: Library,
    import: ImportView,
    r: Result<Upserted, EditError>,
)
    requires
        takes_in(f, a, b, import, r),
        r is Ok,
        sound(shelf(a)),
        import.artists.len() <= i64::MAX,
        import.featured_artists.len() <= i64::MAX,
        next_id(track_ids(shelf(a).tracks)) <= i64::MAX,
    ensures
        ({
            let u = r->Ok_0;
            let t = shelf(b);
            &&& forall|i: int|
                0 <= i < import.artists.len() ==> track_is_by(
                    f,
                    t,
                    u.track_id,
                    false,
                    #[trigger] import.artists[i],
                )
            &&& forall|i: int|
                0 <= i < import.featured_artists.len() ==> track_is_by(
                    f,
                    t,
                    u.track_id,
                    true,
                    #[trigger] import.featured_artists[i],
                )
            &&& forall|m: int|
                0 <= m < t.track_artists.len() && (#[trigger] t.track_artists[m]).track_id
                    == u.track_id ==> {
                &&& !t.track_artists[m].featured ==> is_one_of(f, t.artists, t.track_artists[m].artist_id, import.artists)
                &&& t.track_artists[m].featured ==> is_one_of(f, t.artists, t.track_artists[m].artist_id, import.featured_artists)
            }
        }),
{
    let s = shelf(a);
    let t = shelf(b);
    let u = r->Ok_0;
    let (x, release_id) = with_release_of(f, s, import);
    let (y, track_id, created) = with_track_of(x, release_id, import);
    let m = track_credited(f, y, track_id, import.artists, false);
    lemma_track_credited(f, y, track_id, import.artists, false);
    lemma_track_credited(f, m, track_id, import.featured_artists, true);
    lemma_release_part(f, s, import);
    lemma_filter_holds(x.track_artists, of_other_track(track_id));
    assert(forall|c: int|
        0 <= c < y.track_artists.len() ==> (#[trigger] y.track_artists[c]).track_id != track_id) by {
        lemma_first_where(x.tracks, is_file(import.file_path));
        assert forall|c: int| 0 <= c < y.track_artists.len() implies (
        #[trigger] y.track_artists[c]).track_id != track_id by {
            match first_where(x.tracks, is_file(import.file_path)) {
                Some(i) => {
                    assert(y.track_artists.contains(y.track_artists[c]));
                },
                None => {
                    assert(track_ids(s.tracks).contains(s.track_artists[c].track_id));
                    let k = track_ids(s.tracks).index_of(s.track_artists[c].track_id);
                    crate::library::tables::law_new_id_is_unused(track_ids(s.tracks), k);
                },
            }
        }
    }
    assert forall|i: int| 0 <= i < import.artists.len() implies track_is_by(
        f,
        t,
        u.track_id,
        false,
        #[trigger] import.artists[i],
    ) by {
        lemma_by_stays(f, m, t, track_id, false, import.artists[i]);
    }
    assert forall|c: int|
        0 <= c < t.track_artists.len() && (#[trigger] t.track_artists[c]).track_id
            == u.track_id implies {
                &&& !t.track_artists[c].featured ==> is_one_of(f, t.artists, t.track_artists[c].artist_id, import.artists)
                &&& t.track_artists[c].featured ==> is_one_of(f, t.artists, t.track_artists[c].artist_id, import.featured_artists)
            } by {
        if c < y.track_artists.len() {
            assert(m.track_artists[c] == y.track_artists[c]);
            assert(t.track_artists[c] == m.track_artists[c]);
        } else if c < m.track_artists.len() {
            assert(t.track_artists[c] == m.track_artists[c]);
            let i = choose|i: int|
                0 <= i < import.artists.len() && m.track_artists[c].position == i && is_called(
                    f,
                    m.artists,
                    m.track_artists[c].artist_id,
                    #[trigger] import.artists[i],
                );
            lemma_called_stays(
                f,
                m.artists,
                t.artists,
                m.track_artists[c].artist_id,
                import.artists[i],
            );
        }
    }
}

/// A file whose names are given is taken in; one that names a blank artist is
/// refused, and nothing changes.
pub proof fn law_blank_artist_is_refused<F: Fn(&str) -> String>(
    f: F,
    a: Library,
    b: Library,
    import: ImportView,
    r: Result<Upserted, EditError>,
)
    requires
        takes_in(f, a, b, import, r),
    ensures
        (forall|i: int| 0 <= i < import.artists.len() ==> !is_blank(#[trigger] import.artists[i]))
            && (forall|i: int|
            0 <= i < import.featured_artists.len() ==> !is_blank(
                #[trigger] import.featured_artists[i],
            )) && (forall|i: int|
            0 <= i < import.album_artists.len() ==> !is_blank(#[trigger] import.album_artists[i]))
            && import.album_artists.len() > 0 ==> r is Ok,
        (exists|i: int| 0 <= i < import.artists.len() && is_blank(#[trigger] import.artists[i]))
            ==> r is Err,
        (exists|i: int|
            0 <= i < import.featured_artists.len() && is_blank(
                #[trigger] import.featured_artists[i],
            )) ==> r is Err,
        r is Err ==> b == a,
{
    if import.album_artists.len() > 0 {
        assert(import.album_artists[0] == main_album_artist(import));
    }
    assert(any_blank(import.artists) <==> exists|i: int|
        0 <= i < import.artists.len() && is_blank(#[trigger] import.artists[i]));
    assert(any_blank(import.featured_artists) <==> exists|i: int|
        0 <= i < import.featured_artists.len() && is_blank(#[trigger] import.featured_artists[i]));
}

// ---------------------------------------------------------------------------
// Editing
// ---------------------------------------------------------------------------

/// A track that is edited has the title, the numbers and the artists that the edit
/// gives, and no others; its file and its release stay. Other tracks stay as
/// they are.
pub proof fn law_edited_track_is_as_edited<F: Fn(&str) -> String>(
    f: F,
    a: Library,
    b: Library,
    id: i64,
    edit: TrackEdit,
    r: Result<(), EditError>,
    k: int,
)
    requires
        edits_track(f, a, b, id, edit, r),
        r is Ok,
        track_ids(shelf(a).tracks).no_duplicates(),
        0 <= k < a.tracks@.len(),
        edit.artists@.len() <= i64::MAX,
        edit.featured_artists@.len() <= i64::MAX,
    ensures
        ({
            let s = shelf(a);
            let t = shelf(b);
            &&& t.tracks.len() == s.tracks.len()
            &&& s.tracks[k].id != id ==> t.tracks[k] == s.tracks[k]
            &&& s.tracks[k].id == id ==> {
                &&& t.tracks[k].id == id
                &&& t.tracks[k].title == edit.title@
                &&& t.tracks[k].track_number == edit.track_number
                &&& t.tracks[k].disc_number == edit.disc_number
                &&& t.tracks[k].file_path == s.tracks[k].file_path
                &&& t.tracks[k].release_id == s.tracks[k].release_id
                &&& t.tracks[k].content_id == s.tracks[k].content_id
            }
            &&& forall|i: int|
                0 <= i < edit.artists@.len() ==> track_is_by(
                    f,
                    t,
                    id,
                    false,
                    (#[trigger] edit.artists@[i])@,
                )
            &&& forall|i: int|
                0 <= i < edit.featured_artists@.len() ==> track_is_by(
                    f,
                    t,
                    id,
                    true,
                    (#[trigger] edit.featured_artists@[i])@,
                )
            &&& forall|m: int|
                0 <= m < t.track_artists.len() && (#[trigger] t.track_artists[m]).track_id == id
                    ==> {
                &&& !t.track_artists[m].featured ==> is_one_of(f, t.artists, t.track_artists[m].artist_id, views(edit.artists@))
                &&& t.track_artists[m].featured ==> is_one_of(f, t.artists, t.track_artists[m].artist_id, views(edit.featured_artists@))
            }
            &&& forall|c: TrackCredit|
                c.track_id != id && #[trigger] s.track_artists.contains(c)
                    ==> t.track_artists.contains(c)
        }),
{
    let s = shelf(a);
    let t = shelf(b);
    let y = stripped(s, id, edit);
    let main = views(edit.artists@);
    let guests = views(edit.featured_artists@);
    let m = track_credited(f, y, id, main, false);
    assert(main.len() == edit.artists@.len());
    assert(guests.len() == edit.featured_artists@.len());
    lemma_track_credited(f, y, id, main, false);
    lemma_track_credited(f, m, id, guests, true);
    lemma_filter_holds(s.track_artists, of_other_track(id));
    lemma_first_where(s.tracks, is_track_row(id));
    assert(s.tracks.len() == a.tracks@.len());
    if let Some(i) = first_where(s.tracks, is_track_row(id)) {
        if s.tracks[k].id == id && i != k {
            assert(track_ids(s.tracks)[i] == track_ids(s.tracks)[k]);
        }
    } else {
        assert(!is_track_row(id)(s.tracks[k]));
    }
    assert forall|i: int| 0 <= i < edit.artists@.len() implies track_is_by(
        f,
        t,
        id,
        false,
        (#[trigger] edit.artists@[i])@,
    ) by {
        assert(main[i] == edit.artists@[i]@);
        lemma_by_stays(f, m, t, id, false, main[i]);
    }
    assert forall|i: int| 0 <= i < edit.featured_artists@.len() implies track_is_by(
        f,
        t,
        id,
        true,
        (#[trigger] edit.featured_artists@[i])@,
    ) by {
        assert(guests[i] == edit.featured_artists@[i]@);
    }
    assert forall|c: int| 0 <= c < y.track_artists.len() implies (
    #[trigger] y.track_artists[c]).track_id != id by {
        assert(y.track_artists.contains(y.track_artists[c]));
    }
    assert forall|c: int|
        0 <= c < t.track_artists.len() && (#[trigger] t.track_artists[c]).track_id == id implies {
                &&& !t.track_artists[c].featured ==> is_one_of(f, t.artists, t.track_artists[c].artist_id, main)
                &&& t.track_artists[c].featured ==> is_one_of(f, t.artists, t.track_artists[c].artist_id, guests)
            } by {
        if c < y.track_artists.len() {
            assert(m.track_artists[c] == y.track_artists[c]);
            assert(t.track_artists[c] == m.track_artists[c]);
        } else if c < m.track_artists.len() {
            assert(t.track_artists[c] == m.track_artists[c]);
            let i = choose|i: int|
                0 <= i < main.len() && m.track_artists[c].position == i && is_called(
                    f,
                    m.artists,
                    m.track_artists[c].artist_id,
                    #[trigger] main[i],
                );
            lemma_called_stays(f, m.artists, t.artists, m.track_artists[c].artist_id, main[i]);
        }
    }
    assert forall|c: TrackCredit|
        c.track_id != id && #[trigger] s.track_artists.contains(
            c,
        ) implies t.track_artists.contains(c) by {
        assert(y.track_artists.contains(c));
        let n = y.track_artists.index_of(c);
        assert(m.track_artists[n] == c);
        assert(t.track_artists[n] == c);
    }
}

/// A release that is edited has the title, the kind and the year that the edit
/// gives, and the artists where it gives any. Other releases stay as they are,
/// and so does every track.
pub proof fn law_edited_release_is_as_edited<F: Fn(&str) -> String>(
    f: F,
    a: Library,
    b: Library,
    id: i64,
    edit: ReleaseEdit,
    r: Result<(), EditError>,
    k: int,
)
    requires
        edits_release(f, a, b, id, edit, r),
        r is Ok,
        release_ids(shelf(a).releases).no_duplicates(),
        0 <= k < a.releases@.len(),
    ensures
        ({
            let s = shelf(a);
            let t = shelf(b);
            &&& t.tracks == s.tracks
            &&& t.releases.len() == s.releases.len()
            &&& s.releases[k].id != id ==> t.releases[k] == s.releases[k]
            &&& s.releases[k].id == id ==> {
                &&& t.releases[k].id == id
                &&& t.releases[k].title == edit.title@
                &&& t.releases[k].release_type == edit.release_type@
                &&& t.releases[k].year == edit.year
                &&& t.releases[k].cover_path == s.releases[k].cover_path
            }
            &&& forall|i: int|
                0 <= i < edit.artists@.len() ==> release_is_by(
                    f,
                    t,
                    id,
                    (#[trigger] edit.artists@[i])@,
                )
            &&& edit.artists@.len() == 0 ==> t.release_artists == s.release_artists
            &&& edit.artists@.len() > 0 ==> forall|m: int|
                0 <= m < t.release_artists.len() && (#[trigger] t.release_artists[m]).release_id
                    == id ==> exists|i: int|
                    0 <= i < edit.artists@.len() && is_called(
                        f,
                        t.artists,
                        t.release_artists[m].artist_id,
                        (#[trigger] edit.artists@[i])@,
                    )
        }),
{
    let s = shelf(a);
    let t = shelf(b);
    let names = views(edit.artists@);
    assert(names.len() == edit.artists@.len());
    assert(s.releases.len() == a.releases@.len());
    lemma_first_where(s.releases, is_release(id));
    if let Some(i) = first_where(s.releases, is_release(id)) {
        if s.releases[k].id == id && i != k {
            assert(release_ids(s.releases)[i] == release_ids(s.releases)[k]);
        }
    } else {
        assert(!is_release(id)(s.releases[k]));
    }
    let base = Shelf {
        releases: retitled(s.releases, id, edit),
        release_artists: s.release_artists.filter(of_other_release(id)),
        ..s
    };
    lemma_release_credited(f, base, id, names);
    lemma_filter_holds(s.release_artists, of_other_release(id));
    if edit.artists@.len() > 0 {
        assert forall|i: int| 0 <= i < edit.artists@.len() implies release_is_by(
            f,
            t,
            id,
            (#[trigger] edit.artists@[i])@,
        ) by {
            assert(names[i] == edit.artists@[i]@);
        }
        assert forall|m: int|
            0 <= m < t.release_artists.len() && (#[trigger] t.release_artists[m]).release_id
                == id implies exists|i: int|
            0 <= i < edit.artists@.len() && is_called(
                f,
                t.artists,
                t.release_artists[m].artist_id,
                (#[trigger] edit.artists@[i])@,
            ) by {
            if m < base.release_artists.len() {
                assert(base.release_artists.contains(base.release_artists[m]));
                assert(t.release_artists[m] == base.release_artists[m]);
            } else {
                let i = choose|i: int|
                    0 <= i < names.len() && is_called(
                        f,
                        t.artists,
                        t.release_artists[m].artist_id,
                        #[trigger] names[i],
                    );
                assert(names[i] == edit.artists@[i]@);
            }
        }
    }
}

/// An artist who is renamed has the name and the image; others stay as they are. A
/// name that another artist has is refused, whatever the case of its letters,
/// and then nothing changes.
pub proof fn law_renamed_artist_has_the_name(
    a: Library,
    b: Library,
    id: i64,
    name: Seq<char>,
    image_path: Option<Seq<char>>,
    r: Result<(), String>,
    k: int,
)
    requires
        edits_artist(a, b, id, name, image_path, r),
        artist_ids(shelf(a).artists).no_duplicates(),
        0 <= k < a.artists@.len(),
    ensures
        r is Err <==> exists|m: int|
            0 <= m < a.artists@.len() && (#[trigger] a.artists@[m]).id != id && ascii_lowered(
                a.artists@[m].name@,
            ) == ascii_lowered(name),
        r is Err ==> b == a,
        r is Ok ==> {
            &&& b.artists@.len() == a.artists@.len()
            &&& a.artists@[k].id == id ==> b.artists@[k].name@ == name && b.artists@[k].id == id
                && opt_view(b.artists@[k].image_path) == image_path
            &&& a.artists@[k].id != id ==> b.artists@[k]@ == a.artists@[k]@
            &&& b.track_artists == a.track_artists
        },
{
    let x = viewed(a.artists@);
    let y = viewed(b.artists@);
    let p = is_other_with_name(id, name);
    assert(x.len() == a.artists@.len());
    assert(y.len() == b.artists@.len());
    lemma_first_where(x, p);
    if let Some(m) = first_where(x, p) {
        assert(x[m] == a.artists@[m]@);
        assert(a.artists@[m].id != id);
    } else {
        assert forall|m: int| 0 <= m < a.artists@.len() implies !((#[trigger] a.artists@[m]).id
            != id && ascii_lowered(a.artists@[m].name@) == ascii_lowered(name)) by {
            assert(x[m] == a.artists@[m]@);
            assert(!p(x[m]));
        }
    }
    lemma_first_where(x, is_artist(id));
    assert(x[k] == a.artists@[k]@);
    if r is Ok {
        if let Some(i) = first_where(x, is_artist(id)) {
            if x[k].id == id && i != k {
                assert(artist_ids(x)[i] == artist_ids(x)[k]);
            }
        } else {
            assert(!is_artist(id)(x[k]));
        }
        assert(y[k] == b.artists@[k]@);
    }
}

/// A release whose cover is set has it; nothing else changes.
pub proof fn law_cover_is_set(a: Library, b: Library, id: i64, cover: Seq<char>, k: int)
    requires
        sets_cover(a, b, id, cover),
        release_ids(shelf(a).releases).no_duplicates(),
        0 <= k < a.releases@.len(),
    ensures
        b.releases@.len() == a.releases@.len(),
        a.releases@[k].id == id ==> opt_view(b.releases@[k].cover_path) == Some(cover),
        a.releases@[k].id != id ==> b.releases@[k]@ == a.releases@[k]@,
        b.releases@[k].title@ == a.releases@[k].title@,
        b.tracks == a.tracks,
{
    let x = viewed(a.releases@);
    let y = viewed(b.releases@);
    assert(x.len() == a.releases@.len());
    assert(y.len() == b.releases@.len());
    lemma_first_where(x, is_release(id));
    assert(x[k] == a.releases@[k]@);
    if let Some(i) = first_where(x, is_release(id)) {
        if x[k].id == id && i != k {
            assert(release_ids(x)[i] == release_ids(x)[k]);
        }
    } else {
        assert(!is_release(id)(x[k]));
    }
    assert(y[k] == b.releases@[k]@);
}

// ---------------------------------------------------------------------------
// Deleting
// ---------------------------------------------------------------------------

/// Deleting a track takes that track and nothing else of the tracks; its likes
/// and its places in playlists go with it, and those of others stay. A release
/// goes exactly when no track is left on it.
pub proof fn law_deleting_a_track_takes_only_it(
    a: Library,
    b: Library,
    id: i64,
    t: TrackRowView,
    l: LikeRow,
    e: PlaylistEntry,
    x: ReleaseView,
)
    requires
        deletes_track(a, b, id),
    ensures
        viewed(b.tracks@).contains(t) <==> viewed(a.tracks@).contains(t) && t.id != id,
        b.likes@.contains(l) <==> a.likes@.contains(l) && l.track_id != id,
        b.playlist_tracks@.contains(e) <==> a.playlist_tracks@.contains(e) && e.track_id != id,
        viewed(b.releases@).contains(x) ==> viewed(a.releases@).contains(x) && exists|k: int|
            0 <= k < viewed(b.tracks@).len() && (#[trigger] viewed(b.tracks@)[k]).release_id == x.id,
        viewed(a.releases@).contains(x) && (exists|k: int|
            0 <= k < viewed(a.tracks@).len() && (#[trigger] viewed(a.tracks@)[k]).release_id == x.id
                && viewed(a.tracks@)[k].id != id) ==> viewed(b.releases@).contains(x),
        viewed(b.artists@) == viewed(a.artists@),
{
    let ids = seq![id];
    assert(ids[0] == id);
    assert forall|i: i64| #[trigger] ids.contains(i) <==> i == id by {}
    let s = stock(a);
    let d = tracks_dropped(s, ids);
    lemma_filter_holds(s.shelf.tracks, track_stays(ids));
    lemma_filter_holds(s.likes, like_stays(ids));
    lemma_filter_holds(s.playlist_tracks, entry_stays(ids));
    law_cleanup_leaves_no_empty_release(d);
    lemma_cleaned_lists(d);
    let empty = empty_releases(d.shelf.releases, d.shelf.tracks);
    lemma_filter_holds(d.shelf.releases, release_stays(empty));
    lemma_empty(d.shelf.releases, d.shelf.tracks);
    let c = stock(b).shelf;
    if c.releases.contains(x) {
        let i = c.releases.index_of(x);
        assert(cleaned(d).shelf.releases[i] == x);
        let p = crate::library::delete::is_on(x.id);
        lemma_first_where(d.shelf.tracks, p);
        let k = first_where(d.shelf.tracks, p)->0;
        assert(viewed(b.tracks@)[k].release_id == x.id);
    }
    if viewed(a.releases@).contains(x) && exists|k: int|
        0 <= k < viewed(a.tracks@).len() && (#[trigger] viewed(a.tracks@)[k]).release_id == x.id
            && viewed(a.tracks@)[k].id != id {
        let k = choose|k: int|
            0 <= k < viewed(a.tracks@).len() && (#[trigger] viewed(a.tracks@)[k]).release_id == x.id
                && viewed(a.tracks@)[k].id != id;
        let y = viewed(a.tracks@)[k];
        assert(s.shelf.tracks.contains(y));
        assert(d.shelf.tracks.contains(y));
        let m = d.shelf.tracks.index_of(y);
        let p = crate::library::delete::is_on(x.id);
        lemma_first_where(d.shelf.tracks, p);
        assert(p(d.shelf.tracks[m]));
        assert(!empty.contains(x.id));
        assert(release_stays(empty)(x));
    }
}

proof fn lemma_empty(releases: Seq<ReleaseView>, tracks: Seq<TrackRowView>)
    ensures
        forall|id: i64| #[trigger]
            empty_releases(releases, tracks).contains(id) ==> first_where(
                tracks,
                crate::library::delete::is_on(id),
            ) is None,
    decreases releases.len(),
{
    if releases.len() > 0 {
        let h = releases.drop_last();
        lemma_empty(h, tracks);
        let before = empty_releases(h, tracks);
        let all = empty_releases(releases, tracks);
        assert forall|id: i64| #[trigger] all.contains(id) implies first_where(
            tracks,
            crate::library::delete::is_on(id),
        ) is None by {
            let i = all.index_of(id);
            if i < before.len() {
                assert(before[i] == id);
                assert(before.contains(id));
            }
        }
    }
}

/// Cleaning up drops no like and no entry.
proof fn lemma_cleaned_lists(s: crate::library::delete::Stock)
    ensures
        cleaned(s).likes == s.likes,
        cleaned(s).playlist_tracks == s.playlist_tracks,
        cleaned(s).history == s.history,
{
    let ids = empty_releases(s.shelf.releases, s.shelf.tracks);
    let none = tracks_on(s.shelf.tracks, ids);
    lemma_empty(s.shelf.releases, s.shelf.tracks);
    lemma_on(s.shelf.tracks, ids);
    assert(none.len() == 0) by {
        if none.len() > 0 {
            assert(none.contains(none[0]));
            let k = choose|k: int|
                0 <= k < s.shelf.tracks.len() && (#[trigger] s.shelf.tracks[k]).id == none[0]
                    && ids.contains(s.shelf.tracks[k].release_id);
            let p = crate::library::delete::is_on(s.shelf.tracks[k].release_id);
            lemma_first_where(s.shelf.tracks, p);
            assert(p(s.shelf.tracks[k]));
        }
    }
    crate::lists::lemma_all_stay(s.likes, like_stays(none));
    crate::lists::lemma_all_stay(s.playlist_tracks, entry_stays(none));
    crate::lists::lemma_all_stay(s.history, play_stays(none));
}

proof fn lemma_on(tracks: Seq<TrackRowView>, ids: Seq<i64>)
    ensures
        forall|t: i64| #[trigger]
            tracks_on(tracks, ids).contains(t) <==> exists|k: int|
                0 <= k < tracks.len() && (#[trigger] tracks[k]).id == t && ids.contains(
                    tracks[k].release_id,
                ),
    decreases tracks.len(),
{
    if tracks.len() > 0 {
        let h = tracks.drop_last();
        let n = tracks.len() - 1;
        lemma_on(h, ids);
        let before = tracks_on(h, ids);
        let all = tracks_on(tracks, ids);
        assert forall|t: i64| #[trigger] all.contains(t) <==> exists|k: int|
            0 <= k < tracks.len() && (#[trigger] tracks[k]).id == t && ids.contains(
                tracks[k].release_id,
            ) by {
            if all.contains(t) {
                let i = all.index_of(t);
                if i < before.len() {
                    assert(before[i] == t);
                    assert(before.contains(t));
                    let k = choose|k: int|
                        0 <= k < h.len() && (#[trigger] h[k]).id == t && ids.contains(
                            h[k].release_id,
                        );
                    assert(tracks[k] == h[k]);
                } else {
                    assert(tracks[n].id == t);
                }
            }
            if exists|k: int|
                0 <= k < tracks.len() && (#[trigger] tracks[k]).id == t && ids.contains(
                    tracks[k].release_id,
                ) {
                let k = choose|k: int|
                    0 <= k < tracks.len() && (#[trigger] tracks[k]).id == t && ids.contains(
                        tracks[k].release_id,
                    );
                if k < n {
                    assert(h[k] == tracks[k]);
                    assert(before.contains(t));
                    let i = before.index_of(t);
                    assert(all[i] == t);
                } else {
                    assert(all[before.len() as int] == t);
                }
            }
        }
    }
}

/// Deleting a release takes it and the tracks that are on it, and nothing else of
/// the releases and the tracks.
pub proof fn law_deleting_a_release_takes_its_tracks(
    a: Library,
    b: Library,
    id: i64,
    t: TrackRowView,
    x: ReleaseView,
)
    requires
        deletes_release(a, b, id),
        sound(shelf(a)),
    ensures
        viewed(b.releases@).contains(x) <==> viewed(a.releases@).contains(x) && x.id != id,
        viewed(b.tracks@).contains(t) <==> viewed(a.tracks@).contains(t) && t.release_id != id,
        viewed(b.artists@) == viewed(a.artists@),
{
    let ids = seq![id];
    assert(ids[0] == id);
    assert forall|i: i64| #[trigger] ids.contains(i) <==> i == id by {}
    let s = stock(a).shelf;
    let gone = tracks_on(s.tracks, ids);
    lemma_filter_holds(s.releases, release_stays(ids));
    lemma_filter_holds(s.tracks, track_stays(gone));
    lemma_on(s.tracks, ids);
    if s.tracks.contains(t) {
        let i = s.tracks.index_of(t);
        if t.release_id == id {
            assert(s.tracks[i].id == t.id);
            assert(gone.contains(t.id));
        } else if gone.contains(t.id) {
            let k = choose|k: int|
                0 <= k < s.tracks.len() && (#[trigger] s.tracks[k]).id == t.id && ids.contains(
                    s.tracks[k].release_id,
                );
            assert(track_ids(s.tracks)[k] == track_ids(s.tracks)[i]);
        }
    }
}

/// Deleting an artist takes that artist and no other.
pub proof fn law_deleting_an_artist_takes_only_them(
    a: Library,
    b: Library,
    id: i64,
    x: ArtistView,
)
    requires
        deletes_artist(a, b, id),
    ensures
        viewed(b.artists@).contains(x) <==> viewed(a.artists@).contains(x) && x.id != id,
{
    let s = stock(a);
    let d = artist_dropped(s, id);
    let t = tracks_dropped(d, orphans(d.shelf.tracks, d.shelf.track_artists));
    law_cleanup_leaves_no_empty_release(t);
    lemma_filter_holds(s.shelf.artists, is_other_artist(id));
}

} // verus!
