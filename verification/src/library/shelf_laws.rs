//! What holds of the shelf of artists, releases and tracks whatever is done to
//! it.

use crate::library::delete::{
    artist_deleted, artist_dropped, cleaned, empty_releases, entry_stays, is_main_credit, is_on,
    is_other_artist, like_stays, of_other_artist, orphans, play_stays, release_credit_stays,
    release_of_other_artist, release_stays, releases_dropped, track_credit_stays, track_stays,
    tracks_dropped, tracks_on, Stock,
};
use crate::library::edit::{
    artist_id, artist_ids, artist_place, can_take_in, import_release, is_artist, is_file, is_named,
    is_release, is_release_credit, is_release_of, is_track_row, credit_check, has_release,
    has_track, main_album_artist, of_other_release, of_other_track, release_credited,
    release_edited, release_ids, renamed_artist, retitled, room_for, stripped, track_credited,
    track_edited, track_ids, upserted, with_artist_named, with_release_of, with_track_of, Shelf,
};
use crate::library::import::ImportView;
use crate::library::models::{ReleaseEdit, TrackEdit};
use crate::library::tables::{
    law_new_id_is_unused, lemma_next_id_positive, next_id, ArtistView, ReleaseCredit, ReleaseView,
    TrackCredit, TrackRowView,
};
use crate::lists::{first_where, lemma_all_stay, lemma_filtered, lemma_first_where};
use crate::names::key_of;
use crate::text::{trimmed, views};
use vstd::prelude::*;

verus! {

pub open spec fn track_files(s: Seq<TrackRowView>) -> Seq<Seq<char>> {
    s.map_values(|t: TrackRowView| t.file_path)
}

/// Every track is on a release that is there.
pub open spec fn tracks_placed(tracks: Seq<TrackRowView>, releases: Seq<i64>) -> bool {
    forall|i: int| 0 <= i < tracks.len() ==> releases.contains((#[trigger] tracks[i]).release_id)
}

/// Every credit of a release names a release and an artist that are there.
pub open spec fn release_credits_placed(
    s: Seq<ReleaseCredit>,
    releases: Seq<i64>,
    artists: Seq<i64>,
) -> bool {
    forall|i: int|
        0 <= i < s.len() ==> releases.contains((#[trigger] s[i]).release_id) && artists.contains(
            s[i].artist_id,
        )
}

/// Every credit of a track names a track and an artist that are there.
pub open spec fn track_credits_placed(
    s: Seq<TrackCredit>,
    tracks: Seq<i64>,
    artists: Seq<i64>,
) -> bool {
    forall|i: int|
        0 <= i < s.len() ==> tracks.contains((#[trigger] s[i]).track_id) && artists.contains(
            s[i].artist_id,
        )
}

/// A shelf on which nothing stands twice and nothing refers to what is not
/// there.
pub open spec fn sound(s: Shelf) -> bool {
    &&& artist_ids(s.artists).no_duplicates()
    &&& release_ids(s.releases).no_duplicates()
    &&& track_ids(s.tracks).no_duplicates()
    &&& track_files(s.tracks).no_duplicates()
    &&& tracks_placed(s.tracks, release_ids(s.releases))
    &&& release_credits_placed(
        s.release_artists,
        release_ids(s.releases),
        artist_ids(s.artists),
    )
    &&& track_credits_placed(s.track_artists, track_ids(s.tracks), artist_ids(s.artists))
}

// ---------------------------------------------------------------------------
// Taking in a file
// ---------------------------------------------------------------------------

/// Whether everything in one list of ids is in another.
spec fn among(a: Seq<i64>, b: Seq<i64>) -> bool {
    forall|x: i64| #[trigger] a.contains(x) ==> b.contains(x)
}

proof fn lemma_fresh(ids: Seq<i64>)
    requires
        ids.no_duplicates(),
        next_id(ids) <= i64::MAX,
    ensures
        !ids.contains(next_id(ids) as i64),
        ids.push(next_id(ids) as i64).no_duplicates(),
        among(ids, ids.push(next_id(ids) as i64)),
        ids.push(next_id(ids) as i64).contains(next_id(ids) as i64),
        1 <= next_id(ids),
{
    lemma_next_id_positive(ids);
    let x = next_id(ids) as i64;
    if ids.contains(x) {
        let i = ids.index_of(x);
        law_new_id_is_unused(ids, i);
    }
    let w = ids.push(x);
    assert(w[ids.len() as int] == x);
    assert forall|y: i64| #[trigger] ids.contains(y) implies w.contains(y) by {
        let i = ids.index_of(y);
        assert(w[i] == y);
    }
}

proof fn lemma_next_id_of_push(ids: Seq<i64>)
    requires
        next_id(ids) <= i64::MAX,
    ensures
        next_id(ids.push(next_id(ids) as i64)) == next_id(ids) + 1,
{
    lemma_next_id_positive(ids);
    let w = ids.push(next_id(ids) as i64);
    assert(w.drop_last() =~= ids);
    assert(w.last() == next_id(ids) as i64);
}

proof fn lemma_named<F: Fn(&str) -> String>(f: F, s: Seq<ArtistView>, name: Seq<char>)
    requires
        artist_ids(s).no_duplicates(),
        room_for(s, 1),
    ensures
        artist_ids(with_artist_named(f, s, name)).no_duplicates(),
        among(artist_ids(s), artist_ids(with_artist_named(f, s, name))),
        artist_ids(with_artist_named(f, s, name)).contains(artist_id(f, s, name) as i64),
        next_id(artist_ids(with_artist_named(f, s, name))) <= next_id(artist_ids(s)) + 1,
{
    lemma_first_where(s, is_named(f, key_of(f, trimmed(name))));
    lemma_fresh(artist_ids(s));
    lemma_next_id_of_push(artist_ids(s));
    match artist_place(f, s, trimmed(name)) {
        Some(i) => {
            assert(artist_ids(s)[i] == s[i].id);
        },
        None => {
            assert(artist_ids(with_artist_named(f, s, name)) =~= artist_ids(s).push(
                next_id(artist_ids(s)) as i64,
            ));
        },
    }
}

proof fn lemma_release_credits_sound<F: Fn(&str) -> String>(
    f: F,
    s: Shelf,
    id: i64,
    names: Seq<Seq<char>>,
)
    requires
        sound(s),
        release_ids(s.releases).contains(id),
        room_for(s.artists, names.len() as int),
    ensures
        sound(release_credited(f, s, id, names)),
        release_credited(f, s, id, names).releases == s.releases,
        release_credited(f, s, id, names).tracks == s.tracks,
        release_credited(f, s, id, names).track_artists == s.track_artists,
        next_id(artist_ids(release_credited(f, s, id, names).artists)) <= next_id(
            artist_ids(s.artists),
        ) + names.len(),
    decreases names.len(),
{
    if names.len() > 0 {
        lemma_release_credits_sound(f, s, id, names.drop_last());
        let b = release_credited(f, s, id, names.drop_last());
        lemma_named(f, b.artists, names.last());
    }
}

proof fn lemma_track_credits_sound<F: Fn(&str) -> String>(
    f: F,
    s: Shelf,
    id: i64,
    names: Seq<Seq<char>>,
    featured: bool,
)
    requires
        sound(s),
        track_ids(s.tracks).contains(id),
        room_for(s.artists, names.len() as int),
    ensures
        sound(track_credited(f, s, id, names, featured)),
        track_credited(f, s, id, names, featured).releases == s.releases,
        track_credited(f, s, id, names, featured).tracks == s.tracks,
        track_credited(f, s, id, names, featured).release_artists == s.release_artists,
        next_id(artist_ids(track_credited(f, s, id, names, featured).artists)) <= next_id(
            artist_ids(s.artists),
        ) + names.len(),
    decreases names.len(),
{
    if names.len() > 0 {
        lemma_track_credits_sound(f, s, id, names.drop_last(), featured);
        let b = track_credited(f, s, id, names.drop_last(), featured);
        lemma_named(f, b.artists, names.last());
    }
}

proof fn lemma_release_of_sound<F: Fn(&str) -> String>(f: F, s: Shelf, import: ImportView)
    requires
        sound(s),
        can_take_in(s, import),
    ensures
        sound(with_release_of(f, s, import).0),
        release_ids(with_release_of(f, s, import).0.releases).contains(
            with_release_of(f, s, import).1,
        ),
        with_release_of(f, s, import).0.tracks == s.tracks,
        with_release_of(f, s, import).0.track_artists == s.track_artists,
        next_id(artist_ids(with_release_of(f, s, import).0.artists)) <= next_id(
            artist_ids(s.artists),
        ) + 1 + import.album_artists.len(),
{
    let name = main_album_artist(import);
    lemma_named(f, s.artists, name);
    let named = Shelf { artists: with_artist_named(f, s.artists, name), ..s };
    assert(sound(named));
    let p = is_release_of(
        s.release_artists,
        import.release_title,
        artist_id(f, s.artists, name) as i64,
    );
    lemma_first_where(s.releases, p);
    let (out, id) = with_release_of(f, s, import);
    match import_release(f, s, import) {
        Some(i) => {
            assert(release_ids(out.releases) =~= release_ids(s.releases));
            assert(release_ids(s.releases)[i] == id);
            assert(sound(out));
        },
        None => {
            lemma_fresh(release_ids(s.releases));
            let fresh = Shelf {
                releases: s.releases.push(
                    ReleaseView {
                        id,
                        title: import.release_title,
                        release_type: "album"@,
                        year: import.year,
                        cover_path: None,
                    },
                ),
                ..named
            };
            assert(release_ids(fresh.releases) =~= release_ids(s.releases).push(id));
            assert(sound(fresh));
            lemma_release_credits_sound(f, fresh, id, import.album_artists);
        },
    }
}

proof fn lemma_track_of_sound(s: Shelf, release_id: i64, import: ImportView)
    requires
        sound(s),
        next_id(track_ids(s.tracks)) <= i64::MAX,
        release_ids(s.releases).contains(release_id),
    ensures
        sound(with_track_of(s, release_id, import).0),
        track_ids(with_track_of(s, release_id, import).0.tracks).contains(
            with_track_of(s, release_id, import).1,
        ),
        with_track_of(s, release_id, import).0.artists == s.artists,
{
    let (out, id, created) = with_track_of(s, release_id, import);
    lemma_first_where(s.tracks, is_file(import.file_path));
    match first_where(s.tracks, is_file(import.file_path)) {
        Some(i) => {
            assert(track_ids(out.tracks) =~= track_ids(s.tracks));
            assert(track_ids(s.tracks)[i] == id);
            assert(track_files(out.tracks) =~= track_files(s.tracks));
            lemma_filtered(s.track_artists, of_other_track(id));
            assert(sound(out));
        },
        None => {
            lemma_fresh(track_ids(s.tracks));
            assert(track_ids(out.tracks) =~= track_ids(s.tracks).push(id));
            assert forall|i: int, j: int| 0 <= i < j < out.tracks.len() implies track_files(
                out.tracks,
            )[i] != track_files(out.tracks)[j] by {
                assert(out.tracks[i] == s.tracks[i]);
                if j < s.tracks.len() {
                    assert(track_files(s.tracks)[i] != track_files(s.tracks)[j]);
                }
            }
            assert(sound(out));
        },
    }
}

/// Taking in a file keeps the shelf sound, and the track and its release are
/// then on it.
pub proof fn law_import_keeps_shelf_sound<F: Fn(&str) -> String>(f: F, s: Shelf, import: ImportView)
    requires
        sound(s),
        can_take_in(s, import),
    ensures
        sound(upserted(f, s, import).0),
        track_ids(upserted(f, s, import).0.tracks).contains(upserted(f, s, import).1),
        release_ids(upserted(f, s, import).0.releases).contains(upserted(f, s, import).3),
{
    lemma_release_of_sound(f, s, import);
    let (r, release_id) = with_release_of(f, s, import);
    lemma_track_of_sound(r, release_id, import);
    let (t, track_id, created) = with_track_of(r, release_id, import);
    lemma_track_credits_sound(f, t, track_id, import.artists, false);
    let m = track_credited(f, t, track_id, import.artists, false);
    lemma_track_credits_sound(f, m, track_id, import.featured_artists, true);
}

// ---------------------------------------------------------------------------
// Editing
// ---------------------------------------------------------------------------

/// Editing a track keeps the shelf sound.
pub proof fn law_track_edit_keeps_shelf_sound<F: Fn(&str) -> String>(
    f: F,
    s: Shelf,
    id: i64,
    edit: TrackEdit,
)
    requires
        sound(s),
        credit_check(has_track(s, id), views(edit.artists@) + views(edit.featured_artists@)) is Ok,
        room_for(s.artists, 0int + edit.artists@.len() + edit.featured_artists@.len()),
    ensures
        sound(track_edited(f, s, id, edit)),
{
    let b = stripped(s, id, edit);
    lemma_filtered(s.track_artists, of_other_track(id));
    lemma_first_where(s.tracks, is_track_row(id));
    if let Some(i) = first_where(s.tracks, is_track_row(id)) {
        assert(track_ids(s.tracks)[i] == id);
        assert(track_ids(b.tracks) =~= track_ids(s.tracks));
        assert(track_files(b.tracks) =~= track_files(s.tracks));
        let release_id = s.tracks[i].release_id;
        lemma_first_where(s.releases, is_release(release_id));
        assert(release_ids(b.releases) =~= release_ids(s.releases));
        assert(sound(b));
        lemma_track_credits_sound(f, b, id, views(edit.artists@), false);
        let m = track_credited(f, b, id, views(edit.artists@), false);
        lemma_track_credits_sound(f, m, id, views(edit.featured_artists@), true);
    } else {
        assert(sound(b));
        assert(views(edit.artists@).len() == 0);
        assert(views(edit.featured_artists@).len() == 0);
    }
}

/// Editing a release keeps the shelf sound.
pub proof fn law_release_edit_keeps_shelf_sound<F: Fn(&str) -> String>(
    f: F,
    s: Shelf,
    id: i64,
    edit: ReleaseEdit,
)
    requires
        sound(s),
        credit_check(has_release(s, id), views(edit.artists@)) is Ok,
        room_for(s.artists, edit.artists@.len() as int),
    ensures
        sound(release_edited(f, s, id, edit)),
{
    lemma_first_where(s.releases, is_release(id));
    let releases = retitled(s.releases, id, edit);
    assert(release_ids(releases) =~= release_ids(s.releases));
    assert(sound(Shelf { releases, ..s }));
    if edit.artists@.len() > 0 {
        assert(views(edit.artists@).len() > 0);
        lemma_filtered(s.release_artists, of_other_release(id));
        let b = Shelf {
            releases,
            release_artists: s.release_artists.filter(of_other_release(id)),
            ..s
        };
        assert(sound(b));
        let i = first_where(s.releases, is_release(id))->0;
        assert(release_ids(s.releases)[i] == id);
        lemma_release_credits_sound(f, b, id, views(edit.artists@));
    }
}

/// Naming an artist keeps the shelf sound.
pub proof fn law_artist_edit_keeps_shelf_sound(
    s: Shelf,
    id: i64,
    name: Seq<char>,
    image_path: Option<Seq<char>>,
)
    requires
        sound(s),
    ensures
        sound(Shelf { artists: renamed_artist(s.artists, id, name, image_path), ..s }),
{
    lemma_first_where(s.artists, is_artist(id));
    assert(artist_ids(renamed_artist(s.artists, id, name, image_path)) =~= artist_ids(s.artists));
}

// ---------------------------------------------------------------------------
// Deleting
// ---------------------------------------------------------------------------

/// A sound shelf, and nothing but its tracks in playlists, among the likes and
/// in the history.
pub open spec fn sound_stock(s: Stock) -> bool {
    let tracks = track_ids(s.shelf.tracks);
    &&& sound(s.shelf)
    &&& forall|i: int|
        0 <= i < s.playlist_tracks.len() ==> tracks.contains(
            (#[trigger] s.playlist_tracks[i]).track_id,
        )
    &&& forall|i: int| 0 <= i < s.likes.len() ==> tracks.contains((#[trigger] s.likes[i]).track_id)
    &&& forall|i: int|
        0 <= i < s.history.len() ==> tracks.contains((#[trigger] s.history[i]).track_id)
}

/// What is left of a list has no two elements with the same key if the list
/// had none, and every key that stays is still there.
proof fn lemma_filtered_keys<T, K>(s: Seq<T>, p: spec_fn(T) -> bool, g: spec_fn(T) -> K)
    requires
        s.map_values(g).no_duplicates(),
    ensures
        s.filter(p).map_values(g).no_duplicates(),
        forall|k: K| #[trigger]
            s.filter(p).map_values(g).contains(k) ==> s.map_values(g).contains(k),
    decreases s.len(),
{
    reveal(Seq::filter);
    if s.len() > 0 {
        let h = s.drop_last();
        let keys = s.map_values(g);
        assert(h.map_values(g) =~= keys.drop_last());
        assert forall|i: int, j: int| 0 <= i < j < h.len() implies h.map_values(g)[i]
            != h.map_values(g)[j] by {
            assert(keys[i] != keys[j]);
        }
        lemma_filtered_keys(h, p, g);
        let inner = h.filter(p).map_values(g);
        assert forall|k: K| #[trigger] inner.contains(k) implies keys.contains(k) by {
            let i = h.map_values(g).index_of(k);
            assert(keys[i] == k);
        }
        if p(s.last()) {
            let whole = s.filter(p).map_values(g);
            assert(whole =~= inner.push(g(s.last())));
            assert(!inner.contains(g(s.last()))) by {
                if inner.contains(g(s.last())) {
                    let i = h.map_values(g).index_of(g(s.last()));
                    assert(keys[i] == keys[s.len() - 1]);
                }
            }
            assert(keys[s.len() - 1] == g(s.last()));
            assert forall|k: K| #[trigger] whole.contains(k) implies keys.contains(k) by {
                let i = whole.index_of(k);
                if i < inner.len() {
                    assert(inner[i] == k);
                    assert(inner.contains(k));
                }
            }
        }
    }
}

/// Dropping tracks keeps the stock sound.
proof fn lemma_tracks_dropped_sound(s: Stock, ids: Seq<i64>)
    requires
        sound_stock(s),
    ensures
        sound_stock(tracks_dropped(s, ids)),
{
    let t = tracks_dropped(s, ids);
    let p = track_stays(ids);
    let all = s.shelf.tracks;
    lemma_filtered_keys(all, p, |r: TrackRowView| r.id);
    lemma_filtered_keys(all, p, |r: TrackRowView| r.file_path);
    lemma_filtered(all, p);
    lemma_filtered(s.shelf.track_artists, track_credit_stays(ids));
    lemma_filtered(s.playlist_tracks, entry_stays(ids));
    lemma_filtered(s.likes, like_stays(ids));
    lemma_filtered(s.history, play_stays(ids));
    assert forall|id: i64| #[trigger] track_ids(all).contains(id) && !ids.contains(id) implies track_ids(
        t.shelf.tracks,
    ).contains(id) by {
        let i = track_ids(all).index_of(id);
        assert(all[i].id == id);
        assert(p(all[i]));
        let j = t.shelf.tracks.index_of(all[i]);
        assert(track_ids(t.shelf.tracks)[j] == id);
    }
    assert forall|i: int| 0 <= i < t.shelf.tracks.len() implies release_ids(
        s.shelf.releases,
    ).contains((#[trigger] t.shelf.tracks[i]).release_id) by {
        let k = all.index_of(t.shelf.tracks[i]);
        assert(all[k] == t.shelf.tracks[i]);
    }
    assert forall|i: int| 0 <= i < t.shelf.track_artists.len() implies track_ids(
        t.shelf.tracks,
    ).contains((#[trigger] t.shelf.track_artists[i]).track_id) && artist_ids(
        s.shelf.artists,
    ).contains(t.shelf.track_artists[i].artist_id) by {
        let c = t.shelf.track_artists[i];
        let k = s.shelf.track_artists.index_of(c);
        assert(s.shelf.track_artists[k] == c);
    }
    assert forall|i: int| 0 <= i < t.playlist_tracks.len() implies track_ids(
        t.shelf.tracks,
    ).contains((#[trigger] t.playlist_tracks[i]).track_id) by {
        let c = t.playlist_tracks[i];
        let k = s.playlist_tracks.index_of(c);
        assert(s.playlist_tracks[k] == c);
    }
    assert forall|i: int| 0 <= i < t.likes.len() implies track_ids(t.shelf.tracks).contains(
        (#[trigger] t.likes[i]).track_id,
    ) by {
        let c = t.likes[i];
        let k = s.likes.index_of(c);
        assert(s.likes[k] == c);
    }
    assert forall|i: int| 0 <= i < t.history.len() implies track_ids(t.shelf.tracks).contains(
        (#[trigger] t.history[i]).track_id,
    ) by {
        let c = t.history[i];
        let k = s.history.index_of(c);
        assert(s.history[k] == c);
    }
}

proof fn lemma_tracks_on(tracks: Seq<TrackRowView>, releases: Seq<i64>)
    ensures
        forall|i: int|
            0 <= i < tracks.len() && releases.contains((#[trigger] tracks[i]).release_id)
                ==> tracks_on(tracks, releases).contains(tracks[i].id),
    decreases tracks.len(),
{
    if tracks.len() > 0 {
        let h = tracks.drop_last();
        lemma_tracks_on(h, releases);
        let before = tracks_on(h, releases);
        let after = tracks_on(tracks, releases);
        assert forall|i: int|
            0 <= i < tracks.len() && releases.contains(
                (#[trigger] tracks[i]).release_id,
            ) implies after.contains(tracks[i].id) by {
            if i < h.len() {
                assert(h[i] == tracks[i]);
                let k = before.index_of(tracks[i].id);
                assert(after[k] == tracks[i].id);
            } else {
                assert(after[before.len() as int] == tracks[i].id);
            }
        }
    }
}

/// Dropping releases keeps the stock sound.
proof fn lemma_releases_dropped_sound(s: Stock, ids: Seq<i64>)
    requires
        sound_stock(s),
    ensures
        sound_stock(releases_dropped(s, ids)),
{
    let gone = tracks_on(s.shelf.tracks, ids);
    let t = tracks_dropped(s, gone);
    lemma_tracks_dropped_sound(s, gone);
    lemma_tracks_on(s.shelf.tracks, ids);
    lemma_filtered(s.shelf.tracks, track_stays(gone));
    let all = s.shelf.releases;
    let p = release_stays(ids);
    let left = all.filter(p);
    lemma_filtered(all, p);
    lemma_filtered_keys(all, p, |r: ReleaseView| r.id);
    lemma_filtered(s.shelf.release_artists, release_credit_stays(ids));
    let out = releases_dropped(s, ids);
    assert forall|id: i64| #[trigger] release_ids(all).contains(id) && !ids.contains(id) implies release_ids(
        left,
    ).contains(id) by {
        let i = release_ids(all).index_of(id);
        assert(p(all[i]));
        let j = left.index_of(all[i]);
        assert(release_ids(left)[j] == id);
    }
    assert forall|i: int| 0 <= i < out.shelf.tracks.len() implies release_ids(left).contains(
        (#[trigger] out.shelf.tracks[i]).release_id,
    ) by {
        let r = t.shelf.tracks[i];
        let k = s.shelf.tracks.index_of(r);
        assert(s.shelf.tracks[k] == r);
        assert(track_stays(gone)(r));
        assert(release_ids(all).contains(r.release_id));
    }
    assert forall|i: int| 0 <= i < out.shelf.release_artists.len() implies release_ids(
        left,
    ).contains((#[trigger] out.shelf.release_artists[i]).release_id) && artist_ids(
        s.shelf.artists,
    ).contains(out.shelf.release_artists[i].artist_id) by {
        let c = out.shelf.release_artists[i];
        let k = s.shelf.release_artists.index_of(c);
        assert(s.shelf.release_artists[k] == c);
        assert(release_credit_stays(ids)(c));
    }
}

/// Dropping an artist with its credits keeps the stock sound.
proof fn lemma_artist_dropped_sound(s: Stock, id: i64)
    requires
        sound_stock(s),
    ensures
        sound_stock(artist_dropped(s, id)),
{
    let out = artist_dropped(s, id);
    let all = s.shelf.artists;
    let p = is_other_artist(id);
    lemma_filtered(all, p);
    lemma_filtered_keys(all, p, |a: ArtistView| a.id);
    lemma_filtered(s.shelf.release_artists, release_of_other_artist(id));
    lemma_filtered(s.shelf.track_artists, of_other_artist(id));
    assert forall|k: i64| #[trigger] artist_ids(all).contains(k) && k != id implies artist_ids(
        out.shelf.artists,
    ).contains(k) by {
        let i = artist_ids(all).index_of(k);
        assert(p(all[i]));
        let j = out.shelf.artists.index_of(all[i]);
        assert(artist_ids(out.shelf.artists)[j] == k);
    }
    assert forall|i: int| 0 <= i < out.shelf.release_artists.len() implies release_ids(
        s.shelf.releases,
    ).contains((#[trigger] out.shelf.release_artists[i]).release_id) && artist_ids(
        out.shelf.artists,
    ).contains(out.shelf.release_artists[i].artist_id) by {
        let c = out.shelf.release_artists[i];
        let k = s.shelf.release_artists.index_of(c);
        assert(s.shelf.release_artists[k] == c);
        assert(release_of_other_artist(id)(c));
    }
    assert forall|i: int| 0 <= i < out.shelf.track_artists.len() implies track_ids(
        s.shelf.tracks,
    ).contains((#[trigger] out.shelf.track_artists[i]).track_id) && artist_ids(
        out.shelf.artists,
    ).contains(out.shelf.track_artists[i].artist_id) by {
        let c = out.shelf.track_artists[i];
        let k = s.shelf.track_artists.index_of(c);
        assert(s.shelf.track_artists[k] == c);
        assert(of_other_artist(id)(c));
    }
}

/// Deleting a track leaves nothing that refers to it, nor to what went with it.
pub proof fn law_track_delete_keeps_stock_sound(s: Stock, id: i64)
    requires
        sound_stock(s),
    ensures
        sound_stock(cleaned(tracks_dropped(s, seq![id]))),
        !track_ids(cleaned(tracks_dropped(s, seq![id])).shelf.tracks).contains(id),
{
    let t = tracks_dropped(s, seq![id]);
    lemma_tracks_dropped_sound(s, seq![id]);
    lemma_releases_dropped_sound(t, empty_releases(t.shelf.releases, t.shelf.tracks));
    let c = cleaned(t);
    lemma_filtered(s.shelf.tracks, track_stays(seq![id]));
    let gone = tracks_on(t.shelf.tracks, empty_releases(t.shelf.releases, t.shelf.tracks));
    lemma_filtered(t.shelf.tracks, track_stays(gone));
    if track_ids(c.shelf.tracks).contains(id) {
        let i = track_ids(c.shelf.tracks).index_of(id);
        let k = t.shelf.tracks.index_of(c.shelf.tracks[i]);
        assert(track_stays(seq![id])(t.shelf.tracks[k]));
        assert(seq![id][0] == id);
        assert(seq![id].contains(id));
    }
}

/// Deleting a release leaves nothing that refers to it, nor to its tracks.
pub proof fn law_release_delete_keeps_stock_sound(s: Stock, id: i64)
    requires
        sound_stock(s),
    ensures
        sound_stock(releases_dropped(s, seq![id])),
        !release_ids(releases_dropped(s, seq![id]).shelf.releases).contains(id),
{
    lemma_releases_dropped_sound(s, seq![id]);
    let c = releases_dropped(s, seq![id]);
    lemma_filtered(s.shelf.releases, release_stays(seq![id]));
    if release_ids(c.shelf.releases).contains(id) {
        let i = release_ids(c.shelf.releases).index_of(id);
        assert(release_stays(seq![id])(c.shelf.releases[i]));
        assert(seq![id][0] == id);
        assert(seq![id].contains(id));
    }
}

/// Deleting an artist leaves nothing that refers to it, nor to what went with
/// it.
pub proof fn law_artist_delete_keeps_stock_sound(s: Stock, id: i64)
    requires
        sound_stock(s),
    ensures
        sound_stock(artist_deleted(s, id)),
        !artist_ids(artist_deleted(s, id).shelf.artists).contains(id),
{
    let a = artist_dropped(s, id);
    lemma_artist_dropped_sound(s, id);
    let ids = orphans(a.shelf.tracks, a.shelf.track_artists);
    let t = tracks_dropped(a, ids);
    lemma_tracks_dropped_sound(a, ids);
    lemma_releases_dropped_sound(t, empty_releases(t.shelf.releases, t.shelf.tracks));
    let c = artist_deleted(s, id);
    lemma_filtered(s.shelf.artists, is_other_artist(id));
    if artist_ids(c.shelf.artists).contains(id) {
        let i = artist_ids(c.shelf.artists).index_of(id);
        assert(is_other_artist(id)(c.shelf.artists[i]));
    }
}

proof fn lemma_empty_releases(releases: Seq<ReleaseView>, tracks: Seq<TrackRowView>)
    ensures
        forall|id: i64| #[trigger]
            empty_releases(releases, tracks).contains(id) ==> first_where(tracks, is_on(id)) is None,
        forall|i: int|
            0 <= i < releases.len() && first_where(tracks, is_on((#[trigger] releases[i]).id)) is None
                ==> empty_releases(releases, tracks).contains(releases[i].id),
    decreases releases.len(),
{
    if releases.len() > 0 {
        let h = releases.drop_last();
        lemma_empty_releases(h, tracks);
        let before = empty_releases(h, tracks);
        let after = empty_releases(releases, tracks);
        assert forall|id: i64| #[trigger] after.contains(id) implies first_where(
            tracks,
            is_on(id),
        ) is None by {
            let k = after.index_of(id);
            if k < before.len() {
                assert(before[k] == id);
                assert(before.contains(id));
            }
        }
        assert forall|i: int|
            0 <= i < releases.len() && first_where(
                tracks,
                is_on((#[trigger] releases[i]).id),
            ) is None implies after.contains(releases[i].id) by {
            if i < h.len() {
                assert(h[i] == releases[i]);
                let k = before.index_of(releases[i].id);
                assert(after[k] == releases[i].id);
            } else {
                assert(after[before.len() as int] == releases[i].id);
            }
        }
    }
}

proof fn lemma_no_tracks_on(tracks: Seq<TrackRowView>, releases: Seq<i64>)
    requires
        forall|i: int|
            0 <= i < tracks.len() ==> !releases.contains((#[trigger] tracks[i]).release_id),
    ensures
        tracks_on(tracks, releases) == Seq::<i64>::empty(),
    decreases tracks.len(),
{
    if tracks.len() > 0 {
        let h = tracks.drop_last();
        assert forall|i: int| 0 <= i < h.len() implies !releases.contains(
            (#[trigger] h[i]).release_id,
        ) by {
            assert(h[i] == tracks[i]);
        }
        lemma_no_tracks_on(h, releases);
        assert(tracks.last() == tracks[tracks.len() - 1]);
    }
}

/// Cleaning up touches no track and leaves no release without one.
pub proof fn law_cleanup_leaves_no_empty_release(s: Stock)
    ensures
        cleaned(s).shelf.tracks == s.shelf.tracks,
        cleaned(s).shelf.track_artists == s.shelf.track_artists,
        cleaned(s).shelf.artists == s.shelf.artists,
        forall|i: int|
            0 <= i < cleaned(s).shelf.releases.len() ==> first_where(
                s.shelf.tracks,
                is_on((#[trigger] cleaned(s).shelf.releases[i]).id),
            ) is Some,
{
    let tracks = s.shelf.tracks;
    let ids = empty_releases(s.shelf.releases, tracks);
    lemma_empty_releases(s.shelf.releases, tracks);
    assert forall|i: int| 0 <= i < tracks.len() implies !ids.contains(
        (#[trigger] tracks[i]).release_id,
    ) by {
        lemma_first_where(tracks, is_on(tracks[i].release_id));
        assert(is_on(tracks[i].release_id)(tracks[i]));
    }
    lemma_no_tracks_on(tracks, ids);
    let none = Seq::<i64>::empty();
    lemma_all_stay(tracks, track_stays(none));
    lemma_all_stay(s.shelf.track_artists, track_credit_stays(none));
    let left = cleaned(s).shelf.releases;
    lemma_filtered(s.shelf.releases, release_stays(ids));
    assert forall|i: int| 0 <= i < left.len() implies first_where(
        tracks,
        is_on((#[trigger] left[i]).id),
    ) is Some by {
        let k = s.shelf.releases.index_of(left[i]);
        assert(s.shelf.releases[k] == left[i]);
        assert(release_stays(ids)(left[i]));
    }
}

proof fn lemma_orphans(tracks: Seq<TrackRowView>, credits: Seq<TrackCredit>)
    ensures
        forall|id: i64| #[trigger]
            orphans(tracks, credits).contains(id) ==> first_where(
                credits,
                is_main_credit(id),
            ) is None,
        forall|i: int|
            0 <= i < tracks.len() && first_where(
                credits,
                is_main_credit((#[trigger] tracks[i]).id),
            ) is None ==> orphans(tracks, credits).contains(tracks[i].id),
    decreases tracks.len(),
{
    if tracks.len() > 0 {
        let h = tracks.drop_last();
        lemma_orphans(h, credits);
        let before = orphans(h, credits);
        let after = orphans(tracks, credits);
        assert forall|id: i64| #[trigger] after.contains(id) implies first_where(
            credits,
            is_main_credit(id),
        ) is None by {
            let k = after.index_of(id);
            if k < before.len() {
                assert(before[k] == id);
                assert(before.contains(id));
            }
        }
        assert forall|i: int|
            0 <= i < tracks.len() && first_where(
                credits,
                is_main_credit((#[trigger] tracks[i]).id),
            ) is None implies after.contains(tracks[i].id) by {
            if i < h.len() {
                assert(h[i] == tracks[i]);
                let k = before.index_of(tracks[i].id);
                assert(after[k] == tracks[i].id);
            } else {
                assert(after[before.len() as int] == tracks[i].id);
            }
        }
    }
}

/// After an artist was deleted nothing is credited to them, every track has a
/// main artist, and every release has a track.
pub proof fn law_artist_delete_leaves_owned_tracks(s: Stock, id: i64)
    ensures
        ({
            let after = artist_deleted(s, id).shelf;
            &&& forall|i: int|
                0 <= i < after.track_artists.len() ==> (#[trigger] after.track_artists[i]).artist_id
                    != id
            &&& forall|i: int|
                0 <= i < after.tracks.len() ==> first_where(
                    after.track_artists,
                    is_main_credit((#[trigger] after.tracks[i]).id),
                ) is Some
            &&& forall|i: int|
                0 <= i < after.releases.len() ==> first_where(
                    after.tracks,
                    is_on((#[trigger] after.releases[i]).id),
                ) is Some
        }),
{
    let a = artist_dropped(s, id);
    let ids = orphans(a.shelf.tracks, a.shelf.track_artists);
    let t = tracks_dropped(a, ids);
    let after = artist_deleted(s, id).shelf;
    law_cleanup_leaves_no_empty_release(t);
    lemma_orphans(a.shelf.tracks, a.shelf.track_artists);
    lemma_filtered(s.shelf.track_artists, of_other_artist(id));
    lemma_filtered(a.shelf.track_artists, track_credit_stays(ids));
    lemma_filtered(a.shelf.tracks, track_stays(ids));
    assert forall|i: int| 0 <= i < after.track_artists.len() implies (
    #[trigger] after.track_artists[i]).artist_id != id by {
        let k = a.shelf.track_artists.index_of(after.track_artists[i]);
        assert(of_other_artist(id)(a.shelf.track_artists[k]));
    }
    assert forall|i: int| 0 <= i < after.tracks.len() implies first_where(
        after.track_artists,
        is_main_credit((#[trigger] after.tracks[i]).id),
    ) is Some by {
        let r = after.tracks[i];
        let k = a.shelf.tracks.index_of(r);
        assert(a.shelf.tracks[k] == r);
        assert(track_stays(ids)(r));
        let p = is_main_credit(r.id);
        lemma_first_where(a.shelf.track_artists, p);
        let m = first_where(a.shelf.track_artists, p)->0;
        let c = a.shelf.track_artists[m];
        assert(track_credit_stays(ids)(c));
        let n = after.track_artists.index_of(c);
        lemma_first_where(after.track_artists, p);
        assert(p(after.track_artists[n]));
    }
}

/// A track that another artist has a main part in outlives the deletion of an
/// artist.
pub proof fn law_collaborations_outlive_an_artist(s: Stock, id: i64, i: int, k: int)
    requires
        0 <= i < s.shelf.tracks.len(),
        0 <= k < s.shelf.track_artists.len(),
        is_main_credit(s.shelf.tracks[i].id)(s.shelf.track_artists[k]),
        s.shelf.track_artists[k].artist_id != id,
    ensures
        artist_deleted(s, id).shelf.tracks.contains(s.shelf.tracks[i]),
{
    let a = artist_dropped(s, id);
    let ids = orphans(a.shelf.tracks, a.shelf.track_artists);
    let t = tracks_dropped(a, ids);
    law_cleanup_leaves_no_empty_release(t);
    lemma_orphans(a.shelf.tracks, a.shelf.track_artists);
    lemma_filtered(s.shelf.track_artists, of_other_artist(id));
    lemma_filtered(a.shelf.tracks, track_stays(ids));
    let c = s.shelf.track_artists[k];
    let r = s.shelf.tracks[i];
    assert(of_other_artist(id)(c));
    let n = a.shelf.track_artists.index_of(c);
    lemma_first_where(a.shelf.track_artists, is_main_credit(r.id));
    assert(is_main_credit(r.id)(a.shelf.track_artists[n]));
    assert(track_stays(ids)(a.shelf.tracks[i]));
}

// ---------------------------------------------------------------------------
// Taking in a file again
// ---------------------------------------------------------------------------

/// Whether a list of artists is another one with more at its end.
spec fn grown(a: Seq<ArtistView>, b: Seq<ArtistView>) -> bool {
    a.len() <= b.len() && b.take(a.len() as int) == a
}

proof fn lemma_grown_place<F: Fn(&str) -> String>(
    f: F,
    a: Seq<ArtistView>,
    b: Seq<ArtistView>,
    name: Seq<char>,
)
    requires
        grown(with_artist_named(f, a, name), b),
    ensures
        with_artist_named(f, b, name) == b,
        0 <= next_id(artist_ids(a)) <= i64::MAX ==> artist_id(f, b, name) == artist_id(f, a, name),
{
    let w = with_artist_named(f, a, name);
    let p = is_named(f, key_of(f, trimmed(name)));
    lemma_first_where(a, p);
    lemma_first_where(b, p);
    let i = match first_where(a, p) {
        Some(i) => i,
        None => a.len() as int,
    };
    assert(w[i] == b.take(w.len() as int)[i]);
    assert(p(b[i]));
    let j = first_where(b, p)->0;
    assert(j <= i);
    if j < i {
        assert(w[j] == b.take(w.len() as int)[j]);
        assert(w[j] == a[j]);
    }
}

proof fn lemma_grown_by_name<F: Fn(&str) -> String>(f: F, a: Seq<ArtistView>, name: Seq<char>)
    ensures
        grown(a, with_artist_named(f, a, name)),
{
    let w = with_artist_named(f, a, name);
    assert(w.take(a.len() as int) =~= a);
}

proof fn lemma_grown_twice(a: Seq<ArtistView>, b: Seq<ArtistView>, c: Seq<ArtistView>)
    requires
        grown(a, b),
        grown(b, c),
    ensures
        grown(a, c),
{
    assert(c.take(a.len() as int) =~= b.take(a.len() as int));
}

proof fn lemma_grown_by_track_credits<F: Fn(&str) -> String>(
    f: F,
    s: Shelf,
    id: i64,
    names: Seq<Seq<char>>,
    featured: bool,
)
    ensures
        grown(s.artists, track_credited(f, s, id, names, featured).artists),
    decreases names.len(),
{
    if names.len() > 0 {
        let b = track_credited(f, s, id, names.drop_last(), featured);
        lemma_grown_by_track_credits(f, s, id, names.drop_last(), featured);
        lemma_grown_by_name(f, b.artists, names.last());
        lemma_grown_twice(s.artists, b.artists, with_artist_named(f, b.artists, names.last()));
    } else {
        assert(s.artists.take(s.artists.len() as int) =~= s.artists);
    }
}

proof fn lemma_grown_by_release_credits<F: Fn(&str) -> String>(
    f: F,
    s: Shelf,
    id: i64,
    names: Seq<Seq<char>>,
)
    ensures
        grown(s.artists, release_credited(f, s, id, names).artists),
    decreases names.len(),
{
    if names.len() > 0 {
        let b = release_credited(f, s, id, names.drop_last());
        lemma_grown_by_release_credits(f, s, id, names.drop_last());
        lemma_grown_by_name(f, b.artists, names.last());
        lemma_grown_twice(s.artists, b.artists, with_artist_named(f, b.artists, names.last()));
    } else {
        assert(s.artists.take(s.artists.len() as int) =~= s.artists);
    }
}

/// Crediting a track again, with the artists that came in the first time, gives
/// the same credits and no new artist.
proof fn lemma_credits_again<F: Fn(&str) -> String>(
    f: F,
    s: Shelf,
    again: Shelf,
    id: i64,
    names: Seq<Seq<char>>,
    featured: bool,
)
    requires
        sound(s),
        track_ids(s.tracks).contains(id),
        room_for(s.artists, names.len() as int),
        again.track_artists == s.track_artists,
        grown(track_credited(f, s, id, names, featured).artists, again.artists),
    ensures
        track_credited(f, again, id, names, featured) == (Shelf {
            track_artists: track_credited(f, s, id, names, featured).track_artists,
            ..again
        }),
    decreases names.len(),
{
    if names.len() > 0 {
        let b = track_credited(f, s, id, names.drop_last(), featured);
        let w = with_artist_named(f, b.artists, names.last());
        lemma_track_credits_sound(f, s, id, names.drop_last(), featured);
        lemma_next_id_positive(artist_ids(b.artists));
        lemma_grown_by_name(f, b.artists, names.last());
        lemma_grown_twice(b.artists, w, again.artists);
        lemma_credits_again(f, s, again, id, names.drop_last(), featured);
        lemma_grown_place(f, b.artists, again.artists, names.last());
    }
}

proof fn lemma_filter_push_all<T>(s: Seq<T>, p: spec_fn(T) -> bool, x: T)
    ensures
        s.push(x).filter(p) == if p(x) {
            s.filter(p).push(x)
        } else {
            s.filter(p)
        },
{
    reveal(Seq::filter);
    assert(s.push(x).drop_last() =~= s);
}

/// The credits of other tracks are what they were.
proof fn lemma_other_credits_stay<F: Fn(&str) -> String>(
    f: F,
    s: Shelf,
    id: i64,
    names: Seq<Seq<char>>,
    featured: bool,
)
    ensures
        track_credited(f, s, id, names, featured).track_artists.filter(of_other_track(id))
            == s.track_artists.filter(of_other_track(id)),
    decreases names.len(),
{
    if names.len() > 0 {
        let b = track_credited(f, s, id, names.drop_last(), featured);
        lemma_other_credits_stay(f, s, id, names.drop_last(), featured);
        let c = TrackCredit {
            track_id: id,
            artist_id: artist_id(f, b.artists, names.last()) as i64,
            featured,
            position: (names.len() - 1) as i64,
        };
        lemma_filter_push_all(b.track_artists, of_other_track(id), c);
    }
}

/// The credits that are there stay where they are, and each name's artist is
/// then credited.
proof fn lemma_release_credits_of<F: Fn(&str) -> String>(
    f: F,
    s: Shelf,
    id: i64,
    names: Seq<Seq<char>>,
    other: i64,
    artist: i64,
)
    ensures
        other != id ==> first_where(
            release_credited(f, s, id, names).release_artists,
            is_release_credit(other, artist),
        ) == first_where(s.release_artists, is_release_credit(other, artist)),
    decreases names.len(),
{
    if names.len() > 0 {
        lemma_release_credits_of(f, s, id, names.drop_last(), other, artist);
        let b = release_credited(f, s, id, names.drop_last());
        let c = ReleaseCredit {
            release_id: id,
            artist_id: artist_id(f, b.artists, names.last()) as i64,
            position: (names.len() - 1) as i64,
        };
        assert(b.release_artists.push(c).drop_last() =~= b.release_artists);
    }
}

proof fn lemma_first_is_credited<F: Fn(&str) -> String>(
    f: F,
    s: Shelf,
    id: i64,
    names: Seq<Seq<char>>,
)
    requires
        names.len() > 0,
    ensures
        first_where(
            release_credited(f, s, id, names).release_artists,
            is_release_credit(id, artist_id(f, s.artists, names[0]) as i64),
        ) is Some,
    decreases names.len(),
{
    let h = names.drop_last();
    let b = release_credited(f, s, id, h);
    let c = ReleaseCredit {
        release_id: id,
        artist_id: artist_id(f, b.artists, names.last()) as i64,
        position: (names.len() - 1) as i64,
    };
    let p = is_release_credit(id, artist_id(f, s.artists, names[0]) as i64);
    assert(b.release_artists.push(c).drop_last() =~= b.release_artists);
    if names.len() > 1 {
        assert(h[0] == names[0]);
        lemma_first_is_credited(f, s, id, h);
    } else {
        assert(b == s);
        assert(p(c));
    }
}

/// Taking in a file a second time changes nothing: it finds the track that the
/// first time gave. The file names an artist of its album.
pub proof fn law_import_again_changes_nothing<F: Fn(&str) -> String>(
    f: F,
    s: Shelf,
    import: ImportView,
)
    requires
        sound(s),
        can_take_in(s, import),
        import.album_artists.len() > 0,
    ensures
        ({
            let (once, track_id, created, release_id) = upserted(f, s, import);
            upserted(f, once, import) == (once, track_id, false, release_id)
        }),
{
    let name = main_album_artist(import);
    let (r, release_id) = with_release_of(f, s, import);
    let (t, track_id, created) = with_track_of(r, release_id, import);
    let m = track_credited(f, t, track_id, import.artists, false);
    let once = track_credited(f, m, track_id, import.featured_artists, true);
    lemma_release_of_sound(f, s, import);
    lemma_track_of_sound(r, release_id, import);
    lemma_track_credits_sound(f, t, track_id, import.artists, false);
    lemma_track_credits_sound(f, m, track_id, import.featured_artists, true);
    lemma_next_id_positive(artist_ids(s.artists));
    let named = with_artist_named(f, s.artists, name);
    lemma_named(f, s.artists, name);
    // The artists of the first time are still there.
    lemma_grown_by_track_credits(f, t, track_id, import.artists, false);
    lemma_grown_by_track_credits(f, m, track_id, import.featured_artists, true);
    lemma_grown_twice(t.artists, m.artists, once.artists);
    assert(t.artists == r.artists);
    assert(grown(named, r.artists)) by {
        if import_release(f, s, import) is None {
            let id = next_id(release_ids(s.releases)) as i64;
            let fresh = Shelf {
                artists: named,
                releases: s.releases.push(
                    ReleaseView {
                        id,
                        title: import.release_title,
                        release_type: "album"@,
                        year: import.year,
                        cover_path: None,
                    },
                ),
                ..s
            };
            lemma_grown_by_release_credits(f, fresh, id, import.album_artists);
        } else {
            assert(named.take(named.len() as int) =~= named);
        }
    }
    lemma_grown_twice(named, r.artists, once.artists);
    lemma_grown_place(f, s.artists, once.artists, name);
    // The release is found again.
    lemma_release_again(f, s, import, once);
    let (r2, release_again) = with_release_of(f, once, import);
    assert(r2 == once && release_again == release_id);
    // So is the track.
    let q = is_file(import.file_path);
    lemma_first_where(s.tracks, q);
    lemma_first_where(once.tracks, q);
    let place = match first_where(s.tracks, q) {
        Some(i) => i,
        None => s.tracks.len() as int,
    };
    assert(once.tracks == t.tracks);
    assert(q(once.tracks[place]));
    assert(first_where(once.tracks, q) == Some(place)) by {
        let k = first_where(once.tracks, q)->0;
        assert(k <= place);
        if k < place {
            assert(once.tracks[k] == s.tracks[k]);
        }
    }
    let (t2, track_again, created_again) = with_track_of(once, release_id, import);
    assert(track_again == track_id);
    assert(t2.tracks =~= once.tracks);
    lemma_other_credits_stay(f, t, track_id, import.artists, false);
    lemma_other_credits_stay(f, m, track_id, import.featured_artists, true);
    assert(t.track_artists.filter(of_other_track(track_id)) == t.track_artists) by {
        lemma_filtered(s.track_artists, of_other_track(track_id));
        assert forall|i: int| 0 <= i < t.track_artists.len() implies of_other_track(track_id)(
            #[trigger] t.track_artists[i],
        ) by {
            if created {
                assert(track_ids(s.tracks).contains(s.track_artists[i].track_id));
                lemma_fresh(track_ids(s.tracks));
            }
        }
        lemma_all_stay(t.track_artists, of_other_track(track_id));
    }
    assert(t2.track_artists == t.track_artists);
    // And so are its credits.
    lemma_grown_by_track_credits(f, m, track_id, import.featured_artists, true);
    lemma_credits_again(f, t, t2, track_id, import.artists, false);
    let m2 = track_credited(f, t2, track_id, import.artists, false);
    assert(m2 == (Shelf { track_artists: m.track_artists, ..t2 }));
    assert(once.artists.take(once.artists.len() as int) =~= once.artists);
    lemma_credits_again(f, m, m2, track_id, import.featured_artists, true);
    let once2 = track_credited(f, m2, track_id, import.featured_artists, true);
    assert(once2 =~= once);
}

/// The release of a file is found again after the file was taken in.
proof fn lemma_release_again<F: Fn(&str) -> String>(
    f: F,
    s: Shelf,
    import: ImportView,
    once: Shelf,
)
    requires
        sound(s),
        can_take_in(s, import),
        import.album_artists.len() > 0,
        once.releases == with_release_of(f, s, import).0.releases,
        once.release_artists == with_release_of(f, s, import).0.release_artists,
        with_artist_named(f, once.artists, main_album_artist(import)) == once.artists,
        artist_id(f, once.artists, main_album_artist(import)) == artist_id(
            f,
            s.artists,
            main_album_artist(import),
        ),
    ensures
        with_release_of(f, once, import) == (once, with_release_of(f, s, import).1),
{
    let name = main_album_artist(import);
    let aid = artist_id(f, s.artists, name) as i64;
    let named = with_artist_named(f, s.artists, name);
    let p = is_release_of(s.release_artists, import.release_title, aid);
    let q = is_release_of(once.release_artists, import.release_title, aid);
    let release_id = with_release_of(f, s, import).1;
    lemma_first_where(s.releases, p);
    lemma_first_where(once.releases, q);
    match import_release(f, s, import) {
        Some(i) => {
            assert(q(once.releases[i]));
            let k = first_where(once.releases, q)->0;
            assert(k == i) by {
                if k < i {
                    assert(once.releases[k] == s.releases[k]);
                    assert(p(s.releases[k]));
                }
            }
            assert(with_release_of(f, once, import).0.releases =~= once.releases);
        },
        None => {
            let fresh = Shelf {
                artists: named,
                releases: s.releases.push(
                    ReleaseView {
                        id: release_id,
                        title: import.release_title,
                        release_type: "album"@,
                        year: import.year,
                        cover_path: None,
                    },
                ),
                ..s
            };
            lemma_fresh(release_ids(s.releases));
            lemma_named(f, s.artists, name);
            lemma_grown_by_name(f, s.artists, name);
            assert(named.take(named.len() as int) =~= named);
            lemma_next_id_positive(artist_ids(s.artists));
            lemma_grown_place(f, s.artists, named, name);
            lemma_first_is_credited(f, fresh, release_id, import.album_artists);
            let last = s.releases.len() as int;
            lemma_release_credits_only(f, fresh, release_id, import.album_artists);
            assert(once.releases == fresh.releases);
            assert(q(once.releases[last]));
            let k = first_where(once.releases, q)->0;
            assert(k == last) by {
                if k < last {
                    let o = s.releases[k];
                    assert(once.releases[k] == o);
                    assert(release_ids(s.releases)[k] == o.id);
                    assert(release_ids(s.releases).contains(o.id));
                    lemma_release_credits_of(
                        f,
                        fresh,
                        release_id,
                        import.album_artists,
                        o.id,
                        aid,
                    );
                    assert(p(o));
                }
            }
            assert(with_release_of(f, once, import).0.releases =~= once.releases);
        },
    }
}

proof fn lemma_release_credits_only<F: Fn(&str) -> String>(
    f: F,
    s: Shelf,
    id: i64,
    names: Seq<Seq<char>>,
)
    ensures
        release_credited(f, s, id, names).releases == s.releases,
    decreases names.len(),
{
    if names.len() > 0 {
        lemma_release_credits_only(f, s, id, names.drop_last());
    }
}

} // verus!
