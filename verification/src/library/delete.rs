//! Deleting from the library, with everything that hangs on what goes.

use crate::library::edit::{shelf, Shelf};
use crate::library::tables::{
    ArtistRow, ArtistView, Library, LikeRow, Play, PlaylistEntry, ReleaseCredit, ReleaseRow,
    ReleaseView, TrackCredit, TrackRow, TrackRowView,
};
use crate::lists::{find_by, first_where, lemma_filter_mapped, retain_by, viewed};
use vstd::prelude::*;

verus! {

/// The shelf and what refers to its tracks.
#[verifier::ext_equal]
pub struct Stock {
    pub shelf: Shelf,
    pub playlist_tracks: Seq<PlaylistEntry>,
    pub likes: Seq<LikeRow>,
    pub history: Seq<Play>,
}

pub open spec fn stock(lib: Library) -> Stock {
    Stock {
        shelf: shelf(lib),
        playlist_tracks: lib.playlist_tracks@,
        likes: lib.likes@,
        history: lib.history@,
    }
}

/// Whether nothing but the stock differs.
pub open spec fn same_but_stock(a: Library, b: Library) -> bool {
    a == (Library {
        artists: a.artists,
        releases: a.releases,
        release_artists: a.release_artists,
        tracks: a.tracks,
        track_artists: a.track_artists,
        playlist_tracks: a.playlist_tracks,
        likes: a.likes,
        history: a.history,
        ..b
    })
}

pub open spec fn track_stays(ids: Seq<i64>) -> spec_fn(TrackRowView) -> bool {
    |t: TrackRowView| !ids.contains(t.id)
}

pub open spec fn track_row_stays(ids: Seq<i64>) -> spec_fn(TrackRow) -> bool {
    |t: TrackRow| !ids.contains(t.id)
}

pub open spec fn track_credit_stays(ids: Seq<i64>) -> spec_fn(TrackCredit) -> bool {
    |c: TrackCredit| !ids.contains(c.track_id)
}

pub open spec fn entry_stays(ids: Seq<i64>) -> spec_fn(PlaylistEntry) -> bool {
    |e: PlaylistEntry| !ids.contains(e.track_id)
}

pub open spec fn like_stays(ids: Seq<i64>) -> spec_fn(LikeRow) -> bool {
    |l: LikeRow| !ids.contains(l.track_id)
}

pub open spec fn play_stays(ids: Seq<i64>) -> spec_fn(Play) -> bool {
    |p: Play| !ids.contains(p.track_id)
}

/// The stock without some tracks: their credits, likes, plays and places in
/// playlists go with them.
pub open spec fn tracks_dropped(s: Stock, ids: Seq<i64>) -> Stock {
    Stock {
        shelf: Shelf {
            tracks: s.shelf.tracks.filter(track_stays(ids)),
            track_artists: s.shelf.track_artists.filter(track_credit_stays(ids)),
            ..s.shelf
        },
        playlist_tracks: s.playlist_tracks.filter(entry_stays(ids)),
        likes: s.likes.filter(like_stays(ids)),
        history: s.history.filter(play_stays(ids)),
    }
}

/// The ids of the tracks of some releases.
pub open spec fn tracks_on(tracks: Seq<TrackRowView>, releases: Seq<i64>) -> Seq<i64>
    decreases tracks.len(),
{
    if tracks.len() == 0 {
        Seq::empty()
    } else {
        let before = tracks_on(tracks.drop_last(), releases);
        if releases.contains(tracks.last().release_id) {
            before.push(tracks.last().id)
        } else {
            before
        }
    }
}

pub open spec fn release_stays(ids: Seq<i64>) -> spec_fn(ReleaseView) -> bool {
    |r: ReleaseView| !ids.contains(r.id)
}

pub open spec fn release_row_stays(ids: Seq<i64>) -> spec_fn(ReleaseRow) -> bool {
    |r: ReleaseRow| !ids.contains(r.id)
}

pub open spec fn release_credit_stays(ids: Seq<i64>) -> spec_fn(ReleaseCredit) -> bool {
    |c: ReleaseCredit| !ids.contains(c.release_id)
}

/// The stock without some releases: their credits and their tracks go with
/// them.
pub open spec fn releases_dropped(s: Stock, ids: Seq<i64>) -> Stock {
    let t = tracks_dropped(s, tracks_on(s.shelf.tracks, ids));
    Stock {
        shelf: Shelf {
            releases: t.shelf.releases.filter(release_stays(ids)),
            release_artists: t.shelf.release_artists.filter(release_credit_stays(ids)),
            ..t.shelf
        },
        ..t
    }
}

pub open spec fn is_on(release: i64) -> spec_fn(TrackRowView) -> bool {
    |t: TrackRowView| t.release_id == release
}

pub open spec fn row_is_on(release: i64) -> spec_fn(TrackRow) -> bool {
    |t: TrackRow| t.release_id == release
}

/// The ids of the releases without a track.
pub open spec fn empty_releases(releases: Seq<ReleaseView>, tracks: Seq<TrackRowView>) -> Seq<i64>
    decreases releases.len(),
{
    if releases.len() == 0 {
        Seq::empty()
    } else {
        let before = empty_releases(releases.drop_last(), tracks);
        if first_where(tracks, is_on(releases.last().id)) is None {
            before.push(releases.last().id)
        } else {
            before
        }
    }
}

/// The stock without the releases that have no track.
pub open spec fn cleaned(s: Stock) -> Stock {
    releases_dropped(s, empty_releases(s.shelf.releases, s.shelf.tracks))
}

pub open spec fn is_main_credit(track_id: i64) -> spec_fn(TrackCredit) -> bool {
    |c: TrackCredit| c.track_id == track_id && !c.featured
}

/// The ids of the tracks without a main artist.
pub open spec fn orphans(tracks: Seq<TrackRowView>, credits: Seq<TrackCredit>) -> Seq<i64>
    decreases tracks.len(),
{
    if tracks.len() == 0 {
        Seq::empty()
    } else {
        let before = orphans(tracks.drop_last(), credits);
        if first_where(credits, is_main_credit(tracks.last().id)) is None {
            before.push(tracks.last().id)
        } else {
            before
        }
    }
}

pub open spec fn is_other_artist(id: i64) -> spec_fn(ArtistView) -> bool {
    |a: ArtistView| a.id != id
}

pub open spec fn row_is_other_artist(id: i64) -> spec_fn(ArtistRow) -> bool {
    |a: ArtistRow| a.id != id
}

pub open spec fn of_other_artist(id: i64) -> spec_fn(TrackCredit) -> bool {
    |c: TrackCredit| c.artist_id != id
}

pub open spec fn release_of_other_artist(id: i64) -> spec_fn(ReleaseCredit) -> bool {
    |c: ReleaseCredit| c.artist_id != id
}

/// The stock without an artist and its credits.
pub open spec fn artist_dropped(s: Stock, id: i64) -> Stock {
    Stock {
        shelf: Shelf {
            artists: s.shelf.artists.filter(is_other_artist(id)),
            release_artists: s.shelf.release_artists.filter(release_of_other_artist(id)),
            track_artists: s.shelf.track_artists.filter(of_other_artist(id)),
            ..s.shelf
        },
        ..s
    }
}

/// The stock after an artist was deleted with the tracks that are left without
/// a main artist, and the releases that are left without a track.
pub open spec fn artist_deleted(s: Stock, id: i64) -> Stock {
    let a = artist_dropped(s, id);
    cleaned(tracks_dropped(a, orphans(a.shelf.tracks, a.shelf.track_artists)))
}

pub(crate) fn has_id(ids: &Vec<i64>, id: i64) -> (r: bool)
    ensures
        r == ids@.contains(id),
{
    let mut i: usize = 0;
    while i < ids.len()
        invariant
            i <= ids@.len(),
            forall|j: int| 0 <= j < i ==> #[trigger] ids@[j] != id,
        decreases ids@.len() - i,
    {
        if ids[i] == id {
            return true;
        }
        i += 1;
    }
    false
}

/// What deleting a track changes.
pub open spec fn deletes_track(a: Library, b: Library, id: i64) -> bool {
    &&& stock(b) == cleaned(tracks_dropped(stock(a), seq![id]))
    &&& same_but_stock(b, a)
}

/// What deleting a release changes.
pub open spec fn deletes_release(a: Library, b: Library, id: i64) -> bool {
    &&& stock(b) == releases_dropped(stock(a), seq![id])
    &&& same_but_stock(b, a)
}

/// What deleting an artist changes.
pub open spec fn deletes_artist(a: Library, b: Library, id: i64) -> bool {
    &&& stock(b) == artist_deleted(stock(a), id)
    &&& same_but_stock(b, a)
}

impl Library {
    fn drop_tracks(&mut self, ids: &Vec<i64>)
        ensures
            stock(*final(self)) == tracks_dropped(stock(*old(self)), ids@),
            same_but_stock(*final(self), *old(self)),
    {
        let ghost s = stock(*self);
        proof {
            lemma_filter_mapped(
                self.tracks@,
                |t: TrackRow| t@,
                track_row_stays(ids@),
                track_stays(ids@),
            );
        }
        let a = |t: &TrackRow| -> (b: bool)
            ensures
                b == track_row_stays(ids@)(*t),
            { !has_id(ids, t.id) };
        retain_by(&mut self.tracks, a, Ghost(track_row_stays(ids@)));
        let c = |t: &TrackCredit| -> (b: bool)
            ensures
                b == track_credit_stays(ids@)(*t),
            { !has_id(ids, t.track_id) };
        retain_by(&mut self.track_artists, c, Ghost(track_credit_stays(ids@)));
        let e = |t: &PlaylistEntry| -> (b: bool)
            ensures
                b == entry_stays(ids@)(*t),
            { !has_id(ids, t.track_id) };
        retain_by(&mut self.playlist_tracks, e, Ghost(entry_stays(ids@)));
        let l = |t: &LikeRow| -> (b: bool)
            ensures
                b == like_stays(ids@)(*t),
            { !has_id(ids, t.track_id) };
        retain_by(&mut self.likes, l, Ghost(like_stays(ids@)));
        let p = |t: &Play| -> (b: bool)
            ensures
                b == play_stays(ids@)(*t),
            { !has_id(ids, t.track_id) };
        retain_by(&mut self.history, p, Ghost(play_stays(ids@)));
        proof {
            assert(stock(*self) =~= tracks_dropped(s, ids@));
        }
    }

    fn track_ids_on(&self, releases: &Vec<i64>) -> (r: Vec<i64>)
        ensures
            r@ == tracks_on(viewed(self.tracks@), releases@),
    {
        let ghost all = viewed(self.tracks@);
        let mut out: Vec<i64> = Vec::new();
        let mut i: usize = 0;
        proof {
            assert(all.take(0) =~= Seq::empty());
        }
        while i < self.tracks.len()
            invariant
                i <= self.tracks@.len(),
                all == viewed(self.tracks@),
                out@ == tracks_on(all.take(i as int), releases@),
            decreases self.tracks@.len() - i,
        {
            proof {
                assert(all.take(i + 1).drop_last() =~= all.take(i as int));
                assert(all.take(i + 1).last() == self.tracks@[i as int]@);
            }
            if has_id(releases, self.tracks[i].release_id) {
                out.push(self.tracks[i].id);
            }
            i += 1;
        }
        proof {
            assert(all.take(self.tracks@.len() as int) =~= all);
        }
        out
    }

    fn drop_releases(&mut self, ids: &Vec<i64>)
        ensures
            stock(*final(self)) == releases_dropped(stock(*old(self)), ids@),
            same_but_stock(*final(self), *old(self)),
    {
        let ghost s = stock(*self);
        let tracks = self.track_ids_on(ids);
        self.drop_tracks(&tracks);
        proof {
            lemma_filter_mapped(
                self.releases@,
                |r: ReleaseRow| r@,
                release_row_stays(ids@),
                release_stays(ids@),
            );
        }
        let a = |r: &ReleaseRow| -> (b: bool)
            ensures
                b == release_row_stays(ids@)(*r),
            { !has_id(ids, r.id) };
        retain_by(&mut self.releases, a, Ghost(release_row_stays(ids@)));
        let c = |r: &ReleaseCredit| -> (b: bool)
            ensures
                b == release_credit_stays(ids@)(*r),
            { !has_id(ids, r.release_id) };
        retain_by(&mut self.release_artists, c, Ghost(release_credit_stays(ids@)));
        proof {
            assert(stock(*self) =~= releases_dropped(s, ids@));
        }
    }

    fn has_track_on(&self, release: i64) -> (r: bool)
        ensures
            r == (first_where(viewed(self.tracks@), is_on(release)) is Some),
    {
        let f = |t: &TrackRow| -> (b: bool)
            ensures
                b == row_is_on(release)(*t),
            { t.release_id == release };
        let found = find_by(&self.tracks, f, Ghost(row_is_on(release)));
        proof {
            crate::lists::lemma_first_mapped(
                self.tracks@,
                |t: TrackRow| t@,
                row_is_on(release),
                is_on(release),
            );
        }
        found.is_some()
    }

    fn cleanup_empty_releases(&mut self)
        ensures
            stock(*final(self)) == cleaned(stock(*old(self))),
            same_but_stock(*final(self), *old(self)),
    {
        let ghost all = viewed(self.releases@);
        let mut ids: Vec<i64> = Vec::new();
        let mut i: usize = 0;
        proof {
            assert(all.take(0) =~= Seq::empty());
        }
        while i < self.releases.len()
            invariant
                i <= self.releases@.len(),
                *self == *old(self),
                all == viewed(self.releases@),
                ids@ == empty_releases(all.take(i as int), viewed(self.tracks@)),
            decreases self.releases@.len() - i,
        {
            proof {
                assert(all.take(i + 1).drop_last() =~= all.take(i as int));
                assert(all.take(i + 1).last() == self.releases@[i as int]@);
            }
            let id = self.releases[i].id;
            if !self.has_track_on(id) {
                ids.push(id);
            }
            i += 1;
        }
        proof {
            assert(all.take(self.releases@.len() as int) =~= all);
        }
        self.drop_releases(&ids);
    }

    /// Deletes a track, and the releases that are left without one.
    pub fn delete_track(&mut self, id: i64)
        ensures
            deletes_track(*old(self), *final(self), id),
    {
        let mut ids: Vec<i64> = Vec::new();
        ids.push(id);
        proof {
            assert(ids@ =~= seq![id]);
        }
        self.drop_tracks(&ids);
        self.cleanup_empty_releases();
    }

    /// Deletes a release with its tracks.
    pub fn delete_release(&mut self, id: i64)
        ensures
            deletes_release(*old(self), *final(self), id),
    {
        let mut ids: Vec<i64> = Vec::new();
        ids.push(id);
        proof {
            assert(ids@ =~= seq![id]);
        }
        self.drop_releases(&ids);
    }

    fn orphan_ids(&self) -> (r: Vec<i64>)
        ensures
            r@ == orphans(viewed(self.tracks@), self.track_artists@),
    {
        let ghost all = viewed(self.tracks@);
        let mut out: Vec<i64> = Vec::new();
        let mut i: usize = 0;
        proof {
            assert(all.take(0) =~= Seq::empty());
        }
        while i < self.tracks.len()
            invariant
                i <= self.tracks@.len(),
                all == viewed(self.tracks@),
                out@ == orphans(all.take(i as int), self.track_artists@),
            decreases self.tracks@.len() - i,
        {
            proof {
                assert(all.take(i + 1).drop_last() =~= all.take(i as int));
                assert(all.take(i + 1).last() == self.tracks@[i as int]@);
            }
            let id = self.tracks[i].id;
            let f = |c: &TrackCredit| -> (b: bool)
                ensures
                    b == is_main_credit(id)(*c),
                { c.track_id == id && !c.featured };
            if find_by(&self.track_artists, f, Ghost(is_main_credit(id))).is_none() {
                out.push(id);
            }
            i += 1;
        }
        proof {
            assert(all.take(self.tracks@.len() as int) =~= all);
        }
        out
    }

    /// Deletes an artist together with what only existed because of them:
    /// tracks left without a main artist and releases left without tracks.
    /// Collaborations with other artists stay.
    pub fn delete_artist(&mut self, id: i64)
        ensures
            deletes_artist(*old(self), *final(self), id),
    {
        let ghost s = stock(*self);
        proof {
            lemma_filter_mapped(
                self.artists@,
                |a: ArtistRow| a@,
                row_is_other_artist(id),
                is_other_artist(id),
            );
        }
        let a = |r: &ArtistRow| -> (b: bool)
            ensures
                b == row_is_other_artist(id)(*r),
            { r.id != id };
        retain_by(&mut self.artists, a, Ghost(row_is_other_artist(id)));
        let c = |r: &ReleaseCredit| -> (b: bool)
            ensures
                b == release_of_other_artist(id)(*r),
            { r.artist_id != id };
        retain_by(&mut self.release_artists, c, Ghost(release_of_other_artist(id)));
        let t = |r: &TrackCredit| -> (b: bool)
            ensures
                b == of_other_artist(id)(*r),
            { r.artist_id != id };
        retain_by(&mut self.track_artists, t, Ghost(of_other_artist(id)));
        proof {
            assert(stock(*self) =~= artist_dropped(s, id));
        }
        let ids = self.orphan_ids();
        self.drop_tracks(&ids);
        self.cleanup_empty_releases();
    }
}

} // verus!
