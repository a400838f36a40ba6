//! Reading playlists: the list of them, and one with its tracks.

use crate::federation::play::{pending_item, pending_track};
use crate::federation::track::FedTrackView;
use crate::library::likes::{fed_time, like_time, liked_time, likes_track};
use crate::library::listing::track_item;
use crate::library::models::{PlaylistCard, PlaylistDetail, TrackItem, TrackView};
use crate::library::playlists::{has_content_id, holds_content, LIKES_PLAYLIST_ID};
use crate::library::tables::{
    is_playlist, is_track, stored, stored_view, sync_id_of, FedEntry, FedLikeRow, Library, LikeRow,
    PlaylistEntry, PlaylistRow, TrackRow,
};
use crate::lists::{
    count_by, count_where, filter_copy, find_by, first_where, lemma_sorted_mapped, picked,
    select_by, sort_by, sort_places, stable_sorted, viewed, within,
};
use crate::text::{before, no_case_before_or_same, no_case_leq, opt_view, precedes, same};
use vstd::prelude::*;

verus! {

#[verifier::ext_equal]
pub struct PlaylistCardView {
    pub id: i64,
    pub title: Seq<char>,
    pub track_count: int,
    pub kind: Seq<char>,
}

impl View for PlaylistCard {
    type V = PlaylistCardView;

    open spec fn view(&self) -> PlaylistCardView {
        PlaylistCardView {
            id: self.id,
            title: self.title@,
            track_count: self.track_count as int,
            kind: self.kind@,
        }
    }
}

pub open spec fn in_playlist(id: i64) -> spec_fn(PlaylistEntry) -> bool {
    |e: PlaylistEntry| e.playlist_id == id
}

/// The tracks of other peers in a playlist that no local track of the playlist
/// stands for.
pub open spec fn is_shown_fed(lib: Library, playlist_id: i64, sync_id: Seq<char>) -> spec_fn(
    FedEntry,
) -> bool {
    |e: FedEntry|
        e.playlist_sync_id@ == sync_id && first_where(
            lib.playlist_tracks@,
            holds_content(lib, playlist_id, e.content_id@),
        ) is None
}

/// How many tracks a playlist shows.
pub open spec fn shown_count(lib: Library, p: PlaylistRow) -> int {
    0int + count_where(lib.playlist_tracks@, in_playlist(p.id)) + match p.sync_id {
        Some(s) => count_where(lib.fed_playlist_tracks@, is_shown_fed(lib, p.id, s@)),
        None => 0,
    }
}

pub open spec fn by_playlist_title() -> spec_fn(PlaylistRow, PlaylistRow) -> bool {
    |a: PlaylistRow, b: PlaylistRow| no_case_leq(a.title@, b.title@)
}

pub open spec fn likes_card(lib: Library) -> PlaylistCardView {
    PlaylistCardView {
        id: LIKES_PLAYLIST_ID,
        title: "Liked tracks"@,
        track_count: (lib.likes@.len() + lib.fed_likes@.len()) as int,
        kind: "likes"@,
    }
}

pub open spec fn playlist_card(lib: Library, p: PlaylistRow) -> PlaylistCardView {
    PlaylistCardView {
        id: p.id,
        title: p.title@,
        track_count: shown_count(lib, p),
        kind: "normal"@,
    }
}

pub open spec fn playlist_cards(lib: Library, rows: Seq<PlaylistRow>) -> Seq<PlaylistCardView> {
    rows.map_values(|p: PlaylistRow| playlist_card(lib, p))
}

/// Whether the counts of tracks can be told.
pub open spec fn countable(lib: Library) -> bool {
    &&& lib.likes@.len() + lib.fed_likes@.len() <= i64::MAX
    &&& lib.playlist_tracks@.len() + lib.fed_playlist_tracks@.len() <= i64::MAX
}

/// The playlists by title, behind the one of the liked tracks.
pub open spec fn playlists_answer(lib: Library, r: Seq<PlaylistCard>) -> bool {
    viewed(r) == seq![likes_card(lib)] + playlist_cards(
        lib,
        stable_sorted(lib.playlists@, by_playlist_title()),
    )
}

impl Library {
    fn is_held(&self, playlist_id: i64, content_id: &str) -> (r: bool)
        ensures
            r == (first_where(
                self.playlist_tracks@,
                holds_content(*self, playlist_id, content_id@),
            ) is Some),
    {
        let all = &self.tracks;
        let ghost p = holds_content(*self, playlist_id, content_id@);
        let f = |e: &PlaylistEntry| -> (b: bool)
            ensures
                b == p(*e),
            { e.playlist_id == playlist_id && has_content_id(all, e.track_id, content_id) };
        find_by(&self.playlist_tracks, f, Ghost(p)).is_some()
    }

    fn count_shown(&self, i: usize) -> (r: i64)
        requires
            i < self.playlists@.len(),
            countable(*self),
        ensures
            r == shown_count(*self, self.playlists@[i as int]),
    {
        let id = self.playlists[i].id;
        let f = |e: &PlaylistEntry| -> (b: bool)
            ensures
                b == in_playlist(id)(*e),
            { e.playlist_id == id };
        let local = count_by(&self.playlist_tracks, f, Ghost(in_playlist(id)));
        match &self.playlists[i].sync_id {
            Some(s) => {
                let me = self;
                let g = |e: &FedEntry| -> (b: bool)
                    ensures
                        b == is_shown_fed(*me, id, s@)(*e),
                    {
                        same(e.playlist_sync_id.as_str(), s.as_str()) && !me.is_held(
                            id,
                            e.content_id.as_str(),
                        )
                    };
                let fed = count_by(
                    &self.fed_playlist_tracks,
                    g,
                    Ghost(is_shown_fed(*me, id, s@)),
                );
                local as i64 + fed as i64
            },
            None => local as i64,
        }
    }

    /// The playlists by title, behind the one of the liked tracks.
    pub fn playlists(&self) -> (r: Vec<PlaylistCard>)
        requires
            countable(*self),
        ensures
            playlists_answer(*self, r@),
    {
        let mut list: Vec<PlaylistCard> = Vec::new();
        list.push(
            PlaylistCard {
                id: LIKES_PLAYLIST_ID,
                title: "Liked tracks".to_owned(),
                track_count: self.likes.len() as i64 + self.fed_likes.len() as i64,
                kind: "likes".to_owned(),
            },
        );
        let mut at: Vec<usize> = Vec::new();
        let mut k: usize = 0;
        while k < self.playlists.len()
            invariant
                k <= self.playlists@.len(),
                at@.len() == k,
                forall|j: int| 0 <= j < k ==> #[trigger] at@[j] == j,
            decreases self.playlists@.len() - k,
        {
            at.push(k);
            k += 1;
        }
        proof {
            assert(picked(self.playlists@, at@) =~= self.playlists@);
        }
        let leq = |a: &PlaylistRow, b: &PlaylistRow| -> (r: bool)
            ensures
                r == by_playlist_title()(*a, *b),
            { no_case_before_or_same(a.title.as_str(), b.title.as_str()) };
        sort_places(&self.playlists, &mut at, leq, Ghost(by_playlist_title()));
        let ghost rows = picked(self.playlists@, at@);
        let mut i: usize = 0;
        while i < at.len()
            invariant
                i <= at@.len(),
                countable(*self),
                rows == picked(self.playlists@, at@),
                within(at@, self.playlists@.len() as int),
                list@.len() == i + 1,
                list@[0]@ == likes_card(*self),
                forall|j: int|
                    0 < j <= i ==> (#[trigger] list@[j])@ == playlist_card(*self, rows[j - 1]),
            decreases at@.len() - i,
        {
            proof {
                assert(at@[i as int] < self.playlists@.len());
            }
            let p = &self.playlists[at[i]];
            list.push(
                PlaylistCard {
                    id: p.id,
                    title: p.title.clone(),
                    track_count: self.count_shown(at[i]),
                    kind: "normal".to_owned(),
                },
            );
            i += 1;
        }
        proof {
            assert(viewed(list@) =~= seq![likes_card(*self)] + playlist_cards(*self, rows));
        }
        list
    }
}

// ---------------------------------------------------------------------------
// One playlist
// ---------------------------------------------------------------------------

/// A track with what it is ordered by.
pub type Entry = (i64, TrackItem);

pub open spec fn entry_view(e: Entry) -> (i64, TrackView) {
    (e.0, e.1@)
}

pub open spec fn entry_views(s: Seq<Entry>) -> Seq<(i64, TrackView)> {
    s.map_values(|e: Entry| entry_view(e))
}

/// The tracks of entries.
pub open spec fn entry_tracks(s: Seq<(i64, TrackView)>) -> Seq<TrackView> {
    s.map_values(|e: (i64, TrackView)| e.1)
}

/// What was liked later first, then by title.
pub open spec fn by_liked() -> spec_fn((i64, TrackView), (i64, TrackView)) -> bool {
    |a: (i64, TrackView), b: (i64, TrackView)|
        a.0 > b.0 || (a.0 == b.0 && !precedes(b.1.title, a.1.title))
}

/// By the place in the playlist, then by title.
pub open spec fn by_place_in_playlist() -> spec_fn((i64, TrackView), (i64, TrackView)) -> bool {
    |a: (i64, TrackView), b: (i64, TrackView)|
        a.0 < b.0 || (a.0 == b.0 && !precedes(b.1.title, a.1.title))
}

pub open spec fn entry_by_liked() -> spec_fn(Entry, Entry) -> bool {
    |a: Entry, b: Entry| by_liked()(entry_view(a), entry_view(b))
}

pub open spec fn entry_by_place() -> spec_fn(Entry, Entry) -> bool {
    |a: Entry, b: Entry| by_place_in_playlist()(entry_view(a), entry_view(b))
}

/// The liked local tracks.
pub open spec fn liked_local(lib: Library, rows: Seq<TrackRow>) -> Seq<(i64, TrackView)>
    decreases rows.len(),
{
    if rows.len() == 0 {
        Seq::empty()
    } else {
        let before = liked_local(lib, rows.drop_last());
        match (
            first_where(lib.likes@, likes_track(rows.last().id)),
            track_item(lib, rows.last()),
        ) {
            (Some(i), Some(t)) => before.push(
                (liked_time(lib.likes@[i].liked_hlc_ms, lib.likes@[i].liked_at_ms), t),
            ),
            _ => before,
        }
    }
}

/// A liked track of another peer as it is read back.
pub open spec fn read_like(r: FedLikeRow) -> FedTrackView {
    stored_view(r.fed@, r.fed@.content_id)
}

/// A track of another peer in a playlist as it is read back.
pub open spec fn read_entry(e: FedEntry) -> FedTrackView {
    stored_view(e.fed@, Some(e.content_id@))
}

/// The liked tracks of other peers. Their ids go down from the given one.
pub open spec fn liked_fed(rows: Seq<FedLikeRow>, next_id: int) -> Seq<(i64, TrackView)> {
    Seq::new(
        rows.len(),
        |i: int| (fed_time(rows[i]), pending_item(read_like(rows[i]), (next_id - i) as i64)),
    )
}

/// The liked tracks as they are shown.
pub open spec fn liked_tracks(lib: Library, next_id: int) -> Seq<TrackView> {
    entry_tracks(
        stable_sorted(
            liked_local(lib, lib.tracks@) + liked_fed(lib.fed_likes@, next_id),
            by_liked(),
        ),
    )
}

pub open spec fn by_entry_position() -> spec_fn(PlaylistEntry, PlaylistEntry) -> bool {
    |a: PlaylistEntry, b: PlaylistEntry| a.position <= b.position
}

/// The local tracks of entries of a playlist.
pub open spec fn local_entries(lib: Library, rows: Seq<PlaylistEntry>) -> Seq<(i64, TrackView)>
    decreases rows.len(),
{
    if rows.len() == 0 {
        Seq::empty()
    } else {
        let before = local_entries(lib, rows.drop_last());
        match first_where(lib.tracks@, is_track(rows.last().track_id)) {
            Some(i) => match track_item(lib, lib.tracks@[i]) {
                Some(t) => before.push((rows.last().position, t)),
                None => before,
            },
            None => before,
        }
    }
}

pub open spec fn by_fed_place() -> spec_fn(FedEntry, FedEntry) -> bool {
    |a: FedEntry, b: FedEntry|
        a.position < b.position || (a.position == b.position && no_case_leq(
            a.fed.title@,
            b.fed.title@,
        ))
}

/// The tracks of other peers that a playlist shows.
pub open spec fn shown_fed(lib: Library, playlist_id: i64, sync_id: Seq<char>) -> Seq<FedEntry> {
    stable_sorted(
        lib.fed_playlist_tracks@.filter(is_shown_fed(lib, playlist_id, sync_id)),
        by_fed_place(),
    )
}

pub open spec fn fed_entries(rows: Seq<FedEntry>, next_id: int) -> Seq<(i64, TrackView)> {
    Seq::new(
        rows.len(),
        |i: int| (rows[i].position, pending_item(read_entry(rows[i]), (next_id - i) as i64)),
    )
}

/// The tracks of a playlist as they are shown.
pub open spec fn playlist_tracks(lib: Library, id: i64, next_id: int) -> Seq<TrackView> {
    let local = local_entries(
        lib,
        stable_sorted(lib.playlist_tracks@.filter(in_playlist(id)), by_entry_position()),
    );
    let fed = match sync_id_of(lib, id) {
        Some(s) => fed_entries(shown_fed(lib, id, s), next_id),
        None => Seq::empty(),
    };
    entry_tracks(stable_sorted(local + fed, by_place_in_playlist()))
}

/// Whether there are ids for the tracks of other peers that are shown.
pub open spec fn has_pending_ids(lib: Library, next_id: i64) -> bool {
    &&& next_id - lib.fed_likes@.len() >= i64::MIN
    &&& next_id - lib.fed_playlist_tracks@.len() >= i64::MIN
}

fn tracks_of_entries(entries: Vec<Entry>) -> (r: Vec<TrackItem>)
    ensures
        viewed(r@) == entry_tracks(entry_views(entries@)),
{
    let ghost all = entries@;
    let size: usize = entries.len();
    let mut rest = entries;
    let mut out: Vec<TrackItem> = Vec::new();
    let mut i: usize = 0;
    proof {
        assert(all.skip(0) =~= all);
    }
    while i < size
        invariant
            i <= size,
            size == all.len(),
            rest@ == all.skip(i as int),
            out@.len() == i,
            forall|j: int| 0 <= j < i ==> #[trigger] out@[j] == all[j].1,
        decreases size - i,
    {
        proof {
            assert(rest@.len() == all.len() - i);
            assert(rest@[0] == all[i as int]);
            assert(all.skip(i as int).skip(1) =~= all.skip(i + 1));
        }
        let ghost before = rest@;
        let (_, t) = rest.remove(0);
        proof {
            assert(rest@ =~= before.skip(1));
        }
        out.push(t);
        i += 1;
    }
    proof {
        assert(viewed(out@) =~= entry_tracks(entry_views(all)));
    }
    out
}

/// What is told of one playlist.
pub open spec fn playlist_answer(
    lib: Library,
    id: i64,
    next_pending_id: i64,
    r: Result<PlaylistDetail, String>,
) -> bool {
    &&& r is Ok == (id == LIKES_PLAYLIST_ID || first_where(
        lib.playlists@,
        is_playlist(id),
    ) is Some)
    &&& match r {
        Err(e) => e@ == "playlist not found"@,
        Ok(d) => {
            &&& d.id == id
            &&& if id == LIKES_PLAYLIST_ID {
                &&& d.title@ == "Liked tracks"@
                &&& d.description is None
                &&& viewed(d.tracks@) == liked_tracks(lib, next_pending_id as int)
            } else {
                let p = lib.playlists@[first_where(lib.playlists@, is_playlist(id))->0];
                &&& d.title@ == p.title@
                &&& opt_view(d.description) == opt_view(p.description)
                &&& viewed(d.tracks@) == playlist_tracks(lib, id, next_pending_id as int)
            }
        },
    }
}

impl Library {
    fn like_time_of(&self, track_id: i64) -> (r: Option<i64>)
        ensures
            match r {
                Some(t) => first_where(self.likes@, likes_track(track_id)) matches Some(i) && t
                    == liked_time(self.likes@[i].liked_hlc_ms, self.likes@[i].liked_at_ms),
                None => first_where(self.likes@, likes_track(track_id)) is None,
            },
    {
        let f = |l: &LikeRow| -> (b: bool)
            ensures
                b == likes_track(track_id)(*l),
            { l.track_id == track_id };
        match find_by(&self.likes, f, Ghost(likes_track(track_id))) {
            Some(i) => Some(
                match self.likes[i].liked_hlc_ms {
                    Some(t) => t,
                    None => self.likes[i].liked_at_ms,
                },
            ),
            None => None,
        }
    }

    fn liked_entries(&self, next_id: i64) -> (r: Vec<Entry>)
        requires
            has_pending_ids(*self, next_id),
        ensures
            entry_views(r@) == liked_local(*self, self.tracks@) + liked_fed(
                self.fed_likes@,
                next_id as int,
            ),
    {
        let mut out: Vec<Entry> = Vec::new();
        let mut i: usize = 0;
        proof {
            assert(self.tracks@.take(0) =~= Seq::empty());
            assert(entry_views(out@) =~= Seq::empty());
        }
        while i < self.tracks.len()
            invariant
                i <= self.tracks@.len(),
                entry_views(out@) == liked_local(*self, self.tracks@.take(i as int)),
            decreases self.tracks@.len() - i,
        {
            proof {
                assert(self.tracks@.take(i + 1).drop_last() =~= self.tracks@.take(i as int));
            }
            if let Some(time) = self.like_time_of(self.tracks[i].id) {
                if let Some(t) = self.item_at(i) {
                    let ghost before = out@;
                    let ghost v = t@;
                    out.push((time, t));
                    proof {
                        assert(entry_views(out@) =~= entry_views(before).push((time, v)));
                    }
                }
            }
            i += 1;
        }
        proof {
            assert(self.tracks@.take(self.tracks@.len() as int) =~= self.tracks@);
        }
        let ghost local = entry_views(out@);
        let ghost fed = liked_fed(self.fed_likes@, next_id as int);
        let mut k: usize = 0;
        proof {
            assert(local + fed.take(0) =~= local);
        }
        while k < self.fed_likes.len()
            invariant
                k <= self.fed_likes@.len(),
                has_pending_ids(*self, next_id),
                fed == liked_fed(self.fed_likes@, next_id as int),
                entry_views(out@) == local + fed.take(k as int),
            decreases self.fed_likes@.len() - k,
        {
            let ghost before = out@;
            let row = &self.fed_likes[k];
            let id: i64 = (next_id as i128 - k as i128) as i64;
            let fed_track = stored(&row.fed, row.fed.content_id.clone());
            out.push((like_time(row), pending_track(&fed_track, id)));
            proof {
                assert(fed.take(k + 1) =~= fed.take(k as int).push(fed[k as int]));
                assert(entry_views(out@) =~= entry_views(before).push(fed[k as int]));
                assert(local + fed.take(k + 1) =~= (local + fed.take(k as int)).push(
                    fed[k as int],
                ));
            }
            k += 1;
        }
        proof {
            assert(fed.take(self.fed_likes@.len() as int) =~= fed);
        }
        out
    }

    fn local_entries_of(&self, id: i64) -> (r: Vec<Entry>)
        ensures
            entry_views(r@) == local_entries(
                *self,
                stable_sorted(self.playlist_tracks@.filter(in_playlist(id)), by_entry_position()),
            ),
    {
        let f = |e: &PlaylistEntry| -> (b: bool)
            ensures
                b == in_playlist(id)(*e),
            { e.playlist_id == id };
        let mut rows = filter_copy(&self.playlist_tracks, f, Ghost(in_playlist(id)));
        let leq = |a: &PlaylistEntry, b: &PlaylistEntry| -> (r: bool)
            ensures
                r == by_entry_position()(*a, *b),
            { a.position <= b.position };
        sort_by(&mut rows, leq, Ghost(by_entry_position()));
        let mut out: Vec<Entry> = Vec::new();
        let mut i: usize = 0;
        proof {
            assert(rows@.take(0) =~= Seq::empty());
            assert(entry_views(out@) =~= Seq::empty());
        }
        while i < rows.len()
            invariant
                i <= rows@.len(),
                entry_views(out@) == local_entries(*self, rows@.take(i as int)),
            decreases rows@.len() - i,
        {
            proof {
                assert(rows@.take(i + 1).drop_last() =~= rows@.take(i as int));
            }
            let row = rows[i];
            if let Some(k) = self.track_at(row.track_id) {
                if let Some(t) = self.item_at(k) {
                    let ghost before = out@;
                    let ghost v = t@;
                    out.push((row.position, t));
                    proof {
                        assert(entry_views(out@) =~= entry_views(before).push((row.position, v)));
                    }
                }
            }
            i += 1;
        }
        proof {
            assert(rows@.take(rows@.len() as int) =~= rows@);
        }
        out
    }

    fn add_fed_entries(&self, id: i64, sync_id: &str, next_id: i64, out: &mut Vec<Entry>)
        requires
            has_pending_ids(*self, next_id),
        ensures
            entry_views(final(out)@) == entry_views(old(out)@) + fed_entries(
                shown_fed(*self, id, sync_id@),
                next_id as int,
            ),
    {
        let me = self;
        let f = |e: &FedEntry| -> (b: bool)
            ensures
                b == is_shown_fed(*me, id, sync_id@)(*e),
            {
                same(e.playlist_sync_id.as_str(), sync_id) && !me.is_held(
                    id,
                    e.content_id.as_str(),
                )
            };
        let mut at = select_by(
            &self.fed_playlist_tracks,
            f,
            Ghost(is_shown_fed(*me, id, sync_id@)),
        );
        proof {
            self.fed_playlist_tracks@.lemma_filter_len(is_shown_fed(*me, id, sync_id@));
            assert(picked(self.fed_playlist_tracks@, at@).len() == at@.len());
        }
        let leq = |a: &FedEntry, b: &FedEntry| -> (r: bool)
            ensures
                r == by_fed_place()(*a, *b),
            {
                a.position < b.position || (a.position == b.position && no_case_before_or_same(
                    a.fed.title.as_str(),
                    b.fed.title.as_str(),
                ))
            };
        sort_places(&self.fed_playlist_tracks, &mut at, leq, Ghost(by_fed_place()));
        let ghost rows = shown_fed(*self, id, sync_id@);
        let ghost fed = fed_entries(rows, next_id as int);
        let ghost start = entry_views(out@);
        let mut i: usize = 0;
        proof {
            assert(start + fed.take(0) =~= start);
            assert(rows.len() == at@.len());
        }
        while i < at.len()
            invariant
                i <= at@.len(),
                has_pending_ids(*self, next_id),
                at@.len() <= self.fed_playlist_tracks@.len(),
                within(at@, self.fed_playlist_tracks@.len() as int),
                rows == picked(self.fed_playlist_tracks@, at@),
                rows.len() == at@.len(),
                fed == fed_entries(rows, next_id as int),
                entry_views(out@) == start + fed.take(i as int),
            decreases at@.len() - i,
        {
            proof {
                assert(at@[i as int] < self.fed_playlist_tracks@.len());
            }
            let ghost before = out@;
            let row = &self.fed_playlist_tracks[at[i]];
            let pending_id: i64 = (next_id as i128 - i as i128) as i64;
            let fed_track = stored(&row.fed, Some(row.content_id.clone()));
            out.push((row.position, pending_track(&fed_track, pending_id)));
            proof {
                assert(fed.take(i + 1) =~= fed.take(i as int).push(fed[i as int]));
                assert(entry_views(out@) =~= entry_views(before).push(fed[i as int]));
                assert(start + fed.take(i + 1) =~= (start + fed.take(i as int)).push(
                    fed[i as int],
                ));
            }
            i += 1;
        }
        proof {
            assert(fed.take(at@.len() as int) =~= fed);
        }
    }

    /// One playlist with its tracks; that of the liked tracks has an id of its
    /// own. Tracks of other peers that are shown get the ids from
    /// `next_pending_id` downwards.
    pub fn playlist(&self, id: i64, next_pending_id: i64) -> (r: Result<PlaylistDetail, String>)
        requires
            has_pending_ids(*self, next_pending_id),
        ensures
            playlist_answer(*self, id, next_pending_id, r),
    {
        if id == LIKES_PLAYLIST_ID {
            let mut entries = self.liked_entries(next_pending_id);
            let ghost all = entries@;
            let leq = |a: &Entry, b: &Entry| -> (r: bool)
                ensures
                    r == entry_by_liked()(*a, *b),
                { a.0 > b.0 || (a.0 == b.0 && !before(b.1.title.as_str(), a.1.title.as_str())) };
            sort_by(&mut entries, leq, Ghost(entry_by_liked()));
            proof {
                lemma_sorted_mapped(
                    all,
                    |e: Entry| entry_view(e),
                    entry_by_liked(),
                    by_liked(),
                );
            }
            return Ok(
                PlaylistDetail {
                    id,
                    title: "Liked tracks".to_owned(),
                    description: None,
                    tracks: tracks_of_entries(entries),
                },
            );
        }
        let place = match self.playlist_at(id) {
            Some(i) => i,
            None => {
                return Err("playlist not found".to_owned());
            },
        };
        let mut entries = self.local_entries_of(id);
        let ghost local = entry_views(entries@);
        match &self.playlists[place].sync_id {
            Some(s) => {
                self.add_fed_entries(id, s.as_str(), next_pending_id, &mut entries);
            },
            None => {
                proof {
                    assert(local + Seq::<(i64, TrackView)>::empty() =~= local);
                }
            },
        }
        let ghost all = entries@;
        let leq = |a: &Entry, b: &Entry| -> (r: bool)
            ensures
                r == entry_by_place()(*a, *b),
            { a.0 < b.0 || (a.0 == b.0 && !before(b.1.title.as_str(), a.1.title.as_str())) };
        sort_by(&mut entries, leq, Ghost(entry_by_place()));
        proof {
            lemma_sorted_mapped(
                all,
                |e: Entry| entry_view(e),
                entry_by_place(),
                by_place_in_playlist(),
            );
        }
        Ok(
            PlaylistDetail {
                id,
                title: self.playlists[place].title.clone(),
                description: self.playlists[place].description.clone(),
                tracks: tracks_of_entries(entries),
            },
        )
    }
}

} // verus!
