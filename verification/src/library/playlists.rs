//! Playlists of local tracks and of tracks of other peers.

use crate::content_id::{canonical, canonical_option, normalize_content_id, normalize_option};
use crate::federation::track::{FedTrack, FedTrackView};
use crate::library::models::PlaylistCard;
use crate::library::tables::{
    has_sync_id, is_fed_entry, is_playlist, is_track, playlist_of_sync_id, stored, stored_view,
    sync_id_of, track_named, track_of_content, FedEntry, Library, PlaylistEntry, PlaylistRow,
    TrackRow,
};
use crate::lists::{find_by, first_where, lemma_first_where, retain_by};
use crate::text::{opt_view, same, signed_text, views};
use vstd::prelude::*;

verus! {

/// The virtual "Liked tracks" playlist id.
pub const LIKES_PLAYLIST_ID: i64 = -1;

pub open spec fn is_entry(playlist_id: i64, track_id: i64) -> spec_fn(PlaylistEntry) -> bool {
    |e: PlaylistEntry| e.playlist_id == playlist_id && e.track_id == track_id
}

pub open spec fn is_other_entry(playlist_id: i64, track_id: i64) -> spec_fn(PlaylistEntry) -> bool {
    |e: PlaylistEntry| !(e.playlist_id == playlist_id && e.track_id == track_id)
}

pub open spec fn of_other_playlist(playlist_id: i64) -> spec_fn(PlaylistEntry) -> bool {
    |e: PlaylistEntry| e.playlist_id != playlist_id
}

pub open spec fn is_other_playlist(id: i64) -> spec_fn(PlaylistRow) -> bool {
    |p: PlaylistRow| p.id != id
}

pub open spec fn lacks_sync_id(id: Seq<char>) -> spec_fn(PlaylistRow) -> bool {
    |p: PlaylistRow| opt_view(p.sync_id) != Some(id)
}

pub open spec fn fed_of_other_playlist(sync_id: Seq<char>) -> spec_fn(FedEntry) -> bool {
    |e: FedEntry| e.playlist_sync_id@ != sync_id
}

pub open spec fn is_other_fed_entry(sync_id: Seq<char>, content_id: Seq<char>) -> spec_fn(
    FedEntry,
) -> bool {
    |e: FedEntry| !(e.playlist_sync_id@ == sync_id && e.content_id@ == content_id)
}

/// The largest position in a playlist.
pub open spec fn last_place(s: Seq<PlaylistEntry>, playlist_id: i64) -> Option<i64>
    decreases s.len(),
{
    if s.len() == 0 {
        None
    } else {
        let before = last_place(s.drop_last(), playlist_id);
        if s.last().playlist_id == playlist_id && (before is None || before->0 < s.last().position) {
            Some(s.last().position)
        } else {
            before
        }
    }
}

/// The largest position among the tracks of other peers in a playlist.
pub open spec fn last_fed_place(s: Seq<FedEntry>, sync_id: Seq<char>) -> Option<i64>
    decreases s.len(),
{
    if s.len() == 0 {
        None
    } else {
        let before = last_fed_place(s.drop_last(), sync_id);
        if s.last().playlist_sync_id@ == sync_id && (before is None || before->0
            < s.last().position) {
            Some(s.last().position)
        } else {
            before
        }
    }
}

/// The place behind a position: the next number, the first being zero. There
/// is none behind the largest number, which is used again.
pub open spec fn place_behind(last: Option<i64>) -> i64 {
    match last {
        None => 0,
        Some(p) => if p < i64::MAX {
            (p + 1) as i64
        } else {
            p
        },
    }
}

fn next_place(last: Option<i64>) -> (r: i64)
    ensures
        r == place_behind(last),
{
    match last {
        None => 0,
        Some(p) => if p < i64::MAX {
            p + 1
        } else {
            p
        },
    }
}

fn largest_place(s: &Vec<PlaylistEntry>, playlist_id: i64) -> (r: Option<i64>)
    ensures
        r == last_place(s@, playlist_id),
{
    let mut best: Option<i64> = None;
    let mut i: usize = 0;
    while i < s.len()
        invariant
            i <= s@.len(),
            best == last_place(s@.take(i as int), playlist_id),
        decreases s@.len() - i,
    {
        proof {
            assert(s@.take(i + 1).drop_last() =~= s@.take(i as int));
        }
        if s[i].playlist_id == playlist_id {
            match best {
                Some(b) => {
                    if b < s[i].position {
                        best = Some(s[i].position);
                    }
                },
                None => {
                    best = Some(s[i].position);
                },
            }
        }
        i += 1;
    }
    proof {
        assert(s@.take(s@.len() as int) =~= s@);
    }
    best
}

fn largest_fed_place(s: &Vec<FedEntry>, sync_id: &str) -> (r: Option<i64>)
    ensures
        r == last_fed_place(s@, sync_id@),
{
    let mut best: Option<i64> = None;
    let mut i: usize = 0;
    while i < s.len()
        invariant
            i <= s@.len(),
            best == last_fed_place(s@.take(i as int), sync_id@),
        decreases s@.len() - i,
    {
        proof {
            assert(s@.take(i + 1).drop_last() =~= s@.take(i as int));
        }
        if same(s[i].playlist_sync_id.as_str(), sync_id) {
            match best {
                Some(b) => {
                    if b < s[i].position {
                        best = Some(s[i].position);
                    }
                },
                None => {
                    best = Some(s[i].position);
                },
            }
        }
        i += 1;
    }
    proof {
        assert(s@.take(s@.len() as int) =~= s@);
    }
    best
}

/// The entries with a track behind the others of its playlist, unless it is
/// in it.
pub open spec fn with_entry(s: Seq<PlaylistEntry>, playlist_id: i64, track_id: i64) -> Seq<
    PlaylistEntry,
> {
    if first_where(s, is_entry(playlist_id, track_id)) is Some {
        s
    } else {
        s.push(
            PlaylistEntry { playlist_id, track_id, position: place_behind(last_place(s, playlist_id)) },
        )
    }
}

/// The entries with several tracks put behind the others, one by one.
pub open spec fn with_entries(s: Seq<PlaylistEntry>, playlist_id: i64, ids: Seq<i64>) -> Seq<
    PlaylistEntry,
>
    decreases ids.len(),
{
    if ids.len() == 0 {
        s
    } else {
        with_entry(with_entries(s, playlist_id, ids.drop_last()), playlist_id, ids.last())
    }
}

fn add_entry(s: &mut Vec<PlaylistEntry>, playlist_id: i64, track_id: i64)
    ensures
        final(s)@ == with_entry(old(s)@, playlist_id, track_id),
{
    let f = |e: &PlaylistEntry| -> (b: bool)
        ensures
            b == is_entry(playlist_id, track_id)(*e),
        { e.playlist_id == playlist_id && e.track_id == track_id };
    if find_by(s, f, Ghost(is_entry(playlist_id, track_id))).is_none() {
        let position = next_place(largest_place(s, playlist_id));
        s.push(PlaylistEntry { playlist_id, track_id, position });
    }
}

/// The smallest id that is larger than every id in use.
pub open spec fn next_playlist_id(s: Seq<PlaylistRow>) -> int
    decreases s.len(),
{
    if s.len() == 0 {
        1
    } else {
        let before = next_playlist_id(s.drop_last());
        if s.last().id >= before {
            s.last().id + 1
        } else {
            before
        }
    }
}

fn fresh_id(s: &Vec<PlaylistRow>) -> (r: i64)
    requires
        next_playlist_id(s@) <= i64::MAX,
    ensures
        r == next_playlist_id(s@),
{
    let mut next: i64 = 1;
    let mut i: usize = 0;
    while i < s.len()
        invariant
            i <= s@.len(),
            next_playlist_id(s@) <= i64::MAX,
            next == next_playlist_id(s@.take(i as int)),
        decreases s@.len() - i,
    {
        proof {
            assert(s@.take(i + 1).drop_last() =~= s@.take(i as int));
            lemma_next_grows(s@, i + 1);
        }
        if s[i].id >= next {
            next = s[i].id + 1;
        }
        i += 1;
    }
    proof {
        assert(s@.take(s@.len() as int) =~= s@);
    }
    next
}

proof fn lemma_next_grows(s: Seq<PlaylistRow>, i: int)
    requires
        0 <= i <= s.len(),
    ensures
        next_playlist_id(s.take(i)) <= next_playlist_id(s),
    decreases s.len() - i,
{
    if i < s.len() {
        assert(s.take(i + 1).drop_last() =~= s.take(i));
        lemma_next_grows(s, i + 1);
    } else {
        assert(s.take(i) =~= s);
    }
}

/// A new id is larger than every id in use.
pub proof fn law_new_playlist_id_is_unused(s: Seq<PlaylistRow>, i: int)
    requires
        0 <= i < s.len(),
    ensures
        s[i].id < next_playlist_id(s),
    decreases s.len(),
{
    if i < s.len() - 1 {
        law_new_playlist_id_is_unused(s.drop_last(), i);
    }
}

/// Taking playlists away frees no larger id.
pub proof fn lemma_next_id_of_fewer(s: Seq<PlaylistRow>, p: spec_fn(PlaylistRow) -> bool)
    ensures
        next_playlist_id(s.filter(p)) <= next_playlist_id(s),
    decreases s.len(),
{
    reveal(Seq::filter);
    if s.len() > 0 {
        let rest = s.drop_last();
        lemma_next_id_of_fewer(rest, p);
        if p(s.last()) {
            assert(s.filter(p) =~= rest.filter(p).push(s.last()));
            assert(s.filter(p).drop_last() =~= rest.filter(p));
        } else {
            assert(s.filter(p) =~= rest.filter(p));
        }
    }
}

/// A row that keeps its id keeps the next id.
pub proof fn lemma_next_id_of_changed(s: Seq<PlaylistRow>, i: int, row: PlaylistRow)
    requires
        0 <= i < s.len(),
        row.id == s[i].id,
    ensures
        next_playlist_id(s.update(i, row)) == next_playlist_id(s),
    decreases s.len(),
{
    let t = s.update(i, row);
    if i < s.len() - 1 {
        lemma_next_id_of_changed(s.drop_last(), i, row);
        assert(t.drop_last() =~= s.drop_last().update(i, row));
    } else {
        assert(t.drop_last() =~= s.drop_last());
    }
}

/// Setting or deleting a synchronised playlist takes at most one new id.
pub proof fn lemma_room(before: Library, after: Library, sync_id: Seq<char>, title: Seq<char>)
    requires
        deletes_playlist(before, after, sync_id) || sets_playlist(before, after, sync_id, title),
    ensures
        next_playlist_id(after.playlists@) <= next_playlist_id(before.playlists@) + 1,
{
    if deletes_playlist(before, after, sync_id) {
        lemma_next_id_of_fewer(before.playlists@, lacks_sync_id(sync_id));
    } else {
        lemma_first_where(before.playlists@, has_sync_id(sync_id));
        if let Some(i) = first_where(before.playlists@, has_sync_id(sync_id)) {
            lemma_next_id_of_changed(before.playlists@, i, after.playlists@[i]);
        }
    }
}

/// The id that a new playlist gets on every device: a digest of its id, its
/// title, the time and the process that made it.
pub open spec fn made_sync_id(id: i64, title: Seq<char>, now_nanos: u64, process: u32) -> Seq<char> {
    "pl_"@ + crate::digest::digest_hex(
        "playlist:"@ + crate::text::signed_decimal(id as int) + seq![':'] + title + seq![':']
            + crate::text::decimal(now_nanos as nat) + seq![':'] + crate::text::decimal(
            process as nat,
        ),
    ).take(24)
}

pub fn make_playlist_sync_id(id: i64, title: &str, now_nanos: u64, process: u32) -> (r: String)
    ensures
        r@ == made_sync_id(id, title@, now_nanos, process),
{
    let mut seed = String::new();
    seed.append("playlist:");
    seed.append(signed_text(id).as_str());
    seed.push(':');
    seed.append(title);
    seed.push(':');
    seed.append(crate::text::decimal_text(now_nanos).as_str());
    seed.push(':');
    seed.append(crate::text::decimal_text(process as u64).as_str());
    proof {
        assert(seed@ =~= "playlist:"@ + crate::text::signed_decimal(id as int) + seq![':'] + title@
            + seq![':'] + crate::text::decimal(now_nanos as nat) + seq![':'] + crate::text::decimal(
            process as nat,
        ));
    }
    let hex = crate::digest::digest_text(seed.as_str());
    let mut out = String::new();
    out.append("pl_");
    out.append(crate::federation::track::prefix_text(hex.as_str(), 24).as_str());
    proof {
        assert(out@ =~= made_sync_id(id, title@, now_nanos, process));
    }
    out
}

#[verifier::ext_equal]
pub struct FedEntryView {
    pub sync_id: Seq<char>,
    pub content_id: Seq<char>,
    pub fed: FedTrackView,
    pub position: i64,
}

impl View for FedEntry {
    type V = FedEntryView;

    open spec fn view(&self) -> FedEntryView {
        FedEntryView {
            sync_id: self.playlist_sync_id@,
            content_id: self.content_id@,
            fed: self.fed@,
            position: self.position,
        }
    }
}

pub open spec fn entries_view(s: Seq<FedEntry>) -> Seq<FedEntryView> {
    s.map_values(|e: FedEntry| e@)
}

/// The entries of a playlist with a content id.
pub open spec fn keyed_as(sync_id: Seq<char>, content_id: Seq<char>) -> spec_fn(FedEntryView) -> bool {
    |e: FedEntryView| e.sync_id == sync_id && e.content_id == content_id
}

/// The entries of other peers' tracks with one set: an entry with the same
/// content id in the same playlist is replaced.
pub open spec fn with_fed_entry(s: Seq<FedEntryView>, e: FedEntryView) -> Seq<FedEntryView> {
    match first_where(s, keyed_as(e.sync_id, e.content_id)) {
        Some(i) => s.update(i, e),
        None => s.push(e),
    }
}

/// A row and its view stand at the same place.
proof fn lemma_fed_place(s: Seq<FedEntry>, sync_id: Seq<char>, content_id: Seq<char>)
    ensures
        first_where(entries_view(s), keyed_as(sync_id, content_id)) == first_where(
            s,
            is_fed_entry(sync_id, content_id),
        ),
    decreases s.len(),
{
    if s.len() > 0 {
        lemma_fed_place(s.drop_last(), sync_id, content_id);
        assert(entries_view(s).drop_last() =~= entries_view(s.drop_last()));
        assert(entries_view(s).last() == s.last()@);
    }
}

fn put_fed_entry(
    s: &mut Vec<FedEntry>,
    sync_id: &str,
    content_id: String,
    fed: &FedTrack,
    position: i64,
)
    ensures
        entries_view(final(s)@) == with_fed_entry(
            entries_view(old(s)@),
            (FedEntryView {
                sync_id: sync_id@,
                content_id: content_id@,
                fed: (FedTrackView { content_id: Some(content_id@), ..fed@ }),
                position,
            }),
        ),
{
    let f = |e: &FedEntry| -> (b: bool)
        ensures
            b == is_fed_entry(sync_id@, content_id@)(*e),
        {
            same(e.playlist_sync_id.as_str(), sync_id) && same(
                e.content_id.as_str(),
                content_id.as_str(),
            )
        };
    let found = find_by(s, f, Ghost(is_fed_entry(sync_id@, content_id@)));
    let mut copy = fed.clone();
    copy.content_id = Some(content_id.clone());
    proof {
        assert(copy@ =~= (FedTrackView { content_id: Some(content_id@), ..fed@ }));
    }
    proof {
        lemma_fed_place(s@, sync_id@, content_id@);
    }
    let ghost before = s@;
    let entry = FedEntry { playlist_sync_id: sync_id.to_owned(), content_id, fed: copy, position };
    match found {
        Some(i) => {
            s[i] = entry;
            proof {
                assert(entries_view(s@) =~= entries_view(before).update(i as int, entry@));
            }
        },
        None => {
            s.push(entry);
            proof {
                assert(entries_view(s@) =~= entries_view(before).push(entry@));
            }
        },
    }
}

/// Whether tracks can be put into a playlist: it is there, and so are they.
pub open spec fn can_add(lib: Library, playlist_id: i64, ids: Seq<i64>) -> bool {
    ids.len() == 0 || (first_where(lib.playlists@, is_playlist(playlist_id)) is Some && forall|i: int|
        0 <= i < ids.len() ==> first_where(lib.tracks@, is_track(#[trigger] ids[i])) is Some)
}

/// The tracks of other peers put into a playlist one by one: one without a
/// valid content id is passed over, one that is there keeps its place, the
/// others go behind. Gives the entries and the next free place.
pub open spec fn with_fed_tracks(
    s: Seq<FedEntryView>,
    sync_id: Seq<char>,
    first: i64,
    tracks: Seq<FedTrackView>,
) -> (Seq<FedEntryView>, i64)
    decreases tracks.len(),
{
    if tracks.len() == 0 {
        (s, first)
    } else {
        let (before, next) = with_fed_tracks(s, sync_id, first, tracks.drop_last());
        let fed = tracks.last();
        match canonical_option(fed.content_id) {
            None => (before, next),
            Some(id) => {
                let known = first_where(before, keyed_as(sync_id, id));
                let position = match known {
                    Some(i) => before[i].position,
                    None => next,
                };
                (
                    with_fed_entry(
                        before,
                        FedEntryView {
                            sync_id,
                            content_id: id,
                            fed: FedTrackView { content_id: Some(id), ..fed },
                            position,
                        },
                    ),
                    if known is Some {
                        next
                    } else {
                        place_behind(Some(next))
                    },
                )
            },
        }
    }
}

pub open spec fn fed_views(s: Seq<FedTrack>) -> Seq<FedTrackView> {
    s.map_values(|f: FedTrack| f@)
}

/// The last position, or that in front of the first where there is none.
pub open spec fn place_or_start(last: Option<i64>) -> i64 {
    match last {
        Some(x) => x,
        None => -1i64,
    }
}

/// The larger of two last positions.
pub open spec fn later_place(a: Option<i64>, b: Option<i64>) -> i64 {
    if place_or_start(a) < place_or_start(b) {
        place_or_start(b)
    } else {
        place_or_start(a)
    }
}

/// The entries of a playlist whose track has a content id.
pub open spec fn holds_content(lib: Library, playlist_id: i64, id: Seq<char>) -> spec_fn(
    PlaylistEntry,
) -> bool {
    |e: PlaylistEntry|
        e.playlist_id == playlist_id && track_has_content(lib.tracks@, e.track_id, id)
}

pub open spec fn lacks_content(tracks: Seq<TrackRow>, playlist_id: i64, id: Seq<char>) -> spec_fn(
    PlaylistEntry,
) -> bool {
    |e: PlaylistEntry| !(e.playlist_id == playlist_id && track_has_content(tracks, e.track_id, id))
}

/// Whether a track has a content id.
pub open spec fn track_has_content(tracks: Seq<TrackRow>, track_id: i64, id: Seq<char>) -> bool {
    first_where(tracks, is_track_with(track_id, id)) is Some
}

pub open spec fn is_track_with(track_id: i64, id: Seq<char>) -> spec_fn(TrackRow) -> bool {
    |t: TrackRow| t.id == track_id && opt_view(t.content_id) == Some(id)
}

pub(crate) fn has_content_id(tracks: &Vec<TrackRow>, track_id: i64, id: &str) -> (r: bool)
    ensures
        r == track_has_content(tracks@, track_id, id@),
{
    let f = |t: &TrackRow| -> (b: bool)
        ensures
            b == is_track_with(track_id, id@)(*t),
        {
            t.id == track_id && match &t.content_id {
                Some(c) => same(c.as_str(), id),
                None => false,
            }
        };
    let found = find_by(tracks, f, Ghost(is_track_with(track_id, id@)));
    found.is_some()
}

/// The entries of a playlist and of its counterpart of other peers' tracks
/// without the given content ids.
pub open spec fn without_contents(
    tracks: Seq<TrackRow>,
    s: Seq<PlaylistEntry>,
    playlist_id: i64,
    ids: Seq<Seq<char>>,
) -> Seq<PlaylistEntry>
    decreases ids.len(),
{
    if ids.len() == 0 {
        s
    } else {
        let before = without_contents(tracks, s, playlist_id, ids.drop_last());
        match canonical(ids.last()) {
            Some(id) => before.filter(lacks_content(tracks, playlist_id, id)),
            None => before,
        }
    }
}

pub open spec fn without_fed_contents(s: Seq<FedEntry>, sync_id: Seq<char>, ids: Seq<Seq<char>>) -> Seq<
    FedEntry,
>
    decreases ids.len(),
{
    if ids.len() == 0 {
        s
    } else {
        let before = without_fed_contents(s, sync_id, ids.drop_last());
        match canonical(ids.last()) {
            Some(id) => before.filter(is_other_fed_entry(sync_id, id)),
            None => before,
        }
    }
}

/// The entries without those of the given tracks in one playlist.
pub open spec fn without_tracks(s: Seq<PlaylistEntry>, playlist_id: i64, ids: Seq<i64>) -> Seq<
    PlaylistEntry,
>
    decreases ids.len(),
{
    if ids.len() == 0 {
        s
    } else {
        without_tracks(s, playlist_id, ids.drop_last()).filter(
            is_other_entry(playlist_id, ids.last()),
        )
    }
}

/// Where tracks stand in a playlist: the canonical content id and the
/// position of each that is in it and has a valid content id.
pub open spec fn content_places(lib: Library, playlist_id: i64, ids: Seq<i64>) -> Seq<(Seq<char>, i64)>
    decreases ids.len(),
{
    if ids.len() == 0 {
        Seq::empty()
    } else {
        let before = content_places(lib, playlist_id, ids.drop_last());
        match (
            first_where(lib.tracks@, is_track(ids.last())),
            first_where(lib.playlist_tracks@, is_entry(playlist_id, ids.last())),
        ) {
            (Some(t), Some(e)) => match canonical_option(opt_view(lib.tracks@[t].content_id)) {
                Some(id) => before.push((id, lib.playlist_tracks@[e].position)),
                None => before,
            },
            _ => before,
        }
    }
}

pub open spec fn places_view(s: Seq<(String, i64)>) -> Seq<(Seq<char>, i64)> {
    s.map_values(|e: (String, i64)| (e.0@, e.1))
}

/// Where a content id stands in a playlist: as a local track, else as another
/// peer's.
pub open spec fn content_place(lib: Library, playlist_id: i64, content_id: Seq<char>) -> Option<i64> {
    match canonical(content_id) {
        None => None,
        Some(id) => match first_where(lib.playlist_tracks@, holds_content(lib, playlist_id, id)) {
            Some(i) => Some(lib.playlist_tracks@[i].position),
            None => match sync_id_of(lib, playlist_id) {
                None => None,
                Some(s) => match first_where(lib.fed_playlist_tracks@, is_fed_entry(s, id)) {
                    Some(i) => Some(lib.fed_playlist_tracks@[i].position),
                    None => None,
                },
            },
        },
    }
}

/// Whether a content id is known to the library or to a synchronised
/// playlist.
pub open spec fn is_referenced(lib: Library, sync_id: Seq<char>, content_id: Seq<char>) -> bool {
    match canonical(content_id) {
        None => false,
        Some(id) => track_of_content(lib, id) is Some || first_where(
            lib.fed_playlist_tracks@,
            is_fed_entry(sync_id, id),
        ) is Some,
    }
}

/// What putting a content id into a synchronised playlist changes: the local
/// track with it goes behind the others.
pub open spec fn adds_content(before: Library, after: Library, sync_id: Seq<char>, content_id: Seq<char>) -> bool {
    &&& after.playlist_tracks@ == match (
        track_named(before, content_id),
        playlist_of_sync_id(before, sync_id),
    ) {
        (Some(t), Some(p)) => with_entry(before.playlist_tracks@, p, t),
        _ => before.playlist_tracks@,
    }
    &&& after == Library { playlist_tracks: after.playlist_tracks, ..before }
}

/// What taking a content id out of a synchronised playlist changes.
pub open spec fn drops_content(before: Library, after: Library, sync_id: Seq<char>, content_id: Seq<char>) -> bool {
    &&& match canonical(content_id) {
        None => after == before,
        Some(id) => {
            &&& after.playlist_tracks@ == match (
                track_of_content(before, id),
                playlist_of_sync_id(before, sync_id),
            ) {
                (Some(t), Some(p)) => before.playlist_tracks@.filter(is_other_entry(p, t)),
                _ => before.playlist_tracks@,
            }
            &&& after.fed_playlist_tracks@ == before.fed_playlist_tracks@.filter(
                is_other_fed_entry(sync_id, id),
            )
        },
    }
    &&& after == Library {
        playlist_tracks: after.playlist_tracks,
        fed_playlist_tracks: after.fed_playlist_tracks,
        ..before
    }
}

/// What setting another peer's track in a synchronised playlist changes.
pub open spec fn sets_fed_track(
    before: Library,
    after: Library,
    sync_id: Seq<char>,
    fed: FedTrackView,
    position: i64,
) -> bool {
    &&& entries_view(after.fed_playlist_tracks@) == match canonical_option(fed.content_id) {
        Some(id) => with_fed_entry(
            entries_view(before.fed_playlist_tracks@),
            FedEntryView {
                sync_id,
                content_id: id,
                fed: FedTrackView { content_id: Some(id), ..fed },
                position,
            },
        ),
        None => entries_view(before.fed_playlist_tracks@),
    }
    &&& after == Library { fed_playlist_tracks: after.fed_playlist_tracks, ..before }
}

/// What giving a playlist the id that it has on every device changes, and
/// what the id is: the one it has, else a new one; none without the playlist.
pub open spec fn makes_sync_id(
    before: Library,
    after: Library,
    id: i64,
    now_nanos: u64,
    process: u32,
    r: Option<Seq<char>>,
) -> bool {
    &&& match first_where(before.playlists@, is_playlist(id)) {
        None => r is None && after.playlists == before.playlists,
        Some(i) => match opt_view(before.playlists@[i].sync_id) {
            Some(s) => r == Some(s) && after.playlists == before.playlists,
            None => {
                let row = after.playlists@[i];
                &&& r == Some(
                    made_sync_id(id, before.playlists@[i].title@, now_nanos, process),
                )
                &&& after.playlists@ == before.playlists@.update(i, row)
                &&& row.id == id
                &&& opt_view(row.sync_id) == r
                &&& row.title == before.playlists@[i].title
                &&& row.description == before.playlists@[i].description
            },
        },
    }
    &&& after == Library { playlists: after.playlists, ..before }
}

/// Giving a playlist that id takes no new local id.
pub proof fn lemma_sync_id_keeps_room(
    before: Library,
    after: Library,
    id: i64,
    now_nanos: u64,
    process: u32,
    r: Option<Seq<char>>,
)
    requires
        makes_sync_id(before, after, id, now_nanos, process, r),
    ensures
        next_playlist_id(after.playlists@) == next_playlist_id(before.playlists@),
{
    lemma_first_where(before.playlists@, is_playlist(id));
    if let Some(i) = first_where(before.playlists@, is_playlist(id)) {
        if opt_view(before.playlists@[i].sync_id) is None {
            lemma_next_id_of_changed(before.playlists@, i, after.playlists@[i]);
        }
    }
}

/// Another peer's track in a synchronised playlist, as it is read back.
pub open spec fn found_fed_entry(l: Library, sync_id: Seq<char>, content_id: Seq<char>) -> Option<
    FedTrackView,
> {
    match canonical(content_id) {
        None => None,
        Some(id) => match first_where(l.fed_playlist_tracks@, is_fed_entry(sync_id, id)) {
            Some(i) => Some(stored_view(l.fed_playlist_tracks@[i].fed@, Some(id))),
            None => None,
        },
    }
}

/// What making a playlist changes.
pub open spec fn creates_playlist(
    a: Library,
    b: Library,
    title: Seq<char>,
    now_nanos: u64,
    process: u32,
    r: PlaylistCard,
) -> bool {
    &&& r.id == next_playlist_id(a.playlists@)
    &&& r.title@ == title
    &&& r.track_count == 0
    &&& r.kind@ == "normal"@
    &&& b.playlists@.len() == a.playlists@.len() + 1
    &&& b.playlists@.drop_last() == a.playlists@
    &&& ({
        let p = b.playlists@.last();
        &&& p.id == r.id
        &&& p.title@ == title
        &&& p.description is None
        &&& opt_view(p.sync_id) == Some(made_sync_id(r.id, title, now_nanos, process))
    })
    &&& (Library { playlists: a.playlists, ..b }) == a
}

/// What renaming a playlist changes.
pub open spec fn updates_playlist(
    a: Library,
    b: Library,
    id: i64,
    title: Seq<char>,
    description: Option<String>,
) -> bool {
    &&& match first_where(a.playlists@, is_playlist(id)) {
        Some(i) => {
            let row = b.playlists@[i];
            &&& b.playlists@ == a.playlists@.update(i, row)
            &&& row.id == id
            &&& row.sync_id == a.playlists@[i].sync_id
            &&& row.title@ == title
            &&& row.description == description
        },
        None => b.playlists@ == a.playlists@,
    }
    &&& (Library { playlists: a.playlists, ..b }) == a
}

/// What deleting a playlist changes.
pub open spec fn removes_playlist(a: Library, b: Library, id: i64) -> bool {
    &&& b.playlists@ == a.playlists@.filter(is_other_playlist(id))
    &&& b.playlist_tracks@ == (if first_where(
        a.playlists@,
        is_playlist(id),
    ) is Some {
        a.playlist_tracks@.filter(of_other_playlist(id))
    } else {
        a.playlist_tracks@
    })
    &&& b.fed_playlist_tracks@ == match sync_id_of(a, id) {
        Some(s) => a.fed_playlist_tracks@.filter(fed_of_other_playlist(s)),
        None => a.fed_playlist_tracks@,
    }
    &&& (Library {
        playlists: a.playlists,
        playlist_tracks: a.playlist_tracks,
        fed_playlist_tracks: a.fed_playlist_tracks,
        ..b
    }) == a
}

impl Library {
    /// Makes a playlist with a new id.
    pub fn create_playlist(&mut self, title: &str, now_nanos: u64, process: u32) -> (r: PlaylistCard)
        requires
            next_playlist_id(old(self).playlists@) <= i64::MAX,
        ensures
            creates_playlist(*old(self), *final(self), title@, now_nanos, process, r),
    {
        let id = fresh_id(&self.playlists);
        let ghost before = self.playlists@;
        self.playlists.push(
            PlaylistRow {
                id,
                sync_id: Some(make_playlist_sync_id(id, title, now_nanos, process)),
                title: title.to_owned(),
                description: None,
            },
        );
        proof {
            assert(self.playlists@.drop_last() =~= before);
        }
        PlaylistCard { id, title: title.to_owned(), track_count: 0, kind: "normal".to_owned() }
    }

    /// Renames a playlist and sets its description; an unknown id changes
    /// nothing.
    pub fn update_playlist(&mut self, id: i64, title: &str, description: Option<String>)
        ensures
            updates_playlist(*old(self), *final(self), id, title@, description),
    {
        if let Some(i) = self.playlist_at(id) {
            let ghost before = self.playlists@;
            let sync_id = self.playlists[i].sync_id.clone();
            self.playlists[i] = PlaylistRow { id, sync_id, title: title.to_owned(), description };
            proof {
                assert(self.playlists@ =~= before.update(i as int, self.playlists@[i as int]));
            }
        }
    }

    /// Deletes a playlist and everything in it.
    pub fn delete_playlist(&mut self, id: i64)
        ensures
            removes_playlist(*old(self), *final(self), id),
    {
        if let Some(s) = self.playlist_sync_id(id) {
            let f = |e: &FedEntry| -> (b: bool)
                ensures
                    b == fed_of_other_playlist(s@)(*e),
                { !same(e.playlist_sync_id.as_str(), s.as_str()) };
            retain_by(&mut self.fed_playlist_tracks, f, Ghost(fed_of_other_playlist(s@)));
        }
        if self.playlist_at(id).is_some() {
            let f = |e: &PlaylistEntry| -> (b: bool)
                ensures
                    b == of_other_playlist(id)(*e),
                { e.playlist_id != id };
            retain_by(&mut self.playlist_tracks, f, Ghost(of_other_playlist(id)));
        }
        let g = |p: &PlaylistRow| -> (b: bool)
            ensures
                b == is_other_playlist(id)(*p),
            { p.id != id };
        retain_by(&mut self.playlists, g, Ghost(is_other_playlist(id)));
    }

    /// Deletes the playlist that has an id on every device, and everything in
    /// it.
    pub fn delete_playlist_by_sync_id(&mut self, sync_id: &str)
        ensures
            deletes_playlist(*old(self), *final(self), sync_id@),
    {
        let f = |e: &FedEntry| -> (b: bool)
            ensures
                b == fed_of_other_playlist(sync_id@)(*e),
            { !same(e.playlist_sync_id.as_str(), sync_id) };
        retain_by(&mut self.fed_playlist_tracks, f, Ghost(fed_of_other_playlist(sync_id@)));
        if let Some(i) = self.synced_playlist(sync_id) {
            let id = self.playlists[i].id;
            let g = |e: &PlaylistEntry| -> (b: bool)
                ensures
                    b == of_other_playlist(id)(*e),
                { e.playlist_id != id };
            retain_by(&mut self.playlist_tracks, g, Ghost(of_other_playlist(id)));
        }
        let h = |p: &PlaylistRow| -> (b: bool)
            ensures
                b == lacks_sync_id(sync_id@)(*p),
            {
                match &p.sync_id {
                    Some(s) => !same(s.as_str(), sync_id),
                    None => true,
                }
            };
        retain_by(&mut self.playlists, h, Ghost(lacks_sync_id(sync_id@)));
    }

    /// The id that a playlist has on every device, made where it has none yet;
    /// nothing for an unknown playlist.
    pub fn ensure_playlist_sync_id(&mut self, id: i64, now_nanos: u64, process: u32) -> (r: Option<
        String,
    >)
        ensures
            makes_sync_id(*old(self), *final(self), id, now_nanos, process, opt_view(r)),
    {
        let i = match self.playlist_at(id) {
            Some(i) => i,
            None => {
                return None;
            },
        };
        if let Some(s) = &self.playlists[i].sync_id {
            return Some(s.clone());
        }
        let ghost before = self.playlists@;
        let s = make_playlist_sync_id(id, self.playlists[i].title.as_str(), now_nanos, process);
        let title = self.playlists[i].title.clone();
        let description = self.playlists[i].description.clone();
        self.playlists[i] = PlaylistRow { id, sync_id: Some(s.clone()), title, description };
        proof {
            assert(self.playlists@ =~= before.update(i as int, self.playlists@[i as int]));
        }
        Some(s)
    }

    /// Sets the title of the playlist that has an id on every device, making
    /// it where it is not there yet; gives its local id.
    pub fn upsert_synced_playlist(&mut self, sync_id: &str, title: &str) -> (r: i64)
        requires
            next_playlist_id(old(self).playlists@) <= i64::MAX,
        ensures
            sets_playlist(*old(self), *final(self), sync_id@, title@),
            Some(r) == playlist_of_sync_id(*final(self), sync_id@),
    {
        let ghost before = self.playlists@;
        match self.synced_playlist(sync_id) {
            Some(i) => {
                proof {
                    lemma_first_where(before, has_sync_id(sync_id@));
                }
                let id = self.playlists[i].id;
                let s = self.playlists[i].sync_id.clone();
                let description = self.playlists[i].description.clone();
                self.playlists[i] = PlaylistRow { id, sync_id: s, title: title.to_owned(), description };
                proof {
                    let now = self.playlists@;
                    assert(now =~= before.update(i as int, now[i as int]));
                    lemma_first_where(now, has_sync_id(sync_id@));
                    assert(has_sync_id(sync_id@)(now[i as int]));
                    assert forall|j: int| 0 <= j < i implies !has_sync_id(sync_id@)(
                        #[trigger] now[j],
                    ) by {
                        assert(now[j] == before[j]);
                    }
                }
                id
            },
            None => {
                let id = fresh_id(&self.playlists);
                self.playlists.push(
                    PlaylistRow {
                        id,
                        sync_id: Some(sync_id.to_owned()),
                        title: title.to_owned(),
                        description: None,
                    },
                );
                proof {
                    let now = self.playlists@;
                    assert(now.drop_last() =~= before);
                    assert(has_sync_id(sync_id@)(now.last()));
                }
                id
            },
        }
    }
}

/// What putting local tracks into a playlist changes.
pub open spec fn adds_local_tracks(
    a: Library,
    b: Library,
    playlist_id: i64,
    track_ids: Seq<i64>,
    r: bool,
) -> bool {
    &&& r == can_add(a, playlist_id, track_ids)
    &&& b.playlist_tracks@ == (if r {
        with_entries(a.playlist_tracks@, playlist_id, track_ids)
    } else {
        a.playlist_tracks@
    })
    &&& (Library { playlist_tracks: a.playlist_tracks, ..b }) == a
}

/// What putting tracks of other peers into a playlist changes.
pub open spec fn adds_peer_tracks(
    a: Library,
    b: Library,
    playlist_id: i64,
    tracks: Seq<FedTrack>,
    now_nanos: u64,
    process: u32,
    r: bool,
) -> bool {
    &&& r == (tracks.len() == 0 || first_where(
        a.playlists@,
        is_playlist(playlist_id),
    ) is Some)
    &&& (tracks.len() == 0 || !r) ==> b == a
    &&& (tracks.len() > 0 && r) ==> {
        let i = first_where(a.playlists@, is_playlist(playlist_id))->0;
        let was = a.playlists@[i];
        let sync_id = match opt_view(was.sync_id) {
            Some(s) => s,
            None => made_sync_id(playlist_id, was.title@, now_nanos, process),
        };
        let first = place_behind(
            Some(
                later_place(
                    last_place(a.playlist_tracks@, playlist_id),
                    last_fed_place(a.fed_playlist_tracks@, sync_id),
                ),
            ),
        );
        let row = b.playlists@[i];
        &&& entries_view(b.fed_playlist_tracks@) == with_fed_tracks(
            entries_view(a.fed_playlist_tracks@),
            sync_id,
            first,
            fed_views(tracks),
        ).0
        &&& b.playlists@ == a.playlists@.update(i, row)
        &&& row.id == playlist_id
        &&& opt_view(row.sync_id) == Some(sync_id)
        &&& row.title == was.title
        &&& row.description == was.description
    }
    &&& (Library {
        playlists: a.playlists,
        fed_playlist_tracks: a.fed_playlist_tracks,
        ..b
    }) == a
}

/// What taking local tracks out of a playlist changes.
pub open spec fn removes_local_tracks(
    a: Library,
    b: Library,
    playlist_id: i64,
    track_ids: Seq<i64>,
) -> bool {
    &&& b.playlist_tracks@ == without_tracks(
        a.playlist_tracks@,
        playlist_id,
        track_ids,
    )
    &&& (Library { playlist_tracks: a.playlist_tracks, ..b }) == a
}

/// What taking content ids out of a playlist changes.
pub open spec fn removes_contents(
    a: Library,
    b: Library,
    playlist_id: i64,
    content_ids: Seq<Seq<char>>,
) -> bool {
    &&& b.playlist_tracks@ == without_contents(
        a.tracks@,
        a.playlist_tracks@,
        playlist_id,
        content_ids,
    )
    &&& b.fed_playlist_tracks@ == match sync_id_of(a, playlist_id) {
        Some(s) => without_fed_contents(
            a.fed_playlist_tracks@,
            s,
            content_ids,
        ),
        None => a.fed_playlist_tracks@,
    }
    &&& (Library {
        playlist_tracks: a.playlist_tracks,
        fed_playlist_tracks: a.fed_playlist_tracks,
        ..b
    }) == a
}

impl Library {
    /// Puts local tracks behind the others of a playlist; one that is in it
    /// stays where it is. Where the playlist or one of the tracks is not
    /// there, nothing changes.
    pub fn add_tracks_to_playlist(&mut self, playlist_id: i64, track_ids: &[i64]) -> (r: bool)
        ensures
            adds_local_tracks(*old(self), *final(self), playlist_id, track_ids@, r),
    {
        if track_ids.len() == 0 {
            return true;
        }
        if self.playlist_at(playlist_id).is_none() {
            return false;
        }
        let mut i: usize = 0;
        while i < track_ids.len()
            invariant
                i <= track_ids@.len(),
                forall|j: int|
                    0 <= j < i ==> first_where(self.tracks@, is_track(#[trigger] track_ids@[j])) is Some,
            decreases track_ids@.len() - i,
        {
            if self.track_at(track_ids[i]).is_none() {
                return false;
            }
            i += 1;
        }
        let ghost start = self.playlist_tracks@;
        let mut k: usize = 0;
        while k < track_ids.len()
            invariant
                k <= track_ids@.len(),
                self.playlist_tracks@ == with_entries(
                    start,
                    playlist_id,
                    track_ids@.take(k as int),
                ),
                (Library { playlist_tracks: old(self).playlist_tracks, ..*self }) == *old(self),
            decreases track_ids@.len() - k,
        {
            proof {
                assert(track_ids@.take(k + 1).drop_last() =~= track_ids@.take(k as int));
            }
            add_entry(&mut self.playlist_tracks, playlist_id, track_ids[k]);
            k += 1;
        }
        proof {
            assert(track_ids@.take(track_ids@.len() as int) =~= track_ids@);
        }
        true
    }

    /// Puts tracks of other peers into a playlist, behind everything in it. A
    /// playlist without an id on every device gets one. Where the playlist is
    /// not there, nothing changes.
    pub fn add_fed_tracks_to_playlist(
        &mut self,
        playlist_id: i64,
        tracks: &Vec<FedTrack>,
        now_nanos: u64,
        process: u32,
    ) -> (r: bool)
        ensures
            adds_peer_tracks(*old(self), *final(self), playlist_id, tracks@, now_nanos, process, r),
    {
        if tracks.len() == 0 {
            return true;
        }
        let sync_id = match self.ensure_playlist_sync_id(playlist_id, now_nanos, process) {
            Some(s) => s,
            None => {
                return false;
            },
        };
        proof {
            let i = first_where(old(self).playlists@, is_playlist(playlist_id))->0;
            lemma_first_where(old(self).playlists@, is_playlist(playlist_id));
            assert(self.playlists@ =~= old(self).playlists@.update(i, self.playlists@[i]));
        }
        let local = largest_place(&self.playlist_tracks, playlist_id);
        let remote = largest_fed_place(&self.fed_playlist_tracks, sync_id.as_str());
        let a: i64 = match local {
            Some(x) => x,
            None => -1,
        };
        let b: i64 = match remote {
            Some(y) => y,
            None => -1,
        };
        let first = next_place(
            Some(
                if a < b {
                    b
                } else {
                    a
                },
            ),
        );
        let mut next = first;
        let ghost start = entries_view(self.fed_playlist_tracks@);
        let ghost rows = self.playlists@;
        let mut k: usize = 0;
        proof {
            assert(fed_views(tracks@.take(0)) =~= Seq::empty());
        }
        while k < tracks.len()
            invariant
                k <= tracks@.len(),
                self.playlists@ == rows,
                (entries_view(self.fed_playlist_tracks@), next) == with_fed_tracks(
                    start,
                    sync_id@,
                    first,
                    fed_views(tracks@.take(k as int)),
                ),
                (Library {
                    playlists: old(self).playlists,
                    fed_playlist_tracks: old(self).fed_playlist_tracks,
                    ..*self
                }) == *old(self),
            decreases tracks@.len() - k,
        {
            proof {
                let now = fed_views(tracks@.take(k + 1));
                assert(now.drop_last() =~= fed_views(tracks@.take(k as int)));
                assert(now.last() == tracks@[k as int]@);
            }
            if let Some(id) = normalize_option(&tracks[k].content_id) {
                let f = |e: &FedEntry| -> (b: bool)
                    ensures
                        b == is_fed_entry(sync_id@, id@)(*e),
                    {
                        same(e.playlist_sync_id.as_str(), sync_id.as_str()) && same(
                            e.content_id.as_str(),
                            id.as_str(),
                        )
                    };
                proof {
                    lemma_fed_place(self.fed_playlist_tracks@, sync_id@, id@);
                }
                let position = match find_by(
                    &self.fed_playlist_tracks,
                    f,
                    Ghost(is_fed_entry(sync_id@, id@)),
                ) {
                    Some(i) => self.fed_playlist_tracks[i].position,
                    None => {
                        let p = next;
                        next = next_place(Some(next));
                        p
                    },
                };
                put_fed_entry(
                    &mut self.fed_playlist_tracks,
                    sync_id.as_str(),
                    id,
                    &tracks[k],
                    position,
                );
            }
            k += 1;
        }
        proof {
            assert(tracks@.take(tracks@.len() as int) =~= tracks@);
        }
        true
    }

    /// Takes local tracks out of a playlist.
    pub fn remove_tracks_from_playlist(&mut self, playlist_id: i64, track_ids: &[i64])
        ensures
            removes_local_tracks(*old(self), *final(self), playlist_id, track_ids@),
    {
        let ghost start = self.playlist_tracks@;
        let mut k: usize = 0;
        while k < track_ids.len()
            invariant
                k <= track_ids@.len(),
                self.playlist_tracks@ == without_tracks(
                    start,
                    playlist_id,
                    track_ids@.take(k as int),
                ),
                (Library { playlist_tracks: old(self).playlist_tracks, ..*self }) == *old(self),
            decreases track_ids@.len() - k,
        {
            proof {
                assert(track_ids@.take(k + 1).drop_last() =~= track_ids@.take(k as int));
            }
            let track_id = track_ids[k];
            let f = |e: &PlaylistEntry| -> (b: bool)
                ensures
                    b == is_other_entry(playlist_id, track_id)(*e),
                { !(e.playlist_id == playlist_id && e.track_id == track_id) };
            retain_by(
                &mut self.playlist_tracks,
                f,
                Ghost(is_other_entry(playlist_id, track_id)),
            );
            k += 1;
        }
        proof {
            assert(track_ids@.take(track_ids@.len() as int) =~= track_ids@);
        }
    }

    /// Takes content ids out of a playlist, local tracks and tracks of other
    /// peers alike.
    pub fn remove_content_ids_from_playlist(&mut self, playlist_id: i64, content_ids: &Vec<String>)
        ensures
            removes_contents(*old(self), *final(self), playlist_id, views(content_ids@)),
    {
        let sync_id = self.playlist_sync_id(playlist_id);
        let ghost start = self.playlist_tracks@;
        let ghost fed_start = self.fed_playlist_tracks@;
        let ghost rows = self.tracks@;
        let mut k: usize = 0;
        proof {
            assert(views(content_ids@.take(0)) =~= Seq::empty());
        }
        while k < content_ids.len()
            invariant
                k <= content_ids@.len(),
                self.tracks@ == rows,
                self.playlist_tracks@ == without_contents(
                    rows,
                    start,
                    playlist_id,
                    views(content_ids@.take(k as int)),
                ),
                self.fed_playlist_tracks@ == match opt_view(sync_id) {
                    Some(s) => without_fed_contents(
                        fed_start,
                        s,
                        views(content_ids@.take(k as int)),
                    ),
                    None => fed_start,
                },
                (Library {
                    playlist_tracks: old(self).playlist_tracks,
                    fed_playlist_tracks: old(self).fed_playlist_tracks,
                    ..*self
                }) == *old(self),
            decreases content_ids@.len() - k,
        {
            proof {
                let now = views(content_ids@.take(k + 1));
                assert(now.drop_last() =~= views(content_ids@.take(k as int)));
                assert(now.last() == content_ids@[k as int]@);
            }
            if let Some(id) = normalize_content_id(content_ids[k].as_str()) {
                let all = &self.tracks;
                let f = |e: &PlaylistEntry| -> (b: bool)
                    ensures
                        b == lacks_content(all@, playlist_id, id@)(*e),
                    {
                        !(e.playlist_id == playlist_id && has_content_id(
                            all,
                            e.track_id,
                            id.as_str(),
                        ))
                    };
                let mut entries: Vec<PlaylistEntry> = Vec::new();
                std::mem::swap(&mut entries, &mut self.playlist_tracks);
                retain_by(&mut entries, f, Ghost(lacks_content(all@, playlist_id, id@)));
                self.playlist_tracks = entries;
                if let Some(s) = &sync_id {
                    let g = |e: &FedEntry| -> (b: bool)
                        ensures
                            b == is_other_fed_entry(s@, id@)(*e),
                        {
                            !(same(e.playlist_sync_id.as_str(), s.as_str()) && same(
                                e.content_id.as_str(),
                                id.as_str(),
                            ))
                        };
                    retain_by(
                        &mut self.fed_playlist_tracks,
                        g,
                        Ghost(is_other_fed_entry(s@, id@)),
                    );
                }
            }
            k += 1;
        }
        proof {
            assert(content_ids@.take(content_ids@.len() as int) =~= content_ids@);
        }
    }

    /// The content ids and positions of local tracks in a playlist.
    pub fn playlist_track_content_positions(&self, playlist_id: i64, track_ids: &[i64]) -> (r: Vec<
        (String, i64),
    >)
        ensures
            places_view(r@) == content_places(*self, playlist_id, track_ids@),
    {
        let mut out: Vec<(String, i64)> = Vec::new();
        let mut k: usize = 0;
        proof {
            assert(places_view(out@) =~= content_places(*self, playlist_id, track_ids@.take(0)));
        }
        while k < track_ids.len()
            invariant
                k <= track_ids@.len(),
                places_view(out@) == content_places(*self, playlist_id, track_ids@.take(k as int)),
            decreases track_ids@.len() - k,
        {
            proof {
                assert(track_ids@.take(k + 1).drop_last() =~= track_ids@.take(k as int));
            }
            let track_id = track_ids[k];
            let f = |e: &PlaylistEntry| -> (b: bool)
                ensures
                    b == is_entry(playlist_id, track_id)(*e),
                { e.playlist_id == playlist_id && e.track_id == track_id };
            let entry = find_by(&self.playlist_tracks, f, Ghost(is_entry(playlist_id, track_id)));
            if let (Some(t), Some(e)) = (self.track_at(track_id), entry) {
                if let Some(id) = normalize_option(&self.tracks[t].content_id) {
                    let ghost before = out@;
                    let position = self.playlist_tracks[e].position;
                    let ghost pair = (id@, position);
                    out.push((id, position));
                    proof {
                        assert(places_view(out@) =~= places_view(before).push(pair));
                    }
                }
            }
            k += 1;
        }
        proof {
            assert(track_ids@.take(track_ids@.len() as int) =~= track_ids@);
        }
        out
    }

    /// Where a content id stands in a playlist.
    pub fn playlist_content_position(&self, playlist_id: i64, content_id: &str) -> (r: Option<i64>)
        ensures
            r == content_place(*self, playlist_id, content_id@),
    {
        let id = match normalize_content_id(content_id) {
            Some(id) => id,
            None => {
                return None;
            },
        };
        let all = &self.tracks;
        let ghost p = holds_content(*self, playlist_id, id@);
        let f = |e: &PlaylistEntry| -> (b: bool)
            ensures
                b == p(*e),
            { e.playlist_id == playlist_id && has_content_id(all, e.track_id, id.as_str()) };
        if let Some(i) = find_by(&self.playlist_tracks, f, Ghost(p)) {
            return Some(self.playlist_tracks[i].position);
        }
        let s = match self.playlist_sync_id(playlist_id) {
            Some(s) => s,
            None => {
                return None;
            },
        };
        match self.fed_entry_at(s.as_str(), id.as_str()) {
            Some(i) => Some(self.fed_playlist_tracks[i].position),
            None => None,
        }
    }

    pub(crate) fn fed_entry_at(&self, sync_id: &str, content_id: &str) -> (r: Option<usize>)
        ensures
            match r {
                Some(i) => i < self.fed_playlist_tracks@.len() && first_where(
                    self.fed_playlist_tracks@,
                    is_fed_entry(sync_id@, content_id@),
                ) == Some(i as int),
                None => first_where(
                    self.fed_playlist_tracks@,
                    is_fed_entry(sync_id@, content_id@),
                ) is None,
            },
    {
        let f = |e: &FedEntry| -> (b: bool)
            ensures
                b == is_fed_entry(sync_id@, content_id@)(*e),
            {
                same(e.playlist_sync_id.as_str(), sync_id) && same(
                    e.content_id.as_str(),
                    content_id,
                )
            };
        find_by(&self.fed_playlist_tracks, f, Ghost(is_fed_entry(sync_id@, content_id@)))
    }

    /// Sets another peer's track in a synchronised playlist; gives whether it
    /// has a valid content id.
    pub fn upsert_fed_playlist_track(&mut self, sync_id: &str, fed: &FedTrack, position: i64) -> (r:
        bool)
        ensures
            r == (canonical_option(opt_view(fed.content_id)) is Some),
            sets_fed_track(*old(self), *final(self), sync_id@, fed@, position),
    {
        match normalize_option(&fed.content_id) {
            Some(id) => {
                put_fed_entry(&mut self.fed_playlist_tracks, sync_id, id, fed, position);
                true
            },
            None => false,
        }
    }

    /// Another peer's track in a synchronised playlist.
    pub fn fed_playlist_track_by_content_id(&self, sync_id: &str, content_id: &str) -> (r: Option<
        FedTrack,
    >)
        ensures
            crate::federation::track::fed_view(r) == found_fed_entry(*self, sync_id@, content_id@),
    {
        let id = match normalize_content_id(content_id) {
            Some(id) => id,
            None => {
                return None;
            },
        };
        match self.fed_entry_at(sync_id, id.as_str()) {
            Some(i) => Some(stored(&self.fed_playlist_tracks[i].fed, Some(id))),
            None => None,
        }
    }

    /// Whether a content id is known to the library or to a synchronised
    /// playlist.
    pub fn has_playlist_content_reference(&self, sync_id: &str, content_id: &str) -> (r: bool)
        ensures
            r == is_referenced(*self, sync_id@, content_id@),
    {
        match normalize_content_id(content_id) {
            Some(id) => self.content_track(id.as_str()).is_some() || self.fed_entry_at(
                sync_id,
                id.as_str(),
            ).is_some(),
            None => false,
        }
    }

    /// Puts the local track with a content id behind the others of a
    /// synchronised playlist; gives whether both are there.
    pub fn add_content_id_to_synced_playlist(&mut self, sync_id: &str, content_id: &str) -> (r: bool)
        ensures
            r == (track_named(*old(self), content_id@) is Some && playlist_of_sync_id(
                *old(self),
                sync_id@,
            ) is Some),
            adds_content(*old(self), *final(self), sync_id@, content_id@),
    {
        let track_id = match self.track_id_by_content_id(content_id) {
            Some(t) => t,
            None => {
                return false;
            },
        };
        match self.synced_playlist(sync_id) {
            Some(i) => {
                let playlist_id = self.playlists[i].id;
                add_entry(&mut self.playlist_tracks, playlist_id, track_id);
                true
            },
            None => false,
        }
    }

    /// Takes a content id out of a synchronised playlist.
    pub fn remove_content_id_from_synced_playlist(&mut self, sync_id: &str, content_id: &str)
        ensures
            drops_content(*old(self), *final(self), sync_id@, content_id@),
    {
        let id = match normalize_content_id(content_id) {
            Some(id) => id,
            None => {
                return;
            },
        };
        if let (Some(track_id), Some(i)) = (
            self.content_track(id.as_str()),
            self.synced_playlist(sync_id),
        ) {
            let playlist_id = self.playlists[i].id;
            let f = |e: &PlaylistEntry| -> (b: bool)
                ensures
                    b == is_other_entry(playlist_id, track_id)(*e),
                { !(e.playlist_id == playlist_id && e.track_id == track_id) };
            retain_by(
                &mut self.playlist_tracks,
                f,
                Ghost(is_other_entry(playlist_id, track_id)),
            );
        }
        let g = |e: &FedEntry| -> (b: bool)
            ensures
                b == is_other_fed_entry(sync_id@, id@)(*e),
            {
                !(same(e.playlist_sync_id.as_str(), sync_id) && same(
                    e.content_id.as_str(),
                    id.as_str(),
                ))
            };
        retain_by(&mut self.fed_playlist_tracks, g, Ghost(is_other_fed_entry(sync_id@, id@)));
    }
}

/// What deleting a playlist by the id that it has on every device changes.
pub open spec fn deletes_playlist(before: Library, after: Library, sync_id: Seq<char>) -> bool {
    &&& after.fed_playlist_tracks@ == before.fed_playlist_tracks@.filter(
        fed_of_other_playlist(sync_id),
    )
    &&& after.playlists@ == before.playlists@.filter(lacks_sync_id(sync_id))
    &&& after.playlist_tracks@ == match playlist_of_sync_id(before, sync_id) {
        Some(id) => before.playlist_tracks@.filter(of_other_playlist(id)),
        None => before.playlist_tracks@,
    }
    &&& after == Library {
        playlists: after.playlists,
        playlist_tracks: after.playlist_tracks,
        fed_playlist_tracks: after.fed_playlist_tracks,
        ..before
    }
}

/// What setting the title of a synchronised playlist changes.
pub open spec fn sets_playlist(
    before: Library,
    after: Library,
    sync_id: Seq<char>,
    title: Seq<char>,
) -> bool {
    let now = after.playlists@;
    &&& match first_where(before.playlists@, has_sync_id(sync_id)) {
        Some(i) => {
            let was = before.playlists@[i];
            &&& now == before.playlists@.update(i, now[i])
            &&& now[i].id == was.id
            &&& now[i].sync_id == was.sync_id
            &&& now[i].description == was.description
            &&& now[i].title@ == title
        },
        None => {
            &&& now.len() == before.playlists@.len() + 1
            &&& now.drop_last() == before.playlists@
            &&& now.last().id == next_playlist_id(before.playlists@)
            &&& opt_view(now.last().sync_id) == Some(sync_id)
            &&& now.last().title@ == title
            &&& now.last().description is None
        },
    }
    &&& after == Library { playlists: after.playlists, ..before }
}

} // verus!
