//! What holds of the counts of the library and of the ids that its playlists have on
//! every device.

use crate::library::export::{audio_size, counts_library, lacks_size, LocalLibraryStats};
use crate::library::schema::{fills_sync_ids, with_sync_id};
use crate::library::tables::{Library, TrackRow};
use crate::lists::lemma_filter_holds;
use vstd::prelude::*;

verus! {

proof fn lemma_size(rows: Seq<TrackRow>)
    ensures
        audio_size(rows) >= 0,
        forall|i: int|
            0 <= i < rows.len() && (#[trigger] rows[i]).file_size_bytes is Some ==> audio_size(rows)
                >= rows[i].file_size_bytes->0,
    decreases rows.len(),
{
    if rows.len() > 0 {
        let h = rows.drop_last();
        lemma_size(h);
        assert forall|i: int|
            0 <= i < rows.len() && (#[trigger] rows[i]).file_size_bytes is Some implies audio_size(
            rows,
        ) >= rows[i].file_size_bytes->0 by {
            if i < h.len() {
                assert(h[i] == rows[i]);
            }
        }
    }
}

/// Every artist, release and track of the library is counted. The audio takes at least as
/// much as any one track, and the tracks of unknown size are none exactly when the size of
/// each is known.
pub proof fn law_library_is_counted(
    lib: Library,
    cover_bytes: u64,
    database_bytes: u64,
    r: LocalLibraryStats,
)
    requires
        counts_library(lib, cover_bytes, database_bytes, r),
    ensures
        r.artist_count == lib.artists@.len(),
        r.release_count == lib.releases@.len(),
        r.track_count == lib.tracks@.len(),
        r.cover_bytes == cover_bytes,
        r.database_bytes == database_bytes,
        forall|i: int|
            0 <= i < lib.tracks@.len() && (#[trigger] lib.tracks@[i]).file_size_bytes is Some
                ==> r.audio_bytes >= lib.tracks@[i].file_size_bytes->0,
        lib.tracks@.len() == 0 ==> r.audio_bytes == 0,
        lib.tracks@.len() == 1 && (lib.tracks@[0].file_size_bytes matches Some(n) && n >= 0)
            ==> r.audio_bytes == lib.tracks@[0].file_size_bytes->0,
        r.tracks_without_size == 0 <==> forall|i: int|
            0 <= i < lib.tracks@.len() ==> (#[trigger] lib.tracks@[i]).file_size_bytes is Some,
        0 <= r.tracks_without_size <= r.track_count,
{
    let rows = lib.tracks@;
    let p = lacks_size();
    lemma_size(rows);
    lemma_filter_holds(rows, p);
    rows.lemma_filter_len(p);
    if rows.filter(p).len() > 0 {
        let x = rows.filter(p)[0];
        assert(rows.filter(p).contains(x));
        let i = rows.index_of(x);
        assert(rows[i].file_size_bytes is None);
    } else {
        assert forall|i: int| 0 <= i < rows.len() implies (#[trigger] rows[i]).file_size_bytes
            is Some by {
            if rows[i].file_size_bytes is None {
                assert(rows.contains(rows[i]));
                assert(p(rows[i]));
                assert(rows.filter(p).contains(rows[i]));
            }
        }
    }
    if rows.len() == 1 {
        assert(audio_size(rows.drop_last()) == 0);
    }
}

/// Joining two stocks of tracks joins their sizes.
pub proof fn law_sizes_are_summed(a: Seq<TrackRow>, b: Seq<TrackRow>)
    ensures
        audio_size(a + b) == audio_size(a) + audio_size(b),
    decreases b.len(),
{
    if b.len() == 0 {
        assert(a + b =~= a);
    } else {
        law_sizes_are_summed(a, b.drop_last());
        assert((a + b).drop_last() =~= a + b.drop_last());
    }
}

/// Afterwards every playlist has an id for every device; the one that it had, if it had
/// one. Nothing else of it changes.
pub proof fn law_every_playlist_gets_an_id(
    a: Library,
    b: Library,
    stamps: Seq<u64>,
    process: u32,
)
    requires
        fills_sync_ids(a, b, stamps, process),
    ensures
        b.playlists@.len() == a.playlists@.len(),
        forall|i: int|
            0 <= i < b.playlists@.len() ==> {
                &&& (#[trigger] b.playlists@[i]).sync_id is Some
                &&& a.playlists@[i].sync_id is Some ==> b.playlists@[i] == a.playlists@[i]
                &&& b.playlists@[i].id == a.playlists@[i].id
                &&& b.playlists@[i].title == a.playlists@[i].title
            },
        b.playlist_tracks == a.playlist_tracks,
        b.tracks == a.tracks,
        b.likes == a.likes,
{
    assert forall|i: int| 0 <= i < b.playlists@.len() implies {
        &&& (#[trigger] b.playlists@[i]).sync_id is Some
        &&& a.playlists@[i].sync_id is Some ==> b.playlists@[i] == a.playlists@[i]
        &&& b.playlists@[i].id == a.playlists@[i].id
        &&& b.playlists@[i].title == a.playlists@[i].title
    } by {
        assert(with_sync_id(a.playlists@[i], stamps[i], process, b.playlists@[i]));
    }
}

} // verus!
