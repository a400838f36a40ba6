//! The whole synchronised state, as it is handed to another device.

use crate::devices::lww::{ItemState, LikeState, PlaylistState};
use crate::devices::model::{
    synced_of, synced_view, SnapshotLike, SnapshotLikeTombstone, SnapshotPlaylist,
    SnapshotPlaylistItem, SnapshotPlaylistItemTombstone, SnapshotPlaylistTombstone, SyncSnapshot,
    SyncedFedTrack,
};
use crate::devices::sync::DeviceSync;
use crate::federation::track::{fed_view, FedTrack, FedTrackView};
use crate::keyed::{distinct_keys, is_entry_of, Keyed};
use crate::library::likes::found_fed_like;
use crate::library::playlists::found_fed_entry;
use crate::library::tables::Library;
use crate::lists::{first_where, sort_by, stable_sorted};
use crate::text::{before, no_case_before_or_same, no_case_leq, precedes, same};
use vstd::prelude::*;

verus! {

/// The entries of the likes that hold, or of those that do not.
pub open spec fn is_like(liked: bool) -> spec_fn((String, LikeState)) -> bool {
    |e: (String, LikeState)| e.1.liked == liked
}

pub open spec fn like_key(e: (String, LikeState)) -> SnapshotLikeTombstone {
    SnapshotLikeTombstone { content_id: e.0, hlc_ms: e.1.hlc_ms, op_id: e.1.op_id }
}

pub open spec fn like_order() -> spec_fn(SnapshotLikeTombstone, SnapshotLikeTombstone) -> bool {
    |a: SnapshotLikeTombstone, b: SnapshotLikeTombstone| !precedes(b.content_id@, a.content_id@)
}

/// The likes that hold, or those that do not, by content id.
pub open spec fn like_keys(s: DeviceSync, liked: bool) -> Seq<SnapshotLikeTombstone> {
    stable_sorted(
        s.likes.items().filter(is_like(liked)).map_values(|e: (String, LikeState)| like_key(e)),
        like_order(),
    )
}

/// A playlist without its items.
#[derive(Debug)]
pub struct PlaylistKey {
    pub playlist_id: String,
    pub title: String,
    pub hlc_ms: i64,
    pub op_id: String,
}

pub open spec fn is_playlist_entry(deleted: bool) -> spec_fn((String, PlaylistState)) -> bool {
    |e: (String, PlaylistState)| e.1.deleted == deleted
}

pub open spec fn playlist_key(e: (String, PlaylistState)) -> PlaylistKey {
    PlaylistKey { playlist_id: e.0, title: e.1.title, hlc_ms: e.1.hlc_ms, op_id: e.1.op_id }
}

pub open spec fn title_order() -> spec_fn(PlaylistKey, PlaylistKey) -> bool {
    |a: PlaylistKey, b: PlaylistKey| no_case_leq(a.title@, b.title@)
}

/// The playlists, by title.
pub open spec fn playlist_keys(s: DeviceSync) -> Seq<PlaylistKey> {
    stable_sorted(
        s.playlists.items().filter(is_playlist_entry(false)).map_values(
            |e: (String, PlaylistState)| playlist_key(e),
        ),
        title_order(),
    )
}

pub open spec fn deleted_key(e: (String, PlaylistState)) -> SnapshotPlaylistTombstone {
    SnapshotPlaylistTombstone { playlist_id: e.0, hlc_ms: e.1.hlc_ms, op_id: e.1.op_id }
}

pub open spec fn deleted_order() -> spec_fn(
    SnapshotPlaylistTombstone,
    SnapshotPlaylistTombstone,
) -> bool {
    |a: SnapshotPlaylistTombstone, b: SnapshotPlaylistTombstone|
        !precedes(b.playlist_id@, a.playlist_id@)
}

/// The deleted playlists, by id.
pub open spec fn deleted_keys(s: DeviceSync) -> Seq<SnapshotPlaylistTombstone> {
    stable_sorted(
        s.playlists.items().filter(is_playlist_entry(true)).map_values(
            |e: (String, PlaylistState)| deleted_key(e),
        ),
        deleted_order(),
    )
}

/// A playlist item without its track.
#[derive(Debug)]
pub struct ItemKey {
    pub content_id: String,
    pub position: i64,
    pub hlc_ms: i64,
    pub op_id: String,
}

pub open spec fn is_item(present: bool) -> spec_fn((String, ItemState)) -> bool {
    |e: (String, ItemState)| e.1.present == present
}

pub open spec fn item_key(e: (String, ItemState)) -> ItemKey {
    ItemKey { content_id: e.0, position: e.1.position, hlc_ms: e.1.hlc_ms, op_id: e.1.op_id }
}

pub open spec fn item_order() -> spec_fn(ItemKey, ItemKey) -> bool {
    |a: ItemKey, b: ItemKey|
        a.position < b.position || (a.position == b.position && !precedes(
            b.content_id@,
            a.content_id@,
        ))
}

/// The entries of the items of a playlist.
pub open spec fn inner_items(
    items: Seq<(String, Keyed<ItemState>)>,
    playlist_id: Seq<char>,
) -> Seq<(String, ItemState)> {
    match first_where(items, is_entry_of::<Keyed<ItemState>>(playlist_id)) {
        Some(i) => items[i].1.items(),
        None => Seq::empty(),
    }
}

/// The items of a playlist, by position and content id.
pub open spec fn item_keys(s: DeviceSync, playlist_id: Seq<char>) -> Seq<ItemKey> {
    stable_sorted(
        inner_items(s.items.items(), playlist_id).filter(is_item(true)).map_values(
            |e: (String, ItemState)| item_key(e),
        ),
        item_order(),
    )
}

pub open spec fn removed_key(playlist_id: String, e: (String, ItemState)) -> SnapshotPlaylistItemTombstone {
    SnapshotPlaylistItemTombstone {
        playlist_id,
        content_id: e.0,
        hlc_ms: e.1.hlc_ms,
        op_id: e.1.op_id,
    }
}

/// The removed items of some playlists.
pub open spec fn removed_of(items: Seq<(String, Keyed<ItemState>)>) -> Seq<
    SnapshotPlaylistItemTombstone,
>
    decreases items.len(),
{
    if items.len() == 0 {
        Seq::empty()
    } else {
        let e = items.last();
        removed_of(items.drop_last()) + e.1.items().filter(is_item(false)).map_values(
            |i: (String, ItemState)| removed_key(e.0, i),
        )
    }
}

pub open spec fn removed_order() -> spec_fn(
    SnapshotPlaylistItemTombstone,
    SnapshotPlaylistItemTombstone,
) -> bool {
    |a: SnapshotPlaylistItemTombstone, b: SnapshotPlaylistItemTombstone|
        precedes(a.playlist_id@, b.playlist_id@) || (a.playlist_id@ == b.playlist_id@ && !precedes(
            b.content_id@,
            a.content_id@,
        ))
}

/// What is told of a track of another peer.
pub open spec fn told_track(fed: Option<FedTrackView>) -> Option<FedTrackView> {
    match fed {
        Some(f) => synced_of(f),
        None => None,
    }
}

/// Whether a like of the snapshot is that of an entry, with what the library
/// knows of the track.
pub open spec fn tells_like(l: Library, r: SnapshotLike, k: SnapshotLikeTombstone) -> bool {
    &&& r.content_id == k.content_id
    &&& r.hlc_ms == k.hlc_ms
    &&& r.op_id == k.op_id
    &&& synced_view(r.fed) == told_track(found_fed_like(l, k.content_id@))
}

/// What the library knows of the track of a playlist item.
pub open spec fn track_of_item(l: Library, playlist_id: Seq<char>, content_id: Seq<char>) -> Option<
    FedTrackView,
> {
    match found_fed_entry(l, playlist_id, content_id) {
        Some(f) => Some(f),
        None => found_fed_like(l, content_id),
    }
}

pub open spec fn tells_item(
    l: Library,
    playlist_id: Seq<char>,
    r: SnapshotPlaylistItem,
    k: ItemKey,
) -> bool {
    &&& r.content_id == k.content_id
    &&& r.position == k.position
    &&& r.hlc_ms == k.hlc_ms
    &&& r.op_id == k.op_id
    &&& synced_view(r.fed) == told_track(track_of_item(l, playlist_id, k.content_id@))
}

pub open spec fn tells_playlist(s: DeviceSync, l: Library, r: SnapshotPlaylist, k: PlaylistKey) -> bool {
    let items = item_keys(s, k.playlist_id@);
    &&& r.playlist_id == k.playlist_id
    &&& r.title == k.title
    &&& r.hlc_ms == k.hlc_ms
    &&& r.op_id == k.op_id
    &&& r.items@.len() == items.len()
    &&& forall|i: int|
        0 <= i < items.len() ==> tells_item(l, k.playlist_id@, #[trigger] r.items@[i], items[i])
}

/// Whether no key occurs twice in a table.
pub open spec fn sound_tables(s: DeviceSync) -> bool {
    &&& distinct_keys(s.likes.items())
    &&& distinct_keys(s.playlists.items())
    &&& distinct_keys(s.items.items())
    &&& forall|i: int|
        0 <= i < s.items.items().len() ==> distinct_keys((#[trigger] s.items.items()[i]).1.items())
}

/// Whether a snapshot tells the whole state.
pub open spec fn tells(s: DeviceSync, l: Library, r: SyncSnapshot) -> bool {
    let likes = like_keys(s, true);
    let playlists = playlist_keys(s);
    &&& r.likes@.len() == likes.len()
    &&& forall|i: int| 0 <= i < likes.len() ==> tells_like(l, #[trigger] r.likes@[i], likes[i])
    &&& r.unlikes@ == like_keys(s, false)
    &&& r.playlists@.len() == playlists.len()
    &&& forall|i: int|
        0 <= i < playlists.len() ==> tells_playlist(s, l, #[trigger] r.playlists@[i], playlists[i])
    &&& r.deleted_playlists@ == deleted_keys(s)
    &&& r.removed_playlist_items@ == stable_sorted(removed_of(s.items.items()), removed_order())
}

/// What others are told of a track.
fn tell_track(fed: Option<FedTrack>) -> (r: Option<SyncedFedTrack>)
    ensures
        synced_view(r) == told_track(fed_view(fed)),
{
    match fed {
        Some(f) => SyncedFedTrack::from_fed(&f),
        None => None,
    }
}

impl DeviceSync {
    fn sorted_likes(&self, liked: bool) -> (r: Vec<SnapshotLikeTombstone>)
        ensures
            r@ == like_keys(*self, liked),
            distinct_keys(self.likes.items()),
    {
        let mut out: Vec<SnapshotLikeTombstone> = Vec::new();
        let ghost items = self.likes.items();
        let ghost p = is_like(liked);
        let ghost g = |e: (String, LikeState)| like_key(e);
        let n: usize = self.likes.len();
        let mut i: usize = 0;
        proof {
            reveal(Seq::filter);
            assert(out@ =~= items.take(0).filter(p).map_values(g));
        }
        while i < n
            invariant
                i <= n,
                items == self.likes.items(),
                n == items.len(),
                p == is_like(liked),
                g == (|e: (String, LikeState)| like_key(e)),
                out@ == items.take(i as int).filter(p).map_values(g),
            decreases n - i,
        {
            proof {
                reveal(Seq::filter);
                assert(items.take(i + 1).drop_last() =~= items.take(i as int));
            }
            let (k, v) = self.likes.at(i);
            if v.liked == liked {
                out.push(
                    SnapshotLikeTombstone {
                        content_id: k.clone(),
                        hlc_ms: v.hlc_ms,
                        op_id: v.op_id.clone(),
                    },
                );
            }
            proof {
                assert(out@ =~= items.take(i + 1).filter(p).map_values(g));
            }
            i += 1;
        }
        proof {
            assert(items.take(n as int) =~= items);
        }
        let leq = |a: &SnapshotLikeTombstone, b: &SnapshotLikeTombstone| -> (r: bool)
            ensures
                r == like_order()(*a, *b),
            { !before(b.content_id.as_str(), a.content_id.as_str()) };
        sort_by(&mut out, leq, Ghost(like_order()));
        out
    }

    fn sorted_playlists(&self) -> (r: Vec<PlaylistKey>)
        ensures
            r@ == playlist_keys(*self),
            distinct_keys(self.playlists.items()),
    {
        let mut out: Vec<PlaylistKey> = Vec::new();
        let ghost items = self.playlists.items();
        let ghost p = is_playlist_entry(false);
        let ghost g = |e: (String, PlaylistState)| playlist_key(e);
        let n: usize = self.playlists.len();
        let mut i: usize = 0;
        proof {
            reveal(Seq::filter);
            assert(out@ =~= items.take(0).filter(p).map_values(g));
        }
        while i < n
            invariant
                i <= n,
                items == self.playlists.items(),
                n == items.len(),
                p == is_playlist_entry(false),
                g == (|e: (String, PlaylistState)| playlist_key(e)),
                out@ == items.take(i as int).filter(p).map_values(g),
            decreases n - i,
        {
            proof {
                reveal(Seq::filter);
                assert(items.take(i + 1).drop_last() =~= items.take(i as int));
            }
            let (k, v) = self.playlists.at(i);
            if !v.deleted {
                out.push(
                    PlaylistKey {
                        playlist_id: k.clone(),
                        title: v.title.clone(),
                        hlc_ms: v.hlc_ms,
                        op_id: v.op_id.clone(),
                    },
                );
            }
            proof {
                assert(out@ =~= items.take(i + 1).filter(p).map_values(g));
            }
            i += 1;
        }
        proof {
            assert(items.take(n as int) =~= items);
        }
        let leq = |a: &PlaylistKey, b: &PlaylistKey| -> (r: bool)
            ensures
                r == title_order()(*a, *b),
            { no_case_before_or_same(a.title.as_str(), b.title.as_str()) };
        sort_by(&mut out, leq, Ghost(title_order()));
        out
    }

    fn sorted_deleted(&self) -> (r: Vec<SnapshotPlaylistTombstone>)
        ensures
            r@ == deleted_keys(*self),
    {
        let mut out: Vec<SnapshotPlaylistTombstone> = Vec::new();
        let ghost items = self.playlists.items();
        let ghost p = is_playlist_entry(true);
        let ghost g = |e: (String, PlaylistState)| deleted_key(e);
        let n: usize = self.playlists.len();
        let mut i: usize = 0;
        proof {
            reveal(Seq::filter);
            assert(out@ =~= items.take(0).filter(p).map_values(g));
        }
        while i < n
            invariant
                i <= n,
                items == self.playlists.items(),
                n == items.len(),
                p == is_playlist_entry(true),
                g == (|e: (String, PlaylistState)| deleted_key(e)),
                out@ == items.take(i as int).filter(p).map_values(g),
            decreases n - i,
        {
            proof {
                reveal(Seq::filter);
                assert(items.take(i + 1).drop_last() =~= items.take(i as int));
            }
            let (k, v) = self.playlists.at(i);
            if v.deleted {
                out.push(
                    SnapshotPlaylistTombstone {
                        playlist_id: k.clone(),
                        hlc_ms: v.hlc_ms,
                        op_id: v.op_id.clone(),
                    },
                );
            }
            proof {
                assert(out@ =~= items.take(i + 1).filter(p).map_values(g));
            }
            i += 1;
        }
        proof {
            assert(items.take(n as int) =~= items);
        }
        let leq = |a: &SnapshotPlaylistTombstone, b: &SnapshotPlaylistTombstone| -> (r: bool)
            ensures
                r == deleted_order()(*a, *b),
            { !before(b.playlist_id.as_str(), a.playlist_id.as_str()) };
        sort_by(&mut out, leq, Ghost(deleted_order()));
        out
    }

    fn sorted_items(&self, playlist_id: &str) -> (r: Vec<ItemKey>)
        ensures
            r@ == item_keys(*self, playlist_id@),
    {
        let mut out: Vec<ItemKey> = Vec::new();
        let ghost items = inner_items(self.items.items(), playlist_id@);
        let ghost p = is_item(true);
        let ghost g = |e: (String, ItemState)| item_key(e);
        proof {
            reveal(Seq::filter);
        }
        if let Some(at) = self.items.position(playlist_id) {
            let (_, table) = self.items.at(at);
            let n: usize = table.len();
            let mut i: usize = 0;
            proof {
                assert(out@ =~= items.take(0).filter(p).map_values(g));
            }
            while i < n
                invariant
                    i <= n,
                    items == table.items(),
                    n == items.len(),
                    p == is_item(true),
                    g == (|e: (String, ItemState)| item_key(e)),
                    out@ == items.take(i as int).filter(p).map_values(g),
                decreases n - i,
            {
                proof {
                    reveal(Seq::filter);
                    assert(items.take(i + 1).drop_last() =~= items.take(i as int));
                }
                let (k, v) = table.at(i);
                if v.present {
                    out.push(
                        ItemKey {
                            content_id: k.clone(),
                            position: v.position,
                            hlc_ms: v.hlc_ms,
                            op_id: v.op_id.clone(),
                        },
                    );
                }
                proof {
                    assert(out@ =~= items.take(i + 1).filter(p).map_values(g));
                }
                i += 1;
            }
            proof {
                assert(items.take(n as int) =~= items);
            }
        }
        proof {
            assert(out@ =~= items.filter(p).map_values(g));
        }
        let leq = |a: &ItemKey, b: &ItemKey| -> (r: bool)
            ensures
                r == item_order()(*a, *b),
            {
                a.position < b.position || (a.position == b.position && !before(
                    b.content_id.as_str(),
                    a.content_id.as_str(),
                ))
            };
        sort_by(&mut out, leq, Ghost(item_order()));
        out
    }

    fn sorted_removed(&self) -> (r: Vec<SnapshotPlaylistItemTombstone>)
        ensures
            r@ == stable_sorted(removed_of(self.items.items()), removed_order()),
            distinct_keys(self.items.items()),
            forall|i: int|
                0 <= i < self.items.items().len() ==> distinct_keys(
                    (#[trigger] self.items.items()[i]).1.items(),
                ),
    {
        let mut out: Vec<SnapshotPlaylistItemTombstone> = Vec::new();
        let ghost all = self.items.items();
        let m: usize = self.items.len();
        let mut j: usize = 0;
        while j < m
            invariant
                j <= m,
                all == self.items.items(),
                m == all.len(),
                out@ == removed_of(all.take(j as int)),
                forall|i: int| 0 <= i < j ==> distinct_keys((#[trigger] all[i]).1.items()),
            decreases m - j,
        {
            let (id, table) = self.items.at(j);
            let ghost base = out@;
            let ghost items = table.items();
            let ghost p = is_item(false);
            let ghost g = |e: (String, ItemState)| removed_key(all[j as int].0, e);
            let n: usize = table.len();
            let mut i: usize = 0;
            proof {
                reveal(Seq::filter);
                assert(out@ =~= base + items.take(0).filter(p).map_values(g));
            }
            while i < n
                invariant
                    i <= n,
                    j < all.len(),
                    *id == all[j as int].0,
                    items == table.items(),
                    n == items.len(),
                    distinct_keys(items),
                    p == is_item(false),
                    g == (|e: (String, ItemState)| removed_key(all[j as int].0, e)),
                    out@ == base + items.take(i as int).filter(p).map_values(g),
                decreases n - i,
            {
                proof {
                    reveal(Seq::filter);
                    assert(items.take(i + 1).drop_last() =~= items.take(i as int));
                }
                let (k, v) = table.at(i);
                if !v.present {
                    out.push(
                        SnapshotPlaylistItemTombstone {
                            playlist_id: id.clone(),
                            content_id: k.clone(),
                            hlc_ms: v.hlc_ms,
                            op_id: v.op_id.clone(),
                        },
                    );
                }
                proof {
                    assert(out@ =~= base + items.take(i + 1).filter(p).map_values(g));
                }
                i += 1;
            }
            proof {
                assert(items.take(n as int) =~= items);
                assert(all.take(j + 1).drop_last() =~= all.take(j as int));
                assert(all.take(j + 1).last() == all[j as int]);
                assert(items.filter(p).map_values(g) =~= items.filter(is_item(false)).map_values(
                    |e: (String, ItemState)| removed_key(all.take(j + 1).last().0, e),
                ));
            }
            j += 1;
        }
        proof {
            assert(all.take(m as int) =~= all);
        }
        let leq = |a: &SnapshotPlaylistItemTombstone, b: &SnapshotPlaylistItemTombstone| -> (r:
            bool)
            ensures
                r == removed_order()(*a, *b),
            {
                before(a.playlist_id.as_str(), b.playlist_id.as_str()) || (same(
                    a.playlist_id.as_str(),
                    b.playlist_id.as_str(),
                ) && !before(b.content_id.as_str(), a.content_id.as_str()))
            };
        sort_by(&mut out, leq, Ghost(removed_order()));
        out
    }

    fn told_items(&self, library: &Library, playlist_id: &str) -> (r: Vec<SnapshotPlaylistItem>)
        ensures
            r@.len() == item_keys(*self, playlist_id@).len(),
            forall|i: int|
                0 <= i < r@.len() ==> tells_item(
                    *library,
                    playlist_id@,
                    #[trigger] r@[i],
                    item_keys(*self, playlist_id@)[i],
                ),
    {
        let keys = self.sorted_items(playlist_id);
        let mut out: Vec<SnapshotPlaylistItem> = Vec::new();
        let mut i: usize = 0;
        while i < keys.len()
            invariant
                i <= keys@.len(),
                keys@ == item_keys(*self, playlist_id@),
                out@.len() == i,
                forall|k: int|
                    0 <= k < i ==> tells_item(
                        *library,
                        playlist_id@,
                        #[trigger] out@[k],
                        keys@[k],
                    ),
            decreases keys@.len() - i,
        {
            let k = &keys[i];
            let track = match library.fed_playlist_track_by_content_id(
                playlist_id,
                k.content_id.as_str(),
            ) {
                Some(f) => Some(f),
                None => library.fed_like_by_content_id(k.content_id.as_str()),
            };
            proof {
                assert(fed_view(track) == track_of_item(*library, playlist_id@, k.content_id@));
            }
            out.push(
                SnapshotPlaylistItem {
                    content_id: k.content_id.clone(),
                    position: k.position,
                    hlc_ms: k.hlc_ms,
                    op_id: k.op_id.clone(),
                    fed: tell_track(track),
                },
            );
            i += 1;
        }
        out
    }

    /// The whole synchronised state, with what the library knows of tracks of
    /// other peers.
    pub fn snapshot(&self, library: &Library) -> (r: SyncSnapshot)
        ensures
            tells(*self, *library, r),
            sound_tables(*self),
    {
        let keys = self.sorted_likes(true);
        let mut likes: Vec<SnapshotLike> = Vec::new();
        let mut i: usize = 0;
        while i < keys.len()
            invariant
                i <= keys@.len(),
                likes@.len() == i,
                forall|k: int| 0 <= k < i ==> tells_like(*library, #[trigger] likes@[k], keys@[k]),
            decreases keys@.len() - i,
        {
            let k = &keys[i];
            let fed = tell_track(library.fed_like_by_content_id(k.content_id.as_str()));
            likes.push(
                SnapshotLike {
                    content_id: k.content_id.clone(),
                    hlc_ms: k.hlc_ms,
                    op_id: k.op_id.clone(),
                    fed,
                },
            );
            i += 1;
        }
        let unlikes = self.sorted_likes(false);
        let names = self.sorted_playlists();
        let mut playlists: Vec<SnapshotPlaylist> = Vec::new();
        let mut i: usize = 0;
        while i < names.len()
            invariant
                i <= names@.len(),
                playlists@.len() == i,
                forall|k: int|
                    0 <= k < i ==> tells_playlist(
                        *self,
                        *library,
                        #[trigger] playlists@[k],
                        names@[k],
                    ),
            decreases names@.len() - i,
        {
            let k = &names[i];
            let items = self.told_items(library, k.playlist_id.as_str());
            playlists.push(
                SnapshotPlaylist {
                    playlist_id: k.playlist_id.clone(),
                    title: k.title.clone(),
                    hlc_ms: k.hlc_ms,
                    op_id: k.op_id.clone(),
                    items,
                },
            );
            i += 1;
        }
        let deleted_playlists = self.sorted_deleted();
        let removed_playlist_items = self.sorted_removed();
        SyncSnapshot { likes, unlikes, playlists, deleted_playlists, removed_playlist_items }
    }
}

} // verus!
