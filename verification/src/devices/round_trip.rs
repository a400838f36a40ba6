//! What a snapshot lists, and that a device which took one over lists the same.

use crate::content_id::{canonical, law_canonical_is_fixed};
use crate::devices::exchange::{
    deleted_entry, entry_step, item_entries, item_entry, like_entry, playlist_entries,
    playlist_entry, receive_step, removed_entry, snapshot_entries, takes, unlike_entry, Entry,
};
use crate::devices::gc::gc_step;
use crate::devices::laws::{
    holds_at_least, law_taking_over_merges, lemma_item_held, lemma_item_told, lemma_like_held,
    lemma_playlist_held, lemma_playlist_told, lemma_removed_told, lemma_told, said, says_of_items,
    says_of_likes, says_of_playlists,
};
use crate::devices::lww::{merged, ItemState, ItemView, LikeState, LikeView, PlaylistState, PlaylistView};
use crate::devices::model::{
    SnapshotLike, SnapshotLikeTombstone, SnapshotPlaylist, SnapshotPlaylistItem,
    SnapshotPlaylistItemTombstone, SnapshotPlaylistTombstone, SyncOpPayload,
    SyncOpWire, SyncSnapshot,
};
use crate::devices::record::{is_next_op, keep_step, record_step};
use crate::devices::snapshot::{
    deleted_key, deleted_order, inner_items, is_item, is_like, is_playlist_entry,
    item_key, item_keys, item_order, like_key, like_keys, like_order, playlist_key, playlist_keys,
    removed_key, removed_of, removed_order, sound_tables, tells, tells_item, tells_like,
    tells_playlist, title_order, ItemKey, PlaylistKey,
};
use crate::devices::sync::{items_of, op_step, DeviceSync, World};
use crate::keyed::{distinct_keys, is_entry_of, Keyed};
use crate::library::tables::Library;
use crate::lists::{first_where, law_stable_sort, lemma_first_where, stable_sorted};
use vstd::prelude::*;

verus! {

// ---------------------------------------------------------------------------
// What a snapshot lists
// ---------------------------------------------------------------------------

pub open spec fn lists_like(r: SyncSnapshot, id: Seq<char>, hlc: i64, op: Seq<char>) -> bool {
    exists|i: int|
        0 <= i < r.likes@.len() && (#[trigger] r.likes@[i]).content_id@ == id && r.likes@[i].hlc_ms
            == hlc && r.likes@[i].op_id@ == op
}

pub open spec fn lists_unlike(r: SyncSnapshot, id: Seq<char>, hlc: i64, op: Seq<char>) -> bool {
    exists|i: int|
        0 <= i < r.unlikes@.len() && (#[trigger] r.unlikes@[i]).content_id@ == id
            && r.unlikes@[i].hlc_ms == hlc && r.unlikes@[i].op_id@ == op
}

pub open spec fn lists_playlist(
    r: SyncSnapshot,
    id: Seq<char>,
    title: Seq<char>,
    hlc: i64,
    op: Seq<char>,
) -> bool {
    exists|i: int|
        0 <= i < r.playlists@.len() && (#[trigger] r.playlists@[i]).playlist_id@ == id
            && r.playlists@[i].title@ == title && r.playlists@[i].hlc_ms == hlc
            && r.playlists@[i].op_id@ == op
}

pub open spec fn lists_deleted(r: SyncSnapshot, id: Seq<char>, hlc: i64, op: Seq<char>) -> bool {
    exists|i: int|
        0 <= i < r.deleted_playlists@.len() && (#[trigger] r.deleted_playlists@[i]).playlist_id@
            == id && r.deleted_playlists@[i].hlc_ms == hlc && r.deleted_playlists@[i].op_id@ == op
}

pub open spec fn lists_item(
    r: SyncSnapshot,
    list: Seq<char>,
    id: Seq<char>,
    position: i64,
    hlc: i64,
    op: Seq<char>,
) -> bool {
    exists|j: int, i: int|
        0 <= j < r.playlists@.len() && 0 <= i < r.playlists@[j].items@.len()
            && r.playlists@[j].playlist_id@ == list && (
        #[trigger] r.playlists@[j].items@[i]).content_id@ == id && r.playlists@[j].items@[i].position
            == position && r.playlists@[j].items@[i].hlc_ms == hlc
            && r.playlists@[j].items@[i].op_id@ == op
}

pub open spec fn lists_removed(
    r: SyncSnapshot,
    list: Seq<char>,
    id: Seq<char>,
    hlc: i64,
    op: Seq<char>,
) -> bool {
    exists|i: int|
        0 <= i < r.removed_playlist_items@.len() && (
        #[trigger] r.removed_playlist_items@[i]).playlist_id@ == list
            && r.removed_playlist_items@[i].content_id@ == id && r.removed_playlist_items@[i].hlc_ms
            == hlc && r.removed_playlist_items@[i].op_id@ == op
}

/// Whether a playlist is known and not deleted.
pub open spec fn stands(s: DeviceSync, list: Seq<char>) -> bool {
    s.playlists@.dom().contains(list) && !s.playlists@[list].deleted
}

/// What is left in a sorted list of what was turned into something else comes
/// from something that satisfies the predicate.
proof fn lemma_told_back<T, U>(
    s: Seq<T>,
    p: spec_fn(T) -> bool,
    f: spec_fn(T) -> U,
    leq: spec_fn(U, U) -> bool,
    j: int,
) -> (i: int)
    requires
        0 <= j < stable_sorted(s.filter(p).map_values(f), leq).len(),
    ensures
        0 <= i < s.len(),
        p(s[i]),
        f(s[i]) == stable_sorted(s.filter(p).map_values(f), leq)[j],
{
    broadcast use vstd::seq_lib::group_to_multiset_ensures;

    let rows = s.filter(p).map_values(f);
    let out = stable_sorted(rows, leq);
    law_stable_sort(rows, leq);
    assert(out.contains(out[j]));
    assert(rows.to_multiset().count(out[j]) > 0);
    assert(rows.contains(out[j]));
    let k = rows.index_of(out[j]);
    let x = s.filter(p)[k];
    assert(f(x) == rows[k]);
    s.lemma_filter_pred(p, k);
    s.lemma_filter_contains_rev(p, x);
    s.index_of(x)
}

/// A snapshot lists the likes that hold, and those that were taken back, as
/// they are known.
pub proof fn law_snapshot_lists_likes(
    s: DeviceSync,
    l: Library,
    r: SyncSnapshot,
    id: Seq<char>,
    hlc: i64,
    op: Seq<char>,
)
    requires
        sound_tables(s),
        tells(s, l, r),
    ensures
        lists_like(r, id, hlc, op) == (s.likes@.dom().contains(id) && s.likes@[id] == (LikeView {
            liked: true,
            hlc,
            op,
        })),
        lists_unlike(r, id, hlc, op) == (s.likes@.dom().contains(id) && s.likes@[id] == (LikeView {
            liked: false,
            hlc,
            op,
        })),
{
    let items = s.likes.items();
    let f = |e: (String, LikeState)| like_key(e);
    if lists_like(r, id, hlc, op) {
        let j = choose|i: int|
            0 <= i < r.likes@.len() && (#[trigger] r.likes@[i]).content_id@ == id
                && r.likes@[i].hlc_ms == hlc && r.likes@[i].op_id@ == op;
        assert(tells_like(l, r.likes@[j], like_keys(s, true)[j]));
        let i = lemma_told_back(items, is_like(true), f, like_order(), j);
        s.likes.lemma_entry_at(i);
    }
    if lists_unlike(r, id, hlc, op) {
        let j = choose|i: int|
            0 <= i < r.unlikes@.len() && (#[trigger] r.unlikes@[i]).content_id@ == id
                && r.unlikes@[i].hlc_ms == hlc && r.unlikes@[i].op_id@ == op;
        let i = lemma_told_back(items, is_like(false), f, like_order(), j);
        s.likes.lemma_entry_at(i);
    }
    if s.likes@.dom().contains(id) {
        let i = s.likes.lemma_entry_of(id);
        let liked = items[i].1.liked;
        let j = lemma_told(items, is_like(liked), f, like_order(), i);
        if liked {
            assert(tells_like(l, r.likes@[j], like_keys(s, true)[j]));
        } else {
            assert(r.unlikes@[j] == like_key(items[i]));
        }
    }
}

/// A snapshot lists the playlists, and those that were deleted, as they are
/// known.
pub proof fn law_snapshot_lists_playlists(
    s: DeviceSync,
    l: Library,
    r: SyncSnapshot,
    id: Seq<char>,
    title: Seq<char>,
    hlc: i64,
    op: Seq<char>,
)
    requires
        sound_tables(s),
        tells(s, l, r),
    ensures
        lists_playlist(r, id, title, hlc, op) == (s.playlists@.dom().contains(id)
            && s.playlists@[id] == (PlaylistView { title, deleted: false, hlc, op })),
        lists_deleted(r, id, hlc, op) == (s.playlists@.dom().contains(id)
            && s.playlists@[id].deleted && s.playlists@[id].hlc == hlc && s.playlists@[id].op == op),
{
    let items = s.playlists.items();
    let f = |e: (String, PlaylistState)| playlist_key(e);
    let g = |e: (String, PlaylistState)| deleted_key(e);
    if lists_playlist(r, id, title, hlc, op) {
        let j = choose|i: int|
            0 <= i < r.playlists@.len() && (#[trigger] r.playlists@[i]).playlist_id@ == id
                && r.playlists@[i].title@ == title && r.playlists@[i].hlc_ms == hlc
                && r.playlists@[i].op_id@ == op;
        assert(tells_playlist(s, l, r.playlists@[j], playlist_keys(s)[j]));
        let i = lemma_told_back(items, is_playlist_entry(false), f, title_order(), j);
        s.playlists.lemma_entry_at(i);
    }
    if lists_deleted(r, id, hlc, op) {
        let j = choose|i: int|
            0 <= i < r.deleted_playlists@.len() && (
            #[trigger] r.deleted_playlists@[i]).playlist_id@ == id && r.deleted_playlists@[i].hlc_ms
                == hlc && r.deleted_playlists@[i].op_id@ == op;
        let i = lemma_told_back(items, is_playlist_entry(true), g, deleted_order(), j);
        s.playlists.lemma_entry_at(i);
    }
    if s.playlists@.dom().contains(id) {
        let i = s.playlists.lemma_entry_of(id);
        if items[i].1.deleted {
            let j = lemma_told(items, is_playlist_entry(true), g, deleted_order(), i);
            assert(r.deleted_playlists@[j] == deleted_key(items[i]));
        } else {
            let j = lemma_told(items, is_playlist_entry(false), f, title_order(), i);
            assert(tells_playlist(s, l, r.playlists@[j], playlist_keys(s)[j]));
        }
    }
}

/// An entry of the items of a playlist is what is known of it.
proof fn lemma_item_at(s: DeviceSync, list: Seq<char>, q: int)
    requires
        sound_tables(s),
        0 <= q < inner_items(s.items.items(), list).len(),
    ensures
        items_of(s.items@, list).dom().contains(inner_items(s.items.items(), list)[q].0@),
        items_of(s.items@, list)[inner_items(s.items.items(), list)[q].0@] == inner_items(
            s.items.items(),
            list,
        )[q].1@,
{
    let all = s.items.items();
    lemma_first_where(all, is_entry_of::<Keyed<ItemState>>(list));
    let i = first_where(all, is_entry_of::<Keyed<ItemState>>(list))->0;
    assert(is_entry_of::<Keyed<ItemState>>(list)(all[i]));
    s.items.lemma_entry_at(i);
    all[i].1.lemma_entry_at(q);
}

/// What is known of an item stands in an entry.
proof fn lemma_item_of(s: DeviceSync, list: Seq<char>, k: Seq<char>) -> (q: int)
    requires
        sound_tables(s),
        items_of(s.items@, list).dom().contains(k),
    ensures
        0 <= q < inner_items(s.items.items(), list).len(),
        inner_items(s.items.items(), list)[q].0@ == k,
        items_of(s.items@, list)[k] == inner_items(s.items.items(), list)[q].1@,
{
    let all = s.items.items();
    let p = is_entry_of::<Keyed<ItemState>>(list);
    let i = s.items.lemma_entry_of(list);
    assert(p(all[i]));
    lemma_first_where(all, p);
    let n = first_where(all, p)->0;
    assert(p(all[n]));
    assert(n == i);
    all[i].1.lemma_entry_of(k)
}

/// A snapshot lists the items of the playlists that are not deleted, as they
/// are known.
pub proof fn law_snapshot_lists_items(
    s: DeviceSync,
    l: Library,
    r: SyncSnapshot,
    list: Seq<char>,
    id: Seq<char>,
    position: i64,
    hlc: i64,
    op: Seq<char>,
)
    requires
        sound_tables(s),
        tells(s, l, r),
    ensures
        lists_item(r, list, id, position, hlc, op) == (stands(s, list) && items_of(
            s.items@,
            list,
        ).dom().contains(id) && items_of(s.items@, list)[id] == (ItemView {
            present: true,
            position,
            hlc,
            op,
        })),
{
    let names = s.playlists.items();
    let f = |e: (String, PlaylistState)| playlist_key(e);
    let g = |e: (String, ItemState)| item_key(e);
    let inner = inner_items(s.items.items(), list);
    if lists_item(r, list, id, position, hlc, op) {
        let (j, i) = choose|j: int, i: int|
            0 <= j < r.playlists@.len() && 0 <= i < r.playlists@[j].items@.len()
                && r.playlists@[j].playlist_id@ == list && (
            #[trigger] r.playlists@[j].items@[i]).content_id@ == id
                && r.playlists@[j].items@[i].position == position
                && r.playlists@[j].items@[i].hlc_ms == hlc && r.playlists@[j].items@[i].op_id@
                == op;
        assert(tells_playlist(s, l, r.playlists@[j], playlist_keys(s)[j]));
        let n = lemma_told_back(names, is_playlist_entry(false), f, title_order(), j);
        s.playlists.lemma_entry_at(n);
        assert(tells_item(l, list, r.playlists@[j].items@[i], item_keys(s, list)[i]));
        let q = lemma_told_back(inner, is_item(true), g, item_order(), i);
        lemma_item_at(s, list, q);
    }
    if stands(s, list) && items_of(s.items@, list).dom().contains(id) && items_of(
        s.items@,
        list,
    )[id].present {
        let n = s.playlists.lemma_entry_of(list);
        let j = lemma_told(names, is_playlist_entry(false), f, title_order(), n);
        assert(tells_playlist(s, l, r.playlists@[j], playlist_keys(s)[j]));
        let q = lemma_item_of(s, list, id);
        let i = lemma_told(inner, is_item(true), g, item_order(), q);
        assert(tells_item(l, list, r.playlists@[j].items@[i], item_keys(s, list)[i]));
    }
}

proof fn lemma_removed_back(items: Seq<(String, Keyed<ItemState>)>, n: int) -> (r: (int, int))
    requires
        0 <= n < removed_of(items).len(),
    ensures
        0 <= r.0 < items.len(),
        0 <= r.1 < items[r.0].1.items().len(),
        !items[r.0].1.items()[r.1].1.present,
        removed_of(items)[n] == removed_key(items[r.0].0, items[r.0].1.items()[r.1]),
    decreases items.len(),
{
    let h = items.drop_last();
    let before = removed_of(h);
    if n < before.len() {
        let r = lemma_removed_back(h, n);
        assert(h[r.0] == items[r.0]);
        r
    } else {
        let e = items.last();
        let inner = e.1.items();
        let p = is_item(false);
        let left = inner.filter(p);
        let x = left[n - before.len()];
        inner.lemma_filter_pred(p, n - before.len());
        inner.lemma_filter_contains_rev(p, x);
        (items.len() - 1, inner.index_of(x))
    }
}

/// A snapshot lists the items that were removed, as they are known.
pub proof fn law_snapshot_lists_removals(
    s: DeviceSync,
    l: Library,
    r: SyncSnapshot,
    list: Seq<char>,
    id: Seq<char>,
    hlc: i64,
    op: Seq<char>,
)
    requires
        sound_tables(s),
        tells(s, l, r),
    ensures
        lists_removed(r, list, id, hlc, op) == (items_of(s.items@, list).dom().contains(id)
            && !items_of(s.items@, list)[id].present && items_of(s.items@, list)[id].hlc == hlc
            && items_of(s.items@, list)[id].op == op),
{
    broadcast use vstd::seq_lib::group_to_multiset_ensures;

    let all = s.items.items();
    let rows = removed_of(all);
    let out = stable_sorted(rows, removed_order());
    law_stable_sort(rows, removed_order());
    if lists_removed(r, list, id, hlc, op) {
        let m = choose|i: int|
            0 <= i < r.removed_playlist_items@.len() && (
            #[trigger] r.removed_playlist_items@[i]).playlist_id@ == list
                && r.removed_playlist_items@[i].content_id@ == id
                && r.removed_playlist_items@[i].hlc_ms == hlc
                && r.removed_playlist_items@[i].op_id@ == op;
        assert(out.contains(out[m]));
        assert(rows.to_multiset().count(out[m]) > 0);
        assert(rows.contains(out[m]));
        let (i, j) = lemma_removed_back(all, rows.index_of(out[m]));
        s.items.lemma_entry_at(i);
        all[i].1.lemma_entry_at(j);
    }
    if items_of(s.items@, list).dom().contains(id) && !items_of(s.items@, list)[id].present {
        let i = s.items.lemma_entry_of(list);
        let j = all[i].1.lemma_entry_of(id);
        let n = lemma_removed_told(all, i, j);
        assert(rows.contains(rows[n]));
        assert(out.to_multiset().count(rows[n]) > 0);
        assert(out.contains(rows[n]));
        let m = out.index_of(rows[n]);
        assert(r.removed_playlist_items@[m] == rows[n]);
    }
}

// ---------------------------------------------------------------------------
// Nothing is listed twice
// ---------------------------------------------------------------------------

/// Whether no two elements of a list have the same key.
pub open spec fn apart<T, K>(s: Seq<T>, key: spec_fn(T) -> K) -> bool {
    forall|i: int, j: int|
        0 <= i < s.len() && 0 <= j < s.len() && key(#[trigger] s[i]) == key(#[trigger] s[j]) ==> i
            == j
}

proof fn lemma_filter_apart<T, K>(s: Seq<T>, p: spec_fn(T) -> bool, key: spec_fn(T) -> K)
    requires
        apart(s, key),
    ensures
        apart(s.filter(p), key),
    decreases s.len(),
{
    reveal(Seq::filter);
    if s.len() > 0 {
        let h = s.drop_last();
        lemma_filter_apart(h, p, key);
        let f = h.filter(p);
        if p(s.last()) {
            let g = f.push(s.last());
            assert(s.filter(p) == g);
            assert forall|i: int, j: int|
                0 <= i < g.len() && 0 <= j < g.len() && key(#[trigger] g[i]) == key(
                    #[trigger] g[j],
                ) implies i == j by {
                if i < f.len() {
                    assert(f.contains(f[i]));
                    h.lemma_filter_contains_rev(p, f[i]);
                    let a = h.index_of(f[i]);
                    assert(s[a] == g[i]);
                    assert(s[s.len() - 1] == s.last());
                }
                if j < f.len() {
                    assert(f.contains(f[j]));
                    h.lemma_filter_contains_rev(p, f[j]);
                    let b = h.index_of(f[j]);
                    assert(s[b] == g[j]);
                    assert(s[s.len() - 1] == s.last());
                }
                if i < f.len() && j < f.len() {
                    assert(f[i] == g[i] && f[j] == g[j]);
                }
            }
        }
    }
}

proof fn lemma_sorted_apart<T, K>(s: Seq<T>, leq: spec_fn(T, T) -> bool, key: spec_fn(T) -> K)
    requires
        apart(s, key),
    ensures
        apart(stable_sorted(s, leq), key),
{
    broadcast use vstd::seq_lib::group_to_multiset_ensures;

    let out = stable_sorted(s, leq);
    law_stable_sort(s, leq);
    assert(s.no_duplicates());
    s.lemma_multiset_has_no_duplicates();
    out.lemma_multiset_has_no_duplicates_conv();
    assert forall|i: int, j: int|
        0 <= i < out.len() && 0 <= j < out.len() && key(#[trigger] out[i]) == key(
            #[trigger] out[j],
        ) implies i == j by {
        assert(out.contains(out[i]) && out.contains(out[j]));
        assert(s.to_multiset().count(out[i]) > 0 && s.to_multiset().count(out[j]) > 0);
        let a = s.index_of(out[i]);
        let b = s.index_of(out[j]);
        assert(s.contains(out[i]) && s.contains(out[j]));
        assert(s[a] == out[i] && s[b] == out[j]);
    }
}

proof fn lemma_told_apart<T, U, K>(
    s: Seq<T>,
    p: spec_fn(T) -> bool,
    f: spec_fn(T) -> U,
    leq: spec_fn(U, U) -> bool,
    key: spec_fn(T) -> K,
    told: spec_fn(U) -> K,
)
    requires
        apart(s, key),
        forall|x: T| told(#[trigger] f(x)) == key(x),
    ensures
        apart(stable_sorted(s.filter(p).map_values(f), leq), told),
{
    lemma_filter_apart(s, p, key);
    let left = s.filter(p);
    let rows = left.map_values(f);
    assert forall|i: int, j: int|
        0 <= i < rows.len() && 0 <= j < rows.len() && told(#[trigger] rows[i]) == told(
            #[trigger] rows[j],
        ) implies i == j by {
        assert(rows[i] == f(left[i]) && rows[j] == f(left[j]));
    }
    lemma_sorted_apart(rows, leq, told);
}

proof fn lemma_removed_apart(items: Seq<(String, Keyed<ItemState>)>)
    requires
        distinct_keys(items),
        forall|i: int| 0 <= i < items.len() ==> distinct_keys((#[trigger] items[i]).1.items()),
    ensures
        apart(removed_of(items), removed_name()),
    decreases items.len(),
{
    if items.len() > 0 {
        let h = items.drop_last();
        assert forall|i: int| 0 <= i < h.len() implies distinct_keys(
            (#[trigger] h[i]).1.items(),
        ) by {
            assert(h[i] == items[i]);
        }
        lemma_removed_apart(h);
        let e = items.last();
        assert(items[items.len() - 1] == e);
        let inner = e.1.items();
        let p = is_item(false);
        let key = |x: (String, ItemState)| x.0@;
        assert(apart(inner, key));
        lemma_filter_apart(inner, p, key);
        let left = inner.filter(p);
        let f = |i: (String, ItemState)| removed_key(e.0, i);
        let tail = left.map_values(f);
        let head = removed_of(h);
        let all = head + tail;
        assert(removed_of(items) == all);
        assert forall|i: int, j: int|
            0 <= i < all.len() && 0 <= j < all.len() && removed_name()(#[trigger] all[i])
                == removed_name()(#[trigger] all[j]) implies i == j by {
            let n = head.len() as int;
            if i < n && j < n {
                assert(head[i] == all[i] && head[j] == all[j]);
            } else if i >= n && j >= n {
                assert(all[i] == f(left[i - n]) && all[j] == f(left[j - n]));
            } else {
                let (u, v) = if i < n {
                    (i, j)
                } else {
                    (j, i)
                };
                assert(all[u] == head[u]);
                assert(all[v] == f(left[v - n]));
                let (a, b) = lemma_removed_back(h, u);
                assert(h[a] == items[a]);
                assert(items[a].0@ == e.0@);
            }
        }
    }
}

/// The playlist and the content id of an item that was removed.
pub open spec fn removed_name() -> spec_fn(SnapshotPlaylistItemTombstone) -> (Seq<char>, Seq<char>) {
    |i: SnapshotPlaylistItemTombstone| (i.playlist_id@, i.content_id@)
}

/// Whether a snapshot lists nothing twice.
pub open spec fn lists_once(r: SyncSnapshot) -> bool {
    &&& apart(r.likes@, |x: SnapshotLike| x.content_id@)
    &&& apart(r.unlikes@, |x: SnapshotLikeTombstone| x.content_id@)
    &&& apart(r.playlists@, |x: SnapshotPlaylist| x.playlist_id@)
    &&& apart(r.deleted_playlists@, |x: SnapshotPlaylistTombstone| x.playlist_id@)
    &&& apart(r.removed_playlist_items@, removed_name())
    &&& forall|i: int|
        0 <= i < r.playlists@.len() ==> apart(
            (#[trigger] r.playlists@[i]).items@,
            |x: SnapshotPlaylistItem| x.content_id@,
        )
}

/// A snapshot lists every like, every playlist and every item of a playlist
/// once.
pub proof fn law_snapshot_lists_nothing_twice(s: DeviceSync, l: Library, r: SyncSnapshot)
    requires
        sound_tables(s),
        tells(s, l, r),
    ensures
        lists_once(r),
{
    let of_like = |e: (String, LikeState)| e.0@;
    let id_of = |x: SnapshotLikeTombstone| x.content_id@;
    let f = |e: (String, LikeState)| like_key(e);
    assert(apart(s.likes.items(), of_like));
    lemma_told_apart(s.likes.items(), is_like(true), f, like_order(), of_like, id_of);
    lemma_told_apart(s.likes.items(), is_like(false), f, like_order(), of_like, id_of);
    let likes = like_keys(s, true);
    let k = |x: SnapshotLike| x.content_id@;
    assert forall|i: int, j: int|
        0 <= i < r.likes@.len() && 0 <= j < r.likes@.len() && k(#[trigger] r.likes@[i]) == k(
            #[trigger] r.likes@[j],
        ) implies i == j by {
        assert(tells_like(l, r.likes@[i], likes[i]));
        assert(tells_like(l, r.likes@[j], likes[j]));
    }
    let of_list = |e: (String, PlaylistState)| e.0@;
    let g = |e: (String, PlaylistState)| playlist_key(e);
    let d = |e: (String, PlaylistState)| deleted_key(e);
    let names = s.playlists.items();
    assert(apart(names, of_list));
    lemma_told_apart(
        names,
        is_playlist_entry(false),
        g,
        title_order(),
        of_list,
        |x: PlaylistKey| x.playlist_id@,
    );
    lemma_told_apart(
        names,
        is_playlist_entry(true),
        d,
        deleted_order(),
        of_list,
        |x: SnapshotPlaylistTombstone| x.playlist_id@,
    );
    let keys = playlist_keys(s);
    let k = |x: SnapshotPlaylist| x.playlist_id@;
    assert forall|i: int, j: int|
        0 <= i < r.playlists@.len() && 0 <= j < r.playlists@.len() && k(#[trigger] r.playlists@[i])
            == k(#[trigger] r.playlists@[j]) implies i == j by {
        assert(tells_playlist(s, l, r.playlists@[i], keys[i]));
        assert(tells_playlist(s, l, r.playlists@[j], keys[j]));
    }
    lemma_removed_apart(s.items.items());
    lemma_sorted_apart(removed_of(s.items.items()), removed_order(), removed_name());
    let of_item = |e: (String, ItemState)| e.0@;
    let h = |e: (String, ItemState)| item_key(e);
    let k = |x: SnapshotPlaylistItem| x.content_id@;
    assert forall|n: int| 0 <= n < r.playlists@.len() implies apart(
        (#[trigger] r.playlists@[n]).items@,
        k,
    ) by {
        let p = r.playlists@[n];
        assert(tells_playlist(s, l, p, keys[n]));
        let list = keys[n].playlist_id@;
        let inner = inner_items(s.items.items(), list);
        assert(apart(inner, of_item)) by {
            lemma_first_where(s.items.items(), is_entry_of::<Keyed<ItemState>>(list));
        }
        lemma_told_apart(
            inner,
            is_item(true),
            h,
            item_order(),
            of_item,
            |x: ItemKey| x.content_id@,
        );
        let items = item_keys(s, list);
        assert forall|i: int, j: int|
            0 <= i < p.items@.len() && 0 <= j < p.items@.len() && k(#[trigger] p.items@[i]) == k(
                #[trigger] p.items@[j],
            ) implies i == j by {
            assert(tells_item(l, list, p.items@[i], items[i]));
            assert(tells_item(l, list, p.items@[j], items[j]));
        }
    }
}

// ---------------------------------------------------------------------------
// Taking a snapshot over
// ---------------------------------------------------------------------------

/// Whether a snapshot lists what an entry says.
pub open spec fn lists(r: SyncSnapshot, e: Entry) -> bool {
    match e {
        Entry::Like { content_id, liked, fed, hlc, op } => if liked {
            lists_like(r, content_id, hlc, op)
        } else {
            lists_unlike(r, content_id, hlc, op)
        },
        Entry::Playlist { playlist_id, title, deleted, hlc, op } => if deleted {
            title.len() == 0 && lists_deleted(r, playlist_id, hlc, op)
        } else {
            lists_playlist(r, playlist_id, title, hlc, op)
        },
        Entry::Item { playlist_id, content_id, present, position, fed, hlc, op } => if present {
            lists_item(r, playlist_id, content_id, position, hlc, op)
        } else {
            position == 0 && lists_removed(r, playlist_id, content_id, hlc, op)
        },
    }
}

/// Which playlist, or which item of a playlist, an entry comes from; the
/// second number is negative for the playlist itself.
proof fn lemma_playlist_back(s: Seq<SnapshotPlaylist>, n: int) -> (r: (int, int))
    requires
        0 <= n < playlist_entries(s).len(),
    ensures
        0 <= r.0 < s.len(),
        r.1 < s[r.0].items@.len(),
        playlist_entries(s)[n] == (if r.1 < 0 {
            playlist_entry(s[r.0])
        } else {
            item_entry(s[r.0].playlist_id@, s[r.0].items@[r.1])
        }),
    decreases s.len(),
{
    let h = s.drop_last();
    let before = playlist_entries(h);
    if n < before.len() {
        let r = lemma_playlist_back(h, n);
        assert(h[r.0] == s[r.0]);
        r
    } else if n == before.len() {
        (s.len() - 1, -1)
    } else {
        let i = n - before.len() - 1;
        let p = s.last();
        assert(item_entries(p.playlist_id@, p.items@)[i] == item_entry(p.playlist_id@, p.items@[i]));
        (s.len() - 1, i)
    }
}

/// What is taken over of a snapshot is what it lists.
proof fn lemma_entry_listed(r: SyncSnapshot, n: int)
    requires
        0 <= n < snapshot_entries(r).len(),
    ensures
        lists(r, snapshot_entries(r)[n]),
{
    let a = r.likes@.len() as int;
    let b = a + r.unlikes@.len();
    let c = b + playlist_entries(r.playlists@).len();
    let d = c + r.deleted_playlists@.len();
    let e = snapshot_entries(r)[n];
    if n < a {
        assert(e == like_entry(r.likes@[n]));
    } else if n < b {
        assert(e == unlike_entry(r.unlikes@[n - a]));
    } else if n < c {
        assert(e == playlist_entries(r.playlists@)[n - b]);
        let (j, i) = lemma_playlist_back(r.playlists@, n - b);
        if i < 0 {
            assert(e == playlist_entry(r.playlists@[j]));
        } else {
            assert(e == item_entry(r.playlists@[j].playlist_id@, r.playlists@[j].items@[i]));
        }
    } else if n < d {
        assert(e == deleted_entry(r.deleted_playlists@[n - c]));
    } else {
        assert(e == removed_entry(r.removed_playlist_items@[n - d]));
    }
}

proof fn lemma_like_brought(
    m: Map<Seq<char>, LikeView>,
    r: SyncSnapshot,
    id: Seq<char>,
    v: LikeView,
)
    requires
        canonical(id) == Some(id),
        if v.liked {
            lists_like(r, id, v.hlc, v.op)
        } else {
            lists_unlike(r, id, v.hlc, v.op)
        },
    ensures
        holds_at_least(said(m, says_of_likes(), snapshot_entries(r)), id, v),
{
    let entries = snapshot_entries(r);
    if v.liked {
        let i = choose|i: int|
            0 <= i < r.likes@.len() && (#[trigger] r.likes@[i]).content_id@ == id
                && r.likes@[i].hlc_ms == v.hlc && r.likes@[i].op_id@ == v.op;
        assert(entries[i] == like_entry(r.likes@[i]));
        lemma_like_held(m, entries, i, id, v);
    } else {
        let i = choose|i: int|
            0 <= i < r.unlikes@.len() && (#[trigger] r.unlikes@[i]).content_id@ == id
                && r.unlikes@[i].hlc_ms == v.hlc && r.unlikes@[i].op_id@ == v.op;
        let n = r.likes@.len() + i;
        assert(entries[n] == unlike_entry(r.unlikes@[i]));
        lemma_like_held(m, entries, n, id, v);
    }
}

proof fn lemma_playlist_brought(
    m: Map<Seq<char>, PlaylistView>,
    r: SyncSnapshot,
    id: Seq<char>,
    v: PlaylistView,
)
    requires
        if v.deleted {
            v.title.len() == 0 && lists_deleted(r, id, v.hlc, v.op)
        } else {
            lists_playlist(r, id, v.title, v.hlc, v.op)
        },
    ensures
        holds_at_least(said(m, says_of_playlists(), snapshot_entries(r)), id, v),
{
    let entries = snapshot_entries(r);
    let first = (r.likes@.len() + r.unlikes@.len()) as int;
    if v.deleted {
        let i = choose|i: int|
            0 <= i < r.deleted_playlists@.len() && (
            #[trigger] r.deleted_playlists@[i]).playlist_id@ == id && r.deleted_playlists@[i].hlc_ms
                == v.hlc && r.deleted_playlists@[i].op_id@ == v.op;
        let n = first + playlist_entries(r.playlists@).len() + i;
        assert(entries[n] == deleted_entry(r.deleted_playlists@[i]));
        assert(v.title =~= Seq::empty());
        lemma_playlist_held(m, entries, n, id, v);
    } else {
        let i = choose|i: int|
            0 <= i < r.playlists@.len() && (#[trigger] r.playlists@[i]).playlist_id@ == id
                && r.playlists@[i].title@ == v.title && r.playlists@[i].hlc_ms == v.hlc
                && r.playlists@[i].op_id@ == v.op;
        let n = first + lemma_playlist_told(r.playlists@, i);
        assert(entries[n] == playlist_entry(r.playlists@[i]));
        lemma_playlist_held(m, entries, n, id, v);
    }
}

proof fn lemma_item_brought(
    m: Map<Seq<char>, ItemView>,
    r: SyncSnapshot,
    list: Seq<char>,
    id: Seq<char>,
    v: ItemView,
)
    requires
        if v.present {
            lists_item(r, list, id, v.position, v.hlc, v.op)
        } else {
            v.position == 0 && lists_removed(r, list, id, v.hlc, v.op)
        },
    ensures
        holds_at_least(said(m, says_of_items(list), snapshot_entries(r)), id, v),
{
    let entries = snapshot_entries(r);
    let first = (r.likes@.len() + r.unlikes@.len()) as int;
    if v.present {
        let (j, i) = choose|j: int, i: int|
            0 <= j < r.playlists@.len() && 0 <= i < r.playlists@[j].items@.len()
                && r.playlists@[j].playlist_id@ == list && (
            #[trigger] r.playlists@[j].items@[i]).content_id@ == id
                && r.playlists@[j].items@[i].position == v.position
                && r.playlists@[j].items@[i].hlc_ms == v.hlc && r.playlists@[j].items@[i].op_id@
                == v.op;
        let n = first + lemma_item_told(r.playlists@, j, i);
        assert(entries[n] == item_entry(list, r.playlists@[j].items@[i]));
        lemma_item_held(m, entries, n, list, id, v);
    } else {
        let i = choose|i: int|
            0 <= i < r.removed_playlist_items@.len() && (
            #[trigger] r.removed_playlist_items@[i]).playlist_id@ == list
                && r.removed_playlist_items@[i].content_id@ == id
                && r.removed_playlist_items@[i].hlc_ms == v.hlc
                && r.removed_playlist_items@[i].op_id@ == v.op;
        let n = first + playlist_entries(r.playlists@).len() + r.deleted_playlists@.len() + i;
        assert(entries[n] == removed_entry(r.removed_playlist_items@[i]));
        lemma_item_held(m, entries, n, list, id, v);
    }
}

/// What is held of a like that was not held before comes from an entry.
proof fn lemma_like_said(s: Seq<Entry>, k: Seq<char>) -> (i: int)
    requires
        said(Map::<Seq<char>, LikeView>::empty(), says_of_likes(), s).dom().contains(k),
    ensures
        0 <= i < s.len(),
        s[i] matches Entry::Like { content_id, liked, fed, hlc, op } && canonical(content_id)
            == Some(k) && said(Map::<Seq<char>, LikeView>::empty(), says_of_likes(), s)[k] == (
        LikeView { liked, hlc, op }),
    decreases s.len(),
{
    let h = s.drop_last();
    let before = said(Map::<Seq<char>, LikeView>::empty(), says_of_likes(), h);
    let now = said(Map::<Seq<char>, LikeView>::empty(), says_of_likes(), s);
    if before.dom().contains(k) && now[k] == before[k] {
        let i = lemma_like_said(h, k);
        assert(h[i] == s[i]);
        i
    } else {
        s.len() - 1
    }
}

proof fn lemma_playlist_said(s: Seq<Entry>, k: Seq<char>) -> (i: int)
    requires
        said(Map::<Seq<char>, PlaylistView>::empty(), says_of_playlists(), s).dom().contains(k),
    ensures
        0 <= i < s.len(),
        s[i] matches Entry::Playlist { playlist_id, title, deleted, hlc, op } && playlist_id == k
            && said(Map::<Seq<char>, PlaylistView>::empty(), says_of_playlists(), s)[k] == (
        PlaylistView { title, deleted, hlc, op }),
    decreases s.len(),
{
    let h = s.drop_last();
    let before = said(Map::<Seq<char>, PlaylistView>::empty(), says_of_playlists(), h);
    let now = said(Map::<Seq<char>, PlaylistView>::empty(), says_of_playlists(), s);
    if before.dom().contains(k) && now[k] == before[k] {
        let i = lemma_playlist_said(h, k);
        assert(h[i] == s[i]);
        i
    } else {
        s.len() - 1
    }
}

proof fn lemma_item_said(s: Seq<Entry>, list: Seq<char>, k: Seq<char>) -> (i: int)
    requires
        said(Map::<Seq<char>, ItemView>::empty(), says_of_items(list), s).dom().contains(k),
    ensures
        0 <= i < s.len(),
        s[i] matches Entry::Item { playlist_id, content_id, present, position, fed, hlc, op }
            && playlist_id == list && content_id == k && said(
            Map::<Seq<char>, ItemView>::empty(),
            says_of_items(list),
            s,
        )[k] == (ItemView { present, position, hlc, op }),
    decreases s.len(),
{
    let h = s.drop_last();
    let before = said(Map::<Seq<char>, ItemView>::empty(), says_of_items(list), h);
    let now = said(Map::<Seq<char>, ItemView>::empty(), says_of_items(list), s);
    if before.dom().contains(k) && now[k] == before[k] {
        let i = lemma_item_said(h, list, k);
        assert(h[i] == s[i]);
        i
    } else {
        s.len() - 1
    }
}

/// Whether every like is known under a content id in its canonical form.
pub open spec fn likes_canonical(s: DeviceSync) -> bool {
    forall|k: Seq<char>| #[trigger] s.likes@.dom().contains(k) ==> canonical(k) == Some(k)
}

/// What others learn of a playlist: of a deleted one not its title.
pub open spec fn told_playlist(v: PlaylistView) -> PlaylistView {
    if v.deleted {
        PlaylistView { title: Seq::empty(), ..v }
    } else {
        v
    }
}

/// What others learn of the playlists.
pub open spec fn told_playlists(s: DeviceSync) -> Map<Seq<char>, PlaylistView> {
    Map::new(
        |k: Seq<char>| s.playlists@.dom().contains(k),
        |k: Seq<char>| told_playlist(s.playlists@[k]),
    )
}

/// What others learn of the items of a playlist: those that are in it, unless
/// it is deleted, and those that were removed.
pub open spec fn told_items(s: DeviceSync, list: Seq<char>) -> Map<Seq<char>, ItemView> {
    let m = items_of(s.items@, list);
    Map::new(
        |k: Seq<char>| m.dom().contains(k) && (m[k].present ==> stands(s, list)),
        |k: Seq<char>|
            if m[k].present {
                m[k]
            } else {
                ItemView { position: 0, ..m[k] }
            },
    )
}

/// A device that knew nothing and takes a snapshot over knows the likes, the
/// playlists and the items as the other told them.
pub proof fn law_fresh_device_learns_the_state(
    s: DeviceSync,
    l: Library,
    r: SyncSnapshot,
    a: World,
    b: World,
    changed: bool,
    list: Seq<char>,
)
    requires
        sound_tables(s),
        likes_canonical(s),
        tells(s, l, r),
        takes(a, b, snapshot_entries(r), changed),
        a.sync.likes@ == Map::<Seq<char>, LikeView>::empty(),
        a.sync.playlists@ == Map::<Seq<char>, PlaylistView>::empty(),
        a.sync.items@ == Map::<Seq<char>, Map<Seq<char>, ItemView>>::empty(),
    ensures
        b.sync.likes@ == s.likes@,
        b.sync.playlists@ == told_playlists(s),
        items_of(b.sync.items@, list) == told_items(s, list),
{
    let entries = snapshot_entries(r);
    law_taking_over_merges(a, b, entries, changed, list);
    assert forall|k: Seq<char>| #[trigger] b.sync.likes@.dom().contains(k) implies
        s.likes@.dom().contains(k) && b.sync.likes@[k] == s.likes@[k] by {
        let i = lemma_like_said(entries, k);
        lemma_entry_listed(r, i);
        if let Entry::Like { content_id, liked, fed, hlc, op } = entries[i] {
            law_snapshot_lists_likes(s, l, r, content_id, hlc, op);
        }
    }
    assert forall|k: Seq<char>| #[trigger] s.likes@.dom().contains(k) implies
        b.sync.likes@.dom().contains(k) by {
        let v = s.likes@[k];
        law_snapshot_lists_likes(s, l, r, k, v.hlc, v.op);
        lemma_like_brought(a.sync.likes@, r, k, v);
    }
    assert(b.sync.likes@ =~= s.likes@);
    let p = told_playlists(s);
    assert forall|k: Seq<char>| #[trigger] b.sync.playlists@.dom().contains(k) implies
        p.dom().contains(k) && b.sync.playlists@[k] == p[k] by {
        let i = lemma_playlist_said(entries, k);
        lemma_entry_listed(r, i);
        if let Entry::Playlist { playlist_id, title, deleted, hlc, op } = entries[i] {
            law_snapshot_lists_playlists(s, l, r, k, title, hlc, op);
            assert(deleted ==> title =~= Seq::empty());
        }
    }
    assert forall|k: Seq<char>| #[trigger] p.dom().contains(k) implies
        b.sync.playlists@.dom().contains(k) by {
        let v = p[k];
        law_snapshot_lists_playlists(s, l, r, k, v.title, v.hlc, v.op);
        lemma_playlist_brought(a.sync.playlists@, r, k, v);
    }
    assert(b.sync.playlists@ =~= p);
    let q = told_items(s, list);
    let m = items_of(b.sync.items@, list);
    assert forall|k: Seq<char>| #[trigger] m.dom().contains(k) implies q.dom().contains(k) && m[k]
        == q[k] by {
        let i = lemma_item_said(entries, list, k);
        lemma_entry_listed(r, i);
        if let Entry::Item { playlist_id, content_id, present, position, fed, hlc, op } = entries[i] {
            law_snapshot_lists_items(s, l, r, list, k, position, hlc, op);
            law_snapshot_lists_removals(s, l, r, list, k, hlc, op);
        }
    }
    assert forall|k: Seq<char>| #[trigger] q.dom().contains(k) implies m.dom().contains(k) by {
        let v = q[k];
        law_snapshot_lists_items(s, l, r, list, k, v.position, v.hlc, v.op);
        law_snapshot_lists_removals(s, l, r, list, k, v.hlc, v.op);
        lemma_item_brought(items_of(a.sync.items@, list), r, list, k, v);
    }
    assert(m =~= q);
}

/// Whether two snapshots list the same likes and the same that were taken
/// back, the same playlists with the same items, and the same deleted
/// playlists and removed items.
pub open spec fn list_the_same(r: SyncSnapshot, q: SyncSnapshot) -> bool {
    &&& forall|id: Seq<char>, hlc: i64, op: Seq<char>|
        #[trigger] lists_like(r, id, hlc, op) == lists_like(q, id, hlc, op)
    &&& forall|id: Seq<char>, hlc: i64, op: Seq<char>|
        #[trigger] lists_unlike(r, id, hlc, op) == lists_unlike(q, id, hlc, op)
    &&& forall|id: Seq<char>, title: Seq<char>, hlc: i64, op: Seq<char>|
        #[trigger] lists_playlist(r, id, title, hlc, op) == lists_playlist(q, id, title, hlc, op)
    &&& forall|list: Seq<char>, id: Seq<char>, position: i64, hlc: i64, op: Seq<char>|
        #[trigger] lists_item(r, list, id, position, hlc, op) == lists_item(
            q,
            list,
            id,
            position,
            hlc,
            op,
        )
    &&& forall|id: Seq<char>, hlc: i64, op: Seq<char>|
        #[trigger] lists_deleted(r, id, hlc, op) == lists_deleted(q, id, hlc, op)
    &&& forall|list: Seq<char>, id: Seq<char>, hlc: i64, op: Seq<char>|
        #[trigger] lists_removed(r, list, id, hlc, op) == lists_removed(q, list, id, hlc, op)
}

proof fn lemma_told_alike(s: DeviceSync, t: DeviceSync, k: Seq<char>)
    requires
        told_playlists(s) == told_playlists(t),
    ensures
        s.playlists@.dom().contains(k) == t.playlists@.dom().contains(k),
        s.playlists@.dom().contains(k) ==> told_playlist(s.playlists@[k]) == told_playlist(
            t.playlists@[k],
        ),
{
    assert(told_playlists(s).dom().contains(k) == s.playlists@.dom().contains(k));
    assert(told_playlists(t).dom().contains(k) == t.playlists@.dom().contains(k));
    if s.playlists@.dom().contains(k) {
        assert(told_playlists(s)[k] == told_playlist(s.playlists@[k]));
        assert(told_playlists(t)[k] == told_playlist(t.playlists@[k]));
    }
}

proof fn lemma_lists_the_same(
    s: DeviceSync,
    l: Library,
    r: SyncSnapshot,
    t: DeviceSync,
    m: Library,
    q: SyncSnapshot,
)
    requires
        sound_tables(s),
        sound_tables(t),
        tells(s, l, r),
        tells(t, m, q),
        s.likes@ == t.likes@,
        told_playlists(s) == told_playlists(t),
        forall|list: Seq<char>| #[trigger] told_items(s, list) == told_items(t, list),
    ensures
        list_the_same(r, q),
{
    assert forall|id: Seq<char>, hlc: i64, op: Seq<char>|
        #[trigger] lists_like(r, id, hlc, op) == lists_like(q, id, hlc, op) by {
        law_snapshot_lists_likes(s, l, r, id, hlc, op);
        law_snapshot_lists_likes(t, m, q, id, hlc, op);
    }
    assert forall|id: Seq<char>, hlc: i64, op: Seq<char>|
        #[trigger] lists_unlike(r, id, hlc, op) == lists_unlike(q, id, hlc, op) by {
        law_snapshot_lists_likes(s, l, r, id, hlc, op);
        law_snapshot_lists_likes(t, m, q, id, hlc, op);
    }
    assert forall|id: Seq<char>, title: Seq<char>, hlc: i64, op: Seq<char>|
        #[trigger] lists_playlist(r, id, title, hlc, op) == lists_playlist(
            q,
            id,
            title,
            hlc,
            op,
        ) by {
        law_snapshot_lists_playlists(s, l, r, id, title, hlc, op);
        law_snapshot_lists_playlists(t, m, q, id, title, hlc, op);
        lemma_told_alike(s, t, id);
    }
    assert forall|id: Seq<char>, hlc: i64, op: Seq<char>|
        #[trigger] lists_deleted(r, id, hlc, op) == lists_deleted(q, id, hlc, op) by {
        law_snapshot_lists_playlists(s, l, r, id, Seq::empty(), hlc, op);
        law_snapshot_lists_playlists(t, m, q, id, Seq::empty(), hlc, op);
        lemma_told_alike(s, t, id);
    }
    assert forall|list: Seq<char>, id: Seq<char>, position: i64, hlc: i64, op: Seq<char>|
        #[trigger] lists_item(r, list, id, position, hlc, op) == lists_item(
            q,
            list,
            id,
            position,
            hlc,
            op,
        ) by {
        law_snapshot_lists_items(s, l, r, list, id, position, hlc, op);
        law_snapshot_lists_items(t, m, q, list, id, position, hlc, op);
        lemma_told_alike(s, t, list);
        assert(told_items(s, list).dom().contains(id) == told_items(t, list).dom().contains(id));
        assert(told_items(s, list)[id] == told_items(t, list)[id]);
    }
    assert forall|list: Seq<char>, id: Seq<char>, hlc: i64, op: Seq<char>|
        #[trigger] lists_removed(r, list, id, hlc, op) == lists_removed(q, list, id, hlc, op) by {
        law_snapshot_lists_removals(s, l, r, list, id, hlc, op);
        law_snapshot_lists_removals(t, m, q, list, id, hlc, op);
        assert(told_items(s, list).dom().contains(id) == told_items(t, list).dom().contains(id));
        assert(told_items(s, list)[id] == told_items(t, list)[id]);
    }
}

/// A device that knew nothing and took a snapshot over lists in its own
/// snapshot what the other listed.
pub proof fn law_fresh_device_lists_the_same(
    s: DeviceSync,
    l: Library,
    r: SyncSnapshot,
    a: World,
    b: World,
    changed: bool,
    q: SyncSnapshot,
)
    requires
        sound_tables(s),
        likes_canonical(s),
        tells(s, l, r),
        takes(a, b, snapshot_entries(r), changed),
        a.sync.likes@ == Map::<Seq<char>, LikeView>::empty(),
        a.sync.playlists@ == Map::<Seq<char>, PlaylistView>::empty(),
        a.sync.items@ == Map::<Seq<char>, Map<Seq<char>, ItemView>>::empty(),
        sound_tables(b.sync),
        tells(b.sync, b.library, q),
    ensures
        list_the_same(r, q),
{
    let t = b.sync;
    assert forall|list: Seq<char>| #[trigger] told_items(s, list) == told_items(t, list) by {
        law_fresh_device_learns_the_state(s, l, r, a, b, changed, list);
        assert(stands(s, list) == stands(t, list));
        assert(told_items(s, list) =~= told_items(t, list));
    }
    law_fresh_device_learns_the_state(s, l, r, a, b, changed, Seq::empty());
    assert(told_playlists(s) =~= told_playlists(t));
    lemma_lists_the_same(s, l, r, t, b.library, q);
}

proof fn lemma_said_again<M, E>(m: M, g: spec_fn(M, E) -> M, s: Seq<E>)
    requires
        forall|i: int| 0 <= i < s.len() ==> g(m, #[trigger] s[i]) == m,
    ensures
        said(m, g, s) == m,
    decreases s.len(),
{
    if s.len() > 0 {
        let h = s.drop_last();
        assert forall|i: int| 0 <= i < h.len() implies g(m, #[trigger] h[i]) == m by {
            assert(h[i] == s[i]);
        }
        lemma_said_again(m, g, h);
        assert(s[s.len() - 1] == s.last());
    }
}

/// What a device is told a second time changes none of the likes, the
/// playlists and the items that it holds.
pub proof fn law_second_time_changes_nothing(
    a: World,
    b: World,
    c: World,
    entries: Seq<Entry>,
    changed: bool,
    again: bool,
    list: Seq<char>,
)
    requires
        takes(a, b, entries, changed),
        takes(b, c, entries, again),
    ensures
        c.sync.likes@ == b.sync.likes@,
        c.sync.playlists@ == b.sync.playlists@,
        items_of(c.sync.items@, list) == items_of(b.sync.items@, list),
{
    law_taking_over_merges(a, b, entries, changed, list);
    law_taking_over_merges(b, c, entries, again, list);
    let m = b.sync.likes@;
    let g = says_of_likes();
    assert forall|i: int| 0 <= i < entries.len() implies g(m, #[trigger] entries[i]) == m by {
        if let Entry::Like { content_id, liked, fed, hlc, op } = entries[i] {
            if let Some(k) = canonical(content_id) {
                lemma_like_held(a.sync.likes@, entries, i, k, LikeView { liked, hlc, op });
            }
        }
    }
    lemma_said_again(m, g, entries);
    let m = b.sync.playlists@;
    let g = says_of_playlists();
    assert forall|i: int| 0 <= i < entries.len() implies g(m, #[trigger] entries[i]) == m by {
        if let Entry::Playlist { playlist_id, title, deleted, hlc, op } = entries[i] {
            lemma_playlist_held(
                a.sync.playlists@,
                entries,
                i,
                playlist_id,
                PlaylistView { title, deleted, hlc, op },
            );
        }
    }
    lemma_said_again(m, g, entries);
    let m = items_of(b.sync.items@, list);
    let g = says_of_items(list);
    assert forall|i: int| 0 <= i < entries.len() implies g(m, #[trigger] entries[i]) == m by {
        if let Entry::Item { playlist_id, content_id, present, position, fed, hlc, op } = entries[i] {
            if playlist_id == list {
                lemma_item_held(
                    items_of(a.sync.items@, list),
                    entries,
                    i,
                    list,
                    content_id,
                    ItemView { present, position, hlc, op },
                );
            }
        }
    }
    lemma_said_again(m, g, entries);
}

/// A device that took a snapshot over and takes it over once more lists the
/// same as before.
pub proof fn law_second_snapshot_changes_nothing(
    r: SyncSnapshot,
    a: World,
    b: World,
    c: World,
    changed: bool,
    again: bool,
    q: SyncSnapshot,
    t: SyncSnapshot,
)
    requires
        takes(a, b, snapshot_entries(r), changed),
        takes(b, c, snapshot_entries(r), again),
        sound_tables(b.sync),
        sound_tables(c.sync),
        tells(b.sync, b.library, q),
        tells(c.sync, c.library, t),
    ensures
        list_the_same(q, t),
{
    let entries = snapshot_entries(r);
    law_second_time_changes_nothing(a, b, c, entries, changed, again, Seq::empty());
    assert forall|list: Seq<char>|
        #[trigger] told_items(b.sync, list) == told_items(c.sync, list) by {
        law_second_time_changes_nothing(a, b, c, entries, changed, again, list);
        assert(told_items(b.sync, list) =~= told_items(c.sync, list));
    }
    assert(told_playlists(b.sync) =~= told_playlists(c.sync));
    lemma_lists_the_same(b.sync, b.library, q, c.sync, c.library, t);
}

proof fn lemma_merged_canonical(m: Map<Seq<char>, LikeView>, content_id: Seq<char>, v: LikeView)
    requires
        forall|k: Seq<char>| #[trigger] m.dom().contains(k) ==> canonical(k) == Some(k),
        canonical(content_id) is Some,
    ensures
        forall|k: Seq<char>| #[trigger]
            merged(m, canonical(content_id)->0, v).dom().contains(k) ==> canonical(k) == Some(k),
{
    law_canonical_is_fixed(canonical(content_id)->0);
}

/// Likes are known under canonical content ids, whatever a device takes over.
pub proof fn law_entries_keep_likes_canonical(a: World, b: World, e: Entry, changed: bool)
    requires
        likes_canonical(a.sync),
        entry_step(a, b, e, changed),
    ensures
        likes_canonical(b.sync),
{
    if let Entry::Like { content_id, liked, fed, hlc, op } = e {
        if canonical(content_id) is Some {
            lemma_merged_canonical(a.sync.likes@, content_id, LikeView { liked, hlc, op });
        }
    }
}

proof fn lemma_op_keeps_likes_canonical(
    a: World,
    b: World,
    op: SyncOpWire,
    now: i64,
    changed: bool,
    delivered: bool,
)
    requires
        likes_canonical(a.sync),
        op_step(a, b, op, now, changed, delivered),
    ensures
        likes_canonical(b.sync),
{
    if let SyncOpPayload::TrackLikeSet { content_id, liked, fed } = op.payload {
        if canonical(content_id@) is Some {
            lemma_merged_canonical(
                a.sync.likes@,
                content_id@,
                LikeView { liked, hlc: op.hlc_ms, op: op.op_id@ },
            );
        }
    }
}

/// Likes are known under canonical content ids, whatever a device receives.
pub proof fn law_received_operations_keep_likes_canonical(
    a: World,
    b: World,
    op: SyncOpWire,
    now: i64,
    changed: bool,
    delivered: bool,
)
    requires
        likes_canonical(a.sync),
        receive_step(a, b, op, now, changed, delivered),
    ensures
        likes_canonical(b.sync),
{
    let m = World {
        sync: DeviceSync { ops: a.sync.ops, vectors: a.sync.vectors, ..b.sync },
        library: b.library,
    };
    if op_step(a, m, op, now, changed, delivered) {
        lemma_op_keeps_likes_canonical(a, m, op, now, changed, delivered);
    }
}

/// Likes are known under canonical content ids, whatever a device records.
pub proof fn law_recording_keeps_likes_canonical(
    a: World,
    b: World,
    payload: SyncOpPayload,
    now: i64,
    delivered: bool,
)
    requires
        likes_canonical(a.sync),
        record_step(a, b, payload, now, delivered),
    ensures
        likes_canonical(b.sync),
{
    let (op, m, changed) = choose|op: SyncOpWire, m: DeviceSync, changed: bool| #[trigger]
        keep_step(a, World { sync: m, library: b.library }, op, now, changed, delivered)
            && is_next_op(a.sync, op, payload, now) && gc_step(m, b.sync);
    lemma_op_keeps_likes_canonical(
        World {
            sync: DeviceSync { local_seq: op.seq, last_hlc_ms: op.hlc_ms, ..a.sync },
            library: a.library,
        },
        World {
            sync: DeviceSync { ops: a.sync.ops, vectors: a.sync.vectors, ..m },
            library: b.library,
        },
        op,
        now,
        changed,
        delivered,
    );
    assert forall|k: Seq<char>| #[trigger] b.sync.likes@.dom().contains(k) implies canonical(k)
        == Some(k) by {
        assert(m.likes@.dom().contains(k));
    }
}

} // verus!
