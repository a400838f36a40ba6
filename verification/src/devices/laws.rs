//! What holds between devices that exchange their state: the order in which
//! things arrive does not matter, and nothing that is told is missed.

use crate::content_id::canonical;
use crate::devices::exchange::{
    entry_step, item_entries, item_entry, like_entry, playlist_entries, playlist_entry,
    receive_step, received_along, snapshot_entries, taken_along, takes, unlike_entry, Entry,
};
use crate::devices::gc::gc_step;
use crate::devices::lww::{
    later, law_merge_commutative, law_merge_monotone, lemma_later_irreflexive, lemma_later_total,
    lemma_later_transitive, merged, ItemState, ItemView, LikeState, LikeView, PlaylistState, PlaylistView,
    Stamped,
};
use crate::devices::model::{
    synced_view, SnapshotPlaylist, SyncOpPayload, SyncOpWire, SyncSnapshot,
};
use crate::devices::record::{is_next_op, keep_step, record_step};
use crate::devices::snapshot::{
    deleted_key, deleted_keys, deleted_order, is_item, is_like, is_playlist_entry, item_key,
    item_keys, item_order, like_key, like_keys, like_order, playlist_key, playlist_keys,
    removed_key, removed_of, removed_order, tells, tells_playlist, title_order,
};
use crate::devices::sync::{is_op, items_of, op_step, DeviceSync, World};
use crate::devices::trust::accepts;
use crate::keyed::{distinct_keys, is_entry_of, Keyed};
use crate::library::tables::Library;
use crate::lists::{first_where, law_stable_sort, stable_sorted};
use vstd::prelude::*;

verus! {

// ---------------------------------------------------------------------------
// Order
// ---------------------------------------------------------------------------

/// Several things said one after the other.
pub open spec fn said<M, E>(m: M, g: spec_fn(M, E) -> M, s: Seq<E>) -> M
    decreases s.len(),
{
    if s.len() == 0 {
        m
    } else {
        g(said(m, g, s.drop_last()), s.last())
    }
}

/// Whether any two of several things can be said in either order.
spec fn swappable<M, E>(g: spec_fn(M, E) -> M, s: Seq<E>) -> bool {
    forall|x: E, y: E, m: M|
        s.contains(x) && s.contains(y) ==> #[trigger] g(g(m, x), y) == g(g(m, y), x)
}

proof fn lemma_said_last<M, E>(m: M, g: spec_fn(M, E) -> M, s: Seq<E>, i: int)
    requires
        0 <= i < s.len(),
        swappable(g, s),
    ensures
        said(m, g, s) == g(said(m, g, s.remove(i)), s[i]),
    decreases s.len(),
{
    if i == s.len() - 1 {
        assert(s.remove(i) =~= s.drop_last());
    } else {
        let h = s.drop_last();
        assert forall|x: E, y: E, n: M| h.contains(x) && h.contains(y) implies #[trigger] g(
            g(n, x),
            y,
        ) == g(g(n, y), x) by {
            let a = h.index_of(x);
            let b = h.index_of(y);
            assert(s[a] == x && s[b] == y);
        }
        lemma_said_last(m, g, h, i);
        let r = s.remove(i);
        assert(r.drop_last() =~= h.remove(i));
        assert(r.last() == s.last());
        let n = said(m, g, h.remove(i));
        assert(s.contains(s[i]));
        assert(s.contains(s[s.len() - 1]));
        assert(g(g(n, s[i]), s.last()) == g(g(n, s.last()), s[i]));
    }
}

proof fn lemma_said_in_any_order<M, E>(m: M, g: spec_fn(M, E) -> M, s: Seq<E>, t: Seq<E>)
    requires
        s.to_multiset() == t.to_multiset(),
        swappable(g, s),
    ensures
        said(m, g, s) == said(m, g, t),
    decreases s.len(),
{
    broadcast use vstd::seq_lib::group_to_multiset_ensures;

    vstd::seq_lib::to_multiset_len(s);
    vstd::seq_lib::to_multiset_len(t);
    assert(s.len() == t.len());
    if s.len() > 0 {
        let h = s.drop_last();
        let x = s.last();
        assert(s[s.len() - 1] == x);
        assert(s.contains(x));
        assert(t.to_multiset().count(x) > 0);
        assert(t.contains(x));
        let i = t.index_of(x);
        assert forall|y: E| #[trigger] t.contains(y) implies s.contains(y) by {
            assert(t.to_multiset().count(y) > 0);
        }
        assert(swappable(g, t)) by {
            assert forall|y: E, z: E, n: M| t.contains(y) && t.contains(z) implies #[trigger] g(
                g(n, y),
                z,
            ) == g(g(n, z), y) by {
                assert(s.contains(y) && s.contains(z));
            }
        }
        lemma_said_last(m, g, t, i);
        let r = t.remove(i);
        assert(h.push(x) =~= s);
        assert(s.to_multiset() =~= h.to_multiset().insert(x));
        vstd::seq_lib::to_multiset_remove(t, i);
        assert(r.to_multiset() =~= t.to_multiset().remove(x));
        assert(h.to_multiset() =~= r.to_multiset());
        assert(swappable(g, h)) by {
            assert forall|y: E, z: E, n: M| h.contains(y) && h.contains(z) implies #[trigger] g(
                g(n, y),
                z,
            ) == g(g(n, z), y) by {
                let a = h.index_of(y);
                let b = h.index_of(z);
                assert(s[a] == y && s[b] == z);
            }
        }
        lemma_said_in_any_order(m, g, h, r);
    }
}

/// The likes after an entry.
pub open spec fn says_of_likes() -> spec_fn(Map<Seq<char>, LikeView>, Entry) -> Map<
    Seq<char>,
    LikeView,
> {
    |m: Map<Seq<char>, LikeView>, e: Entry|
        match e {
            Entry::Like { content_id, liked, fed, hlc, op } => match canonical(content_id) {
                Some(id) => merged(m, id, LikeView { liked, hlc, op }),
                None => m,
            },
            _ => m,
        }
}

/// The playlists after an entry.
pub open spec fn says_of_playlists() -> spec_fn(Map<Seq<char>, PlaylistView>, Entry) -> Map<
    Seq<char>,
    PlaylistView,
> {
    |m: Map<Seq<char>, PlaylistView>, e: Entry|
        match e {
            Entry::Playlist { playlist_id, title, deleted, hlc, op } => merged(
                m,
                playlist_id,
                PlaylistView { title, deleted, hlc, op },
            ),
            _ => m,
        }
}

/// The items of one playlist after an entry.
pub open spec fn says_of_items(list: Seq<char>) -> spec_fn(
    Map<Seq<char>, ItemView>,
    Entry,
) -> Map<Seq<char>, ItemView> {
    |m: Map<Seq<char>, ItemView>, e: Entry|
        match e {
            Entry::Item { playlist_id, content_id, present, position, fed, hlc, op } => if playlist_id
                == list {
                merged(m, content_id, ItemView { present, position, hlc, op })
            } else {
                m
            },
            _ => m,
        }
}

/// Whether two entries that speak of the same thing with the same stamp say the
/// same of it.
pub open spec fn agree(x: Entry, y: Entry) -> bool {
    match (x, y) {
        (
            Entry::Like { content_id: c, liked: l, fed: _, hlc: h, op: o },
            Entry::Like { content_id: d, liked: m, fed: _, hlc: i, op: p },
        ) => canonical(c) == canonical(d) && h == i && o == p ==> l == m,
        (
            Entry::Playlist { playlist_id: c, title: l, deleted: a, hlc: h, op: o },
            Entry::Playlist { playlist_id: d, title: m, deleted: b, hlc: i, op: p },
        ) => c == d && h == i && o == p ==> l == m && a == b,
        (
            Entry::Item { playlist_id: q, content_id: c, present: l, position: a, fed: _, hlc: h, op: o },
            Entry::Item { playlist_id: r, content_id: d, present: m, position: b, fed: _, hlc: i, op: p },
        ) => q == r && c == d && h == i && o == p ==> l == m && a == b,
        _ => true,
    }
}

/// Whether any two of several entries agree: a stamp belongs to one operation.
pub open spec fn all_agree(s: Seq<Entry>) -> bool {
    forall|x: Entry, y: Entry| s.contains(x) && s.contains(y) ==> #[trigger] agree(x, y)
}

proof fn lemma_swappable(s: Seq<Entry>, list: Seq<char>)
    requires
        all_agree(s),
    ensures
        swappable(says_of_likes(), s),
        swappable(says_of_playlists(), s),
        swappable(says_of_items(list), s),
{
    let g = says_of_likes();
    assert forall|x: Entry, y: Entry, m: Map<Seq<char>, LikeView>|
        s.contains(x) && s.contains(y) implies #[trigger] g(g(m, x), y) == g(g(m, y), x) by {
        assert(agree(x, y));
        if let (
            Entry::Like { content_id: c, liked: l, fed: _, hlc: h, op: o },
            Entry::Like { content_id: d, liked: n, fed: _, hlc: i, op: p },
        ) = (x, y) {
            if canonical(c) is Some && canonical(d) is Some {
                law_merge_commutative(
                    m,
                    canonical(c)->0,
                    LikeView { liked: l, hlc: h, op: o },
                    canonical(d)->0,
                    LikeView { liked: n, hlc: i, op: p },
                );
            }
        }
    }
    let g = says_of_playlists();
    assert forall|x: Entry, y: Entry, m: Map<Seq<char>, PlaylistView>|
        s.contains(x) && s.contains(y) implies #[trigger] g(g(m, x), y) == g(g(m, y), x) by {
        assert(agree(x, y));
        if let (
            Entry::Playlist { playlist_id: c, title: l, deleted: a, hlc: h, op: o },
            Entry::Playlist { playlist_id: d, title: n, deleted: b, hlc: i, op: p },
        ) = (x, y) {
            law_merge_commutative(
                m,
                c,
                PlaylistView { title: l, deleted: a, hlc: h, op: o },
                d,
                PlaylistView { title: n, deleted: b, hlc: i, op: p },
            );
        }
    }
    let g = says_of_items(list);
    assert forall|x: Entry, y: Entry, m: Map<Seq<char>, ItemView>|
        s.contains(x) && s.contains(y) implies #[trigger] g(g(m, x), y) == g(g(m, y), x) by {
        assert(agree(x, y));
        if let (
            Entry::Item { playlist_id: q, content_id: c, present: l, position: a, fed: _, hlc: h, op: o },
            Entry::Item { playlist_id: r, content_id: d, present: n, position: b, fed: _, hlc: i, op: p },
        ) = (x, y) {
            if q == list && r == list {
                law_merge_commutative(
                    m,
                    c,
                    ItemView { present: l, position: a, hlc: h, op: o },
                    d,
                    ItemView { present: n, position: b, hlc: i, op: p },
                );
            }
        }
    }
}

proof fn lemma_entry_says(a: World, b: World, e: Entry, changed: bool, list: Seq<char>)
    requires
        entry_step(a, b, e, changed),
    ensures
        b.sync.likes@ == says_of_likes()(a.sync.likes@, e),
        b.sync.playlists@ == says_of_playlists()(a.sync.playlists@, e),
        items_of(b.sync.items@, list) == says_of_items(list)(items_of(a.sync.items@, list), e),
{
}

proof fn lemma_entries_say(
    entries: Seq<Entry>,
    w: Seq<World>,
    c: Seq<bool>,
    n: int,
    list: Seq<char>,
)
    requires
        taken_along(w[0], w.last(), entries, w, c),
        0 <= n <= entries.len(),
    ensures
        w[n].sync.likes@ == said(w[0].sync.likes@, says_of_likes(), entries.take(n)),
        w[n].sync.playlists@ == said(w[0].sync.playlists@, says_of_playlists(), entries.take(n)),
        items_of(w[n].sync.items@, list) == said(
            items_of(w[0].sync.items@, list),
            says_of_items(list),
            entries.take(n),
        ),
    decreases n,
{
    if n > 0 {
        lemma_entries_say(entries, w, c, n - 1, list);
        lemma_entry_says(w[n - 1], w[n], entries[n - 1], c[n - 1], list);
        assert(entries.take(n).drop_last() =~= entries.take(n - 1));
        assert(entries.take(n).last() == entries[n - 1]);
    }
}

/// What a device holds after it took over what others told it is what it held,
/// with each entry merged into it.
pub proof fn law_taking_over_merges(
    a: World,
    b: World,
    entries: Seq<Entry>,
    changed: bool,
    list: Seq<char>,
)
    requires
        takes(a, b, entries, changed),
    ensures
        b.sync.likes@ == said(a.sync.likes@, says_of_likes(), entries),
        b.sync.playlists@ == said(a.sync.playlists@, says_of_playlists(), entries),
        items_of(b.sync.items@, list) == said(
            items_of(a.sync.items@, list),
            says_of_items(list),
            entries,
        ),
{
    let (w, c) = choose|w: Seq<World>, c: Seq<bool>| #[trigger]
        taken_along(a, b, entries, w, c) && changed == c.contains(true);
    lemma_entries_say(entries, w, c, entries.len() as int, list);
    assert(entries.take(entries.len() as int) =~= entries);
    assert(w[entries.len() as int] == w.last());
}

/// Devices that were told the same, in whatever order, hold the same likes,
/// the same playlists and the same items, if they held the same before.
pub proof fn law_devices_converge(
    a: World,
    b: World,
    c: World,
    d: World,
    s: Seq<Entry>,
    t: Seq<Entry>,
    changed: bool,
    changed_too: bool,
    list: Seq<char>,
)
    requires
        takes(a, b, s, changed),
        takes(c, d, t, changed_too),
        s.to_multiset() == t.to_multiset(),
        all_agree(s),
        a.sync.likes@ == c.sync.likes@,
        a.sync.playlists@ == c.sync.playlists@,
        items_of(a.sync.items@, list) == items_of(c.sync.items@, list),
    ensures
        b.sync.likes@ == d.sync.likes@,
        b.sync.playlists@ == d.sync.playlists@,
        items_of(b.sync.items@, list) == items_of(d.sync.items@, list),
{
    law_taking_over_merges(a, b, s, changed, list);
    law_taking_over_merges(c, d, t, changed_too, list);
    lemma_swappable(s, list);
    lemma_said_in_any_order(a.sync.likes@, says_of_likes(), s, t);
    lemma_said_in_any_order(a.sync.playlists@, says_of_playlists(), s, t);
    lemma_said_in_any_order(items_of(a.sync.items@, list), says_of_items(list), s, t);
}

// ---------------------------------------------------------------------------
// Operations
// ---------------------------------------------------------------------------

/// What an operation says of the shared state, if anything.
pub open spec fn entry_of(op: SyncOpWire) -> Option<Entry> {
    match op.payload {
        SyncOpPayload::TrackLikeSet { content_id, liked, fed } => Some(
            Entry::Like {
                content_id: content_id@,
                liked,
                fed: synced_view(fed),
                hlc: op.hlc_ms,
                op: op.op_id@,
            },
        ),
        SyncOpPayload::PlaylistCreated { playlist_id, title } => Some(
            Entry::Playlist {
                playlist_id: playlist_id@,
                title: title@,
                deleted: false,
                hlc: op.hlc_ms,
                op: op.op_id@,
            },
        ),
        SyncOpPayload::PlaylistRenamed { playlist_id, title } => Some(
            Entry::Playlist {
                playlist_id: playlist_id@,
                title: title@,
                deleted: false,
                hlc: op.hlc_ms,
                op: op.op_id@,
            },
        ),
        SyncOpPayload::PlaylistDeleted { playlist_id } => Some(
            Entry::Playlist {
                playlist_id: playlist_id@,
                title: Seq::empty(),
                deleted: true,
                hlc: op.hlc_ms,
                op: op.op_id@,
            },
        ),
        SyncOpPayload::PlaylistTrackAdded { playlist_id, content_id, position, fed } => Some(
            Entry::Item {
                playlist_id: playlist_id@,
                content_id: content_id@,
                present: true,
                position,
                fed: synced_view(fed),
                hlc: op.hlc_ms,
                op: op.op_id@,
            },
        ),
        SyncOpPayload::PlaylistTrackRemoved { playlist_id, content_id } => Some(
            Entry::Item {
                playlist_id: playlist_id@,
                content_id: content_id@,
                present: false,
                position: 0,
                fed: None,
                hlc: op.hlc_ms,
                op: op.op_id@,
            },
        ),
        _ => None,
    }
}

/// What several operations say of the shared state, in order.
pub open spec fn entries_of(ops: Seq<SyncOpWire>) -> Seq<Entry>
    decreases ops.len(),
{
    if ops.len() == 0 {
        Seq::empty()
    } else {
        match entry_of(ops.last()) {
            Some(e) => entries_of(ops.drop_last()).push(e),
            None => entries_of(ops.drop_last()),
        }
    }
}

/// Whether every operation on the way is one that is to be taken over and was
/// not known.
pub open spec fn all_new(w: Seq<World>, ops: Seq<SyncOpWire>) -> bool {
    forall|i: int|
        0 <= i < ops.len() ==> accepts(
            w[i].sync.devices@,
            w[i].sync.device_id@,
            (#[trigger] ops[i]).origin_device_id@,
            ops[i].seq,
        ) && first_where(w[i].sync.ops@, is_op(ops[i].op_id@)) is None
}

proof fn lemma_ops_say(
    ops: Seq<SyncOpWire>,
    w: Seq<World>,
    now: i64,
    c: Seq<bool>,
    d: Seq<bool>,
    n: int,
    list: Seq<char>,
)
    requires
        received_along(w[0], w.last(), ops, now, w, c, d),
        all_new(w, ops),
        0 <= n <= ops.len(),
    ensures
        w[n].sync.likes@ == said(w[0].sync.likes@, says_of_likes(), entries_of(ops.take(n))),
        w[n].sync.playlists@ == said(
            w[0].sync.playlists@,
            says_of_playlists(),
            entries_of(ops.take(n)),
        ),
        items_of(w[n].sync.items@, list) == said(
            items_of(w[0].sync.items@, list),
            says_of_items(list),
            entries_of(ops.take(n)),
        ),
    decreases n,
{
    if n > 0 {
        lemma_ops_say(ops, w, now, c, d, n - 1, list);
        let i = n - 1;
        let op = ops[i];
        assert(receive_step(w[i], w[i + 1], op, now, c[i], d[i]));
        assert(ops.take(n).drop_last() =~= ops.take(i));
        assert(ops.take(n).last() == op);
        let before = entries_of(ops.take(i));
        if let Some(e) = entry_of(op) {
            let mid = World {
                sync: DeviceSync {
                    ops: w[i].sync.ops,
                    vectors: w[i].sync.vectors,
                    ..w[i + 1].sync
                },
                library: w[i + 1].library,
            };
            assert(op_step(w[i], mid, op, now, c[i], d[i]));
            assert(entry_step(w[i], mid, e, c[i]));
            lemma_entry_says(w[i], mid, e, c[i], list);
            assert(before.push(e).drop_last() =~= before);
        }
    }
}

/// Devices that received the same operations, in whatever order, hold the same
/// likes, the same playlists and the same items, if they held the same before
/// and each took every operation over.
pub proof fn law_operations_commute(
    ops: Seq<SyncOpWire>,
    v: Seq<World>,
    now: i64,
    c: Seq<bool>,
    d: Seq<bool>,
    others: Seq<SyncOpWire>,
    w: Seq<World>,
    then_ms: i64,
    e: Seq<bool>,
    g: Seq<bool>,
    list: Seq<char>,
)
    requires
        received_along(v[0], v.last(), ops, now, v, c, d),
        received_along(w[0], w.last(), others, then_ms, w, e, g),
        all_new(v, ops),
        all_new(w, others),
        entries_of(ops).to_multiset() == entries_of(others).to_multiset(),
        all_agree(entries_of(ops)),
        v[0].sync.likes@ == w[0].sync.likes@,
        v[0].sync.playlists@ == w[0].sync.playlists@,
        items_of(v[0].sync.items@, list) == items_of(w[0].sync.items@, list),
    ensures
        v.last().sync.likes@ == w.last().sync.likes@,
        v.last().sync.playlists@ == w.last().sync.playlists@,
        items_of(v.last().sync.items@, list) == items_of(w.last().sync.items@, list),
{
    let s = entries_of(ops);
    let t = entries_of(others);
    lemma_ops_say(ops, v, now, c, d, ops.len() as int, list);
    lemma_ops_say(others, w, then_ms, e, g, others.len() as int, list);
    assert(ops.take(ops.len() as int) =~= ops);
    assert(others.take(others.len() as int) =~= others);
    lemma_swappable(s, list);
    lemma_said_in_any_order(v[0].sync.likes@, says_of_likes(), s, t);
    lemma_said_in_any_order(v[0].sync.playlists@, says_of_playlists(), s, t);
    lemma_said_in_any_order(items_of(v[0].sync.items@, list), says_of_items(list), s, t);
}

/// The clock and the number of a device go on with everything that it records,
/// and the clock is never behind the time.
pub proof fn law_recording_moves_on(
    a: World,
    b: World,
    payload: SyncOpPayload,
    now: i64,
    delivered: bool,
)
    requires
        record_step(a, b, payload, now, delivered),
    ensures
        b.sync.last_hlc_ms > a.sync.last_hlc_ms,
        b.sync.last_hlc_ms >= now,
        b.sync.local_seq == a.sync.local_seq + 1,
{
    let (op, m, changed) = choose|op: SyncOpWire, m: DeviceSync, changed: bool| #[trigger]
        keep_step(a, World { sync: m, library: b.library }, op, now, changed, delivered)
            && is_next_op(a.sync, op, payload, now) && gc_step(m, b.sync);
    assert(keep_step(a, World { sync: m, library: b.library }, op, now, changed, delivered));
}

// ---------------------------------------------------------------------------
// Catching up
// ---------------------------------------------------------------------------

/// Whether what a table holds of a key is an entry or something later.
pub open spec fn holds_at_least<V: Stamped>(m: Map<Seq<char>, V>, k: Seq<char>, v: V) -> bool {
    m.dom().contains(k) && !later(v.clock(), v.op(), m[k].clock(), m[k].op())
}

proof fn lemma_holds_after<V: Stamped>(
    m: Map<Seq<char>, V>,
    k: Seq<char>,
    v: V,
    l: Seq<char>,
    w: V,
)
    ensures
        holds_at_least(merged(m, l, w), l, w),
        holds_at_least(m, k, v) ==> holds_at_least(merged(m, l, w), k, v),
{
    lemma_later_irreflexive(w.clock(), w.op());
    lemma_later_total(w.clock(), w.op(), m[l].clock(), m[l].op());
    if holds_at_least(m, k, v) {
        law_merge_monotone(m, l, w, k);
        let n = merged(m, l, w)[k];
        if n != m[k] && later(v.clock(), v.op(), n.clock(), n.op()) {
            lemma_later_transitive(v.clock(), v.op(), n.clock(), n.op(), m[k].clock(), m[k].op());
        }
    }
}

pub proof fn lemma_like_held(
    m: Map<Seq<char>, LikeView>,
    s: Seq<Entry>,
    i: int,
    k: Seq<char>,
    v: LikeView,
)
    requires
        0 <= i < s.len(),
        s[i] matches Entry::Like { content_id, liked, fed, hlc, op } && canonical(content_id)
            == Some(k) && v == (LikeView { liked, hlc, op }),
    ensures
        holds_at_least(said(m, says_of_likes(), s), k, v),
    decreases s.len(),
{
    let h = s.drop_last();
    let before = said(m, says_of_likes(), h);
    if i < h.len() {
        lemma_like_held(m, h, i, k, v);
        if let Entry::Like { content_id, liked, fed, hlc, op } = s.last() {
            if let Some(id) = canonical(content_id) {
                lemma_holds_after(before, k, v, id, LikeView { liked, hlc, op });
            }
        }
    } else {
        lemma_holds_after(before, k, v, k, v);
    }
}

pub proof fn lemma_playlist_held(
    m: Map<Seq<char>, PlaylistView>,
    s: Seq<Entry>,
    i: int,
    k: Seq<char>,
    v: PlaylistView,
)
    requires
        0 <= i < s.len(),
        s[i] matches Entry::Playlist { playlist_id, title, deleted, hlc, op } && playlist_id == k
            && v == (PlaylistView { title, deleted, hlc, op }),
    ensures
        holds_at_least(said(m, says_of_playlists(), s), k, v),
    decreases s.len(),
{
    let h = s.drop_last();
    let before = said(m, says_of_playlists(), h);
    if i < h.len() {
        lemma_playlist_held(m, h, i, k, v);
        if let Entry::Playlist { playlist_id, title, deleted, hlc, op } = s.last() {
            lemma_holds_after(before, k, v, playlist_id, PlaylistView { title, deleted, hlc, op });
        }
    } else {
        lemma_holds_after(before, k, v, k, v);
    }
}

/// What satisfies a predicate in a list is still there when the rest is gone,
/// each element was turned into another, and all were sorted.
pub proof fn lemma_told<T, U>(
    s: Seq<T>,
    p: spec_fn(T) -> bool,
    f: spec_fn(T) -> U,
    leq: spec_fn(U, U) -> bool,
    i: int,
) -> (j: int)
    requires
        0 <= i < s.len(),
        p(s[i]),
    ensures
        0 <= j < stable_sorted(s.filter(p).map_values(f), leq).len(),
        stable_sorted(s.filter(p).map_values(f), leq)[j] == f(s[i]),
{
    broadcast use vstd::seq_lib::group_to_multiset_ensures;

    s.lemma_filter_contains(p, i);
    let k = s.filter(p).index_of(s[i]);
    let rows = s.filter(p).map_values(f);
    assert(rows[k] == f(s[i]));
    assert(rows.contains(f(s[i])));
    law_stable_sort(rows, leq);
    let out = stable_sorted(rows, leq);
    assert(out.to_multiset().count(f(s[i])) > 0);
    assert(out.contains(f(s[i])));
    out.index_of(f(s[i]))
}

/// A device that takes over the state of another knows of every like, and of
/// every like that was taken back, at least as late a word as the other did.
pub proof fn law_snapshot_brings_every_like(
    s: DeviceSync,
    l: Library,
    r: SyncSnapshot,
    a: World,
    b: World,
    changed: bool,
    k: Seq<char>,
)
    requires
        tells(s, l, r),
        takes(a, b, snapshot_entries(r), changed),
        s.likes@.dom().contains(k),
        canonical(k) == Some(k),
    ensures
        holds_at_least(b.sync.likes@, k, s.likes@[k]),
{
    let entries = snapshot_entries(r);
    law_taking_over_merges(a, b, entries, changed, k);
    let i = s.likes.lemma_entry_of(k);
    let items = s.likes.items();
    let e = items[i];
    let liked = e.1.liked;
    let j = lemma_told(
        items,
        is_like(liked),
        |e: (String, LikeState)| like_key(e),
        like_order(),
        i,
    );
    let v = s.likes@[k];
    if liked {
        assert(r.likes@[j].content_id == like_keys(s, true)[j].content_id);
        let n = j;
        assert(entries[n] == like_entry(r.likes@[j]));
        lemma_like_held(a.sync.likes@, entries, n, k, v);
    } else {
        let n = r.likes@.len() + j;
        assert(r.unlikes@[j] == like_keys(s, false)[j]);
        assert(entries[n] == unlike_entry(r.unlikes@[j]));
        lemma_like_held(a.sync.likes@, entries, n, k, v);
    }
}

pub proof fn lemma_playlist_told(s: Seq<SnapshotPlaylist>, j: int) -> (n: int)
    requires
        0 <= j < s.len(),
    ensures
        0 <= n < playlist_entries(s).len(),
        playlist_entries(s)[n] == playlist_entry(s[j]),
    decreases s.len(),
{
    let h = s.drop_last();
    let before = playlist_entries(h);
    if j < h.len() {
        let n = lemma_playlist_told(h, j);
        assert(h[j] == s[j]);
        n
    } else {
        before.len() as int
    }
}

/// A device that takes over the state of another knows of every playlist, and
/// of every deleted one, at least as late a word as the other did: a playlist
/// that was deleted while a device was away does not stay on it.
pub proof fn law_snapshot_brings_every_playlist(
    s: DeviceSync,
    l: Library,
    r: SyncSnapshot,
    a: World,
    b: World,
    changed: bool,
    k: Seq<char>,
)
    requires
        tells(s, l, r),
        takes(a, b, snapshot_entries(r), changed),
        s.playlists@.dom().contains(k),
    ensures
        b.sync.playlists@.dom().contains(k),
        !later(
            s.playlists@[k].hlc,
            s.playlists@[k].op,
            b.sync.playlists@[k].hlc,
            b.sync.playlists@[k].op,
        ),
{
    let entries = snapshot_entries(r);
    law_taking_over_merges(a, b, entries, changed, k);
    let i = s.playlists.lemma_entry_of(k);
    let items = s.playlists.items();
    let e = items[i];
    let v = s.playlists@[k];
    let first = (r.likes@.len() + r.unlikes@.len()) as int;
    if e.1.deleted {
        let j = lemma_told(
            items,
            is_playlist_entry(true),
            |e: (String, PlaylistState)| deleted_key(e),
            deleted_order(),
            i,
        );
        assert(r.deleted_playlists@[j] == deleted_keys(s)[j]);
        let n = first + playlist_entries(r.playlists@).len() + j;
        assert(entries[n] == crate::devices::exchange::deleted_entry(r.deleted_playlists@[j]));
        let w = PlaylistView { title: Seq::empty(), deleted: true, hlc: v.hlc, op: v.op };
        lemma_playlist_held(a.sync.playlists@, entries, n, k, w);
    } else {
        let j = lemma_told(
            items,
            is_playlist_entry(false),
            |e: (String, PlaylistState)| playlist_key(e),
            title_order(),
            i,
        );
        assert(tells_playlist(s, l, r.playlists@[j], playlist_keys(s)[j]));
        let m = lemma_playlist_told(r.playlists@, j);
        let n = first + m;
        assert(entries[n] == playlist_entry(r.playlists@[j]));
        lemma_playlist_held(a.sync.playlists@, entries, n, k, v);
    }
}

pub proof fn lemma_item_held(
    m: Map<Seq<char>, ItemView>,
    s: Seq<Entry>,
    i: int,
    list: Seq<char>,
    k: Seq<char>,
    v: ItemView,
)
    requires
        0 <= i < s.len(),
        s[i] matches Entry::Item { playlist_id, content_id, present, position, fed, hlc, op }
            && playlist_id == list && content_id == k && v == (ItemView {
            present,
            position,
            hlc,
            op,
        }),
    ensures
        holds_at_least(said(m, says_of_items(list), s), k, v),
    decreases s.len(),
{
    let h = s.drop_last();
    let before = said(m, says_of_items(list), h);
    if i < h.len() {
        lemma_item_held(m, h, i, list, k, v);
        if let Entry::Item { playlist_id, content_id, present, position, fed, hlc, op } = s.last() {
            if playlist_id == list {
                lemma_holds_after(before, k, v, content_id, ItemView { present, position, hlc, op });
            }
        }
    } else {
        lemma_holds_after(before, k, v, k, v);
    }
}

pub proof fn lemma_removed_told(items: Seq<(String, Keyed<ItemState>)>, i: int, j: int) -> (n: int)
    requires
        0 <= i < items.len(),
        0 <= j < items[i].1.items().len(),
        !items[i].1.items()[j].1.present,
    ensures
        0 <= n < removed_of(items).len(),
        removed_of(items)[n] == removed_key(items[i].0, items[i].1.items()[j]),
    decreases items.len(),
{
    let h = items.drop_last();
    let before = removed_of(h);
    if i < h.len() {
        let n = lemma_removed_told(h, i, j);
        assert(h[i] == items[i]);
        n
    } else {
        let e = items.last();
        let inner = e.1.items();
        inner.lemma_filter_contains(is_item(false), j);
        let n = inner.filter(is_item(false)).index_of(inner[j]);
        let rows = inner.filter(is_item(false)).map_values(
            |x: (String, ItemState)| removed_key(e.0, x),
        );
        assert(rows[n] == removed_key(e.0, inner[j]));
        before.len() + n
    }
}

/// A device that takes over the state of another knows of every item that was
/// removed from a playlist at least as late a word as the other did.
pub proof fn law_snapshot_brings_every_removal(
    s: DeviceSync,
    l: Library,
    r: SyncSnapshot,
    a: World,
    b: World,
    changed: bool,
    list: Seq<char>,
    k: Seq<char>,
)
    requires
        tells(s, l, r),
        takes(a, b, snapshot_entries(r), changed),
        s.items@.dom().contains(list),
        s.items@[list].dom().contains(k),
        !s.items@[list][k].present,
    ensures
        items_of(b.sync.items@, list).dom().contains(k),
        !later(
            s.items@[list][k].hlc,
            s.items@[list][k].op,
            items_of(b.sync.items@, list)[k].hlc,
            items_of(b.sync.items@, list)[k].op,
        ),
{
    broadcast use vstd::seq_lib::group_to_multiset_ensures;

    let entries = snapshot_entries(r);
    law_taking_over_merges(a, b, entries, changed, list);
    let i = s.items.lemma_entry_of(list);
    let inner = s.items.items()[i].1;
    let j = inner.lemma_entry_of(k);
    let v = s.items@[list][k];
    let rows = removed_of(s.items.items());
    let n = lemma_removed_told(s.items.items(), i, j);
    law_stable_sort(rows, removed_order());
    let out = stable_sorted(rows, removed_order());
    assert(rows.contains(rows[n]));
    assert(out.to_multiset().count(rows[n]) > 0);
    assert(out.contains(rows[n]));
    let m = out.index_of(rows[n]);
    assert(r.removed_playlist_items@[m] == rows[n]);
    let place = r.likes@.len() + r.unlikes@.len() + playlist_entries(r.playlists@).len()
        + r.deleted_playlists@.len() + m;
    assert(entries[place] == crate::devices::exchange::removed_entry(
        r.removed_playlist_items@[m],
    ));
    let w = ItemView { present: false, position: 0, hlc: v.hlc, op: v.op };
    lemma_item_held(items_of(a.sync.items@, list), entries, place, list, k, w);
}

pub proof fn lemma_item_told(s: Seq<SnapshotPlaylist>, j: int, i: int) -> (n: int)
    requires
        0 <= j < s.len(),
        0 <= i < s[j].items@.len(),
    ensures
        0 <= n < playlist_entries(s).len(),
        playlist_entries(s)[n] == item_entry(s[j].playlist_id@, s[j].items@[i]),
    decreases s.len(),
{
    let h = s.drop_last();
    let before = playlist_entries(h);
    if j < h.len() {
        let n = lemma_item_told(h, j, i);
        assert(h[j] == s[j]);
        n
    } else {
        let rows = item_entries(s[j].playlist_id@, s[j].items@);
        assert(rows[i] == item_entry(s[j].playlist_id@, s[j].items@[i]));
        before.len() + 1 + i
    }
}

/// A device that takes over the state of another knows of every item of every
/// playlist that is not deleted at least as late a word as the other did.
pub proof fn law_snapshot_brings_every_item(
    s: DeviceSync,
    l: Library,
    r: SyncSnapshot,
    a: World,
    b: World,
    changed: bool,
    list: Seq<char>,
    k: Seq<char>,
)
    requires
        distinct_keys(s.items.items()),
        tells(s, l, r),
        takes(a, b, snapshot_entries(r), changed),
        s.playlists@.dom().contains(list),
        !s.playlists@[list].deleted,
        s.items@.dom().contains(list),
        s.items@[list].dom().contains(k),
        s.items@[list][k].present,
    ensures
        holds_at_least(items_of(b.sync.items@, list), k, s.items@[list][k]),
{
    let entries = snapshot_entries(r);
    law_taking_over_merges(a, b, entries, changed, list);
    let at = s.playlists.lemma_entry_of(list);
    let j = lemma_told(
        s.playlists.items(),
        is_playlist_entry(false),
        |e: (String, PlaylistState)| playlist_key(e),
        title_order(),
        at,
    );
    assert(tells_playlist(s, l, r.playlists@[j], playlist_keys(s)[j]));
    let i = s.items.lemma_entry_of(list);
    let all = s.items.items();
    let p = is_entry_of::<Keyed<ItemState>>(list);
    crate::lists::lemma_first_where(all, p);
    assert(p(all[i]));
    assert(first_where(all, p) == Some(i));
    let inner = all[i].1;
    let q = inner.lemma_entry_of(k);
    let m = lemma_told(
        inner.items(),
        is_item(true),
        |e: (String, ItemState)| item_key(e),
        item_order(),
        q,
    );
    let told = r.playlists@[j].items@[m];
    assert(crate::devices::snapshot::tells_item(l, list, told, item_keys(s, list)[m]));
    let n = lemma_item_told(r.playlists@, j, m);
    let place = r.likes@.len() + r.unlikes@.len() + n;
    assert(entries[place] == item_entry(list, told));
    lemma_item_held(
        items_of(a.sync.items@, list),
        entries,
        place,
        list,
        k,
        s.items@[list][k],
    );
}

} // verus!
