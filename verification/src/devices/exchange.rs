//! What a device does with what another one sends: operations, the whole
//! state, and what the other has seen.

use crate::devices::model::{
    synced_view, SnapshotLike, SnapshotLikeTombstone, SnapshotPlaylist, SnapshotPlaylistItem,
    SnapshotPlaylistItemTombstone, SnapshotPlaylistTombstone, SyncOpWire, SyncSnapshot,
};
use crate::devices::sync::{
    bumped, is_op, item_step, like_step, op_step, playlist_step, DeviceSync, OpRow, World,
};
use crate::devices::trust::accepts;
use crate::federation::track::FedTrackView;
use crate::library::playlists::{lemma_room, next_playlist_id};
use crate::library::tables::Library;
use crate::lists::{find_by, first_where};
use crate::text::{before, same};
use vstd::prelude::*;

verus! {

/// Whether the library can still give ids to so many new playlists.
pub open spec fn has_room(l: Library, n: int) -> bool {
    next_playlist_id(l.playlists@) + n <= i64::MAX
}

/// What a received operation does: nothing if it is not to be taken over, and
/// nothing more than to be noted if it is known.
pub open spec fn receive_step(
    a: World,
    b: World,
    op: SyncOpWire,
    now: i64,
    changed: bool,
    delivered: bool,
) -> bool {
    if !accepts(a.sync.devices@, a.sync.device_id@, op.origin_device_id@, op.seq) {
        b == a && !changed && !delivered
    } else if first_where(a.sync.ops@, is_op(op.op_id@)) is Some {
        &&& !changed
        &&& !delivered
        &&& b.library == a.library
        &&& b.sync.vectors@ == bumped(a.sync.vectors@, op.origin_device_id@, op.seq)
        &&& b.sync == DeviceSync { vectors: b.sync.vectors, ..a.sync }
    } else {
        &&& op_step(
            a,
            World {
                sync: DeviceSync { ops: a.sync.ops, vectors: a.sync.vectors, ..b.sync },
                library: b.library,
            },
            op,
            now,
            changed,
            delivered,
        )
        &&& b.sync.ops@ == a.sync.ops@.push(OpRow { op, received_at_ms: now })
        &&& b.sync.vectors@ == bumped(a.sync.vectors@, op.origin_device_id@, op.seq)
    }
}

/// The way from one state to another through several received operations:
/// the states in between, what each operation changed, and which carry a
/// playback command that is to be carried out.
pub open spec fn received_along(
    a: World,
    b: World,
    ops: Seq<SyncOpWire>,
    now: i64,
    w: Seq<World>,
    c: Seq<bool>,
    d: Seq<bool>,
) -> bool {
    &&& w.len() == ops.len() + 1
    &&& c.len() == ops.len()
    &&& d.len() == ops.len()
    &&& w[0] == a
    &&& w.last() == b
    &&& forall|i: int|
        0 <= i < ops.len() ==> receive_step(
            w[i],
            w[i + 1],
            ops[i],
            now,
            #[trigger] c[i],
            d[i],
        )
}

/// The places among all operations of those that carry a playback command
/// that is to be carried out.
pub open spec fn command_places(w: Seq<World>, d: Seq<bool>) -> Seq<int>
    decreases d.len(),
{
    if d.len() == 0 {
        Seq::empty()
    } else {
        let before = command_places(w, d.drop_last());
        if d.last() {
            before.push(w[d.len() - 1].sync.ops@.len() as int)
        } else {
            before
        }
    }
}

/// What several received operations do, in order: something changed if one of
/// them changed something.
pub open spec fn receives(
    a: World,
    b: World,
    ops: Seq<SyncOpWire>,
    now: i64,
    changed: bool,
    commands: Seq<int>,
) -> bool {
    exists|w: Seq<World>, c: Seq<bool>, d: Seq<bool>| #[trigger]
        received_along(a, b, ops, now, w, c, d) && changed == c.contains(true) && commands
            == command_places(w, d)
}

proof fn lemma_command_places(w: Seq<World>, v: Seq<World>, d: Seq<bool>)
    requires
        d.len() <= w.len(),
        d.len() <= v.len(),
        forall|i: int| 0 <= i < d.len() ==> w[i] == v[i],
    ensures
        command_places(w, d) == command_places(v, d),
    decreases d.len(),
{
    if d.len() > 0 {
        lemma_command_places(w, v, d.drop_last());
    }
}

/// No operation changes nothing.
proof fn lemma_receives_none(a: World, now: i64)
    ensures
        receives(a, a, Seq::empty(), now, false, Seq::empty()),
{
    let w = seq![a];
    let c = Seq::<bool>::empty();
    assert(received_along(a, a, Seq::empty(), now, w, c, c));
}

proof fn lemma_receives_one_more(
    a: World,
    m: World,
    b: World,
    done: Seq<SyncOpWire>,
    op: SyncOpWire,
    now: i64,
    changed: bool,
    commands: Seq<int>,
    c2: bool,
    d2: bool,
)
    requires
        receives(a, m, done, now, changed, commands),
        receive_step(m, b, op, now, c2, d2),
    ensures
        receives(
            a,
            b,
            done.push(op),
            now,
            changed || c2,
            if d2 {
                commands.push(m.sync.ops@.len() as int)
            } else {
                commands
            },
        ),
{
    let (w, c, d) = choose|w: Seq<World>, c: Seq<bool>, d: Seq<bool>| #[trigger]
        received_along(a, m, done, now, w, c, d) && changed == c.contains(true) && commands
            == command_places(w, d);
    let w1 = w.push(b);
    let c1 = c.push(c2);
    let d1 = d.push(d2);
    let ops = done.push(op);
    assert forall|i: int| 0 <= i < ops.len() implies receive_step(
        w1[i],
        w1[i + 1],
        ops[i],
        now,
        #[trigger] c1[i],
        d1[i],
    ) by {
        if i < done.len() {
            assert(c1[i] == c[i]);
        }
    }
    assert(received_along(a, b, ops, now, w1, c1, d1));
    assert(c1.contains(true) == (c.contains(true) || c2)) by {
        if c.contains(true) {
            let i = choose|i: int| 0 <= i < c.len() && c[i] == true;
            assert(c1[i] == true);
        }
        if c2 {
            assert(c1[c.len() as int] == true);
        }
        if c1.contains(true) {
            let i = choose|i: int| 0 <= i < c1.len() && c1[i] == true;
            if i < c.len() {
                assert(c[i] == true);
            }
        }
    }
    lemma_command_places(w, w1, d);
    assert(d1.drop_last() =~= d);
}

pub open spec fn places(v: Seq<usize>) -> Seq<int> {
    v.map_values(|i: usize| i as int)
}

pub proof fn lemma_op_room(a: World, b: World, op: SyncOpWire, now: i64, changed: bool, delivered: bool)
    requires
        op_step(a, b, op, now, changed, delivered),
    ensures
        next_playlist_id(b.library.playlists@) <= next_playlist_id(a.library.playlists@) + 1,
{
    match op.payload {
        crate::devices::model::SyncOpPayload::PlaylistCreated { playlist_id, title } => {
            lemma_playlist_room(a, b, playlist_id@, title@, false, op.hlc_ms, op.op_id@, changed);
        },
        crate::devices::model::SyncOpPayload::PlaylistRenamed { playlist_id, title } => {
            lemma_playlist_room(a, b, playlist_id@, title@, false, op.hlc_ms, op.op_id@, changed);
        },
        crate::devices::model::SyncOpPayload::PlaylistDeleted { playlist_id } => {
            lemma_playlist_room(
                a,
                b,
                playlist_id@,
                Seq::empty(),
                true,
                op.hlc_ms,
                op.op_id@,
                changed,
            );
        },
        _ => {},
    }
}

pub proof fn lemma_playlist_room(
    a: World,
    b: World,
    playlist_id: Seq<char>,
    title: Seq<char>,
    deleted: bool,
    hlc: i64,
    op: Seq<char>,
    changed: bool,
)
    requires
        playlist_step(a, b, playlist_id, title, deleted, hlc, op, changed),
    ensures
        next_playlist_id(b.library.playlists@) <= next_playlist_id(a.library.playlists@) + 1,
        deleted ==> next_playlist_id(b.library.playlists@) <= next_playlist_id(
            a.library.playlists@,
        ),
{
    if b.library != a.library {
        lemma_room(a.library, b.library, playlist_id, title);
        if deleted {
            crate::library::playlists::lemma_next_id_of_fewer(
                a.library.playlists@,
                crate::library::playlists::lacks_sync_id(playlist_id),
            );
        }
    }
}

impl DeviceSync {
    /// Whether an operation is known, by its id.
    pub fn knows_op(&self, op_id: &str) -> (r: bool)
        ensures
            r == (first_where(self.ops@, is_op(op_id@)) is Some),
    {
        let f = |row: &OpRow| -> (b: bool)
            ensures
                b == is_op(op_id@)(*row),
            { same(row.op.op_id.as_str(), op_id) };
        let found = find_by(&self.ops, f, Ghost(is_op(op_id@)));
        found.is_some()
    }

    /// Notes the last operation that is known of a device.
    pub(crate) fn note_seq(&mut self, device_id: &str, seq: i64)
        ensures
            final(self).vectors@ == bumped(old(self).vectors@, device_id@, seq),
            *final(self) == (DeviceSync { vectors: final(self).vectors, ..*old(self) }),
    {
        let newer = match self.vectors.get(device_id) {
            Some(n) => *n < seq,
            None => true,
        };
        if newer {
            self.vectors.set(device_id, seq);
        }
    }

    /// Takes one received operation.
    fn receive(&mut self, library: &mut Library, op: SyncOpWire, now_ms: i64) -> (r: (bool, bool))
        requires
            has_room(*old(library), 0),
        ensures
            receive_step(
                World { sync: *old(self), library: *old(library) },
                World { sync: *final(self), library: *final(library) },
                op,
                now_ms,
                r.0,
                r.1,
            ),
    {
        if !self.should_accept_op(&op) {
            return (false, false);
        }
        if self.knows_op(op.op_id.as_str()) {
            self.note_seq(op.origin_device_id.as_str(), op.seq);
            return (false, false);
        }
        let r = self.apply_op(library, &op, now_ms);
        self.note_seq(op.origin_device_id.as_str(), op.seq);
        self.ops.push(OpRow { op, received_at_ms: now_ms });
        r
    }

    /// Takes received operations; gives whether anything that is shown
    /// changed, and the places of the operations whose playback command is to
    /// be carried out now.
    pub fn apply_ops(&mut self, library: &mut Library, ops: Vec<SyncOpWire>, now_ms: i64) -> (r: (
        bool,
        Vec<usize>,
    ))
        requires
            has_room(*old(library), ops@.len() as int),
        ensures
            receives(
                World { sync: *old(self), library: *old(library) },
                World { sync: *final(self), library: *final(library) },
                ops@,
                now_ms,
                r.0,
                places(r.1@),
            ),
            next_playlist_id(final(library).playlists@) <= next_playlist_id(
                old(library).playlists@,
            ) + ops@.len(),
    {
        let ghost start = World { sync: *self, library: *library };
        let ghost all = ops@;
        let size: usize = ops.len();
        let mut rest = ops;
        let mut changed = false;
        let mut commands: Vec<usize> = Vec::new();
        let mut i: usize = 0;
        proof {
            assert(places(commands@) =~= Seq::<int>::empty());
            assert(all.take(0) =~= Seq::empty());
            assert(all.skip(0) =~= all);
            lemma_receives_none(start, now_ms);
        }
        while i < size
            invariant
                i <= size,
                size == all.len(),
                rest@ == all.skip(i as int),
                next_playlist_id(library.playlists@) <= next_playlist_id(
                    start.library.playlists@,
                ) + i,
                has_room(start.library, size as int),
                receives(
                    start,
                    World { sync: *self, library: *library },
                    all.take(i as int),
                    now_ms,
                    changed,
                    places(commands@),
                ),
            decreases size - i,
        {
            let ghost m = World { sync: *self, library: *library };
            let ghost c = changed;
            let ghost k = places(commands@);
            let op = rest.remove(0);
            proof {
                assert(op == all[i as int]);
                assert(rest@ =~= all.skip(i + 1));
            }
            let place: usize = self.ops.len();
            let (c2, d) = self.receive(library, op, now_ms);
            changed = changed || c2;
            if d {
                commands.push(place);
                proof {
                    assert(places(commands@) =~= k.push(place as int));
                }
            }
            proof {
                let b = World { sync: *self, library: *library };
                lemma_receives_one_more(
                    start,
                    m,
                    b,
                    all.take(i as int),
                    op,
                    now_ms,
                    c,
                    k,
                    c2,
                    d,
                );
                assert(all.take(i + 1) =~= all.take(i as int).push(op));
                if receive_step(m, b, op, now_ms, c2, d) && accepts(
                    m.sync.devices@,
                    m.sync.device_id@,
                    op.origin_device_id@,
                    op.seq,
                ) && first_where(m.sync.ops@, is_op(op.op_id@)) is None {
                    lemma_op_room(
                        m,
                        World {
                            sync: DeviceSync { ops: m.sync.ops, vectors: m.sync.vectors, ..b.sync },
                            library: b.library,
                        },
                        op,
                        now_ms,
                        c2,
                        d,
                    );
                }
            }
            i += 1;
        }
        proof {
            assert(all.take(size as int) =~= all);
        }
        (changed, commands)
    }
}

// ---------------------------------------------------------------------------
// The whole state of another device
// ---------------------------------------------------------------------------

/// One thing that the state of another device says.
pub enum Entry {
    Like {
        content_id: Seq<char>,
        liked: bool,
        fed: Option<FedTrackView>,
        hlc: i64,
        op: Seq<char>,
    },
    Playlist { playlist_id: Seq<char>, title: Seq<char>, deleted: bool, hlc: i64, op: Seq<char> },
    Item {
        playlist_id: Seq<char>,
        content_id: Seq<char>,
        present: bool,
        position: i64,
        fed: Option<FedTrackView>,
        hlc: i64,
        op: Seq<char>,
    },
}

/// What an entry does.
pub open spec fn entry_step(a: World, b: World, e: Entry, changed: bool) -> bool {
    match e {
        Entry::Like { content_id, liked, fed, hlc, op } => like_step(
            a,
            b,
            content_id,
            liked,
            fed,
            hlc,
            op,
            changed,
        ),
        Entry::Playlist { playlist_id, title, deleted, hlc, op } => playlist_step(
            a,
            b,
            playlist_id,
            title,
            deleted,
            hlc,
            op,
            changed,
        ),
        Entry::Item { playlist_id, content_id, present, position, fed, hlc, op } => item_step(
            a,
            b,
            playlist_id,
            content_id,
            present,
            position,
            fed,
            hlc,
            op,
            changed,
        ),
    }
}

/// The way from one state to another through several entries: the states in
/// between and what each entry changed.
pub open spec fn taken_along(
    a: World,
    b: World,
    entries: Seq<Entry>,
    w: Seq<World>,
    c: Seq<bool>,
) -> bool {
    &&& w.len() == entries.len() + 1
    &&& c.len() == entries.len()
    &&& w[0] == a
    &&& w.last() == b
    &&& forall|i: int|
        0 <= i < entries.len() ==> entry_step(w[i], w[i + 1], entries[i], #[trigger] c[i])
}

/// What several entries do, in order: something changed if one of them
/// changed something.
pub open spec fn takes(a: World, b: World, entries: Seq<Entry>, changed: bool) -> bool {
    exists|w: Seq<World>, c: Seq<bool>| #[trigger]
        taken_along(a, b, entries, w, c) && changed == c.contains(true)
}

pub open spec fn like_entry(l: SnapshotLike) -> Entry {
    Entry::Like {
        content_id: l.content_id@,
        liked: true,
        fed: synced_view(l.fed),
        hlc: l.hlc_ms,
        op: l.op_id@,
    }
}

pub open spec fn unlike_entry(l: SnapshotLikeTombstone) -> Entry {
    Entry::Like {
        content_id: l.content_id@,
        liked: false,
        fed: None,
        hlc: l.hlc_ms,
        op: l.op_id@,
    }
}

pub open spec fn playlist_entry(p: SnapshotPlaylist) -> Entry {
    Entry::Playlist {
        playlist_id: p.playlist_id@,
        title: p.title@,
        deleted: false,
        hlc: p.hlc_ms,
        op: p.op_id@,
    }
}

pub open spec fn deleted_entry(p: SnapshotPlaylistTombstone) -> Entry {
    Entry::Playlist {
        playlist_id: p.playlist_id@,
        title: Seq::empty(),
        deleted: true,
        hlc: p.hlc_ms,
        op: p.op_id@,
    }
}

pub open spec fn item_entry(playlist_id: Seq<char>, i: SnapshotPlaylistItem) -> Entry {
    Entry::Item {
        playlist_id,
        content_id: i.content_id@,
        present: true,
        position: i.position,
        fed: synced_view(i.fed),
        hlc: i.hlc_ms,
        op: i.op_id@,
    }
}

pub open spec fn removed_entry(i: SnapshotPlaylistItemTombstone) -> Entry {
    Entry::Item {
        playlist_id: i.playlist_id@,
        content_id: i.content_id@,
        present: false,
        position: 0,
        fed: None,
        hlc: i.hlc_ms,
        op: i.op_id@,
    }
}

pub open spec fn like_entries(s: Seq<SnapshotLike>) -> Seq<Entry> {
    s.map_values(|l: SnapshotLike| like_entry(l))
}

pub open spec fn unlike_entries(s: Seq<SnapshotLikeTombstone>) -> Seq<Entry> {
    s.map_values(|l: SnapshotLikeTombstone| unlike_entry(l))
}

pub open spec fn item_entries(playlist_id: Seq<char>, s: Seq<SnapshotPlaylistItem>) -> Seq<Entry> {
    s.map_values(|i: SnapshotPlaylistItem| item_entry(playlist_id, i))
}

/// The playlists, each followed by its items.
pub open spec fn playlist_entries(s: Seq<SnapshotPlaylist>) -> Seq<Entry>
    decreases s.len(),
{
    if s.len() == 0 {
        Seq::empty()
    } else {
        let p = s.last();
        playlist_entries(s.drop_last()).push(playlist_entry(p)) + item_entries(
            p.playlist_id@,
            p.items@,
        )
    }
}

pub open spec fn deleted_entries(s: Seq<SnapshotPlaylistTombstone>) -> Seq<Entry> {
    s.map_values(|p: SnapshotPlaylistTombstone| deleted_entry(p))
}

pub open spec fn removed_entries(s: Seq<SnapshotPlaylistItemTombstone>) -> Seq<Entry> {
    s.map_values(|i: SnapshotPlaylistItemTombstone| removed_entry(i))
}

/// All that the state of another device says, in the order in which it is
/// taken over.
pub open spec fn snapshot_entries(s: SyncSnapshot) -> Seq<Entry> {
    like_entries(s.likes@) + unlike_entries(s.unlikes@) + playlist_entries(s.playlists@)
        + deleted_entries(s.deleted_playlists@) + removed_entries(s.removed_playlist_items@)
}

proof fn lemma_takes_none(a: World)
    ensures
        takes(a, a, Seq::empty(), false),
{
    let w = seq![a];
    let c = Seq::<bool>::empty();
    assert(taken_along(a, a, Seq::empty(), w, c));
}

proof fn lemma_takes_one_more(
    a: World,
    m: World,
    b: World,
    done: Seq<Entry>,
    e: Entry,
    changed: bool,
    c2: bool,
)
    requires
        takes(a, m, done, changed),
        entry_step(m, b, e, c2),
    ensures
        takes(a, b, done.push(e), changed || c2),
{
    let (w, c) = choose|w: Seq<World>, c: Seq<bool>| #[trigger]
        taken_along(a, m, done, w, c) && changed == c.contains(true);
    let w1 = w.push(b);
    let c1 = c.push(c2);
    let entries = done.push(e);
    assert forall|i: int| 0 <= i < entries.len() implies entry_step(
        w1[i],
        w1[i + 1],
        entries[i],
        #[trigger] c1[i],
    ) by {
        if i < done.len() {
            assert(c1[i] == c[i]);
        }
    }
    assert(taken_along(a, b, entries, w1, c1));
    assert(c1.contains(true) == (c.contains(true) || c2)) by {
        if c.contains(true) {
            let i = choose|i: int| 0 <= i < c.len() && c[i] == true;
            assert(c1[i] == true);
        }
        if c2 {
            assert(c1[c.len() as int] == true);
        }
        if c1.contains(true) {
            let i = choose|i: int| 0 <= i < c1.len() && c1[i] == true;
            if i < c.len() {
                assert(c[i] == true);
            }
        }
    }
}

impl DeviceSync {
    /// Takes over the whole state of another device: of everything that both
    /// know, what is later holds. Gives whether anything that is shown
    /// changed.
    pub fn apply_snapshot(&mut self, library: &mut Library, snapshot: &SyncSnapshot) -> (changed: bool)
        requires
            has_room(*old(library), snapshot.playlists@.len() as int),
        ensures
            takes(
                World { sync: *old(self), library: *old(library) },
                World { sync: *final(self), library: *final(library) },
                snapshot_entries(*snapshot),
                changed,
            ),
            next_playlist_id(final(library).playlists@) <= next_playlist_id(
                old(library).playlists@,
            ) + snapshot.playlists@.len(),
    {
        let ghost start = World { sync: *self, library: *library };
        let mut changed = false;
        let ghost mut done: Seq<Entry> = Seq::empty();
        let likes = &snapshot.likes;
        let mut i: usize = 0;
        proof {
            assert(done =~= like_entries(likes@.take(0)));
            lemma_takes_none(start);
        }
        while i < likes.len()
            invariant
                i <= likes@.len(),
                library.playlists == start.library.playlists,
                done == like_entries(likes@.take(i as int)),
                takes(start, World { sync: *self, library: *library }, done, changed),
            decreases likes@.len() - i,
        {
            let ghost m = World { sync: *self, library: *library };
            let ghost c = changed;
            let l = &likes[i];
            let c2 = self.apply_like_state(
                library,
                l.content_id.as_str(),
                true,
                &l.fed,
                l.hlc_ms,
                l.op_id.as_str(),
            );
            changed = changed || c2;
            proof {
                lemma_takes_one_more(
                    start,
                    m,
                    World { sync: *self, library: *library },
                    done,
                    like_entry(*l),
                    c,
                    c2,
                );
                done = done.push(like_entry(*l));
                assert(done =~= like_entries(likes@.take(i + 1)));
            }
            i += 1;
        }
        proof {
            assert(likes@.take(likes@.len() as int) =~= likes@);
        }
        let ghost base = done;
        let unlikes = &snapshot.unlikes;
        let mut i: usize = 0;
        proof {
            assert(done =~= base + unlike_entries(unlikes@.take(0)));
        }
        while i < unlikes.len()
            invariant
                i <= unlikes@.len(),
                library.playlists == start.library.playlists,
                done == base + unlike_entries(unlikes@.take(i as int)),
                takes(start, World { sync: *self, library: *library }, done, changed),
            decreases unlikes@.len() - i,
        {
            let ghost m = World { sync: *self, library: *library };
            let ghost c = changed;
            let l = &unlikes[i];
            let c2 = self.apply_like_state(
                library,
                l.content_id.as_str(),
                false,
                &None,
                l.hlc_ms,
                l.op_id.as_str(),
            );
            changed = changed || c2;
            proof {
                lemma_takes_one_more(
                    start,
                    m,
                    World { sync: *self, library: *library },
                    done,
                    unlike_entry(*l),
                    c,
                    c2,
                );
                done = done.push(unlike_entry(*l));
                assert(done =~= base + unlike_entries(unlikes@.take(i + 1)));
            }
            i += 1;
        }
        proof {
            assert(unlikes@.take(unlikes@.len() as int) =~= unlikes@);
        }
        let ghost base = done;
        let playlists = &snapshot.playlists;
        let mut i: usize = 0;
        proof {
            assert(done =~= base + playlist_entries(playlists@.take(0)));
        }
        while i < playlists.len()
            invariant
                i <= playlists@.len(),
                has_room(start.library, playlists@.len() as int),
                next_playlist_id(library.playlists@) <= next_playlist_id(
                    start.library.playlists@,
                ) + i,
                done == base + playlist_entries(playlists@.take(i as int)),
                takes(start, World { sync: *self, library: *library }, done, changed),
            decreases playlists@.len() - i,
        {
            let ghost m = World { sync: *self, library: *library };
            let ghost c = changed;
            let p = &playlists[i];
            let c2 = self.apply_playlist_state(
                library,
                p.playlist_id.as_str(),
                p.title.as_str(),
                false,
                p.hlc_ms,
                p.op_id.as_str(),
            );
            changed = changed || c2;
            proof {
                let b = World { sync: *self, library: *library };
                lemma_takes_one_more(start, m, b, done, playlist_entry(*p), c, c2);
                lemma_playlist_room(
                    m,
                    b,
                    p.playlist_id@,
                    p.title@,
                    false,
                    p.hlc_ms,
                    p.op_id@,
                    c2,
                );
                done = done.push(playlist_entry(*p));
            }
            let ghost head = done;
            let items = &p.items;
            let mut j: usize = 0;
            proof {
                assert(done =~= head + item_entries(p.playlist_id@, items@.take(0)));
            }
            while j < items.len()
                invariant
                    j <= items@.len(),
                    i < playlists@.len(),
                    next_playlist_id(library.playlists@) <= next_playlist_id(
                        start.library.playlists@,
                    ) + i + 1,
                    done == head + item_entries(p.playlist_id@, items@.take(j as int)),
                    takes(start, World { sync: *self, library: *library }, done, changed),
                decreases items@.len() - j,
            {
                let ghost m = World { sync: *self, library: *library };
                let ghost c = changed;
                let item = &items[j];
                let c2 = self.apply_playlist_item_state(
                    library,
                    p.playlist_id.as_str(),
                    item.content_id.as_str(),
                    true,
                    item.position,
                    &item.fed,
                    item.hlc_ms,
                    item.op_id.as_str(),
                );
                changed = changed || c2;
                proof {
                    lemma_takes_one_more(
                        start,
                        m,
                        World { sync: *self, library: *library },
                        done,
                        item_entry(p.playlist_id@, *item),
                        c,
                        c2,
                    );
                    done = done.push(item_entry(p.playlist_id@, *item));
                    assert(done =~= head + item_entries(p.playlist_id@, items@.take(j + 1)));
                }
                j += 1;
            }
            proof {
                assert(items@.take(items@.len() as int) =~= items@);
                assert(playlists@.take(i + 1).drop_last() =~= playlists@.take(i as int));
                assert(done =~= base + playlist_entries(playlists@.take(i + 1)));
            }
            i += 1;
        }
        proof {
            assert(playlists@.take(playlists@.len() as int) =~= playlists@);
        }
        let ghost base = done;
        let deleted = &snapshot.deleted_playlists;
        let mut i: usize = 0;
        proof {
            assert(done =~= base + deleted_entries(deleted@.take(0)));
            reveal_strlit("");
            assert(""@ =~= Seq::<char>::empty());
        }
        while i < deleted.len()
            invariant
                i <= deleted@.len(),
                ""@ == Seq::<char>::empty(),
                next_playlist_id(library.playlists@) <= i64::MAX,
                next_playlist_id(library.playlists@) <= next_playlist_id(
                    start.library.playlists@,
                ) + playlists@.len(),
                done == base + deleted_entries(deleted@.take(i as int)),
                takes(start, World { sync: *self, library: *library }, done, changed),
            decreases deleted@.len() - i,
        {
            let ghost m = World { sync: *self, library: *library };
            let ghost c = changed;
            let p = &deleted[i];
            let c2 = self.apply_playlist_state(
                library,
                p.playlist_id.as_str(),
                "",
                true,
                p.hlc_ms,
                p.op_id.as_str(),
            );
            changed = changed || c2;
            proof {
                let b = World { sync: *self, library: *library };
                lemma_takes_one_more(start, m, b, done, deleted_entry(*p), c, c2);
                lemma_playlist_room(
                    m,
                    b,
                    p.playlist_id@,
                    Seq::empty(),
                    true,
                    p.hlc_ms,
                    p.op_id@,
                    c2,
                );
                done = done.push(deleted_entry(*p));
                assert(done =~= base + deleted_entries(deleted@.take(i + 1)));
            }
            i += 1;
        }
        proof {
            assert(deleted@.take(deleted@.len() as int) =~= deleted@);
        }
        let ghost base = done;
        let removed = &snapshot.removed_playlist_items;
        let mut i: usize = 0;
        proof {
            assert(done =~= base + removed_entries(removed@.take(0)));
        }
        while i < removed.len()
            invariant
                i <= removed@.len(),
                next_playlist_id(library.playlists@) <= next_playlist_id(
                    start.library.playlists@,
                ) + playlists@.len(),
                done == base + removed_entries(removed@.take(i as int)),
                takes(start, World { sync: *self, library: *library }, done, changed),
            decreases removed@.len() - i,
        {
            let ghost m = World { sync: *self, library: *library };
            let ghost c = changed;
            let item = &removed[i];
            let c2 = self.apply_playlist_item_state(
                library,
                item.playlist_id.as_str(),
                item.content_id.as_str(),
                false,
                0,
                &None,
                item.hlc_ms,
                item.op_id.as_str(),
            );
            changed = changed || c2;
            proof {
                lemma_takes_one_more(
                    start,
                    m,
                    World { sync: *self, library: *library },
                    done,
                    removed_entry(*item),
                    c,
                    c2,
                );
                done = done.push(removed_entry(*item));
                assert(done =~= base + removed_entries(removed@.take(i + 1)));
            }
            i += 1;
        }
        proof {
            assert(removed@.take(removed@.len() as int) =~= removed@);
        }
        changed
    }
}

/// What a message from another device does: its state is taken over, then its
/// operations.
pub open spec fn takes_in(
    a: World,
    b: World,
    snapshot: SyncSnapshot,
    ops: Seq<SyncOpWire>,
    now: i64,
    changed: bool,
    commands: Seq<int>,
) -> bool {
    exists|x: World, c1: bool, c2: bool| #[trigger]
        takes(a, x, snapshot_entries(snapshot), c1) && #[trigger] receives(
            x,
            b,
            ops,
            now,
            c2,
            commands,
        ) && changed == (c1 || c2)
}

impl DeviceSync {
    /// Takes over the state and the operations of another device.
    pub fn take_in(
        &mut self,
        library: &mut Library,
        snapshot: &SyncSnapshot,
        ops: Vec<SyncOpWire>,
        now_ms: i64,
    ) -> (r: (bool, Vec<usize>))
        requires
            has_room(*old(library), (snapshot.playlists@.len() + ops@.len()) as int),
        ensures
            takes_in(
                World { sync: *old(self), library: *old(library) },
                World { sync: *final(self), library: *final(library) },
                *snapshot,
                ops@,
                now_ms,
                r.0,
                places(r.1@),
            ),
            next_playlist_id(final(library).playlists@) <= next_playlist_id(
                old(library).playlists@,
            ) + snapshot.playlists@.len() + ops@.len(),
    {
        let ghost a = World { sync: *self, library: *library };
        let c1 = self.apply_snapshot(library, snapshot);
        let ghost x = World { sync: *self, library: *library };
        let ghost all = ops@;
        let (c2, commands) = self.apply_ops(library, ops, now_ms);
        proof {
            assert(takes(a, x, snapshot_entries(*snapshot), c1));
            assert(receives(
                x,
                World { sync: *self, library: *library },
                all,
                now_ms,
                c2,
                places(commands@),
            ));
        }
        (c1 || c2, commands)
    }
}

/// The number and the clock of a device are its own: nothing that is received
/// moves them.
pub proof fn lemma_receives_keeps_clock(
    a: World,
    b: World,
    ops: Seq<SyncOpWire>,
    now: i64,
    changed: bool,
    commands: Seq<int>,
)
    requires
        receives(a, b, ops, now, changed, commands),
    ensures
        b.sync.local_seq == a.sync.local_seq,
        b.sync.last_hlc_ms == a.sync.last_hlc_ms,
{
    let (w, c, d) = choose|w: Seq<World>, c: Seq<bool>, d: Seq<bool>| #[trigger]
        received_along(a, b, ops, now, w, c, d) && changed == c.contains(true) && commands
            == command_places(w, d);
    lemma_received_clock(a, b, ops, now, w, c, d, ops.len() as int);
}

proof fn lemma_received_clock(
    a: World,
    b: World,
    ops: Seq<SyncOpWire>,
    now: i64,
    w: Seq<World>,
    c: Seq<bool>,
    d: Seq<bool>,
    n: int,
)
    requires
        received_along(a, b, ops, now, w, c, d),
        0 <= n <= ops.len(),
    ensures
        w[n].sync.local_seq == a.sync.local_seq,
        w[n].sync.last_hlc_ms == a.sync.last_hlc_ms,
    decreases n,
{
    if n > 0 {
        lemma_received_clock(a, b, ops, now, w, c, d, n - 1);
        let i = n - 1;
        assert(receive_step(w[i], w[i + 1], ops[i], now, c[i], d[i]));
        match ops[i].payload {
            crate::devices::model::SyncOpPayload::TrackLikeSet { .. } => {},
            crate::devices::model::SyncOpPayload::PlaylistCreated { .. } => {},
            crate::devices::model::SyncOpPayload::PlaylistRenamed { .. } => {},
            crate::devices::model::SyncOpPayload::PlaylistDeleted { .. } => {},
            crate::devices::model::SyncOpPayload::PlaylistTrackAdded { .. } => {},
            crate::devices::model::SyncOpPayload::PlaylistTrackRemoved { .. } => {},
            crate::devices::model::SyncOpPayload::DeviceProfileSet { .. } => {},
            crate::devices::model::SyncOpPayload::DeviceTrusted { .. } => {},
            crate::devices::model::SyncOpPayload::DeviceRevoked { .. } => {},
            crate::devices::model::SyncOpPayload::PlaybackCommand { .. } => {},
        }
    }
}

/// Neither does the state of another device.
pub proof fn lemma_takes_keeps_clock(a: World, b: World, entries: Seq<Entry>, changed: bool)
    requires
        takes(a, b, entries, changed),
    ensures
        b.sync.local_seq == a.sync.local_seq,
        b.sync.last_hlc_ms == a.sync.last_hlc_ms,
{
    let (w, c) = choose|w: Seq<World>, c: Seq<bool>| #[trigger]
        taken_along(a, b, entries, w, c) && changed == c.contains(true);
    lemma_taken_clock(a, b, entries, w, c, entries.len() as int);
}

proof fn lemma_taken_clock(
    a: World,
    b: World,
    entries: Seq<Entry>,
    w: Seq<World>,
    c: Seq<bool>,
    n: int,
)
    requires
        taken_along(a, b, entries, w, c),
        0 <= n <= entries.len(),
    ensures
        w[n].sync.local_seq == a.sync.local_seq,
        w[n].sync.last_hlc_ms == a.sync.last_hlc_ms,
    decreases n,
{
    if n > 0 {
        lemma_taken_clock(a, b, entries, w, c, n - 1);
        let i = n - 1;
        assert(entry_step(w[i], w[i + 1], entries[i], c[i]));
    }
}

/// An operation is taken once: taking it again changes nothing, and its
/// playback command is not carried out again.
pub proof fn law_op_is_taken_once(
    a: World,
    b: World,
    c: World,
    op: SyncOpWire,
    now: i64,
    later: i64,
    changed: bool,
    delivered: bool,
    changed_again: bool,
    delivered_again: bool,
)
    requires
        receive_step(a, b, op, now, changed, delivered),
        accepts(a.sync.devices@, a.sync.device_id@, op.origin_device_id@, op.seq),
        receive_step(b, c, op, later, changed_again, delivered_again),
    ensures
        !changed_again,
        !delivered_again,
        c.library == b.library,
        c.sync.vectors@ == b.sync.vectors@,
        c.sync == (DeviceSync { vectors: c.sync.vectors, ..b.sync }),
{
    crate::lists::lemma_first_where(a.sync.ops@, is_op(op.op_id@));
    crate::lists::lemma_first_where(b.sync.ops@, is_op(op.op_id@));
    if first_where(a.sync.ops@, is_op(op.op_id@)) is None {
        assert(is_op(op.op_id@)(b.sync.ops@[a.sync.ops@.len() as int]));
    }
}

/// No two operations with the same id are kept.
pub open spec fn unique_ops(s: DeviceSync) -> bool {
    forall|i: int, j: int|
        0 <= i < s.ops@.len() && 0 <= j < s.ops@.len() && (#[trigger] s.ops@[i]).op.op_id@ == (
        #[trigger] s.ops@[j]).op.op_id@ ==> i == j
}

/// Receiving an operation keeps the ids unique.
pub proof fn law_receiving_keeps_ids_unique(
    a: World,
    b: World,
    op: SyncOpWire,
    now: i64,
    changed: bool,
    delivered: bool,
)
    requires
        unique_ops(a.sync),
        receive_step(a, b, op, now, changed, delivered),
    ensures
        unique_ops(b.sync),
{
    crate::lists::lemma_first_where(a.sync.ops@, is_op(op.op_id@));
    assert forall|i: int, j: int|
        0 <= i < b.sync.ops@.len() && 0 <= j < b.sync.ops@.len() && (
        #[trigger] b.sync.ops@[i]).op.op_id@ == (#[trigger] b.sync.ops@[j]).op.op_id@ implies i
        == j by {
        if first_where(a.sync.ops@, is_op(op.op_id@)) is None && accepts(
            a.sync.devices@,
            a.sync.device_id@,
            op.origin_device_id@,
            op.seq,
        ) {
            let n = a.sync.ops@.len();
            if i < n {
                assert(b.sync.ops@[i] == a.sync.ops@[i]);
                assert(j == n ==> is_op(op.op_id@)(a.sync.ops@[i]));
            }
            if j < n {
                assert(b.sync.ops@[j] == a.sync.ops@[j]);
                assert(i == n ==> is_op(op.op_id@)(a.sync.ops@[j]));
            }
        }
    }
}

} // verus!
