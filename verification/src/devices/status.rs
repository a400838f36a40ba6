//! What a person is shown of the group.

use crate::devices::gc::going;
use crate::devices::lww::{ItemState, LikeState, PlaylistState};
use crate::devices::model::{takes_away, DeviceStatusRow, DeviceSyncStatus};
use crate::devices::peers::{
    acked, active_count, is_trusted_entry, remote_devices, short_id, StoredDevice,
};
use crate::devices::snapshot::{
    is_item, is_like, is_playlist_entry,
};
use crate::devices::sync::{DeviceSync, OpRow, PairingAnswer, PendingRow};
use crate::devices::trust::{active, DeviceRow};
use crate::federation::track::first_chars;
use crate::keyed::Keyed;
use crate::library::playlists::is_referenced;
use crate::library::tables::Library;
use crate::lists::{count_by, count_where, retain_by, sort_by, stable_sorted};
use crate::text::{before, blank, is_blank, no_case_before_or_same, no_case_leq, opt_view, precedes, same, signed_text};
use vstd::prelude::*;

verus! {

pub open spec fn is_revoked_entry() -> spec_fn((String, DeviceRow)) -> bool {
    |e: (String, DeviceRow)| e.1.revoked_at_ms is Some
}

pub open spec fn is_waiting() -> spec_fn((String, PendingRow)) -> bool {
    |e: (String, PendingRow)| e.1.status == PairingAnswer::Pending
}

pub open spec fn is_tombstone_row() -> spec_fn(OpRow) -> bool {
    |r: OpRow| takes_away(r.op.payload)
}

/// The operations that some other device that takes part has not seen.
pub open spec fn is_outgoing(s: DeviceSync) -> spec_fn(OpRow) -> bool {
    |r: OpRow|
        exists|d: Seq<char>| #[trigger]
            active(s.devices@, d) && d != s.device_id@ && r.op.seq > acked(
                s.acks@,
                d,
                r.op.origin_device_id@,
            )
}

/// The entries of items that the library has no track for.
pub open spec fn is_unresolved(l: Library, playlist_id: Seq<char>) -> spec_fn((String, ItemState)) -> bool {
    |e: (String, ItemState)| e.1.present && !is_referenced(l, playlist_id, e.0@)
}

/// How many items of some playlists there are.
pub open spec fn present_total(items: Seq<(String, Keyed<ItemState>)>) -> nat
    decreases items.len(),
{
    if items.len() == 0 {
        0
    } else {
        present_total(items.drop_last()) + items.last().1.items().filter(is_item(true)).len()
    }
}

/// How many items of some playlists the library has no track for.
pub open spec fn unresolved_total(l: Library, items: Seq<(String, Keyed<ItemState>)>) -> nat
    decreases items.len(),
{
    if items.len() == 0 {
        0
    } else {
        let e = items.last();
        unresolved_total(l, items.drop_last()) + e.1.items().filter(is_unresolved(l, e.0@)).len()
    }
}

/// All numbers that other devices have seen.
pub open spec fn all_acks(acks: Seq<(String, Keyed<i64>)>) -> Seq<i64>
    decreases acks.len(),
{
    if acks.len() == 0 {
        Seq::empty()
    } else {
        all_acks(acks.drop_last()) + acks.last().1.items().map_values(|e: (String, i64)| e.1)
    }
}

pub open spec fn least(s: Seq<i64>) -> i64
    decreases s.len(),
{
    if s.len() <= 1 {
        s[0]
    } else if least(s.drop_last()) <= s.last() {
        least(s.drop_last())
    } else {
        s.last()
    }
}

pub open spec fn largest(s: Seq<i64>) -> i64
    decreases s.len(),
{
    if s.len() <= 1 {
        s[0]
    } else if largest(s.drop_last()) >= s.last() {
        largest(s.drop_last())
    } else {
        s.last()
    }
}

/// How far behind the others are, in words.
pub open spec fn ack_floor(acks: Seq<i64>) -> Seq<char> {
    if acks.len() == 0 {
        "none"@
    } else {
        crate::text::signed_decimal(least(acks) as int) + ".."@ + crate::text::signed_decimal(
            largest(acks) as int,
        ) + " ("@ + crate::text::decimal(acks.len()) + " acks)"@
    }
}

/// A device as it is shown.
pub open spec fn shown_device(own: Seq<char>, e: (String, DeviceRow)) -> DeviceStatusRow {
    DeviceStatusRow {
        device_id: e.0,
        name: e.1.name,
        client_version: e.1.client_version,
        endpoint_id: e.1.endpoint_id,
        last_seen_ms: e.1.last_seen_ms,
        revoked: e.1.revoked_at_ms is Some,
        is_self: e.0@ == own,
    }
}

/// Those that take part come first; then by name and id.
pub open spec fn shown_order() -> spec_fn(DeviceStatusRow, DeviceStatusRow) -> bool {
    |a: DeviceStatusRow, b: DeviceStatusRow|
        if a.revoked != b.revoked {
            b.revoked
        } else if no_case_leq(a.name@, b.name@) && no_case_leq(b.name@, a.name@) {
            !precedes(b.device_id@, a.device_id@)
        } else {
            no_case_leq(a.name@, b.name@)
        }
}

/// The devices as they are shown.
pub open spec fn shown_devices(s: DeviceSync) -> Seq<DeviceStatusRow> {
    stable_sorted(
        s.devices.items().filter(is_trusted_entry()).map_values(
            |e: (String, DeviceRow)| shown_device(s.device_id@, e),
        ),
        shown_order(),
    )
}

/// What a person is shown of the group.
pub open spec fn shows(s: DeviceSync, l: Library, r: DeviceSyncStatus) -> bool {
    &&& r.this_device_id@ == s.device_id@
    &&& r.this_device_name@ == s.name@
    &&& r.group_id@ == s.group_id@
    &&& r.active_devices == active_count(s)
    &&& r.revoked_devices == s.devices.items().filter(is_revoked_entry()).len()
    &&& r.pending_requests == s.pending.items().filter(is_waiting()).len()
    &&& r.ops_total == s.ops@.len()
    &&& r.tombstone_ops == count_where(s.ops@, is_tombstone_row())
    &&& r.compactable_tombstones == going(s).len()
    &&& r.outbox_ops == count_where(s.ops@, is_outgoing(s))
    &&& r.snapshot_likes == s.likes.items().filter(is_like(true)).len()
    &&& r.snapshot_playlists == s.playlists.items().filter(is_playlist_entry(false)).len()
    &&& r.snapshot_items == present_total(s.items.items())
    &&& r.unresolved_playlist_items == unresolved_total(l, s.items.items())
    &&& r.peer_ack_floor@ == ack_floor(all_acks(s.acks.items()))
    &&& opt_view(r.last_sync) == opt_view(s.last_sync)
    &&& opt_view(r.last_error) == opt_view(s.last_error)
    &&& r.devices@ == shown_devices(s)
}

/// The devices that are synchronised with.
pub open spec fn lists_targets(s: DeviceSync, r: Seq<StoredDevice>) -> bool {
    r == remote_devices(s, false).filter(is_reachable())
}

impl DeviceSync {
    fn outgoing(&self, r: &OpRow) -> (b: bool)
        ensures
            b == is_outgoing(*self)(*r),
    {
        let n: usize = self.devices.len();
        let mut i: usize = 0;
        while i < n
            invariant
                i <= n,
                n == self.devices.items().len(),
                forall|k: int|
                    0 <= k < i && active(self.devices@, (#[trigger] self.devices.items()[k]).0@)
                        && self.devices.items()[k].0@ != self.device_id@ ==> r.op.seq <= acked(
                        self.acks@,
                        self.devices.items()[k].0@,
                        r.op.origin_device_id@,
                    ),
            decreases n - i,
        {
            let (id, d) = self.devices.at(i);
            if d.trusted_at_ms.is_some() && d.revoked_at_ms.is_none() && !same(
                id.as_str(),
                self.device_id.as_str(),
            ) {
                if r.op.seq > self.ack(id.as_str(), r.op.origin_device_id.as_str()) {
                    proof {
                        assert(active(self.devices@, id@));
                    }
                    return true;
                }
            }
            i += 1;
        }
        proof {
            assert forall|d: Seq<char>| #[trigger] active(self.devices@, d) && d
                != self.device_id@ implies r.op.seq <= acked(
                self.acks@,
                d,
                r.op.origin_device_id@,
            ) by {
                self.devices.lemma_entry_of(d);
            }
        }
        false
    }

    fn item_counts(&self, library: &Library) -> (r: (usize, usize))
        requires
            present_total(self.items.items()) <= usize::MAX,
        ensures
            r.0 == present_total(self.items.items()),
            r.1 == unresolved_total(*library, self.items.items()),
    {
        let ghost all = self.items.items();
        let n: usize = self.items.len();
        let mut present: usize = 0;
        let mut unresolved: usize = 0;
        let mut i: usize = 0;
        while i < n
            invariant
                i <= n,
                all == self.items.items(),
                n == all.len(),
                present_total(all) <= usize::MAX,
                present == present_total(all.take(i as int)),
                unresolved == unresolved_total(*library, all.take(i as int)),
                unresolved <= present,
            decreases n - i,
        {
            proof {
                assert(all.take(i + 1).drop_last() =~= all.take(i as int));
                lemma_present_grows(all, i + 1);
            }
            let (id, table) = self.items.at(i);
            let f = |e: &(String, ItemState)| -> (b: bool)
                ensures
                    b == is_item(true)(*e),
                { e.1.present };
            let a = table.count(f, Ghost(is_item(true)));
            let g = |e: &(String, ItemState)| -> (b: bool)
                ensures
                    b == is_unresolved(*library, id@)(*e),
                {
                    e.1.present && !library.has_playlist_content_reference(
                        id.as_str(),
                        e.0.as_str(),
                    )
                };
            let c = table.count(g, Ghost(is_unresolved(*library, id@)));
            proof {
                lemma_fewer(table.items(), is_unresolved(*library, id@), is_item(true));
            }
            present = present + a;
            unresolved = unresolved + c;
            i += 1;
        }
        proof {
            assert(all.take(n as int) =~= all);
        }
        (present, unresolved)
    }

    fn ack_numbers(&self) -> (r: Vec<i64>)
        ensures
            r@ == all_acks(self.acks.items()),
    {
        let ghost all = self.acks.items();
        let n: usize = self.acks.len();
        let mut out: Vec<i64> = Vec::new();
        let mut i: usize = 0;
        while i < n
            invariant
                i <= n,
                all == self.acks.items(),
                n == all.len(),
                out@ == all_acks(all.take(i as int)),
            decreases n - i,
        {
            let (_, table) = self.acks.at(i);
            let ghost base = out@;
            let ghost items = table.items();
            let m: usize = table.len();
            let mut j: usize = 0;
            proof {
                assert(out@ =~= base + items.take(0).map_values(|e: (String, i64)| e.1));
            }
            while j < m
                invariant
                    j <= m,
                    items == table.items(),
                    m == items.len(),
                    out@ == base + items.take(j as int).map_values(|e: (String, i64)| e.1),
                decreases m - j,
            {
                let (_, v) = table.at(j);
                out.push(*v);
                proof {
                    assert(out@ =~= base + items.take(j + 1).map_values(|e: (String, i64)| e.1));
                }
                j += 1;
            }
            proof {
                assert(items.take(m as int) =~= items);
                assert(all.take(i + 1).drop_last() =~= all.take(i as int));
            }
            i += 1;
        }
        proof {
            assert(all.take(n as int) =~= all);
        }
        out
    }

    fn shown(&self) -> (r: Vec<DeviceStatusRow>)
        ensures
            r@ == shown_devices(*self),
    {
        let mut out: Vec<DeviceStatusRow> = Vec::new();
        let n: usize = self.devices.len();
        let mut i: usize = 0;
        let ghost items = self.devices.items();
        let ghost p = is_trusted_entry();
        let ghost own = self.device_id@;
        let ghost g = |e: (String, DeviceRow)| shown_device(own, e);
        proof {
            reveal(Seq::filter);
            assert(out@ =~= items.take(0).filter(p).map_values(g));
        }
        while i < n
            invariant
                i <= n,
                own == self.device_id@,
                items == self.devices.items(),
                n == items.len(),
                p == is_trusted_entry(),
                g == (|e: (String, DeviceRow)| shown_device(own, e)),
                out@ == items.take(i as int).filter(p).map_values(g),
            decreases n - i,
        {
            proof {
                reveal(Seq::filter);
                assert(items.take(i + 1).drop_last() =~= items.take(i as int));
            }
            let (k, d) = self.devices.at(i);
            if d.trusted_at_ms.is_some() {
                let row = DeviceStatusRow {
                    device_id: k.clone(),
                    name: d.name.clone(),
                    client_version: d.client_version.clone(),
                    endpoint_id: d.endpoint_id.clone(),
                    last_seen_ms: d.last_seen_ms,
                    revoked: d.revoked_at_ms.is_some(),
                    is_self: same(k.as_str(), self.device_id.as_str()),
                };
                proof {
                    assert(row == shown_device(own, items[i as int]));
                }
                out.push(row);
            }
            proof {
                assert(out@ =~= items.take(i + 1).filter(p).map_values(g));
            }
            i += 1;
        }
        proof {
            assert(items.take(n as int) =~= items);
            assert(items.filter(p).map_values(g) =~= items.filter(is_trusted_entry()).map_values(
                |e: (String, DeviceRow)| shown_device(self.device_id@, e),
            ));
        }
        let leq = |a: &DeviceStatusRow, b: &DeviceStatusRow| -> (r: bool)
            ensures
                r == shown_order()(*a, *b),
            {
                if a.revoked != b.revoked {
                    b.revoked
                } else {
                    let x = no_case_before_or_same(a.name.as_str(), b.name.as_str());
                    let y = no_case_before_or_same(b.name.as_str(), a.name.as_str());
                    if x && y {
                        !before(b.device_id.as_str(), a.device_id.as_str())
                    } else {
                        x
                    }
                }
            };
        sort_by(&mut out, leq, Ghost(shown_order()));
        out
    }

    /// What a person is shown of the group.
    pub fn status(&self, library: &Library) -> (r: DeviceSyncStatus)
        requires
            present_total(self.items.items()) <= usize::MAX,
        ensures
            shows(*self, *library, r),
    {
        let revoked = |e: &(String, DeviceRow)| -> (b: bool)
            ensures
                b == is_revoked_entry()(*e),
            { e.1.revoked_at_ms.is_some() };
        let waiting = |e: &(String, PendingRow)| -> (b: bool)
            ensures
                b == is_waiting()(*e),
            { e.1.status == PairingAnswer::Pending };
        let tombstone = |r: &OpRow| -> (b: bool)
            ensures
                b == is_tombstone_row()(*r),
            { r.op.payload.is_tombstone() };
        let outgoing = |r: &OpRow| -> (b: bool)
            ensures
                b == is_outgoing(*self)(*r),
            { self.outgoing(r) };
        let liked = |e: &(String, LikeState)| -> (b: bool)
            ensures
                b == is_like(true)(*e),
            { e.1.liked };
        let kept = |e: &(String, PlaylistState)| -> (b: bool)
            ensures
                b == is_playlist_entry(false)(*e),
            { !e.1.deleted };
        let (snapshot_items, unresolved_playlist_items) = self.item_counts(library);
        let compactable = self.compactable_tombstones();
        proof {
            assert(crate::lists::picked(self.ops@, compactable@).len() == compactable@.len());
        }
        DeviceSyncStatus {
            this_device_id: self.device_id.clone(),
            this_device_name: self.name.clone(),
            group_id: self.group_id.clone(),
            active_devices: self.active_device_count(),
            revoked_devices: self.devices.count(revoked, Ghost(is_revoked_entry())),
            pending_requests: self.pending.count(waiting, Ghost(is_waiting())),
            ops_total: self.ops.len(),
            tombstone_ops: count_by(&self.ops, tombstone, Ghost(is_tombstone_row())),
            compactable_tombstones: compactable.len(),
            outbox_ops: count_by(&self.ops, outgoing, Ghost(is_outgoing(*self))),
            snapshot_likes: self.likes.count(liked, Ghost(is_like(true))),
            snapshot_playlists: self.playlists.count(kept, Ghost(is_playlist_entry(false))),
            snapshot_items,
            unresolved_playlist_items,
            peer_ack_floor: floor_text(&self.ack_numbers()),
            last_sync: self.last_sync.clone(),
            last_error: self.last_error.clone(),
            devices: self.shown(),
        }
    }

    /// The other devices to talk to: those that can be reached.
    pub fn sync_targets(&self) -> (r: Vec<StoredDevice>)
        ensures
            lists_targets(*self, r@),
    {
        let mut out = self.active_remote_devices();
        let f = |d: &StoredDevice| -> (b: bool)
            ensures
                b == is_reachable()(*d),
            { !blank(d.endpoint_ticket.as_str()) };
        retain_by(&mut out, f, Ghost(is_reachable()));
        out
    }

    /// Notes that talking to a device failed.
    pub fn note_failure(&mut self, device_id: &str, error: &str)
        ensures
            final(self).last_error matches Some(t) && t@ == first_chars(device_id@, 10) + ": "@
                + error@,
            *final(self) == (DeviceSync { last_error: final(self).last_error, ..*old(self) }),
    {
        let mut message = short_id(device_id);
        message.append(": ");
        message.append(error);
        proof {
            assert(message@ =~= first_chars(device_id@, 10) + ": "@ + error@);
        }
        self.set_last_error(Some(message));
    }
}

pub open spec fn is_reachable() -> spec_fn(StoredDevice) -> bool {
    |d: StoredDevice| !is_blank(d.endpoint_ticket@)
}

fn floor_text(acks: &Vec<i64>) -> (r: String)
    ensures
        r@ == ack_floor(acks@),
{
    if acks.len() == 0 {
        return "none".to_owned();
    }
    let mut low: i64 = acks[0];
    let mut high: i64 = acks[0];
    let mut i: usize = 1;
    while i < acks.len()
        invariant
            1 <= i <= acks@.len(),
            low == least(acks@.take(i as int)),
            high == largest(acks@.take(i as int)),
        decreases acks@.len() - i,
    {
        proof {
            assert(acks@.take(i + 1).drop_last() =~= acks@.take(i as int));
        }
        if acks[i] < low {
            low = acks[i];
        }
        if acks[i] > high {
            high = acks[i];
        }
        i += 1;
    }
    proof {
        assert(acks@.take(acks@.len() as int) =~= acks@);
    }
    let mut out = signed_text(low);
    out.append("..");
    out.append(signed_text(high).as_str());
    out.append(" (");
    out.append(crate::text::decimal_text(acks.len() as u64).as_str());
    out.append(" acks)");
    proof {
        assert(out@ =~= ack_floor(acks@));
    }
    out
}

proof fn lemma_present_grows(items: Seq<(String, Keyed<ItemState>)>, i: int)
    requires
        0 <= i <= items.len(),
    ensures
        present_total(items.take(i)) <= present_total(items),
    decreases items.len() - i,
{
    if i < items.len() {
        assert(items.take(i + 1).drop_last() =~= items.take(i));
        lemma_present_grows(items, i + 1);
    } else {
        assert(items.take(i) =~= items);
    }
}

proof fn lemma_fewer<T>(s: Seq<T>, p: spec_fn(T) -> bool, q: spec_fn(T) -> bool)
    requires
        forall|x: T| p(x) ==> #[trigger] q(x),
    ensures
        s.filter(p).len() <= s.filter(q).len(),
    decreases s.len(),
{
    reveal(Seq::filter);
    if s.len() > 0 {
        lemma_fewer(s.drop_last(), p, q);
        assert(p(s.last()) ==> q(s.last()));
    }
}

} // verus!
