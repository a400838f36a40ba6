//! What a device tells others of the group and keeps of what they have seen.

use crate::devices::lww::{is_later, later};
use crate::devices::model::{
    DeviceProfileWire, PlaybackSnapshot, SyncOpPayload, SyncOpWire, MAX_OPS_PER_BATCH,
    PROTOCOL_VERSION,
};
use crate::devices::sync::{bumped, synced_likes, DeviceSync, OpRow};
use crate::devices::trust::{DeviceRow, DeviceView};
use crate::keyed::Keyed;
use crate::library::likes::{found_fed_like, upserts_like};
use crate::library::tables::{track_named, Library};
use crate::lists::{
    at_most, law_stable_sort, picked, select_by, sort_by, sort_places, stable_sorted, within,
};
use crate::text::{before, precedes, same, two_digit_text, two_digits};
use vstd::prelude::*;

verus! {

/// What another device has seen of each device.
pub open spec fn acks_of(m: Map<Seq<char>, Map<Seq<char>, i64>>, peer: Seq<char>) -> Map<
    Seq<char>,
    i64,
> {
    if m.dom().contains(peer) {
        m[peer]
    } else {
        Map::empty()
    }
}

/// The last operation of a device that another has seen.
pub open spec fn acked(
    m: Map<Seq<char>, Map<Seq<char>, i64>>,
    peer: Seq<char>,
    origin: Seq<char>,
) -> i64 {
    let a = acks_of(m, peer);
    if a.dom().contains(origin) {
        a[origin]
    } else {
        0
    }
}

/// What is known with several more numbers: none goes back.
pub open spec fn bumped_all(m: Map<Seq<char>, i64>, vector: Seq<(String, i64)>) -> Map<
    Seq<char>,
    i64,
>
    decreases vector.len(),
{
    if vector.len() == 0 {
        m
    } else {
        bumped(bumped_all(m, vector.drop_last()), vector.last().0@, vector.last().1)
    }
}

/// Whether an operation is for a device: a playback command is for its target
/// only, everything else for every device.
pub open spec fn is_for(p: SyncOpPayload, peer: Seq<char>) -> bool {
    match p {
        SyncOpPayload::PlaybackCommand { target_device_id, .. } => target_device_id@ == peer,
        _ => true,
    }
}

/// Whether an operation still counts: a playback command only as long as its
/// clock is not behind a limit, everything else for good.
pub open spec fn is_fresh(op: SyncOpWire, oldest_command_ms: i64) -> bool {
    op.payload is PlaybackCommand ==> op.hlc_ms >= oldest_command_ms
}

/// The operations for another device that it has not seen and that still
/// count.
pub open spec fn unseen(
    acks: Map<Seq<char>, Map<Seq<char>, i64>>,
    peer: Seq<char>,
    oldest_command_ms: i64,
) -> spec_fn(OpRow) -> bool {
    |r: OpRow|
        r.op.seq > acked(acks, peer, r.op.origin_device_id@) && is_for(r.op.payload, peer)
            && is_fresh(r.op, oldest_command_ms)
}

/// The order of the operations: by their clock, then by their id.
pub open spec fn op_order() -> spec_fn(OpRow, OpRow) -> bool {
    |a: OpRow, b: OpRow| !later(a.op.hlc_ms, a.op.op_id@, b.op.hlc_ms, b.op.op_id@)
}

fn is_meant_for(p: &SyncOpPayload, peer: &str) -> (r: bool)
    ensures
        r == is_for(*p, peer@),
{
    match p {
        SyncOpPayload::PlaybackCommand { target_device_id, .. } => same(
            target_device_id.as_str(),
            peer,
        ),
        _ => true,
    }
}

fn still_counts(op: &SyncOpWire, oldest_command_ms: i64) -> (r: bool)
    ensures
        r == is_fresh(*op, oldest_command_ms),
{
    match op.payload {
        SyncOpPayload::PlaybackCommand { .. } => op.hlc_ms >= oldest_command_ms,
        _ => true,
    }
}

/// The operations that are sent to another device: what it has not seen and
/// what still counts, the oldest first, as many as one message carries.
pub open spec fn batch_for(s: DeviceSync, peer: Seq<char>, oldest_command_ms: i64) -> Seq<OpRow> {
    at_most(
        stable_sorted(s.ops@.filter(unseen(s.acks@, peer, oldest_command_ms)), op_order()),
        MAX_OPS_PER_BATCH as int,
    )
}

/// Another device that takes part.
#[derive(Debug)]
pub struct StoredDevice {
    pub device_id: String,
    pub endpoint_ticket: String,
    pub endpoint_id: String,
    pub last_seen_ms: Option<i64>,
}

/// A device of the table as one that takes part.
pub open spec fn stored_device(e: (String, DeviceRow)) -> StoredDevice {
    StoredDevice {
        device_id: e.0,
        endpoint_ticket: e.1.endpoint_ticket,
        endpoint_id: e.1.endpoint_id,
        last_seen_ms: e.1.last_seen_ms,
    }
}

/// The other devices that take part; if wanted, only those that can be
/// addressed.
pub open spec fn is_remote(own: Seq<char>, addressed: bool) -> spec_fn((String, DeviceRow)) -> bool {
    |e: (String, DeviceRow)|
        e.1.trusted_at_ms is Some && e.1.revoked_at_ms is None && e.0@ != own && (!addressed
            || e.1.endpoint_id@.len() > 0)
}

/// The one that was seen later comes first; one that was never seen last.
pub open spec fn seen_order() -> spec_fn(StoredDevice, StoredDevice) -> bool {
    |a: StoredDevice, b: StoredDevice|
        match (a.last_seen_ms, b.last_seen_ms) {
            (_, None) => true,
            (None, Some(_)) => false,
            (Some(x), Some(y)) => x >= y,
        }
}

/// The other devices that take part, in the order in which they are tried.
pub open spec fn remote_devices(s: DeviceSync, addressed: bool) -> Seq<StoredDevice> {
    stable_sorted(
        s.devices.items().filter(is_remote(s.device_id@, addressed)).map_values(
            |e: (String, DeviceRow)| stored_device(e),
        ),
        seen_order(),
    )
}

pub open spec fn is_trusted_entry() -> spec_fn((String, DeviceRow)) -> bool {
    |e: (String, DeviceRow)| e.1.trusted_at_ms is Some
}

/// A device of the table as others are told of it.
pub open spec fn told_profile(e: (String, DeviceRow)) -> DeviceProfileWire {
    DeviceProfileWire {
        device_id: e.0,
        name: e.1.name,
        client_version: e.1.client_version,
        protocol_version: e.1.protocol_version,
        endpoint_id: e.1.endpoint_id,
        endpoint_ticket: e.1.endpoint_ticket,
        revoked: e.1.revoked_at_ms is Some,
        revoke_cutoff_seq: e.1.revoke_cutoff_seq,
        updated_at_ms: match e.1.last_seen_ms {
            Some(t) => t,
            None => crate::devices::trust::or_zero(e.1.trusted_at_ms),
        },
    }
}

pub open spec fn profile_order() -> spec_fn(DeviceProfileWire, DeviceProfileWire) -> bool {
    |a: DeviceProfileWire, b: DeviceProfileWire| !precedes(b.device_id@, a.device_id@)
}

/// What others are told of the devices: all that were ever trusted, by id.
pub open spec fn told_profiles(s: DeviceSync) -> Seq<DeviceProfileWire> {
    stable_sorted(
        s.devices.items().filter(is_trusted_entry()).map_values(
            |e: (String, DeviceRow)| told_profile(e),
        ),
        profile_order(),
    )
}

pub open spec fn is_active_entry() -> spec_fn((String, DeviceRow)) -> bool {
    |e: (String, DeviceRow)| e.1.trusted_at_ms is Some && e.1.revoked_at_ms is None
}

/// How many devices take part.
pub open spec fn active_count(s: DeviceSync) -> nat {
    s.devices.items().filter(is_active_entry()).len()
}

/// The time of day of a time.
pub open spec fn clock_text(now_ms: i64) -> Seq<char> {
    let secs: nat = if now_ms > 0 {
        (now_ms as nat) / 1000
    } else {
        0
    };
    two_digits(secs / 3600 % 24) + seq![':'] + two_digits(secs / 60 % 60) + seq![':'] + two_digits(
        secs % 60,
    ) + " UTC"@
}

/// The time of day, for people.
pub fn now_label(now_ms: i64) -> (r: String)
    ensures
        r@ == clock_text(now_ms),
{
    let secs: u64 = if now_ms > 0 {
        (now_ms as u64) / 1000
    } else {
        0
    };
    let mut out = two_digit_text(secs / 3600 % 24);
    out.push(':');
    out.append(two_digit_text(secs / 60 % 60).as_str());
    out.push(':');
    out.append(two_digit_text(secs % 60).as_str());
    out.append(" UTC");
    proof {
        assert(out@ =~= clock_text(now_ms));
    }
    out
}

/// The start of an id, for people.
pub fn short_id(id: &str) -> (r: String)
    ensures
        r@ == crate::federation::track::first_chars(id@, 10),
{
    crate::federation::track::prefix_text(id, 10)
}

/// A profile that this device tells of itself.
pub open spec fn own_profile_of(
    s: DeviceSync,
    client_version: Seq<char>,
    endpoint_id: Seq<char>,
    ticket: Seq<char>,
    now: i64,
    p: DeviceProfileWire,
) -> bool {
    &&& p.device_id@ == s.device_id@
    &&& p.name@ == s.name@
    &&& p.client_version@ == client_version
    &&& p.protocol_version == PROTOCOL_VERSION
    &&& p.endpoint_id@ == endpoint_id
    &&& p.endpoint_ticket@ == ticket
    &&& !p.revoked
    &&& p.revoke_cutoff_seq is None
    &&& p.updated_at_ms == now
}

/// The row of this device with a new address.
pub open spec fn own_row(
    m: crate::devices::trust::Devices,
    s: DeviceSync,
    client_version: Seq<char>,
    endpoint_id: Seq<char>,
    ticket: Seq<char>,
    now: i64,
) -> DeviceView {
    let id = s.device_id@;
    let base = if m.dom().contains(id) {
        m[id]
    } else {
        DeviceView { trusted_at: Some(now), ..crate::devices::trust::blank_device() }
    };
    DeviceView {
        name: s.name@,
        client_version,
        protocol_version: PROTOCOL_VERSION,
        endpoint_id,
        endpoint_ticket: ticket,
        last_seen: Some(now),
        ..base
    }
}

/// What noting what another device has seen changes.
pub open spec fn notes_vector(
    a: DeviceSync,
    b: DeviceSync,
    peer: Seq<char>,
    vector: Seq<(String, i64)>,
) -> bool {
    &&& b.acks@ == a.acks@.insert(
        peer,
        bumped_all(acks_of(a.acks@, peer), vector),
    )
    &&& b == (DeviceSync { acks: b.acks, ..a })
}

/// The places of the operations that are sent to another device.
pub open spec fn sends_ops(
    s: DeviceSync,
    peer: Seq<char>,
    oldest_command_ms: i64,
    r: Seq<usize>,
) -> bool {
    &&& within(r, s.ops@.len() as int)
    &&& picked(s.ops@, r) == batch_for(s, peer, oldest_command_ms)
}

/// What noting that a device was seen changes.
pub open spec fn marks_seen(
    a: DeviceSync,
    b: DeviceSync,
    device_id: Seq<char>,
    endpoint_id: Option<String>,
    now_ms: i64,
) -> bool {
    &&& b.devices@ == (if a.devices@.dom().contains(device_id) {
        a.devices@.insert(
            device_id,
            DeviceView {
                last_seen: Some(now_ms),
                endpoint_id: match endpoint_id {
                    Some(e) => e@,
                    None => a.devices@[device_id].endpoint_id,
                },
                ..a.devices@[device_id]
            },
        )
    } else {
        a.devices@
    })
    &&& b == (DeviceSync { devices: b.devices, ..a })
}

/// What noting the playback of another device changes.
pub open spec fn hears_snapshot(
    a: DeviceSync,
    b: DeviceSync,
    snapshot: PlaybackSnapshot,
    r: bool,
) -> bool {
    &&& r == (snapshot.device_id@ != a.device_id@ && (!a.remote_playback@.dom().contains(snapshot.device_id@) || snapshot.updated_at_ms
        > a.remote_playback@[snapshot.device_id@]))
    &&& b.remote_playback@ == (if r {
        a.remote_playback@.insert(snapshot.device_id@, snapshot.updated_at_ms)
    } else {
        a.remote_playback@
    })
    &&& b == (DeviceSync {
        remote_playback: b.remote_playback,
        ..a
    })
}

/// The other devices that take part.
pub open spec fn lists_remote(s: DeviceSync, r: Seq<StoredDevice>) -> bool {
    r == remote_devices(s, false)
}

/// What others are told of the devices.
pub open spec fn tells_profiles(s: DeviceSync, r: Seq<DeviceProfileWire>) -> bool {
    r == told_profiles(s)
}

impl DeviceSync {
    /// Notes what another device has seen.
    pub fn note_peer_vector(&mut self, peer_device_id: &str, vector: &[(String, i64)])
        ensures
            notes_vector(*old(self), *final(self), peer_device_id@, vector@),
    {
        let ghost all = self.acks@;
        let ghost known = acks_of(self.acks@, peer_device_id@);
        let mut table = match self.acks.take(peer_device_id) {
            Some(t) => t,
            None => Keyed::new(),
        };
        let mut i: usize = 0;
        while i < vector.len()
            invariant
                i <= vector@.len(),
                table@ == bumped_all(known, vector@.take(i as int)),
            decreases vector@.len() - i,
        {
            proof {
                assert(vector@.take(i + 1).drop_last() =~= vector@.take(i as int));
            }
            let origin = vector[i].0.as_str();
            let seq = vector[i].1;
            let newer = match table.get(origin) {
                Some(n) => *n < seq,
                None => true,
            };
            if newer {
                table.set(origin, seq);
            }
            i += 1;
        }
        proof {
            assert(vector@.take(vector@.len() as int) =~= vector@);
        }
        self.acks.set(peer_device_id, table);
        proof {
            assert(self.acks@ =~= all.insert(peer_device_id@, bumped_all(known, vector@)));
        }
    }

    /// The last operation of a device that another has seen.
    pub fn ack(&self, peer: &str, origin: &str) -> (r: i64)
        ensures
            r == acked(self.acks@, peer@, origin@),
    {
        match self.acks.get(peer) {
            Some(t) => match t.get(origin) {
                Some(n) => *n,
                None => 0,
            },
            None => 0,
        }
    }

    /// The places of the operations that are sent to another device. Playback
    /// commands whose clock is behind the limit are too old to be carried out
    /// and are not sent.
    pub fn ops_for_peer(&self, peer_device_id: &str, oldest_command_ms: i64) -> (r: Vec<usize>)
        ensures
            sends_ops(*self, peer_device_id@, oldest_command_ms, r@),
    {
        let ops = &self.ops;
        let f = |row: &OpRow| -> (b: bool)
            ensures
                b == unseen(self.acks@, peer_device_id@, oldest_command_ms)(*row),
            {
                row.op.seq > self.ack(peer_device_id, row.op.origin_device_id.as_str())
                    && is_meant_for(&row.op.payload, peer_device_id)
                    && still_counts(&row.op, oldest_command_ms)
            };
        let mut at = select_by(ops, f, Ghost(unseen(self.acks@, peer_device_id@, oldest_command_ms)));
        let g = |a: &OpRow, b: &OpRow| -> (r: bool)
            ensures
                r == op_order()(*a, *b),
            {
                !is_later(
                    a.op.hlc_ms,
                    a.op.op_id.as_str(),
                    b.op.hlc_ms,
                    b.op.op_id.as_str(),
                )
            };
        sort_places(ops, &mut at, g, Ghost(op_order()));
        let ghost sorted = at@;
        if at.len() > MAX_OPS_PER_BATCH {
            at.truncate(MAX_OPS_PER_BATCH);
            proof {
                assert(picked(ops@, at@) =~= picked(ops@, sorted).take(MAX_OPS_PER_BATCH as int));
            }
        }
        at
    }

    /// The last known operation of each device.
    pub fn vector(&self) -> (r: Vec<(String, i64)>)
        ensures
            r@ == self.vectors.items(),
    {
        let mut out: Vec<(String, i64)> = Vec::new();
        let n: usize = self.vectors.len();
        let mut i: usize = 0;
        while i < n
            invariant
                i <= n,
                n == self.vectors.items().len(),
                out@ == self.vectors.items().take(i as int),
            decreases n - i,
        {
            let (k, v) = self.vectors.at(i);
            out.push((k.clone(), *v));
            proof {
                assert(out@ =~= self.vectors.items().take(i + 1));
            }
            i += 1;
        }
        proof {
            assert(self.vectors.items().take(n as int) =~= self.vectors.items());
        }
        out
    }

    /// Notes that a device was seen now, and where.
    pub fn mark_seen(&mut self, device_id: &str, endpoint_id: Option<String>, now_ms: i64)
        ensures
            marks_seen(*old(self), *final(self), device_id@, endpoint_id, now_ms),
    {
        let found = match self.devices.get(device_id) {
            Some(d) => Some(d.clone()),
            None => None,
        };
        if let Some(d) = found {
            let mut row = d;
            row.last_seen_ms = Some(now_ms);
            if let Some(e) = endpoint_id {
                row.endpoint_id = e;
            }
            self.devices.set(device_id, row);
        }
    }

    /// Notes how the last synchronisation went.
    pub fn set_last_sync(&mut self, message: Option<String>, now_ms: i64)
        ensures
            match message {
                Some(m) => final(self).last_sync matches Some(t) && t@ == clock_text(now_ms) + " · "@
                    + m@,
                None => final(self).last_sync is None,
            },
            *final(self) == (DeviceSync { last_sync: final(self).last_sync, ..*old(self) }),
    {
        self.last_sync = match message {
            Some(m) => {
                let mut out = now_label(now_ms);
                out.append(" · ");
                out.append(m.as_str());
                proof {
                    assert(out@ =~= clock_text(now_ms) + " · "@ + m@);
                }
                Some(out)
            },
            None => None,
        };
    }

    pub fn set_last_error(&mut self, message: Option<String>)
        ensures
            *final(self) == (DeviceSync { last_error: message, ..*old(self) }),
    {
        self.last_error = message;
    }

    /// Joins a group.
    pub fn set_group_id(&mut self, group_id: &str)
        ensures
            final(self).group_id@ == group_id@,
            *final(self) == (DeviceSync { group_id: final(self).group_id, ..*old(self) }),
    {
        self.group_id = group_id.to_owned();
    }

    /// What this device tells of itself, at an address. Its own row of the
    /// table is brought up to date.
    pub fn own_profile(
        &mut self,
        client_version: &str,
        endpoint_id: &str,
        endpoint_ticket: &str,
        now_ms: i64,
    ) -> (r: DeviceProfileWire)
        ensures
            own_profile_of(
                *old(self),
                client_version@,
                endpoint_id@,
                endpoint_ticket@,
                now_ms,
                r,
            ),
            final(self).devices@ == old(self).devices@.insert(
                old(self).device_id@,
                own_row(
                    old(self).devices@,
                    *old(self),
                    client_version@,
                    endpoint_id@,
                    endpoint_ticket@,
                    now_ms,
                ),
            ),
            *final(self) == (DeviceSync { devices: final(self).devices, ..*old(self) }),
    {
        let found = match self.devices.get(self.device_id.as_str()) {
            Some(d) => Some(d.clone()),
            None => None,
        };
        let id = self.device_id.clone();
        let row = match found {
            Some(d) => DeviceRow {
                name: self.name.clone(),
                client_version: client_version.to_owned(),
                protocol_version: PROTOCOL_VERSION,
                endpoint_id: endpoint_id.to_owned(),
                endpoint_ticket: endpoint_ticket.to_owned(),
                trusted_at_ms: d.trusted_at_ms,
                last_seen_ms: Some(now_ms),
                revoked_at_ms: d.revoked_at_ms,
                revoked_by: d.revoked_by,
                revoke_cutoff_seq: d.revoke_cutoff_seq,
            },
            None => DeviceRow {
                name: self.name.clone(),
                client_version: client_version.to_owned(),
                protocol_version: PROTOCOL_VERSION,
                endpoint_id: endpoint_id.to_owned(),
                endpoint_ticket: endpoint_ticket.to_owned(),
                trusted_at_ms: Some(now_ms),
                last_seen_ms: Some(now_ms),
                revoked_at_ms: None,
                revoked_by: None,
                revoke_cutoff_seq: None,
            },
        };
        proof {
            assert(row@ =~= own_row(
                self.devices@,
                *self,
                client_version@,
                endpoint_id@,
                endpoint_ticket@,
                now_ms,
            ));
        }
        self.devices.set(id.as_str(), row);
        DeviceProfileWire {
            device_id: id,
            name: self.name.clone(),
            client_version: client_version.to_owned(),
            protocol_version: PROTOCOL_VERSION,
            endpoint_id: endpoint_id.to_owned(),
            endpoint_ticket: endpoint_ticket.to_owned(),
            revoked: false,
            revoke_cutoff_seq: None,
            updated_at_ms: now_ms,
        }
    }

    /// What others are told of the devices.
    pub fn device_profiles(&self) -> (r: Vec<DeviceProfileWire>)
        ensures
            tells_profiles(*self, r@),
    {
        let mut out: Vec<DeviceProfileWire> = Vec::new();
        let n: usize = self.devices.len();
        let mut i: usize = 0;
        let ghost items = self.devices.items();
        let ghost p = is_trusted_entry();
        let ghost g = |e: (String, DeviceRow)| told_profile(e);
        proof {
            reveal(Seq::filter);
            assert(out@ =~= items.take(0).filter(p).map_values(g));
        }
        while i < n
            invariant
                i <= n,
                items == self.devices.items(),
                n == items.len(),
                p == is_trusted_entry(),
                g == (|e: (String, DeviceRow)| told_profile(e)),
                out@ == items.take(i as int).filter(p).map_values(g),
            decreases n - i,
        {
            let (k, d) = self.devices.at(i);
            proof {
                reveal(Seq::filter);
                assert(items.take(i + 1).drop_last() =~= items.take(i as int));
            }
            if d.trusted_at_ms.is_some() {
                let profile = DeviceProfileWire {
                    device_id: k.clone(),
                    name: d.name.clone(),
                    client_version: d.client_version.clone(),
                    protocol_version: d.protocol_version,
                    endpoint_id: d.endpoint_id.clone(),
                    endpoint_ticket: d.endpoint_ticket.clone(),
                    revoked: d.revoked_at_ms.is_some(),
                    revoke_cutoff_seq: d.revoke_cutoff_seq,
                    updated_at_ms: match d.last_seen_ms {
                        Some(t) => t,
                        None => match d.trusted_at_ms {
                            Some(t) => t,
                            None => 0,
                        },
                    },
                };
                proof {
                    assert(profile == told_profile(items[i as int]));
                }
                out.push(profile);
                proof {
                    assert(items.take(i + 1).filter(p) =~= items.take(i as int).filter(p).push(
                        items[i as int],
                    ));
                    assert(out@ =~= items.take(i + 1).filter(p).map_values(g));
                }
            } else {
                proof {
                    assert(items.take(i + 1).filter(p) =~= items.take(i as int).filter(p));
                }
            }
            i += 1;
        }
        proof {
            assert(items.take(n as int) =~= items);
        }
        let leq = |a: &DeviceProfileWire, b: &DeviceProfileWire| -> (r: bool)
            ensures
                r == profile_order()(*a, *b),
            { !before(b.device_id.as_str(), a.device_id.as_str()) };
        sort_by(&mut out, leq, Ghost(profile_order()));
        out
    }

    fn remotes(&self, addressed: bool) -> (r: Vec<StoredDevice>)
        ensures
            r@ == remote_devices(*self, addressed),
    {
        let mut out: Vec<StoredDevice> = Vec::new();
        let n: usize = self.devices.len();
        let mut i: usize = 0;
        let ghost items = self.devices.items();
        let ghost p = is_remote(self.device_id@, addressed);
        let ghost g = |e: (String, DeviceRow)| stored_device(e);
        proof {
            reveal(Seq::filter);
            assert(out@ =~= items.take(0).filter(p).map_values(g));
        }
        while i < n
            invariant
                i <= n,
                items == self.devices.items(),
                n == items.len(),
                p == is_remote(self.device_id@, addressed),
                g == (|e: (String, DeviceRow)| stored_device(e)),
                out@ == items.take(i as int).filter(p).map_values(g),
            decreases n - i,
        {
            let (k, d) = self.devices.at(i);
            proof {
                reveal(Seq::filter);
                assert(items.take(i + 1).drop_last() =~= items.take(i as int));
            }
            if d.trusted_at_ms.is_some() && d.revoked_at_ms.is_none() && !same(
                k.as_str(),
                self.device_id.as_str(),
            ) && (!addressed || !d.endpoint_id.as_str().is_empty()) {
                let device = StoredDevice {
                    device_id: k.clone(),
                    endpoint_ticket: d.endpoint_ticket.clone(),
                    endpoint_id: d.endpoint_id.clone(),
                    last_seen_ms: d.last_seen_ms,
                };
                proof {
                    assert(device == stored_device(items[i as int]));
                }
                out.push(device);
                proof {
                    assert(items.take(i + 1).filter(p) =~= items.take(i as int).filter(p).push(
                        items[i as int],
                    ));
                    assert(out@ =~= items.take(i + 1).filter(p).map_values(g));
                }
            } else {
                proof {
                    assert(items.take(i + 1).filter(p) =~= items.take(i as int).filter(p));
                }
            }
            i += 1;
        }
        proof {
            assert(items.take(n as int) =~= items);
        }
        let leq = |a: &StoredDevice, b: &StoredDevice| -> (r: bool)
            ensures
                r == seen_order()(*a, *b),
            {
                match (a.last_seen_ms, b.last_seen_ms) {
                    (_, None) => true,
                    (None, Some(_)) => false,
                    (Some(x), Some(y)) => x >= y,
                }
            };
        sort_by(&mut out, leq, Ghost(seen_order()));
        out
    }

    /// The other devices that take part, the one that was seen last first.
    pub fn active_remote_devices(&self) -> (r: Vec<StoredDevice>)
        ensures
            lists_remote(*self, r@),
    {
        self.remotes(false)
    }

    /// The addresses of the other devices that take part.
    pub fn active_remote_endpoint_ids(&self) -> (r: Vec<String>)
        ensures
            r@ == remote_devices(*self, true).map_values(|d: StoredDevice| d.endpoint_id),
    {
        let devices = self.remotes(true);
        let mut out: Vec<String> = Vec::new();
        let mut i: usize = 0;
        while i < devices.len()
            invariant
                i <= devices@.len(),
                out@ == devices@.take(i as int).map_values(|d: StoredDevice| d.endpoint_id),
            decreases devices@.len() - i,
        {
            out.push(devices[i].endpoint_id.clone());
            proof {
                assert(out@ =~= devices@.take(i + 1).map_values(|d: StoredDevice| d.endpoint_id));
            }
            i += 1;
        }
        proof {
            assert(devices@.take(devices@.len() as int) =~= devices@);
        }
        out
    }

    /// How many devices take part.
    pub fn active_device_count(&self) -> (r: usize)
        ensures
            r == active_count(*self),
    {
        let n: usize = self.devices.len();
        let mut i: usize = 0;
        let mut count: usize = 0;
        let ghost items = self.devices.items();
        let ghost p = is_active_entry();
        proof {
            reveal(Seq::filter);
        }
        while i < n
            invariant
                i <= n,
                count <= i,
                items == self.devices.items(),
                n == items.len(),
                p == is_active_entry(),
                count == items.take(i as int).filter(p).len(),
            decreases n - i,
        {
            proof {
                reveal(Seq::filter);
                assert(items.take(i + 1).drop_last() =~= items.take(i as int));
            }
            let (_, d) = self.devices.at(i);
            if d.trusted_at_ms.is_some() && d.revoked_at_ms.is_none() {
                count += 1;
            }
            i += 1;
        }
        proof {
            assert(items.take(n as int) =~= items);
        }
        count
    }

    /// Notes the playback of this device, as of now if it says no time.
    pub fn publish_playback(&mut self, snapshot: PlaybackSnapshot, now_ms: i64)
        ensures
            final(self).local_playback == Some(
                PlaybackSnapshot {
                    updated_at_ms: if snapshot.updated_at_ms <= 0 {
                        now_ms
                    } else {
                        snapshot.updated_at_ms
                    },
                    ..snapshot
                },
            ),
            *final(self) == (DeviceSync {
                local_playback: final(self).local_playback,
                ..*old(self)
            }),
    {
        let mut s = snapshot;
        if s.updated_at_ms <= 0 {
            s.updated_at_ms = now_ms;
        }
        self.local_playback = Some(s);
    }

    /// Notes the playback of another device; gives whether it is news. One's
    /// own is not, and neither is one that is not newer than what is known.
    pub fn apply_playback_snapshot(&mut self, snapshot: &PlaybackSnapshot) -> (r: bool)
        ensures
            hears_snapshot(*old(self), *final(self), *snapshot, r),
    {
        if same(snapshot.device_id.as_str(), self.device_id.as_str()) {
            return false;
        }
        let newer = match self.remote_playback.get(snapshot.device_id.as_str()) {
            Some(t) => snapshot.updated_at_ms > *t,
            None => true,
        };
        if newer {
            self.remote_playback.set(snapshot.device_id.as_str(), snapshot.updated_at_ms);
        }
        newer
    }
}

/// What is done for a like that holds when a device starts: the library is
/// given the like with its clock.
pub open spec fn repair_step(a: Library, b: Library, content_id: Seq<char>, hlc: i64) -> bool {
    match track_named(a, content_id) {
        Some(t) => b.likes@ == synced_likes(a.likes@, t, true, hlc) && b == (Library {
            likes: b.likes,
            ..a
        }),
        None => match found_fed_like(a, content_id) {
            Some(f) => exists|r: bool| #[trigger] upserts_like(a, b, f, hlc, r),
            None => b == a,
        },
    }
}

/// The way from one library to another through the likes that hold.
pub open spec fn repaired_along(
    a: Library,
    b: Library,
    likes: Seq<(String, crate::devices::lww::LikeState)>,
    w: Seq<Library>,
) -> bool {
    &&& w.len() == likes.len() + 1
    &&& w[0] == a
    &&& w.last() == b
    &&& forall|i: int|
        0 <= i < likes.len() ==> if (#[trigger] likes[i]).1.liked {
            repair_step(w[i], w[i + 1], likes[i].0@, likes[i].1.hlc_ms)
        } else {
            w[i + 1] == w[i]
        }
}

impl DeviceSync {
    /// Brings the likes of the library to the clocks of the synchronised
    /// state, as a device does when it starts.
    pub fn repair_like_order_from_sync_state(&self, library: &mut Library)
        ensures
            exists|w: Seq<Library>| #[trigger]
                repaired_along(*old(library), *final(library), self.likes.items(), w),
    {
        let ghost start = *library;
        let ghost likes = self.likes.items();
        let ghost mut w: Seq<Library> = seq![*library];
        let n: usize = self.likes.len();
        let mut i: usize = 0;
        proof {
            assert(likes.take(0).len() == 0);
        }
        while i < n
            invariant
                i <= n,
                likes == self.likes.items(),
                n == likes.len(),
                repaired_along(start, *library, likes.take(i as int), w),
            decreases n - i,
        {
            let ghost m = *library;
            let (id, state) = self.likes.at(i);
            if state.liked {
                match library.track_id_by_content_id(id.as_str()) {
                    Some(t) => {
                        let _ = library.set_synced_like(t, true, state.hlc_ms);
                    },
                    None => {
                        if let Some(fed) = library.fed_like_by_content_id(id.as_str()) {
                            let r = library.upsert_synced_fed_like(&fed, state.hlc_ms);
                            proof {
                                assert(upserts_like(m, *library, fed@, state.hlc_ms, r));
                            }
                        }
                    },
                }
                proof {
                    assert(repair_step(m, *library, id@, state.hlc_ms));
                }
            }
            proof {
                let w1 = w.push(*library);
                let done = likes.take(i + 1);
                assert forall|k: int| 0 <= k < done.len() implies if (#[trigger] done[k]).1.liked {
                    repair_step(w1[k], w1[k + 1], done[k].0@, done[k].1.hlc_ms)
                } else {
                    w1[k + 1] == w1[k]
                } by {
                    if k < i {
                        assert(likes.take(i as int)[k] == done[k]);
                    }
                }
                w = w1;
                assert(repaired_along(start, *library, done, w));
            }
            i += 1;
        }
        proof {
            assert(likes.take(n as int) =~= likes);
        }
    }
}

/// A device is sent a playback command only if it is the target, and only while
/// the command still counts.
pub proof fn law_commands_go_to_their_target_while_fresh(
    s: DeviceSync,
    peer: Seq<char>,
    oldest_command_ms: i64,
    i: int,
)
    requires
        0 <= i < batch_for(s, peer, oldest_command_ms).len(),
    ensures
        batch_for(s, peer, oldest_command_ms)[i].op.payload matches SyncOpPayload::PlaybackCommand {
            target_device_id,
            ..
        } ==> target_device_id@ == peer && batch_for(s, peer, oldest_command_ms)[i].op.hlc_ms
            >= oldest_command_ms,
{
    broadcast use vstd::seq_lib::group_to_multiset_ensures;

    let p = unseen(s.acks@, peer, oldest_command_ms);
    let left = s.ops@.filter(p);
    let sorted = stable_sorted(left, op_order());
    law_stable_sort(left, op_order());
    let row = batch_for(s, peer, oldest_command_ms)[i];
    assert(row == sorted[i]);
    assert(sorted.contains(row));
    assert(left.to_multiset().count(row) > 0);
    assert(left.contains(row));
    s.ops@.lemma_filter_pred(p, left.index_of(row));
}

} // verus!
