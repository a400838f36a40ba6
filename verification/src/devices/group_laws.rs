//! What holds of a group of devices: what they tell each other, whom they hear,
//! and who is let in.

use crate::content_id::canonical;
use crate::devices::exchange::{
    entry_step, receive_step, received_along, receives, taken_along, takes, takes_in,
    Entry,
};
use crate::devices::model::{
    DeviceProfileWire, InviteWire, PlaybackSnapshot, SyncOpPayload, SyncOpWire,
};
use crate::devices::pairing::{
    admits, is_valid_request, makes_invite, request_name, Address, Admission, Hello, PairRequest,
};
use crate::devices::peers::{
    acks_of, bumped_all, hears_snapshot, is_remote, is_trusted_entry, lists_remote, notes_vector,
    op_order, profile_order, seen_order, sends_ops, stored_device, tells_profiles, told_profile,
    unseen, StoredDevice,
};
use crate::devices::record::{
    is_next_op, keep_step, record_step, records_deletion, records_like,
};
use crate::devices::session::{
    greeted_through, greets, let_in_through, pairs, HelloOutcome, PairOutcome,
};
use crate::devices::step_laws::{
    first_with_content, law_like_reaches_the_library, law_playlist_reaches_the_library,
};
use crate::devices::sync::{is_op, op_step, DeviceSync, OpRow, PairingAnswer, World};
use crate::devices::trust::{accepts, DeviceRow};
use crate::library::listing_laws::lemma_sorted_has;
use crate::library::tables::{is_playlist, sync_id_of};
use crate::lists::{
    at_most, first_where, law_stable_sort, lemma_filter_holds, lemma_first_where, picked,
    stable_sorted, total_preorder,
};
use crate::text::{lemma_precedes_total, opt_view, precedes};
use vstd::prelude::*;

verus! {

// ---------------------------------------------------------------------------
// What is sent
// ---------------------------------------------------------------------------

/// Whether another device has not seen an operation yet.
pub open spec fn is_lacking(s: DeviceSync, peer: Seq<char>, r: OpRow) -> bool {
    &&& r.op.seq > 0
    &&& s.acks@.dom().contains(peer) && s.acks@[peer].dom().contains(r.op.origin_device_id@)
        ==> r.op.seq > s.acks@[peer][r.op.origin_device_id@]
}

proof fn lemma_op_order()
    ensures
        total_preorder(op_order()),
{
    let leq = op_order();
    assert forall|a: OpRow, b: OpRow| #[trigger] leq(a, b) || leq(b, a) by {
        crate::devices::lww::lemma_later_total(
            a.op.hlc_ms,
            a.op.op_id@,
            b.op.hlc_ms,
            b.op.op_id@,
        );
    }
    assert forall|a: OpRow, b: OpRow, c: OpRow| #[trigger] leq(a, b) && #[trigger] leq(
        b,
        c,
    ) implies leq(a, c) by {
        crate::federation::laws::lemma_no_order_is_total(a.op.op_id@, b.op.op_id@, c.op.op_id@);
    }
}

/// Another device is sent operations that it has not seen, the oldest first and at
/// most a thousand at once. With room left, every one that it lacks is among
/// them; else what is left for later is not older than what is sent.
pub proof fn law_peer_is_sent_what_it_lacks(
    s: DeviceSync,
    peer: Seq<char>,
    oldest_command_ms: i64,
    r: Seq<usize>,
)
    requires
        sends_ops(s, peer, oldest_command_ms, r),
    ensures
        r.len() <= 1000,
        forall|i: int| 0 <= i < r.len() ==> #[trigger] r[i] < s.ops@.len(),
        forall|i: int|
            0 <= i < r.len() && (#[trigger] s.ops@[r[i] as int]).op.seq > 0 ==> is_lacking(
                s,
                peer,
                s.ops@[r[i] as int],
            ),
        forall|i: int, j: int|
            0 <= i < j < r.len() ==> s.ops@[#[trigger] r[i] as int].op.hlc_ms
                <= s.ops@[#[trigger] r[j] as int].op.hlc_ms,
        forall|k: int|
            0 <= k < s.ops@.len() && is_lacking(s, peer, #[trigger] s.ops@[k])
                && !(s.ops@[k].op.payload is PlaybackCommand) ==> (exists|i: int|
                0 <= i < r.len() && s.ops@[#[trigger] r[i] as int] == s.ops@[k]) || (r.len() == 1000
                && forall|i: int|
                0 <= i < r.len() ==> s.ops@[#[trigger] r[i] as int].op.hlc_ms
                    <= s.ops@[k].op.hlc_ms),
{
    let p = unseen(s.acks@, peer, oldest_command_ms);
    let left = s.ops@.filter(p);
    let leq = op_order();
    let sorted = stable_sorted(left, leq);
    lemma_op_order();
    law_stable_sort(left, leq);
    lemma_sorted_has(left, leq);
    lemma_filter_holds(s.ops@, p);
    let b = picked(s.ops@, r);
    assert(b.len() == r.len());
    assert(b == at_most(sorted, 1000));
    assert forall|i: int| 0 <= i < r.len() implies #[trigger] r[i] < s.ops@.len()
        && s.ops@[r[i] as int] == sorted[i] by {
        assert(b[i] == s.ops@[r[i] as int]);
    }
    assert forall|i: int| 0 <= i < r.len() && (#[trigger] s.ops@[r[i] as int]).op.seq > 0
        implies is_lacking(s, peer, s.ops@[r[i] as int]) by {
        assert(r[i] < s.ops@.len());
        assert(sorted.contains(sorted[i]));
        assert(left.contains(sorted[i]));
        assert(p(sorted[i]));
    }
    assert forall|i: int, j: int| 0 <= i < j < r.len() implies s.ops@[#[trigger] r[i] as int].op.hlc_ms
        <= s.ops@[#[trigger] r[j] as int].op.hlc_ms by {
        assert(leq(sorted[i], sorted[j]));
    }
    assert forall|k: int|
        0 <= k < s.ops@.len() && is_lacking(s, peer, #[trigger] s.ops@[k])
            && !(s.ops@[k].op.payload is PlaybackCommand) implies (exists|i: int|
        0 <= i < r.len() && s.ops@[#[trigger] r[i] as int] == s.ops@[k]) || (r.len() == 1000
        && forall|i: int|
        0 <= i < r.len() ==> s.ops@[#[trigger] r[i] as int].op.hlc_ms <= s.ops@[k].op.hlc_ms) by {
        let x = s.ops@[k];
        assert(p(x));
        assert(s.ops@.contains(x));
        assert(left.contains(x));
        assert(sorted.contains(x));
        let m = sorted.index_of(x);
        if m < r.len() {
            assert(s.ops@[r[m] as int] == x);
        } else {
            assert forall|i: int| 0 <= i < r.len() implies s.ops@[#[trigger] r[i] as int].op.hlc_ms
                <= x.op.hlc_ms by {
                assert(leq(sorted[i], sorted[m]));
            }
        }
    }
}

pub proof fn lemma_bumped_all(m: Map<Seq<char>, i64>, vector: Seq<(String, i64)>)
    ensures
        forall|k: Seq<char>| #[trigger]
            m.dom().contains(k) ==> bumped_all(m, vector).dom().contains(k) && bumped_all(
                m,
                vector,
            )[k] >= m[k],
        forall|i: int|
            0 <= i < vector.len() ==> bumped_all(m, vector).dom().contains(
                (#[trigger] vector[i]).0@,
            ) && bumped_all(m, vector)[vector[i].0@] >= vector[i].1,
        forall|k: Seq<char>| #[trigger]
            bumped_all(m, vector).dom().contains(k) ==> (m.dom().contains(k) && bumped_all(
                m,
                vector,
            )[k] == m[k]) || exists|i: int|
                0 <= i < vector.len() && (#[trigger] vector[i]).0@ == k && bumped_all(
                    m,
                    vector,
                )[k] == vector[i].1,
    decreases vector.len(),
{
    if vector.len() > 0 {
        let h = vector.drop_last();
        let n = vector.len() - 1;
        lemma_bumped_all(m, h);
        let b = bumped_all(m, h);
        let r = bumped_all(m, vector);
        assert(vector[n] == vector.last());
        assert forall|i: int| 0 <= i < vector.len() implies r.dom().contains(
            (#[trigger] vector[i]).0@,
        ) && r[vector[i].0@] >= vector[i].1 by {
            if i < n {
                assert(h[i] == vector[i]);
            }
        }
        assert forall|k: Seq<char>| #[trigger] r.dom().contains(k) implies (m.dom().contains(k)
            && r[k] == m[k]) || exists|i: int|
            0 <= i < vector.len() && (#[trigger] vector[i]).0@ == k && r[k] == vector[i].1 by {
            if k == vector.last().0@ && r[k] == vector.last().1 {
                assert(vector[n].0@ == k);
            } else {
                assert(b.dom().contains(k));
                if !(m.dom().contains(k) && b[k] == m[k]) {
                    let i = choose|i: int|
                        0 <= i < h.len() && (#[trigger] h[i]).0@ == k && b[k] == h[i].1;
                    assert(vector[i] == h[i]);
                }
            }
        }
    }
}

/// What a device says it has seen is not sent to it again, and what it said before
/// is not forgotten. What other devices have seen stays as it is.
pub proof fn law_seen_operations_are_not_sent_again(
    a: DeviceSync,
    b: DeviceSync,
    peer: Seq<char>,
    vector: Seq<(String, i64)>,
    oldest_command_ms: i64,
    r: Seq<usize>,
    other: Seq<char>,
)
    requires
        notes_vector(a, b, peer, vector),
        sends_ops(b, peer, oldest_command_ms, r),
        other != peer,
    ensures
        forall|i: int, j: int|
            0 <= i < r.len() && 0 <= j < vector.len() && b.ops@[#[trigger] r[i] as int].op.origin_device_id@
                == (#[trigger] vector[j]).0@ ==> b.ops@[r[i] as int].op.seq > vector[j].1,
        forall|k: Seq<char>|
            a.acks@.dom().contains(peer) && #[trigger] a.acks@[peer].dom().contains(k)
                ==> b.acks@[peer].dom().contains(k) && b.acks@[peer][k] >= a.acks@[peer][k],
        b.acks@.dom().contains(other) <==> a.acks@.dom().contains(other),
        a.acks@.dom().contains(other) ==> b.acks@[other] == a.acks@[other],
{
    lemma_bumped_all(acks_of(a.acks@, peer), vector);
    let p = unseen(b.acks@, peer, oldest_command_ms);
    let left = b.ops@.filter(p);
    let sorted = stable_sorted(left, op_order());
    lemma_sorted_has(left, op_order());
    lemma_filter_holds(b.ops@, p);
    let q = picked(b.ops@, r);
    assert(q.len() == r.len());
    assert forall|i: int, j: int|
        0 <= i < r.len() && 0 <= j < vector.len() && b.ops@[#[trigger] r[i] as int].op.origin_device_id@
            == (#[trigger] vector[j]).0@ implies b.ops@[r[i] as int].op.seq > vector[j].1 by {
        assert(q[i] == b.ops@[r[i] as int]);
        assert(q[i] == sorted[i]);
        assert(sorted.contains(sorted[i]));
        assert(left.contains(sorted[i]));
        assert(p(sorted[i]));
    }
}

// ---------------------------------------------------------------------------
// Who takes part
// ---------------------------------------------------------------------------

/// Only one's own operations, those of a device that is trusted, and those of a
/// device whose trust was withdrawn up to that point, are heard.
pub proof fn law_only_the_trusted_are_heard(
    a: World,
    b: World,
    op: SyncOpWire,
    now: i64,
    changed: bool,
    delivered: bool,
)
    requires
        receive_step(a, b, op, now, changed, delivered),
        op.origin_device_id@ != a.sync.device_id@,
    ensures
        ({
            let m = a.sync.devices@;
            let from = op.origin_device_id@;
            let heard = m.dom().contains(from) && ((m[from].trusted_at is Some
                && m[from].revoked_at is None) || (m[from].revoked_at is Some && (m[from].cutoff
                is Some ==> op.seq <= m[from].cutoff->0) && (m[from].cutoff is None ==> op.seq
                <= 0)));
            &&& !heard ==> b == a && !changed && !delivered
            &&& heard ==> {
                &&& exists|k: int|
                    0 <= k < b.sync.ops@.len() && (#[trigger] b.sync.ops@[k]).op.op_id@ == op.op_id@
                &&& b.sync.vectors@.dom().contains(from)
                &&& b.sync.vectors@[from] >= op.seq
                &&& a.sync.vectors@.dom().contains(from) ==> b.sync.vectors@[from]
                    >= a.sync.vectors@[from]
            }
        }),
{
    let from = op.origin_device_id@;
    if accepts(a.sync.devices@, a.sync.device_id@, from, op.seq) {
        lemma_first_where(a.sync.ops@, is_op(op.op_id@));
        match first_where(a.sync.ops@, is_op(op.op_id@)) {
            Some(k) => {
                assert(b.sync.ops@[k].op.op_id@ == op.op_id@);
            },
            None => {
                assert(b.sync.ops@[a.sync.ops@.len() as int].op.op_id@ == op.op_id@);
            },
        }
    }
}

/// The other devices that take part are those that are trusted, but for this one:
/// every one, and no other; the one that was seen last comes first.
pub proof fn law_remote_devices_are_the_trusted(s: DeviceSync, r: Seq<StoredDevice>)
    requires
        lists_remote(s, r),
    ensures
        forall|k: int|
            0 <= k < s.devices.items().len() && (#[trigger] s.devices.items()[k]).1.trusted_at_ms
                is Some && s.devices.items()[k].1.revoked_at_ms is None
                && s.devices.items()[k].0@ != s.device_id@ ==> exists|i: int|
                0 <= i < r.len() && (#[trigger] r[i]).device_id == s.devices.items()[k].0,
        forall|i: int|
            0 <= i < r.len() ==> (#[trigger] r[i]).device_id@ != s.device_id@ && is_trusted_in(
                s,
                r[i].device_id,
            ),
        forall|i: int, j: int|
            0 <= i < j < r.len() ==> {
                &&& (#[trigger] r[i]).last_seen_ms is None ==> (#[trigger] r[j]).last_seen_ms is None
                &&& r[i].last_seen_ms matches Some(x) ==> (r[j].last_seen_ms matches Some(y) ==> x
                    >= y)
            },
{
    let all = s.devices.items();
    let p = is_remote(s.device_id@, false);
    let own = all.filter(p);
    let rows = own.map_values(|e: (String, DeviceRow)| stored_device(e));
    let leq = seen_order();
    assert forall|a: StoredDevice, b: StoredDevice| #[trigger] leq(a, b) || leq(b, a) by {}
    assert forall|a: StoredDevice, b: StoredDevice, c: StoredDevice| #[trigger]
        leq(a, b) && #[trigger] leq(b, c) implies leq(a, c) by {}
    law_stable_sort(rows, leq);
    lemma_sorted_has(rows, leq);
    lemma_filter_holds(all, p);
    assert forall|k: int|
        0 <= k < all.len() && (#[trigger] all[k]).1.trusted_at_ms is Some
            && all[k].1.revoked_at_ms is None && all[k].0@ != s.device_id@ implies exists|i: int|
        0 <= i < r.len() && (#[trigger] r[i]).device_id == all[k].0 by {
        let e = all[k];
        assert(p(e));
        assert(all.contains(e));
        assert(own.contains(e));
        let m = own.index_of(e);
        assert(rows[m] == stored_device(e));
        assert(rows.contains(rows[m]));
        assert(r.contains(rows[m]));
        let i = r.index_of(rows[m]);
        assert(r[i].device_id == e.0);
    }
    assert forall|i: int| 0 <= i < r.len() implies (#[trigger] r[i]).device_id@ != s.device_id@
        && is_trusted_in(s, r[i].device_id) by {
        assert(r.contains(r[i]));
        let m = rows.index_of(r[i]);
        assert(rows[m] == stored_device(own[m]));
        assert(own.contains(own[m]));
        assert(p(own[m]));
        let k = all.index_of(own[m]);
        assert(all[k] == own[m]);
    }
    assert forall|i: int, j: int| 0 <= i < j < r.len() implies {
        &&& (#[trigger] r[i]).last_seen_ms is None ==> (#[trigger] r[j]).last_seen_ms is None
        &&& r[i].last_seen_ms matches Some(x) ==> (r[j].last_seen_ms matches Some(y) ==> x >= y)
    } by {
        assert(leq(r[i], r[j]));
    }
}

/// Whether a device is in the table as one that is trusted.
pub open spec fn is_trusted_in(s: DeviceSync, id: String) -> bool {
    exists|k: int|
        0 <= k < s.devices.items().len() && (#[trigger] s.devices.items()[k]).0 == id
            && s.devices.items()[k].1.trusted_at_ms is Some
            && s.devices.items()[k].1.revoked_at_ms is None
}

/// Others are told of every device that was ever trusted, and whether its trust was
/// withdrawn, by their ids; of no other.
pub proof fn law_every_trusted_device_is_told_of(s: DeviceSync, r: Seq<DeviceProfileWire>)
    requires
        tells_profiles(s, r),
    ensures
        forall|k: int|
            0 <= k < s.devices.items().len() && (#[trigger] s.devices.items()[k]).1.trusted_at_ms
                is Some ==> exists|i: int|
                0 <= i < r.len() && (#[trigger] r[i]).device_id == s.devices.items()[k].0
                    && r[i].revoked == (s.devices.items()[k].1.revoked_at_ms is Some),
        forall|i: int|
            0 <= i < r.len() ==> exists|k: int|
                0 <= k < s.devices.items().len() && (#[trigger] s.devices.items()[k]).0 == (
                #[trigger] r[i]).device_id && s.devices.items()[k].1.trusted_at_ms is Some
                    && r[i].revoked == (s.devices.items()[k].1.revoked_at_ms is Some),
        forall|i: int, j: int|
            0 <= i < j < r.len() ==> !precedes(
                (#[trigger] r[j]).device_id@,
                (#[trigger] r[i]).device_id@,
            ),
{
    let all = s.devices.items();
    let p = is_trusted_entry();
    let own = all.filter(p);
    let rows = own.map_values(|e: (String, DeviceRow)| told_profile(e));
    let leq = profile_order();
    assert forall|a: DeviceProfileWire, b: DeviceProfileWire| #[trigger] leq(a, b) || leq(b, a) by {
        lemma_precedes_total(a.device_id@, b.device_id@);
    }
    assert forall|a: DeviceProfileWire, b: DeviceProfileWire, c: DeviceProfileWire| #[trigger]
        leq(a, b) && #[trigger] leq(b, c) implies leq(a, c) by {
        crate::federation::laws::lemma_no_order_is_total(
            a.device_id@,
            b.device_id@,
            c.device_id@,
        );
    }
    law_stable_sort(rows, leq);
    lemma_sorted_has(rows, leq);
    lemma_filter_holds(all, p);
    assert forall|k: int|
        0 <= k < all.len() && (#[trigger] all[k]).1.trusted_at_ms is Some implies exists|i: int|
        0 <= i < r.len() && (#[trigger] r[i]).device_id == all[k].0 && r[i].revoked == (
        all[k].1.revoked_at_ms is Some) by {
        let e = all[k];
        assert(p(e));
        assert(all.contains(e));
        assert(own.contains(e));
        let m = own.index_of(e);
        assert(rows[m] == told_profile(e));
        assert(rows.contains(rows[m]));
        assert(r.contains(rows[m]));
        let i = r.index_of(rows[m]);
        assert(r[i].device_id == e.0);
    }
    assert forall|i: int| 0 <= i < r.len() implies exists|k: int|
        0 <= k < all.len() && (#[trigger] all[k]).0 == (#[trigger] r[i]).device_id
            && all[k].1.trusted_at_ms is Some && r[i].revoked == (all[k].1.revoked_at_ms
            is Some) by {
        assert(r.contains(r[i]));
        let m = rows.index_of(r[i]);
        assert(rows[m] == told_profile(own[m]));
        assert(own.contains(own[m]));
        let k = all.index_of(own[m]);
        assert(all[k] == own[m]);
    }
    assert forall|i: int, j: int| 0 <= i < j < r.len() implies !precedes(
        (#[trigger] r[j]).device_id@,
        (#[trigger] r[i]).device_id@,
    ) by {
        assert(leq(r[i], r[j]));
    }
}

/// The playback of another device is news once: what is not newer than what was
/// heard, and one's own, is none.
pub proof fn law_playback_is_news_once(
    a: DeviceSync,
    b: DeviceSync,
    c: DeviceSync,
    snapshot: PlaybackSnapshot,
    r: bool,
    again: bool,
)
    requires
        hears_snapshot(a, b, snapshot, r),
        hears_snapshot(b, c, snapshot, again),
    ensures
        !again,
        snapshot.device_id@ == a.device_id@ ==> !r,
        snapshot.device_id@ != a.device_id@ && !a.remote_playback@.dom().contains(
            snapshot.device_id@,
        ) ==> r,
        snapshot.device_id@ != a.device_id@ && a.remote_playback@.dom().contains(
            snapshot.device_id@,
        ) ==> r == (snapshot.updated_at_ms > a.remote_playback@[snapshot.device_id@]),
        r ==> b.remote_playback@[snapshot.device_id@] == snapshot.updated_at_ms,
{
}

// ---------------------------------------------------------------------------
// Letting devices in
// ---------------------------------------------------------------------------

/// An invite that was made can be used with its secret for ten minutes, and not with
/// a secret of another digest; the invites that there were stay.
pub proof fn law_invite_opens_with_its_secret(
    a: DeviceSync,
    b: DeviceSync,
    ticket: Seq<char>,
    invite_id: Seq<char>,
    secret: Seq<char>,
    now_ms: i64,
    r: Option<InviteWire>,
    given: Seq<char>,
    request_id: Seq<char>,
    later: i64,
    other: Seq<char>,
)
    requires
        makes_invite(a, b, ticket, invite_id, secret, now_ms, r),
        r is Some,
        other != invite_id,
    ensures
        r->0.invite_id@ == invite_id,
        r->0.secret@ == secret,
        is_valid_request(b, invite_id, secret, request_id, later) <==> later <= now_ms + 10 * 60
            * 1000,
        crate::digest::digest_hex(given) != crate::digest::digest_hex(secret) ==> !is_valid_request(
            b,
            invite_id,
            given,
            request_id,
            later,
        ),
        b.invites@.dom().contains(other) <==> a.invites@.dom().contains(other),
        a.invites@.dom().contains(other) ==> b.invites@[other] == a.invites@[other],
        b.devices@ == a.devices@,
{
}

/// A device is let in only with an invite that is known and has not run out, with
/// the right secret, and after the person said yes to this very request. One that
/// is not let in is not trusted on that account, and the library stays.
pub proof fn law_only_the_invited_are_let_in(
    a: World,
    b: World,
    r: PairRequest,
    endpoint_id: String,
    address: Address,
    now: i64,
    oldest_command_ms: i64,
    outcome: PairOutcome,
)
    requires
        pairs(a, b, r, endpoint_id, address, now, oldest_command_ms, outcome),
    ensures
        outcome is LetIn ==> {
            let id = request_name(r.invite_id@, r.profile.device_id@);
            &&& a.sync.invites@.dom().contains(r.invite_id@)
            &&& a.sync.invites@[r.invite_id@].expires_at >= now
            &&& a.sync.invites@[r.invite_id@].secret_hash == crate::digest::digest_hex(r.secret@)
            &&& a.sync.pending@.dom().contains(id)
            &&& a.sync.pending@[id].status == PairingAnswer::Accepted
        },
        outcome is Refused ==> b.sync.devices@ == a.sync.devices@ && b.library == a.library
            && b.sync.invites@ == a.sync.invites@,
        a.sync.invites@.dom().contains(r.invite_id@) && a.sync.invites@[r.invite_id@].used_at
            is Some && !a.sync.pending@.dom().contains(
            request_name(r.invite_id@, r.profile.device_id@),
        ) ==> outcome is Refused && b == a,
{
    if let PairOutcome::LetIn { group_id, profile, told, news } = outcome {
        let (s, use_group, m, y) = choose|s: DeviceSync, use_group: bool, m: DeviceSync, y: World|
            #[trigger]
            let_in_through(
                a,
                b,
                r,
                endpoint_id,
                address,
                now,
                oldest_command_ms,
                group_id,
                profile,
                told,
                news,
                s,
                use_group,
                m,
                y,
            );
        assert(admits(
            a.sync,
            s,
            r,
            endpoint_id@,
            now,
            Admission::Accepted { use_requester_group: use_group },
            None,
        ));
    }
}

proof fn lemma_op_keeps_invites(
    a: World,
    b: World,
    op: SyncOpWire,
    now: i64,
    changed: bool,
    delivered: bool,
)
    requires
        receive_step(a, b, op, now, changed, delivered),
    ensures
        b.sync.invites == a.sync.invites,
        b.sync.device_id == a.sync.device_id,
        b.sync.group_id == a.sync.group_id,
{
}

pub proof fn lemma_received_keeps_invites(
    a: World,
    b: World,
    ops: Seq<SyncOpWire>,
    now: i64,
    w: Seq<World>,
    c: Seq<bool>,
    d: Seq<bool>,
    n: int,
)
    requires
        received_along(a, b, ops, now, w, c, d),
        0 <= n <= ops.len(),
    ensures
        w[n].sync.invites == a.sync.invites,
        w[n].sync.group_id == a.sync.group_id,
    decreases n,
{
    if n > 0 {
        lemma_received_keeps_invites(a, b, ops, now, w, c, d, n - 1);
        assert(receive_step(w[n - 1], w[n - 1 + 1], ops[n - 1], now, c[n - 1], d[n - 1]));
        lemma_op_keeps_invites(w[n - 1], w[n], ops[n - 1], now, c[n - 1], d[n - 1]);
    }
}

pub proof fn lemma_taken_keeps_invites(
    a: World,
    b: World,
    entries: Seq<Entry>,
    w: Seq<World>,
    c: Seq<bool>,
    n: int,
)
    requires
        taken_along(a, b, entries, w, c),
        0 <= n <= entries.len(),
    ensures
        w[n].sync.invites == a.sync.invites,
        w[n].sync.group_id == a.sync.group_id,
    decreases n,
{
    if n > 0 {
        lemma_taken_keeps_invites(a, b, entries, w, c, n - 1);
        assert(entry_step(w[n - 1], w[n - 1 + 1], entries[n - 1], c[n - 1]));
    }
}

/// An invite that let a device in is used up.
pub proof fn law_invite_is_used_up(
    a: World,
    b: World,
    r: PairRequest,
    endpoint_id: String,
    address: Address,
    now: i64,
    oldest_command_ms: i64,
    outcome: PairOutcome,
)
    requires
        pairs(a, b, r, endpoint_id, address, now, oldest_command_ms, outcome),
        outcome is LetIn,
    ensures
        b.sync.invites@.dom().contains(r.invite_id@),
        b.sync.invites@[r.invite_id@].used_at == Some(now),
{
    if let PairOutcome::LetIn { group_id, profile, told, news } = outcome {
        let (s, use_group, m, y) = choose|s: DeviceSync, use_group: bool, m: DeviceSync, y: World|
            #[trigger]
            let_in_through(
                a,
                b,
                r,
                endpoint_id,
                address,
                now,
                oldest_command_ms,
                group_id,
                profile,
                told,
                news,
                s,
                use_group,
                m,
                y,
            );
        let from = World { sync: m, library: a.library };
        let entries = crate::devices::exchange::snapshot_entries(r.snapshot);
        let commands = crate::devices::exchange::places(news.commands@);
        assert(takes_in(from, y, r.snapshot, r.ops@, now, news.changed, commands));
        let (x, c1, c2) = choose|x: World, c1: bool, c2: bool| #[trigger]
            takes(from, x, entries, c1) && #[trigger] receives(x, y, r.ops@, now, c2, commands)
                && news.changed == (c1 || c2);
        let (w, c) = choose|w: Seq<World>, c: Seq<bool>| #[trigger]
            taken_along(from, x, entries, w, c) && c1 == c.contains(true);
        lemma_taken_keeps_invites(from, x, entries, w, c, entries.len() as int);
        let (v, d, e) = choose|v: Seq<World>, d: Seq<bool>, e: Seq<bool>| #[trigger]
            received_along(x, y, r.ops@, now, v, d, e) && c2 == d.contains(true) && commands
                == crate::devices::exchange::command_places(v, e);
        lemma_received_keeps_invites(x, y, r.ops@, now, v, d, e, r.ops@.len() as int);
        assert(w[entries.len() as int] == x);
        assert(v[r.ops@.len() as int] == y);
    }
}

/// A greeting of a device of this group that is trusted is answered; one of another
/// group, or of a device that is not trusted, is turned away and changes
/// nothing.
pub proof fn law_greeting_needs_trust(
    a: World,
    b: World,
    h: Hello,
    endpoint_id: String,
    address: Address,
    now: i64,
    oldest_command_ms: i64,
    outcome: HelloOutcome,
)
    requires
        greets(a, b, h, endpoint_id, address, now, oldest_command_ms, outcome),
        h.profile.device_id@ != a.sync.device_id@,
    ensures
        ({
            let m = a.sync.devices@;
            let from = h.profile.device_id@;
            &&& outcome is Accepted <==> h.group_id@ == a.sync.group_id@ && m.dom().contains(from)
                && m[from].trusted_at is Some && m[from].revoked_at is None
            &&& outcome is Refused ==> b == a
            &&& outcome matches HelloOutcome::Accepted { told, news } ==> {
                &&& b.sync.acks@.dom().contains(from)
                &&& forall|i: int|
                    0 <= i < h.vector@.len() ==> b.sync.acks@[from].dom().contains(
                        (#[trigger] h.vector@[i]).0@,
                    ) && b.sync.acks@[from][h.vector@[i].0@] >= h.vector@[i].1
                &&& told.vector@ == b.sync.vectors.items()
                &&& sends_ops(b.sync, from, oldest_command_ms, told.ops@)
            }
        }),
{
    if let HelloOutcome::Accepted { told, news } = outcome {
        let from = h.profile.device_id@;
        let (m, y, own) = choose|m: DeviceSync, y: World, own: DeviceProfileWire| #[trigger]
            greeted_through(
                a,
                b,
                h,
                endpoint_id,
                address,
                now,
                oldest_command_ms,
                told,
                news,
                m,
                y,
                own,
            );
        lemma_bumped_all(acks_of(y.sync.acks@, from), h.vector@);
    }
}

// ---------------------------------------------------------------------------
// What is recorded
// ---------------------------------------------------------------------------

/// A like that is recorded on this device is in its library, and a withdrawal takes
/// it out, unless a later word on the track is known.
pub proof fn law_recorded_like_is_in_the_library(
    a: World,
    b: World,
    content_id: Seq<char>,
    liked: bool,
    now: i64,
    id: Seq<char>,
    k: int,
)
    requires
        records_like(a, b, content_id, liked, now),
        canonical(content_id) == Some(id),
        first_with_content(a.library.tracks@, id, k),
        a.sync.likes@.dom().contains(id) ==> a.sync.likes@[id].hlc <= a.sync.last_hlc_ms
            || a.sync.likes@[id].hlc < now,
    ensures
        liked <==> exists|m: int|
            0 <= m < b.library.likes@.len() && (#[trigger] b.library.likes@[m]).track_id
                == a.library.tracks@[k].id,
        b.sync.local_seq == a.sync.local_seq + 1,
{
    crate::content_id::law_canonical_is_idempotent(content_id);
    let p = choose|p: SyncOpPayload| #[trigger]
        record_step(a, b, p, now, false) && (p matches SyncOpPayload::TrackLikeSet {
            content_id: c,
            liked: l,
            fed,
        } && c@ == id && l == liked && fed is None);
    assert(record_step(a, b, p, now, false));
    crate::devices::laws::law_recording_moves_on(a, b, p, now, false);
    let (op, m, changed) = choose|op: SyncOpWire, m: DeviceSync, changed: bool| #[trigger]
        keep_step(a, World { sync: m, library: b.library }, op, now, changed, false) && is_next_op(
            a.sync,
            op,
            p,
            now,
        ) && crate::devices::gc::gc_step(m, b.sync);
    let x = World {
        sync: DeviceSync { local_seq: op.seq, last_hlc_ms: op.hlc_ms, ..a.sync },
        library: a.library,
    };
    let y = World {
        sync: DeviceSync { ops: a.sync.ops, vectors: a.sync.vectors, ..m },
        library: b.library,
    };
    assert(op_step(x, y, op, now, changed, false));
    law_like_reaches_the_library(
        x,
        y,
        id,
        liked,
        None,
        op.hlc_ms,
        op.op_id@,
        changed,
        id,
        k,
    );
    crate::devices::step_laws::law_latest_like_holds(
        x,
        y,
        id,
        liked,
        None,
        op.hlc_ms,
        op.op_id@,
        changed,
        id,
        id.push('x'),
    );
}

/// The deletion of a playlist that is recorded on this device takes it out of the
/// library, unless a later word on it is known.
pub proof fn law_recorded_deletion_is_in_the_library(
    a: World,
    b: World,
    playlist_id: i64,
    now: i64,
    k: int,
    id: Seq<char>,
)
    requires
        records_deletion(a, b, playlist_id, now),
        0 <= k < a.library.playlists@.len(),
        a.library.playlists@[k].id == playlist_id,
        forall|m: int| 0 <= m < k ==> (#[trigger] a.library.playlists@[m]).id != playlist_id,
        opt_view(a.library.playlists@[k].sync_id) == Some(id),
        a.sync.playlists@.dom().contains(id) ==> a.sync.playlists@[id].hlc <= a.sync.last_hlc_ms
            || a.sync.playlists@[id].hlc < now,
    ensures
        forall|m: int|
            0 <= m < b.library.playlists@.len() ==> opt_view(
                (#[trigger] b.library.playlists@[m]).sync_id,
            ) != Some(id),
{
    lemma_first_where(a.library.playlists@, is_playlist(playlist_id));
    assert(is_playlist(playlist_id)(a.library.playlists@[k]));
    let i = first_where(a.library.playlists@, is_playlist(playlist_id))->0;
    if i < k {
        assert(a.library.playlists@[i].id != playlist_id);
    }
    assert(sync_id_of(a.library, playlist_id) == Some(id));
    let p = choose|p: SyncOpPayload| #[trigger]
        record_step(a, b, p, now, false) && (p matches SyncOpPayload::PlaylistDeleted {
            playlist_id: i,
        } && i@ == id);
    assert(record_step(a, b, p, now, false));
    let (op, m, changed) = choose|op: SyncOpWire, m: DeviceSync, changed: bool| #[trigger]
        keep_step(a, World { sync: m, library: b.library }, op, now, changed, false) && is_next_op(
            a.sync,
            op,
            p,
            now,
        ) && crate::devices::gc::gc_step(m, b.sync);
    let x = World {
        sync: DeviceSync { local_seq: op.seq, last_hlc_ms: op.hlc_ms, ..a.sync },
        library: a.library,
    };
    let y = World {
        sync: DeviceSync { ops: a.sync.ops, vectors: a.sync.vectors, ..m },
        library: b.library,
    };
    assert(op_step(x, y, op, now, changed, false));
    law_playlist_reaches_the_library(
        x,
        y,
        id,
        Seq::empty(),
        true,
        op.hlc_ms,
        op.op_id@,
        changed,
    );
}

} // verus!
