//! What holds of how devices come into a group and leave it, and of what is kept
//! for those that are in it.

use crate::devices::exchange::{
    command_places, places, received_along, receives, snapshot_entries, taken_along, takes,
    takes_in,
};
use crate::devices::gc::{
    compactable, gc_step, going, is_other_op, kept_of, law_gc_keeps_what_is_needed, received_order,
    seen_by, seen_by_all, without_all, Kept,
};
use crate::devices::group_laws::{
    is_trusted_in, lemma_bumped_all, lemma_received_keeps_invites, lemma_taken_keeps_invites,
};
use crate::devices::model::{
    DeviceProfileWire, DeviceStatusRow, DeviceSyncStatus, InviteWire, PendingPairing, SyncOpPayload, SyncOpWire, SyncSnapshot,
};
use crate::devices::pairing::{
    admits, goes_on, invite_holds, request_name, Admission, InviteError, News, PairAttempt,
    PairNext, PairRequest, PairResponse, SyncResponse,
};
use crate::devices::peers::{
    is_active_entry, is_remote, is_trusted_entry, remote_devices, seen_order, stored_device,
    StoredDevice,
};
use crate::devices::record::{is_next_op, keep_step, record_step, revokes, RevokeError};
use crate::devices::session::{
    answered_along, answers_pairing, joins, pair_answered, sync_answered, welcomes,
};
use crate::devices::status::{
    is_outgoing, is_reachable, is_revoked_entry, is_tombstone_row, is_waiting, lists_targets,
    shown_device, shown_order, shows,
};
use crate::devices::sync::{DeviceSync, OpRow, PairingAnswer, World};
use crate::devices::trust::{active, DeviceRow};
use crate::library::tables::Library;
use crate::library::listing_laws::{lemma_no_case_order, lemma_sorted_has};
use crate::lists::{law_stable_sort, lemma_filter_holds, total_preorder};
use crate::text::{
    is_blank, lemma_precedes_total, lemma_precedes_transitive, precedes,
};
use vstd::prelude::*;

verus! {

// ---------------------------------------------------------------------------
// What goes and what stays
// ---------------------------------------------------------------------------

/// Whether an operation takes something away.
pub open spec fn withdraws(p: SyncOpPayload) -> bool {
    ||| p matches SyncOpPayload::TrackLikeSet { liked, .. } && !liked
    ||| p is PlaylistDeleted
    ||| p is PlaylistTrackRemoved
    ||| p is DeviceRevoked
}

/// Whether a device is known to have seen an operation.
pub open spec fn has_seen(s: DeviceSync, d: Seq<char>, r: OpRow) -> bool {
    let from = r.op.origin_device_id@;
    &&& d == s.device_id@ ==> if s.vectors@.dom().contains(from) {
        s.vectors@[from] >= r.op.seq
    } else {
        r.op.seq <= 0
    }
    &&& d != s.device_id@ && d != from ==> if s.acks@.dom().contains(d)
        && s.acks@[d].dom().contains(from) {
        s.acks@[d][from] >= r.op.seq
    } else {
        r.op.seq <= 0
    }
}

/// Whether a device takes part.
pub open spec fn takes_part(s: DeviceSync, d: Seq<char>) -> bool {
    s.devices@.dom().contains(d) && s.devices@[d].trusted_at is Some && s.devices@[d].revoked_at
        is None
}

proof fn lemma_two<T>(s: Seq<T>, p: spec_fn(T) -> bool, i: int, j: int)
    requires
        0 <= i < j < s.len(),
        p(s[i]),
        p(s[j]),
    ensures
        s.filter(p).len() >= 2,
    decreases s.len(),
{
    reveal(Seq::filter);
    let h = s.drop_last();
    if j == s.len() - 1 {
        assert(h[i] == s[i]);
        lemma_filter_holds(h, p);
        assert(h.contains(h[i]));
        assert(h.filter(p).contains(h[i]));
    } else {
        assert(h[i] == s[i] && h[j] == s[j]);
        lemma_two(h, p, i, j);
    }
}

/// Whether two devices take part.
pub open spec fn two_take_part(s: DeviceSync) -> bool {
    exists|i: int, j: int|
        0 <= i < j < s.devices.items().len() && (
        #[trigger] s.devices.items()[i]).1.trusted_at_ms is Some
            && s.devices.items()[i].1.revoked_at_ms is None && (
        #[trigger] s.devices.items()[j]).1.trusted_at_ms is Some
            && s.devices.items()[j].1.revoked_at_ms is None
}

proof fn lemma_gone(k: Kept, own: Seq<char>, rows: Seq<OpRow>, r: OpRow)
    requires
        rows.contains(r),
    ensures
        !without_all(k, own, rows).ops.contains(r),
    decreases rows.len(),
{
    let h = rows.drop_last();
    let before = without_all(k, own, h);
    let p = is_other_op(rows.last().op.op_id@);
    lemma_filter_holds(before.ops, p);
    assert(without_all(k, own, rows).ops == before.ops.filter(p));
    if rows.last() != r {
        let i = rows.index_of(r);
        assert(h[i] == r);
        lemma_gone(k, own, h, r);
    } else {
        assert(!p(r));
    }
}

/// Only what takes something away is ever cleared, and while two devices take part only
/// what each of those that do has seen. What takes something away and has been seen by
/// all is cleared.
pub proof fn law_only_settled_removals_go(a: DeviceSync, b: DeviceSync, i: int)
    requires
        gc_step(a, b),
        forall|j: int, k: int|
            0 <= j < a.ops@.len() && 0 <= k < a.ops@.len() && (#[trigger] a.ops@[j]).op.op_id@ == (
            #[trigger] a.ops@[k]).op.op_id@ ==> j == k,
        0 <= i < a.ops@.len(),
    ensures
        !b.ops@.contains(a.ops@[i]) ==> withdraws(a.ops@[i].op.payload),
        !b.ops@.contains(a.ops@[i]) && two_take_part(a) ==> forall|d: Seq<char>|
            #[trigger] takes_part(a, d) ==> has_seen(a, d, a.ops@[i]),
        withdraws(a.ops@[i].op.payload) && (forall|d: Seq<char>|
            #[trigger] takes_part(a, d) ==> has_seen(a, d, a.ops@[i])) ==> !b.ops@.contains(
            a.ops@[i],
        ),
{
    let r = a.ops@[i];
    let c = compactable(a);
    assert forall|d: Seq<char>| d != r.op.origin_device_id@ || d == a.device_id@ implies (seen_by(
        a,
        d,
        r,
    ) >= r.op.seq) == #[trigger] has_seen(a, d, r) by {}
    assert forall|d: Seq<char>| #[trigger] takes_part(a, d) == active(a.devices@, d) by {}
    assert(seen_by_all(a, r) == (forall|d: Seq<char>| #[trigger]
        takes_part(a, d) ==> has_seen(a, d, r))) by {
        if seen_by_all(a, r) {
            assert forall|d: Seq<char>| #[trigger] takes_part(a, d) implies has_seen(a, d, r) by {
                assert(active(a.devices@, d));
                assert(seen_by(a, d, r) >= r.op.seq);
            }
        }
        if forall|d: Seq<char>| #[trigger] takes_part(a, d) ==> has_seen(a, d, r) {
            assert forall|d: Seq<char>| #[trigger] active(a.devices@, d) implies seen_by(a, d, r)
                >= r.op.seq by {
                assert(takes_part(a, d));
                assert(has_seen(a, d, r));
            }
        }
    }
    if !b.ops@.contains(r) {
        if !c(r) {
            law_gc_keeps_what_is_needed(a, b, i);
        }
        if two_take_part(a) {
            let all = a.devices.items();
            let (x, y) = choose|x: int, y: int|
                0 <= x < y < all.len() && (#[trigger] all[x]).1.trusted_at_ms is Some
                    && all[x].1.revoked_at_ms is None && (#[trigger] all[y]).1.trusted_at_ms is Some
                    && all[y].1.revoked_at_ms is None;
            lemma_two(all, is_active_entry(), x, y);
        }
    }
    if c(r) {
        let rows = a.ops@.filter(c);
        lemma_filter_holds(a.ops@, c);
        assert(a.ops@.contains(r));
        assert(rows.contains(r));
        lemma_sorted_has(rows, received_order());
        assert(going(a).contains(r));
        lemma_gone(kept_of(a), a.device_id@, going(a), r);
    }
}

/// Clearing leaves every like that stands, and every device that takes part.
pub proof fn law_clearing_loses_no_like_and_no_device(a: DeviceSync, b: DeviceSync)
    requires
        gc_step(a, b),
    ensures
        forall|k: Seq<char>| #[trigger]
            a.likes@.dom().contains(k) && a.likes@[k].liked ==> b.likes@.dom().contains(k)
                && b.likes@[k] == a.likes@[k],
        forall|k: Seq<char>| #[trigger]
            b.likes@.dom().contains(k) ==> a.likes@.dom().contains(k) && b.likes@[k] == a.likes@[k],
        forall|d: Seq<char>| #[trigger]
            a.devices@.dom().contains(d) && a.devices@[d].revoked_at is None
                ==> b.devices@.dom().contains(d),
        forall|d: Seq<char>| #[trigger]
            b.devices@.dom().contains(d) ==> a.devices@.dom().contains(d) && b.devices@[d]
                == a.devices@[d],
        b.playlists == a.playlists,
        b.items == a.items,
        b.group_id == a.group_id,
        b.device_id == a.device_id,
        b.pending == a.pending,
        b.invites == a.invites,
{
    lemma_devices_stay(kept_of(a), a.device_id@, going(a));
    assert(b.devices@ == kept_of(b).devices);
}

proof fn lemma_devices_stay(k: Kept, own: Seq<char>, rows: Seq<OpRow>)
    ensures
        ({
            let m = without_all(k, own, rows).devices;
            &&& forall|d: Seq<char>| #[trigger]
                k.devices.dom().contains(d) && k.devices[d].revoked_at is None
                    ==> m.dom().contains(d)
            &&& forall|d: Seq<char>| #[trigger]
                m.dom().contains(d) ==> k.devices.dom().contains(d) && m[d] == k.devices[d]
        }),
    decreases rows.len(),
{
    if rows.len() > 0 {
        lemma_devices_stay(k, own, rows.drop_last());
        let b = without_all(k, own, rows.drop_last()).devices;
        let m = without_all(k, own, rows).devices;
        assert forall|d: Seq<char>| #[trigger]
            k.devices.dom().contains(d) && k.devices[d].revoked_at is None implies m.dom().contains(
            d,
        ) by {
            assert(b.dom().contains(d));
        }
        assert forall|d: Seq<char>| #[trigger] m.dom().contains(d) implies k.devices.dom().contains(
            d,
        ) && m[d] == k.devices[d] by {
            assert(b.dom().contains(d));
        }
    }
}

// ---------------------------------------------------------------------------
// The answer of the person
// ---------------------------------------------------------------------------

/// A device that asks for the first time with an invite that holds waits for an answer,
/// and the person is asked, once, under the name that it gives. Without such an invite
/// nothing changes.
pub proof fn law_first_request_is_put_to_the_person(
    a: DeviceSync,
    b: DeviceSync,
    r: PairRequest,
    endpoint_id: Seq<char>,
    now: i64,
    admission: Admission,
    asked: Option<PendingPairing>,
)
    requires
        admits(a, b, r, endpoint_id, now, admission, asked),
    ensures
        ({
            let id = request_name(r.invite_id@, r.profile.device_id@);
            let holds = a.invites@.dom().contains(r.invite_id@)
                && a.invites@[r.invite_id@].expires_at >= now
                && a.invites@[r.invite_id@].secret_hash == crate::digest::digest_hex(r.secret@);
            &&& !holds ==> admission is Invalid && asked is None && b == a
            &&& holds && a.invites@[r.invite_id@].used_at is None && !a.pending@.dom().contains(id)
                ==> {
                &&& admission is Pending
                &&& asked is Some
                &&& asked->0.device_id@ == r.profile.device_id@
                &&& asked->0.name@ == r.profile.name@
                &&& asked->0.request_id@ == id
                &&& b.pending@.dom().contains(id)
                &&& b.pending@[id].status == PairingAnswer::Pending
                &&& b.pending@[id].device_id == r.profile.device_id@
            }
            &&& a.pending@.dom().contains(id) ==> asked is None && b.pending@ == a.pending@
            &&& holds && a.pending@.dom().contains(id) && a.pending@[id].status
                == PairingAnswer::Accepted ==> admission is Accepted
            &&& admission is Accepted ==> a.pending@.dom().contains(id) && a.pending@[id].status
                == PairingAnswer::Accepted
            &&& b.devices == a.devices
            &&& b.group_id == a.group_id
        }),
{
}

/// What recording that a device is trusted does.
proof fn lemma_trust_recorded(a: World, b: World, p: SyncOpPayload, now: i64, d: Seq<char>)
    requires
        record_step(a, b, p, now, false),
        p matches SyncOpPayload::DeviceTrusted { target_device_id: t } && t@ == d,
    ensures
        b.sync.group_id == a.sync.group_id,
        b.sync.pending == a.sync.pending,
        b.sync.device_id == a.sync.device_id,
        b.library == a.library,
        b.sync.devices@.dom().contains(d) ==> b.sync.devices@[d].trusted_at is Some,
        a.sync.devices@.dom().contains(d) && a.sync.devices@[d].revoked_at is None
            ==> b.sync.devices@.dom().contains(d) && b.sync.devices@[d].trusted_at is Some
            && b.sync.devices@[d].revoked_at is None,
{
    let (op, m, changed) = choose|op: SyncOpWire, m: DeviceSync, changed: bool| #[trigger]
        keep_step(a, World { sync: m, library: b.library }, op, now, changed, false) && is_next_op(
            a.sync,
            op,
            p,
            now,
        ) && gc_step(m, b.sync);
    law_clearing_loses_no_like_and_no_device(m, b.sync);
    assert(m.devices@.dom().contains(d) && m.devices@[d].trusted_at is Some);
    assert(b.sync.devices@.dom().contains(d) ==> b.sync.devices@[d] == m.devices@[d]);
}

/// A device that is let in by the person is trusted from then on, and its request is
/// answered so. One that is turned away is not heard of again, and nothing else changes.
/// A request that does not wait is not answered.
pub proof fn law_the_person_decides(
    a: World,
    b: World,
    id: Seq<char>,
    accept: bool,
    use_requester_group: bool,
    now: i64,
)
    requires
        answers_pairing(a, b, id, accept, use_requester_group, now),
    ensures
        ({
            let waiting = a.sync.pending@.dom().contains(id) && a.sync.pending@[id].status
                == PairingAnswer::Pending;
            let d = a.sync.pending@[id].device_id;
            &&& !waiting ==> b == a
            &&& waiting ==> b.sync.pending@.dom().contains(id) && b.library == a.library
            &&& waiting && accept ==> b.sync.pending@[id].status == PairingAnswer::Accepted
            &&& waiting && !accept ==> b.sync.pending@[id].status == PairingAnswer::Denied
                && b.sync.devices == a.sync.devices && b.sync.group_id == a.sync.group_id
            &&& waiting && accept && !use_requester_group ==> b.sync.group_id@ == a.sync.group_id@
            &&& waiting && accept && use_requester_group && a.sync.pending@[id].group_id is Some
                && !is_blank(a.sync.pending@[id].group_id->0) ==> b.sync.group_id@
                == a.sync.pending@[id].group_id->0
            &&& waiting && accept && !use_requester_group && d != a.sync.device_id@ && (
            a.sync.devices@.dom().contains(d) ==> (a.sync.devices@[d].revoked_at matches Some(t)
                ==> t <= now)) ==> takes_part(b.sync, d)
            &&& forall|o: Seq<char>|
                o != id ==> (#[trigger] b.sync.pending@.dom().contains(o)
                    == a.sync.pending@.dom().contains(o)) && (a.sync.pending@.dom().contains(o)
                    ==> b.sync.pending@[o] == a.sync.pending@[o])
        }),
{
    if a.sync.pending@.dom().contains(id) && a.sync.pending@[id].status == PairingAnswer::Pending
        && accept {
        let (m, profile, p) = choose|m: DeviceSync, profile: DeviceProfileWire, p: SyncOpPayload|
            #![trigger welcomes(a.sync, m, id, use_requester_group, now, profile), record_step(
                World { sync: m, library: a.library }, b, p, now, false)]
            welcomes(a.sync, m, id, use_requester_group, now, profile) && record_step(
                World { sync: m, library: a.library },
                b,
                p,
                now,
                false,
            ) && (p matches SyncOpPayload::DeviceTrusted { target_device_id: t } && t@
                == a.sync.pending@[id].device_id);
        lemma_trust_recorded(
            World { sync: m, library: a.library },
            b,
            p,
            now,
            a.sync.pending@[id].device_id,
        );
    }
}

/// A device whose trust is withdrawn takes part no more; the own device cannot be shut
/// out, and the others keep taking part.
pub proof fn law_withdrawn_device_takes_part_no_more(
    a: World,
    b: World,
    d: Seq<char>,
    now: i64,
    r: Result<(), RevokeError>,
)
    requires
        revokes(a, b, d, now, r),
        a.sync.devices@.dom().contains(d) ==> (a.sync.devices@[d].trusted_at matches Some(t) ==> t
            <= now) && (a.sync.devices@[d].revoked_at matches Some(t) ==> t <= now),
        now >= 0,
    ensures
        r is Err <==> d == a.sync.device_id@,
        r is Err ==> b == a,
        r is Ok ==> !takes_part(b.sync, d),
        r is Ok ==> forall|o: Seq<char>|
            o != d && #[trigger] takes_part(a.sync, o) ==> takes_part(b.sync, o),
        b.library == a.library,
{
    if r is Ok {
        let (p, m) = choose|p: SyncOpPayload, m: DeviceSync| #[trigger]
            record_step(a, World { sync: m, library: b.library }, p, now, false) && gc_step(
                m,
                b.sync,
            ) && (p matches SyncOpPayload::DeviceRevoked { target_device_id: t, .. } && t@ == d);
        let c = World { sync: m, library: b.library };
        let (op, x, changed) = choose|op: SyncOpWire, x: DeviceSync, changed: bool| #[trigger]
            keep_step(a, World { sync: x, library: c.library }, op, now, changed, false)
                && is_next_op(a.sync, op, p, now) && gc_step(x, c.sync);
        law_clearing_loses_no_like_and_no_device(x, m);
        law_clearing_loses_no_like_and_no_device(m, b.sync);
        assert(op.hlc_ms >= now);
        assert forall|o: Seq<char>| o != d && #[trigger] takes_part(a.sync, o) implies takes_part(
            b.sync,
            o,
        ) by {
            assert(x.devices@.dom().contains(o) && x.devices@[o] == a.sync.devices@[o]);
            assert(m.devices@.dom().contains(o));
            assert(b.sync.devices@.dom().contains(o));
        }
        assert(x.devices@.dom().contains(d) && x.devices@[d].revoked_at is Some);
    }
}

// ---------------------------------------------------------------------------
// Joining
// ---------------------------------------------------------------------------

/// An invite is tried until it expires, and for no longer than one waits for an answer.
/// One that has expired is not tried.
pub proof fn law_invite_is_tried_while_it_holds(
    invite: InviteWire,
    now: i64,
    r: Result<i64, InviteError>,
)
    requires
        invite_holds(invite, now, r),
        now + crate::devices::model::PAIRING_WAIT_MS <= i64::MAX,
    ensures
        r is Ok <==> invite.v == 1 && invite.expires_at_ms >= now,
        r matches Ok(t) ==> now <= t <= invite.expires_at_ms,
        r matches Ok(t) ==> t == invite.expires_at_ms || t == now
            + crate::devices::model::PAIRING_WAIT_MS,
        invite.v == 1 && invite.expires_at_ms < now ==> r == Err::<i64, InviteError>(
            InviteError::Expired,
        ),
{
}

/// Joining ends with an answer, or when its time is over; until then it is tried again.
pub proof fn law_joining_goes_on_until_answered(
    attempt: PairAttempt,
    now: i64,
    deadline: i64,
    r: PairNext,
)
    requires
        goes_on(attempt, now, deadline, r),
    ensures
        r is Joined <==> attempt is Accepted,
        attempt is Denied ==> r is GiveUp,
        attempt is Pending || attempt is Failed ==> (r is TryAgain <==> now < deadline),
{
}

proof fn lemma_taking_in_keeps(
    a: World,
    b: World,
    snapshot: SyncSnapshot,
    ops: Seq<SyncOpWire>,
    now: i64,
    changed: bool,
    commands: Seq<int>,
)
    requires
        takes_in(a, b, snapshot, ops, now, changed, commands),
    ensures
        b.sync.invites == a.sync.invites,
        b.sync.group_id == a.sync.group_id,
{
    let entries = snapshot_entries(snapshot);
    let (x, c1, c2) = choose|x: World, c1: bool, c2: bool| #[trigger]
        takes(a, x, entries, c1) && #[trigger] receives(x, b, ops, now, c2, commands) && changed
            == (c1 || c2);
    let (w, c) = choose|w: Seq<World>, c: Seq<bool>| #[trigger]
        taken_along(a, x, entries, w, c) && c1 == c.contains(true);
    lemma_taken_keeps_invites(a, x, entries, w, c, entries.len() as int);
    let (v, d, e) = choose|v: Seq<World>, d: Seq<bool>, e: Seq<bool>| #[trigger]
        received_along(x, b, ops, now, v, d, e) && c2 == d.contains(true) && commands
            == command_places(v, e);
    lemma_received_keeps_invites(x, b, ops, now, v, d, e, ops.len() as int);
    assert(w[entries.len() as int] == x);
    assert(v[ops.len() as int] == b);
}

/// A device that is let in is in the group of those that let it in, and trusts the one
/// that invited it. One that is not let in stays as it was.
pub proof fn law_joining_takes_the_group(
    a: World,
    b: World,
    inviter: Seq<char>,
    r: PairResponse,
    now: i64,
    attempt: PairAttempt,
    news: News,
)
    requires
        pair_answered(a, b, inviter, r, now, attempt, news),
    ensures
        attempt is Accepted <==> r.accepted && r.group_id is Some,
        attempt is Accepted ==> b.sync.group_id@ == r.group_id->0@,
        attempt is Accepted && b.sync.devices@.dom().contains(inviter)
            ==> b.sync.devices@[inviter].trusted_at is Some,
        !(attempt is Accepted) ==> b == a,
        !r.accepted && r.pending ==> attempt is Pending,
        !r.accepted && !r.pending ==> attempt is Denied,
{
    if r.accepted && r.group_id is Some {
        let commands = places(news.commands@);
        let (m, y, z, x, p) = choose|
            m: DeviceSync,
            y: World,
            z: World,
            x: DeviceSync,
            p: SyncOpPayload,
        | #[trigger]
            joins(a, b, inviter, r, now, news.changed, commands, m, y, z, x, p);
        lemma_taking_in_keeps(
            World { sync: m, library: a.library },
            y,
            r.snapshot,
            r.ops@,
            now,
            news.changed,
            commands,
        );
        lemma_trust_recorded(y, z, p, now, inviter);
        law_clearing_loses_no_like_and_no_device(x, b.sync);
    }
}

/// After a synchronisation this device knows what the other one has seen, is in the same
/// group as before, and shows no error. One that was refused changes nothing.
pub proof fn law_synchronising_notes_what_was_seen(
    a: World,
    b: World,
    peer: Seq<char>,
    endpoint_id: Seq<char>,
    r: SyncResponse,
    now: i64,
    result: Result<News, String>,
)
    requires
        sync_answered(a, b, peer, endpoint_id, r, now, result),
    ensures
        result is Ok <==> r.accepted,
        result is Err ==> b == a,
        result is Ok ==> {
            &&& b.sync.group_id == a.sync.group_id
            &&& b.sync.last_error is None
            &&& b.sync.last_sync is Some
            &&& b.sync.acks@.dom().contains(peer)
            &&& forall|i: int|
                0 <= i < r.vector@.len() ==> b.sync.acks@[peer].dom().contains(
                    (#[trigger] r.vector@[i]).0@,
                ) && b.sync.acks@[peer][r.vector@[i].0@] >= r.vector@[i].1
            &&& b.sync.devices@.dom().contains(peer) ==> b.sync.devices@[peer].last_seen == Some(now)
        },
{
    if let Ok(news) = result {
        let commands = places(news.commands@);
        let (m, y) = choose|m: DeviceSync, y: World| #[trigger]
            answered_along(a, b, peer, endpoint_id, r, now, news.changed, commands, m, y);
        lemma_taking_in_keeps(
            World { sync: m, library: a.library },
            y,
            r.snapshot,
            r.ops@,
            now,
            news.changed,
            commands,
        );
        lemma_bumped_all(crate::devices::peers::acks_of(y.sync.acks@, peer), r.vector@);
    }
}

// ---------------------------------------------------------------------------
// What is shown
// ---------------------------------------------------------------------------

proof fn lemma_shown_order()
    ensures
        total_preorder(shown_order()),
{
    let leq = shown_order();
    assert forall|a: DeviceStatusRow, b: DeviceStatusRow| #[trigger] leq(a, b) || leq(b, a) by {
        lemma_no_case_order(a.name@, b.name@, b.name@);
        lemma_precedes_total(a.device_id@, b.device_id@);
    }
    assert forall|a: DeviceStatusRow, b: DeviceStatusRow, c: DeviceStatusRow| #[trigger]
        leq(a, b) && #[trigger] leq(b, c) implies leq(a, c) by {
        lemma_no_case_order(a.name@, b.name@, c.name@);
        lemma_no_case_order(c.name@, a.name@, b.name@);
        lemma_no_case_order(b.name@, c.name@, a.name@);
        lemma_no_case_order(c.name@, b.name@, a.name@);
        lemma_precedes_total(a.device_id@, b.device_id@);
        lemma_precedes_total(b.device_id@, c.device_id@);
        lemma_precedes_total(a.device_id@, c.device_id@);
        if precedes(c.device_id@, a.device_id@) && precedes(a.device_id@, b.device_id@) {
            lemma_precedes_transitive(c.device_id@, a.device_id@, b.device_id@);
        }
    }
}

/// The status shows every device that was ever trusted and no other, the own one marked,
/// those whose trust was withdrawn marked and behind the others.
pub proof fn law_status_shows_the_devices(s: DeviceSync, l: Library, r: DeviceSyncStatus)
    requires
        shows(s, l, r),
    ensures
        forall|k: int|
            0 <= k < s.devices.items().len() && (#[trigger] s.devices.items()[k]).1.trusted_at_ms
                is Some ==> exists|i: int|
                0 <= i < r.devices@.len() && is_shown_as(
                    s,
                    s.devices.items()[k],
                    #[trigger] r.devices@[i],
                ),
        forall|i: int|
            0 <= i < r.devices@.len() ==> is_known(s, #[trigger] r.devices@[i]),
        forall|i: int, j: int|
            0 <= i < j < r.devices@.len() && (#[trigger] r.devices@[i]).revoked ==> (
            #[trigger] r.devices@[j]).revoked,
        r.this_device_id@ == s.device_id@,
        r.group_id@ == s.group_id@,
{
    let all = s.devices.items();
    let p = is_trusted_entry();
    let known = all.filter(p);
    let rows = known.map_values(|e: (String, DeviceRow)| shown_device(s.device_id@, e));
    let leq = shown_order();
    lemma_shown_order();
    law_stable_sort(rows, leq);
    lemma_sorted_has(rows, leq);
    lemma_filter_holds(all, p);
    assert forall|k: int| 0 <= k < all.len() && (#[trigger] all[k]).1.trusted_at_ms
        is Some implies exists|i: int|
        0 <= i < r.devices@.len() && is_shown_as(s, all[k], #[trigger] r.devices@[i]) by {
        let e = all[k];
        assert(all.contains(e));
        assert(known.contains(e));
        let m = known.index_of(e);
        assert(rows[m] == shown_device(s.device_id@, e));
        assert(rows.contains(rows[m]));
        assert(r.devices@.contains(rows[m]));
        let i = r.devices@.index_of(rows[m]);
        assert(is_shown_as(s, e, r.devices@[i]));
    }
    assert forall|i: int| 0 <= i < r.devices@.len() implies is_known(
        s,
        #[trigger] r.devices@[i],
    ) by {
        assert(r.devices@.contains(r.devices@[i]));
        let m = rows.index_of(r.devices@[i]);
        assert(rows[m] == shown_device(s.device_id@, known[m]));
        assert(known.contains(known[m]));
        let k = all.index_of(known[m]);
        assert(is_shown_as(s, all[k], r.devices@[i]));
    }
    assert forall|i: int, j: int|
        0 <= i < j < r.devices@.len() && (#[trigger] r.devices@[i]).revoked implies (
    #[trigger] r.devices@[j]).revoked by {
        assert(leq(r.devices@[i], r.devices@[j]));
    }
}

/// Whether a device of the table is shown as a row of the status.
pub open spec fn is_shown_as(s: DeviceSync, e: (String, DeviceRow), d: DeviceStatusRow) -> bool {
    &&& d.device_id@ == e.0@
    &&& d.name@ == e.1.name@
    &&& d.last_seen_ms == e.1.last_seen_ms
    &&& d.revoked == (e.1.revoked_at_ms is Some)
    &&& d.is_self == (e.0@ == s.device_id@)
}

/// Whether a row of the status shows a device that was trusted.
pub open spec fn is_known(s: DeviceSync, d: DeviceStatusRow) -> bool {
    exists|k: int|
        0 <= k < s.devices.items().len() && is_shown_as(s, #[trigger] s.devices.items()[k], d)
            && s.devices.items()[k].1.trusted_at_ms is Some
}

proof fn lemma_none_left<T>(s: Seq<T>, p: spec_fn(T) -> bool)
    ensures
        s.filter(p).len() == 0 <==> forall|i: int| 0 <= i < s.len() ==> !p(#[trigger] s[i]),
{
    lemma_filter_holds(s, p);
    if s.filter(p).len() > 0 {
        assert(s.filter(p).contains(s.filter(p)[0]));
        let i = s.index_of(s.filter(p)[0]);
        assert(p(s[i]));
    } else {
        assert forall|i: int| 0 <= i < s.len() implies !p(#[trigger] s[i]) by {
            if p(s[i]) {
                assert(s.contains(s[i]));
                assert(s.filter(p).contains(s[i]));
            }
        }
    }
}

/// Nothing is said to wait exactly when nothing does: no operation that a device which
/// takes part has not seen, no request without an answer, no device shut out.
pub proof fn law_status_says_what_waits(s: DeviceSync, l: Library, r: DeviceSyncStatus)
    requires
        shows(s, l, r),
    ensures
        r.ops_total == s.ops@.len(),
        r.pending_requests == 0 <==> forall|k: int|
            0 <= k < s.pending.items().len() ==> (#[trigger] s.pending.items()[k]).1.status
                != PairingAnswer::Pending,
        r.revoked_devices == 0 <==> forall|k: int|
            0 <= k < s.devices.items().len() ==> (#[trigger] s.devices.items()[k]).1.revoked_at_ms
                is None,
        r.tombstone_ops == 0 <==> forall|k: int|
            0 <= k < s.ops@.len() ==> !withdraws((#[trigger] s.ops@[k]).op.payload),
        r.outbox_ops == 0 <==> forall|k: int, d: Seq<char>|
            0 <= k < s.ops@.len() && #[trigger] takes_part(s, d) && d != s.device_id@
                ==> !is_lacking_still(s, d, #[trigger] s.ops@[k]),
        r.snapshot_likes == 0 <==> forall|k: int|
            0 <= k < s.likes.items().len() ==> !(#[trigger] s.likes.items()[k]).1.liked,
{
    lemma_none_left(s.pending.items(), is_waiting());
    lemma_none_left(s.devices.items(), is_revoked_entry());
    lemma_none_left(s.likes.items(), crate::devices::snapshot::is_like(true));
    lemma_none_left(s.ops@, is_tombstone_row());
    lemma_none_left(s.ops@, is_outgoing(s));
    let p = is_waiting();
    assert forall|k: int| 0 <= k < s.pending.items().len() implies p(s.pending.items()[k]) == ((
    #[trigger] s.pending.items()[k]).1.status == PairingAnswer::Pending) by {}
    let q = is_revoked_entry();
    assert forall|k: int| 0 <= k < s.devices.items().len() implies q(s.devices.items()[k]) == ((
    #[trigger] s.devices.items()[k]).1.revoked_at_ms is Some) by {}
    let t = is_tombstone_row();
    assert forall|k: int| 0 <= k < s.ops@.len() implies t(s.ops@[k]) == withdraws(
        (#[trigger] s.ops@[k]).op.payload,
    ) by {}
    let o = is_outgoing(s);
    assert forall|d: Seq<char>| #[trigger] takes_part(s, d) == active(s.devices@, d) by {}
    assert forall|k: int| 0 <= k < s.ops@.len() implies o(s.ops@[k]) == (exists|d: Seq<char>|
        #[trigger] takes_part(s, d) && d != s.device_id@ && is_lacking_still(
            s,
            d,
            #[trigger] s.ops@[k],
        )) by {
        let row = s.ops@[k];
        if o(row) {
            let d = choose|d: Seq<char>| #[trigger]
                active(s.devices@, d) && d != s.device_id@ && row.op.seq
                    > crate::devices::peers::acked(s.acks@, d, row.op.origin_device_id@);
            assert(takes_part(s, d));
        }
        if exists|d: Seq<char>| #[trigger]
            takes_part(s, d) && d != s.device_id@ && is_lacking_still(s, d, row) {
            let d = choose|d: Seq<char>| #[trigger]
                takes_part(s, d) && d != s.device_id@ && is_lacking_still(s, d, row);
            assert(active(s.devices@, d));
        }
    }
}

/// Whether a device is not known to have seen an operation.
pub open spec fn is_lacking_still(s: DeviceSync, d: Seq<char>, r: OpRow) -> bool {
    let from = r.op.origin_device_id@;
    if s.acks@.dom().contains(d) && s.acks@[d].dom().contains(from) {
        r.op.seq > s.acks@[d][from]
    } else {
        r.op.seq > 0
    }
}

/// Every other device that takes part and says where it can be reached is synchronised
/// with, and no other.
pub proof fn law_reachable_devices_are_synchronised_with(s: DeviceSync, r: Seq<StoredDevice>)
    requires
        lists_targets(s, r),
    ensures
        forall|k: int|
            0 <= k < s.devices.items().len() && (#[trigger] s.devices.items()[k]).1.trusted_at_ms
                is Some && s.devices.items()[k].1.revoked_at_ms is None
                && s.devices.items()[k].0@ != s.device_id@ && !is_blank(
                s.devices.items()[k].1.endpoint_ticket@,
            ) ==> exists|i: int|
                0 <= i < r.len() && (#[trigger] r[i]).device_id == s.devices.items()[k].0,
        forall|i: int|
            0 <= i < r.len() ==> (#[trigger] r[i]).device_id@ != s.device_id@ && is_trusted_in(
                s,
                r[i].device_id,
            ) && !is_blank(r[i].endpoint_ticket@),
{
    let all = s.devices.items();
    let p = is_remote(s.device_id@, false);
    let own = all.filter(p);
    let rows = own.map_values(|e: (String, DeviceRow)| stored_device(e));
    let sorted = remote_devices(s, false);
    lemma_sorted_has(rows, seen_order());
    lemma_filter_holds(all, p);
    lemma_filter_holds(sorted, is_reachable());
    assert forall|k: int|
        0 <= k < all.len() && (#[trigger] all[k]).1.trusted_at_ms is Some
            && all[k].1.revoked_at_ms is None && all[k].0@ != s.device_id@ && !is_blank(
            all[k].1.endpoint_ticket@,
        ) implies exists|i: int| 0 <= i < r.len() && (#[trigger] r[i]).device_id == all[k].0 by {
        let e = all[k];
        assert(p(e));
        assert(all.contains(e));
        assert(own.contains(e));
        let m = own.index_of(e);
        assert(rows[m] == stored_device(e));
        assert(rows.contains(rows[m]));
        assert(sorted.contains(rows[m]));
        assert(r.contains(rows[m]));
        let i = r.index_of(rows[m]);
        assert(r[i].device_id == e.0);
    }
    assert forall|i: int| 0 <= i < r.len() implies (#[trigger] r[i]).device_id@ != s.device_id@
        && is_trusted_in(s, r[i].device_id) && !is_blank(r[i].endpoint_ticket@) by {
        assert(r.contains(r[i]));
        assert(sorted.contains(r[i]));
        assert(rows.contains(r[i]));
        let m = rows.index_of(r[i]);
        assert(rows[m] == stored_device(own[m]));
        assert(own.contains(own[m]));
        assert(p(own[m]));
        let k = all.index_of(own[m]);
        assert(all[k] == own[m]);
    }
}

} // verus!
