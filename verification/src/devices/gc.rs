//! Tombstones go once every device that takes part has seen them.

use crate::devices::lww::{LikeState, LikeView};
use crate::devices::model::{takes_away, SyncOpPayload};
use crate::devices::peers::{acked, active_count};
use crate::devices::sync::{bumped, DeviceSync, OpRow};
use crate::devices::trust::{active, Devices};
use crate::keyed::kept;
use crate::lists::{
    find_by, first_where, picked, retain_by, select_by, sort_places, stable_sorted, within,
};
use crate::text::same;
use vstd::prelude::*;

verus! {

/// Up to which operation of an origin a device has seen everything, as far as
/// is known here. A device has seen its own.
pub open spec fn seen_by(s: DeviceSync, device: Seq<char>, r: OpRow) -> i64 {
    if device == s.device_id@ {
        if s.vectors@.dom().contains(r.op.origin_device_id@) {
            s.vectors@[r.op.origin_device_id@]
        } else {
            0
        }
    } else if device == r.op.origin_device_id@ {
        r.op.seq
    } else {
        acked(s.acks@, device, r.op.origin_device_id@)
    }
}

/// Whether every device that takes part has seen an operation.
pub open spec fn seen_by_all(s: DeviceSync, r: OpRow) -> bool {
    forall|d: Seq<char>| #[trigger] active(s.devices@, d) ==> seen_by(s, d, r) >= r.op.seq
}

/// The tombstones that can go: all of them where no other device takes part,
/// else those that every device that takes part has seen.
pub open spec fn compactable(s: DeviceSync) -> spec_fn(OpRow) -> bool {
    |r: OpRow| takes_away(r.op.payload) && (active_count(s) <= 1 || seen_by_all(s, r))
}

pub open spec fn received_order() -> spec_fn(OpRow, OpRow) -> bool {
    |a: OpRow, b: OpRow| a.received_at_ms <= b.received_at_ms
}

/// The tombstones that can go, in the order in which they go.
pub open spec fn going(s: DeviceSync) -> Seq<OpRow> {
    let rows = s.ops@.filter(compactable(s));
    if active_count(s) <= 1 {
        rows
    } else {
        stable_sorted(rows, received_order())
    }
}

/// The device that an operation withdraws the trust from.
pub open spec fn revoke_target(p: SyncOpPayload) -> Option<Seq<char>> {
    match p {
        SyncOpPayload::DeviceRevoked { target_device_id, .. } => Some(target_device_id@),
        _ => None,
    }
}

pub open spec fn is_other_op(id: Seq<char>) -> spec_fn(OpRow) -> bool {
    |r: OpRow| r.op.op_id@ != id
}

/// The operations that speak of a device: its own, and those that withdraw
/// the trust from it.
pub open spec fn speaks_of(device: Seq<char>) -> spec_fn(OpRow) -> bool {
    |r: OpRow|
        r.op.origin_device_id@ == device || revoke_target(r.op.payload) == Some(device)
}

/// What the removal of tombstones touches.
pub struct Kept {
    pub ops: Seq<OpRow>,
    pub compacted: Map<Seq<char>, i64>,
    pub devices: Devices,
    pub acks: Map<Seq<char>, Map<Seq<char>, i64>>,
}

/// What is left once a tombstone is gone. With the last operation that speaks
/// of a device without trust, the device goes too.
pub open spec fn without_one(k: Kept, own: Seq<char>, r: OpRow) -> Kept {
    let ops = k.ops.filter(is_other_op(r.op.op_id@));
    let compacted = bumped(k.compacted, r.op.origin_device_id@, r.op.seq);
    match revoke_target(r.op.payload) {
        Some(d) => if d != own && first_where(ops, speaks_of(d)) is None {
            Kept {
                ops,
                compacted,
                devices: if k.devices.dom().contains(d) && k.devices[d].revoked_at is Some {
                    k.devices.remove(d)
                } else {
                    k.devices
                },
                acks: k.acks.remove(d),
            }
        } else {
            Kept { ops, compacted, ..k }
        },
        None => Kept { ops, compacted, ..k },
    }
}

pub open spec fn without_all(k: Kept, own: Seq<char>, rows: Seq<OpRow>) -> Kept
    decreases rows.len(),
{
    if rows.len() == 0 {
        k
    } else {
        without_one(without_all(k, own, rows.drop_last()), own, rows.last())
    }
}

/// The device in the id of an operation: what stands before the first colon.
pub open spec fn op_origin(op: Seq<char>) -> Seq<char> {
    match first_where(op, |c: char| c == ':') {
        Some(i) => op.take(i),
        None => Seq::empty(),
    }
}

/// What is kept of the likes: the withdrawal of one is not once a tombstone of
/// the device that withdrew it is gone.
pub open spec fn is_unsettled(compacted: Map<Seq<char>, i64>) -> spec_fn(Seq<char>, LikeView) -> bool {
    |k: Seq<char>, v: LikeView| v.liked || !compacted.dom().contains(op_origin(v.op))
}

/// What of a device is left once the tombstones that can go are gone.
pub open spec fn kept_of(s: DeviceSync) -> Kept {
    Kept { ops: s.ops@, compacted: s.compacted@, devices: s.devices@, acks: s.acks@ }
}

pub open spec fn gc_step(a: DeviceSync, b: DeviceSync) -> bool {
    &&& kept_of(b) == without_all(kept_of(a), a.device_id@, going(a))
    &&& b.likes@ == kept(a.likes@, is_unsettled(b.compacted@))
    &&& b == DeviceSync {
        ops: b.ops,
        compacted: b.compacted,
        devices: b.devices,
        acks: b.acks,
        likes: b.likes,
        ..a
    }
}

/// A tombstone that can go.
#[derive(Debug)]
struct Tombstone {
    op_id: String,
    origin: String,
    seq: i64,
    target: Option<String>,
}

spec fn notes(t: Tombstone, r: OpRow) -> bool {
    &&& t.op_id@ == r.op.op_id@
    &&& t.origin@ == r.op.origin_device_id@
    &&& t.seq == r.op.seq
    &&& crate::text::opt_view(t.target) == revoke_target(r.op.payload)
}

fn target_of(p: &SyncOpPayload) -> (r: Option<String>)
    ensures
        crate::text::opt_view(r) == revoke_target(*p),
{
    match p {
        SyncOpPayload::DeviceRevoked { target_device_id, .. } => Some(target_device_id.clone()),
        _ => None,
    }
}

/// The part of an operation's id before the first colon.
pub fn origin_of(op_id: &str) -> (r: String)
    ensures
        r@ == op_origin(op_id@),
{
    let chars = crate::text::chars_of(op_id);
    let f = |c: &char| -> (b: bool)
        ensures
            b == (|x: char| x == ':')(*c),
        { *c == ':' };
    let found = find_by(&chars, f, Ghost(|x: char| x == ':'));
    proof {
        assert((|x: char| x == ':') =~= (|c: char| c == ':'));
    }
    match found {
        Some(i) => {
            let head = crate::text::slice_of(&chars, 0, i);
            proof {
                assert(head@ =~= op_id@.take(i as int));
            }
            crate::text::string_of(&head)
        },
        None => String::new(),
    }
}

impl DeviceSync {
    fn last_seen_seq(&self, device: &str, r: &OpRow) -> (n: i64)
        ensures
            n == seen_by(*self, device@, *r),
    {
        let origin = r.op.origin_device_id.as_str();
        if same(device, self.device_id.as_str()) {
            match self.vectors.get(origin) {
                Some(n) => *n,
                None => 0,
            }
        } else if same(device, origin) {
            r.op.seq
        } else {
            self.ack(device, origin)
        }
    }

    /// Whether every device that takes part has seen an operation.
    pub fn is_seen_by_all(&self, r: &OpRow) -> (b: bool)
        ensures
            b == seen_by_all(*self, *r),
    {
        let n: usize = self.devices.len();
        let mut i: usize = 0;
        while i < n
            invariant
                i <= n,
                n == self.devices.items().len(),
                forall|k: int|
                    0 <= k < i && active(self.devices@, (#[trigger] self.devices.items()[k]).0@)
                        ==> seen_by(*self, self.devices.items()[k].0@, *r) >= r.op.seq,
            decreases n - i,
        {
            let (id, d) = self.devices.at(i);
            if d.trusted_at_ms.is_some() && d.revoked_at_ms.is_none() {
                if self.last_seen_seq(id.as_str(), r) < r.op.seq {
                    proof {
                        assert(active(self.devices@, id@));
                    }
                    return false;
                }
            }
            i += 1;
        }
        proof {
            assert forall|d: Seq<char>| #[trigger] active(self.devices@, d) implies seen_by(
                *self,
                d,
                *r,
            ) >= r.op.seq by {
                self.devices.lemma_entry_of(d);
            }
        }
        true
    }

    /// The places of the tombstones that can go, in the order in which they
    /// go.
    pub fn compactable_tombstones(&self) -> (r: Vec<usize>)
        ensures
            within(r@, self.ops@.len() as int),
            picked(self.ops@, r@) == going(*self),
    {
        let few = self.active_device_count() <= 1;
        let ops = &self.ops;
        let f = |r: &OpRow| -> (b: bool)
            ensures
                b == compactable(*self)(*r),
            { r.op.payload.is_tombstone() && (few || self.is_seen_by_all(r)) };
        let mut at = select_by(ops, f, Ghost(compactable(*self)));
        if !few {
            let g = |a: &OpRow, b: &OpRow| -> (r: bool)
                ensures
                    r == received_order()(*a, *b),
                { a.received_at_ms <= b.received_at_ms };
            sort_places(ops, &mut at, g, Ghost(received_order()));
        }
        at
    }

    fn tombstones(&self) -> (r: Vec<Tombstone>)
        ensures
            r@.len() == going(*self).len(),
            forall|i: int| 0 <= i < r@.len() ==> notes(#[trigger] r@[i], going(*self)[i]),
    {
        let at = self.compactable_tombstones();
        let mut out: Vec<Tombstone> = Vec::new();
        let mut i: usize = 0;
        while i < at.len()
            invariant
                i <= at@.len(),
                within(at@, self.ops@.len() as int),
                picked(self.ops@, at@) == going(*self),
                out@.len() == i,
                forall|k: int| 0 <= k < i ==> notes(#[trigger] out@[k], going(*self)[k]),
            decreases at@.len() - i,
        {
            let row = &self.ops[at[i]];
            let t = Tombstone {
                op_id: row.op.op_id.clone(),
                origin: row.op.origin_device_id.clone(),
                seq: row.op.seq,
                target: target_of(&row.op.payload),
            };
            proof {
                assert(picked(self.ops@, at@)[i as int] == *row);
            }
            out.push(t);
            i += 1;
        }
        out
    }

    fn drop_tombstone(&mut self, t: &Tombstone, Ghost(r): Ghost<OpRow>)
        requires
            notes(*t, r),
        ensures
            kept_of(*final(self)) == without_one(kept_of(*old(self)), old(self).device_id@, r),
            *final(self) == (DeviceSync {
                ops: final(self).ops,
                compacted: final(self).compacted,
                devices: final(self).devices,
                acks: final(self).acks,
                ..*old(self)
            }),
    {
        let newer = match self.compacted.get(t.origin.as_str()) {
            Some(n) => *n < t.seq,
            None => true,
        };
        if newer {
            self.compacted.set(t.origin.as_str(), t.seq);
        }
        let f = |row: &OpRow| -> (b: bool)
            ensures
                b == is_other_op(t.op_id@)(*row),
            { !same(row.op.op_id.as_str(), t.op_id.as_str()) };
        retain_by(&mut self.ops, f, Ghost(is_other_op(t.op_id@)));
        if let Some(d) = &t.target {
            let device = d.as_str();
            let g = |row: &OpRow| -> (b: bool)
                ensures
                    b == speaks_of(device@)(*row),
                {
                    same(row.op.origin_device_id.as_str(), device) || match &row.op.payload {
                        SyncOpPayload::DeviceRevoked { target_device_id, .. } => same(
                            target_device_id.as_str(),
                            device,
                        ),
                        _ => false,
                    }
                };
            let spoken = find_by(&self.ops, g, Ghost(speaks_of(device@))).is_some();
            if !same(device, self.device_id.as_str()) && !spoken {
                let gone = match self.devices.get(device) {
                    Some(row) => row.revoked_at_ms.is_some(),
                    None => false,
                };
                if gone {
                    let _ = self.devices.remove(device);
                }
                let _ = self.acks.remove(device);
            }
        }
    }

    fn drop_settled(&mut self)
        ensures
            final(self).likes@ == kept(old(self).likes@, is_unsettled(old(self).compacted@)),
            *final(self) == (DeviceSync { likes: final(self).likes, ..*old(self) }),
    {
        let compacted = &self.compacted;
        let f = |k: &String, v: &LikeState| -> (b: bool)
            ensures
                b == is_unsettled(compacted@)(k@, v@),
            { v.liked || !compacted.contains(origin_of(v.op_id.as_str()).as_str()) };
        self.likes.retain(f, Ghost(is_unsettled(compacted@)));
    }

    /// Removes the tombstones that every device that takes part has seen.
    pub fn gc_tombstones(&mut self)
        ensures
            gc_step(*old(self), *final(self)),
    {
        let ghost start = *self;
        let rows = self.tombstones();
        let mut i: usize = 0;
        while i < rows.len()
            invariant
                i <= rows@.len(),
                rows@.len() == going(start).len(),
                forall|k: int| 0 <= k < rows@.len() ==> notes(#[trigger] rows@[k], going(start)[k]),
                kept_of(*self) == without_all(
                    kept_of(start),
                    start.device_id@,
                    going(start).take(i as int),
                ),
                *self == (DeviceSync {
                    ops: self.ops,
                    compacted: self.compacted,
                    devices: self.devices,
                    acks: self.acks,
                    ..start
                }),
            decreases rows@.len() - i,
        {
            proof {
                assert(going(start).take(i + 1).drop_last() =~= going(start).take(i as int));
                assert(notes(rows@[i as int], going(start)[i as int]));
            }
            self.drop_tombstone(&rows[i], Ghost(going(start)[i as int]));
            i += 1;
        }
        proof {
            assert(going(start).take(rows@.len() as int) =~= going(start));
        }
        self.drop_settled();
    }
}

/// An operation stays as long as it is no tombstone, or some device that takes
/// part has not seen it: nothing that another device still needs is lost.
pub proof fn law_gc_keeps_what_is_needed(a: DeviceSync, b: DeviceSync, i: int)
    requires
        gc_step(a, b),
        forall|j: int, k: int|
            0 <= j < a.ops@.len() && 0 <= k < a.ops@.len() && (#[trigger] a.ops@[j]).op.op_id@ == (
            #[trigger] a.ops@[k]).op.op_id@ ==> j == k,
        0 <= i < a.ops@.len(),
        !compactable(a)(a.ops@[i]),
    ensures
        b.ops@.contains(a.ops@[i]),
{
    let rows = going(a);
    let r = a.ops@[i];
    assert forall|k: int| 0 <= k < rows.len() implies (#[trigger] rows[k]).op.op_id@
        != r.op.op_id@ by {
        lemma_going(a, k);
        let j = choose|j: int| 0 <= j < a.ops@.len() && a.ops@[j] == rows[k];
        if rows[k].op.op_id@ == r.op.op_id@ {
            assert(a.ops@[j].op.op_id@ == a.ops@[i].op.op_id@);
            assert(j == i);
        }
    }
    lemma_kept(kept_of(a), a.device_id@, rows, r);
}

pub proof fn lemma_going(a: DeviceSync, k: int)
    requires
        0 <= k < going(a).len(),
    ensures
        a.ops@.contains(going(a)[k]),
        compactable(a)(going(a)[k]),
{
    broadcast use vstd::seq_lib::group_to_multiset_ensures;

    let rows = a.ops@.filter(compactable(a));
    let x = going(a)[k];
    if active_count(a) > 1 {
        crate::lists::law_stable_sort(rows, received_order());
        assert(going(a).to_multiset().count(x) > 0);
        assert(rows.to_multiset().count(x) > 0);
    }
    assert(rows.contains(x));
    a.ops@.lemma_filter_contains_rev(compactable(a), x);
    let i = rows.index_of(x);
    broadcast use vstd::seq_lib::group_filter_ensures;

    assert(compactable(a)(rows[i]));
}

proof fn lemma_kept(k: Kept, own: Seq<char>, rows: Seq<OpRow>, r: OpRow)
    requires
        k.ops.contains(r),
        forall|j: int| 0 <= j < rows.len() ==> (#[trigger] rows[j]).op.op_id@ != r.op.op_id@,
    ensures
        without_all(k, own, rows).ops.contains(r),
    decreases rows.len(),
{
    if rows.len() > 0 {
        let h = rows.drop_last();
        assert forall|j: int| 0 <= j < h.len() implies (#[trigger] h[j]).op.op_id@ != r.op.op_id@ by {
            assert(h[j] == rows[j]);
        }
        lemma_kept(k, own, h, r);
        let before = without_all(k, own, h).ops;
        let p = is_other_op(rows.last().op.op_id@);
        assert(p(r));
        before.lemma_filter_contains(p, before.index_of(r));
    }
}

} // verus!
