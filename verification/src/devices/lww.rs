//! Last-writer-wins state: what an operation says of a like, a playlist or a
//! playlist item holds until one with a later stamp says otherwise.

use crate::text::{
    before, lemma_precedes_irreflexive, lemma_precedes_total, lemma_precedes_transitive, precedes,
};
use vstd::prelude::*;

verus! {

/// Whether the stamp of an operation comes after another: its clock is later,
/// or the same and its id is larger.
pub open spec fn later(hlc: i64, op: Seq<char>, than_hlc: i64, than_op: Seq<char>) -> bool {
    hlc > than_hlc || (hlc == than_hlc && precedes(than_op, op))
}

pub fn is_later(hlc: i64, op: &str, than_hlc: i64, than_op: &str) -> (r: bool)
    ensures
        r == later(hlc, op@, than_hlc, than_op@),
{
    hlc > than_hlc || (hlc == than_hlc && before(than_op, op))
}

/// The stamp of an entry.
pub trait Stamped {
    spec fn clock(&self) -> i64;

    spec fn op(&self) -> Seq<char>;
}

/// Whether an entry takes the place of what a table holds.
pub open spec fn wins<V: Stamped>(m: Map<Seq<char>, V>, k: Seq<char>, v: V) -> bool {
    !m.dom().contains(k) || later(v.clock(), v.op(), m[k].clock(), m[k].op())
}

/// A table with an entry merged into it.
pub open spec fn merged<V: Stamped>(m: Map<Seq<char>, V>, k: Seq<char>, v: V) -> Map<
    Seq<char>,
    V,
> {
    if wins(m, k, v) {
        m.insert(k, v)
    } else {
        m
    }
}

/// A stamp does not come after itself.
pub proof fn lemma_later_irreflexive(hlc: i64, op: Seq<char>)
    ensures
        !later(hlc, op, hlc, op),
{
    lemma_precedes_irreflexive(op);
}

pub proof fn lemma_later_transitive(
    a: i64,
    x: Seq<char>,
    b: i64,
    y: Seq<char>,
    c: i64,
    z: Seq<char>,
)
    requires
        later(a, x, b, y),
        later(b, y, c, z),
    ensures
        later(a, x, c, z),
{
    if a == b && b == c {
        lemma_precedes_transitive(z, y, x);
    }
}

pub proof fn lemma_later_total(a: i64, x: Seq<char>, b: i64, y: Seq<char>)
    ensures
        later(a, x, b, y) || later(b, y, a, x) || (a == b && x == y),
        !(later(a, x, b, y) && later(b, y, a, x)),
{
    lemma_precedes_total(x, y);
}

/// Merging the same entry twice changes nothing the second time.
pub proof fn law_merge_idempotent<V: Stamped>(m: Map<Seq<char>, V>, k: Seq<char>, v: V)
    ensures
        merged(merged(m, k, v), k, v) == merged(m, k, v),
{
    lemma_later_irreflexive(v.clock(), v.op());
}

/// Two entries can be merged in either order, whether they speak of the same
/// key or not. Entries with the same stamp are the same operation, so they say
/// the same.
pub proof fn law_merge_commutative<V: Stamped>(
    m: Map<Seq<char>, V>,
    k: Seq<char>,
    v: V,
    l: Seq<char>,
    w: V,
)
    requires
        k == l && v.clock() == w.clock() && v.op() == w.op() ==> v == w,
    ensures
        merged(merged(m, k, v), l, w) == merged(merged(m, l, w), k, v),
{
    let a = merged(merged(m, k, v), l, w);
    let b = merged(merged(m, l, w), k, v);
    if k != l {
        assert(a =~= b);
    } else {
        lemma_later_total(v.clock(), v.op(), w.clock(), w.op());
        if m.dom().contains(k) {
            let u = m[k];
            if later(v.clock(), v.op(), u.clock(), u.op()) && later(
                w.clock(),
                w.op(),
                v.clock(),
                v.op(),
            ) {
                lemma_later_transitive(w.clock(), w.op(), v.clock(), v.op(), u.clock(), u.op());
            }
            if later(w.clock(), w.op(), u.clock(), u.op()) && later(
                v.clock(),
                v.op(),
                w.clock(),
                w.op(),
            ) {
                lemma_later_transitive(v.clock(), v.op(), w.clock(), w.op(), u.clock(), u.op());
            }
        }
        assert(a =~= b);
    }
}

/// A merge never brings back an older stamp: what a table holds of a key only
/// gets later.
pub proof fn law_merge_monotone<V: Stamped>(
    m: Map<Seq<char>, V>,
    k: Seq<char>,
    v: V,
    l: Seq<char>,
)
    requires
        m.dom().contains(l),
    ensures
        merged(m, k, v).dom().contains(l),
        merged(m, k, v)[l] == m[l] || later(
            merged(m, k, v)[l].clock(),
            merged(m, k, v)[l].op(),
            m[l].clock(),
            m[l].op(),
        ),
{
}

#[derive(Debug)]
pub struct LikeState {
    pub liked: bool,
    pub hlc_ms: i64,
    pub op_id: String,
}

#[verifier::ext_equal]
pub struct LikeView {
    pub liked: bool,
    pub hlc: i64,
    pub op: Seq<char>,
}

impl View for LikeState {
    type V = LikeView;

    open spec fn view(&self) -> LikeView {
        LikeView { liked: self.liked, hlc: self.hlc_ms, op: self.op_id@ }
    }
}

impl Stamped for LikeView {
    open spec fn clock(&self) -> i64 {
        self.hlc
    }

    open spec fn op(&self) -> Seq<char> {
        self.op
    }
}

#[derive(Debug)]
pub struct PlaylistState {
    pub title: String,
    pub deleted: bool,
    pub hlc_ms: i64,
    pub op_id: String,
}

#[verifier::ext_equal]
pub struct PlaylistView {
    pub title: Seq<char>,
    pub deleted: bool,
    pub hlc: i64,
    pub op: Seq<char>,
}

impl View for PlaylistState {
    type V = PlaylistView;

    open spec fn view(&self) -> PlaylistView {
        PlaylistView {
            title: self.title@,
            deleted: self.deleted,
            hlc: self.hlc_ms,
            op: self.op_id@,
        }
    }
}

impl Stamped for PlaylistView {
    open spec fn clock(&self) -> i64 {
        self.hlc
    }

    open spec fn op(&self) -> Seq<char> {
        self.op
    }
}

#[derive(Debug)]
pub struct ItemState {
    pub present: bool,
    pub position: i64,
    pub hlc_ms: i64,
    pub op_id: String,
}

#[verifier::ext_equal]
pub struct ItemView {
    pub present: bool,
    pub position: i64,
    pub hlc: i64,
    pub op: Seq<char>,
}

impl View for ItemState {
    type V = ItemView;

    open spec fn view(&self) -> ItemView {
        ItemView {
            present: self.present,
            position: self.position,
            hlc: self.hlc_ms,
            op: self.op_id@,
        }
    }
}

impl Stamped for ItemView {
    open spec fn clock(&self) -> i64 {
        self.hlc
    }

    open spec fn op(&self) -> Seq<char> {
        self.op
    }
}

} // verus!
