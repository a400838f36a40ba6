//! Searching, filtering and sorting lists by a predicate or an order.

use crate::text::{same, views};
use vstd::prelude::*;

verus! {

/// The position of the first element that satisfies `p`.
pub open spec fn first_where<T>(s: Seq<T>, p: spec_fn(T) -> bool) -> Option<int>
    decreases s.len(),
{
    if s.len() == 0 {
        None
    } else {
        match first_where(s.drop_last(), p) {
            Some(i) => Some(i),
            None => if p(s.last()) {
                Some(s.len() - 1)
            } else {
                None
            },
        }
    }
}

pub proof fn lemma_first_where<T>(s: Seq<T>, p: spec_fn(T) -> bool)
    ensures
        match first_where(s, p) {
            Some(i) => 0 <= i < s.len() && p(s[i]) && forall|j: int| 0 <= j < i ==> !p(#[trigger] s[j]),
            None => forall|j: int| 0 <= j < s.len() ==> !p(#[trigger] s[j]),
        },
    decreases s.len(),
{
    if s.len() > 0 {
        let h = s.drop_last();
        lemma_first_where(h, p);
        assert forall|j: int| 0 <= j < h.len() implies #[trigger] s[j] == h[j] by {}
    }
}

pub(crate) fn find_by<T, F: Fn(&T) -> bool>(
    v: &Vec<T>,
    f: F,
    Ghost(p): Ghost<spec_fn(T) -> bool>,
) -> (r: Option<usize>)
    requires
        forall|x: &T| call_requires(f, (x,)),
        forall|x: &T, b: bool| call_ensures(f, (x,), b) ==> b == p(*x),
    ensures
        match r {
            Some(i) => first_where(v@, p) == Some(i as int) && i < v@.len() && p(v@[i as int]),
            None => first_where(v@, p) is None && forall|j: int|
                0 <= j < v@.len() ==> !p(#[trigger] v@[j]),
        },
{
    let mut i: usize = 0;
    while i < v.len()
        invariant
            i <= v@.len(),
            forall|x: &T| call_requires(f, (x,)),
            forall|x: &T, b: bool| call_ensures(f, (x,), b) ==> b == p(*x),
            forall|j: int| 0 <= j < i ==> !p(#[trigger] v@[j]),
        decreases v@.len() - i,
    {
        if f(&v[i]) {
            proof {
                lemma_first_where(v@, p);
            }
            return Some(i);
        }
        i += 1;
    }
    proof {
        lemma_first_where(v@, p);
    }
    None
}

pub(crate) fn any_by<T, F: Fn(&T) -> bool>(
    v: &Vec<T>,
    f: F,
    Ghost(p): Ghost<spec_fn(T) -> bool>,
) -> (r: bool)
    requires
        forall|x: &T| call_requires(f, (x,)),
        forall|x: &T, b: bool| call_ensures(f, (x,), b) ==> b == p(*x),
    ensures
        r == exists|j: int| 0 <= j < v@.len() && p(#[trigger] v@[j]),
{
    find_by(v, f, Ghost(p)).is_some()
}

/// Keeps the elements that satisfy the predicate.
pub(crate) fn retain_by<T, F: Fn(&T) -> bool>(
    v: &mut Vec<T>,
    f: F,
    Ghost(p): Ghost<spec_fn(T) -> bool>,
)
    requires
        forall|x: &T| call_requires(f, (x,)),
        forall|x: &T, b: bool| call_ensures(f, (x,), b) ==> b == p(*x),
    ensures
        final(v)@ == old(v)@.filter(p),
{
    let ghost all = v@;
    let ghost mut seen: int = 0;
    let mut i: usize = 0;
    proof {
        reveal(Seq::filter);
        assert(v@.take(0) =~= all.take(0).filter(p));
        assert(v@.skip(0) =~= all.skip(0));
    }
    while i < v.len()
        invariant
            i <= v@.len(),
            0 <= seen <= all.len(),
            forall|x: &T| call_requires(f, (x,)),
            forall|x: &T, b: bool| call_ensures(f, (x,), b) ==> b == p(*x),
            v@.take(i as int) == all.take(seen).filter(p),
            v@.skip(i as int) == all.skip(seen),
        decreases v@.len() - i,
    {
        proof {
            reveal(Seq::filter);
            assert(v@.skip(i as int).len() == v@.len() - i);
            assert(all.skip(seen).len() == all.len() - seen);
            assert(v@[i as int] == v@.skip(i as int)[0]);
            assert(all[seen] == all.skip(seen)[0]);
            assert(all.take(seen + 1).drop_last() =~= all.take(seen));
            assert(all.skip(seen).skip(1) =~= all.skip(seen + 1));
        }
        if f(&v[i]) {
            proof {
                assert(v@.take(i + 1) =~= v@.take(i as int).push(v@[i as int]));
                assert(v@.skip(i + 1) =~= v@.skip(i as int).skip(1));
            }
            i += 1;
        } else {
            let ghost before = v@;
            let _ = v.remove(i);
            proof {
                assert(v@.take(i as int) =~= before.take(i as int));
                assert(v@.skip(i as int) =~= before.skip(i as int).skip(1));
            }
        }
        proof {
            seen = seen + 1;
        }
    }
    proof {
        assert(v@.take(i as int) =~= v@);
        assert(v@.skip(i as int).len() == 0);
        assert(all.take(seen) =~= all);
    }
}

/// How many elements satisfy `p`.
pub open spec fn count_where<T>(s: Seq<T>, p: spec_fn(T) -> bool) -> nat {
    s.filter(p).len()
}

pub(crate) fn count_by<T, F: Fn(&T) -> bool>(
    v: &Vec<T>,
    f: F,
    Ghost(p): Ghost<spec_fn(T) -> bool>,
) -> (r: usize)
    requires
        forall|x: &T| call_requires(f, (x,)),
        forall|x: &T, b: bool| call_ensures(f, (x,), b) ==> b == p(*x),
    ensures
        r == count_where(v@, p),
        r <= v@.len(),
{
    let mut n: usize = 0;
    let mut i: usize = 0;
    proof {
        reveal(Seq::filter);
    }
    while i < v.len()
        invariant
            i <= v@.len(),
            n <= i,
            forall|x: &T| call_requires(f, (x,)),
            forall|x: &T, b: bool| call_ensures(f, (x,), b) ==> b == p(*x),
            n == v@.take(i as int).filter(p).len(),
        decreases v@.len() - i,
    {
        proof {
            reveal(Seq::filter);
            assert(v@.take(i + 1).drop_last() =~= v@.take(i as int));
        }
        if f(&v[i]) {
            n += 1;
        }
        i += 1;
    }
    proof {
        assert(v@.take(i as int) =~= v@);
    }
    n
}

/// `x` placed into a sorted list behind every element that it does not come
/// before.
pub open spec fn insert_sorted<T>(s: Seq<T>, x: T, leq: spec_fn(T, T) -> bool) -> Seq<T>
    decreases s.len(),
{
    if s.len() == 0 || leq(s.last(), x) {
        s.push(x)
    } else {
        insert_sorted(s.drop_last(), x, leq).push(s.last())
    }
}

/// The list in order; elements that are equal in it keep their places.
pub open spec fn stable_sorted<T>(s: Seq<T>, leq: spec_fn(T, T) -> bool) -> Seq<T>
    decreases s.len(),
{
    if s.len() == 0 {
        s
    } else {
        insert_sorted(stable_sorted(s.drop_last(), leq), s.last(), leq)
    }
}

/// An order in which any two elements can be compared.
pub open spec fn total_preorder<T>(leq: spec_fn(T, T) -> bool) -> bool {
    &&& forall|a: T, b: T| #[trigger] leq(a, b) || leq(b, a)
    &&& forall|a: T, b: T, c: T| #[trigger] leq(a, b) && #[trigger] leq(b, c) ==> leq(a, c)
}

pub open spec fn in_order<T>(s: Seq<T>, leq: spec_fn(T, T) -> bool) -> bool {
    forall|i: int, j: int| 0 <= i < j < s.len() ==> leq(#[trigger] s[i], #[trigger] s[j])
}

proof fn lemma_insert_sorted<T>(s: Seq<T>, x: T, leq: spec_fn(T, T) -> bool)
    ensures
        insert_sorted(s, x, leq).len() == s.len() + 1,
        insert_sorted(s, x, leq).to_multiset() == s.to_multiset().insert(x),
    decreases s.len(),
{
    broadcast use vstd::seq_lib::group_to_multiset_ensures;

    if s.len() == 0 || leq(s.last(), x) {
    } else {
        let h = s.drop_last();
        lemma_insert_sorted(h, x, leq);
        assert(h.push(s.last()) =~= s);
        assert(insert_sorted(s, x, leq).to_multiset() =~= s.to_multiset().insert(x));
    }
}

proof fn lemma_insert_in_order<T>(s: Seq<T>, x: T, leq: spec_fn(T, T) -> bool)
    requires
        total_preorder(leq),
        in_order(s, leq),
    ensures
        in_order(insert_sorted(s, x, leq), leq),
        forall|i: int|
            0 <= i < insert_sorted(s, x, leq).len() ==> #[trigger] insert_sorted(s, x, leq)[i] == x
                || s.contains(insert_sorted(s, x, leq)[i]),
    decreases s.len(),
{
    let r = insert_sorted(s, x, leq);
    if s.len() == 0 {
    } else if leq(s.last(), x) {
        assert forall|i: int, j: int| 0 <= i < j < r.len() implies leq(
            #[trigger] r[i],
            #[trigger] r[j],
        ) by {
            if j == s.len() {
                if i < s.len() - 1 {
                    assert(leq(s[i], s[s.len() - 1]));
                }
                assert(leq(s.last(), x));
            }
        }
    } else {
        let h = s.drop_last();
        lemma_insert_in_order(h, x, leq);
        let q = insert_sorted(h, x, leq);
        lemma_insert_sorted(h, x, leq);
        assert forall|i: int, j: int| 0 <= i < j < r.len() implies leq(
            #[trigger] r[i],
            #[trigger] r[j],
        ) by {
            if j == r.len() - 1 {
                assert(r[i] == q[i]);
                if q[i] == x {
                    assert(leq(x, s.last()));
                } else {
                    let k = choose|k: int| 0 <= k < h.len() && h[k] == q[i];
                    assert(leq(s[k], s[s.len() - 1]));
                }
            } else {
                assert(leq(q[i], q[j]));
            }
        }
        assert forall|i: int| 0 <= i < r.len() implies #[trigger] r[i] == x || s.contains(r[i]) by {
            if i < q.len() {
                assert(r[i] == q[i]);
                if q[i] != x {
                    let k = choose|k: int| 0 <= k < h.len() && h[k] == q[i];
                    assert(s[k] == r[i]);
                }
            } else {
                assert(s[s.len() - 1] == r[i]);
            }
        }
    }
}

/// Sorting keeps the elements, each as often as it occurs, and puts them in
/// order.
pub proof fn law_stable_sort<T>(s: Seq<T>, leq: spec_fn(T, T) -> bool)
    ensures
        stable_sorted(s, leq).len() == s.len(),
        stable_sorted(s, leq).to_multiset() == s.to_multiset(),
        total_preorder(leq) ==> in_order(stable_sorted(s, leq), leq),
    decreases s.len(),
{
    broadcast use vstd::seq_lib::group_to_multiset_ensures;

    if s.len() > 0 {
        let h = s.drop_last();
        law_stable_sort(h, leq);
        lemma_insert_sorted(stable_sorted(h, leq), s.last(), leq);
        assert(h.push(s.last()) =~= s);
        assert(stable_sorted(s, leq).to_multiset() =~= s.to_multiset());
        if total_preorder(leq) {
            lemma_insert_in_order(stable_sorted(h, leq), s.last(), leq);
        }
    }
}

proof fn lemma_insert_at<T>(s: Seq<T>, x: T, leq: spec_fn(T, T) -> bool, i: int)
    requires
        0 <= i <= s.len(),
        i > 0 ==> leq(s[i - 1], x),
        forall|j: int| i <= j < s.len() ==> !leq(#[trigger] s[j], x),
    ensures
        insert_sorted(s, x, leq) == s.insert(i, x),
    decreases s.len(),
{
    if s.len() == 0 {
        assert(s.push(x) =~= s.insert(i, x));
    } else if i == s.len() {
        assert(s.push(x) =~= s.insert(i, x));
    } else {
        let h = s.drop_last();
        assert(!leq(s[s.len() - 1], x));
        assert forall|j: int| i <= j < h.len() implies !leq(#[trigger] h[j], x) by {
            assert(h[j] == s[j]);
        }
        lemma_insert_at(h, x, leq, i);
        assert(h.insert(i, x).push(s.last()) =~= s.insert(i, x));
    }
}

/// Sorts the list; elements that are equal in the order keep their places.
pub(crate) fn sort_by<T, F: Fn(&T, &T) -> bool>(
    v: &mut Vec<T>,
    f: F,
    Ghost(leq): Ghost<spec_fn(T, T) -> bool>,
)
    requires
        forall|x: &T, y: &T| call_requires(f, (x, y)),
        forall|x: &T, y: &T, b: bool| call_ensures(f, (x, y), b) ==> b == leq(*x, *y),
    ensures
        final(v)@ == stable_sorted(old(v)@, leq),
{
    let ghost all = v@;
    let mut k: usize = 0;
    let n: usize = v.len();
    proof {
        assert(v@.take(0) =~= stable_sorted(all.take(0), leq));
        assert(v@.skip(0) =~= all.skip(0));
    }
    while k < n
        invariant
            k <= n,
            n == all.len(),
            v@.len() == n,
            forall|x: &T, y: &T| call_requires(f, (x, y)),
            forall|x: &T, y: &T, b: bool| call_ensures(f, (x, y), b) ==> b == leq(*x, *y),
            v@.take(k as int) == stable_sorted(all.take(k as int), leq),
            v@.skip(k as int) == all.skip(k as int),
        decreases n - k,
    {
        let ghost before = v@;
        let mut i: usize = k;
        while i > 0 && !f(&v[i - 1], &v[k])
            invariant
                i <= k < n,
                v@ == before,
                v@.len() == n,
                forall|x: &T, y: &T| call_requires(f, (x, y)),
                forall|x: &T, y: &T, b: bool| call_ensures(f, (x, y), b) ==> b == leq(*x, *y),
                forall|j: int| i <= j < k ==> !leq(#[trigger] v@[j], v@[k as int]),
            ensures
                i <= k < n,
                v@ == before,
                i > 0 ==> leq(v@[i - 1], v@[k as int]),
                forall|j: int| i <= j < k ==> !leq(#[trigger] v@[j], v@[k as int]),
            decreases i,
        {
            i -= 1;
        }
        let x = v.remove(k);
        v.insert(i, x);
        proof {
            let head = before.take(k as int);
            lemma_insert_at(head, x, leq, i as int);
            assert(all[k as int] == all.skip(k as int)[0]);
            assert(before[k as int] == before.skip(k as int)[0]);
            assert(all.take(k + 1).drop_last() =~= all.take(k as int));
            assert(v@.take(k + 1) =~= head.insert(i as int, x));
            assert(v@.skip(k + 1) =~= before.skip(k as int).skip(1));
            assert(all.skip(k + 1) =~= all.skip(k as int).skip(1));
        }
        k += 1;
    }
    proof {
        assert(v@.take(n as int) =~= v@);
        assert(all.take(n as int) =~= all);
    }
}

/// The elements at several places.
pub open spec fn picked<T>(s: Seq<T>, at: Seq<usize>) -> Seq<T> {
    at.map_values(|i: usize| s[i as int])
}

/// Whether all places are places of a list of length `n`.
pub open spec fn within(at: Seq<usize>, n: int) -> bool {
    forall|k: int| 0 <= k < at.len() ==> #[trigger] at[k] < n
}

/// The places of the elements that satisfy the predicate, in order.
pub(crate) fn select_by<T, F: Fn(&T) -> bool>(
    v: &Vec<T>,
    f: F,
    Ghost(p): Ghost<spec_fn(T) -> bool>,
) -> (r: Vec<usize>)
    requires
        forall|x: &T| call_requires(f, (x,)),
        forall|x: &T, b: bool| call_ensures(f, (x,), b) ==> b == p(*x),
    ensures
        within(r@, v@.len() as int),
        picked(v@, r@) == v@.filter(p),
{
    let mut out: Vec<usize> = Vec::new();
    let mut i: usize = 0;
    proof {
        reveal(Seq::filter);
        assert(picked(v@, out@) =~= v@.take(0).filter(p));
    }
    while i < v.len()
        invariant
            i <= v@.len(),
            forall|x: &T| call_requires(f, (x,)),
            forall|x: &T, b: bool| call_ensures(f, (x,), b) ==> b == p(*x),
            within(out@, v@.len() as int),
            picked(v@, out@) == v@.take(i as int).filter(p),
        decreases v@.len() - i,
    {
        proof {
            reveal(Seq::filter);
            assert(v@.take(i + 1).drop_last() =~= v@.take(i as int));
        }
        let ghost before = out@;
        if f(&v[i]) {
            out.push(i);
            proof {
                assert(picked(v@, out@) =~= picked(v@, before).push(v@[i as int]));
            }
        }
        i += 1;
    }
    proof {
        assert(v@.take(i as int) =~= v@);
    }
    out
}

/// Sorts places by the elements that stand there; those of equal elements
/// keep their order.
pub(crate) fn sort_places<T, F: Fn(&T, &T) -> bool>(
    v: &Vec<T>,
    at: &mut Vec<usize>,
    f: F,
    Ghost(leq): Ghost<spec_fn(T, T) -> bool>,
)
    requires
        within(old(at)@, v@.len() as int),
        forall|x: &T, y: &T| call_requires(f, (x, y)),
        forall|x: &T, y: &T, b: bool| call_ensures(f, (x, y), b) ==> b == leq(*x, *y),
    ensures
        within(final(at)@, v@.len() as int),
        final(at)@.len() == old(at)@.len(),
        picked(v@, final(at)@) == stable_sorted(picked(v@, old(at)@), leq),
{
    let ghost all = picked(v@, at@);
    let mut k: usize = 0;
    let n: usize = at.len();
    proof {
        assert(picked(v@, at@).take(0) =~= stable_sorted(all.take(0), leq));
        assert(picked(v@, at@).skip(0) =~= all.skip(0));
    }
    while k < n
        invariant
            k <= n,
            n == all.len(),
            at@.len() == n,
            within(at@, v@.len() as int),
            forall|x: &T, y: &T| call_requires(f, (x, y)),
            forall|x: &T, y: &T, b: bool| call_ensures(f, (x, y), b) ==> b == leq(*x, *y),
            picked(v@, at@).take(k as int) == stable_sorted(all.take(k as int), leq),
            picked(v@, at@).skip(k as int) == all.skip(k as int),
        decreases n - k,
    {
        let ghost before = at@;
        let ghost elems = picked(v@, at@);
        let mut i: usize = k;
        let place: usize = at[k];
        while i > 0 && !f(&v[at[i - 1]], &v[place])
            invariant
                i <= k < n,
                at@ == before,
                at@.len() == n,
                place == at@[k as int],
                elems == picked(v@, at@),
                within(at@, v@.len() as int),
                forall|x: &T, y: &T| call_requires(f, (x, y)),
                forall|x: &T, y: &T, b: bool| call_ensures(f, (x, y), b) ==> b == leq(*x, *y),
                forall|j: int| i <= j < k ==> !leq(#[trigger] elems[j], elems[k as int]),
            ensures
                i <= k < n,
                at@ == before,
                i > 0 ==> leq(elems[i - 1], elems[k as int]),
                forall|j: int| i <= j < k ==> !leq(#[trigger] elems[j], elems[k as int]),
            decreases i,
        {
            i -= 1;
        }
        let x: usize = at.remove(k);
        at.insert(i, x);
        proof {
            let head = elems.take(k as int);
            lemma_insert_at(head, elems[k as int], leq, i as int);
            assert(all[k as int] == all.skip(k as int)[0]);
            assert(elems[k as int] == elems.skip(k as int)[0]);
            assert(all.take(k + 1).drop_last() =~= all.take(k as int));
            assert(picked(v@, at@).take(k + 1) =~= head.insert(i as int, elems[k as int]));
            assert(picked(v@, at@).skip(k + 1) =~= elems.skip(k as int).skip(1));
            assert(all.skip(k + 1) =~= all.skip(k as int).skip(1));
            assert(within(at@, v@.len() as int));
        }
        k += 1;
    }
    proof {
        assert(picked(v@, at@).take(n as int) =~= picked(v@, at@));
        assert(all.take(n as int) =~= all);
    }
}

/// The views of the elements of a list.
pub open spec fn viewed<T: View>(s: Seq<T>) -> Seq<T::V> {
    s.map_values(|t: T| t@)
}

proof fn lemma_insert_mapped<T, U>(
    s: Seq<T>,
    x: T,
    g: spec_fn(T) -> U,
    leq: spec_fn(T, T) -> bool,
    leq_u: spec_fn(U, U) -> bool,
)
    requires
        forall|a: T, b: T| #[trigger] leq(a, b) == leq_u(g(a), g(b)),
    ensures
        insert_sorted(s, x, leq).map_values(g) == insert_sorted(s.map_values(g), g(x), leq_u),
    decreases s.len(),
{
    let m = s.map_values(g);
    if s.len() == 0 || leq(s.last(), x) {
        if s.len() > 0 {
            assert(m.last() == g(s.last()));
            assert(leq(s.last(), x) == leq_u(g(s.last()), g(x)));
        }
        assert(s.push(x).map_values(g) =~= m.push(g(x)));
    } else {
        assert(m.last() == g(s.last()));
        assert(leq(s.last(), x) == leq_u(g(s.last()), g(x)));
        lemma_insert_mapped(s.drop_last(), x, g, leq, leq_u);
        assert(m.drop_last() =~= s.drop_last().map_values(g));
        assert(insert_sorted(s.drop_last(), x, leq).push(s.last()).map_values(g)
            =~= insert_sorted(s.drop_last(), x, leq).map_values(g).push(g(s.last())));
    }
}

/// Sorting by something that a map keeps can be done before or after it.
pub proof fn lemma_sorted_mapped<T, U>(
    s: Seq<T>,
    g: spec_fn(T) -> U,
    leq: spec_fn(T, T) -> bool,
    leq_u: spec_fn(U, U) -> bool,
)
    requires
        forall|a: T, b: T| #[trigger] leq(a, b) == leq_u(g(a), g(b)),
    ensures
        stable_sorted(s, leq).map_values(g) == stable_sorted(s.map_values(g), leq_u),
    decreases s.len(),
{
    if s.len() > 0 {
        let h = s.drop_last();
        lemma_sorted_mapped(h, g, leq, leq_u);
        lemma_insert_mapped(stable_sorted(h, leq), s.last(), g, leq, leq_u);
        assert(s.map_values(g).drop_last() =~= h.map_values(g));
        assert(s.map_values(g).last() == g(s.last()));
    } else {
        assert(s.map_values(g) =~= Seq::<U>::empty());
        assert(stable_sorted(s, leq).map_values(g) =~= Seq::<U>::empty());
    }
}

/// Keeping elements by something that a map keeps can be done before or after
/// it.
pub proof fn lemma_filter_mapped<T, U>(
    s: Seq<T>,
    g: spec_fn(T) -> U,
    p: spec_fn(T) -> bool,
    q: spec_fn(U) -> bool,
)
    requires
        forall|a: T| #[trigger] p(a) == q(g(a)),
    ensures
        s.filter(p).map_values(g) == s.map_values(g).filter(q),
    decreases s.len(),
{
    reveal(Seq::filter);
    let m = s.map_values(g);
    if s.len() > 0 {
        let h = s.drop_last();
        lemma_filter_mapped(h, g, p, q);
        assert(m.drop_last() =~= h.map_values(g));
        assert(m.last() == g(s.last()));
        assert(p(s.last()) == q(g(s.last())));
        if p(s.last()) {
            assert(s.filter(p) =~= h.filter(p).push(s.last()));
            assert(h.filter(p).push(s.last()).map_values(g) =~= h.filter(p).map_values(g).push(
                g(s.last()),
            ));
        }
    } else {
        assert(m =~= Seq::<U>::empty());
        assert(s.filter(p).map_values(g) =~= m.filter(q));
    }
}

/// The first element that satisfies something that a map keeps stands at the
/// same place before and after it.
pub proof fn lemma_first_mapped<T, U>(
    s: Seq<T>,
    g: spec_fn(T) -> U,
    p: spec_fn(T) -> bool,
    q: spec_fn(U) -> bool,
)
    requires
        forall|a: T| #[trigger] p(a) == q(g(a)),
    ensures
        first_where(s, p) == first_where(s.map_values(g), q),
{
    let m = s.map_values(g);
    lemma_first_where(s, p);
    lemma_first_where(m, q);
    assert forall|i: int| 0 <= i < s.len() implies p(#[trigger] s[i]) == q(m[i]) by {
        assert(m[i] == g(s[i]));
        assert(p(s[i]) == q(g(s[i])));
    }
    match first_where(s, p) {
        Some(i) => {
            assert(q(m[i]));
        },
        None => {
            if let Some(j) = first_where(m, q) {
                assert(p(s[j]));
            }
        },
    }
    match (first_where(s, p), first_where(m, q)) {
        (Some(i), Some(j)) => {
            if i < j {
                assert(q(m[i]));
            } else if j < i {
                assert(p(s[j]));
            }
        },
        _ => {},
    }
}

/// Copies of the elements that satisfy the predicate.
pub(crate) fn filter_copy<T: Copy, F: Fn(&T) -> bool>(
    v: &Vec<T>,
    f: F,
    Ghost(p): Ghost<spec_fn(T) -> bool>,
) -> (r: Vec<T>)
    requires
        forall|x: &T| call_requires(f, (x,)),
        forall|x: &T, b: bool| call_ensures(f, (x,), b) ==> b == p(*x),
    ensures
        r@ == v@.filter(p),
{
    let mut out: Vec<T> = Vec::new();
    let mut i: usize = 0;
    proof {
        reveal(Seq::filter);
        assert(out@ =~= v@.take(0).filter(p));
    }
    while i < v.len()
        invariant
            i <= v@.len(),
            forall|x: &T| call_requires(f, (x,)),
            forall|x: &T, b: bool| call_ensures(f, (x,), b) ==> b == p(*x),
            out@ == v@.take(i as int).filter(p),
        decreases v@.len() - i,
    {
        proof {
            reveal(Seq::filter);
            assert(v@.take(i + 1).drop_last() =~= v@.take(i as int));
        }
        if f(&v[i]) {
            out.push(v[i]);
        }
        i += 1;
    }
    proof {
        assert(v@.take(i as int) =~= v@);
    }
    out
}

/// At most `n` elements from the start, or all where `n` is negative.
pub open spec fn limited<T>(s: Seq<T>, n: i64) -> Seq<T> {
    if n < 0 {
        s
    } else {
        at_most(s, n as int)
    }
}

pub(crate) fn limit_to<T>(v: &mut Vec<T>, n: i64)
    ensures
        final(v)@ == limited(old(v)@, n),
{
    if n >= 0 && (n as u64) < (v.len() as u64) {
        v.truncate(n as usize);
    }
}

/// At most `n` elements from the start.
pub open spec fn at_most<T>(s: Seq<T>, n: int) -> Seq<T> {
    if s.len() <= n {
        s
    } else {
        s.take(n)
    }
}

/// The texts that are the given one.
pub open spec fn is_text(t: Seq<char>) -> spec_fn(String) -> bool {
    |s: String| s@ == t
}

pub proof fn lemma_holds(seen: Seq<String>, id: Seq<char>)
    ensures
        (first_where(seen, is_text(id)) is Some) == views(seen).contains(id),
{
    lemma_first_where(seen, is_text(id));
    let v = views(seen);
    if let Some(i) = first_where(seen, is_text(id)) {
        assert(v[i] == id);
    }
    if v.contains(id) {
        let i = v.index_of(id);
        assert(is_text(id)(seen[i]));
    }
}

/// Whether a list of texts holds one.
pub(crate) fn holds_text(seen: &Vec<String>, id: &str) -> (r: bool)
    ensures
        r == views(seen@).contains(id@),
{
    let f = |s: &String| -> (b: bool)
        ensures
            b == is_text(id@)(*s),
        { same(s.as_str(), id) };
    let found = find_by(seen, f, Ghost(is_text(id@)));
    proof {
        lemma_holds(seen@, id@);
    }
    found.is_some()
}

/// What is left of a list was in it.
pub proof fn lemma_filtered<T>(s: Seq<T>, p: spec_fn(T) -> bool)
    ensures
        forall|i: int|
            0 <= i < s.filter(p).len() ==> p(#[trigger] s.filter(p)[i]) && s.contains(
                s.filter(p)[i],
            ),
        forall|i: int| 0 <= i < s.len() && p(#[trigger] s[i]) ==> s.filter(p).contains(s[i]),
{
    assert forall|i: int| 0 <= i < s.filter(p).len() implies p(#[trigger] s.filter(p)[i])
        && s.contains(s.filter(p)[i]) by {
        let x = s.filter(p)[i];
        s.lemma_filter_pred(p, i);
        s.lemma_filter_contains_rev(p, x);
    }
    assert forall|i: int| 0 <= i < s.len() && p(#[trigger] s[i]) implies s.filter(p).contains(
        s[i],
    ) by {
        s.lemma_filter_contains(p, i);
    }
}

/// What satisfies a predicate is what is left of a list.
pub proof fn lemma_filter_holds<T>(s: Seq<T>, p: spec_fn(T) -> bool)
    ensures
        forall|x: T| #[trigger] s.filter(p).contains(x) <==> s.contains(x) && p(x),
{
    assert forall|x: T| #[trigger] s.filter(p).contains(x) implies s.contains(x) && p(x) by {
        s.lemma_filter_contains_rev(p, x);
        let i = s.filter(p).index_of(x);
        s.lemma_filter_pred(p, i);
    }
    assert forall|x: T| s.contains(x) && p(x) implies #[trigger] s.filter(p).contains(x) by {
        let i = s.index_of(x);
        s.lemma_filter_contains(p, i);
    }
}

/// A list of which nothing goes stays as it is.
pub proof fn lemma_all_stay<T>(s: Seq<T>, p: spec_fn(T) -> bool)
    requires
        forall|i: int| 0 <= i < s.len() ==> p(#[trigger] s[i]),
    ensures
        s.filter(p) == s,
    decreases s.len(),
{
    reveal(Seq::filter);
    if s.len() > 0 {
        let h = s.drop_last();
        assert forall|i: int| 0 <= i < h.len() implies p(#[trigger] h[i]) by {
            assert(h[i] == s[i]);
        }
        lemma_all_stay(h, p);
        assert(p(s[s.len() - 1]));
        assert(s.filter(p) =~= s);
    } else {
        assert(s.filter(p) =~= s);
    }
}

/// A list that does not get shorter stays as it is.
pub proof fn lemma_filter_full<T>(s: Seq<T>, p: spec_fn(T) -> bool)
    requires
        s.filter(p).len() >= s.len(),
    ensures
        s.filter(p) == s,
    decreases s.len(),
{
    reveal(Seq::filter);
    if s.len() > 0 {
        let h = s.drop_last();
        h.lemma_filter_len(p);
        if p(s.last()) {
            lemma_filter_full(h, p);
            assert(h.push(s.last()) =~= s);
        }
    } else {
        assert(s.filter(p) =~= s);
    }
}

/// Sorting keeps the length.
pub proof fn lemma_sorted_len<T>(s: Seq<T>, leq: spec_fn(T, T) -> bool)
    ensures
        stable_sorted(s, leq).len() == s.len(),
{
    law_stable_sort(s, leq);
}

} // verus!
