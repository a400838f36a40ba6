//! A map from texts to values that keeps the order in which the keys came in.

use crate::lists::{count_by, find_by, first_where};
use crate::text::same;
use vstd::prelude::*;

verus! {

pub struct Keyed<V: View> {
    entries: Vec<(String, V)>,
}

/// Whether a list of entries holds a key.
pub open spec fn holds<V: View>(s: Seq<(String, V)>, k: Seq<char>) -> bool {
    exists|i: int| 0 <= i < s.len() && (#[trigger] s[i]).0@ == k
}

/// The position of a key in a list of entries.
pub open spec fn place<V: View>(s: Seq<(String, V)>, k: Seq<char>) -> int {
    choose|i: int| 0 <= i < s.len() && (#[trigger] s[i]).0@ == k
}

/// What a list of entries maps each key to.
pub open spec fn as_map<V: View>(s: Seq<(String, V)>) -> Map<Seq<char>, V::V> {
    Map::new(|k: Seq<char>| holds(s, k), |k: Seq<char>| s[place(s, k)].1@)
}

/// The texts other than `key`.
pub open spec fn other_than(key: Seq<char>) -> spec_fn(Seq<char>) -> bool {
    |k: Seq<char>| k != key
}

/// The part of a map that satisfies a predicate.
pub open spec fn kept<X>(m: Map<Seq<char>, X>, p: spec_fn(Seq<char>, X) -> bool) -> Map<
    Seq<char>,
    X,
> {
    Map::new(|k: Seq<char>| m.dom().contains(k) && p(k, m[k]), |k: Seq<char>| m[k])
}

/// The entries of a key.
pub open spec fn is_entry_of<V: View>(key: Seq<char>) -> spec_fn((String, V)) -> bool {
    |e: (String, V)| e.0@ == key
}

/// The keys of a list of entries, in order.
pub open spec fn keys_of<V: View>(s: Seq<(String, V)>) -> Seq<Seq<char>> {
    s.map_values(|e: (String, V)| e.0@)
}

pub open spec fn distinct_keys<V: View>(s: Seq<(String, V)>) -> bool {
    forall|i: int, j: int|
        0 <= i < s.len() && 0 <= j < s.len() && (#[trigger] s[i]).0@ == (#[trigger] s[j]).0@ ==> i
            == j
}

impl<V: View> View for Keyed<V> {
    type V = Map<Seq<char>, V::V>;

    closed spec fn view(&self) -> Map<Seq<char>, V::V> {
        as_map(self.entries@)
    }
}

proof fn lemma_place<V: View>(s: Seq<(String, V)>, i: int)
    requires
        distinct_keys(s),
        0 <= i < s.len(),
    ensures
        holds(s, s[i].0@),
        place(s, s[i].0@) == i,
        as_map(s).dom().contains(s[i].0@),
        as_map(s)[s[i].0@] == s[i].1@,
{
    assert(holds(s, s[i].0@));
    let p = place(s, s[i].0@);
    assert(s[p].0@ == s[i].0@);
}

impl<V: View> Keyed<V> {
    /// No key occurs twice.
    #[verifier::type_invariant]
    closed spec fn wf(self) -> bool {
        distinct_keys(self.entries@)
    }

    /// The entries in the order in which their keys came in.
    pub closed spec fn items(&self) -> Seq<(String, V)> {
        self.entries@
    }

    /// The keys in the order in which they came in.
    pub open spec fn keys(&self) -> Seq<Seq<char>> {
        keys_of(self.items())
    }

    /// A key that is held stands in an entry.
    pub proof fn lemma_entry_of(&self, k: Seq<char>) -> (i: int)
        requires
            self@.dom().contains(k),
        ensures
            0 <= i < self.items().len(),
            self.items()[i].0@ == k,
            self@[k] == self.items()[i].1@,
    {
        place(self.entries@, k)
    }

    pub fn new() -> (r: Self)
        ensures
            r@ == Map::<Seq<char>, V::V>::empty(),
            r.items() == Seq::<(String, V)>::empty(),
    {
        let r = Keyed { entries: Vec::new() };
        proof {
            assert(r@ =~= Map::<Seq<char>, V::V>::empty());
        }
        r
    }

    /// An entry is what the map holds of its key. That no key occurs twice is
    /// what [`Keyed::len`] tells of every table.
    pub proof fn lemma_entry_at(&self, i: int)
        requires
            distinct_keys(self.items()),
            0 <= i < self.items().len(),
        ensures
            self@.dom().contains(self.items()[i].0@),
            self@[self.items()[i].0@] == self.items()[i].1@,
    {
        lemma_place(self.entries@, i);
    }

    /// How many entries there are. No key occurs twice among them.
    pub fn len(&self) -> (r: usize)
        ensures
            r == self.items().len(),
            distinct_keys(self.items()),
    {
        proof {
            use_type_invariant(self);
        }
        self.entries.len()
    }

    fn find(&self, key: &str) -> (r: Option<usize>)
        ensures
            match r {
                Some(i) => i < self.entries@.len() && self.entries@[i as int].0@ == key@,
                None => !self@.dom().contains(key@),
            },
    {
        let mut i: usize = 0;
        while i < self.entries.len()
            invariant
                i <= self.entries@.len(),
                forall|j: int| 0 <= j < i ==> (#[trigger] self.entries@[j]).0@ != key@,
            decreases self.entries@.len() - i,
        {
            if same(self.entries[i].0.as_str(), key) {
                return Some(i);
            }
            i += 1;
        }
        None
    }

    pub fn contains(&self, key: &str) -> (r: bool)
        ensures
            r == self@.dom().contains(key@),
    {
        proof {
            use_type_invariant(self);
        }
        match self.find(key) {
            Some(i) => {
                proof {
                    lemma_place(self.entries@, i as int);
                }
                true
            },
            None => false,
        }
    }

    pub fn get(&self, key: &str) -> (r: Option<&V>)
        ensures
            match r {
                Some(v) => self@.dom().contains(key@) && self@[key@] == v@,
                None => !self@.dom().contains(key@),
            },
    {
        proof {
            use_type_invariant(self);
        }
        match self.find(key) {
            Some(i) => {
                proof {
                    lemma_place(self.entries@, i as int);
                }
                Some(&self.entries[i].1)
            },
            None => None,
        }
    }

    /// The entry at a position of the order.
    pub fn at(&self, i: usize) -> (r: (&String, &V))
        requires
            i < self.items().len(),
        ensures
            *r.0 == self.items()[i as int].0,
            *r.1 == self.items()[i as int].1,
            self@.dom().contains(r.0@),
            self@[r.0@] == r.1@,
    {
        proof {
            use_type_invariant(self);
            lemma_place(self.entries@, i as int);
        }
        (&self.entries[i].0, &self.entries[i].1)
    }

    /// Where the entry of a key stands.
    pub fn position(&self, key: &str) -> (r: Option<usize>)
        ensures
            match r {
                Some(i) => first_where(self.items(), is_entry_of::<V>(key@)) == Some(i as int) && i
                    < self.items().len(),
                None => first_where(self.items(), is_entry_of::<V>(key@)) is None,
            },
    {
        let f = |e: &(String, V)| -> (b: bool)
            ensures
                b == is_entry_of::<V>(key@)(*e),
            { same(e.0.as_str(), key) };
        find_by(&self.entries, f, Ghost(is_entry_of::<V>(key@)))
    }

    /// How many entries satisfy a predicate.
    pub(crate) fn count<F: Fn(&(String, V)) -> bool>(
        &self,
        f: F,
        Ghost(p): Ghost<spec_fn((String, V)) -> bool>,
    ) -> (r: usize)
        requires
            forall|x: &(String, V)| call_requires(f, (x,)),
            forall|x: &(String, V), b: bool| call_ensures(f, (x,), b) ==> b == p(*x),
        ensures
            r == self.items().filter(p).len(),
            r <= self.items().len(),
    {
        count_by(&self.entries, f, Ghost(p))
    }

    /// Sets the value of a key. A new key comes last; a known one keeps its
    /// place.
    pub fn set(&mut self, key: &str, value: V)
        ensures
            final(self)@ == old(self)@.insert(key@, value@),
            final(self).keys() == (if old(self)@.dom().contains(key@) {
                old(self).keys()
            } else {
                old(self).keys().push(key@)
            }),
    {
        proof {
            use_type_invariant(&*self);
        }
        let ghost before = self.entries@;
        let found = self.find(key);
        let mut entries: Vec<(String, V)> = Vec::new();
        std::mem::swap(&mut entries, &mut self.entries);
        match found {
            Some(i) => {
                let ghost v = value@;
                proof {
                    lemma_place(before, i as int);
                }
                let k = key.to_owned();
                entries.push((k, value));
                let _ = entries.swap_remove(i);
                proof {
                    let now = entries@;
                    assert(now.len() == before.len());
                    assert(now[i as int].0@ == key@);
                    assert(now[i as int].1@ == v);
                    assert(forall|j: int| 0 <= j < now.len() && j != i ==> now[j] == before[j]);
                    assert(distinct_keys(now)) by {
                        assert forall|a: int, b: int|
                            0 <= a < now.len() && 0 <= b < now.len() && (#[trigger] now[a]).0@ == (
                            #[trigger] now[b]).0@ implies a == b by {
                            assert(before[a].0@ == now[a].0@);
                            assert(before[b].0@ == now[b].0@);
                        }
                    }
                    lemma_same_keys(before, now, i as int);
                    assert(keys_of(now) =~= keys_of(before));
                }
            },
            None => {
                let k = key.to_owned();
                entries.push((k, value));
                proof {
                    let now = entries@;
                    assert(!holds(before, key@));
                    assert(distinct_keys(now)) by {
                        assert forall|a: int, b: int|
                            0 <= a < now.len() && 0 <= b < now.len() && (#[trigger] now[a]).0@ == (
                            #[trigger] now[b]).0@ implies a == b by {
                            if a < before.len() {
                                assert(before[a] == now[a]);
                            }
                            if b < before.len() {
                                assert(before[b] == now[b]);
                            }
                        }
                    }
                    lemma_pushed(before, now);
                    assert(keys_of(now) =~= keys_of(before).push(key@));
                }
            },
        }
        self.entries = entries;
    }

    /// Takes a key out and gives its value. The others keep their order.
    pub fn take(&mut self, key: &str) -> (r: Option<V>)
        ensures
            match r {
                Some(v) => old(self)@.dom().contains(key@) && v@ == old(self)@[key@],
                None => !old(self)@.dom().contains(key@),
            },
            final(self)@ == old(self)@.remove(key@),
            final(self).keys() == old(self).keys().filter(other_than(key@)),
    {
        proof {
            use_type_invariant(&*self);
        }
        let ghost before = self.entries@;
        match self.find(key) {
            Some(i) => {
                proof {
                    lemma_place(before, i as int);
                }
                let mut entries: Vec<(String, V)> = Vec::new();
                std::mem::swap(&mut entries, &mut self.entries);
                let (_, value) = entries.remove(i);
                proof {
                    lemma_removed(before, entries@, i as int, key@);
                }
                self.entries = entries;
                Some(value)
            },
            None => {
                proof {
                    assert(self@.remove(key@) =~= self@);
                    lemma_filter_all(keys_of(before), key@);
                }
                None
            },
        }
    }

    /// Keeps the entries that satisfy a predicate.
    pub(crate) fn retain<F: Fn(&String, &V) -> bool>(
        &mut self,
        f: F,
        Ghost(p): Ghost<spec_fn(Seq<char>, V::V) -> bool>,
    )
        requires
            forall|k: &String, v: &V| call_requires(f, (k, v)),
            forall|k: &String, v: &V, b: bool| call_ensures(f, (k, v), b) ==> b == p(k@, v@),
        ensures
            final(self)@ == kept(old(self)@, p),
    {
        let ghost start = self@;
        let ghost before = *self;
        let ghost items = self.items();
        let mut gone: Vec<String> = Vec::new();
        let n: usize = self.len();
        let mut i: usize = 0;
        while i < n
            invariant
                i <= n,
                n == items.len(),
                items == self.items(),
                start == self@,
                forall|k: &String, v: &V| call_requires(f, (k, v)),
                forall|k: &String, v: &V, b: bool| call_ensures(f, (k, v), b) ==> b == p(k@, v@),
                forall|k: int|
                    0 <= k < gone@.len() ==> start.dom().contains((#[trigger] gone@[k])@) && !p(
                        gone@[k]@,
                        start[gone@[k]@],
                    ),
                forall|j: int|
                    0 <= j < i && !p((#[trigger] items[j]).0@, start[items[j].0@]) ==> exists|k: int|
                        0 <= k < gone@.len() && (#[trigger] gone@[k])@ == items[j].0@,
            decreases n - i,
        {
            let ghost earlier = gone@;
            let (id, value) = self.at(i);
            if !f(id, value) {
                gone.push(id.clone());
                proof {
                    assert(gone@[earlier.len() as int]@ == items[i as int].0@);
                    assert forall|j: int| 0 <= j < i + 1 && !p(
                        (#[trigger] items[j]).0@,
                        start[items[j].0@],
                    ) implies exists|k: int|
                        0 <= k < gone@.len() && (#[trigger] gone@[k])@ == items[j].0@ by {
                        if j < i {
                            let k = choose|k: int|
                                0 <= k < earlier.len() && (#[trigger] earlier[k])@ == items[j].0@;
                            assert(gone@[k]@ == items[j].0@);
                        }
                    }
                }
            }
            i += 1;
        }
        let mut i: usize = 0;
        proof {
            assert(start =~= start.remove_keys(
                Set::new(|k: Seq<char>| exists|j: int| 0 <= j < 0 && (#[trigger] gone@[j])@ == k),
            ));
        }
        while i < gone.len()
            invariant
                i <= gone@.len(),
                self@ == start.remove_keys(
                    Set::new(
                        |k: Seq<char>| exists|j: int| 0 <= j < i && (#[trigger] gone@[j])@ == k,
                    ),
                ),
            decreases gone@.len() - i,
        {
            let _ = self.remove(gone[i].as_str());
            proof {
                let a = Set::new(
                    |k: Seq<char>| exists|j: int| 0 <= j < i && (#[trigger] gone@[j])@ == k,
                );
                let b = Set::new(
                    |k: Seq<char>| exists|j: int| 0 <= j < i + 1 && (#[trigger] gone@[j])@ == k,
                );
                assert forall|k: Seq<char>| b.contains(k) == (a.contains(k) || k
                    == gone@[i as int]@) by {
                    if b.contains(k) {
                        let j = choose|j: int| 0 <= j < i + 1 && (#[trigger] gone@[j])@ == k;
                    }
                    if a.contains(k) {
                        let j = choose|j: int| 0 <= j < i && (#[trigger] gone@[j])@ == k;
                        assert(gone@[j]@ == k);
                    }
                    assert(gone@[i as int]@ == gone@[i as int]@);
                }
                assert(start.remove_keys(a).remove(gone@[i as int]@) =~= start.remove_keys(b));
            }
            i += 1;
        }
        proof {
            let b = Set::new(
                |k: Seq<char>| exists|j: int| 0 <= j < i && (#[trigger] gone@[j])@ == k,
            );
            assert(start.remove_keys(b) =~= kept(start, p)) by {
                assert forall|k: Seq<char>| start.dom().contains(k) implies b.contains(k) == !p(
                    k,
                    start[k],
                ) by {
                    if b.contains(k) {
                        let j = choose|j: int| 0 <= j < i && (#[trigger] gone@[j])@ == k;
                        assert(!p(gone@[j]@, start[gone@[j]@]));
                    }
                    if !p(k, start[k]) {
                        let j = before.lemma_entry_of(k);
                        assert(!p(items[j].0@, start[items[j].0@]));
                    }
                }
            }
        }
    }

    /// Takes a key out. The others keep their order.
    pub fn remove(&mut self, key: &str) -> (r: bool)
        ensures
            r == old(self)@.dom().contains(key@),
            final(self)@ == old(self)@.remove(key@),
            final(self).keys() == old(self).keys().filter(other_than(key@)),
    {
        self.take(key).is_some()
    }
}

proof fn lemma_same_keys<V: View>(a: Seq<(String, V)>, b: Seq<(String, V)>, i: int)
    requires
        distinct_keys(a),
        distinct_keys(b),
        a.len() == b.len(),
        0 <= i < a.len(),
        a[i].0@ == b[i].0@,
        forall|j: int| 0 <= j < a.len() && j != i ==> b[j] == a[j],
    ensures
        as_map(b) == as_map(a).insert(b[i].0@, b[i].1@),
{
    let m = as_map(a).insert(b[i].0@, b[i].1@);
    assert forall|k: Seq<char>| #[trigger] as_map(b).dom().contains(k) == m.dom().contains(k) by {
        if holds(b, k) {
            let p = place(b, k);
            lemma_place(b, p);
            lemma_place(a, p);
        }
        if holds(a, k) {
            let p = place(a, k);
            lemma_place(a, p);
            lemma_place(b, p);
        }
        lemma_place(b, i);
    }
    assert forall|k: Seq<char>| as_map(b).dom().contains(k) implies #[trigger] as_map(b)[k]
        == m[k] by {
        let p = place(b, k);
        assert(b[p].0@ == k);
        lemma_place(b, p);
        lemma_place(a, p);
        lemma_place(b, i);
    }
    assert(as_map(b) =~= m);
}

proof fn lemma_pushed<V: View>(a: Seq<(String, V)>, b: Seq<(String, V)>)
    requires
        distinct_keys(a),
        distinct_keys(b),
        b.len() == a.len() + 1,
        forall|j: int| 0 <= j < a.len() ==> b[j] == a[j],
    ensures
        as_map(b) == as_map(a).insert(b[a.len() as int].0@, b[a.len() as int].1@),
{
    let last = a.len() as int;
    let m = as_map(a).insert(b[last].0@, b[last].1@);
    lemma_place(b, last);
    assert forall|k: Seq<char>| #[trigger] as_map(b).dom().contains(k) == m.dom().contains(k) by {
        if holds(b, k) {
            let p = place(b, k);
            lemma_place(b, p);
            if p < last {
                lemma_place(a, p);
            }
        }
        if holds(a, k) {
            let p = place(a, k);
            lemma_place(a, p);
            lemma_place(b, p);
        }
    }
    assert forall|k: Seq<char>| as_map(b).dom().contains(k) implies #[trigger] as_map(b)[k]
        == m[k] by {
        let p = place(b, k);
        assert(b[p].0@ == k);
        lemma_place(b, p);
        if p < last {
            lemma_place(a, p);
        }
    }
    assert(as_map(b) =~= m);
}

proof fn lemma_filter_all(s: Seq<Seq<char>>, key: Seq<char>)
    requires
        forall|i: int| 0 <= i < s.len() ==> s[i] != key,
    ensures
        s.filter(other_than(key)) == s,
    decreases s.len(),
{
    reveal(Seq::filter);
    if s.len() > 0 {
        lemma_filter_all(s.drop_last(), key);
        assert(s.drop_last().push(s.last()) =~= s);
    }
}

proof fn lemma_filter_one(s: Seq<Seq<char>>, i: int, key: Seq<char>)
    requires
        0 <= i < s.len(),
        s[i] == key,
        forall|j: int| 0 <= j < s.len() && j != i ==> s[j] != key,
    ensures
        s.filter(other_than(key)) == s.remove(i),
    decreases s.len(),
{
    reveal(Seq::filter);
    let h = s.drop_last();
    if i == s.len() - 1 {
        lemma_filter_all(h, key);
        assert(s.remove(i) =~= h);
    } else {
        lemma_filter_one(h, i, key);
        assert(h.remove(i).push(s.last()) =~= s.remove(i));
    }
}

proof fn lemma_removed<V: View>(
    a: Seq<(String, V)>,
    b: Seq<(String, V)>,
    i: int,
    key: Seq<char>,
)
    requires
        distinct_keys(a),
        0 <= i < a.len(),
        a[i].0@ == key,
        b == a.remove(i),
    ensures
        distinct_keys(b),
        as_map(b) == as_map(a).remove(key),
        keys_of(b) == keys_of(a).filter(other_than(key)),
{
    let back = |j: int| if j < i {
        j
    } else {
        j + 1
    };
    assert forall|j: int| 0 <= j < b.len() implies b[j] == a[back(j)] by {}
    assert(distinct_keys(b)) by {
        assert forall|x: int, y: int|
            0 <= x < b.len() && 0 <= y < b.len() && (#[trigger] b[x]).0@ == (
            #[trigger] b[y]).0@ implies x == y by {
            assert(b[x] == a[back(x)]);
            assert(b[y] == a[back(y)]);
        }
    }
    let m = as_map(a).remove(a[i].0@);
    assert forall|k: Seq<char>| #[trigger] as_map(b).dom().contains(k) == m.dom().contains(k) by {
        if holds(b, k) {
            let p = place(b, k);
            assert(b[p] == a[back(p)]);
            lemma_place(a, back(p));
            lemma_place(a, i);
        }
        if holds(a, k) && k != a[i].0@ {
            let p = place(a, k);
            assert(a[p].0@ == k);
            let q = if p < i {
                p
            } else {
                p - 1
            };
            assert(b[q] == a[p]);
            lemma_place(b, q);
        }
    }
    assert forall|k: Seq<char>| as_map(b).dom().contains(k) implies #[trigger] as_map(b)[k]
        == m[k] by {
        let p = place(b, k);
        assert(b[p].0@ == k);
        assert(b[p] == a[back(p)]);
        lemma_place(b, p);
        lemma_place(a, back(p));
    }
    assert(as_map(b) =~= m);
    let ks = keys_of(a);
    assert forall|j: int| 0 <= j < ks.len() && j != i implies ks[j] != ks[i] by {
        assert(a[j].0@ != a[i].0@);
    }
    lemma_filter_one(ks, i, key);
    assert(keys_of(b) =~= ks.remove(i));
}

} // verus!
