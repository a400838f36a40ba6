//! What a search of the network finds, whatever peers published.

use crate::federation::laws::{lemma_no_order_is_total, lemma_sorted_keys};
use crate::federation::search::{
    all_hits, artist_order, cached_track, cached_words, hits_of_items, is_found, is_item,
    item_track, matches_query, network_answer, noted, noted_all, noted_item, opt_list, rank_order,
    shown_artist, words_of_all, ArtistHitView, CachedView, FedSearchResults, Found, ItemKind,
    NetItemView,
};
use crate::federation::track::{has_key, FedTrackView};
use crate::library::listing_laws::lemma_sorted_has;
use crate::lists::{first_where, law_stable_sort, lemma_first_where, total_preorder, viewed};
use crate::names::{key_of, words_of};
use vstd::prelude::*;

verus! {

/// Whether one of the names has the key.
pub open spec fn one_is_named<F: Fn(&str) -> String>(
    f: F,
    names: Seq<Seq<char>>,
    k: Seq<char>,
) -> bool {
    exists|i: int| 0 <= i < names.len() && key_of(f, #[trigger] names[i]) == k
}

/// Whether an item of another peer carries a name with the key: its own, if it is
/// an artist, or one of its artists.
pub open spec fn item_carries<F: Fn(&str) -> String>(
    f: F,
    own: Seq<char>,
    item: NetItemView,
    k: Seq<char>,
) -> bool {
    item.owner != own && ((item.kind == ItemKind::Artist && key_of(f, item.name) == k)
        || one_is_named(f, item.artist_names, k) || one_is_named(f, item.featured_artist_names, k))
}

/// Whether a track of which more was learnt is found, is another peer's, and
/// features an artist with the key.
pub open spec fn cached_carries<F: Fn(&str) -> String, T: Fn(&str) -> Vec<String>>(
    f: F,
    t: T,
    q: Seq<char>,
    c: CachedView,
    k: Seq<char>,
) -> bool {
    is_asked_for(f, t, q, c) && !c.fed.own && one_is_named(f, c.featured_artists, k)
}

/// Whether a track answers to a query: its title or its release is what was
/// asked for, or each word that was asked for is a word of its title, of an
/// artist or of its release.
pub open spec fn is_asked_for<F: Fn(&str) -> String, T: Fn(&str) -> Vec<String>>(
    f: F,
    t: T,
    q: Seq<char>,
    c: CachedView,
) -> bool {
    let w = words_of(t, q);
    q.len() > 0 && (key_of(f, c.title) == q || (c.release_title is Some && key_of(
        f,
        c.release_title->0,
    ) == q) || (w.len() > 0 && forall|i: int|
        0 <= i < w.len() ==> is_word_of(f, t, c, #[trigger] w[i])))
}

/// Whether a word stands in the title, an artist or the release of a track.
pub open spec fn is_word_of<F: Fn(&str) -> String, T: Fn(&str) -> Vec<String>>(
    f: F,
    t: T,
    c: CachedView,
    word: Seq<char>,
) -> bool {
    ||| words_of(t, key_of(f, c.title)).contains(word)
    ||| exists|i: int|
        0 <= i < c.artists.len() && words_of(t, key_of(f, #[trigger] c.artists[i])).contains(word)
    ||| exists|i: int|
        0 <= i < c.featured_artists.len() && words_of(
            t,
            key_of(f, #[trigger] c.featured_artists[i]),
        ).contains(word)
    ||| c.release_title is Some && words_of(t, key_of(f, c.release_title->0)).contains(word)
}

/// Whether a peer holds an artist with the key.
pub open spec fn holds_artist<F: Fn(&str) -> String, T: Fn(&str) -> Vec<String>>(
    f: F,
    t: T,
    q: Seq<char>,
    own: Seq<char>,
    items: Seq<NetItemView>,
    cached: Seq<CachedView>,
    k: Seq<char>,
    owner: Seq<char>,
) -> bool {
    ||| exists|i: int|
        0 <= i < items.len() && (#[trigger] items[i]).owner == owner && item_carries(
            f,
            own,
            items[i],
            k,
        )
    ||| exists|i: int|
        0 <= i < cached.len() && (#[trigger] cached[i]).fed.owner == owner && cached_carries(
            f,
            t,
            q,
            cached[i],
            k,
        )
}

// ---------------------------------------------------------------------------
// Words
// ---------------------------------------------------------------------------

proof fn lemma_words_of_all<F: Fn(&str) -> String, T: Fn(&str) -> Vec<String>>(
    f: F,
    t: T,
    texts: Seq<Seq<char>>,
    word: Seq<char>,
)
    ensures
        words_of_all(f, t, texts).contains(word) <==> exists|i: int|
            0 <= i < texts.len() && words_of(t, key_of(f, #[trigger] texts[i])).contains(word),
    decreases texts.len(),
{
    if texts.len() > 0 {
        let h = texts.drop_last();
        lemma_words_of_all(f, t, h, word);
        let a = words_of_all(f, t, h);
        let b = words_of(t, key_of(f, texts.last()));
        let s = a + b;
        if s.contains(word) {
            let i = s.index_of(word);
            if i < a.len() {
                assert(a[i] == word);
                let j = choose|j: int|
                    0 <= j < h.len() && words_of(t, key_of(f, #[trigger] h[j])).contains(word);
                assert(texts[j] == h[j]);
            } else {
                assert(b[i - a.len()] == word);
                assert(texts[texts.len() - 1] == texts.last());
            }
        }
        if exists|i: int|
            0 <= i < texts.len() && words_of(t, key_of(f, #[trigger] texts[i])).contains(word) {
            let i = choose|i: int|
                0 <= i < texts.len() && words_of(t, key_of(f, #[trigger] texts[i])).contains(word);
            if i < h.len() {
                assert(h[i] == texts[i]);
                let j = a.index_of(word);
                assert(s[j] == word);
            } else {
                let j = b.index_of(word);
                assert(s[a.len() + j] == word);
            }
        }
    }
}

proof fn lemma_cached_words<F: Fn(&str) -> String, T: Fn(&str) -> Vec<String>>(
    f: F,
    t: T,
    c: CachedView,
    word: Seq<char>,
)
    ensures
        cached_words(f, t, c).contains(word) <==> is_word_of(f, t, c, word),
{
    let r = opt_list(c.release_title);
    let texts = seq![c.title] + c.artists + c.featured_artists + r;
    lemma_words_of_all(f, t, texts, word);
    let n = c.artists.len() as int;
    let m = c.featured_artists.len() as int;
    assert(texts[0] == c.title);
    assert forall|i: int| 0 <= i < n implies #[trigger] c.artists[i] == texts[1 + i] by {}
    assert forall|i: int| 0 <= i < m implies #[trigger] c.featured_artists[i] == texts[1 + n + i] by {}
    if c.release_title is Some {
        assert(texts[1 + n + m] == c.release_title->0);
    }
    if exists|i: int|
        0 <= i < texts.len() && words_of(t, key_of(f, #[trigger] texts[i])).contains(word) {
        let i = choose|i: int|
            0 <= i < texts.len() && words_of(t, key_of(f, #[trigger] texts[i])).contains(word);
        if i == 0 {
        } else if i < 1 + n {
            assert(c.artists[i - 1] == texts[i]);
        } else if i < 1 + n + m {
            assert(c.featured_artists[i - 1 - n] == texts[i]);
        }
    }
}

/// A track is found exactly when its title or its release is what was asked for,
/// or each word that was asked for is a word of its title, of an artist or of
/// its release.
pub proof fn law_track_is_found_by_its_words<F: Fn(&str) -> String, T: Fn(&str) -> Vec<String>>(
    f: F,
    t: T,
    c: CachedView,
    q: Seq<char>,
)
    ensures
        matches_query(f, t, c, q) <==> is_asked_for(f, t, q, c),
{
    let w = words_of(t, q);
    let all = cached_words(f, t, c);
    assert forall|i: int| 0 <= i < w.len() implies (all.contains(#[trigger] w[i]) <==> is_word_of(
        f,
        t,
        c,
        w[i],
    )) by {
        lemma_cached_words(f, t, c, w[i]);
    }
}

// ---------------------------------------------------------------------------
// Artists
// ---------------------------------------------------------------------------

/// The artists that were noted are those that someone holds, each once, with
/// those who hold them.
spec fn noted_right<F: Fn(&str) -> String>(
    f: F,
    s: Seq<Found>,
    held: spec_fn(Seq<char>, Seq<char>) -> bool,
) -> bool {
    &&& forall|i: int|
        0 <= i < s.len() ==> (#[trigger] s[i]).key.len() > 0 && s[i].key == key_of(f, s[i].name)
            && s[i].owners.len() > 0 && s[i].owners.no_duplicates()
    &&& forall|i: int, j: int|
        0 <= i < j < s.len() ==> (#[trigger] s[i]).key != (#[trigger] s[j]).key
    &&& forall|i: int, o: Seq<char>|
        0 <= i < s.len() ==> (#[trigger] s[i].owners.contains(o) <==> held(s[i].key, o))
    &&& forall|k: Seq<char>, o: Seq<char>|
        k.len() > 0 && #[trigger] held(k, o) ==> exists|i: int|
            0 <= i < s.len() && (#[trigger] s[i]).key == k
}

proof fn lemma_noted<F: Fn(&str) -> String>(
    f: F,
    s: Seq<Found>,
    name: Seq<char>,
    owner: Seq<char>,
    held: spec_fn(Seq<char>, Seq<char>) -> bool,
    then_held: spec_fn(Seq<char>, Seq<char>) -> bool,
)
    requires
        noted_right(f, s, held),
        forall|k: Seq<char>, o: Seq<char>|
            k.len() > 0 ==> (#[trigger] then_held(k, o) <==> held(k, o) || (o == owner && k == key_of(
                f,
                name,
            ))),
    ensures
        noted_right(f, noted(f, s, name, owner), then_held),
{
    let k = key_of(f, name);
    let r = noted(f, s, name, owner);
    lemma_first_where(s, is_found(k));
    if k.len() == 0 {
        assert forall|i: int, o: Seq<char>| 0 <= i < r.len() implies (
        #[trigger] r[i].owners.contains(o) <==> then_held(r[i].key, o)) by {
            assert(s[i].owners.contains(o) <==> held(s[i].key, o));
        }
    } else {
        match first_where(s, is_found(k)) {
            Some(p) => {
                let was = s[p].owners;
                let owners = r[p].owners;
                assert(was.contains(owner) ==> owners == was);
                assert(!was.contains(owner) ==> owners == was.push(owner));
                assert forall|i: int, o: Seq<char>| 0 <= i < r.len() implies (
                #[trigger] r[i].owners.contains(o) <==> then_held(r[i].key, o)) by {
                    assert(s[i].owners.contains(o) <==> held(s[i].key, o));
                    if i == p {
                        if !was.contains(owner) {
                            if was.contains(o) {
                                let m = was.index_of(o);
                                assert(owners[m] == o);
                            }
                            if o == owner {
                                assert(owners[was.len() as int] == o);
                            }
                            if owners.contains(o) && o != owner {
                                let m = owners.index_of(o);
                                assert(was[m] == o);
                            }
                        }
                    } else {
                        assert(s[i].key != k);
                    }
                }
                assert forall|i: int| 0 <= i < r.len() implies (#[trigger] r[i]).key.len() > 0
                    && r[i].key == key_of(f, r[i].name) && r[i].owners.len() > 0
                    && r[i].owners.no_duplicates() by {
                    assert(s[i].key.len() > 0);
                }
                assert forall|i: int, j: int| 0 <= i < j < r.len() implies (#[trigger] r[i]).key != (
                #[trigger] r[j]).key by {
                    assert(s[i].key != s[j].key);
                }
                assert forall|x: Seq<char>, o: Seq<char>|
                    x.len() > 0 && #[trigger] then_held(x, o) implies exists|i: int|
                    0 <= i < r.len() && (#[trigger] r[i]).key == x by {
                    if held(x, o) {
                        let i = choose|i: int| 0 <= i < s.len() && (#[trigger] s[i]).key == x;
                        assert(r[i].key == x);
                    } else {
                        assert(r[p].key == x);
                    }
                }
            },
            None => {
                let n = s.len() as int;
                assert(r[n].owners[0] == owner);
                assert forall|i: int, o: Seq<char>| 0 <= i < r.len() implies (
                #[trigger] r[i].owners.contains(o) <==> then_held(r[i].key, o)) by {
                    if i < n {
                        assert(s[i].owners.contains(o) <==> held(s[i].key, o));
                        assert(!is_found(k)(s[i]));
                    } else {
                        if held(k, o) {
                            let m = choose|m: int| 0 <= m < s.len() && (#[trigger] s[m]).key == k;
                            assert(is_found(k)(s[m]));
                        }
                    }
                }
                assert forall|i: int| 0 <= i < r.len() implies (#[trigger] r[i]).key.len() > 0
                    && r[i].key == key_of(f, r[i].name) && r[i].owners.len() > 0
                    && r[i].owners.no_duplicates() by {
                    if i < n {
                        assert(s[i].key.len() > 0);
                    }
                }
                assert forall|i: int, j: int| 0 <= i < j < r.len() implies (#[trigger] r[i]).key != (
                #[trigger] r[j]).key by {
                    if j < n {
                        assert(s[i].key != s[j].key);
                    } else {
                        assert(!is_found(k)(s[i]));
                    }
                }
                assert forall|x: Seq<char>, o: Seq<char>|
                    x.len() > 0 && #[trigger] then_held(x, o) implies exists|i: int|
                    0 <= i < r.len() && (#[trigger] r[i]).key == x by {
                    if held(x, o) {
                        let i = choose|i: int| 0 <= i < s.len() && (#[trigger] s[i]).key == x;
                        assert(r[i].key == x);
                    } else {
                        assert(r[n].key == x);
                    }
                }
            },
        }
    }
}

spec fn or_named<F: Fn(&str) -> String>(
    f: F,
    held: spec_fn(Seq<char>, Seq<char>) -> bool,
    names: Seq<Seq<char>>,
    owner: Seq<char>,
) -> spec_fn(Seq<char>, Seq<char>) -> bool {
    |k: Seq<char>, o: Seq<char>| held(k, o) || (o == owner && one_is_named(f, names, k))
}

proof fn lemma_noted_all<F: Fn(&str) -> String>(
    f: F,
    s: Seq<Found>,
    names: Seq<Seq<char>>,
    owner: Seq<char>,
    held: spec_fn(Seq<char>, Seq<char>) -> bool,
)
    requires
        noted_right(f, s, held),
    ensures
        noted_right(f, noted_all(f, s, names, owner), or_named(f, held, names, owner)),
    decreases names.len(),
{
    let after = or_named(f, held, names, owner);
    if names.len() == 0 {
        lemma_same(f, s, held, after);
    } else {
        let h = names.drop_last();
        lemma_noted_all(f, s, h, owner, held);
        let mid = or_named(f, held, h, owner);
        assert forall|k: Seq<char>, o: Seq<char>| k.len() > 0 implies (#[trigger] after(k, o)
            <==> mid(k, o) || (o == owner && k == key_of(f, names.last()))) by {
            lemma_named_push(f, names, k);
        }
        lemma_noted(f, noted_all(f, s, h, owner), names.last(), owner, mid, after);
    }
}

proof fn lemma_named_push<F: Fn(&str) -> String>(f: F, names: Seq<Seq<char>>, k: Seq<char>)
    requires
        names.len() > 0,
    ensures
        one_is_named(f, names, k) <==> one_is_named(f, names.drop_last(), k) || key_of(
            f,
            names.last(),
        ) == k,
{
    let h = names.drop_last();
    if one_is_named(f, names, k) {
        let i = choose|i: int| 0 <= i < names.len() && key_of(f, #[trigger] names[i]) == k;
        if i < h.len() {
            assert(key_of(f, h[i]) == k);
        }
    }
    if one_is_named(f, h, k) {
        let i = choose|i: int| 0 <= i < h.len() && key_of(f, #[trigger] h[i]) == k;
        assert(key_of(f, names[i]) == k);
    }
    if key_of(f, names.last()) == k {
        assert(key_of(f, names[names.len() - 1]) == k);
    }
}

proof fn lemma_same<F: Fn(&str) -> String>(
    f: F,
    s: Seq<Found>,
    held: spec_fn(Seq<char>, Seq<char>) -> bool,
    same: spec_fn(Seq<char>, Seq<char>) -> bool,
)
    requires
        noted_right(f, s, held),
        forall|k: Seq<char>, o: Seq<char>| k.len() > 0 ==> (#[trigger] same(k, o) <==> held(k, o)),
    ensures
        noted_right(f, s, same),
{
    assert forall|i: int, o: Seq<char>| 0 <= i < s.len() implies (#[trigger] s[i].owners.contains(o)
        <==> same(s[i].key, o)) by {
        assert(s[i].owners.contains(o) <==> held(s[i].key, o));
        assert(s[i].key.len() > 0);
    }
    assert forall|k: Seq<char>, o: Seq<char>| k.len() > 0 && #[trigger] same(k, o) implies exists|
        i: int,
    |
        0 <= i < s.len() && (#[trigger] s[i]).key == k by {
        assert(held(k, o));
    }
}

spec fn or_item<F: Fn(&str) -> String>(
    f: F,
    held: spec_fn(Seq<char>, Seq<char>) -> bool,
    own: Seq<char>,
    item: NetItemView,
) -> spec_fn(Seq<char>, Seq<char>) -> bool {
    |k: Seq<char>, o: Seq<char>| held(k, o) || (o == item.owner && item_carries(f, own, item, k))
}

proof fn lemma_noted_item<F: Fn(&str) -> String>(
    f: F,
    s: Seq<Found>,
    own: Seq<char>,
    item: NetItemView,
    held: spec_fn(Seq<char>, Seq<char>) -> bool,
)
    requires
        noted_right(f, s, held),
    ensures
        noted_right(f, noted_item(f, s, own, item), or_item(f, held, own, item)),
{
    let after = or_item(f, held, own, item);
    if item.owner == own {
        lemma_same(f, s, held, after);
    } else {
        let first = if item.kind == ItemKind::Artist {
            seq![item.name]
        } else {
            Seq::empty()
        };
        let named = if item.kind is Artist {
            noted(f, s, item.name, item.owner)
        } else {
            s
        };
        let one = or_named(f, held, first, item.owner);
        if item.kind is Artist {
            assert forall|k: Seq<char>, o: Seq<char>| k.len() > 0 implies (#[trigger] one(k, o)
                <==> held(k, o) || (o == item.owner && k == key_of(f, item.name))) by {
                assert(first[0] == item.name);
            }
            lemma_noted(f, s, item.name, item.owner, held, one);
        } else {
            lemma_same(f, s, held, one);
        }
        lemma_noted_all(f, named, item.artist_names, item.owner, one);
        let two = or_named(f, one, item.artist_names, item.owner);
        let then = noted_all(f, named, item.artist_names, item.owner);
        lemma_noted_all(f, then, item.featured_artist_names, item.owner, two);
        let three = or_named(f, two, item.featured_artist_names, item.owner);
        assert forall|k: Seq<char>, o: Seq<char>| k.len() > 0 implies (#[trigger] after(k, o)
            <==> three(k, o)) by {
            if item.kind == ItemKind::Artist {
                assert(first[0] == item.name);
            }
        }
        lemma_same(f, noted_item(f, s, own, item), three, after);
    }
}

spec fn held_of<F: Fn(&str) -> String, T: Fn(&str) -> Vec<String>>(
    f: F,
    t: T,
    q: Seq<char>,
    own: Seq<char>,
    items: Seq<NetItemView>,
    cached: Seq<CachedView>,
) -> spec_fn(Seq<char>, Seq<char>) -> bool {
    |k: Seq<char>, o: Seq<char>| holds_artist(f, t, q, own, items, cached, k, o)
}

proof fn lemma_items_noted<F: Fn(&str) -> String, T: Fn(&str) -> Vec<String>>(
    f: F,
    t: T,
    q: Seq<char>,
    own: Seq<char>,
    items: Seq<NetItemView>,
)
    ensures
        noted_right(
            f,
            hits_of_items(f, own, items).artists,
            held_of(f, t, q, own, items, Seq::empty()),
        ),
    decreases items.len(),
{
    let after = held_of(f, t, q, own, items, Seq::empty());
    if items.len() > 0 {
        let h = items.drop_last();
        let held = held_of(f, t, q, own, h, Seq::empty());
        lemma_items_noted(f, t, q, own, h);
        let s = hits_of_items(f, own, h).artists;
        lemma_noted_item(f, s, own, items.last(), held);
        let mid = or_item(f, held, own, items.last());
        assert forall|k: Seq<char>, o: Seq<char>| k.len() > 0 implies (#[trigger] after(k, o)
            <==> mid(k, o)) by {
            if after(k, o) {
                let i = choose|i: int|
                    0 <= i < items.len() && (#[trigger] items[i]).owner == o && item_carries(
                        f,
                        own,
                        items[i],
                        k,
                    );
                if i < h.len() {
                    assert(h[i] == items[i]);
                }
            }
            if held(k, o) {
                let i = choose|i: int|
                    0 <= i < h.len() && (#[trigger] h[i]).owner == o && item_carries(
                        f,
                        own,
                        h[i],
                        k,
                    );
                assert(items[i] == h[i]);
            }
            if mid(k, o) && !held(k, o) {
                assert(items[items.len() - 1].owner == o);
            }
        }
        lemma_same(f, hits_of_items(f, own, items).artists, mid, after);
    }
}

proof fn lemma_all_noted<F: Fn(&str) -> String, T: Fn(&str) -> Vec<String>>(
    f: F,
    t: T,
    q: Seq<char>,
    own: Seq<char>,
    items: Seq<NetItemView>,
    cached: Seq<CachedView>,
)
    ensures
        noted_right(
            f,
            all_hits(f, t, q, own, items, cached).artists,
            held_of(f, t, q, own, items, cached),
        ),
    decreases cached.len(),
{
    let after = held_of(f, t, q, own, items, cached);
    if cached.len() == 0 {
        lemma_items_noted(f, t, q, own, items);
        assert(cached =~= Seq::empty());
    } else {
        let h = cached.drop_last();
        let c = cached.last();
        let held = held_of(f, t, q, own, items, h);
        lemma_all_noted(f, t, q, own, items, h);
        law_track_is_found_by_its_words(f, t, c, q);
        let s = all_hits(f, t, q, own, items, h).artists;
        lemma_noted_all(f, s, c.featured_artists, c.fed.owner, held);
        let listed = matches_query(f, t, c, q) && !c.fed.own;
        let mid = if listed {
            or_named(f, held, c.featured_artists, c.fed.owner)
        } else {
            held
        };
        assert forall|k: Seq<char>, o: Seq<char>| k.len() > 0 implies (#[trigger] after(k, o)
            <==> mid(k, o)) by {
            if after(k, o) && !held(k, o) {
                let i = choose|i: int|
                    0 <= i < cached.len() && (#[trigger] cached[i]).fed.owner == o
                        && cached_carries(f, t, q, cached[i], k);
                if i < h.len() {
                    assert(h[i] == cached[i]);
                }
            }
            if held(k, o) {
                if exists|i: int|
                    0 <= i < h.len() && (#[trigger] h[i]).fed.owner == o && cached_carries(
                        f,
                        t,
                        q,
                        h[i],
                        k,
                    ) {
                    let i = choose|i: int|
                        0 <= i < h.len() && (#[trigger] h[i]).fed.owner == o && cached_carries(
                            f,
                            t,
                            q,
                            h[i],
                            k,
                        );
                    assert(cached[i] == h[i]);
                }
            }
            if mid(k, o) && !held(k, o) {
                assert(cached[cached.len() - 1].fed.owner == o);
            }
        }
        lemma_same(f, all_hits(f, t, q, own, items, cached).artists, mid, after);
    }
}

/// A search lists the artists whom other peers hold: for every name with a key
/// that is not empty which an item of another peer carries, an artist with
/// that key; no artist twice; and as the number of its peers the number of
/// those, other than this peer, who hold it. An artist whom only this peer's
/// items carry is not listed.
pub proof fn law_search_lists_the_artists_of_others<
    F: Fn(&str) -> String,
    T: Fn(&str) -> Vec<String>,
>(
    f: F,
    t: T,
    query: Seq<char>,
    own: Seq<char>,
    items: Seq<NetItemView>,
    cached: Seq<CachedView>,
    r: FedSearchResults,
)
    requires
        network_answer(f, t, query, own, items, cached, r),
    ensures
        ({
            let q = key_of(f, query);
            &&& forall|k: Seq<char>, o: Seq<char>|
                k.len() > 0 && #[trigger] holds_artist(f, t, q, own, items, cached, k, o)
                    ==> exists|i: int|
                    0 <= i < r.artists@.len() && key_of(f, (#[trigger] r.artists@[i]).name@) == k
            &&& forall|i: int, j: int|
                0 <= i < j < r.artists@.len() ==> key_of(f, (#[trigger] r.artists@[i]).name@)
                    != key_of(f, (#[trigger] r.artists@[j]).name@)
            &&& forall|i: int|
                0 <= i < r.artists@.len() ==> exists|owners: Seq<Seq<char>>|
                    {
                        &&& #[trigger] owners.no_duplicates()
                        &&& owners.len() > 0
                        &&& (#[trigger] r.artists@[i]).peers == owners.len() as usize
                        &&& forall|o: Seq<char>|
                            #[trigger] owners.contains(o) <==> holds_artist(
                                f,
                                t,
                                q,
                                own,
                                items,
                                cached,
                                key_of(f, r.artists@[i].name@),
                                o,
                            )
                    }
        }),
{
    let q = key_of(f, query);
    let h = all_hits(f, t, q, own, items, cached).artists;
    let shown = h.map_values(|a: Found| shown_artist(a));
    let leq = artist_order(f, q);
    let v = viewed(r.artists@);
    let held = held_of(f, t, q, own, items, cached);
    lemma_all_noted(f, t, q, own, items, cached);
    lemma_sorted_has(shown, leq);
    assert(v.len() == r.artists@.len());
    assert forall|k: Seq<char>, o: Seq<char>|
        k.len() > 0 && #[trigger] holds_artist(f, t, q, own, items, cached, k, o) implies exists|
        i: int,
    |
        0 <= i < r.artists@.len() && key_of(f, (#[trigger] r.artists@[i]).name@) == k by {
        assert(held(k, o));
        let m = choose|m: int| 0 <= m < h.len() && (#[trigger] h[m]).key == k;
        assert(shown[m] == shown_artist(h[m]));
        assert(shown.contains(shown[m]));
        assert(v.contains(shown[m]));
        let i = v.index_of(shown[m]);
        assert(v[i] == r.artists@[i]@);
        assert(r.artists@[i].name@ == h[m].name);
    }
    let g = |a: ArtistHitView| key_of(f, a.name);
    let keys = shown.map_values(g);
    assert forall|i: int, j: int| 0 <= i < j < keys.len() implies keys[i] != keys[j] by {
        assert(keys[i] == h[i].key);
        assert(keys[j] == h[j].key);
    }
    lemma_sorted_keys(shown, leq, g);
    let sorted = v.map_values(g);
    assert forall|i: int, j: int| 0 <= i < j < r.artists@.len() implies key_of(
        f,
        (#[trigger] r.artists@[i]).name@,
    ) != key_of(f, (#[trigger] r.artists@[j]).name@) by {
        assert(sorted[i] == key_of(f, v[i].name));
        assert(sorted[j] == key_of(f, v[j].name));
        assert(v[i] == r.artists@[i]@ && v[j] == r.artists@[j]@);
        assert(sorted[i] != sorted[j]);
    }
    assert forall|i: int| 0 <= i < r.artists@.len() implies exists|owners: Seq<Seq<char>>|
        {
            &&& #[trigger] owners.no_duplicates()
            &&& owners.len() > 0
            &&& (#[trigger] r.artists@[i]).peers == owners.len() as usize
            &&& forall|o: Seq<char>|
                #[trigger] owners.contains(o) <==> holds_artist(
                    f,
                    t,
                    q,
                    own,
                    items,
                    cached,
                    key_of(f, r.artists@[i].name@),
                    o,
                )
        } by {
        assert(v[i] == r.artists@[i]@);
        assert(v.contains(v[i]));
        let m = shown.index_of(v[i]);
        assert(shown[m] == shown_artist(h[m]));
        let owners = h[m].owners;
        assert(owners.no_duplicates());
        assert forall|o: Seq<char>| #[trigger] owners.contains(o) <==> holds_artist(
            f,
            t,
            q,
            own,
            items,
            cached,
            key_of(f, r.artists@[i].name@),
            o,
        ) by {
            assert(h[m].owners.contains(o) <==> held(h[m].key, o));
        }
    }
}

/// What is named as asked for stands in front of what is not, and then what more
/// peers hold in front of what fewer hold.
pub proof fn law_search_puts_the_named_artist_first<
    F: Fn(&str) -> String,
    T: Fn(&str) -> Vec<String>,
>(
    f: F,
    t: T,
    query: Seq<char>,
    own: Seq<char>,
    items: Seq<NetItemView>,
    cached: Seq<CachedView>,
    r: FedSearchResults,
    i: int,
    j: int,
)
    requires
        network_answer(f, t, query, own, items, cached, r),
        0 <= i < j < r.artists@.len(),
    ensures
        key_of(f, r.artists@[j].name@) == key_of(f, query) ==> key_of(f, r.artists@[i].name@)
            == key_of(f, query),
        (key_of(f, r.artists@[j].name@) == key_of(f, query)) == (key_of(f, r.artists@[i].name@)
            == key_of(f, query)) ==> r.artists@[i].peers >= r.artists@[j].peers,
{
    let q = key_of(f, query);
    let shown = all_hits(f, t, q, own, items, cached).artists.map_values(
        |a: Found| shown_artist(a),
    );
    let leq = artist_order(f, q);
    assert forall|a: ArtistHitView, b: ArtistHitView| #[trigger] leq(a, b) || leq(b, a) by {
        lemma_no_order_is_total(a.name, b.name, a.name);
    }
    assert forall|a: ArtistHitView, b: ArtistHitView, c: ArtistHitView| #[trigger]
        leq(a, b) && #[trigger] leq(b, c) implies leq(a, c) by {
        lemma_no_order_is_total(a.name, b.name, c.name);
    }
    law_stable_sort(shown, leq);
    let v = viewed(r.artists@);
    assert(v.len() == r.artists@.len());
    assert(v[i] == r.artists@[i]@ && v[j] == r.artists@[j]@);
    assert(leq(v[i], v[j]));
}

// ---------------------------------------------------------------------------
// Tracks
// ---------------------------------------------------------------------------

proof fn lemma_item_tracks<F: Fn(&str) -> String>(
    f: F,
    own: Seq<char>,
    items: Seq<NetItemView>,
    x: FedTrackView,
)
    ensures
        hits_of_items(f, own, items).tracks.contains(x) <==> exists|i: int|
            0 <= i < items.len() && (#[trigger] items[i]).kind is Track && x == item_track(
                own,
                items[i],
            ),
    decreases items.len(),
{
    if items.len() > 0 {
        let h = items.drop_last();
        let last = items.last();
        lemma_item_tracks(f, own, h, x);
        let a = hits_of_items(f, own, h).tracks;
        let b = hits_of_items(f, own, items).tracks;
        if b.contains(x) {
            let m = b.index_of(x);
            if m < a.len() {
                assert(a[m] == x);
                let i = choose|i: int|
                    0 <= i < h.len() && (#[trigger] h[i]).kind is Track && x == item_track(
                        own,
                        h[i],
                    );
                assert(items[i] == h[i]);
            } else {
                assert(items[items.len() - 1] == last);
            }
        }
        if exists|i: int|
            0 <= i < items.len() && (#[trigger] items[i]).kind is Track && x == item_track(
                own,
                items[i],
            ) {
            let i = choose|i: int|
                0 <= i < items.len() && (#[trigger] items[i]).kind is Track && x == item_track(
                    own,
                    items[i],
                );
            if i < h.len() {
                assert(h[i] == items[i]);
                let m = a.index_of(x);
                assert(b[m] == x);
            } else {
                assert(b[a.len() as int] == x);
            }
        }
    }
}

/// What is among the tracks that were found: those that were published, and those
/// of which more was learnt and that are asked for; none of these is missing.
proof fn lemma_all_tracks<F: Fn(&str) -> String, T: Fn(&str) -> Vec<String>>(
    f: F,
    t: T,
    q: Seq<char>,
    own: Seq<char>,
    items: Seq<NetItemView>,
    cached: Seq<CachedView>,
)
    ensures
        ({
            let all = all_hits(f, t, q, own, items, cached).tracks;
            &&& forall|m: int|
                0 <= m < all.len() ==> (exists|i: int|
                    0 <= i < items.len() && (#[trigger] items[i]).kind is Track && all[m]
                        == item_track(own, items[i])) || (exists|i: int|
                    0 <= i < cached.len() && is_asked_for(f, t, q, #[trigger] cached[i])
                        && #[trigger] all[m] == cached_track(cached[i]))
            &&& forall|i: int|
                0 <= i < items.len() && (#[trigger] items[i]).kind is Track ==> all.contains(
                    item_track(own, items[i]),
                )
            &&& forall|i: int|
                0 <= i < cached.len() && is_asked_for(f, t, q, #[trigger] cached[i]) ==> exists|
                    m: int,
                |
                    0 <= m < all.len() && (#[trigger] all[m]).owner == cached[i].fed.owner
                        && all[m].item_id == cached[i].fed.item_id
        }),
    decreases cached.len(),
{
    let all = all_hits(f, t, q, own, items, cached).tracks;
    if cached.len() == 0 {
        assert forall|m: int| 0 <= m < all.len() implies (exists|i: int|
            0 <= i < items.len() && (#[trigger] items[i]).kind is Track && #[trigger] all[m]
                == item_track(own, items[i])) by {
            assert(all.contains(all[m]));
            lemma_item_tracks(f, own, items, all[m]);
        }
        assert forall|i: int|
            0 <= i < items.len() && (#[trigger] items[i]).kind is Track implies all.contains(
            item_track(own, items[i]),
        ) by {
            lemma_item_tracks(f, own, items, item_track(own, items[i]));
        }
    } else {
        let h = cached.drop_last();
        let c = cached.last();
        let n = cached.len() - 1;
        let before = all_hits(f, t, q, own, items, h).tracks;
        lemma_all_tracks(f, t, q, own, items, h);
        law_track_is_found_by_its_words(f, t, c, q);
        lemma_first_where(before, is_item(c.fed.owner, c.fed.item_id));
        assert forall|m: int| 0 <= m < before.len() implies #[trigger] all[m] == before[m] by {}
        assert forall|m: int| 0 <= m < all.len() implies (exists|i: int|
            0 <= i < items.len() && (#[trigger] items[i]).kind is Track && all[m] == item_track(
                own,
                items[i],
            )) || (exists|i: int|
            0 <= i < cached.len() && is_asked_for(f, t, q, #[trigger] cached[i])
                && #[trigger] all[m] == cached_track(cached[i])) by {
            if m < before.len() {
                assert(all[m] == before[m]);
                if !(exists|i: int|
                    0 <= i < items.len() && (#[trigger] items[i]).kind is Track && before[m]
                        == item_track(own, items[i])) {
                    let i = choose|i: int|
                        0 <= i < h.len() && is_asked_for(f, t, q, #[trigger] h[i]) && before[m]
                            == cached_track(h[i]);
                    assert(cached[i] == h[i]);
                }
            } else {
                assert(cached[n] == c);
            }
        }
        assert forall|i: int|
            0 <= i < items.len() && (#[trigger] items[i]).kind is Track implies all.contains(
            item_track(own, items[i]),
        ) by {
            let m = before.index_of(item_track(own, items[i]));
            assert(all[m] == item_track(own, items[i]));
        }
        assert forall|i: int|
            0 <= i < cached.len() && is_asked_for(f, t, q, #[trigger] cached[i]) implies exists|
            m: int,
        |
            0 <= m < all.len() && (#[trigger] all[m]).owner == cached[i].fed.owner
                && all[m].item_id == cached[i].fed.item_id by {
            if i < n {
                assert(h[i] == cached[i]);
                let m = choose|m: int|
                    0 <= m < before.len() && (#[trigger] before[m]).owner == h[i].fed.owner
                        && before[m].item_id == h[i].fed.item_id;
                assert(all[m] == before[m]);
            } else {
                match first_where(before, is_item(c.fed.owner, c.fed.item_id)) {
                    Some(m) => {
                        assert(all[m] == before[m]);
                    },
                    None => {
                        assert(all[before.len() as int] == cached_track(c));
                    },
                }
            }
        }
    }
}

/// A search gives every track that was published, under its name and with its
/// artists, and every track of which more was learnt and that is asked for;
/// and it gives no other.
pub proof fn law_search_gives_the_tracks<F: Fn(&str) -> String, T: Fn(&str) -> Vec<String>>(
    f: F,
    t: T,
    query: Seq<char>,
    own: Seq<char>,
    items: Seq<NetItemView>,
    cached: Seq<CachedView>,
    r: FedSearchResults,
)
    requires
        network_answer(f, t, query, own, items, cached, r),
    ensures
        forall|i: int|
            0 <= i < items.len() && (#[trigger] items[i]).kind == ItemKind::Track ==> exists|m: int|
                0 <= m < r.tracks@.len() && (#[trigger] r.tracks@[m])@.owner == items[i].owner
                    && r.tracks@[m]@.item_id == items[i].id && r.tracks@[m]@.title == items[i].name
                    && r.tracks@[m]@.artist_names == items[i].artist_names
                    && r.tracks@[m]@.content_id == items[i].content_id && r.tracks@[m]@.own == (
                items[i].owner == own),
        forall|i: int|
            0 <= i < cached.len() && is_asked_for(f, t, key_of(f, query), #[trigger] cached[i])
                ==> exists|m: int|
                0 <= m < r.tracks@.len() && (#[trigger] r.tracks@[m])@.owner == cached[i].fed.owner
                    && r.tracks@[m]@.item_id == cached[i].fed.item_id,
        forall|m: int|
            0 <= m < r.tracks@.len() ==> (exists|i: int|
                0 <= i < items.len() && (#[trigger] items[i]).kind == ItemKind::Track
                    && r.tracks@[m]@.owner == items[i].owner && r.tracks@[m]@.item_id
                    == items[i].id && r.tracks@[m]@.title == items[i].name) || (exists|i: int|
                0 <= i < cached.len() && is_asked_for(f, t, key_of(f, query), #[trigger] cached[i])
                    && (#[trigger] r.tracks@[m])@.owner == cached[i].fed.owner
                    && r.tracks@[m]@.item_id == cached[i].fed.item_id && r.tracks@[m]@.title
                    == cached[i].title),
{
    let q = key_of(f, query);
    let all = all_hits(f, t, q, own, items, cached).tracks;
    let leq = rank_order(f, q);
    let v = viewed(r.tracks@);
    lemma_all_tracks(f, t, q, own, items, cached);
    lemma_sorted_has(all, leq);
    assert(v.len() == r.tracks@.len());
    assert forall|i: int| 0 <= i < items.len() && (#[trigger] items[i]).kind
        == ItemKind::Track implies exists|m: int|
        0 <= m < r.tracks@.len() && (#[trigger] r.tracks@[m])@.owner == items[i].owner
            && r.tracks@[m]@.item_id == items[i].id && r.tracks@[m]@.title == items[i].name
            && r.tracks@[m]@.artist_names == items[i].artist_names && r.tracks@[m]@.content_id
            == items[i].content_id && r.tracks@[m]@.own == (items[i].owner == own) by {
        let x = item_track(own, items[i]);
        assert(v.contains(x));
        let m = v.index_of(x);
        assert(v[m] == r.tracks@[m]@);
        assert(r.tracks@[m]@ == x);
    }
    assert forall|i: int| 0 <= i < cached.len() && is_asked_for(f, t, q, #[trigger] cached[i])
        implies exists|m: int|
        0 <= m < r.tracks@.len() && (#[trigger] r.tracks@[m])@.owner == cached[i].fed.owner
            && r.tracks@[m]@.item_id == cached[i].fed.item_id by {
        let k = choose|k: int|
            0 <= k < all.len() && (#[trigger] all[k]).owner == cached[i].fed.owner
                && all[k].item_id == cached[i].fed.item_id;
        assert(all.contains(all[k]));
        assert(v.contains(all[k]));
        let m = v.index_of(all[k]);
        assert(v[m] == r.tracks@[m]@);
        assert(r.tracks@[m]@.owner == cached[i].fed.owner);
    }
    assert forall|m: int| 0 <= m < r.tracks@.len() implies (exists|i: int|
        0 <= i < items.len() && (#[trigger] items[i]).kind == ItemKind::Track && r.tracks@[m]@.owner
            == items[i].owner && r.tracks@[m]@.item_id == items[i].id && r.tracks@[m]@.title
            == items[i].name) || (exists|i: int|
        0 <= i < cached.len() && is_asked_for(f, t, q, #[trigger] cached[i]) && (
        #[trigger] r.tracks@[m])@.owner == cached[i].fed.owner && r.tracks@[m]@.item_id
            == cached[i].fed.item_id && r.tracks@[m]@.title == cached[i].title) by {
        assert(v[m] == r.tracks@[m]@);
        assert(v.contains(v[m]));
        let k = all.index_of(v[m]);
        assert(all[k] == r.tracks@[m]@);
        if exists|i: int|
            0 <= i < items.len() && (#[trigger] items[i]).kind is Track && all[k] == item_track(
                own,
                items[i],
            ) {
            let i = choose|i: int|
                0 <= i < items.len() && (#[trigger] items[i]).kind is Track && all[k]
                    == item_track(own, items[i]);
            assert(items[i].kind == ItemKind::Track);
        } else {
            let i = choose|i: int|
                0 <= i < cached.len() && is_asked_for(f, t, q, #[trigger] cached[i]) && all[k]
                    == cached_track(cached[i]);
            assert(is_asked_for(f, t, q, cached[i]));
        }
    }
}

/// A track whose title is what was asked for stands in front of every track
/// whose title is not; behind these, one whose release is what was asked for
/// in front of every other.
pub proof fn law_search_puts_the_named_track_first<
    F: Fn(&str) -> String,
    T: Fn(&str) -> Vec<String>,
>(
    f: F,
    t: T,
    query: Seq<char>,
    own: Seq<char>,
    items: Seq<NetItemView>,
    cached: Seq<CachedView>,
    r: FedSearchResults,
    i: int,
    j: int,
)
    requires
        network_answer(f, t, query, own, items, cached, r),
        0 <= i < j < r.tracks@.len(),
    ensures
        ({
            let q = key_of(f, query);
            let a = r.tracks@[i]@;
            let b = r.tracks@[j]@;
            let released = b.release_title is Some && key_of(f, b.release_title->0) == q;
            let by_artist = one_is_named(f, b.artist_names, q) || one_is_named(
                f,
                b.featured_artist_names,
                q,
            );
            &&& key_of(f, b.title) == q ==> key_of(f, a.title) == q
            &&& released ==> key_of(f, a.title) == q || (a.release_title is Some && key_of(
                f,
                a.release_title->0,
            ) == q)
            &&& by_artist ==> key_of(f, a.title) == q || (a.release_title is Some && key_of(
                f,
                a.release_title->0,
            ) == q) || one_is_named(f, a.artist_names, q) || one_is_named(
                f,
                a.featured_artist_names,
                q,
            )
        }),
{
    let q = key_of(f, query);
    let all = all_hits(f, t, q, own, items, cached).tracks;
    let leq = rank_order(f, q);
    assert(total_preorder(leq));
    law_stable_sort(all, leq);
    let v = viewed(r.tracks@);
    assert(v.len() == r.tracks@.len());
    assert(v[i] == r.tracks@[i]@ && v[j] == r.tracks@[j]@);
    assert(leq(v[i], v[j]));
    assert(has_key(f, v[j].artist_names, q) == one_is_named(f, v[j].artist_names, q));
    assert(has_key(f, v[j].featured_artist_names, q) == one_is_named(
        f,
        v[j].featured_artist_names,
        q,
    ));
    assert(has_key(f, v[i].artist_names, q) == one_is_named(f, v[i].artist_names, q));
    assert(has_key(f, v[i].featured_artist_names, q) == one_is_named(
        f,
        v[i].featured_artist_names,
        q,
    ));
}

} // verus!
