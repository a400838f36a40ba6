//! What holds of the pages of artists when those that peers told of are shown too.

use crate::library::artists::{
    artists_answer, by_size_folded, cards_of, counts, groups_of, has_credit, is_group, is_keyed,
    is_shown, keyed_local, merged_cards, page_offset, remote_id, with_groups, with_local, Group,
    KeyedCard, LibraryFilters, LibrarySourceMode, NetworkView,
};
use crate::library::listing::{local_card, local_cards, ArtistCardView};
use crate::library::listing_laws::lemma_sorted_has;
use crate::library::models::ArtistsPage;
use crate::library::tables::Library;
use crate::lists::{
    first_where, law_stable_sort, lemma_filter_holds, lemma_first_where, stable_sorted, viewed,
};
use crate::names::key_of;
use crate::text::is_blank;
use vstd::prelude::*;

verus! {

/// Whether the word of a peer on an artist is heard: it is no older than a week, it is
/// of one's own devices unless everyone is heard, and it tells of a release where
/// artists without one are left out.
pub open spec fn is_heard(r: NetworkView, filters: LibraryFilters, now_ms: i64) -> bool {
    &&& r.seen_at_ms >= now_ms - 7 * 24 * 3600 * 1000
    &&& filters.source_mode == LibrarySourceMode::Global || r.source_kind == "personal"@
    &&& filters.hide_featured_only ==> r.release_count > 0
}

proof fn lemma_heard(r: NetworkView, filters: LibraryFilters, now_ms: i64)
    ensures
        is_heard(r, filters, now_ms) == counts(r, filters, now_ms),
{
}

// ---------------------------------------------------------------------------
// What peers said of one artist
// ---------------------------------------------------------------------------

/// Whether the word of a peer is in what was said of an artist.
pub open spec fn is_counted(s: Seq<Group>, r: NetworkView) -> bool {
    exists|i: int|
        0 <= i < s.len() && (#[trigger] s[i]).key == r.artist_key && s[i].release_count
            >= r.release_count && s[i].track_count >= r.track_count
}

/// Whether a peer that is heard spoke of an artist.
pub open spec fn is_spoken_of(
    rows: Seq<NetworkView>,
    filters: LibraryFilters,
    now_ms: i64,
    k: Seq<char>,
) -> bool {
    exists|i: int|
        0 <= i < rows.len() && is_heard(#[trigger] rows[i], filters, now_ms) && rows[i].artist_key
            == k
}

proof fn lemma_groups(rows: Seq<NetworkView>, filters: LibraryFilters, now_ms: i64)
    ensures
        ({
            let s = groups_of(rows, filters, now_ms);
            &&& forall|k: int|
                0 <= k < rows.len() && is_heard(#[trigger] rows[k], filters, now_ms) ==> is_counted(
                    s,
                    rows[k],
                )
            &&& forall|i: int|
                0 <= i < s.len() ==> is_spoken_of(rows, filters, now_ms, (#[trigger] s[i]).key)
        }),
    decreases rows.len(),
{
    if rows.len() > 0 {
        let h = rows.drop_last();
        let last = rows.last();
        lemma_groups(h, filters, now_ms);
        lemma_heard(last, filters, now_ms);
        let b = groups_of(h, filters, now_ms);
        let s = groups_of(rows, filters, now_ms);
        lemma_first_where(b, is_group(last.artist_key));
        assert(forall|i: int| 0 <= i < b.len() ==> i < s.len() && (#[trigger] s[i]).key == b[i].key
            && s[i].release_count >= b[i].release_count && s[i].track_count >= b[i].track_count);
        assert forall|k: int|
            0 <= k < rows.len() && is_heard(#[trigger] rows[k], filters, now_ms) implies is_counted(
            s,
            rows[k],
        ) by {
            if k < h.len() {
                assert(h[k] == rows[k]);
                assert(is_counted(b, h[k]));
                let i = choose|i: int|
                    0 <= i < b.len() && (#[trigger] b[i]).key == h[k].artist_key
                        && b[i].release_count >= h[k].release_count && b[i].track_count
                        >= h[k].track_count;
                assert(s[i].key == rows[k].artist_key);
            } else {
                let i = match first_where(b, is_group(last.artist_key)) {
                    Some(i) => i,
                    None => b.len() as int,
                };
                assert(s[i].key == last.artist_key);
            }
        }
        assert forall|i: int| 0 <= i < s.len() implies is_spoken_of(
            rows,
            filters,
            now_ms,
            (#[trigger] s[i]).key,
        ) by {
            if i < b.len() {
                assert(is_spoken_of(h, filters, now_ms, b[i].key));
                let k = choose|k: int|
                    0 <= k < h.len() && is_heard(#[trigger] h[k], filters, now_ms)
                        && h[k].artist_key == b[i].key;
                assert(rows[k] == h[k]);
            } else {
                assert(rows[rows.len() - 1] == last);
            }
        }
    }
}

// ---------------------------------------------------------------------------
// The artists of the library
// ---------------------------------------------------------------------------

/// Whether a card has a key.
pub open spec fn has_card(s: Seq<KeyedCard>, k: Seq<char>) -> bool {
    exists|i: int| 0 <= i < s.len() && (#[trigger] s[i]).key == k
}

proof fn lemma_keyed<F: Fn(&str) -> String>(f: F, cards: Seq<ArtistCardView>)
    ensures
        ({
            let s = keyed_local(f, cards);
            &&& forall|c: int|
                0 <= c < cards.len() && key_of(f, (#[trigger] cards[c]).name).len() > 0 ==> has_card(
                    s,
                    key_of(f, cards[c].name),
                )
            &&& forall|i: int|
                0 <= i < s.len() ==> (#[trigger] s[i]).key == key_of(f, s[i].card.name)
                    && cards.contains(s[i].card)
            &&& forall|i: int, j: int|
                0 <= i < j < s.len() ==> (#[trigger] s[i]).key != (#[trigger] s[j]).key
        }),
    decreases cards.len(),
{
    if cards.len() > 0 {
        let h = cards.drop_last();
        let last = cards.last();
        let k = key_of(f, last.name);
        lemma_keyed(f, h);
        let b = keyed_local(f, h);
        let s = keyed_local(f, cards);
        lemma_first_where(b, is_keyed(k));
        assert(s == with_local(f, b, last));
        assert(forall|i: int| 0 <= i < b.len() ==> i < s.len() && (#[trigger] s[i]).key == b[i].key);
        assert(cards[cards.len() - 1] == last);
        assert(forall|x: ArtistCardView| h.contains(x) ==> #[trigger] cards.contains(x)) by {
            assert forall|x: ArtistCardView| h.contains(x) implies #[trigger] cards.contains(x) by {
                assert(cards[h.index_of(x)] == x);
            }
        }
        assert forall|c: int|
            0 <= c < cards.len() && key_of(f, (#[trigger] cards[c]).name).len()
                > 0 implies has_card(s, key_of(f, cards[c].name)) by {
            if c < h.len() {
                assert(h[c] == cards[c]);
                let i = choose|i: int|
                    0 <= i < b.len() && (#[trigger] b[i]).key == key_of(f, h[c].name);
                assert(s[i].key == b[i].key);
            } else {
                let i = match first_where(b, is_keyed(k)) {
                    Some(i) => i,
                    None => b.len() as int,
                };
                assert(s[i].key == k);
            }
        }
    }
}

// ---------------------------------------------------------------------------
// Both together
// ---------------------------------------------------------------------------

/// Whether what was said of an artist is on a card with its key.
pub open spec fn is_carded(s: Seq<KeyedCard>, g: Group) -> bool {
    exists|i: int|
        0 <= i < s.len() && (#[trigger] s[i]).key == g.key && s[i].card.release_count
            >= g.release_count && s[i].card.track_count >= g.track_count
}

/// Whether one of the words is on an artist with the key.
pub open spec fn is_among(groups: Seq<Group>, k: Seq<char>) -> bool {
    exists|j: int| 0 <= j < groups.len() && (#[trigger] groups[j]).key == k
}

proof fn lemma_with_groups(s: Seq<KeyedCard>, groups: Seq<Group>)
    ensures
        ({
            let t = with_groups(s, groups);
            &&& t.len() >= s.len()
            &&& forall|i: int|
                0 <= i < s.len() ==> {
                    &&& (#[trigger] t[i]).key == s[i].key
                    &&& t[i].card.id == s[i].card.id
                    &&& t[i].card.name == s[i].card.name
                    &&& t[i].card.release_count >= s[i].card.release_count
                    &&& t[i].card.track_count >= s[i].card.track_count
                }
            &&& forall|j: int|
                0 <= j < groups.len() && !is_blank((#[trigger] groups[j]).key)
                    && groups[j].track_count > 0 ==> is_carded(t, groups[j])
            &&& forall|i: int|
                s.len() <= i < t.len() ==> {
                    &&& (#[trigger] t[i]).card.id == remote_id(t[i].key) as i64
                    &&& is_among(groups, t[i].key)
                }
        }),
    decreases groups.len(),
{
    if groups.len() > 0 {
        let h = groups.drop_last();
        let g = groups.last();
        lemma_with_groups(s, h);
        let b = with_groups(s, h);
        let t = with_groups(s, groups);
        lemma_first_where(b, is_keyed(g.key));
        assert(forall|i: int|
            0 <= i < b.len() ==> {
                &&& i < t.len()
                &&& (#[trigger] t[i]).key == b[i].key
                &&& t[i].card.id == b[i].card.id
                &&& t[i].card.name == b[i].card.name
                &&& t[i].card.release_count >= b[i].card.release_count
                &&& t[i].card.track_count >= b[i].card.track_count
            });
        assert(groups[groups.len() - 1] == g);
        assert forall|j: int|
            0 <= j < groups.len() && !is_blank((#[trigger] groups[j]).key) && groups[j].track_count
                > 0 implies is_carded(t, groups[j]) by {
            if j < h.len() {
                assert(h[j] == groups[j]);
                assert(is_carded(b, h[j]));
                let i = choose|i: int|
                    0 <= i < b.len() && (#[trigger] b[i]).key == h[j].key && b[i].card.release_count
                        >= h[j].release_count && b[i].card.track_count >= h[j].track_count;
                assert(t[i].key == b[i].key);
            } else {
                let i = match first_where(b, is_keyed(g.key)) {
                    Some(i) => i,
                    None => b.len() as int,
                };
                assert(t[i].key == g.key);
            }
        }
        assert forall|i: int| s.len() <= i < t.len() implies (#[trigger] t[i]).card.id == remote_id(
            t[i].key,
        ) as i64 && is_among(groups, t[i].key) by {
            if i < b.len() {
                assert(t[i].key == b[i].key);
                let j = choose|j: int| 0 <= j < h.len() && (#[trigger] h[j]).key == b[i].key;
                assert(groups[j] == h[j]);
            } else {
                assert(t[i].key == g.key);
            }
        }
    }
}

/// Whether an artist of the library is shown under its name and id.
pub open spec fn is_of_library(lib: Library, c: ArtistCardView) -> bool {
    exists|k: int|
        0 <= k < lib.artists@.len() && (#[trigger] lib.artists@[k]).id == c.id
            && lib.artists@[k].name@ == c.name
}

/// Whether an artist is shown of whom a peer that is heard spoke.
pub open spec fn is_of_network(
    lib: Library,
    filters: LibraryFilters,
    now_ms: i64,
    c: ArtistCardView,
) -> bool {
    exists|k: int|
        0 <= k < lib.network@.len() && is_heard((#[trigger] lib.network@[k])@, filters, now_ms)
            && c.id == remote_id(lib.network@[k].artist_key@) as i64
}

/// Whether a page shows an artist with the key, with at least so many releases and
/// tracks: under its name, or as one that only peers have.
pub open spec fn shows_key<F: Fn(&str) -> String>(
    f: F,
    r: ArtistsPage,
    k: Seq<char>,
    releases: i64,
    tracks: i64,
) -> bool {
    exists|i: int|
        {
            &&& 0 <= i < r.items@.len()
            &&& key_of(f, (#[trigger] r.items@[i]).name@) == k || r.items@[i].id == remote_id(
                k,
            ) as i64
            &&& r.items@[i].release_count >= releases
            &&& r.items@[i].track_count >= tracks
        }
}

/// With the artists of peers shown too, every artist of the library is there, and every
/// artist of whom a peer that is heard said that there are tracks, with at least as many
/// as it said; and no other. A word that is too old, or that is not heard, adds nothing.
pub proof fn law_network_artists_are_shown<F: Fn(&str) -> String>(
    f: F,
    lib: Library,
    limit: i64,
    filters: LibraryFilters,
    now_ms: i64,
    r: ArtistsPage,
)
    requires
        artists_answer(f, lib, 1, limit, filters, now_ms, r),
        filters.source_mode != LibrarySourceMode::Local,
        r.total <= limit,
    ensures
        forall|k: int|
            0 <= k < lib.artists@.len() && (!filters.hide_featured_only || exists|c: int|
                0 <= c < lib.release_artists@.len() && (
                #[trigger] lib.release_artists@[c]).artist_id == lib.artists@[k].id) && key_of(
                f,
                (#[trigger] lib.artists@[k]).name@,
            ).len() > 0 ==> exists|i: int|
                0 <= i < r.items@.len() && key_of(f, (#[trigger] r.items@[i]).name@) == key_of(
                    f,
                    lib.artists@[k].name@,
                ),
        forall|k: int|
            0 <= k < lib.network@.len() && is_heard((#[trigger] lib.network@[k])@, filters, now_ms)
                && !is_blank(lib.network@[k].artist_key@) && lib.network@[k].track_count > 0
                ==> shows_key(
                f,
                r,
                lib.network@[k].artist_key@,
                lib.network@[k].release_count,
                lib.network@[k].track_count,
            ),
        forall|i: int|
            0 <= i < r.items@.len() ==> is_of_library(lib, (#[trigger] r.items@[i])@)
                || is_of_network(lib, filters, now_ms, r.items@[i]@),
{
    let v = viewed(r.items@);
    assert(v.len() == r.items@.len());
    assert(page_offset(1, limit) == 0) by (nonlinear_arith)
        requires
            page_offset(1, limit) == (1 - 1) * limit,
    ;
    let hide = filters.hide_featured_only;
    let p = is_shown(lib.release_artists@, hide);
    let rows = lib.artists@.filter(p);
    let cards = local_cards(lib, rows);
    let s = keyed_local(f, cards);
    let net = viewed(lib.network@);
    let groups = groups_of(net, filters, now_ms);
    let t = with_groups(s, groups);
    let all = cards_of(t);
    let leq = by_size_folded();
    lemma_keyed(f, cards);
    lemma_groups(net, filters, now_ms);
    lemma_with_groups(s, groups);
    law_stable_sort(all, leq);
    lemma_sorted_has(all, leq);
    lemma_filter_holds(lib.artists@, p);
    assert(all == merged_cards(f, lib, filters, now_ms));
    assert(v =~= stable_sorted(all, leq));
    assert forall|i: int| 0 <= i < t.len() implies exists|m: int|
        0 <= m < r.items@.len() && (#[trigger] r.items@[m])@ == (#[trigger] t[i]).card by {
        assert(all[i] == t[i].card);
        assert(all.contains(all[i]));
        assert(v.contains(all[i]));
        let m = v.index_of(all[i]);
        assert(v[m] == r.items@[m]@);
    }
    assert forall|k: int|
        0 <= k < lib.artists@.len() && (!filters.hide_featured_only || exists|c: int|
            0 <= c < lib.release_artists@.len() && (#[trigger] lib.release_artists@[c]).artist_id
                == lib.artists@[k].id) && key_of(f, (#[trigger] lib.artists@[k]).name@).len()
            > 0 implies exists|i: int|
        0 <= i < r.items@.len() && key_of(f, (#[trigger] r.items@[i]).name@) == key_of(
            f,
            lib.artists@[k].name@,
        ) by {
        let a = lib.artists@[k];
        lemma_first_where(lib.release_artists@, has_credit(a.id));
        if hide {
            let c = choose|c: int|
                0 <= c < lib.release_artists@.len() && (
                #[trigger] lib.release_artists@[c]).artist_id == a.id;
            assert(has_credit(a.id)(lib.release_artists@[c]));
        }
        assert(p(a));
        assert(lib.artists@.contains(a));
        assert(rows.contains(a));
        let m = rows.index_of(a);
        assert(cards[m] == local_card(lib, a));
        assert(has_card(s, key_of(f, cards[m].name)));
        let i = choose|i: int| 0 <= i < s.len() && (#[trigger] s[i]).key == key_of(f, a.name@);
        assert(t[i].card.name == s[i].card.name);
        let n = choose|n: int| 0 <= n < r.items@.len() && (#[trigger] r.items@[n])@ == t[i].card;
        assert(r.items@[n]@.name == r.items@[n].name@);
    }
    assert forall|k: int|
        0 <= k < lib.network@.len() && is_heard((#[trigger] lib.network@[k])@, filters, now_ms)
            && !is_blank(lib.network@[k].artist_key@) && lib.network@[k].track_count
            > 0 implies shows_key(
        f,
        r,
        lib.network@[k].artist_key@,
        lib.network@[k].release_count,
        lib.network@[k].track_count,
    ) by {
        let row = net[k];
        assert(row == lib.network@[k]@);
        assert(is_counted(groups, row));
        let j = choose|j: int|
            0 <= j < groups.len() && (#[trigger] groups[j]).key == row.artist_key
                && groups[j].release_count >= row.release_count && groups[j].track_count
                >= row.track_count;
        assert(is_carded(t, groups[j]));
        let i = choose|i: int|
            0 <= i < t.len() && (#[trigger] t[i]).key == groups[j].key && t[i].card.release_count
                >= groups[j].release_count && t[i].card.track_count >= groups[j].track_count;
        if i < s.len() {
            assert(s[i].key == key_of(f, s[i].card.name));
        }
        let n = choose|n: int| 0 <= n < r.items@.len() && (#[trigger] r.items@[n])@ == t[i].card;
        assert(r.items@[n]@.name == r.items@[n].name@);
    }
    assert forall|i: int| 0 <= i < r.items@.len() implies is_of_library(
        lib,
        (#[trigger] r.items@[i])@,
    ) || is_of_network(lib, filters, now_ms, r.items@[i]@) by {
        assert(v[i] == r.items@[i]@);
        assert(v.contains(v[i]));
        assert(all.contains(v[i]));
        let m = all.index_of(v[i]);
        assert(all[m] == t[m].card);
        if m < s.len() {
            assert(t[m].card.id == s[m].card.id);
            assert(cards.contains(s[m].card));
            let n = cards.index_of(s[m].card);
            assert(cards[n] == local_card(lib, rows[n]));
            assert(rows.contains(rows[n]));
            let k = lib.artists@.index_of(rows[n]);
            assert(lib.artists@[k] == rows[n]);
        } else {
            assert(t[m].card.id == remote_id(t[m].key) as i64);
            let j = choose|j: int| 0 <= j < groups.len() && (#[trigger] groups[j]).key == t[m].key;
            assert(is_spoken_of(net, filters, now_ms, groups[j].key));
            let k = choose|k: int|
                0 <= k < net.len() && is_heard(#[trigger] net[k], filters, now_ms)
                    && net[k].artist_key == groups[j].key;
            assert(net[k] == lib.network@[k]@);
        }
    }
}

} // verus!
