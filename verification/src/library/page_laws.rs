//! What holds of the pages of artists and of what a search of the library finds.

use crate::library::artists::{
    artists_answer, by_size, by_size_folded, has_credit, is_shown, lowercased, merged_cards,
    page_offset, shown_cards, LibraryFilters, LibrarySourceMode,
};
use crate::library::listing::{
    artist_like, artist_rank_order, by_artist_name, by_release_title, by_title, item_rank_order,
    items_of, local_card, local_cards, release_card, release_cards, release_like,
    release_rank_order, search_answer, track_item, track_like, ArtistCardView,
};
use crate::library::listing_laws::{lemma_items_places, lemma_no_case_order, lemma_sorted_has};
use crate::library::models::{ArtistsPage, SearchResults};
use crate::library::tables::Library;
use crate::lists::{
    first_where, law_stable_sort, lemma_filter_holds, lemma_first_where, limited, stable_sorted,
    total_preorder, viewed,
};
use crate::names::key_of;
use crate::text::{find_from, occurs_at, trimmed};
use vstd::prelude::*;

verus! {

// ---------------------------------------------------------------------------
// Pages
// ---------------------------------------------------------------------------

proof fn lemma_size_order()
    ensures
        total_preorder(by_size()),
{
    let leq = by_size();
    assert forall|a: ArtistCardView, b: ArtistCardView| #[trigger] leq(a, b) || leq(b, a) by {
        lemma_no_case_order(a.name, b.name, b.name);
    }
    assert forall|a: ArtistCardView, b: ArtistCardView, c: ArtistCardView| #[trigger]
        leq(a, b) && #[trigger] leq(b, c) implies leq(a, c) by {
        lemma_no_case_order(a.name, b.name, c.name);
    }
}

proof fn lemma_folded_order()
    ensures
        total_preorder(by_size_folded()),
{
    let leq = by_size_folded();
    assert forall|a: ArtistCardView, b: ArtistCardView| #[trigger] leq(a, b) || leq(b, a) by {
        crate::federation::laws::lemma_no_order_is_total(
            lowercased(a.name),
            lowercased(b.name),
            lowercased(a.name),
        );
    }
    assert forall|a: ArtistCardView, b: ArtistCardView, c: ArtistCardView| #[trigger]
        leq(a, b) && #[trigger] leq(b, c) implies leq(a, c) by {
        crate::federation::laws::lemma_no_order_is_total(
            lowercased(a.name),
            lowercased(b.name),
            lowercased(c.name),
        );
    }
}

/// A page holds at most as many artists as it may. Those with more releases come
/// first, then those with more tracks. There is more behind it exactly when the
/// artists before it and on it are not all.
pub proof fn law_page_is_in_order<F: Fn(&str) -> String>(
    f: F,
    lib: Library,
    page: i64,
    limit: i64,
    filters: LibraryFilters,
    now_ms: i64,
    r: ArtistsPage,
)
    requires
        artists_answer(f, lib, page, limit, filters, now_ms, r),
        page >= 1,
        limit >= 0,
    ensures
        r.items@.len() <= limit,
        r.page == page,
        r.has_more <==> (page - 1) * limit + r.items@.len() < r.total,
        forall|i: int, j: int|
            0 <= i < j < r.items@.len() ==> {
                &&& (#[trigger] r.items@[i]).release_count >= (#[trigger] r.items@[j]).release_count
                &&& r.items@[i].release_count == r.items@[j].release_count
                    ==> r.items@[i].track_count >= r.items@[j].track_count
            },
{
    let v = viewed(r.items@);
    assert(v.len() == r.items@.len());
    let offset = page_offset(page, limit);
    assert(offset == (page - 1) * limit);
    assert(offset >= 0) by (nonlinear_arith)
        requires
            offset == (page - 1) * limit,
            page >= 1,
            limit >= 0,
    ;
    let local = filters.source_mode is Local;
    let leq = if local {
        by_size()
    } else {
        by_size_folded()
    };
    let all = if local {
        shown_cards(lib, filters.hide_featured_only)
    } else {
        merged_cards(f, lib, filters, now_ms)
    };
    lemma_size_order();
    lemma_folded_order();
    law_stable_sort(all, leq);
    let s = stable_sorted(all, leq);
    assert forall|i: int| 0 <= i < v.len() implies #[trigger] v[i] == s[offset + i] && offset + i
        < s.len() by {}
    assert forall|i: int, j: int| 0 <= i < j < r.items@.len() implies {
        &&& (#[trigger] r.items@[i]).release_count >= (#[trigger] r.items@[j]).release_count
        &&& r.items@[i].release_count == r.items@[j].release_count ==> r.items@[i].track_count
            >= r.items@[j].track_count
    } by {
        assert(v[i] == r.items@[i]@ && v[j] == r.items@[j]@);
        assert(v[i] == s[offset + i] && v[j] == s[offset + j]);
        assert(leq(s[offset + i], s[offset + j]));
    }
}

/// The pages follow one another without a gap and without overlap: what stands at
/// a place of a page is what stands at the same place behind all pages before
/// it in any other way of cutting the same list.
pub proof fn law_pages_join<F: Fn(&str) -> String>(
    f: F,
    lib: Library,
    page: i64,
    limit: i64,
    filters: LibraryFilters,
    now_ms: i64,
    r: ArtistsPage,
    whole: ArtistsPage,
    most: i64,
)
    requires
        artists_answer(f, lib, page, limit, filters, now_ms, r),
        artists_answer(f, lib, 1, most, filters, now_ms, whole),
        page >= 1,
        limit >= 1,
        whole.total <= most,
    ensures
        whole.items@.len() == whole.total,
        r.total == whole.total,
        r.items@.len() < limit ==> (page - 1) * limit + r.items@.len() >= r.total,
        forall|i: int|
            0 <= i < r.items@.len() ==> (page - 1) * limit + i < whole.items@.len() && (
            #[trigger] r.items@[i])@ == whole.items@[(page - 1) * limit + i]@,
{
    let v = viewed(r.items@);
    let w = viewed(whole.items@);
    assert(v.len() == r.items@.len());
    assert(w.len() == whole.items@.len());
    let offset = page_offset(page, limit);
    assert(offset == (page - 1) * limit);
    assert(offset >= 0) by (nonlinear_arith)
        requires
            offset == (page - 1) * limit,
            page >= 1,
            limit >= 1,
    ;
    assert(page_offset(1, most) == 0) by (nonlinear_arith)
        requires
            page_offset(1, most) == (1 - 1) * most,
    ;
    let local = filters.source_mode is Local;
    let leq = if local {
        by_size()
    } else {
        by_size_folded()
    };
    let all = if local {
        shown_cards(lib, filters.hide_featured_only)
    } else {
        merged_cards(f, lib, filters, now_ms)
    };
    law_stable_sort(all, leq);
    let s = stable_sorted(all, leq);
    assert(w == s);
    assert forall|i: int| 0 <= i < r.items@.len() implies offset + i < whole.items@.len() && (
    #[trigger] r.items@[i])@ == whole.items@[offset + i]@ by {
        assert(v[i] == r.items@[i]@);
        assert(v[i] == s[offset + i]);
        assert(w[offset + i] == whole.items@[offset + i]@);
    }
}

/// With only the artists of this library shown, they are all there, but for those
/// without a release of their own where these are left out; each under its name
/// and with its id.
pub proof fn law_local_artists_are_shown<F: Fn(&str) -> String>(
    f: F,
    lib: Library,
    limit: i64,
    filters: LibraryFilters,
    now_ms: i64,
    r: ArtistsPage,
)
    requires
        artists_answer(f, lib, 1, limit, filters, now_ms, r),
        filters.source_mode == LibrarySourceMode::Local,
        r.total <= limit,
    ensures
        forall|k: int|
            0 <= k < lib.artists@.len() && (!filters.hide_featured_only || exists|c: int|
                0 <= c < lib.release_artists@.len() && (#[trigger] lib.release_artists@[c]).artist_id
                    == lib.artists@[k].id) ==> exists|i: int|
                0 <= i < r.items@.len() && (#[trigger] r.items@[i]).id == (
                #[trigger] lib.artists@[k]).id && r.items@[i].name@ == lib.artists@[k].name@,
        forall|i: int|
            0 <= i < r.items@.len() ==> exists|k: int|
                0 <= k < lib.artists@.len() && (#[trigger] r.items@[i]).id == (
                #[trigger] lib.artists@[k]).id && r.items@[i].name@ == lib.artists@[k].name@,
        filters.hide_featured_only ==> forall|i: int|
            0 <= i < r.items@.len() ==> exists|c: int|
                0 <= c < lib.release_artists@.len() && (#[trigger] lib.release_artists@[c]).artist_id
                    == (#[trigger] r.items@[i]).id,
{
    let v = viewed(r.items@);
    assert(v.len() == r.items@.len());
    assert(page_offset(1, limit) == 0) by (nonlinear_arith)
        requires
            page_offset(1, limit) == (1 - 1) * limit,
    ;
    let hide = filters.hide_featured_only;
    let p = is_shown(lib.release_artists@, hide);
    let rows = lib.artists@.filter(p);
    let cards = local_cards(lib, rows);
    let leq = by_size();
    law_stable_sort(cards, leq);
    lemma_sorted_has(cards, leq);
    lemma_filter_holds(lib.artists@, p);
    assert(v == stable_sorted(cards, leq));
    assert forall|k: int|
        0 <= k < lib.artists@.len() && (!hide || exists|c: int|
            0 <= c < lib.release_artists@.len() && (#[trigger] lib.release_artists@[c]).artist_id
                == lib.artists@[k].id) implies exists|i: int|
        0 <= i < r.items@.len() && (#[trigger] r.items@[i]).id == (#[trigger] lib.artists@[k]).id
            && r.items@[i].name@ == lib.artists@[k].name@ by {
        let a = lib.artists@[k];
        lemma_first_where(lib.release_artists@, has_credit(a.id));
        if hide {
            let c = choose|c: int|
                0 <= c < lib.release_artists@.len() && (#[trigger] lib.release_artists@[c]).artist_id
                    == a.id;
            assert(has_credit(a.id)(lib.release_artists@[c]));
        }
        assert(p(a));
        assert(lib.artists@.contains(a));
        assert(rows.contains(a));
        let m = rows.index_of(a);
        assert(cards[m] == local_card(lib, a));
        assert(cards.contains(cards[m]));
        assert(v.contains(cards[m]));
        let i = v.index_of(cards[m]);
        assert(v[i] == r.items@[i]@);
    }
    assert forall|i: int| 0 <= i < r.items@.len() implies exists|k: int|
        0 <= k < lib.artists@.len() && (#[trigger] r.items@[i]).id == (#[trigger] lib.artists@[k]).id
            && r.items@[i].name@ == lib.artists@[k].name@ by {
        assert(v[i] == r.items@[i]@);
        assert(v.contains(v[i]));
        let m = cards.index_of(v[i]);
        assert(cards[m] == local_card(lib, rows[m]));
        assert(rows.contains(rows[m]));
        let k = lib.artists@.index_of(rows[m]);
        assert(lib.artists@[k] == rows[m]);
    }
    if hide {
        assert forall|i: int| 0 <= i < r.items@.len() implies exists|c: int|
            0 <= c < lib.release_artists@.len() && (#[trigger] lib.release_artists@[c]).artist_id
                == (#[trigger] r.items@[i]).id by {
            assert(v[i] == r.items@[i]@);
            assert(v.contains(v[i]));
            let m = cards.index_of(v[i]);
            assert(cards[m] == local_card(lib, rows[m]));
            assert(rows.contains(rows[m]));
            assert(p(rows[m]));
            lemma_first_where(lib.release_artists@, has_credit(rows[m].id));
            let c = first_where(lib.release_artists@, has_credit(rows[m].id))->0;
            assert(lib.release_artists@[c].artist_id == rows[m].id);
        }
    }
}

// ---------------------------------------------------------------------------
// Searching the library
// ---------------------------------------------------------------------------

/// Whether a text stands in another.
pub open spec fn stands_in(s: Seq<char>, p: Seq<char>) -> bool {
    exists|i: int| 0 <= i && i + p.len() <= s.len() && #[trigger] s.subrange(i, i + p.len()) == p
}

proof fn lemma_find(s: Seq<char>, p: Seq<char>)
    ensures
        find_from(s, p, 0) is Some <==> stands_in(s, p),
{
    crate::text::lemma_find_from(s, p, 0);
    if let Some(i) = find_from(s, p, 0) {
        assert(s.subrange(i, i + p.len()) =~= p);
    } else {
        if stands_in(s, p) {
            let i = choose|i: int|
                0 <= i && i + p.len() <= s.len() && #[trigger] s.subrange(i, i + p.len()) == p;
            assert(!occurs_at(s, p, i));
            assert forall|k: int| 0 <= k < p.len() implies s[i + k] == #[trigger] p[k] by {
                assert(s.subrange(i, i + p.len())[k] == p[k]);
            }
        }
    }
}

/// A list that is cut holds nothing that was not in it, and one that is shorter
/// than the limit was not cut.
proof fn lemma_limited<T>(s: Seq<T>, n: i64)
    ensures
        n >= 0 ==> limited(s, n).len() <= n,
        n < 0 || limited(s, n).len() < n ==> limited(s, n) == s,
        forall|x: T| #[trigger] limited(s, n).contains(x) ==> s.contains(x),
{
    let r = limited(s, n);
    assert forall|x: T| #[trigger] r.contains(x) implies s.contains(x) by {
        let i = r.index_of(x);
        assert(s[i] == x);
    }
}

/// A search finds the artists whose name, as it is compared, holds what was asked
/// for: no other; and every one where fewer than the limit are found. An artist
/// who is named exactly so stands in front of those who are not.
pub proof fn law_search_finds_artists<F: Fn(&str) -> String>(
    f: F,
    lib: Library,
    query: Seq<char>,
    limit: i64,
    r: SearchResults,
)
    requires
        search_answer(f, lib, query, limit, r),
        trimmed(query).len() > 0,
        key_of(f, trimmed(query)).len() > 0,
    ensures
        ({
            let p = key_of(f, trimmed(query));
            &&& limit >= 0 ==> r.artists@.len() <= limit
            &&& limit < 0 || r.artists@.len() < limit ==> forall|k: int|
                0 <= k < lib.artists@.len() && stands_in(
                    key_of(f, (#[trigger] lib.artists@[k]).name@),
                    p,
                ) ==> exists|i: int|
                    0 <= i < r.artists@.len() && (#[trigger] r.artists@[i]).id == lib.artists@[k].id
                        && r.artists@[i].name@ == lib.artists@[k].name@
            &&& forall|i: int|
                0 <= i < r.artists@.len() ==> stands_in(
                    key_of(f, (#[trigger] r.artists@[i]).name@),
                    p,
                ) && exists|k: int|
                    0 <= k < lib.artists@.len() && (#[trigger] lib.artists@[k]).id
                        == r.artists@[i].id
            &&& forall|i: int, j: int|
                0 <= i < j < r.artists@.len() && key_of(f, (#[trigger] r.artists@[j]).name@) == p
                    ==> key_of(f, (#[trigger] r.artists@[i]).name@) == p
        }),
{
    let p = key_of(f, trimmed(query));
    let like = artist_like(f, p);
    let own = lib.artists@.filter(like);
    let rows = stable_sorted(own, by_artist_name());
    let cards = local_cards(lib, rows);
    let some = limited(cards, limit);
    let leq = artist_rank_order(f, p);
    let v = viewed(r.artists@);
    assert(v == stable_sorted(some, leq));
    assert(v.len() == r.artists@.len());
    law_stable_sort(some, leq);
    lemma_sorted_has(some, leq);
    lemma_sorted_has(own, by_artist_name());
    lemma_filter_holds(lib.artists@, like);
    lemma_limited(cards, limit);
    assert(total_preorder(leq));
    assert forall|k: int|
        0 <= k < lib.artists@.len() && stands_in(key_of(f, (#[trigger] lib.artists@[k]).name@), p)
            && (limit < 0 || r.artists@.len() < limit) implies exists|i: int|
        0 <= i < r.artists@.len() && (#[trigger] r.artists@[i]).id == lib.artists@[k].id
            && r.artists@[i].name@ == lib.artists@[k].name@ by {
        let a = lib.artists@[k];
        lemma_find(key_of(f, a.name@), p);
        assert(like(a));
        assert(lib.artists@.contains(a));
        assert(own.contains(a));
        assert(rows.contains(a));
        let m = rows.index_of(a);
        assert(cards[m] == local_card(lib, a));
        assert(some.contains(cards[m]));
        assert(v.contains(cards[m]));
        let i = v.index_of(cards[m]);
        assert(v[i] == r.artists@[i]@);
    }
    assert forall|i: int| 0 <= i < r.artists@.len() implies stands_in(
        key_of(f, (#[trigger] r.artists@[i]).name@),
        p,
    ) && exists|k: int|
        0 <= k < lib.artists@.len() && (#[trigger] lib.artists@[k]).id == r.artists@[i].id by {
        assert(v[i] == r.artists@[i]@);
        assert(v.contains(v[i]));
        assert(some.contains(v[i]));
        let m = cards.index_of(v[i]);
        assert(cards[m] == local_card(lib, rows[m]));
        assert(rows.contains(rows[m]));
        assert(own.contains(rows[m]));
        assert(like(rows[m]));
        lemma_find(key_of(f, rows[m].name@), p);
        let k = lib.artists@.index_of(rows[m]);
        assert(lib.artists@[k] == rows[m]);
    }
    assert forall|i: int, j: int|
        0 <= i < j < r.artists@.len() && key_of(f, (#[trigger] r.artists@[j]).name@)
            == p implies key_of(f, (#[trigger] r.artists@[i]).name@) == p by {
        assert(v[i] == r.artists@[i]@ && v[j] == r.artists@[j]@);
        assert(leq(v[i], v[j]));
    }
}

/// A search finds the releases whose title, as it is compared, holds what was
/// asked for: no other; and every one where fewer than the limit are found. One
/// that is titled exactly so stands in front of those that are not.
pub proof fn law_search_finds_releases<F: Fn(&str) -> String>(
    f: F,
    lib: Library,
    query: Seq<char>,
    limit: i64,
    r: SearchResults,
)
    requires
        search_answer(f, lib, query, limit, r),
        trimmed(query).len() > 0,
        key_of(f, trimmed(query)).len() > 0,
    ensures
        ({
            let p = key_of(f, trimmed(query));
            &&& limit >= 0 ==> r.releases@.len() <= limit
            &&& limit < 0 || r.releases@.len() < limit ==> forall|k: int|
                0 <= k < lib.releases@.len() && stands_in(
                    key_of(f, (#[trigger] lib.releases@[k]).title@),
                    p,
                ) ==> exists|i: int|
                    0 <= i < r.releases@.len() && (#[trigger] r.releases@[i]).id
                        == lib.releases@[k].id && r.releases@[i].title@ == lib.releases@[k].title@
            &&& forall|i: int|
                0 <= i < r.releases@.len() ==> stands_in(
                    key_of(f, (#[trigger] r.releases@[i]).title@),
                    p,
                ) && exists|k: int|
                    0 <= k < lib.releases@.len() && (#[trigger] lib.releases@[k]).id
                        == r.releases@[i].id
            &&& forall|i: int, j: int|
                0 <= i < j < r.releases@.len() && key_of(f, (#[trigger] r.releases@[j]).title@) == p
                    ==> key_of(f, (#[trigger] r.releases@[i]).title@) == p
        }),
{
    let p = key_of(f, trimmed(query));
    let like = release_like(f, p);
    let own = lib.releases@.filter(like);
    let rows = stable_sorted(own, by_release_title());
    let cards = release_cards(lib, rows);
    let some = limited(cards, limit);
    let leq = release_rank_order(f, p);
    let v = viewed(r.releases@);
    assert(v == stable_sorted(some, leq));
    assert(v.len() == r.releases@.len());
    law_stable_sort(some, leq);
    lemma_sorted_has(some, leq);
    lemma_sorted_has(own, by_release_title());
    lemma_filter_holds(lib.releases@, like);
    lemma_limited(cards, limit);
    assert(total_preorder(leq));
    assert forall|k: int|
        0 <= k < lib.releases@.len() && stands_in(
            key_of(f, (#[trigger] lib.releases@[k]).title@),
            p,
        ) && (limit < 0 || r.releases@.len() < limit) implies exists|i: int|
        0 <= i < r.releases@.len() && (#[trigger] r.releases@[i]).id == lib.releases@[k].id
            && r.releases@[i].title@ == lib.releases@[k].title@ by {
        let a = lib.releases@[k];
        lemma_find(key_of(f, a.title@), p);
        assert(like(a));
        assert(lib.releases@.contains(a));
        assert(own.contains(a));
        assert(rows.contains(a));
        let m = rows.index_of(a);
        assert(cards[m] == release_card(lib, a));
        assert(some.contains(cards[m]));
        assert(v.contains(cards[m]));
        let i = v.index_of(cards[m]);
        assert(v[i] == r.releases@[i]@);
    }
    assert forall|i: int| 0 <= i < r.releases@.len() implies stands_in(
        key_of(f, (#[trigger] r.releases@[i]).title@),
        p,
    ) && exists|k: int|
        0 <= k < lib.releases@.len() && (#[trigger] lib.releases@[k]).id == r.releases@[i].id by {
        assert(v[i] == r.releases@[i]@);
        assert(v.contains(v[i]));
        assert(some.contains(v[i]));
        let m = cards.index_of(v[i]);
        assert(cards[m] == release_card(lib, rows[m]));
        assert(rows.contains(rows[m]));
        assert(own.contains(rows[m]));
        assert(like(rows[m]));
        lemma_find(key_of(f, rows[m].title@), p);
        let k = lib.releases@.index_of(rows[m]);
        assert(lib.releases@[k] == rows[m]);
    }
    assert forall|i: int, j: int|
        0 <= i < j < r.releases@.len() && key_of(f, (#[trigger] r.releases@[j]).title@)
            == p implies key_of(f, (#[trigger] r.releases@[i]).title@) == p by {
        assert(v[i] == r.releases@[i]@ && v[j] == r.releases@[j]@);
        assert(leq(v[i], v[j]));
    }
}

/// A search finds the tracks whose title, as it is compared, holds what was asked
/// for: no other; and every one that can be listed where fewer than the limit
/// are found. One that is titled exactly so stands in front of those that are
/// not.
pub proof fn law_search_finds_tracks<F: Fn(&str) -> String>(
    f: F,
    lib: Library,
    query: Seq<char>,
    limit: i64,
    r: SearchResults,
)
    requires
        search_answer(f, lib, query, limit, r),
        trimmed(query).len() > 0,
        key_of(f, trimmed(query)).len() > 0,
    ensures
        ({
            let p = key_of(f, trimmed(query));
            &&& limit >= 0 ==> r.tracks@.len() <= limit
            &&& limit < 0 || r.tracks@.len() < limit ==> forall|k: int|
                0 <= k < lib.tracks@.len() && track_item(lib, lib.tracks@[k]) is Some && stands_in(
                    key_of(f, (#[trigger] lib.tracks@[k]).title@),
                    p,
                ) ==> exists|i: int|
                    0 <= i < r.tracks@.len() && (#[trigger] r.tracks@[i]).id == lib.tracks@[k].id
                        && r.tracks@[i].title@ == lib.tracks@[k].title@
            &&& forall|i: int|
                0 <= i < r.tracks@.len() ==> stands_in(
                    key_of(f, (#[trigger] r.tracks@[i]).title@),
                    p,
                ) && exists|k: int|
                    0 <= k < lib.tracks@.len() && (#[trigger] lib.tracks@[k]).id == r.tracks@[i].id
            &&& forall|i: int, j: int|
                0 <= i < j < r.tracks@.len() && key_of(f, (#[trigger] r.tracks@[j]).title@) == p
                    ==> key_of(f, (#[trigger] r.tracks@[i]).title@) == p
        }),
{
    let p = key_of(f, trimmed(query));
    let like = track_like(f, p);
    let own = lib.tracks@.filter(like);
    let rows = stable_sorted(own, by_title());
    let cards = items_of(lib, rows);
    let some = limited(cards, limit);
    let leq = item_rank_order(f, p);
    let v = viewed(r.tracks@);
    assert(v == stable_sorted(some, leq));
    assert(v.len() == r.tracks@.len());
    law_stable_sort(some, leq);
    lemma_sorted_has(some, leq);
    lemma_sorted_has(own, by_title());
    lemma_filter_holds(lib.tracks@, like);
    lemma_limited(cards, limit);
    let places = lemma_items_places(lib, rows);
    assert(total_preorder(leq));
    assert forall|k: int|
        0 <= k < lib.tracks@.len() && track_item(lib, lib.tracks@[k]) is Some && stands_in(
            key_of(f, (#[trigger] lib.tracks@[k]).title@),
            p,
        ) && (limit < 0 || r.tracks@.len() < limit) implies exists|i: int|
        0 <= i < r.tracks@.len() && (#[trigger] r.tracks@[i]).id == lib.tracks@[k].id
            && r.tracks@[i].title@ == lib.tracks@[k].title@ by {
        let a = lib.tracks@[k];
        lemma_find(key_of(f, a.title@), p);
        assert(like(a));
        assert(lib.tracks@.contains(a));
        assert(own.contains(a));
        assert(rows.contains(a));
        let m = rows.index_of(a);
        assert(track_item(lib, rows[m]) is Some);
        let q = choose|q: int| 0 <= q < places.len() && #[trigger] places[q] == m;
        assert(cards[q] == track_item(lib, a)->0);
        assert(some.contains(cards[q]));
        assert(v.contains(cards[q]));
        let i = v.index_of(cards[q]);
        assert(v[i] == r.tracks@[i]@);
    }
    assert forall|i: int| 0 <= i < r.tracks@.len() implies stands_in(
        key_of(f, (#[trigger] r.tracks@[i]).title@),
        p,
    ) && exists|k: int|
        0 <= k < lib.tracks@.len() && (#[trigger] lib.tracks@[k]).id == r.tracks@[i].id by {
        assert(v[i] == r.tracks@[i]@);
        assert(v.contains(v[i]));
        assert(some.contains(v[i]));
        let q = cards.index_of(v[i]);
        let a = rows[places[q]];
        assert(track_item(lib, a) == Some(cards[q]));
        assert(rows.contains(a));
        assert(own.contains(a));
        assert(like(a));
        lemma_find(key_of(f, a.title@), p);
        let k = lib.tracks@.index_of(a);
        assert(lib.tracks@[k] == a);
    }
    assert forall|i: int, j: int|
        0 <= i < j < r.tracks@.len() && key_of(f, (#[trigger] r.tracks@[j]).title@)
            == p implies key_of(f, (#[trigger] r.tracks@[i]).title@) == p by {
        assert(v[i] == r.tracks@[i]@ && v[j] == r.tracks@[j]@);
        assert(leq(v[i], v[j]));
    }
}

} // verus!
