//! What holds of every merged artist card and of every list of search results.

use crate::federation::catalog::{
    appearance_key, appearance_order, gathered, is_key, is_release, is_same_track, merged_card,
    merged_release, new_release, release_order, sorted_release, track_order, with_appearance,
    with_appearances, with_release, with_releases, with_source, with_text, with_track, with_tracks,
    Appearances, AppearsView, CardTrackView, CatalogAppearanceView, CatalogArtistView,
    CatalogReleaseView, CatalogTrackView, FedReleaseView,
};
use crate::federation::search::{artist_order, name_rank, rank_order, track_rank, ArtistHitView};
use crate::federation::track::FedTrackView;
use crate::lists::{
    first_where, in_order, law_stable_sort, lemma_first_where, stable_sorted, total_preorder,
};
use crate::names::key_of;
use crate::text::{
    lemma_precedes_irreflexive, lemma_precedes_total, lemma_precedes_transitive, precedes,
};
use vstd::prelude::*;

verus! {

/// Sorting takes nothing away and adds nothing.
proof fn lemma_sorted_holds<T>(s: Seq<T>, leq: spec_fn(T, T) -> bool, x: T)
    ensures
        stable_sorted(s, leq).contains(x) <==> s.contains(x),
{
    broadcast use vstd::seq_lib::group_to_multiset_ensures;

    law_stable_sort(s, leq);
    assert(s.contains(x) <==> s.to_multiset().count(x) > 0);
    assert(stable_sorted(s, leq).contains(x) <==> stable_sorted(s, leq).to_multiset().count(x) > 0);
}

/// Neither text comes after the other: they are the same.
pub proof fn lemma_no_order_is_total(a: Seq<char>, b: Seq<char>, c: Seq<char>)
    ensures
        !precedes(b, a) || !precedes(a, b),
        !precedes(b, a) && !precedes(c, b) ==> !precedes(c, a),
{
    if precedes(b, a) && precedes(a, b) {
        lemma_precedes_transitive(a, b, a);
        lemma_precedes_irreflexive(a);
    }
    if !precedes(b, a) && !precedes(c, b) && precedes(c, a) {
        lemma_precedes_total(a, b);
        lemma_precedes_total(b, c);
        if a == b || b == c {
        } else {
            lemma_precedes_transitive(a, b, c);
            lemma_precedes_transitive(a, c, a);
            lemma_precedes_irreflexive(a);
        }
    }
}

proof fn lemma_release_order()
    ensures
        total_preorder(release_order()),
{
    let leq = release_order();
    assert forall|a: FedReleaseView, b: FedReleaseView| #[trigger] leq(a, b) || leq(b, a) by {
        lemma_no_order_is_total(a.title, b.title, a.title);
    }
    assert forall|a: FedReleaseView, b: FedReleaseView, c: FedReleaseView| #[trigger]
        leq(a, b) && #[trigger] leq(b, c) implies leq(a, c) by {
        lemma_no_order_is_total(a.title, b.title, c.title);
    }
}

proof fn lemma_appearance_order()
    ensures
        total_preorder(appearance_order()),
{
    let leq = appearance_order();
    assert forall|a: AppearsView, b: AppearsView| #[trigger] leq(a, b) || leq(b, a) by {
        lemma_no_order_is_total(a.track.title, b.track.title, a.track.title);
        lemma_precedes_total(a.release_title, b.release_title);
    }
    assert forall|a: AppearsView, b: AppearsView, c: AppearsView| #[trigger]
        leq(a, b) && #[trigger] leq(b, c) implies leq(a, c) by {
        lemma_no_order_is_total(a.track.title, b.track.title, c.track.title);
        if precedes(a.release_title, b.release_title) && precedes(b.release_title, c.release_title) {
            lemma_precedes_transitive(a.release_title, b.release_title, c.release_title);
        }
        lemma_precedes_irreflexive(a.release_title);
    }
}

/// The releases of a card stand with the newest first, those of a year by
/// title; the appearances likewise; and the tracks of each release by disc and
/// number.
pub proof fn law_card_is_sorted<F: Fn(&str) -> String>(
    f: F,
    name: Seq<char>,
    catalogs: Seq<(Seq<char>, CatalogArtistView)>,
)
    ensures
        in_order(merged_card(f, name, catalogs).releases, release_order()),
        in_order(merged_card(f, name, catalogs).appears_on, appearance_order()),
        forall|i: int|
            0 <= i < merged_card(f, name, catalogs).releases.len() ==> in_order(
                (#[trigger] merged_card(f, name, catalogs).releases[i]).tracks,
                track_order(),
            ),
{
    let g = gathered(f, catalogs);
    let each = |r: FedReleaseView| sorted_release(r);
    let rows = g.releases.map_values(each);
    let card = merged_card(f, name, catalogs);
    lemma_release_order();
    lemma_appearance_order();
    law_stable_sort(rows, release_order());
    law_stable_sort(g.appearances.rows, appearance_order());
    assert(total_preorder(track_order()));
    assert forall|i: int| 0 <= i < card.releases.len() implies in_order(
        (#[trigger] card.releases[i]).tracks,
        track_order(),
    ) by {
        let r = card.releases[i];
        lemma_sorted_holds(rows, release_order(), r);
        assert(stable_sorted(rows, release_order()).contains(r));
        let k = rows.index_of(r);
        law_stable_sort(g.releases[k].tracks, track_order());
    }
}

/// The keys of the titles of releases.
pub open spec fn title_keys<F: Fn(&str) -> String>(f: F, s: Seq<FedReleaseView>) -> Seq<Seq<char>> {
    s.map_values(|r: FedReleaseView| key_of(f, r.title))
}

proof fn lemma_release_keys<F: Fn(&str) -> String>(
    f: F,
    s: Seq<FedReleaseView>,
    owner: Seq<char>,
    r: CatalogReleaseView,
)
    requires
        title_keys(f, s).no_duplicates(),
    ensures
        title_keys(f, with_release(f, s, owner, r)).no_duplicates(),
{
    let w = with_release(f, s, owner, r);
    lemma_first_where(s, is_release(f, r.title));
    match first_where(s, is_release(f, r.title)) {
        Some(i) => {
            assert(title_keys(f, w) =~= title_keys(f, s));
        },
        None => {
            assert(title_keys(f, w) =~= title_keys(f, s).push(key_of(f, r.title)));
            assert(!title_keys(f, s).contains(key_of(f, r.title))) by {
                if title_keys(f, s).contains(key_of(f, r.title)) {
                    let i = title_keys(f, s).index_of(key_of(f, r.title));
                    assert(is_release(f, r.title)(s[i]));
                }
            }
        },
    }
}

proof fn lemma_all_release_keys<F: Fn(&str) -> String>(
    f: F,
    s: Seq<FedReleaseView>,
    owner: Seq<char>,
    rs: Seq<CatalogReleaseView>,
)
    requires
        title_keys(f, s).no_duplicates(),
    ensures
        title_keys(f, with_releases(f, s, owner, rs)).no_duplicates(),
    decreases rs.len(),
{
    if rs.len() > 0 {
        lemma_all_release_keys(f, s, owner, rs.drop_last());
        lemma_release_keys(f, with_releases(f, s, owner, rs.drop_last()), owner, rs.last());
    }
}

proof fn lemma_gathered_keys<F: Fn(&str) -> String>(
    f: F,
    catalogs: Seq<(Seq<char>, CatalogArtistView)>,
)
    ensures
        title_keys(f, gathered(f, catalogs).releases).no_duplicates(),
    decreases catalogs.len(),
{
    if catalogs.len() > 0 {
        lemma_gathered_keys(f, catalogs.drop_last());
        lemma_all_release_keys(
            f,
            gathered(f, catalogs.drop_last()).releases,
            catalogs.last().0,
            catalogs.last().1.releases,
        );
    }
}

/// Elements with different keys have them in any order.
pub proof fn lemma_sorted_keys<T, K>(s: Seq<T>, leq: spec_fn(T, T) -> bool, g: spec_fn(T) -> K)
    requires
        s.map_values(g).no_duplicates(),
    ensures
        stable_sorted(s, leq).map_values(g).no_duplicates(),
    decreases s.len(),
{
    if s.len() > 0 {
        let h = s.drop_last();
        let keys = s.map_values(g);
        assert forall|i: int, j: int| 0 <= i < j < h.len() implies h.map_values(g)[i]
            != h.map_values(g)[j] by {
            assert(keys[i] != keys[j]);
        }
        lemma_sorted_keys(h, leq, g);
        let r = stable_sorted(h, leq);
        assert(!r.map_values(g).contains(g(s.last()))) by {
            if r.map_values(g).contains(g(s.last())) {
                let i = r.map_values(g).index_of(g(s.last()));
                lemma_sorted_holds(h, leq, r[i]);
                assert(r.contains(r[i]));
                let k = h.index_of(r[i]);
                assert(keys[k] == keys[s.len() - 1]);
            }
        }
        lemma_inserted_keys(r, s.last(), leq, g);
    }
}

proof fn lemma_inserted_keys<T, K>(s: Seq<T>, x: T, leq: spec_fn(T, T) -> bool, g: spec_fn(T) -> K)
    requires
        s.map_values(g).no_duplicates(),
        !s.map_values(g).contains(g(x)),
    ensures
        crate::lists::insert_sorted(s, x, leq).map_values(g).no_duplicates(),
        forall|k: K| #[trigger]
            crate::lists::insert_sorted(s, x, leq).map_values(g).contains(k) ==> k == g(x)
                || s.map_values(g).contains(k),
    decreases s.len(),
{
    let r = crate::lists::insert_sorted(s, x, leq);
    let keys = s.map_values(g);
    if s.len() == 0 || leq(s.last(), x) {
        assert(r.map_values(g) =~= keys.push(g(x)));
        assert forall|k: K| #[trigger] r.map_values(g).contains(k) implies k == g(x)
            || keys.contains(k) by {
            let i = r.map_values(g).index_of(k);
            if i < s.len() {
                assert(keys[i] == k);
            }
        }
    } else {
        let h = s.drop_last();
        let inner = h.map_values(g);
        assert forall|i: int, j: int| 0 <= i < j < h.len() implies inner[i] != inner[j] by {
            assert(keys[i] != keys[j]);
        }
        assert(!inner.contains(g(x))) by {
            if inner.contains(g(x)) {
                let i = inner.index_of(g(x));
                assert(keys[i] == g(x));
            }
        }
        lemma_inserted_keys(h, x, leq, g);
        let q = crate::lists::insert_sorted(h, x, leq);
        let last = g(s.last());
        assert(keys[s.len() - 1] == last);
        assert(r.map_values(g) =~= q.map_values(g).push(last));
        assert(!q.map_values(g).contains(last)) by {
            if q.map_values(g).contains(last) {
                if inner.contains(last) {
                    let i = inner.index_of(last);
                    assert(keys[i] == keys[s.len() - 1]);
                }
            }
        }
        assert forall|k: K| #[trigger] r.map_values(g).contains(k) implies k == g(x)
            || keys.contains(k) by {
            let i = r.map_values(g).index_of(k);
            if i < q.len() {
                assert(q.map_values(g)[i] == k);
                assert(q.map_values(g).contains(k));
                if k != g(x) {
                    let j = inner.index_of(k);
                    assert(keys[j] == k);
                }
            }
        }
    }
}

/// However many peers hold a release, it stands on the card once: no two
/// releases of a card have titles with the same key.
pub proof fn law_card_lists_a_release_once<F: Fn(&str) -> String>(
    f: F,
    name: Seq<char>,
    catalogs: Seq<(Seq<char>, CatalogArtistView)>,
)
    ensures
        title_keys(f, merged_card(f, name, catalogs).releases).no_duplicates(),
{
    let g = gathered(f, catalogs).releases;
    let rows = g.map_values(|r: FedReleaseView| sorted_release(r));
    lemma_gathered_keys(f, catalogs);
    assert(title_keys(f, rows) =~= title_keys(f, g));
    lemma_sorted_keys(rows, release_order(), |r: FedReleaseView| key_of(f, r.title));
}

// ---------------------------------------------------------------------------
// Sources
// ---------------------------------------------------------------------------

/// Whether some track whose title has a key can be had from a peer under an
/// item.
pub open spec fn tracks_offer<F: Fn(&str) -> String>(
    f: F,
    s: Seq<CardTrackView>,
    title: Seq<char>,
    owner: Seq<char>,
    item: Seq<char>,
) -> bool {
    exists|i: int|
        0 <= i < s.len() && key_of(f, (#[trigger] s[i]).title) == title && s[i].sources.contains(
            (owner, item),
        )
}

/// Whether a release with a key has a track whose title has a key and that can
/// be had from a peer under an item.
pub open spec fn releases_offer<F: Fn(&str) -> String>(
    f: F,
    s: Seq<FedReleaseView>,
    key: Seq<char>,
    title: Seq<char>,
    owner: Seq<char>,
    item: Seq<char>,
) -> bool {
    exists|i: int|
        0 <= i < s.len() && key_of(f, (#[trigger] s[i]).title) == key && tracks_offer(
            f,
            s[i].tracks,
            title,
            owner,
            item,
        )
}

proof fn lemma_source_added(
    s: Seq<(Seq<char>, Seq<char>)>,
    p: (Seq<char>, Seq<char>),
    q: (Seq<char>, Seq<char>),
)
    ensures
        with_source(s, p).contains(p),
        s.contains(q) ==> with_source(s, p).contains(q),
        with_source(s, p).len() > 0,
{
    if !s.contains(p) {
        assert(s.push(p)[s.len() as int] == p);
    }
    if s.contains(q) && !s.contains(p) {
        let i = s.index_of(q);
        assert(s.push(p)[i] == q);
    }
}

proof fn lemma_track_offers<F: Fn(&str) -> String>(
    f: F,
    s: Seq<CardTrackView>,
    owner: Seq<char>,
    t: CatalogTrackView,
    title: Seq<char>,
    other: Seq<char>,
    item: Seq<char>,
)
    ensures
        t.item_id.len() > 0 ==> tracks_offer(
            f,
            with_track(f, s, owner, t),
            key_of(f, t.title),
            owner,
            t.item_id,
        ),
        tracks_offer(f, s, title, other, item) ==> tracks_offer(
            f,
            with_track(f, s, owner, t),
            title,
            other,
            item,
        ),
{
    let w = with_track(f, s, owner, t);
    lemma_first_where(s, is_same_track(f, t));
    if t.item_id.len() > 0 {
        match first_where(s, is_same_track(f, t)) {
            Some(i) => {
                lemma_source_added(s[i].sources, (owner, t.item_id), (other, item));
                assert(key_of(f, w[i].title) == key_of(f, t.title));
                assert(w[i].sources.contains((owner, t.item_id)));
            },
            None => {
                let i = s.len() as int;
                assert(key_of(f, w[i].title) == key_of(f, t.title));
                assert(w[i].sources[0] == (owner, t.item_id));
                assert(w[i].sources.contains((owner, t.item_id)));
            },
        }
    }
    if tracks_offer(f, s, title, other, item) {
        let k = choose|k: int|
            0 <= k < s.len() && key_of(f, (#[trigger] s[k]).title) == title
                && s[k].sources.contains((other, item));
        assert(key_of(f, w[k].title) == title);
        assert(w[k].sources.contains((other, item)));
    }
}

proof fn lemma_tracks_offer<F: Fn(&str) -> String>(
    f: F,
    s: Seq<CardTrackView>,
    owner: Seq<char>,
    ts: Seq<CatalogTrackView>,
    title: Seq<char>,
    other: Seq<char>,
    item: Seq<char>,
)
    ensures
        tracks_offer(f, s, title, other, item) ==> tracks_offer(
            f,
            with_tracks(f, s, owner, ts),
            title,
            other,
            item,
        ),
        forall|k: int|
            0 <= k < ts.len() && (#[trigger] ts[k]).item_id.len() > 0 ==> tracks_offer(
                f,
                with_tracks(f, s, owner, ts),
                key_of(f, ts[k].title),
                owner,
                ts[k].item_id,
            ),
    decreases ts.len(),
{
    if ts.len() > 0 {
        let h = ts.drop_last();
        let before = with_tracks(f, s, owner, h);
        lemma_tracks_offer(f, s, owner, h, title, other, item);
        lemma_track_offers(f, before, owner, ts.last(), title, other, item);
        assert forall|k: int|
            0 <= k < ts.len() && (#[trigger] ts[k]).item_id.len() > 0 implies tracks_offer(
            f,
            with_tracks(f, s, owner, ts),
            key_of(f, ts[k].title),
            owner,
            ts[k].item_id,
        ) by {
            if k < h.len() {
                assert(h[k] == ts[k]);
                lemma_track_offers(
                    f,
                    before,
                    owner,
                    ts.last(),
                    key_of(f, ts[k].title),
                    owner,
                    ts[k].item_id,
                );
            }
        }
    }
}

proof fn lemma_release_offers<F: Fn(&str) -> String>(
    f: F,
    s: Seq<FedReleaseView>,
    owner: Seq<char>,
    r: CatalogReleaseView,
    key: Seq<char>,
    title: Seq<char>,
    other: Seq<char>,
    item: Seq<char>,
)
    ensures
        releases_offer(f, s, key, title, other, item) ==> releases_offer(
            f,
            with_release(f, s, owner, r),
            key,
            title,
            other,
            item,
        ),
        forall|k: int|
            0 <= k < r.tracks.len() && (#[trigger] r.tracks[k]).item_id.len() > 0
                ==> releases_offer(
                f,
                with_release(f, s, owner, r),
                key_of(f, r.title),
                key_of(f, r.tracks[k].title),
                owner,
                r.tracks[k].item_id,
            ),
{
    let w = with_release(f, s, owner, r);
    lemma_first_where(s, is_release(f, r.title));
    let place = match first_where(s, is_release(f, r.title)) {
        Some(i) => i,
        None => s.len() as int,
    };
    let m = match first_where(s, is_release(f, r.title)) {
        Some(i) => s[i],
        None => new_release(r),
    };
    assert(w[place] == merged_release(f, m, owner, r));
    assert(key_of(f, w[place].title) == key_of(f, r.title));
    lemma_tracks_offer(f, m.tracks, owner, r.tracks, title, other, item);
    if releases_offer(f, s, key, title, other, item) {
        let k = choose|k: int|
            0 <= k < s.len() && key_of(f, (#[trigger] s[k]).title) == key && tracks_offer(
                f,
                s[k].tracks,
                title,
                other,
                item,
            );
        assert(key_of(f, w[k].title) == key);
        assert(tracks_offer(f, w[k].tracks, title, other, item));
    }
    assert forall|k: int|
        0 <= k < r.tracks.len() && (#[trigger] r.tracks[k]).item_id.len() > 0 implies releases_offer(
        f,
        w,
        key_of(f, r.title),
        key_of(f, r.tracks[k].title),
        owner,
        r.tracks[k].item_id,
    ) by {
        assert(tracks_offer(
            f,
            w[place].tracks,
            key_of(f, r.tracks[k].title),
            owner,
            r.tracks[k].item_id,
        ));
    }
}

proof fn lemma_releases_offer<F: Fn(&str) -> String>(
    f: F,
    s: Seq<FedReleaseView>,
    owner: Seq<char>,
    rs: Seq<CatalogReleaseView>,
    key: Seq<char>,
    title: Seq<char>,
    other: Seq<char>,
    item: Seq<char>,
)
    ensures
        releases_offer(f, s, key, title, other, item) ==> releases_offer(
            f,
            with_releases(f, s, owner, rs),
            key,
            title,
            other,
            item,
        ),
    decreases rs.len(),
{
    if rs.len() > 0 {
        lemma_releases_offer(f, s, owner, rs.drop_last(), key, title, other, item);
        lemma_release_offers(
            f,
            with_releases(f, s, owner, rs.drop_last()),
            owner,
            rs.last(),
            key,
            title,
            other,
            item,
        );
    }
}

proof fn lemma_one_release_offers<F: Fn(&str) -> String>(
    f: F,
    s: Seq<FedReleaseView>,
    owner: Seq<char>,
    rs: Seq<CatalogReleaseView>,
    j: int,
    k: int,
)
    requires
        0 <= j < rs.len(),
        0 <= k < rs[j].tracks.len(),
        rs[j].tracks[k].item_id.len() > 0,
    ensures
        releases_offer(
            f,
            with_releases(f, s, owner, rs),
            key_of(f, rs[j].title),
            key_of(f, rs[j].tracks[k].title),
            owner,
            rs[j].tracks[k].item_id,
        ),
    decreases rs.len(),
{
    let h = rs.drop_last();
    let before = with_releases(f, s, owner, h);
    let key = key_of(f, rs[j].title);
    let title = key_of(f, rs[j].tracks[k].title);
    let item = rs[j].tracks[k].item_id;
    if j < h.len() {
        lemma_one_release_offers(f, s, owner, h, j, k);
    }
    lemma_release_offers(f, before, owner, rs.last(), key, title, owner, item);
}

proof fn lemma_gathered_offers<F: Fn(&str) -> String>(
    f: F,
    catalogs: Seq<(Seq<char>, CatalogArtistView)>,
    c: int,
    j: int,
    k: int,
)
    requires
        0 <= c < catalogs.len(),
        0 <= j < catalogs[c].1.releases.len(),
        0 <= k < catalogs[c].1.releases[j].tracks.len(),
        catalogs[c].1.releases[j].tracks[k].item_id.len() > 0,
    ensures
        releases_offer(
            f,
            gathered(f, catalogs).releases,
            key_of(f, catalogs[c].1.releases[j].title),
            key_of(f, catalogs[c].1.releases[j].tracks[k].title),
            catalogs[c].0,
            catalogs[c].1.releases[j].tracks[k].item_id,
        ),
    decreases catalogs.len(),
{
    let h = catalogs.drop_last();
    let before = gathered(f, h).releases;
    let last = catalogs.last();
    if c < h.len() {
        assert(h[c] == catalogs[c]);
        lemma_gathered_offers(f, h, c, j, k);
        lemma_releases_offer(
            f,
            before,
            last.0,
            last.1.releases,
            key_of(f, catalogs[c].1.releases[j].title),
            key_of(f, catalogs[c].1.releases[j].tracks[k].title),
            catalogs[c].0,
            catalogs[c].1.releases[j].tracks[k].item_id,
        );
    } else {
        lemma_one_release_offers(f, before, last.0, last.1.releases, j, k);
    }
}

/// Merging loses no source: a track that a peer offers with an item can be had
/// from that peer, under that item, as a track whose title has the key of its
/// own, on the release of the card that has the key of its release's title.
pub proof fn law_card_keeps_every_source<F: Fn(&str) -> String>(
    f: F,
    name: Seq<char>,
    catalogs: Seq<(Seq<char>, CatalogArtistView)>,
    c: int,
    j: int,
    k: int,
)
    requires
        0 <= c < catalogs.len(),
        0 <= j < catalogs[c].1.releases.len(),
        0 <= k < catalogs[c].1.releases[j].tracks.len(),
        catalogs[c].1.releases[j].tracks[k].item_id.len() > 0,
    ensures
        releases_offer(
            f,
            merged_card(f, name, catalogs).releases,
            key_of(f, catalogs[c].1.releases[j].title),
            key_of(f, catalogs[c].1.releases[j].tracks[k].title),
            catalogs[c].0,
            catalogs[c].1.releases[j].tracks[k].item_id,
        ),
{
    let key = key_of(f, catalogs[c].1.releases[j].title);
    let title = key_of(f, catalogs[c].1.releases[j].tracks[k].title);
    let owner = catalogs[c].0;
    let item = catalogs[c].1.releases[j].tracks[k].item_id;
    let g = gathered(f, catalogs).releases;
    let rows = g.map_values(|r: FedReleaseView| sorted_release(r));
    let out = merged_card(f, name, catalogs).releases;
    lemma_gathered_offers(f, catalogs, c, j, k);
    let i = choose|i: int|
        0 <= i < g.len() && key_of(f, (#[trigger] g[i]).title) == key && tracks_offer(
            f,
            g[i].tracks,
            title,
            owner,
            item,
        );
    let m = choose|m: int|
        0 <= m < g[i].tracks.len() && key_of(f, (#[trigger] g[i].tracks[m]).title) == title
            && g[i].tracks[m].sources.contains((owner, item));
    let t = g[i].tracks[m];
    let sorted = rows[i];
    lemma_sorted_holds(g[i].tracks, track_order(), t);
    let n = sorted.tracks.index_of(t);
    assert(key_of(f, sorted.tracks[n].title) == title);
    assert(sorted.tracks[n].sources.contains((owner, item)));
    assert(tracks_offer(f, sorted.tracks, title, owner, item));
    lemma_sorted_holds(rows, release_order(), sorted);
    assert(rows.contains(sorted));
    let p = out.index_of(sorted);
    assert(key_of(f, out[p].title) == key);
}

/// Whether every appearance has its key and at least one source.
spec fn sourced(s: Appearances) -> bool {
    &&& s.keys.len() == s.rows.len()
    &&& forall|i: int| 0 <= i < s.rows.len() ==> (#[trigger] s.rows[i]).track.sources.len() > 0
}

/// Whether the appearance with a key can be had from a peer under an item.
spec fn appearances_offer(
    s: Appearances,
    key: Seq<char>,
    owner: Seq<char>,
    item: Seq<char>,
) -> bool {
    exists|i: int|
        0 <= i < s.rows.len() && s.keys[i] == key && (
        #[trigger] s.rows[i]).track.sources.contains((owner, item))
}

proof fn lemma_appearance_offers<F: Fn(&str) -> String>(
    f: F,
    s: Appearances,
    owner: Seq<char>,
    a: CatalogAppearanceView,
    key: Seq<char>,
    other: Seq<char>,
    item: Seq<char>,
)
    requires
        sourced(s),
    ensures
        sourced(with_appearance(f, s, owner, a)),
        a.track.item_id.len() > 0 ==> appearances_offer(
            with_appearance(f, s, owner, a),
            appearance_key(f, a),
            owner,
            a.track.item_id,
        ),
        appearances_offer(s, key, other, item) ==> appearances_offer(
            with_appearance(f, s, owner, a),
            key,
            other,
            item,
        ),
{
    let w = with_appearance(f, s, owner, a);
    let p = is_key(appearance_key(f, a));
    lemma_first_where(s.keys, p);
    if a.track.item_id.len() > 0 {
        match first_where(s.keys, p) {
            Some(i) => {
                assert(s.rows[i].track.sources.len() > 0);
                lemma_source_added(
                    s.rows[i].track.sources,
                    (owner, a.track.item_id),
                    (other, item),
                );
                assert(w.rows[i].track.sources.contains((owner, a.track.item_id)));
            },
            None => {
                let i = s.rows.len() as int;
                assert(w.rows[i].track.sources[0] == (owner, a.track.item_id));
                assert(w.rows[i].track.sources.contains((owner, a.track.item_id)));
            },
        }
    }
    assert forall|i: int| 0 <= i < w.rows.len() implies (
    #[trigger] w.rows[i]).track.sources.len() > 0 by {
        if i < s.rows.len() {
            assert(s.rows[i].track.sources.len() > 0);
        }
    }
    if appearances_offer(s, key, other, item) {
        let k = choose|k: int|
            0 <= k < s.rows.len() && s.keys[k] == key && (
            #[trigger] s.rows[k]).track.sources.contains((other, item));
        assert(w.keys[k] == key);
        assert(w.rows[k].track.sources.contains((other, item)));
    }
}

proof fn lemma_appearances_offer<F: Fn(&str) -> String>(
    f: F,
    s: Appearances,
    owner: Seq<char>,
    rows: Seq<CatalogAppearanceView>,
    key: Seq<char>,
    other: Seq<char>,
    item: Seq<char>,
)
    requires
        sourced(s),
    ensures
        sourced(with_appearances(f, s, owner, rows)),
        appearances_offer(s, key, other, item) ==> appearances_offer(
            with_appearances(f, s, owner, rows),
            key,
            other,
            item,
        ),
        forall|k: int|
            0 <= k < rows.len() && (#[trigger] rows[k]).track.item_id.len() > 0
                ==> appearances_offer(
                with_appearances(f, s, owner, rows),
                appearance_key(f, rows[k]),
                owner,
                rows[k].track.item_id,
            ),
    decreases rows.len(),
{
    if rows.len() > 0 {
        let h = rows.drop_last();
        let before = with_appearances(f, s, owner, h);
        lemma_appearances_offer(f, s, owner, h, key, other, item);
        lemma_appearance_offers(f, before, owner, rows.last(), key, other, item);
        assert forall|k: int|
            0 <= k < rows.len() && (#[trigger] rows[k]).track.item_id.len() > 0
            implies appearances_offer(
            with_appearances(f, s, owner, rows),
            appearance_key(f, rows[k]),
            owner,
            rows[k].track.item_id,
        ) by {
            if k < h.len() {
                assert(h[k] == rows[k]);
                lemma_appearance_offers(
                    f,
                    before,
                    owner,
                    rows.last(),
                    appearance_key(f, rows[k]),
                    owner,
                    rows[k].track.item_id,
                );
            }
        }
    }
}

proof fn lemma_gathered_appearances<F: Fn(&str) -> String>(
    f: F,
    catalogs: Seq<(Seq<char>, CatalogArtistView)>,
)
    ensures
        sourced(gathered(f, catalogs).appearances),
        forall|c: int, j: int|
            0 <= c < catalogs.len() && 0 <= j < catalogs[c].1.appears_on.len() && (
            #[trigger] catalogs[c].1.appears_on[j]).track.item_id.len() > 0 ==> appearances_offer(
                gathered(f, catalogs).appearances,
                appearance_key(f, catalogs[c].1.appears_on[j]),
                catalogs[c].0,
                catalogs[c].1.appears_on[j].track.item_id,
            ),
    decreases catalogs.len(),
{
    if catalogs.len() > 0 {
        let h = catalogs.drop_last();
        let last = catalogs.last();
        let before = gathered(f, h).appearances;
        lemma_gathered_appearances(f, h);
        lemma_appearances_offer(
            f,
            before,
            last.0,
            last.1.appears_on,
            Seq::empty(),
            Seq::empty(),
            Seq::empty(),
        );
        assert forall|c: int, j: int|
            0 <= c < catalogs.len() && 0 <= j < catalogs[c].1.appears_on.len() && (
            #[trigger] catalogs[c].1.appears_on[j]).track.item_id.len() > 0
            implies appearances_offer(
            gathered(f, catalogs).appearances,
            appearance_key(f, catalogs[c].1.appears_on[j]),
            catalogs[c].0,
            catalogs[c].1.appears_on[j].track.item_id,
        ) by {
            let a = catalogs[c].1.appears_on[j];
            if c < h.len() {
                assert(h[c].1.appears_on[j] == a);
                lemma_appearances_offer(
                    f,
                    before,
                    last.0,
                    last.1.appears_on,
                    appearance_key(f, a),
                    catalogs[c].0,
                    a.track.item_id,
                );
            } else {
                assert(last.1.appears_on[j] == a);
            }
        }
    }
}

/// Whether an appearance of a card has the release and the title of one that a
/// peer told of under a key.
pub open spec fn told_under<F: Fn(&str) -> String>(
    f: F,
    catalogs: Seq<(Seq<char>, CatalogArtistView)>,
    key: Seq<char>,
    row: AppearsView,
) -> bool {
    exists|c: int, j: int|
        0 <= c < catalogs.len() && 0 <= j < catalogs[c].1.appears_on.len() && appearance_key(
            f,
            #[trigger] catalogs[c].1.appears_on[j],
        ) == key && row.release_title == catalogs[c].1.appears_on[j].release_title
            && row.track.title == catalogs[c].1.appears_on[j].track.title
}

spec fn all_told_under<F: Fn(&str) -> String>(
    f: F,
    catalogs: Seq<(Seq<char>, CatalogArtistView)>,
    s: Appearances,
) -> bool {
    &&& sourced(s)
    &&& forall|i: int|
        0 <= i < s.rows.len() ==> told_under(f, catalogs, s.keys[i], #[trigger] s.rows[i])
}

proof fn lemma_appearances_told<F: Fn(&str) -> String>(
    f: F,
    catalogs: Seq<(Seq<char>, CatalogArtistView)>,
    s: Appearances,
    c: int,
    n: int,
)
    requires
        0 <= c < catalogs.len(),
        0 <= n <= catalogs[c].1.appears_on.len(),
        all_told_under(f, catalogs, s),
    ensures
        all_told_under(
            f,
            catalogs,
            with_appearances(f, s, catalogs[c].0, catalogs[c].1.appears_on.take(n)),
        ),
    decreases n,
{
    let owner = catalogs[c].0;
    let all = catalogs[c].1.appears_on;
    if n > 0 {
        lemma_appearances_told(f, catalogs, s, c, n - 1);
        let rows = all.take(n);
        assert(rows.drop_last() =~= all.take(n - 1));
        let before = with_appearances(f, s, owner, all.take(n - 1));
        let a = all[n - 1];
        assert(rows.last() == a);
        let w = with_appearance(f, before, owner, a);
        lemma_appearance_offers(f, before, owner, a, Seq::empty(), Seq::empty(), Seq::empty());
        let p = is_key(appearance_key(f, a));
        lemma_first_where(before.keys, p);
        assert forall|i: int| 0 <= i < w.rows.len() implies told_under(
            f,
            catalogs,
            w.keys[i],
            #[trigger] w.rows[i],
        ) by {
            if i < before.rows.len() {
                assert(before.rows[i].track.sources.len() > 0);
                assert(told_under(f, catalogs, before.keys[i], before.rows[i]));
                let (d, j) = choose|d: int, j: int|
                    0 <= d < catalogs.len() && 0 <= j < catalogs[d].1.appears_on.len()
                        && appearance_key(f, #[trigger] catalogs[d].1.appears_on[j])
                        == before.keys[i] && before.rows[i].release_title
                        == catalogs[d].1.appears_on[j].release_title
                        && before.rows[i].track.title == catalogs[d].1.appears_on[j].track.title;
                assert(w.keys[i] == before.keys[i]);
                assert(appearance_key(f, catalogs[d].1.appears_on[j]) == w.keys[i]);
            } else {
                assert(appearance_key(f, catalogs[c].1.appears_on[n - 1]) == w.keys[i]);
            }
        }
    }
}

proof fn lemma_gathered_told<F: Fn(&str) -> String>(
    f: F,
    catalogs: Seq<(Seq<char>, CatalogArtistView)>,
    n: int,
)
    requires
        0 <= n <= catalogs.len(),
    ensures
        all_told_under(f, catalogs, gathered(f, catalogs.take(n)).appearances),
    decreases n,
{
    if n > 0 {
        lemma_gathered_told(f, catalogs, n - 1);
        let part = catalogs.take(n);
        assert(part.drop_last() =~= catalogs.take(n - 1));
        assert(part.last() == catalogs[n - 1]);
        let rows = catalogs[n - 1].1.appears_on;
        lemma_appearances_told(
            f,
            catalogs,
            gathered(f, catalogs.take(n - 1)).appearances,
            n - 1,
            rows.len() as int,
        );
        assert(rows.take(rows.len() as int) =~= rows);
    }
}

/// Merging loses no source of an appearance either: one that a peer offers
/// with an item can be had from that peer, under that item, as the appearance
/// of the card that has the release and the title of one with the same key.
pub proof fn law_card_keeps_every_source_of_an_appearance<F: Fn(&str) -> String>(
    f: F,
    name: Seq<char>,
    catalogs: Seq<(Seq<char>, CatalogArtistView)>,
    c: int,
    j: int,
)
    requires
        0 <= c < catalogs.len(),
        0 <= j < catalogs[c].1.appears_on.len(),
        catalogs[c].1.appears_on[j].track.item_id.len() > 0,
    ensures
        exists|i: int|
            0 <= i < merged_card(f, name, catalogs).appears_on.len() && (
            #[trigger] merged_card(f, name, catalogs).appears_on[i]).track.sources.contains(
                (catalogs[c].0, catalogs[c].1.appears_on[j].track.item_id),
            ) && told_under(
                f,
                catalogs,
                appearance_key(f, catalogs[c].1.appears_on[j]),
                merged_card(f, name, catalogs).appears_on[i],
            ),
{
    let a = catalogs[c].1.appears_on[j];
    let g = gathered(f, catalogs).appearances;
    let out = merged_card(f, name, catalogs).appears_on;
    lemma_gathered_appearances(f, catalogs);
    assert(appearances_offer(g, appearance_key(f, a), catalogs[c].0, a.track.item_id));
    let k = choose|k: int|
        0 <= k < g.rows.len() && g.keys[k] == appearance_key(f, a) && (
        #[trigger] g.rows[k]).track.sources.contains((catalogs[c].0, a.track.item_id));
    lemma_gathered_told(f, catalogs, catalogs.len() as int);
    assert(catalogs.take(catalogs.len() as int) =~= catalogs);
    assert(told_under(f, catalogs, g.keys[k], g.rows[k]));
    assert(g.rows.contains(g.rows[k]));
    lemma_sorted_holds(g.rows, appearance_order(), g.rows[k]);
    let i = out.index_of(g.rows[k]);
    assert(out[i] == g.rows[k]);
}

/// Every peer that gave something stands among the owners of the card, once.
pub proof fn law_card_names_its_peers<F: Fn(&str) -> String>(
    f: F,
    name: Seq<char>,
    catalogs: Seq<(Seq<char>, CatalogArtistView)>,
)
    ensures
        merged_card(f, name, catalogs).owners.no_duplicates(),
        forall|i: int|
            0 <= i < catalogs.len() ==> merged_card(f, name, catalogs).owners.contains(
                (#[trigger] catalogs[i]).0,
            ),
    decreases catalogs.len(),
{
    if catalogs.len() > 0 {
        let h = catalogs.drop_last();
        law_card_names_its_peers(f, name, h);
        let before = gathered(f, h).owners;
        let after = gathered(f, catalogs).owners;
        let last = catalogs.last().0;
        assert(after == with_text(before, last));
        assert forall|i: int| 0 <= i < catalogs.len() implies after.contains(
            (#[trigger] catalogs[i]).0,
        ) by {
            if i < h.len() {
                assert(h[i] == catalogs[i]);
                let k = before.index_of(catalogs[i].0);
                assert(after[k] == catalogs[i].0);
            } else if !before.contains(last) {
                assert(after[before.len() as int] == last);
            }
        }
    }
}

// ---------------------------------------------------------------------------
// Search
// ---------------------------------------------------------------------------

/// Among the tracks that a search gives, one that matches better never stands
/// behind one that matches worse.
pub proof fn law_better_tracks_come_first<F: Fn(&str) -> String>(
    f: F,
    tracks: Seq<FedTrackView>,
    q: Seq<char>,
    i: int,
    j: int,
)
    requires
        0 <= i < j < tracks.len(),
    ensures
        track_rank(f, stable_sorted(tracks, rank_order(f, q))[i], q) <= track_rank(
            f,
            stable_sorted(tracks, rank_order(f, q))[j],
            q,
        ),
{
    let leq = rank_order(f, q);
    law_stable_sort(tracks, leq);
    assert(total_preorder(leq));
    let r = stable_sorted(tracks, leq);
    assert(leq(r[i], r[j]));
}

/// Among the artists that a search gives, one whose name is what was asked for
/// never stands behind one whose name is not.
pub proof fn law_better_artists_come_first<F: Fn(&str) -> String>(
    f: F,
    artists: Seq<ArtistHitView>,
    q: Seq<char>,
    i: int,
    j: int,
)
    requires
        0 <= i < j < artists.len(),
    ensures
        name_rank(f, stable_sorted(artists, artist_order(f, q))[i].name, q) <= name_rank(
            f,
            stable_sorted(artists, artist_order(f, q))[j].name,
            q,
        ),
{
    let leq = artist_order(f, q);
    assert forall|a: ArtistHitView, b: ArtistHitView| #[trigger] leq(a, b) || leq(b, a) by {
        lemma_no_order_is_total(a.name, b.name, a.name);
    }
    assert forall|a: ArtistHitView, b: ArtistHitView, c: ArtistHitView| #[trigger]
        leq(a, b) && #[trigger] leq(b, c) implies leq(a, c) by {
        lemma_no_order_is_total(a.name, b.name, c.name);
    }
    law_stable_sort(artists, leq);
    let r = stable_sorted(artists, leq);
    assert(leq(r[i], r[j]));
}

} // verus!
