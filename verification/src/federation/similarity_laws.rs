//! What holds of the peers that are asked for similar tracks, and of what is
//! chosen among their answers.

use crate::federation::search::FedSearchResults;
use crate::federation::similarity::{
    chosen, distance_of, owners_of, planned, routed_peers, score_order, similar_answer, times,
    with_peer, PeerHitView,
};
use crate::federation::track::FedTrackView;
use crate::library::listing_laws::lemma_sorted_has;
use crate::lists::{law_stable_sort, stable_sorted, total_preorder, viewed};
use crate::names::key_of;
use vstd::prelude::*;

verus! {

/// What two results of the same recording have in common: the content, or the
/// owner and the item where the content is not known.
pub open spec fn mark_of(t: FedTrackView) -> Seq<char> {
    if t.content_id is Some {
        t.content_id->0
    } else {
        t.owner + seq![':'] + t.item_id
    }
}

/// The key of the artist who comes first, or an empty one.
pub open spec fn leads<F: Fn(&str) -> String>(f: F, t: FedTrackView, k: Seq<char>) -> bool {
    k.len() > 0 && t.artist_names.len() > 0 && key_of(f, t.artist_names[0]) == k
}

/// Whether some of the tracks have the same artist first as one more, three in
/// all.
pub open spec fn enough_of_artist<F: Fn(&str) -> String>(
    f: F,
    tracks: Seq<FedTrackView>,
    t: FedTrackView,
) -> bool {
    exists|a: int, b: int, c: int|
        0 <= a < b < c < tracks.len() && leads(f, #[trigger] tracks[a], key_of(f, t.artist_names[0]))
            && leads(f, #[trigger] tracks[b], key_of(f, t.artist_names[0])) && leads(
            f,
            #[trigger] tracks[c],
            key_of(f, t.artist_names[0]),
        ) && t.artist_names.len() > 0
}

/// Whether a result sounds like what was asked about or like one of the picks.
pub open spec fn sounds_taken<D: Fn(&[u8], &[u8]) -> u32>(
    d: D,
    signature: Seq<u8>,
    hits: Seq<PeerHitView>,
    picks: Seq<int>,
    x: PeerHitView,
) -> bool {
    x.signature is Some && (distance_of(d, x.signature->0, signature) <= 8 || exists|m: int|
        0 <= m < picks.len() && (#[trigger] hits[picks[m]]).signature is Some && distance_of(
            d,
            x.signature->0,
            hits[picks[m]].signature->0,
        ) <= 8)
}

/// Why the result at a place was not taken.
spec fn has_reason<F: Fn(&str) -> String, D: Fn(&[u8], &[u8]) -> u32>(
    f: F,
    d: D,
    source: Option<Seq<char>>,
    signature: Seq<u8>,
    hits: Seq<PeerHitView>,
    picks: Seq<int>,
    tracks: Seq<FedTrackView>,
    i: int,
) -> bool {
    ||| picks.contains(i)
    ||| source is Some && hits[i].track.content_id == source
    ||| exists|j: int| 0 <= j < i && mark_of((#[trigger] hits[j]).track) == mark_of(hits[i].track)
    ||| sounds_taken(d, signature, hits, picks, hits[i])
    ||| enough_of_artist(f, tracks, hits[i].track)
}

proof fn lemma_times_one(s: Seq<Seq<char>>, x: Seq<char>) -> (a: int)
    requires
        times(s, x) >= 1,
    ensures
        0 <= a < s.len() && s[a] == x,
    decreases s.len(),
{
    if s.last() == x {
        s.len() - 1
    } else {
        lemma_times_one(s.drop_last(), x)
    }
}

proof fn lemma_times_two(s: Seq<Seq<char>>, x: Seq<char>) -> (r: (int, int))
    requires
        times(s, x) >= 2,
    ensures
        0 <= r.0 < r.1 < s.len() && s[r.0] == x && s[r.1] == x,
    decreases s.len(),
{
    if s.last() == x {
        let a = lemma_times_one(s.drop_last(), x);
        (a, s.len() - 1)
    } else {
        lemma_times_two(s.drop_last(), x)
    }
}

proof fn lemma_times_three(s: Seq<Seq<char>>, x: Seq<char>) -> (r: (int, int, int))
    requires
        times(s, x) >= 3,
    ensures
        0 <= r.0 < r.1 < r.2 < s.len() && s[r.0] == x && s[r.1] == x && s[r.2] == x,
    decreases s.len(),
{
    if s.last() == x {
        let (a, b) = lemma_times_two(s.drop_last(), x);
        (a, b, s.len() - 1)
    } else {
        lemma_times_three(s.drop_last(), x)
    }
}

/// Where the chosen tracks stand among the results, and why the others were
/// passed over.
proof fn lemma_picks<F: Fn(&str) -> String, D: Fn(&[u8], &[u8]) -> u32>(
    f: F,
    d: D,
    source: Option<Seq<char>>,
    signature: Seq<u8>,
    limit: usize,
    most: usize,
    hits: Seq<PeerHitView>,
) -> (picks: Seq<int>)
    requires
        1 <= limit <= most,
    ensures
        ({
            let c = chosen(f, d, source, signature, limit, most, hits);
            &&& picks.len() == c.tracks.len()
            &&& c.artists.len() == c.tracks.len()
            &&& c.tracks.len() <= limit
            &&& forall|m: int|
                0 <= m < picks.len() ==> 0 <= #[trigger] picks[m] < hits.len() && c.tracks[m]
                    == hits[picks[m]].track
            &&& forall|m: int, n: int|
                0 <= m < n < picks.len() ==> #[trigger] picks[m] < #[trigger] picks[n]
            &&& forall|m: int|
                0 <= m < c.artists.len() ==> #[trigger] c.artists[m] == (if c.tracks[m].artist_names.len()
                    > 0 {
                    key_of(f, c.tracks[m].artist_names[0])
                } else {
                    Seq::empty()
                })
            &&& forall|x: Seq<u8>|
                #[trigger] c.signatures.contains(x) ==> x == signature || exists|m: int|
                    0 <= m < picks.len() && (#[trigger] hits[picks[m]]).signature == Some(x)
            &&& c.signatures.contains(signature)
            &&& forall|m: int|
                0 <= m < picks.len() && (#[trigger] hits[picks[m]]).signature is Some
                    ==> c.signatures.contains(hits[picks[m]].signature->0)
            &&& forall|m: int|
                #![trigger hits[picks[m]]]
                0 <= m < picks.len() && hits[picks[m]].signature is Some ==> {
                    &&& distance_of(d, hits[picks[m]].signature->0, signature) > 8
                    &&& forall|n: int|
                        0 <= n < m && (#[trigger] hits[picks[n]]).signature is Some ==> distance_of(
                            d,
                            hits[picks[m]].signature->0,
                            hits[picks[n]].signature->0,
                        ) > 8
                }
            &&& forall|x: Seq<char>|
                #[trigger] c.seen.contains(x) ==> exists|j: int|
                    0 <= j < hits.len() && mark_of((#[trigger] hits[j]).track) == x
            &&& c.tracks.len() < limit ==> forall|i: int|
                0 <= i < hits.len() ==> #[trigger] has_reason(
                    f,
                    d,
                    source,
                    signature,
                    hits,
                    picks,
                    c.tracks,
                    i,
                )
        }),
    decreases hits.len(),
{
    let c = chosen(f, d, source, signature, limit, most, hits);
    if hits.len() == 0 {
        assert(c.signatures[0] == signature);
        Seq::empty()
    } else {
        let h = hits.drop_last();
        let n = hits.len() - 1;
        let x = hits.last();
        let b = chosen(f, d, source, signature, limit, most, h);
        let before = lemma_picks(f, d, source, signature, limit, most, h);
        assert forall|i: int| 0 <= i < n implies #[trigger] hits[i] == h[i] by {}
        let taken = c.tracks.len() > b.tracks.len();
        let picks = if taken {
            before.push(n)
        } else {
            before
        };
        assert forall|m: int| 0 <= m < before.len() implies #[trigger] picks[m] == before[m]
            && hits[picks[m]] == h[before[m]] by {}
        assert forall|y: Seq<char>| #[trigger] c.seen.contains(y) implies exists|j: int|
            0 <= j < hits.len() && mark_of((#[trigger] hits[j]).track) == y by {
            let m = c.seen.index_of(y);
            if m < b.seen.len() {
                assert(b.seen[m] == y);
                assert(b.seen.contains(y));
                let j = choose|j: int| 0 <= j < h.len() && mark_of((#[trigger] h[j]).track) == y;
                assert(mark_of(hits[j].track) == y);
            } else {
                assert(mark_of(hits[n].track) == y);
            }
        }
        assert forall|y: Seq<u8>| #[trigger] c.signatures.contains(y) implies y == signature
            || exists|m: int|
            0 <= m < picks.len() && (#[trigger] hits[picks[m]]).signature == Some(y) by {
            let m = c.signatures.index_of(y);
            if m < b.signatures.len() {
                assert(b.signatures[m] == y);
                assert(b.signatures.contains(y));
                if y != signature {
                    let k = choose|k: int|
                        0 <= k < before.len() && (#[trigger] h[before[k]]).signature == Some(y);
                    assert(hits[picks[k]].signature == Some(y));
                }
            } else {
                assert(hits[picks[before.len() as int]].signature == Some(y));
            }
        }
        assert forall|y: Seq<u8>| b.signatures.contains(y) implies #[trigger] c.signatures.contains(
            y,
        ) by {
            let m = b.signatures.index_of(y);
            assert(c.signatures[m] == y);
        }
        assert forall|m: int|
            0 <= m < picks.len() && (#[trigger] hits[picks[m]]).signature
                is Some implies c.signatures.contains(hits[picks[m]].signature->0) by {
            if m < before.len() {
                assert(h[before[m]].signature is Some);
            } else {
                assert(c.signatures.last() == x.signature->0);
            }
        }
        assert forall|m: int|
            #![trigger hits[picks[m]]]
            0 <= m < picks.len() && hits[picks[m]].signature is Some implies {
            &&& distance_of(d, hits[picks[m]].signature->0, signature) > 8
            &&& forall|k: int|
                0 <= k < m && (#[trigger] hits[picks[k]]).signature is Some ==> distance_of(
                    d,
                    hits[picks[m]].signature->0,
                    hits[picks[k]].signature->0,
                ) > 8
        } by {
            if m < before.len() {
                assert(h[before[m]].signature is Some);
                assert forall|k: int|
                    0 <= k < m && (#[trigger] hits[picks[k]]).signature is Some implies distance_of(
                    d,
                    hits[picks[m]].signature->0,
                    hits[picks[k]].signature->0,
                ) > 8 by {
                    assert(h[before[k]].signature is Some);
                }
            } else {
                let s = b.signatures.index_of(signature);
                assert(b.signatures[s] == signature);
                assert forall|k: int|
                    0 <= k < m && (#[trigger] hits[picks[k]]).signature is Some implies distance_of(
                    d,
                    hits[picks[m]].signature->0,
                    hits[picks[k]].signature->0,
                ) > 8 by {
                    assert(h[before[k]].signature is Some);
                    let u = b.signatures.index_of(h[before[k]].signature->0);
                    assert(b.signatures[u] == h[before[k]].signature->0);
                }
            }
        }
        if c.tracks.len() < limit {
            assert forall|i: int| 0 <= i < hits.len() implies #[trigger] has_reason(
                f,
                d,
                source,
                signature,
                hits,
                picks,
                c.tracks,
                i,
            ) by {
                if i < n {
                    assert(has_reason(f, d, source, signature, h, before, b.tracks, i));
                    lemma_reason_stays(
                        f,
                        d,
                        source,
                        signature,
                        h,
                        before,
                        b.tracks,
                        hits,
                        picks,
                        c.tracks,
                        i,
                    );
                } else if taken {
                    assert(picks[before.len() as int] == n);
                } else if source is Some && x.track.content_id == source {
                } else if b.seen.contains(mark_of(x.track)) {
                    let j = choose|j: int|
                        0 <= j < h.len() && mark_of((#[trigger] h[j]).track) == mark_of(x.track);
                    assert(mark_of(hits[j].track) == mark_of(hits[n].track));
                } else {
                    assert(h.push(x) =~= hits);
                    lemma_step_reason(
                        f,
                        d,
                        source,
                        signature,
                        limit,
                        most,
                        h,
                        before,
                        x,
                    );
                    if sounds_taken(d, signature, h, before, x) {
                        lemma_sounds_stays(d, signature, h, before, hits, picks, x);
                    } else {
                        lemma_enough_stays(f, b.tracks, c.tracks, x.track);
                    }
                }
            }
        }
        picks
    }
}

proof fn lemma_sounds_stays<D: Fn(&[u8], &[u8]) -> u32>(
    d: D,
    signature: Seq<u8>,
    h: Seq<PeerHitView>,
    before: Seq<int>,
    hits: Seq<PeerHitView>,
    picks: Seq<int>,
    x: PeerHitView,
)
    requires
        sounds_taken(d, signature, h, before, x),
        before.len() <= picks.len(),
        forall|m: int|
            0 <= m < before.len() ==> #[trigger] picks[m] == before[m] && hits[picks[m]]
                == h[before[m]],
    ensures
        sounds_taken(d, signature, hits, picks, x),
{
    if distance_of(d, x.signature->0, signature) > 8 {
        let m = choose|m: int|
            0 <= m < before.len() && (#[trigger] h[before[m]]).signature is Some && distance_of(
                d,
                x.signature->0,
                h[before[m]].signature->0,
            ) <= 8;
        assert(picks[m] == before[m]);
        assert(hits[picks[m]].signature is Some);
    }
}

proof fn lemma_enough_stays<F: Fn(&str) -> String>(
    f: F,
    b: Seq<FedTrackView>,
    c: Seq<FedTrackView>,
    t: FedTrackView,
)
    requires
        enough_of_artist(f, b, t),
        b.len() <= c.len(),
        forall|m: int| 0 <= m < b.len() ==> #[trigger] c[m] == b[m],
    ensures
        enough_of_artist(f, c, t),
{
    let k = key_of(f, t.artist_names[0]);
    let (u, v, w) = choose|u: int, v: int, w: int|
        0 <= u < v < w < b.len() && leads(f, #[trigger] b[u], k) && leads(f, #[trigger] b[v], k)
            && leads(f, #[trigger] b[w], k) && t.artist_names.len() > 0;
    assert(leads(f, c[u], k) && leads(f, c[v], k) && leads(f, c[w], k));
}

proof fn lemma_reason_stays<F: Fn(&str) -> String, D: Fn(&[u8], &[u8]) -> u32>(
    f: F,
    d: D,
    source: Option<Seq<char>>,
    signature: Seq<u8>,
    h: Seq<PeerHitView>,
    before: Seq<int>,
    b: Seq<FedTrackView>,
    hits: Seq<PeerHitView>,
    picks: Seq<int>,
    c: Seq<FedTrackView>,
    i: int,
)
    requires
        has_reason(f, d, source, signature, h, before, b, i),
        0 <= i < h.len() < hits.len(),
        forall|j: int| 0 <= j < h.len() ==> #[trigger] hits[j] == h[j],
        before.len() <= picks.len(),
        forall|m: int|
            0 <= m < before.len() ==> #[trigger] picks[m] == before[m] && hits[picks[m]]
                == h[before[m]],
        b.len() <= c.len(),
        forall|m: int| 0 <= m < b.len() ==> #[trigger] c[m] == b[m],
    ensures
        has_reason(f, d, source, signature, hits, picks, c, i),
{
    if before.contains(i) {
        let m = before.index_of(i);
        assert(picks[m] == i);
    } else if source is Some && h[i].track.content_id == source {
    } else if sounds_taken(d, signature, h, before, h[i]) {
        lemma_sounds_stays(d, signature, h, before, hits, picks, h[i]);
    } else if enough_of_artist(f, b, h[i].track) {
        lemma_enough_stays(f, b, c, h[i].track);
    } else {
        let j = choose|j: int|
            0 <= j < i && mark_of((#[trigger] h[j]).track) == mark_of(h[i].track);
        assert(mark_of(hits[j].track) == mark_of(hits[i].track));
    }
}

/// A result that is new and is not taken sounds like one that is, or is by an
/// artist of whom there is enough.
proof fn lemma_step_reason<F: Fn(&str) -> String, D: Fn(&[u8], &[u8]) -> u32>(
    f: F,
    d: D,
    source: Option<Seq<char>>,
    signature: Seq<u8>,
    limit: usize,
    most: usize,
    h: Seq<PeerHitView>,
    before: Seq<int>,
    x: PeerHitView,
)
    requires
        1 <= limit <= most,
        ({
            let b = chosen(f, d, source, signature, limit, most, h);
            let c = chosen(f, d, source, signature, limit, most, h.push(x));
            &&& c.tracks.len() <= b.tracks.len() < limit
            &&& !(source is Some && x.track.content_id == source)
            &&& !b.seen.contains(mark_of(x.track))
            &&& b.artists.len() == b.tracks.len()
            &&& forall|m: int|
                0 <= m < b.artists.len() ==> #[trigger] b.artists[m] == (if b.tracks[m].artist_names.len()
                    > 0 {
                    key_of(f, b.tracks[m].artist_names[0])
                } else {
                    Seq::empty()
                })
            &&& forall|y: Seq<u8>|
                #[trigger] b.signatures.contains(y) ==> y == signature || exists|m: int|
                    0 <= m < before.len() && (#[trigger] h[before[m]]).signature == Some(y)
        }),
    ensures
        sounds_taken(d, signature, h, before, x) || enough_of_artist(
            f,
            chosen(f, d, source, signature, limit, most, h).tracks,
            x.track,
        ),
{
    let b = chosen(f, d, source, signature, limit, most, h);
    let all = h.push(x);
    assert(all.drop_last() =~= h);
    assert(all.last() == x);
    let known = b.signatures;
    if x.signature is Some && exists|i: int|
        0 <= i < known.len() && distance_of(d, x.signature->0, #[trigger] known[i]) <= 8 {
        let i = choose|i: int|
            0 <= i < known.len() && distance_of(d, x.signature->0, #[trigger] known[i]) <= 8;
        assert(known.contains(known[i]));
        if known[i] != signature {
            let m = choose|m: int|
                0 <= m < before.len() && (#[trigger] h[before[m]]).signature == Some(known[i]);
            assert(h[before[m]].signature is Some);
        }
    } else {
        let k = key_of(f, x.track.artist_names[0]);
        assert(x.track.artist_names.len() > 0);
        assert(times(b.artists, k) >= 3);
        let (u, v, w) = lemma_times_three(b.artists, k);
        assert(b.artists[u] == k && b.artists[v] == k && b.artists[w] == k);
        assert(leads(f, b.tracks[u], k) && leads(f, b.tracks[v], k) && leads(f, b.tracks[w], k));
    }
}

proof fn lemma_score_order()
    ensures
        total_preorder(score_order()),
{
    let leq = score_order();
    assert forall|a: PeerHitView, b: PeerHitView| #[trigger] leq(a, b) || leq(b, a) by {}
    assert forall|a: PeerHitView, b: PeerHitView, c: PeerHitView| #[trigger]
        leq(a, b) && #[trigger] leq(b, c) implies leq(a, c) by {}
}

proof fn lemma_first_place(s: Seq<PeerHitView>, x: PeerHitView) -> (p: int)
    requires
        s.contains(x),
    ensures
        0 <= p < s.len(),
        s[p] == x,
        forall|j: int| 0 <= j < p ==> #[trigger] s[j] != x,
    decreases s.len(),
{
    let h = s.drop_last();
    if h.contains(x) {
        let p = lemma_first_place(h, x);
        assert forall|j: int| 0 <= j < p implies #[trigger] s[j] != x by {
            assert(h[j] != x);
        }
        p
    } else {
        let i = s.index_of(x);
        if i < h.len() {
            assert(h[i] == x);
        }
        assert forall|j: int| 0 <= j < i implies #[trigger] s[j] != x by {
            if s[j] == x {
                assert(h[j] == x);
            }
        }
        i
    }
}

/// Nothing is left out without a reason. When fewer tracks than the limit are
/// chosen, every result is chosen, or has the content that was asked about, or
/// another result of the same recording scored at least as well, or it sounds
/// like what was asked about or like a chosen one, or three chosen tracks have
/// the same first artist.
pub proof fn law_nothing_is_left_out_without_reason<
    F: Fn(&str) -> String,
    D: Fn(&[u8], &[u8]) -> u32,
>(
    f: F,
    d: D,
    source: Option<Seq<char>>,
    signature: Seq<u8>,
    limit: usize,
    most: usize,
    hits: Seq<PeerHitView>,
    r: FedSearchResults,
    x: PeerHitView,
)
    requires
        similar_answer(f, d, source, signature, limit, most, hits, r),
        1 <= limit <= most,
        r.tracks@.len() < limit,
        hits.contains(x),
    ensures
        ({
            let tracks = viewed(r.tracks@);
            ||| tracks.contains(x.track)
            ||| source is Some && x.track.content_id == source
            ||| exists|y: PeerHitView|
                #[trigger] hits.contains(y) && y != x && mark_of(y.track) == mark_of(x.track) && (
                x.score < 0x8000_0000 ==> y.score < 0x8000_0000 && y.score >= x.score)
            ||| x.signature is Some && (distance_of(d, x.signature->0, signature) <= 8 || exists|
                y: PeerHitView,
            |
                #[trigger] hits.contains(y) && tracks.contains(y.track) && y.signature is Some
                    && distance_of(d, x.signature->0, y.signature->0) <= 8)
            ||| enough_of_artist(f, tracks, x.track)
        }),
{
    let s = stable_sorted(hits, score_order());
    let tracks = viewed(r.tracks@);
    lemma_score_order();
    law_stable_sort(hits, score_order());
    lemma_sorted_has(hits, score_order());
    assert(s.contains(x));
    let p = lemma_first_place(s, x);
    let picks = lemma_picks(f, d, source, signature, limit, most, s);
    assert(tracks.len() == r.tracks@.len());
    assert(has_reason(f, d, source, signature, s, picks, tracks, p));
    if picks.contains(p) {
        let m = picks.index_of(p);
        assert(tracks[m] == x.track);
    } else if source is Some && x.track.content_id == source {
    } else if sounds_taken(d, signature, s, picks, x) {
        if distance_of(d, x.signature->0, signature) > 8 {
            let m = choose|m: int|
                0 <= m < picks.len() && (#[trigger] s[picks[m]]).signature is Some && distance_of(
                    d,
                    x.signature->0,
                    s[picks[m]].signature->0,
                ) <= 8;
            let y = s[picks[m]];
            assert(s.contains(y));
            assert(hits.contains(y));
            assert(tracks[m] == y.track);
        }
    } else if enough_of_artist(f, tracks, x.track) {
    } else {
        let j = choose|j: int|
            0 <= j < p && mark_of((#[trigger] s[j]).track) == mark_of(s[p].track);
        let y = s[j];
        assert(s.contains(y));
        assert(hits.contains(y));
        assert(y != x);
        assert(score_order()(s[j], s[p]));
    }
}

/// The tracks that are chosen are results of peers, the better scores first, and
/// with fewer results wanted than chosen none more. None sounds like what was
/// asked about, and no two sound like each other.
pub proof fn law_chosen_are_the_best<F: Fn(&str) -> String, D: Fn(&[u8], &[u8]) -> u32>(
    f: F,
    d: D,
    source: Option<Seq<char>>,
    signature: Seq<u8>,
    limit: usize,
    most: usize,
    hits: Seq<PeerHitView>,
    r: FedSearchResults,
) -> (picked: Seq<PeerHitView>)
    requires
        similar_answer(f, d, source, signature, limit, most, hits, r),
        1 <= limit <= most,
    ensures
        r.tracks@.len() <= limit,
        picked.len() == r.tracks@.len(),
        forall|m: int|
            0 <= m < picked.len() ==> hits.contains(#[trigger] picked[m]) && r.tracks@[m]@
                == picked[m].track,
        forall|m: int, n: int|
            0 <= m < n < picked.len() && (#[trigger] picked[n]).score < 0x8000_0000 ==> (
            #[trigger] picked[m]).score < 0x8000_0000 && picked[m].score >= picked[n].score,
        forall|m: int|
            0 <= m < picked.len() && (#[trigger] picked[m]).signature is Some ==> distance_of(
                d,
                picked[m].signature->0,
                signature,
            ) > 8,
        forall|m: int, n: int|
            0 <= m < n < picked.len() && (#[trigger] picked[m]).signature is Some && (
            #[trigger] picked[n]).signature is Some ==> distance_of(
                d,
                picked[n].signature->0,
                picked[m].signature->0,
            ) > 8,
{
    let s = stable_sorted(hits, score_order());
    let tracks = viewed(r.tracks@);
    lemma_score_order();
    law_stable_sort(hits, score_order());
    lemma_sorted_has(hits, score_order());
    let picks = lemma_picks(f, d, source, signature, limit, most, s);
    assert(tracks.len() == r.tracks@.len());
    let picked = picks.map_values(|i: int| s[i]);
    assert forall|m: int| 0 <= m < picked.len() implies hits.contains(#[trigger] picked[m])
        && r.tracks@[m]@ == picked[m].track by {
        assert(picked[m] == s[picks[m]]);
        assert(s.contains(picked[m]));
        assert(tracks[m] == r.tracks@[m]@);
    }
    assert forall|m: int, n: int|
        0 <= m < n < picked.len() && (#[trigger] picked[n]).score < 0x8000_0000 implies (
    #[trigger] picked[m]).score < 0x8000_0000 && picked[m].score >= picked[n].score by {
        assert(picks[m] < picks[n]);
        assert(score_order()(s[picks[m]], s[picks[n]]));
    }
    assert forall|m: int| 0 <= m < picked.len() && (#[trigger] picked[m]).signature
        is Some implies distance_of(d, picked[m].signature->0, signature) > 8 by {
        assert(picked[m] == s[picks[m]]);
    }
    assert forall|m: int, n: int|
        0 <= m < n < picked.len() && (#[trigger] picked[m]).signature is Some && (
        #[trigger] picked[n]).signature is Some implies distance_of(
        d,
        picked[n].signature->0,
        picked[m].signature->0,
    ) > 8 by {
        assert(picked[m] == s[picks[m]]);
        assert(picked[n] == s[picks[n]]);
    }
    picked
}

// ---------------------------------------------------------------------------
// Peers
// ---------------------------------------------------------------------------

proof fn lemma_with_peer(
    own: Seq<char>,
    peers: Seq<(Seq<char>, Option<usize>)>,
    owner: Seq<char>,
    ticket: Option<usize>,
    x: Seq<char>,
)
    ensures
        owners_of(with_peer(own, peers, owner, ticket)).contains(x) <==> owners_of(peers).contains(
            x,
        ) || (x == owner && owner != own),
{
    let a = owners_of(peers);
    let b = owners_of(with_peer(own, peers, owner, ticket));
    if owner == own || a.contains(owner) {
    } else {
        assert(b =~= a.push(owner));
        if a.contains(x) {
            let i = a.index_of(x);
            assert(b[i] == x);
        }
        if x == owner {
            assert(b[a.len() as int] == x);
        }
        if b.contains(x) && x != owner {
            let i = b.index_of(x);
            assert(a[i] == x);
        }
    }
}

proof fn lemma_routed(own: Seq<char>, routed: Seq<Seq<char>>, x: Seq<char>)
    ensures
        owners_of(routed_peers(own, routed)).contains(x) <==> x != own && routed.contains(x),
        owners_of(routed_peers(own, routed)).no_duplicates(),
        forall|i: int|
            0 <= i < routed_peers(own, routed).len() ==> (#[trigger] routed_peers(own, routed)[i]).1
                is Some,
    decreases routed.len(),
{
    if routed.len() > 0 {
        let h = routed.drop_last();
        lemma_routed(own, h, x);
        lemma_with_peer(
            own,
            routed_peers(own, h),
            routed.last(),
            Some((routed.len() - 1) as usize),
            x,
        );
        assert(routed =~= h.push(routed.last()));
        if h.contains(x) {
            let i = h.index_of(x);
            assert(routed[i] == x);
        }
        if x == routed.last() {
            assert(routed[routed.len() - 1] == x);
        }
        if routed.contains(x) {
            let i = routed.index_of(x);
            if i < h.len() {
                assert(h[i] == x);
            }
        }
        let a = owners_of(routed_peers(own, h));
        let b = owners_of(routed_peers(own, routed));
        if a != b {
            assert(b =~= a.push(routed.last()));
        }
    }
}

/// The peers that are asked are those that the routing named and those that are
/// known: every one that was named, each once, never this peer itself; and
/// with fewer than 48 to ask no known one is left out.
pub proof fn law_plan_asks_everyone_once(
    own: Seq<char>,
    routed: Seq<Seq<char>>,
    known: Seq<Seq<char>>,
    x: Seq<char>,
)
    ensures
        owners_of(planned(own, routed, known)).no_duplicates(),
        owners_of(planned(own, routed, known)).contains(x) ==> x != own && (routed.contains(x)
            || known.contains(x)),
        routed.contains(x) && x != own ==> owners_of(planned(own, routed, known)).contains(x),
        known.contains(x) && x != own && planned(own, routed, known).len() < 48 ==> owners_of(
            planned(own, routed, known),
        ).contains(x),
        planned(own, routed, known).len() >= routed_peers(own, routed).len(),
    decreases known.len(),
{
    lemma_routed(own, routed, x);
    if known.len() > 0 {
        let h = known.drop_last();
        law_plan_asks_everyone_once(own, routed, h, x);
        let p = planned(own, routed, h);
        lemma_with_peer(own, p, known.last(), None, x);
        if h.contains(x) {
            let i = h.index_of(x);
            assert(known[i] == x);
        }
        if x == known.last() {
            assert(known[known.len() - 1] == x);
        }
        if known.contains(x) {
            let i = known.index_of(x);
            if i < h.len() {
                assert(h[i] == x);
            }
        }
        let a = owners_of(p);
        let b = owners_of(planned(own, routed, known));
        if a != b {
            assert(b =~= a.push(known.last()));
        }
    }
}

} // verus!
