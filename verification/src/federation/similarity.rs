//! Finding tracks that sound alike: which peers are asked, and which of their
//! answers are kept.

use crate::federation::audio::refusal_or_empty;
use crate::federation::search::FedSearchResults;
use crate::federation::track::{FedTrack, FedTrackView};
use crate::library::models::{names_of, ref_names, TrackItem};
use crate::lists::{holds_text, lemma_sorted_mapped, sort_by, stable_sorted, viewed};
use crate::names::{key, key_of, normalizes};
use crate::text::{opt_view, same, views};
use vstd::prelude::*;

verus! {

/// How many peers are asked first.
pub const INITIAL_QUERY_PEERS: usize = 16;

/// How many peers are asked at most, but for those that the routing named.
pub const MAX_QUERY_PEERS: usize = 48;

/// How many tracks of one artist are kept.
pub const MAX_PER_ARTIST: usize = 3;

/// Signatures at most this far apart are of the same recording.
pub const MAX_NEAR_DUPLICATE_SIGNATURE_DISTANCE: u32 = 8;

/// A signature of how a track sounds.
pub type Signature = Vec<u8>;

// ---------------------------------------------------------------------------
// Peers
// ---------------------------------------------------------------------------

/// A peer to ask, and the place of its ticket where the routing named it.
#[derive(Debug)]
pub struct QueryPeer {
    pub owner: String,
    pub ticket: Option<usize>,
}

impl View for QueryPeer {
    type V = (Seq<char>, Option<usize>);

    open spec fn view(&self) -> (Seq<char>, Option<usize>) {
        (self.owner@, self.ticket)
    }
}

pub open spec fn owners_of(peers: Seq<(Seq<char>, Option<usize>)>) -> Seq<Seq<char>> {
    peers.map_values(|p: (Seq<char>, Option<usize>)| p.0)
}

/// The peers to ask with one more, unless it is this peer or is there.
pub open spec fn with_peer(
    own: Seq<char>,
    peers: Seq<(Seq<char>, Option<usize>)>,
    owner: Seq<char>,
    ticket: Option<usize>,
) -> Seq<(Seq<char>, Option<usize>)> {
    if owner == own || owners_of(peers).contains(owner) {
        peers
    } else {
        peers.push((owner, ticket))
    }
}

/// The peers that the routing named.
pub open spec fn routed_peers(own: Seq<char>, routed: Seq<Seq<char>>) -> Seq<
    (Seq<char>, Option<usize>),
>
    decreases routed.len(),
{
    if routed.len() == 0 {
        Seq::empty()
    } else {
        with_peer(
            own,
            routed_peers(own, routed.drop_last()),
            routed.last(),
            Some((routed.len() - 1) as usize),
        )
    }
}

/// The peers that the routing named, and known ones behind them until there
/// are enough. At least one known peer is looked at.
pub open spec fn planned(own: Seq<char>, routed: Seq<Seq<char>>, known: Seq<Seq<char>>) -> Seq<
    (Seq<char>, Option<usize>),
>
    decreases known.len(),
{
    if known.len() == 0 {
        routed_peers(own, routed)
    } else {
        let before = planned(own, routed, known.drop_last());
        if known.len() > 1 && before.len() >= MAX_QUERY_PEERS {
            before
        } else {
            with_peer(own, before, known.last(), None)
        }
    }
}

fn owner_names(peers: &Vec<QueryPeer>) -> (r: Vec<String>)
    ensures
        views(r@) == owners_of(viewed(peers@)),
{
    let mut out: Vec<String> = Vec::new();
    let mut i: usize = 0;
    while i < peers.len()
        invariant
            i <= peers@.len(),
            out@.len() == i,
            forall|j: int| 0 <= j < i ==> (#[trigger] out@[j])@ == peers@[j].owner@,
        decreases peers@.len() - i,
    {
        out.push(peers[i].owner.clone());
        i += 1;
    }
    proof {
        assert(views(out@) =~= owners_of(viewed(peers@)));
    }
    out
}

fn put_peer(own: &str, peers: &mut Vec<QueryPeer>, owner: &str, ticket: Option<usize>)
    ensures
        viewed(final(peers)@) == with_peer(own@, viewed(old(peers)@), owner@, ticket),
{
    if !same(owner, own) && !holds_text(&owner_names(peers), owner) {
        let ghost before = peers@;
        peers.push(QueryPeer { owner: owner.to_owned(), ticket });
        proof {
            assert(viewed(peers@) =~= viewed(before).push((owner@, ticket)));
        }
    }
}

/// Which peers are asked, in order: those that the routing named, then the
/// connected and the known ones.
pub fn query_plan(own: &str, routed: &Vec<String>, known: &Vec<String>) -> (r: Vec<QueryPeer>)
    ensures
        viewed(r@) == planned(own@, views(routed@), views(known@)),
{
    let mut peers: Vec<QueryPeer> = Vec::new();
    let ghost names = views(routed@);
    let ghost more = views(known@);
    proof {
        assert(viewed(peers@) =~= Seq::empty());
        assert(names.take(0) =~= Seq::empty());
    }
    let mut i: usize = 0;
    while i < routed.len()
        invariant
            i <= routed@.len(),
            names == views(routed@),
            viewed(peers@) == routed_peers(own@, names.take(i as int)),
        decreases routed@.len() - i,
    {
        proof {
            assert(names.take(i + 1).drop_last() =~= names.take(i as int));
            assert(names.take(i + 1).last() == routed@[i as int]@);
        }
        put_peer(own, &mut peers, routed[i].as_str(), Some(i));
        i += 1;
    }
    proof {
        assert(names.take(routed@.len() as int) =~= names);
        assert(more.take(0) =~= Seq::empty());
    }
    let mut j: usize = 0;
    while j < known.len()
        invariant
            j <= known@.len(),
            more == views(known@),
            viewed(peers@) == planned(own@, names, more.take(j as int)),
        decreases known@.len() - j,
    {
        proof {
            assert(more.take(j + 1).drop_last() =~= more.take(j as int));
            assert(more.take(j + 1).last() == known@[j as int]@);
        }
        if j == 0 || peers.len() < MAX_QUERY_PEERS {
            put_peer(own, &mut peers, known[j].as_str(), None);
        }
        j += 1;
    }
    proof {
        assert(more.take(known@.len() as int) =~= more);
    }
    peers
}

/// How many of the planned peers are asked first.
pub fn first_round(planned: usize) -> (r: usize)
    ensures
        r == if planned < INITIAL_QUERY_PEERS {
            planned
        } else {
            INITIAL_QUERY_PEERS
        },
{
    if planned < INITIAL_QUERY_PEERS {
        planned
    } else {
        INITIAL_QUERY_PEERS
    }
}

/// Whether the other peers are asked too: there are some, and the first gave
/// too few results or too few of them answered.
pub fn needs_second_round(planned: usize, hits: usize, successful: usize, limit: usize) -> (r: bool)
    ensures
        r == (planned > INITIAL_QUERY_PEERS && (hits < limit || successful < 4)),
{
    planned > INITIAL_QUERY_PEERS && (hits < limit || successful < 4)
}

/// How many results a peer is asked for: at least one, and no more than a
/// request can ask for.
pub fn request_limit(limit: usize, most: usize) -> (r: usize)
    requires
        most >= 1,
    ensures
        r == choice_limit(limit, most),
{
    if limit < 1 {
        1
    } else if limit > most {
        most
    } else {
        limit
    }
}

// ---------------------------------------------------------------------------
// Answers
// ---------------------------------------------------------------------------

/// A result as it is sent. The score is the bits of a single-precision number.
#[derive(Debug)]
pub struct SimilarityHit {
    pub score: u32,
    pub item_id: String,
    pub title: String,
    pub artist_names: Vec<String>,
    pub featured_artist_names: Vec<String>,
    pub year: Option<i32>,
    pub duration_seconds: Option<i64>,
    pub content_id: Option<String>,
    pub release_title: Option<String>,
    pub track_number: Option<i32>,
    pub disc_number: Option<i32>,
    pub embedding_signature: Option<Signature>,
}

/// A result of a peer.
#[derive(Debug)]
pub struct PeerHit {
    pub track: FedTrack,
    pub score: u32,
    pub signature: Option<Signature>,
}

#[verifier::ext_equal]
pub struct PeerHitView {
    pub track: FedTrackView,
    pub score: u32,
    pub signature: Option<Seq<u8>>,
}

pub open spec fn signature_view(s: Option<Signature>) -> Option<Seq<u8>> {
    match s {
        Some(b) => Some(b@),
        None => None,
    }
}

impl View for PeerHit {
    type V = PeerHitView;

    open spec fn view(&self) -> PeerHitView {
        PeerHitView {
            track: self.track@,
            score: self.score,
            signature: signature_view(self.signature),
        }
    }
}

/// The track that a result stands for.
pub open spec fn hit_track(owner: Seq<char>, h: SimilarityHit) -> FedTrackView {
    FedTrackView {
        item_id: h.item_id@,
        owner,
        own: false,
        title: h.title@,
        artist_names: views(h.artist_names@),
        featured_artist_names: views(h.featured_artist_names@),
        year: h.year,
        duration_seconds: h.duration_seconds,
        content_id: opt_view(h.content_id),
        release_title: opt_view(h.release_title),
        track_number: h.track_number,
        disc_number: h.disc_number,
    }
}

pub open spec fn hit_of(owner: Seq<char>, h: SimilarityHit) -> PeerHitView {
    PeerHitView {
        track: hit_track(owner, h),
        score: h.score,
        signature: signature_view(h.embedding_signature),
    }
}

/// Takes the answer of a peer: its results, or why it refused.
pub fn take_response(owner: &str, ok: bool, error: &Option<String>, hits: Vec<SimilarityHit>) -> (r:
    Result<Vec<PeerHit>, String>)
    ensures
        r is Ok == ok,
        match r {
            Ok(v) => viewed(v@) == hits@.map_values(|h: SimilarityHit| hit_of(owner@, h)),
            Err(e) => e@ == "peer refused similarity query: "@ + refusal_or_empty(opt_view(*error)),
        },
{
    if !ok {
        let mut e = "peer refused similarity query: ".to_owned();
        if let Some(text) = error {
            e.append(text.as_str());
        }
        proof {
            assert(e@ =~= "peer refused similarity query: "@ + refusal_or_empty(opt_view(*error)));
        }
        return Err(e);
    }
    let ghost all = hits@;
    let size: usize = hits.len();
    let mut rest = hits;
    let mut out: Vec<PeerHit> = Vec::new();
    let mut i: usize = 0;
    proof {
        assert(all.skip(0) =~= all);
    }
    while i < size
        invariant
            i <= size,
            size == all.len(),
            rest@ == all.skip(i as int),
            out@.len() == i,
            forall|j: int| 0 <= j < i ==> (#[trigger] out@[j])@ == hit_of(owner@, all[j]),
        decreases size - i,
    {
        proof {
            assert(rest@.len() == all.len() - i);
            assert(rest@[0] == all[i as int]);
            assert(all.skip(i as int).skip(1) =~= all.skip(i + 1));
        }
        let ghost before = rest@;
        let h = rest.remove(0);
        proof {
            assert(rest@ =~= before.skip(1));
        }
        out.push(
            PeerHit {
                track: FedTrack {
                    item_id: h.item_id,
                    owner: owner.to_owned(),
                    own: false,
                    title: h.title,
                    artist_names: h.artist_names,
                    featured_artist_names: h.featured_artist_names,
                    year: h.year,
                    duration_seconds: h.duration_seconds,
                    content_id: h.content_id,
                    release_title: h.release_title,
                    track_number: h.track_number,
                    disc_number: h.disc_number,
                },
                score: h.score,
                signature: h.embedding_signature,
            },
        );
        i += 1;
    }
    proof {
        assert(viewed(out@) =~= all.map_values(|h: SimilarityHit| hit_of(owner@, h)));
    }
    Ok(out)
}

/// A local track as a result for a peer.
pub fn local_hit(
    track: TrackItem,
    item_id: String,
    rounded_seconds: i64,
    score: u32,
    signature: Signature,
) -> (r: SimilarityHit)
    ensures
        r.score == score,
        r.item_id == item_id,
        r.title@ == track@.title,
        views(r.artist_names@) == ref_names(track.artists@),
        views(r.featured_artist_names@) == ref_names(track.featured_artists@),
        r.year == track@.release_year,
        r.duration_seconds == Some(rounded_seconds),
        opt_view(r.content_id) == track@.content_id,
        opt_view(r.release_title) == Some(track@.release_title),
        r.track_number == track@.track_number,
        r.disc_number == track@.disc_number,
        r.embedding_signature == Some(signature),
{
    SimilarityHit {
        score,
        item_id,
        title: track.title,
        artist_names: names_of(&track.artists),
        featured_artist_names: names_of(&track.featured_artists),
        year: track.release_year,
        duration_seconds: Some(rounded_seconds),
        content_id: track.content_id,
        release_title: Some(track.release_title),
        track_number: track.track_number,
        disc_number: track.disc_number,
        embedding_signature: Some(signature),
    }
}

/// Whether a peer's request is answered, or why it is refused.
pub fn admit_request(network_allowed: bool) -> (r: Result<(), String>)
    ensures
        r is Ok == network_allowed,
        r matches Err(e) ==> e@
            == "similarity federation is disabled or has no privacy consent"@,
{
    if network_allowed {
        Ok(())
    } else {
        Err("similarity federation is disabled or has no privacy consent".to_owned())
    }
}

/// The refusal where the local search failed.
pub fn unavailable(error: &str) -> (r: String)
    ensures
        r@ == "similarity query is unavailable: "@ + error@,
{
    let mut e = "similarity query is unavailable: ".to_owned();
    e.append(error);
    e
}

// ---------------------------------------------------------------------------
// Choosing among the results
// ---------------------------------------------------------------------------

/// The place of a score in the total order of single-precision numbers, from
/// its bits.
pub open spec fn score_rank(bits: u32) -> int {
    if bits < 0x8000_0000 {
        bits as int
    } else {
        0x7fff_ffff - bits
    }
}

/// The better score first.
pub open spec fn score_order() -> spec_fn(PeerHitView, PeerHitView) -> bool {
    |a: PeerHitView, b: PeerHitView| score_rank(a.score) >= score_rank(b.score)
}

pub open spec fn hit_order() -> spec_fn(PeerHit, PeerHit) -> bool {
    |a: PeerHit, b: PeerHit| score_rank(a.score) >= score_rank(b.score)
}

fn rank(bits: u32) -> (r: i64)
    ensures
        r == score_rank(bits),
{
    if bits < 0x8000_0000 {
        bits as i64
    } else {
        0x7fff_ffffi64 - bits as i64
    }
}

/// A usable distance of signatures: it accepts any two, and its result depends
/// on their bytes alone.
pub open spec fn measures<D: Fn(&[u8], &[u8]) -> u32>(d: D) -> bool {
    &&& forall|a: &[u8], b: &[u8]| #[trigger] call_requires(d, (a, b))
    &&& forall|a: &[u8], b: &[u8], u: &[u8], v: &[u8], m: u32, n: u32|
        #[trigger] call_ensures(d, (a, b), m) && #[trigger] call_ensures(d, (u, v), n) && a@ == u@
            && b@ == v@ ==> m == n
}

/// Whether the distance of two signatures can be `n`.
pub open spec fn gives_distance<D: Fn(&[u8], &[u8]) -> u32>(
    d: D,
    a: Seq<u8>,
    b: Seq<u8>,
    n: u32,
) -> bool {
    exists|x: &[u8], y: &[u8]| x@ == a && y@ == b && #[trigger] call_ensures(d, (x, y), n)
}

/// How far two signatures are apart.
pub open spec fn distance_of<D: Fn(&[u8], &[u8]) -> u32>(d: D, a: Seq<u8>, b: Seq<u8>) -> u32 {
    choose|n: u32| gives_distance(d, a, b, n)
}

fn distance<D: Fn(&[u8], &[u8]) -> u32>(d: &D, a: &[u8], b: &[u8]) -> (r: u32)
    requires
        measures(*d),
    ensures
        r == distance_of(*d, a@, b@),
{
    let r = d(a, b);
    proof {
        assert(gives_distance(*d, a@, b@, r));
        let n = distance_of(*d, a@, b@);
        assert(gives_distance(*d, a@, b@, n));
    }
    r
}

/// What was chosen so far.
#[verifier::ext_equal]
pub struct Choice {
    /// What tells the results apart that were looked at.
    pub seen: Seq<Seq<char>>,
    /// The signatures of the request and of what was chosen.
    pub signatures: Seq<Seq<u8>>,
    /// The keys of the first artists of what was chosen.
    pub artists: Seq<Seq<char>>,
    pub tracks: Seq<FedTrackView>,
}

/// What tells a track apart: its content, or the owner and the item.
pub open spec fn identity(t: FedTrackView) -> Seq<char> {
    match t.content_id {
        Some(id) => id,
        None => t.owner + seq![':'] + t.item_id,
    }
}

/// The key of the first artist.
pub open spec fn first_artist<F: Fn(&str) -> String>(f: F, t: FedTrackView) -> Seq<char> {
    if t.artist_names.len() > 0 {
        key_of(f, t.artist_names[0])
    } else {
        Seq::empty()
    }
}

pub open spec fn times(s: Seq<Seq<char>>, x: Seq<char>) -> nat
    decreases s.len(),
{
    if s.len() == 0 {
        0
    } else {
        times(s.drop_last(), x) + if s.last() == x {
            1nat
        } else {
            0
        }
    }
}

/// Whether a signature is of the same recording as one of several.
pub open spec fn sounds_known<D: Fn(&[u8], &[u8]) -> u32>(
    d: D,
    known: Seq<Seq<u8>>,
    s: Option<Seq<u8>>,
) -> bool {
    s is Some && exists|i: int|
        0 <= i < known.len() && distance_of(d, s->0, #[trigger] known[i])
            <= MAX_NEAR_DUPLICATE_SIGNATURE_DISTANCE
}

/// How many tracks are chosen at most.
pub open spec fn choice_limit(limit: usize, most: usize) -> int {
    if limit < 1 || most < 1 {
        1
    } else if limit > most {
        most as int
    } else {
        limit as int
    }
}

/// The choice after one more result.
pub open spec fn chosen_step<F: Fn(&str) -> String, D: Fn(&[u8], &[u8]) -> u32>(
    f: F,
    d: D,
    source: Option<Seq<char>>,
    limit: usize,
    most: usize,
    c: Choice,
    h: PeerHitView,
) -> Choice {
    let artist = first_artist(f, h.track);
    if c.tracks.len() >= choice_limit(limit, most) || (source is Some && h.track.content_id == source)
        || c.seen.contains(identity(h.track)) {
        c
    } else {
        let seen = c.seen.push(identity(h.track));
        if sounds_known(d, c.signatures, h.signature) || (artist.len() > 0 && times(c.artists, artist)
            >= MAX_PER_ARTIST) {
            Choice { seen, ..c }
        } else {
            Choice {
                seen,
                signatures: match h.signature {
                    Some(s) => c.signatures.push(s),
                    None => c.signatures,
                },
                artists: c.artists.push(artist),
                tracks: c.tracks.push(h.track),
            }
        }
    }
}

/// What is chosen from results in their order.
pub open spec fn chosen<F: Fn(&str) -> String, D: Fn(&[u8], &[u8]) -> u32>(
    f: F,
    d: D,
    source: Option<Seq<char>>,
    signature: Seq<u8>,
    limit: usize,
    most: usize,
    hits: Seq<PeerHitView>,
) -> Choice
    decreases hits.len(),
{
    if hits.len() == 0 {
        Choice {
            seen: Seq::empty(),
            signatures: seq![signature],
            artists: Seq::empty(),
            tracks: Seq::empty(),
        }
    } else {
        chosen_step(
            f,
            d,
            source,
            limit,
            most,
            chosen(f, d, source, signature, limit, most, hits.drop_last()),
            hits.last(),
        )
    }
}

pub open spec fn signatures_view(s: Seq<Signature>) -> Seq<Seq<u8>> {
    s.map_values(|b: Signature| b@)
}

fn heard<D: Fn(&[u8], &[u8]) -> u32>(
    d: &D,
    known: &Vec<Signature>,
    s: &Option<Signature>,
) -> (r: bool)
    requires
        measures(*d),
    ensures
        r == sounds_known(*d, signatures_view(known@), signature_view(*s)),
{
    let ghost all = signatures_view(known@);
    match s {
        None => false,
        Some(b) => {
            let mut i: usize = 0;
            while i < known.len()
                invariant
                    i <= known@.len(),
                    all == signatures_view(known@),
                    measures(*d),
                    signature_view(*s) == Some(b@),
                    forall|j: int|
                        0 <= j < i ==> distance_of(*d, b@, #[trigger] all[j])
                            > MAX_NEAR_DUPLICATE_SIGNATURE_DISTANCE,
                decreases known@.len() - i,
            {
                proof {
                    assert(all[i as int] == known@[i as int]@);
                }
                if distance(d, b.as_slice(), known[i].as_slice()) <= MAX_NEAR_DUPLICATE_SIGNATURE_DISTANCE {
                    return true;
                }
                i += 1;
            }
            false
        },
    }
}

fn count_text(names: &Vec<String>, x: &str) -> (r: usize)
    ensures
        r == times(views(names@), x@),
{
    let mut n: usize = 0;
    let mut i: usize = 0;
    let ghost all = views(names@);
    proof {
        assert(all.take(0) =~= Seq::empty());
    }
    while i < names.len()
        invariant
            i <= names@.len(),
            all == views(names@),
            n <= i,
            n == times(all.take(i as int), x@),
        decreases names@.len() - i,
    {
        proof {
            assert(all.take(i + 1).drop_last() =~= all.take(i as int));
            assert(all.take(i + 1).last() == names@[i as int]@);
        }
        if same(names[i].as_str(), x) {
            n += 1;
        }
        i += 1;
    }
    proof {
        assert(all.take(names@.len() as int) =~= all);
    }
    n
}

fn identity_text(t: &FedTrack) -> (r: String)
    ensures
        r@ == identity(t@),
{
    match &t.content_id {
        Some(id) => id.clone(),
        None => {
            let mut out = t.owner.clone();
            out.push(':');
            out.append(t.item_id.as_str());
            proof {
                assert(out@ =~= identity(t@));
            }
            out
        },
    }
}

fn artist_key<F: Fn(&str) -> String>(f: &F, t: &FedTrack) -> (r: String)
    requires
        normalizes(*f),
    ensures
        r@ == first_artist(*f, t@),
{
    if t.artist_names.len() > 0 {
        key(f, t.artist_names[0].as_str())
    } else {
        String::new()
    }
}

/// What is chosen among the results of all peers: the best first.
pub open spec fn similar_answer<F: Fn(&str) -> String, D: Fn(&[u8], &[u8]) -> u32>(
    f: F,
    d: D,
    source: Option<Seq<char>>,
    signature: Seq<u8>,
    limit: usize,
    most: usize,
    hits: Seq<PeerHitView>,
    r: FedSearchResults,
) -> bool {
    &&& r.artists@.len() == 0
    &&& viewed(r.tracks@) == chosen(
        f,
        d,
        source,
        signature,
        limit,
        most,
        stable_sorted(hits, score_order()),
    ).tracks
}

/// Chooses among the results of all peers: the best first, each recording
/// once, not the track that was asked about, and few of each artist.
pub fn choose_similar<F: Fn(&str) -> String, D: Fn(&[u8], &[u8]) -> u32>(
    f: &F,
    d: &D,
    source: &Option<String>,
    signature: Signature,
    limit: usize,
    most: usize,
    hits: Vec<PeerHit>,
) -> (r: FedSearchResults)
    requires
        normalizes(*f),
        measures(*d),
    ensures
        similar_answer(
            *f,
            *d,
            opt_view(*source),
            signature@,
            limit,
            most,
            viewed(hits@),
            r,
        ),
{
    let mut rest = hits;
    let leq = |a: &PeerHit, b: &PeerHit| -> (r: bool)
        ensures
            r == hit_order()(*a, *b),
        { rank(a.score) >= rank(b.score) };
    sort_by(&mut rest, leq, Ghost(hit_order()));
    proof {
        lemma_sorted_mapped(hits@, |h: PeerHit| h@, hit_order(), score_order());
    }
    let ghost all = viewed(rest@);
    let size: usize = rest.len();
    let count: usize = if most < 1 {
        1
    } else {
        request_limit(limit, most)
    };
    let mut seen: Vec<String> = Vec::new();
    let mut signatures: Vec<Signature> = Vec::new();
    signatures.push(signature);
    let mut artists: Vec<String> = Vec::new();
    let mut tracks: Vec<FedTrack> = Vec::new();
    let mut i: usize = 0;
    proof {
        assert(all.take(0) =~= Seq::empty());
        assert(all.skip(0) =~= all);
        assert(views(seen@) =~= Seq::empty());
        assert(signatures_view(signatures@) =~= seq![signature@]);
        assert(views(artists@) =~= Seq::empty());
        assert(viewed(tracks@) =~= Seq::empty());
    }
    while i < size
        invariant
            i <= size,
            size == all.len(),
            count == choice_limit(limit, most),
            normalizes(*f),
            measures(*d),
            viewed(rest@) == all.skip(i as int),
            (Choice {
                seen: views(seen@),
                signatures: signatures_view(signatures@),
                artists: views(artists@),
                tracks: viewed(tracks@),
            }) == chosen(*f, *d, opt_view(*source), signature@, limit, most, all.take(i as int)),
        decreases size - i,
    {
        proof {
            assert(viewed(rest@).len() == rest@.len());
            assert(viewed(rest@)[0] == rest@[0]@);
            assert(all.skip(i as int)[0] == all[i as int]);
            assert(all.take(i + 1).drop_last() =~= all.take(i as int));
            assert(all.take(i + 1).last() == all[i as int]);
            assert(viewed(tracks@).len() == tracks@.len());
        }
        let ghost before = rest@;
        let h = rest.remove(0);
        let ghost view = h@;
        proof {
            assert(viewed(rest@) =~= viewed(before).skip(1));
            assert(all.skip(i as int).skip(1) =~= all.skip(i + 1));
        }
        let is_source = match (source, &h.track.content_id) {
            (Some(a), Some(b)) => same(a.as_str(), b.as_str()),
            _ => false,
        };
        if tracks.len() < count && !is_source {
            let k = identity_text(&h.track);
            if !holds_text(&seen, k.as_str()) {
                let ghost s0 = seen@;
                seen.push(k);
                proof {
                    assert(views(seen@) =~= views(s0).push(identity(view.track)));
                }
                let artist = artist_key(f, &h.track);
                if !heard(d, &signatures, &h.signature) && (artist.as_str().is_empty() || count_text(
                    &artists,
                    artist.as_str(),
                ) < MAX_PER_ARTIST) {
                    let ghost a0 = artists@;
                    let ghost t0 = tracks@;
                    let ghost g0 = signatures@;
                    artists.push(artist);
                    if let Some(s) = h.signature {
                        signatures.push(s);
                        proof {
                            assert(signatures_view(signatures@) =~= signatures_view(g0).push(s@));
                        }
                    }
                    tracks.push(h.track);
                    proof {
                        assert(views(artists@) =~= views(a0).push(first_artist(*f, view.track)));
                        assert(viewed(tracks@) =~= viewed(t0).push(view.track));
                    }
                }
            }
        }
        i += 1;
    }
    proof {
        assert(all.take(size as int) =~= all);
    }
    FedSearchResults { artists: Vec::new(), tracks }
}

// ---------------------------------------------------------------------------
// Laws
// ---------------------------------------------------------------------------

/// No more tracks are chosen than the limit, or one where the limit is zero; the
/// one that was asked about is not among them, no two are the same, and none of
/// an artist comes more often than allowed.
pub proof fn law_choice<F: Fn(&str) -> String, D: Fn(&[u8], &[u8]) -> u32>(
    f: F,
    d: D,
    source: Option<Seq<char>>,
    signature: Seq<u8>,
    limit: usize,
    most: usize,
    hits: Seq<PeerHitView>,
)
    ensures
        ({
            let c = chosen(f, d, source, signature, limit, most, hits);
            &&& c.tracks.len() <= choice_limit(limit, most)
            &&& c.artists.len() == c.tracks.len()
            &&& forall|i: int|
                0 <= i < c.tracks.len() ==> {
                    &&& source is Some ==> (#[trigger] c.tracks[i]).content_id != source
                    &&& c.seen.contains(identity(c.tracks[i]))
                    &&& c.artists[i] == first_artist(f, c.tracks[i])
                }
            &&& forall|i: int, j: int|
                0 <= i < j < c.tracks.len() ==> identity(#[trigger] c.tracks[i]) != identity(
                    #[trigger] c.tracks[j],
                )
            &&& forall|a: Seq<char>|
                a.len() > 0 ==> #[trigger] times(c.artists, a) <= MAX_PER_ARTIST
        }),
    decreases hits.len(),
{
    let c = chosen(f, d, source, signature, limit, most, hits);
    if hits.len() > 0 {
        let h = hits.last();
        let b = chosen(f, d, source, signature, limit, most, hits.drop_last());
        law_choice(f, d, source, signature, limit, most, hits.drop_last());
        let id = identity(h.track);
        if c.seen != b.seen {
            assert(c.seen == b.seen.push(id));
            assert(c.seen[b.seen.len() as int] == id);
            assert forall|x: Seq<char>| b.seen.contains(x) implies c.seen.contains(x) by {
                let k = b.seen.index_of(x);
                assert(c.seen[k] == x);
            }
        }
        if c.tracks != b.tracks {
            assert(c.artists.drop_last() =~= b.artists);
            assert forall|a: Seq<char>| a.len() > 0 implies #[trigger] times(c.artists, a)
                <= MAX_PER_ARTIST by {
                assert(times(b.artists, a) <= MAX_PER_ARTIST);
            }
            assert forall|i: int| 0 <= i < c.tracks.len() implies {
                &&& source is Some ==> (#[trigger] c.tracks[i]).content_id != source
                &&& c.seen.contains(identity(c.tracks[i]))
                &&& c.artists[i] == first_artist(f, c.tracks[i])
            } by {
                if i < b.tracks.len() {
                    assert(c.tracks[i] == b.tracks[i]);
                }
            }
            assert forall|i: int, j: int| 0 <= i < j < c.tracks.len() implies identity(
                #[trigger] c.tracks[i],
            ) != identity(#[trigger] c.tracks[j]) by {
                assert(c.tracks[i] == b.tracks[i]);
                if j < b.tracks.len() {
                    assert(c.tracks[j] == b.tracks[j]);
                }
            }
        }
    }
}

} // verus!
