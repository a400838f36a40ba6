//! Searching the network: what peers published, and what was learnt of their
//! tracks since.

use crate::federation::catalog::{put_text, with_text};
use crate::federation::track::{any_key, has_key, FedTrack, FedTrackView};
use crate::library::models::{clone_strings, Seconds};
use crate::lists::{
    find_by, first_where, lemma_first_where, lemma_sorted_mapped, sort_by, stable_sorted, viewed,
};
use crate::names::{key, key_of, normalizes, splits, words, words_of};
use crate::text::{before, opt_view, precedes, same, views};
use vstd::prelude::*;

verus! {

#[derive(Clone, Copy, PartialEq, Eq, Structural, Debug)]
pub enum ItemKind {
    Artist,
    Release,
    Track,
}

/// What a peer published.
#[derive(Debug)]
pub struct NetItem {
    /// The item, in hexadecimal digits.
    pub id: String,
    pub owner: String,
    pub kind: ItemKind,
    pub name: String,
    pub normalized_name: String,
    pub artist_names: Vec<String>,
    pub featured_artist_names: Vec<String>,
    pub year: Option<i32>,
    pub release_type: Option<String>,
    pub release_title: Option<String>,
    pub track_number: Option<i32>,
    pub disc_number: Option<i32>,
    pub duration: Option<Seconds>,
    /// The duration, rounded to whole seconds.
    pub rounded_seconds: Option<i64>,
    pub content_id: Option<String>,
    /// The words that the item is found by.
    pub tokens: Vec<String>,
}

#[verifier::ext_equal]
pub struct NetItemView {
    pub id: Seq<char>,
    pub owner: Seq<char>,
    pub kind: ItemKind,
    pub name: Seq<char>,
    pub normalized_name: Seq<char>,
    pub artist_names: Seq<Seq<char>>,
    pub featured_artist_names: Seq<Seq<char>>,
    pub year: Option<i32>,
    pub release_type: Option<Seq<char>>,
    pub release_title: Option<Seq<char>>,
    pub track_number: Option<i32>,
    pub disc_number: Option<i32>,
    pub duration: Option<Seconds>,
    pub rounded_seconds: Option<i64>,
    pub content_id: Option<Seq<char>>,
    pub tokens: Seq<Seq<char>>,
}

impl View for NetItem {
    type V = NetItemView;

    open spec fn view(&self) -> NetItemView {
        NetItemView {
            id: self.id@,
            owner: self.owner@,
            kind: self.kind,
            name: self.name@,
            normalized_name: self.normalized_name@,
            artist_names: views(self.artist_names@),
            featured_artist_names: views(self.featured_artist_names@),
            year: self.year,
            release_type: opt_view(self.release_type),
            release_title: opt_view(self.release_title),
            track_number: self.track_number,
            disc_number: self.disc_number,
            duration: self.duration,
            rounded_seconds: self.rounded_seconds,
            content_id: opt_view(self.content_id),
            tokens: views(self.tokens@),
        }
    }
}

/// An artist surfaced by federated search: from an artist record, or from the
/// artist names of matching tracks and releases.
#[derive(Debug)]
pub struct FedArtistHit {
    pub name: String,
    /// Distinct peers (other than this instance) holding the artist.
    pub peers: usize,
}

#[verifier::ext_equal]
pub struct ArtistHitView {
    pub name: Seq<char>,
    pub peers: usize,
}

impl View for FedArtistHit {
    type V = ArtistHitView;

    open spec fn view(&self) -> ArtistHitView {
        ArtistHitView { name: self.name@, peers: self.peers }
    }
}

/// Federated search results.
#[derive(Debug)]
pub struct FedSearchResults {
    pub artists: Vec<FedArtistHit>,
    pub tracks: Vec<FedTrack>,
}

/// What was learnt of a track of another peer.
#[derive(Debug)]
pub struct CachedTrackMetadata {
    pub fed: FedTrack,
    pub title: String,
    pub artists: Vec<String>,
    pub featured_artists: Vec<String>,
    pub release_title: Option<String>,
    pub release_type: Option<String>,
    pub year: Option<i32>,
    pub duration: Option<Seconds>,
    /// The duration, rounded to whole seconds.
    pub rounded_seconds: Option<i64>,
    pub track_number: Option<i32>,
    pub disc_number: Option<i32>,
}

#[verifier::ext_equal]
pub struct CachedView {
    pub fed: FedTrackView,
    pub title: Seq<char>,
    pub artists: Seq<Seq<char>>,
    pub featured_artists: Seq<Seq<char>>,
    pub release_title: Option<Seq<char>>,
    pub release_type: Option<Seq<char>>,
    pub year: Option<i32>,
    pub duration: Option<Seconds>,
    pub rounded_seconds: Option<i64>,
    pub track_number: Option<i32>,
    pub disc_number: Option<i32>,
}

impl View for CachedTrackMetadata {
    type V = CachedView;

    open spec fn view(&self) -> CachedView {
        CachedView {
            fed: self.fed@,
            title: self.title@,
            artists: views(self.artists@),
            featured_artists: views(self.featured_artists@),
            release_title: opt_view(self.release_title),
            release_type: opt_view(self.release_type),
            year: self.year,
            duration: self.duration,
            rounded_seconds: self.rounded_seconds,
            track_number: self.track_number,
            disc_number: self.disc_number,
        }
    }
}

/// The track with what was learnt of it.
pub open spec fn cached_track(c: CachedView) -> FedTrackView {
    FedTrackView {
        item_id: c.fed.item_id,
        owner: c.fed.owner,
        own: c.fed.own,
        title: c.title,
        artist_names: c.artists,
        featured_artist_names: c.featured_artists,
        year: c.year,
        duration_seconds: c.rounded_seconds,
        content_id: c.fed.content_id,
        release_title: c.release_title,
        track_number: c.track_number,
        disc_number: c.disc_number,
    }
}

impl CachedTrackMetadata {
    pub fn to_fed_track(&self) -> (r: FedTrack)
        ensures
            r@ == cached_track(self@),
    {
        FedTrack {
            item_id: self.fed.item_id.clone(),
            owner: self.fed.owner.clone(),
            own: self.fed.own,
            title: self.title.clone(),
            artist_names: clone_strings(&self.artists),
            featured_artist_names: clone_strings(&self.featured_artists),
            year: self.year,
            duration_seconds: self.rounded_seconds,
            content_id: self.fed.content_id.clone(),
            release_title: self.release_title.clone(),
            track_number: self.track_number,
            disc_number: self.disc_number,
        }
    }
}

/// A published track.
pub open spec fn item_track(own: Seq<char>, item: NetItemView) -> FedTrackView {
    FedTrackView {
        item_id: item.id,
        owner: item.owner,
        own: item.owner == own,
        title: item.name,
        artist_names: item.artist_names,
        featured_artist_names: item.featured_artist_names,
        year: item.year,
        duration_seconds: item.rounded_seconds,
        content_id: item.content_id,
        release_title: item.release_title,
        track_number: item.track_number,
        disc_number: item.disc_number,
    }
}

/// The track that a published item stands for.
pub fn fed_track_from_item(item: &NetItem, own: &str) -> (r: FedTrack)
    ensures
        r@ == item_track(own@, item@),
{
    FedTrack {
        item_id: item.id.clone(),
        owner: item.owner.clone(),
        own: same(item.owner.as_str(), own),
        title: item.name.clone(),
        artist_names: clone_strings(&item.artist_names),
        featured_artist_names: clone_strings(&item.featured_artist_names),
        year: item.year,
        duration_seconds: item.rounded_seconds,
        content_id: item.content_id.clone(),
        release_title: item.release_title.clone(),
        track_number: item.track_number,
        disc_number: item.disc_number,
    }
}

// ---------------------------------------------------------------------------
// Words
// ---------------------------------------------------------------------------

/// Whether every word is among others.
pub open spec fn all_among(want: Seq<Seq<char>>, have: Seq<Seq<char>>) -> bool {
    forall|i: int| 0 <= i < want.len() ==> have.contains(#[trigger] want[i])
}

pub(crate) fn are_among(want: &Vec<String>, have: &Vec<String>) -> (r: bool)
    ensures
        r == all_among(views(want@), views(have@)),
{
    let ghost w = views(want@);
    let mut i: usize = 0;
    while i < want.len()
        invariant
            i <= want@.len(),
            w == views(want@),
            forall|j: int| 0 <= j < i ==> views(have@).contains(#[trigger] w[j]),
        decreases want@.len() - i,
    {
        proof {
            assert(w[i as int] == want@[i as int]@);
        }
        if !crate::lists::holds_text(have, want[i].as_str()) {
            return false;
        }
        i += 1;
    }
    true
}

/// The words of the keys of several texts.
pub open spec fn words_of_all<F: Fn(&str) -> String, T: Fn(&str) -> Vec<String>>(
    f: F,
    t: T,
    texts: Seq<Seq<char>>,
) -> Seq<Seq<char>>
    decreases texts.len(),
{
    if texts.len() == 0 {
        Seq::empty()
    } else {
        words_of_all(f, t, texts.drop_last()) + words_of(t, key_of(f, texts.last()))
    }
}

pub open spec fn opt_list(t: Option<Seq<char>>) -> Seq<Seq<char>> {
    match t {
        Some(s) => seq![s],
        None => Seq::empty(),
    }
}

/// The words that a track is found by.
pub open spec fn cached_words<F: Fn(&str) -> String, T: Fn(&str) -> Vec<String>>(
    f: F,
    t: T,
    c: CachedView,
) -> Seq<Seq<char>> {
    words_of_all(f, t, seq![c.title] + c.artists + c.featured_artists + opt_list(c.release_title))
}

proof fn lemma_words_of_more<F: Fn(&str) -> String, T: Fn(&str) -> Vec<String>>(
    f: F,
    t: T,
    a: Seq<Seq<char>>,
    b: Seq<Seq<char>>,
)
    ensures
        words_of_all(f, t, a + b) == words_of_all(f, t, a) + words_of_all(f, t, b),
    decreases b.len(),
{
    if b.len() == 0 {
        assert(a + b =~= a);
        assert(words_of_all(f, t, a) + Seq::<Seq<char>>::empty() =~= words_of_all(f, t, a));
    } else {
        lemma_words_of_more(f, t, a, b.drop_last());
        assert((a + b).drop_last() =~= a + b.drop_last());
        let before = words_of_all(f, t, b.drop_last());
        let last = words_of(t, key_of(f, b.last()));
        assert(words_of_all(f, t, a) + (before + last) =~= (words_of_all(f, t, a) + before) + last);
    }
}

proof fn lemma_words_of_one<F: Fn(&str) -> String, T: Fn(&str) -> Vec<String>>(
    f: F,
    t: T,
    text: Seq<char>,
)
    ensures
        words_of_all(f, t, seq![text]) == words_of(t, key_of(f, text)),
{
    let w = words_of(t, key_of(f, text));
    assert(seq![text].drop_last() =~= Seq::<Seq<char>>::empty());
    assert(words_of_all(f, t, Seq::<Seq<char>>::empty()) + w =~= w);
}

fn add_words<F: Fn(&str) -> String, T: Fn(&str) -> Vec<String>>(
    f: &F,
    t: &T,
    out: &mut Vec<String>,
    text: &str,
)
    requires
        normalizes(*f),
        splits(*t),
    ensures
        views(final(out)@) == views(old(out)@) + words_of(*t, key_of(*f, text@)),
{
    let k = key(f, text);
    let mut more = words(t, k.as_str());
    let ghost a = out@;
    let ghost b = more@;
    out.append(&mut more);
    proof {
        assert(views(out@) =~= views(a) + views(b));
    }
}

fn add_all_words<F: Fn(&str) -> String, T: Fn(&str) -> Vec<String>>(
    f: &F,
    t: &T,
    out: &mut Vec<String>,
    texts: &Vec<String>,
)
    requires
        normalizes(*f),
        splits(*t),
    ensures
        views(final(out)@) == views(old(out)@) + words_of_all(*f, *t, views(texts@)),
{
    let ghost start = views(out@);
    let ghost all = views(texts@);
    let mut i: usize = 0;
    proof {
        assert(all.take(0) =~= Seq::empty());
        assert(start + words_of_all(*f, *t, all.take(0)) =~= start);
    }
    while i < texts.len()
        invariant
            i <= texts@.len(),
            all == views(texts@),
            normalizes(*f),
            splits(*t),
            views(out@) == start + words_of_all(*f, *t, all.take(i as int)),
        decreases texts@.len() - i,
    {
        add_words(f, t, out, texts[i].as_str());
        proof {
            assert(all.take(i + 1).drop_last() =~= all.take(i as int));
            assert(all.take(i + 1).last() == texts@[i as int]@);
            assert(start + words_of_all(*f, *t, all.take(i + 1)) =~= (start + words_of_all(
                *f,
                *t,
                all.take(i as int),
            )) + words_of(*t, key_of(*f, texts@[i as int]@)));
        }
        i += 1;
    }
    proof {
        assert(all.take(texts@.len() as int) =~= all);
    }
}

/// The words that a track is found by.
pub fn cached_search_tokens<F: Fn(&str) -> String, T: Fn(&str) -> Vec<String>>(
    f: &F,
    t: &T,
    cached: &CachedTrackMetadata,
) -> (r: Vec<String>)
    requires
        normalizes(*f),
        splits(*t),
    ensures
        views(r@) == cached_words(*f, *t, cached@),
{
    let mut out: Vec<String> = Vec::new();
    add_words(f, t, &mut out, cached.title.as_str());
    add_all_words(f, t, &mut out, &cached.artists);
    add_all_words(f, t, &mut out, &cached.featured_artists);
    let ghost three = views(out@);
    if let Some(title) = &cached.release_title {
        add_words(f, t, &mut out, title.as_str());
    }
    proof {
        let c = cached@;
        let a = seq![c.title];
        let d = opt_list(c.release_title);
        lemma_words_of_one(*f, *t, c.title);
        lemma_words_of_more(*f, *t, a, c.artists);
        lemma_words_of_more(*f, *t, a + c.artists, c.featured_artists);
        lemma_words_of_more(*f, *t, a + c.artists + c.featured_artists, d);
        assert(three =~= words_of_all(*f, *t, a + c.artists + c.featured_artists));
        match c.release_title {
            Some(title) => lemma_words_of_one(*f, *t, title),
            None => {},
        }
        assert(views(out@) =~= words_of_all(*f, *t, a + c.artists + c.featured_artists + d));
    }
    out
}

/// Whether a track is found by a query: by its title, by the title of its
/// release, or by all of the words.
pub open spec fn matches_query<F: Fn(&str) -> String, T: Fn(&str) -> Vec<String>>(
    f: F,
    t: T,
    c: CachedView,
    q: Seq<char>,
) -> bool {
    q.len() > 0 && {
        ||| key_of(f, c.title) == q
        ||| c.release_title is Some && key_of(f, c.release_title->0) == q
        ||| words_of(t, q).len() > 0 && all_among(words_of(t, q), cached_words(f, t, c))
    }
}

pub fn cached_matches_query<F: Fn(&str) -> String, T: Fn(&str) -> Vec<String>>(
    f: &F,
    t: &T,
    cached: &CachedTrackMetadata,
    query: &str,
) -> (r: bool)
    requires
        normalizes(*f),
        splits(*t),
    ensures
        r == matches_query(*f, *t, cached@, query@),
{
    if query.is_empty() {
        return false;
    }
    if same(key(f, cached.title.as_str()).as_str(), query) {
        return true;
    }
    if let Some(title) = &cached.release_title {
        if same(key(f, title.as_str()).as_str(), query) {
            return true;
        }
    }
    let want = words(t, query);
    proof {
        assert(views(want@).len() == want@.len());
    }
    if want.len() == 0 {
        return false;
    }
    let have = cached_search_tokens(f, t, cached);
    are_among(&want, &have)
}

/// Whether an artist is featured on a track.
pub fn cached_has_artist<F: Fn(&str) -> String>(f: &F, cached: &CachedTrackMetadata, artist: &str) -> (r:
    bool)
    requires
        normalizes(*f),
    ensures
        r == has_key(*f, cached@.featured_artists, artist@),
{
    any_key(f, &cached.featured_artists, artist)
}

// ---------------------------------------------------------------------------
// Ranking
// ---------------------------------------------------------------------------

pub open spec fn name_rank<F: Fn(&str) -> String>(f: F, name: Seq<char>, q: Seq<char>) -> u8 {
    if key_of(f, name) == q {
        0
    } else {
        1
    }
}

/// An artist that is named exactly comes first, then one that more peers hold.
pub open spec fn artist_order<F: Fn(&str) -> String>(f: F, q: Seq<char>) -> spec_fn(
    ArtistHitView,
    ArtistHitView,
) -> bool {
    |a: ArtistHitView, b: ArtistHitView|
        if name_rank(f, a.name, q) != name_rank(f, b.name, q) {
            name_rank(f, a.name, q) < name_rank(f, b.name, q)
        } else if a.peers != b.peers {
            a.peers > b.peers
        } else {
            !precedes(b.name, a.name)
        }
}

/// How well a track matches: by its title, by its release, by an artist, or in
/// another way.
pub open spec fn track_rank<F: Fn(&str) -> String>(f: F, t: FedTrackView, q: Seq<char>) -> u8 {
    if key_of(f, t.title) == q {
        0
    } else if t.release_title is Some && key_of(f, t.release_title->0) == q {
        1
    } else if has_key(f, t.artist_names, q) || has_key(f, t.featured_artist_names, q) {
        2
    } else {
        3
    }
}

pub open spec fn rank_order<F: Fn(&str) -> String>(f: F, q: Seq<char>) -> spec_fn(
    FedTrackView,
    FedTrackView,
) -> bool {
    |a: FedTrackView, b: FedTrackView| track_rank(f, a, q) <= track_rank(f, b, q)
}

pub open spec fn hit_artist_order<F: Fn(&str) -> String>(f: F, q: Seq<char>) -> spec_fn(
    FedArtistHit,
    FedArtistHit,
) -> bool {
    |a: FedArtistHit, b: FedArtistHit| artist_order(f, q)(a@, b@)
}

pub open spec fn hit_rank_order<F: Fn(&str) -> String>(f: F, q: Seq<char>) -> spec_fn(
    FedTrack,
    FedTrack,
) -> bool {
    |a: FedTrack, b: FedTrack| rank_order(f, q)(a@, b@)
}

pub fn exact_match_rank<F: Fn(&str) -> String>(f: &F, value: &str, query: &str) -> (r: u8)
    requires
        normalizes(*f),
    ensures
        r == name_rank(*f, value@, query@),
{
    if same(key(f, value).as_str(), query) {
        0
    } else {
        1
    }
}

pub fn fed_track_match_rank<F: Fn(&str) -> String>(f: &F, track: &FedTrack, query: &str) -> (r: u8)
    requires
        normalizes(*f),
    ensures
        r == track_rank(*f, track@, query@),
{
    if same(key(f, track.title.as_str()).as_str(), query) {
        return 0;
    }
    if let Some(t) = &track.release_title {
        if same(key(f, t.as_str()).as_str(), query) {
            return 1;
        }
    }
    if any_key(f, &track.artist_names, query) || any_key(f, &track.featured_artist_names, query) {
        2
    } else {
        3
    }
}

/// Sorts search results by how well they match a query, which is given by its
/// key.
pub fn rank_fed_search_results<F: Fn(&str) -> String>(
    f: &F,
    artists: &mut Vec<FedArtistHit>,
    tracks: &mut Vec<FedTrack>,
    query: &str,
)
    requires
        normalizes(*f),
    ensures
        viewed(final(artists)@) == stable_sorted(viewed(old(artists)@), artist_order(*f, query@)),
        viewed(final(tracks)@) == stable_sorted(viewed(old(tracks)@), rank_order(*f, query@)),
{
    let ghost a0 = artists@;
    let ghost t0 = tracks@;
    let by_name = |a: &FedArtistHit, b: &FedArtistHit| -> (r: bool)
        ensures
            r == hit_artist_order(*f, query@)(*a, *b),
        {
            let x = exact_match_rank(f, a.name.as_str(), query);
            let y = exact_match_rank(f, b.name.as_str(), query);
            if x != y {
                x < y
            } else if a.peers != b.peers {
                a.peers > b.peers
            } else {
                !before(b.name.as_str(), a.name.as_str())
            }
        };
    sort_by(artists, by_name, Ghost(hit_artist_order(*f, query@)));
    let by_rank = |a: &FedTrack, b: &FedTrack| -> (r: bool)
        ensures
            r == hit_rank_order(*f, query@)(*a, *b),
        { fed_track_match_rank(f, a, query) <= fed_track_match_rank(f, b, query) };
    sort_by(tracks, by_rank, Ghost(hit_rank_order(*f, query@)));
    proof {
        lemma_sorted_mapped(
            a0,
            |a: FedArtistHit| a@,
            hit_artist_order(*f, query@),
            artist_order(*f, query@),
        );
        lemma_sorted_mapped(
            t0,
            |a: FedTrack| a@,
            hit_rank_order(*f, query@),
            rank_order(*f, query@),
        );
    }
}

// ---------------------------------------------------------------------------
// Searching
// ---------------------------------------------------------------------------

/// An artist that was found, and the peers that hold it.
#[verifier::ext_equal]
pub struct Found {
    pub key: Seq<char>,
    pub name: Seq<char>,
    pub owners: Seq<Seq<char>>,
}

pub struct FoundArtist {
    pub key: String,
    pub name: String,
    pub owners: Vec<String>,
}

impl View for FoundArtist {
    type V = Found;

    open spec fn view(&self) -> Found {
        Found { key: self.key@, name: self.name@, owners: views(self.owners@) }
    }
}

pub open spec fn is_found(k: Seq<char>) -> spec_fn(Found) -> bool {
    |a: Found| a.key == k
}

/// The artists with one more name that a peer uses. The name under which an
/// artist came first is shown.
pub open spec fn noted<F: Fn(&str) -> String>(
    f: F,
    s: Seq<Found>,
    name: Seq<char>,
    owner: Seq<char>,
) -> Seq<Found> {
    let k = key_of(f, name);
    if k.len() == 0 {
        s
    } else {
        match first_where(s, is_found(k)) {
            Some(i) => s.update(i, Found { owners: with_text(s[i].owners, owner), ..s[i] }),
            None => s.push(Found { key: k, name, owners: seq![owner] }),
        }
    }
}

pub open spec fn noted_all<F: Fn(&str) -> String>(
    f: F,
    s: Seq<Found>,
    names: Seq<Seq<char>>,
    owner: Seq<char>,
) -> Seq<Found>
    decreases names.len(),
{
    if names.len() == 0 {
        s
    } else {
        noted(f, noted_all(f, s, names.drop_last(), owner), names.last(), owner)
    }
}

/// The artists with those of an item of another peer.
pub open spec fn noted_item<F: Fn(&str) -> String>(
    f: F,
    s: Seq<Found>,
    own: Seq<char>,
    item: NetItemView,
) -> Seq<Found> {
    if item.owner == own {
        s
    } else {
        let named = if item.kind is Artist {
            noted(f, s, item.name, item.owner)
        } else {
            s
        };
        noted_all(
            f,
            noted_all(f, named, item.artist_names, item.owner),
            item.featured_artist_names,
            item.owner,
        )
    }
}

/// What a search has found.
#[verifier::ext_equal]
pub struct Hits {
    pub artists: Seq<Found>,
    pub tracks: Seq<FedTrackView>,
}

/// The hits with a published item.
pub open spec fn hits_with_item<F: Fn(&str) -> String>(
    f: F,
    h: Hits,
    own: Seq<char>,
    item: NetItemView,
) -> Hits {
    Hits {
        artists: noted_item(f, h.artists, own, item),
        tracks: if item.kind is Track {
            h.tracks.push(item_track(own, item))
        } else {
            h.tracks
        },
    }
}

pub open spec fn hits_of_items<F: Fn(&str) -> String>(f: F, own: Seq<char>, items: Seq<NetItemView>) -> Hits
    decreases items.len(),
{
    if items.len() == 0 {
        Hits { artists: Seq::empty(), tracks: Seq::empty() }
    } else {
        hits_with_item(f, hits_of_items(f, own, items.drop_last()), own, items.last())
    }
}

pub open spec fn is_item(owner: Seq<char>, item: Seq<char>) -> spec_fn(FedTrackView) -> bool {
    |t: FedTrackView| t.owner == owner && t.item_id == item
}

/// The hits with a track of which more was learnt, where it matches.
pub open spec fn hits_with_cached<F: Fn(&str) -> String, T: Fn(&str) -> Vec<String>>(
    f: F,
    t: T,
    h: Hits,
    q: Seq<char>,
    c: CachedView,
) -> Hits {
    if !matches_query(f, t, c, q) {
        h
    } else {
        Hits {
            artists: if c.fed.own {
                h.artists
            } else {
                noted_all(f, h.artists, c.featured_artists, c.fed.owner)
            },
            tracks: if first_where(h.tracks, is_item(c.fed.owner, c.fed.item_id)) is Some {
                h.tracks
            } else {
                h.tracks.push(cached_track(c))
            },
        }
    }
}

pub open spec fn all_hits<F: Fn(&str) -> String, T: Fn(&str) -> Vec<String>>(
    f: F,
    t: T,
    q: Seq<char>,
    own: Seq<char>,
    items: Seq<NetItemView>,
    cached: Seq<CachedView>,
) -> Hits
    decreases cached.len(),
{
    if cached.len() == 0 {
        hits_of_items(f, own, items)
    } else {
        hits_with_cached(f, t, all_hits(f, t, q, own, items, cached.drop_last()), q, cached.last())
    }
}

pub open spec fn shown_artist(a: Found) -> ArtistHitView {
    ArtistHitView { name: a.name, peers: a.owners.len() as usize }
}

fn note<F: Fn(&str) -> String>(f: &F, artists: &mut Vec<FoundArtist>, name: &str, owner: &str)
    requires
        normalizes(*f),
    ensures
        viewed(final(artists)@) == noted(*f, viewed(old(artists)@), name@, owner@),
{
    let k = key(f, name);
    if k.as_str().is_empty() {
        return;
    }
    let ghost start = artists@;
    let ghost p = is_found(k@);
    let mut i: usize = 0;
    while i < artists.len()
        invariant
            i <= artists@.len(),
            artists@ == start,
            start == old(artists)@,
            p == is_found(k@),
            k@ == key_of(*f, name@),
            k@.len() > 0,
            forall|j: int| 0 <= j < i ==> !p(#[trigger] viewed(start)[j]),
        decreases artists@.len() - i,
    {
        if same(artists[i].key.as_str(), k.as_str()) {
            proof {
                lemma_first_where(viewed(start), p);
                assert(p(viewed(start)[i as int]));
            }
            put_text(&mut artists[i].owners, owner);
            proof {
                let a = viewed(start)[i as int];
                assert(viewed(artists@) =~= viewed(start).update(
                    i as int,
                    Found { owners: with_text(a.owners, owner@), ..a },
                ));
            }
            return;
        }
        i += 1;
    }
    proof {
        lemma_first_where(viewed(start), p);
    }
    let mut owners: Vec<String> = Vec::new();
    owners.push(owner.to_owned());
    proof {
        assert(views(owners@) =~= seq![owner@]);
    }
    artists.push(FoundArtist { key: k, name: name.to_owned(), owners });
    proof {
        assert(viewed(artists@) =~= viewed(start).push(
            Found { key: key_of(*f, name@), name: name@, owners: seq![owner@] },
        ));
    }
}

fn note_all<F: Fn(&str) -> String>(
    f: &F,
    artists: &mut Vec<FoundArtist>,
    names: &Vec<String>,
    owner: &str,
)
    requires
        normalizes(*f),
    ensures
        viewed(final(artists)@) == noted_all(*f, viewed(old(artists)@), views(names@), owner@),
{
    let ghost start = viewed(artists@);
    let ghost all = views(names@);
    let mut i: usize = 0;
    proof {
        assert(all.take(0) =~= Seq::empty());
    }
    while i < names.len()
        invariant
            i <= names@.len(),
            all == views(names@),
            normalizes(*f),
            viewed(artists@) == noted_all(*f, start, all.take(i as int), owner@),
        decreases names@.len() - i,
    {
        note(f, artists, names[i].as_str(), owner);
        proof {
            assert(all.take(i + 1).drop_last() =~= all.take(i as int));
            assert(all.take(i + 1).last() == names@[i as int]@);
        }
        i += 1;
    }
    proof {
        assert(all.take(names@.len() as int) =~= all);
    }
}

pub open spec fn is_fed_item(owner: Seq<char>, item: Seq<char>) -> spec_fn(FedTrack) -> bool {
    |t: FedTrack| t.owner@ == owner && t.item_id@ == item
}

fn has_item(tracks: &Vec<FedTrack>, owner: &str, item: &str) -> (r: bool)
    ensures
        r == (first_where(viewed(tracks@), is_item(owner@, item@)) is Some),
{
    let g = |t: &FedTrack| -> (b: bool)
        ensures
            b == is_fed_item(owner@, item@)(*t),
        { same(t.owner.as_str(), owner) && same(t.item_id.as_str(), item) };
    let found = find_by(tracks, g, Ghost(is_fed_item(owner@, item@)));
    proof {
        crate::lists::lemma_first_mapped(
            tracks@,
            |t: FedTrack| t@,
            is_fed_item(owner@, item@),
            is_item(owner@, item@),
        );
    }
    found.is_some()
}

fn search_items<F: Fn(&str) -> String>(
    f: &F,
    own: &str,
    items: &Vec<NetItem>,
    artists: &mut Vec<FoundArtist>,
    tracks: &mut Vec<FedTrack>,
)
    requires
        normalizes(*f),
        old(artists)@.len() == 0,
        old(tracks)@.len() == 0,
    ensures
        (Hits { artists: viewed(final(artists)@), tracks: viewed(final(tracks)@) })
            == hits_of_items(*f, own@, viewed(items@)),
{
    let ghost all = viewed(items@);
    let mut i: usize = 0;
    proof {
        assert(all.take(0) =~= Seq::empty());
        assert(viewed(artists@) =~= Seq::empty());
        assert(viewed(tracks@) =~= Seq::empty());
    }
    while i < items.len()
        invariant
            i <= items@.len(),
            all == viewed(items@),
            normalizes(*f),
            (Hits { artists: viewed(artists@), tracks: viewed(tracks@) }) == hits_of_items(
                *f,
                own@,
                all.take(i as int),
            ),
        decreases items@.len() - i,
    {
        proof {
            assert(all.take(i + 1).drop_last() =~= all.take(i as int));
            assert(all.take(i + 1).last() == items@[i as int]@);
        }
        let item = &items[i];
        if item.kind == ItemKind::Track {
            let ghost before = tracks@;
            tracks.push(fed_track_from_item(item, own));
            proof {
                assert(viewed(tracks@) =~= viewed(before).push(item_track(own@, item@)));
            }
        }
        if !same(item.owner.as_str(), own) {
            if item.kind == ItemKind::Artist {
                note(f, artists, item.name.as_str(), item.owner.as_str());
            }
            note_all(f, artists, &item.artist_names, item.owner.as_str());
            note_all(f, artists, &item.featured_artist_names, item.owner.as_str());
        }
        i += 1;
    }
    proof {
        assert(all.take(items@.len() as int) =~= all);
    }
}

/// The answer to a search of the network.
pub open spec fn network_answer<F: Fn(&str) -> String, T: Fn(&str) -> Vec<String>>(
    f: F,
    t: T,
    query: Seq<char>,
    own: Seq<char>,
    items: Seq<NetItemView>,
    cached: Seq<CachedView>,
    r: FedSearchResults,
) -> bool {
    let q = key_of(f, query);
    let h = all_hits(f, t, q, own, items, cached);
    &&& viewed(r.artists@) == stable_sorted(
        h.artists.map_values(|a: Found| shown_artist(a)),
        artist_order(f, q),
    )
    &&& viewed(r.tracks@) == stable_sorted(h.tracks, rank_order(f, q))
}

/// Puts the answer to a search together: the matching tracks and the artists
/// for which there is a card, from what peers published and from what was
/// learnt of their tracks.
pub fn search<F: Fn(&str) -> String, T: Fn(&str) -> Vec<String>>(
    f: &F,
    t: &T,
    query: &str,
    own: &str,
    items: &Vec<NetItem>,
    cached: &Vec<CachedTrackMetadata>,
) -> (r: FedSearchResults)
    requires
        normalizes(*f),
        splits(*t),
    ensures
        network_answer(*f, *t, query@, own@, viewed(items@), viewed(cached@), r),
{
    let q = key(f, query);
    let mut found: Vec<FoundArtist> = Vec::new();
    let mut tracks: Vec<FedTrack> = Vec::new();
    search_items(f, own, items, &mut found, &mut tracks);
    let ghost all = viewed(cached@);
    let ghost published = viewed(items@);
    let mut i: usize = 0;
    proof {
        assert(all.take(0) =~= Seq::empty());
    }
    while i < cached.len()
        invariant
            i <= cached@.len(),
            all == viewed(cached@),
            normalizes(*f),
            splits(*t),
            (Hits { artists: viewed(found@), tracks: viewed(tracks@) }) == all_hits(
                *f,
                *t,
                q@,
                own@,
                published,
                all.take(i as int),
            ),
        decreases cached@.len() - i,
    {
        proof {
            assert(all.take(i + 1).drop_last() =~= all.take(i as int));
            assert(all.take(i + 1).last() == cached@[i as int]@);
        }
        let c = &cached[i];
        if cached_matches_query(f, t, c, q.as_str()) {
            if !has_item(&tracks, c.fed.owner.as_str(), c.fed.item_id.as_str()) {
                let ghost before = tracks@;
                tracks.push(c.to_fed_track());
                proof {
                    assert(viewed(tracks@) =~= viewed(before).push(cached_track(c@)));
                }
            }
            if !c.fed.own {
                note_all(f, &mut found, &c.featured_artists, c.fed.owner.as_str());
            }
        }
        i += 1;
    }
    let ghost h = all_hits(*f, *t, q@, own@, published, all);
    proof {
        assert(all.take(cached@.len() as int) =~= all);
    }
    let mut artists: Vec<FedArtistHit> = Vec::new();
    let mut j: usize = 0;
    while j < found.len()
        invariant
            j <= found@.len(),
            artists@.len() == j,
            viewed(found@) == h.artists,
            forall|k: int|
                0 <= k < j ==> (#[trigger] artists@[k])@ == shown_artist(h.artists[k]),
        decreases found@.len() - j,
    {
        proof {
            assert(h.artists[j as int] == found@[j as int]@);
            assert(views(found@[j as int].owners@).len() == found@[j as int].owners@.len());
        }
        artists.push(
            FedArtistHit { name: found[j].name.clone(), peers: found[j].owners.len() },
        );
        j += 1;
    }
    proof {
        assert(viewed(artists@) =~= h.artists.map_values(|a: Found| shown_artist(a)));
    }
    rank_fed_search_results(f, &mut artists, &mut tracks, q.as_str());
    FedSearchResults { artists, tracks }
}

} // verus!
