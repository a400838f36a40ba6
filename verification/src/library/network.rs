//! What peers tell each other of their artists, and the images of artists.

use crate::library::artists::{
    by_size, drop_first, from_offset, is_used, sort_cards, uses, LibraryFilters, NetworkView,
};
use crate::library::edit::{artist_place, place_of_artist, row_is_artist};
use crate::library::listing::{
    artist_row, local_cards, ArtistCardView,
};
use crate::library::tables::{ArtistRow, ArtistView, Library, NetworkRow, ReleaseRow, TrackCredit};
use crate::lists::{
    at_most, find_by, first_where, holds_text, lemma_first_mapped, limit_to, picked, select_by,
    sort_places, stable_sorted, viewed,
};
use crate::names::{key, key_of, normalizes};
use crate::text::{
    blank, decimal, decimal_text, is_blank, opt_view, same, trim, trimmed, views,
};
use vstd::prelude::*;

verus! {

/// What one peer tells of an artist.
#[derive(Debug)]
pub struct NetworkArtistPreview {
    pub artist_key: String,
    pub name: String,
    pub image_path: Option<String>,
    pub release_count: i64,
    pub track_count: i64,
}

#[verifier::ext_equal]
pub struct PreviewView {
    pub artist_key: Seq<char>,
    pub name: Seq<char>,
    pub image_path: Option<Seq<char>>,
    pub release_count: i64,
    pub track_count: i64,
}

impl View for NetworkArtistPreview {
    type V = PreviewView;

    open spec fn view(&self) -> PreviewView {
        PreviewView {
            artist_key: self.artist_key@,
            name: self.name@,
            image_path: opt_view(self.image_path),
            release_count: self.release_count,
            track_count: self.track_count,
        }
    }
}

/// An image of an artist that a peer has.
#[derive(Debug)]
pub struct NetworkArtistImageRequest {
    pub source_id: String,
    pub artist_key: String,
    pub name: String,
}

#[verifier::ext_equal]
pub struct RequestView {
    pub source_id: Seq<char>,
    pub artist_key: Seq<char>,
    pub name: Seq<char>,
}

impl View for NetworkArtistImageRequest {
    type V = RequestView;

    open spec fn view(&self) -> RequestView {
        RequestView {
            source_id: self.source_id@,
            artist_key: self.artist_key@,
            name: self.name@,
        }
    }
}

// ---------------------------------------------------------------------------
// Telling
// ---------------------------------------------------------------------------

pub open spec fn credits_artist(id: i64) -> spec_fn(TrackCredit) -> bool {
    |c: TrackCredit| c.artist_id == id
}

/// The artists that are credited on a track.
pub open spec fn is_on_a_track(credits: Seq<TrackCredit>) -> spec_fn(ArtistRow) -> bool {
    |a: ArtistRow| first_where(credits, credits_artist(a.id)) is Some
}

/// The cards of the artists that are told of, from an offset on.
pub open spec fn told_cards(lib: Library, offset: int) -> Seq<ArtistCardView> {
    from_offset(
        stable_sorted(
            local_cards(lib, lib.artists@.filter(is_on_a_track(lib.track_artists@))),
            by_size(),
        ),
        offset,
    )
}

pub open spec fn preview_of<F: Fn(&str) -> String>(f: F, c: ArtistCardView) -> PreviewView {
    PreviewView {
        artist_key: key_of(f, c.name),
        name: c.name,
        image_path: c.image_path,
        release_count: c.release_count,
        track_count: c.track_count,
    }
}

/// What is told of several artists; those without a key or a track are left
/// out.
pub open spec fn previews_of<F: Fn(&str) -> String>(f: F, cards: Seq<ArtistCardView>) -> Seq<PreviewView>
    decreases cards.len(),
{
    if cards.len() == 0 {
        Seq::empty()
    } else {
        let before = previews_of(f, cards.drop_last());
        if key_of(f, cards.last().name).len() > 0 && cards.last().track_count > 0 {
            before.push(preview_of(f, cards.last()))
        } else {
            before
        }
    }
}

fn is_track_artist(credits: &Vec<TrackCredit>, id: i64) -> (r: bool)
    ensures
        r == (first_where(credits@, credits_artist(id)) is Some),
{
    let f = |c: &TrackCredit| -> (b: bool)
        ensures
            b == credits_artist(id)(*c),
        { c.artist_id == id };
    find_by(credits, f, Ghost(credits_artist(id))).is_some()
}

/// A part of the artists as they are told to peers, and where the next part
/// starts.
pub open spec fn tells_artists<F: Fn(&str) -> String>(
    f: F,
    lib: Library,
    offset: usize,
    limit: usize,
    r: (Vec<NetworkArtistPreview>, Option<String>),
) -> bool {
    let all = told_cards(lib, offset as int);
    &&& viewed(r.0@) == previews_of(f, at_most(all, limit as int))
    &&& opt_view(r.1) == if all.len() > limit {
        Some(decimal((offset + r.0@.len()) as nat))
    } else {
        None
    }
}

impl Library {
    /// A part of the artists as they are told to peers, and where the next
    /// part starts.
    pub fn artist_preview_slice<F: Fn(&str) -> String>(&self, f: &F, offset: usize, limit: usize) -> (r: (
        Vec<NetworkArtistPreview>,
        Option<String>,
    ))
        requires
            normalizes(*f),
            offset + limit < i64::MAX,
        ensures
            tells_artists(*f, *self, offset, limit, r),
    {
        let credits = &self.track_artists;
        let g = |a: &ArtistRow| -> (b: bool)
            ensures
                b == is_on_a_track(credits@)(*a),
            { is_track_artist(credits, a.id) };
        let at = select_by(&self.artists, g, Ghost(is_on_a_track(credits@)));
        let mut cards = self.artist_cards_at(&at);
        sort_cards(&mut cards);
        let ghost sorted = cards@;
        drop_first(&mut cards, offset as i64);
        let ghost all = viewed(cards@);
        proof {
            assert(all =~= from_offset(viewed(sorted), offset as int));
            assert(all == told_cards(*self, offset as int));
            assert(all.len() == cards@.len());
        }
        let has_more = cards.len() > limit;
        limit_to(&mut cards, limit as i64);
        let ghost shown = viewed(cards@);
        proof {
            assert(shown =~= at_most(all, limit as int));
        }
        let mut items: Vec<NetworkArtistPreview> = Vec::new();
        let mut i: usize = 0;
        proof {
            assert(shown.take(0) =~= Seq::empty());
            assert(viewed(items@) =~= Seq::empty());
        }
        while i < cards.len()
            invariant
                i <= cards@.len(),
                cards@.len() <= limit,
                items@.len() <= i,
                shown == viewed(cards@),
                normalizes(*f),
                viewed(items@) == previews_of(*f, shown.take(i as int)),
            decreases cards@.len() - i,
        {
            proof {
                assert(shown.take(i + 1).drop_last() =~= shown.take(i as int));
                assert(shown.take(i + 1).last() == cards@[i as int]@);
            }
            let c = &cards[i];
            let artist_key = key(f, c.name.as_str());
            if !artist_key.as_str().is_empty() && c.track_count > 0 {
                let ghost before = items@;
                items.push(
                    NetworkArtistPreview {
                        artist_key,
                        name: c.name.clone(),
                        image_path: c.image_path.clone(),
                        release_count: c.release_count,
                        track_count: c.track_count,
                    },
                );
                proof {
                    assert(viewed(items@) =~= viewed(before).push(preview_of(*f, c@)));
                }
            }
            i += 1;
        }
        proof {
            assert(shown.take(cards@.len() as int) =~= shown);
        }
        let next = if has_more {
            Some(decimal_text(offset as u64 + items.len() as u64))
        } else {
            None
        };
        (items, next)
    }
}

// ---------------------------------------------------------------------------
// Being told
// ---------------------------------------------------------------------------

/// The key of an artist that a peer tells of.
pub open spec fn told_key<F: Fn(&str) -> String>(f: F, p: PreviewView) -> Seq<char> {
    if is_blank(p.artist_key) {
        key_of(f, p.name)
    } else {
        p.artist_key
    }
}

pub open spec fn is_word(source_id: Seq<char>, artist_key: Seq<char>) -> spec_fn(NetworkView) -> bool {
    |r: NetworkView| r.source_id == source_id && r.artist_key == artist_key
}

pub open spec fn not_negative(n: i64) -> i64 {
    if n > 0 {
        n
    } else {
        0
    }
}

/// What is kept of a peer's word. An image that was fetched stays.
pub open spec fn word_of<F: Fn(&str) -> String>(
    f: F,
    source_id: Seq<char>,
    source_kind: Seq<char>,
    p: PreviewView,
    image_path: Option<Seq<char>>,
    now_ms: i64,
) -> NetworkView {
    NetworkView {
        source_id,
        source_kind,
        artist_key: told_key(f, p),
        name: trimmed(p.name),
        image_path,
        remote_image_hint: p.image_path,
        release_count: not_negative(p.release_count),
        track_count: not_negative(p.track_count),
        seen_at_ms: now_ms,
    }
}

/// Whether a peer's word is kept.
pub open spec fn is_kept<F: Fn(&str) -> String>(f: F, p: PreviewView) -> bool {
    told_key(f, p).len() > 0 && p.track_count > 0
}

pub open spec fn with_preview<F: Fn(&str) -> String>(
    f: F,
    s: Seq<NetworkView>,
    source_id: Seq<char>,
    source_kind: Seq<char>,
    p: PreviewView,
    now_ms: i64,
) -> Seq<NetworkView> {
    if !is_kept(f, p) {
        s
    } else {
        match first_where(s, is_word(source_id, told_key(f, p))) {
            Some(i) => s.update(
                i,
                word_of(f, source_id, source_kind, p, s[i].image_path, now_ms),
            ),
            None => s.push(word_of(f, source_id, source_kind, p, None, now_ms)),
        }
    }
}

pub open spec fn with_previews<F: Fn(&str) -> String>(
    f: F,
    s: Seq<NetworkView>,
    source_id: Seq<char>,
    source_kind: Seq<char>,
    previews: Seq<PreviewView>,
    now_ms: i64,
) -> Seq<NetworkView>
    decreases previews.len(),
{
    if previews.len() == 0 {
        s
    } else {
        with_preview(
            f,
            with_previews(f, s, source_id, source_kind, previews.drop_last(), now_ms),
            source_id,
            source_kind,
            previews.last(),
            now_ms,
        )
    }
}

/// How many words are kept.
pub open spec fn kept_count<F: Fn(&str) -> String>(f: F, previews: Seq<PreviewView>) -> nat
    decreases previews.len(),
{
    if previews.len() == 0 {
        0
    } else {
        kept_count(f, previews.drop_last()) + if is_kept(f, previews.last()) {
            1nat
        } else {
            0
        }
    }
}

pub open spec fn row_is_word(source_id: Seq<char>, artist_key: Seq<char>) -> spec_fn(NetworkRow) -> bool {
    |r: NetworkRow| r.source_id@ == source_id && r.artist_key@ == artist_key
}

fn place_of_word(rows: &Vec<NetworkRow>, source_id: &str, artist_key: &str) -> (r: Option<usize>)
    ensures
        match r {
            Some(i) => first_where(viewed(rows@), is_word(source_id@, artist_key@)) == Some(
                i as int,
            ) && i < rows@.len(),
            None => first_where(viewed(rows@), is_word(source_id@, artist_key@)) is None,
        },
{
    let f = |r: &NetworkRow| -> (b: bool)
        ensures
            b == row_is_word(source_id@, artist_key@)(*r),
        { same(r.source_id.as_str(), source_id) && same(r.artist_key.as_str(), artist_key) };
    let found = find_by(rows, f, Ghost(row_is_word(source_id@, artist_key@)));
    proof {
        lemma_first_mapped(
            rows@,
            |r: NetworkRow| r@,
            row_is_word(source_id@, artist_key@),
            is_word(source_id@, artist_key@),
        );
    }
    found
}

fn at_least_zero(n: i64) -> (r: i64)
    ensures
        r == not_negative(n),
{
    if n > 0 {
        n
    } else {
        0
    }
}

fn put_preview<F: Fn(&str) -> String>(
    f: &F,
    rows: &mut Vec<NetworkRow>,
    source_id: &str,
    source_kind: &str,
    p: &NetworkArtistPreview,
    now_ms: i64,
) -> (r: bool)
    requires
        normalizes(*f),
    ensures
        viewed(final(rows)@) == with_preview(
            *f,
            viewed(old(rows)@),
            source_id@,
            source_kind@,
            p@,
            now_ms,
        ),
        r == is_kept(*f, p@),
{
    let artist_key = if blank(p.artist_key.as_str()) {
        key(f, p.name.as_str())
    } else {
        p.artist_key.clone()
    };
    if artist_key.as_str().is_empty() || p.track_count <= 0 {
        return false;
    }
    let ghost start = rows@;
    let place = place_of_word(rows, source_id, artist_key.as_str());
    let image_path = match place {
        Some(i) => rows[i].image_path.clone(),
        None => None,
    };
    let row = NetworkRow {
        source_id: source_id.to_owned(),
        source_kind: source_kind.to_owned(),
        artist_key,
        name: trim(p.name.as_str()),
        image_path,
        remote_image_hint: p.image_path.clone(),
        release_count: at_least_zero(p.release_count),
        track_count: at_least_zero(p.track_count),
        seen_at_ms: now_ms,
    };
    let ghost v = row@;
    match place {
        Some(i) => {
            rows[i] = row;
            proof {
                assert(viewed(rows@) =~= viewed(start).update(i as int, v));
            }
        },
        None => {
            rows.push(row);
            proof {
                assert(viewed(rows@) =~= viewed(start).push(v));
            }
        },
    }
    true
}

/// What keeping the word of a peer on its artists changes.
pub open spec fn hears_artists<F: Fn(&str) -> String>(
    f: F,
    a: Library,
    b: Library,
    source_id: Seq<char>,
    source_kind: Seq<char>,
    artists: Seq<PreviewView>,
    now_ms: i64,
    r: usize,
) -> bool {
    if is_blank(source_id) || is_blank(source_kind) {
        r == 0 && b == a
    } else {
        &&& r == kept_count(f, artists)
        &&& viewed(b.network@) == with_previews(
            f,
            viewed(a.network@),
            trimmed(source_id),
            trimmed(source_kind),
            artists,
            now_ms,
        )
        &&& (Library { network: a.network, ..b }) == a
    }
}

impl Library {
    /// Keeps what a peer tells of its artists, and gives of how many it was.
    /// A peer without an id or a kind is not heard.
    pub fn replace_network_artist_cache<F: Fn(&str) -> String>(
        &mut self,
        f: &F,
        source_id: &str,
        source_kind: &str,
        artists: &Vec<NetworkArtistPreview>,
        now_ms: i64,
    ) -> (r: usize)
        requires
            normalizes(*f),
        ensures
            hears_artists(
                *f,
                *old(self),
                *final(self),
                source_id@,
                source_kind@,
                viewed(artists@),
                now_ms,
                r,
            ),
    {
        let id = trim(source_id);
        let kind = trim(source_kind);
        if id.as_str().is_empty() || kind.as_str().is_empty() {
            return 0;
        }
        let ghost start = viewed(self.network@);
        let ghost whole = *self;
        let ghost all = viewed(artists@);
        let mut n: usize = 0;
        let mut i: usize = 0;
        proof {
            assert(all.take(0) =~= Seq::empty());
        }
        while i < artists.len()
            invariant
                i <= artists@.len(),
                n <= i,
                all == viewed(artists@),
                normalizes(*f),
                (Library { network: whole.network, ..*self }) == whole,
                n == kept_count(*f, all.take(i as int)),
                viewed(self.network@) == with_previews(
                    *f,
                    start,
                    id@,
                    kind@,
                    all.take(i as int),
                    now_ms,
                ),
            decreases artists@.len() - i,
        {
            proof {
                assert(all.take(i + 1).drop_last() =~= all.take(i as int));
                assert(all.take(i + 1).last() == artists@[i as int]@);
            }
            if put_preview(f, &mut self.network, id.as_str(), kind.as_str(), &artists[i], now_ms) {
                n += 1;
            }
            i += 1;
        }
        proof {
            assert(all.take(artists@.len() as int) =~= all);
        }
        n
    }
}

// ---------------------------------------------------------------------------
// Images that peers have
// ---------------------------------------------------------------------------

/// The peers that have an image of an artist that was not fetched yet.
pub open spec fn has_image(artist_key: Seq<char>, filters: LibraryFilters, now_ms: i64) -> spec_fn(
    NetworkRow,
) -> bool {
    |r: NetworkRow|
        r.artist_key@ == artist_key && is_used(r@, filters, now_ms) && r.image_path is None
            && r.remote_image_hint is Some && r.remote_image_hint->0@.len() > 0
}

/// One's own devices first, then who was heard of last.
pub open spec fn by_nearness() -> spec_fn(NetworkRow, NetworkRow) -> bool {
    |a: NetworkRow, b: NetworkRow|
        {
            let x = a.source_kind@ == "personal"@;
            let y = b.source_kind@ == "personal"@;
            if x != y {
                x
            } else {
                a.seen_at_ms >= b.seen_at_ms
            }
        }
}

/// The image of an artist that is asked for.
pub open spec fn image_request(
    lib: Library,
    artist_key: Seq<char>,
    filters: LibraryFilters,
    now_ms: i64,
) -> Option<RequestView> {
    let rows = stable_sorted(
        lib.network@.filter(has_image(artist_key, filters, now_ms)),
        by_nearness(),
    );
    if rows.len() > 0 {
        Some(
            RequestView {
                source_id: rows[0].source_id@,
                artist_key: rows[0].artist_key@,
                name: rows[0].name@,
            },
        )
    } else {
        None
    }
}

/// The keys that were looked at and the images that are asked for.
#[verifier::ext_equal]
pub struct Asked {
    pub keys: Seq<Seq<char>>,
    pub requests: Seq<RequestView>,
}

/// The images that are asked for, for artists by name: each artist once, until
/// there are enough.
pub open spec fn asked<F: Fn(&str) -> String>(
    f: F,
    lib: Library,
    filters: LibraryFilters,
    names: Seq<Seq<char>>,
    limit: usize,
    now_ms: i64,
) -> Asked
    decreases names.len(),
{
    if names.len() == 0 {
        Asked { keys: Seq::empty(), requests: Seq::empty() }
    } else {
        let b = asked(f, lib, filters, names.drop_last(), limit, now_ms);
        let k = key_of(f, names.last());
        if b.requests.len() >= limit || k.len() == 0 || b.keys.contains(k) {
            b
        } else {
            Asked {
                keys: b.keys.push(k),
                requests: match image_request(lib, k, filters, now_ms) {
                    Some(r) => b.requests.push(r),
                    None => b.requests,
                },
            }
        }
    }
}

pub open spec fn request_view(r: Option<NetworkArtistImageRequest>) -> Option<RequestView> {
    match r {
        Some(v) => Some(v@),
        None => None,
    }
}

/// The images that peers are asked for.
pub open spec fn asks_images<F: Fn(&str) -> String>(
    f: F,
    lib: Library,
    filters: LibraryFilters,
    artist_names: Seq<Seq<char>>,
    limit: usize,
    now_ms: i64,
    r: Seq<NetworkArtistImageRequest>,
) -> bool {
    viewed(r) == if filters.source_mode is Local || limit == 0 {
        Seq::empty()
    } else {
        asked(f, lib, filters, artist_names, limit, now_ms).requests
    }
}

impl Library {
    fn image_request_for(&self, artist_key: &str, filters: &LibraryFilters, now_ms: i64) -> (r: Option<
        NetworkArtistImageRequest,
    >)
        ensures
            request_view(r) == image_request(*self, artist_key@, *filters, now_ms),
    {
        let f = |r: &NetworkRow| -> (b: bool)
            ensures
                b == has_image(artist_key@, *filters, now_ms)(*r),
            {
                same(r.artist_key.as_str(), artist_key) && uses(r, filters, now_ms)
                    && r.image_path.is_none() && match &r.remote_image_hint {
                    Some(t) => !t.as_str().is_empty(),
                    None => false,
                }
            };
        let mut at = select_by(&self.network, f, Ghost(has_image(artist_key@, *filters, now_ms)));
        let leq = |a: &NetworkRow, b: &NetworkRow| -> (r: bool)
            ensures
                r == by_nearness()(*a, *b),
            {
                let x = same(a.source_kind.as_str(), "personal");
                let y = same(b.source_kind.as_str(), "personal");
                if x != y {
                    x
                } else {
                    a.seen_at_ms >= b.seen_at_ms
                }
            };
        sort_places(&self.network, &mut at, leq, Ghost(by_nearness()));
        let ghost rows = picked(self.network@, at@);
        proof {
            assert(rows.len() == at@.len());
        }
        if at.len() > 0 {
            proof {
                assert(rows[0] == self.network@[at@[0] as int]);
            }
            let row = &self.network[at[0]];
            Some(
                NetworkArtistImageRequest {
                    source_id: row.source_id.clone(),
                    artist_key: row.artist_key.clone(),
                    name: row.name.clone(),
                },
            )
        } else {
            None
        }
    }

    /// The images that peers are asked for, for some artists that are shown.
    pub fn network_artist_image_requests<F: Fn(&str) -> String>(
        &self,
        f: &F,
        filters: LibraryFilters,
        artist_names: &Vec<String>,
        limit: usize,
        now_ms: i64,
    ) -> (r: Vec<NetworkArtistImageRequest>)
        requires
            normalizes(*f),
        ensures
            asks_images(*f, *self, filters, views(artist_names@), limit, now_ms, r@),
    {
        let mut requests: Vec<NetworkArtistImageRequest> = Vec::new();
        proof {
            assert(viewed(requests@) =~= Seq::empty());
        }
        if !filters.source_mode.includes_network() || limit == 0 {
            return requests;
        }
        let ghost all = views(artist_names@);
        let mut seen: Vec<String> = Vec::new();
        let mut i: usize = 0;
        proof {
            assert(all.take(0) =~= Seq::empty());
            assert(views(seen@) =~= Seq::empty());
        }
        while i < artist_names.len()
            invariant
                i <= artist_names@.len(),
                all == views(artist_names@),
                normalizes(*f),
                (Asked { keys: views(seen@), requests: viewed(requests@) }) == asked(
                    *f,
                    *self,
                    filters,
                    all.take(i as int),
                    limit,
                    now_ms,
                ),
            decreases artist_names@.len() - i,
        {
            proof {
                assert(all.take(i + 1).drop_last() =~= all.take(i as int));
                assert(all.take(i + 1).last() == artist_names@[i as int]@);
                assert(viewed(requests@).len() == requests@.len());
            }
            if requests.len() < limit {
                let k = key(f, artist_names[i].as_str());
                if !k.as_str().is_empty() && !holds_text(&seen, k.as_str()) {
                    if let Some(r) = self.image_request_for(k.as_str(), &filters, now_ms) {
                        let ghost before = requests@;
                        let ghost v = r@;
                        requests.push(r);
                        proof {
                            assert(viewed(requests@) =~= viewed(before).push(v));
                        }
                    }
                    let ghost known = seen@;
                    let ghost kv = k@;
                    seen.push(k);
                    proof {
                        assert(views(seen@) =~= views(known).push(kv));
                    }
                }
            }
            i += 1;
        }
        proof {
            assert(all.take(artist_names@.len() as int) =~= all);
        }
        requests
    }

    /// Sets the image of an artist that a peer told of. Gives whether there is
    /// such an artist.
    pub fn set_network_artist_image(&mut self, source_id: &str, artist_key: &str, image_path: &str) -> (r:
        bool)
        ensures
            match first_where(viewed(old(self).network@), is_word(source_id@, artist_key@)) {
                Some(i) => {
                    &&& r
                    &&& viewed(final(self).network@) == viewed(old(self).network@).update(
                        i,
                        NetworkView {
                            image_path: Some(image_path@),
                            ..viewed(old(self).network@)[i]
                        },
                    )
                },
                None => !r && final(self).network@ == old(self).network@,
            },
            (Library { network: old(self).network, ..*final(self) }) == *old(self),
    {
        let ghost start = self.network@;
        match place_of_word(&self.network, source_id, artist_key) {
            Some(i) => {
                self.network[i].image_path = Some(image_path.to_owned());
                proof {
                    assert(viewed(self.network@) =~= viewed(start).update(
                        i as int,
                        NetworkView {
                            image_path: Some(image_path@),
                            ..viewed(start)[i as int]
                        },
                    ));
                }
                true
            },
            None => false,
        }
    }
}

// ---------------------------------------------------------------------------
// Images of the library
// ---------------------------------------------------------------------------

/// The releases with a title that are credited to an artist with a name.
pub open spec fn is_release_named<F: Fn(&str) -> String>(
    f: F,
    lib: Library,
    artist: Seq<char>,
    title: Seq<char>,
) -> spec_fn(ReleaseRow) -> bool {
    |r: ReleaseRow|
        key_of(f, r.title@) == key_of(f, title) && first_where(
            lib.artists@,
            is_named_artist_of(f, lib, artist, r.id),
        ) is Some
}

pub open spec fn is_named_artist_of<F: Fn(&str) -> String>(
    f: F,
    lib: Library,
    artist: Seq<char>,
    release_id: i64,
) -> spec_fn(ArtistRow) -> bool {
    |a: ArtistRow|
        key_of(f, a.name@) == key_of(f, artist) && first_where(
            lib.release_artists@,
            crate::library::edit::is_release_credit(release_id, a.id),
        ) is Some
}

/// The artists with a name that have no image.
pub open spec fn lacks_image<F: Fn(&str) -> String>(f: F, name: Seq<char>, a: ArtistView) -> bool {
    key_of(f, a.name) == key_of(f, name) && a.image_path is None
}

pub open spec fn with_image<F: Fn(&str) -> String>(
    f: F,
    s: Seq<ArtistView>,
    name: Seq<char>,
    image_path: Seq<char>,
) -> Seq<ArtistView> {
    s.map_values(
        |a: ArtistView|
            if lacks_image(f, name, a) {
                ArtistView { image_path: Some(image_path), ..a }
            } else {
                a
            },
    )
}

/// What setting the image of artists with a name changes.
pub open spec fn sets_images<F: Fn(&str) -> String>(
    f: F,
    a: Library,
    b: Library,
    name: Seq<char>,
    image_path: Seq<char>,
    r: bool,
) -> bool {
    &&& viewed(b.artists@) == with_image(
        f,
        viewed(a.artists@),
        name,
        image_path,
    )
    &&& r == exists|i: int|
        0 <= i < a.artists@.len() && lacks_image(
            f,
            name,
            #[trigger] viewed(a.artists@)[i],
        )
    &&& (Library { artists: a.artists, ..b }) == a
}

impl Library {
    /// The artist with a name.
    pub fn artist_id_by_name<F: Fn(&str) -> String>(&self, f: &F, name: &str) -> (r: Option<i64>)
        requires
            normalizes(*f),
        ensures
            r == match artist_place(*f, viewed(self.artists@), name@) {
                Some(i) => Some(self.artists@[i].id),
                None => None,
            },
    {
        match place_of_artist(f, &self.artists, name) {
            Some(i) => Some(self.artists[i].id),
            None => None,
        }
    }

    fn has_named_artist<F: Fn(&str) -> String>(&self, f: &F, artist: &str, release_id: i64) -> (r: bool)
        requires
            normalizes(*f),
        ensures
            r == (first_where(
                self.artists@,
                is_named_artist_of(*f, *self, artist@, release_id),
            ) is Some),
    {
        let me = self;
        let k = key(f, artist);
        let g = |a: &ArtistRow| -> (b: bool)
            ensures
                b == is_named_artist_of(*f, *me, artist@, release_id)(*a),
            {
                same(key(f, a.name.as_str()).as_str(), k.as_str())
                    && crate::library::edit::has_release_credit(
                    &me.release_artists,
                    release_id,
                    a.id,
                )
            };
        find_by(
            &self.artists,
            g,
            Ghost(is_named_artist_of(*f, *me, artist@, release_id)),
        ).is_some()
    }

    /// The cover of an artist's release, by their names.
    pub fn release_cover_by_names<F: Fn(&str) -> String>(&self, f: &F, artist: &str, release: &str) -> (r:
        Option<String>)
        requires
            normalizes(*f),
        ensures
            opt_view(r) == match first_where(
                self.releases@,
                is_release_named(*f, *self, artist@, release@),
            ) {
                Some(i) => opt_view(self.releases@[i].cover_path),
                None => None,
            },
    {
        let me = self;
        let k = key(f, release);
        let g = |r: &ReleaseRow| -> (b: bool)
            ensures
                b == is_release_named(*f, *me, artist@, release@)(*r),
            {
                same(key(f, r.title.as_str()).as_str(), k.as_str()) && me.has_named_artist(
                    f,
                    artist,
                    r.id,
                )
            };
        match find_by(
            &self.releases,
            g,
            Ghost(is_release_named(*f, *me, artist@, release@)),
        ) {
            Some(i) => self.releases[i].cover_path.clone(),
            None => None,
        }
    }

    /// The image of an artist.
    pub fn artist_image(&self, artist_id: i64) -> (r: Option<String>)
        ensures
            opt_view(r) == match artist_row(self.artists@, artist_id) {
                Some(i) => opt_view(self.artists@[i].image_path),
                None => None,
            },
    {
        let f = |a: &ArtistRow| -> (b: bool)
            ensures
                b == row_is_artist(artist_id)(*a),
            { a.id == artist_id };
        match find_by(&self.artists, f, Ghost(row_is_artist(artist_id))) {
            Some(i) => self.artists[i].image_path.clone(),
            None => None,
        }
    }

    /// Whether there is an artist with a name, without an image.
    pub fn artist_image_missing<F: Fn(&str) -> String>(&self, f: &F, name: &str) -> (r: bool)
        requires
            normalizes(*f),
        ensures
            r == match artist_place(*f, viewed(self.artists@), name@) {
                Some(i) => self.artists@[i].image_path is None,
                None => false,
            },
    {
        match place_of_artist(f, &self.artists, name) {
            Some(i) => self.artists[i].image_path.is_none(),
            None => false,
        }
    }

    /// Sets the image of the artists with a name that have none. Gives whether
    /// there was one.
    pub fn set_artist_image_if_missing<F: Fn(&str) -> String>(
        &mut self,
        f: &F,
        name: &str,
        image_path: &str,
    ) -> (r: bool)
        requires
            normalizes(*f),
        ensures
            sets_images(*f, *old(self), *final(self), name@, image_path@, r),
    {
        let k = key(f, name);
        let ghost start = viewed(self.artists@);
        let ghost whole = *self;
        let size: usize = self.artists.len();
        let mut changed = false;
        let mut i: usize = 0;
        while i < size
            invariant
                i <= size,
                size == start.len(),
                self.artists@.len() == size,
                normalizes(*f),
                k@ == key_of(*f, name@),
                (Library { artists: whole.artists, ..*self }) == whole,
                changed == exists|j: int|
                    0 <= j < i && lacks_image(*f, name@, #[trigger] start[j]),
                forall|j: int|
                    0 <= j < size ==> (#[trigger] viewed(self.artists@)[j]) == (if j < i {
                        with_image(*f, start, name@, image_path@)[j]
                    } else {
                        start[j]
                    }),
            decreases size - i,
        {
            let ghost before = self.artists@;
            proof {
                assert(viewed(before)[i as int] == start[i as int]);
            }
            if same(key(f, self.artists[i].name.as_str()).as_str(), k.as_str())
                && self.artists[i].image_path.is_none() {
                self.artists[i].image_path = Some(image_path.to_owned());
                changed = true;
                proof {
                    assert(lacks_image(*f, name@, start[i as int]));
                }
            }
            proof {
                assert forall|j: int| 0 <= j < size implies (#[trigger] viewed(self.artists@)[j])
                    == (if j < i + 1 {
                    with_image(*f, start, name@, image_path@)[j]
                } else {
                    start[j]
                }) by {
                    assert(viewed(before)[j] == before[j]@);
                    if j != i {
                        assert(self.artists@[j] == before[j]);
                    }
                }
            }
            i += 1;
        }
        proof {
            assert(viewed(self.artists@) =~= with_image(*f, start, name@, image_path@));
        }
        changed
    }
}

} // verus!
