//! The pages of artists: those of the library, and those that peers told of.

use crate::digest::{blake3_digest, placeholder_of, text_placeholder};
use crate::library::listing::{local_cards, ArtistCardView};
use crate::library::models::{ArtistCard, ArtistsPage, Availability};
use crate::library::tables::{ArtistRow, Library, NetworkRow, ReleaseCredit};
use crate::lists::{
    at_most, find_by, first_where, lemma_first_where, lemma_sorted_len, lemma_sorted_mapped,
    limit_to, limited, select_by, sort_by, stable_sorted, viewed,
};
use crate::names::{key, key_of, normalizes};
use crate::text::{
    before, blank, is_blank, no_case_before_or_same, no_case_leq, opt_view, precedes, same,
};
use vstd::prelude::*;

verus! {

/// The text that `str::to_lowercase` gives.
pub uninterp spec fn lowercased(s: Seq<char>) -> Seq<char>;

/// `str::to_lowercase`: the small letters of a text, by its characters alone.
#[verifier::external_body]
fn lowercase(s: &str) -> (r: String)
    ensures
        r@ == lowercased(s@),
{
    s.to_lowercase()
}

/// How long what a peer told of its artists is used.
pub const NETWORK_ARTIST_CACHE_TTL_MS: i64 = 604_800_000;

/// Whose artists are shown.
#[derive(Clone, Copy, PartialEq, Eq, Structural, Debug)]
pub enum LibrarySourceMode {
    /// Those of this library.
    Local,
    /// Those of one's own devices too.
    My,
    /// Those of every peer.
    Global,
}

impl LibrarySourceMode {
    pub fn includes_network(&self) -> (r: bool)
        ensures
            r == !(*self is Local),
    {
        match self {
            LibrarySourceMode::Local => false,
            _ => true,
        }
    }

    pub fn includes_global_peers(&self) -> (r: bool)
        ensures
            r == (*self is Global),
    {
        match self {
            LibrarySourceMode::Global => true,
            _ => false,
        }
    }
}

/// Which artists are shown.
#[derive(Clone, Copy, PartialEq, Eq, Structural, Debug)]
pub struct LibraryFilters {
    /// Artists without a release are left out.
    pub hide_featured_only: bool,
    pub source_mode: LibrarySourceMode,
}

impl Default for LibraryFilters {
    fn default() -> (r: Self)
        ensures
            !r.hide_featured_only,
            r.source_mode is Local,
    {
        LibraryFilters { hide_featured_only: false, source_mode: LibrarySourceMode::Local }
    }
}

// ---------------------------------------------------------------------------
// Pages
// ---------------------------------------------------------------------------

/// Where a page starts; the first page has the number 1.
pub open spec fn page_offset(page: i64, limit: i64) -> int {
    let p = if page > 1 {
        page as int
    } else {
        1
    };
    (p - 1) * limit
}

/// A list without its first elements.
pub open spec fn from_offset<T>(s: Seq<T>, offset: int) -> Seq<T> {
    if offset <= 0 {
        s
    } else if offset >= s.len() {
        Seq::empty()
    } else {
        s.skip(offset)
    }
}

/// Whether the place of a page can be told.
pub open spec fn page_fits(page: i64, limit: i64, rows: int) -> bool {
    &&& rows <= i64::MAX
    &&& i64::MIN <= page_offset(page, limit)
    &&& page_offset(page, limit) + rows <= i64::MAX
}

fn offset_of(page: i64, limit: i64) -> (r: i64)
    requires
        i64::MIN <= page_offset(page, limit) <= i64::MAX,
    ensures
        r == page_offset(page, limit),
{
    let p: i64 = if page > 1 {
        page
    } else {
        1
    };
    proof {
        assert((p - 1) * limit == page_offset(page, limit));
    }
    (p - 1) * limit
}

pub(crate) fn drop_first<T>(v: &mut Vec<T>, offset: i64)
    ensures
        final(v)@ == from_offset(old(v)@, offset as int),
{
    if offset > 0 {
        if (offset as u64) >= (v.len() as u64) {
            v.clear();
        } else {
            let tail = v.split_off(offset as usize);
            *v = tail;
            proof {
                assert(v@ =~= old(v)@.skip(offset as int));
            }
        }
    }
}

/// The artists with more releases first, then those with more tracks, then by
/// name.
pub open spec fn by_size() -> spec_fn(ArtistCardView, ArtistCardView) -> bool {
    |a: ArtistCardView, b: ArtistCardView|
        if a.release_count != b.release_count {
            a.release_count > b.release_count
        } else if a.track_count != b.track_count {
            a.track_count > b.track_count
        } else {
            no_case_leq(a.name, b.name)
        }
}

pub open spec fn card_by_size() -> spec_fn(ArtistCard, ArtistCard) -> bool {
    |a: ArtistCard, b: ArtistCard| by_size()(a@, b@)
}

/// As `by_size`, but names are in the order of their small letters.
pub open spec fn by_size_folded() -> spec_fn(ArtistCardView, ArtistCardView) -> bool {
    |a: ArtistCardView, b: ArtistCardView|
        if a.release_count != b.release_count {
            a.release_count > b.release_count
        } else if a.track_count != b.track_count {
            a.track_count > b.track_count
        } else {
            !precedes(lowercased(b.name), lowercased(a.name))
        }
}

pub open spec fn card_by_size_folded() -> spec_fn(ArtistCard, ArtistCard) -> bool {
    |a: ArtistCard, b: ArtistCard| by_size_folded()(a@, b@)
}

pub open spec fn has_credit(id: i64) -> spec_fn(ReleaseCredit) -> bool {
    |c: ReleaseCredit| c.artist_id == id
}

/// The artists that are shown.
pub open spec fn is_shown(credits: Seq<ReleaseCredit>, hide_featured_only: bool) -> spec_fn(
    ArtistRow,
) -> bool {
    |a: ArtistRow| !hide_featured_only || first_where(credits, has_credit(a.id)) is Some
}

/// The cards of the artists of the library that are shown.
pub open spec fn shown_cards(lib: Library, hide_featured_only: bool) -> Seq<ArtistCardView> {
    local_cards(lib, lib.artists@.filter(is_shown(lib.release_artists@, hide_featured_only)))
}

/// What a page of the library's artists holds.
pub open spec fn local_page(lib: Library, page: i64, limit: i64, hide: bool) -> Seq<ArtistCardView> {
    limited(
        from_offset(
            stable_sorted(shown_cards(lib, hide), by_size()),
            page_offset(page, limit),
        ),
        limit,
    )
}

fn is_release_artist(credits: &Vec<ReleaseCredit>, id: i64) -> (r: bool)
    ensures
        r == (first_where(credits@, has_credit(id)) is Some),
{
    let f = |c: &ReleaseCredit| -> (b: bool)
        ensures
            b == has_credit(id)(*c),
        { c.artist_id == id };
    find_by(credits, f, Ghost(has_credit(id))).is_some()
}

pub(crate) fn sort_cards(cards: &mut Vec<ArtistCard>)
    ensures
        viewed(final(cards)@) == stable_sorted(viewed(old(cards)@), by_size()),
{
    let ghost before = cards@;
    let leq = |a: &ArtistCard, b: &ArtistCard| -> (r: bool)
        ensures
            r == card_by_size()(*a, *b),
        {
            if a.release_count != b.release_count {
                a.release_count > b.release_count
            } else if a.track_count != b.track_count {
                a.track_count > b.track_count
            } else {
                no_case_before_or_same(a.name.as_str(), b.name.as_str())
            }
        };
    sort_by(cards, leq, Ghost(card_by_size()));
    proof {
        lemma_sorted_mapped(before, |a: ArtistCard| a@, card_by_size(), by_size());
    }
}

impl Library {
    fn local_artist_cards(&self, hide_featured_only: bool) -> (r: Vec<ArtistCard>)
        ensures
            viewed(r@) == shown_cards(*self, hide_featured_only),
    {
        let credits = &self.release_artists;
        let f = |a: &ArtistRow| -> (b: bool)
            ensures
                b == is_shown(credits@, hide_featured_only)(*a),
            { !hide_featured_only || is_release_artist(credits, a.id) };
        let at = select_by(&self.artists, f, Ghost(is_shown(credits@, hide_featured_only)));
        self.artist_cards_at(&at)
    }

    fn local_artists(&self, page: i64, limit: i64, hide_featured_only: bool) -> (r: ArtistsPage)
        requires
            page_fits(page, limit, self.artists@.len() as int),
        ensures
            viewed(r.items@) == local_page(*self, page, limit, hide_featured_only),
            r.total == shown_cards(*self, hide_featured_only).len(),
            r.page == (if page > 1 {
                page
            } else {
                1
            }),
            r.has_more == (page_offset(page, limit) + r.items@.len() < r.total),
    {
        let mut items = self.local_artist_cards(hide_featured_only);
        proof {
            lemma_shown_len(*self, hide_featured_only);
            assert(viewed(items@).len() == items@.len());
        }
        let ghost all = viewed(items@);
        let offset = offset_of(page, limit);
        let total = items.len() as i64;
        sort_cards(&mut items);
        let ghost sorted = items@;
        proof {
            lemma_sorted_len(all, by_size());
            assert(viewed(items@).len() == items@.len());
        }
        drop_first(&mut items, offset);
        proof {
            assert(viewed(items@) =~= from_offset(viewed(sorted), offset as int));
        }
        let ghost tail = items@;
        limit_to(&mut items, limit);
        proof {
            assert(viewed(items@) =~= limited(viewed(tail), limit));
        }
        let has_more = offset + (items.len() as i64) < total;
        ArtistsPage {
            has_more,
            items,
            total,
            page: if page > 1 {
                page
            } else {
                1
            },
        }
    }
}

proof fn lemma_shown_len(lib: Library, hide: bool)
    ensures
        shown_cards(lib, hide).len() <= lib.artists@.len(),
{
    lib.artists@.lemma_filter_len(is_shown(lib.release_artists@, hide));
}

// ---------------------------------------------------------------------------
// What peers told
// ---------------------------------------------------------------------------

#[verifier::ext_equal]
pub struct NetworkView {
    pub source_id: Seq<char>,
    pub source_kind: Seq<char>,
    pub artist_key: Seq<char>,
    pub name: Seq<char>,
    pub image_path: Option<Seq<char>>,
    pub remote_image_hint: Option<Seq<char>>,
    pub release_count: i64,
    pub track_count: i64,
    pub seen_at_ms: i64,
}

impl View for NetworkRow {
    type V = NetworkView;

    open spec fn view(&self) -> NetworkView {
        NetworkView {
            source_id: self.source_id@,
            source_kind: self.source_kind@,
            artist_key: self.artist_key@,
            name: self.name@,
            image_path: opt_view(self.image_path),
            remote_image_hint: opt_view(self.remote_image_hint),
            release_count: self.release_count,
            track_count: self.track_count,
            seen_at_ms: self.seen_at_ms,
        }
    }
}

/// The time before which nothing is used any more.
pub open spec fn cutoff_of(now_ms: i64) -> i64 {
    if now_ms - NETWORK_ARTIST_CACHE_TTL_MS < i64::MIN {
        i64::MIN
    } else {
        (now_ms - NETWORK_ARTIST_CACHE_TTL_MS) as i64
    }
}

fn cutoff(now_ms: i64) -> (r: i64)
    ensures
        r == cutoff_of(now_ms),
{
    if now_ms < i64::MIN + NETWORK_ARTIST_CACHE_TTL_MS {
        i64::MIN
    } else {
        now_ms - NETWORK_ARTIST_CACHE_TTL_MS
    }
}

/// Whether a peer's word is used: it is not too old, and the peer is one whose
/// artists are shown.
pub open spec fn is_used(r: NetworkView, filters: LibraryFilters, now_ms: i64) -> bool {
    r.seen_at_ms >= cutoff_of(now_ms) && (filters.source_mode is Global || r.source_kind
        == "personal"@)
}

pub(crate) fn uses(r: &NetworkRow, filters: &LibraryFilters, now_ms: i64) -> (b: bool)
    ensures
        b == is_used(r@, *filters, now_ms),
{
    r.seen_at_ms >= cutoff(now_ms) && (filters.source_mode.includes_global_peers() || same(
        r.source_kind.as_str(),
        "personal",
    ))
}

/// What all peers told of one artist.
#[verifier::ext_equal]
pub struct Group {
    pub key: Seq<char>,
    pub name: Seq<char>,
    pub image_path: Option<Seq<char>>,
    pub release_count: i64,
    pub track_count: i64,
}

#[derive(Debug)]
pub struct GroupRow {
    pub key: String,
    pub name: String,
    pub image_path: Option<String>,
    pub release_count: i64,
    pub track_count: i64,
}

impl View for GroupRow {
    type V = Group;

    open spec fn view(&self) -> Group {
        Group {
            key: self.key@,
            name: self.name@,
            image_path: opt_view(self.image_path),
            release_count: self.release_count,
            track_count: self.track_count,
        }
    }
}

pub open spec fn larger(a: i64, b: i64) -> i64 {
    if a >= b {
        a
    } else {
        b
    }
}

/// The last of two texts, where there are any.
pub open spec fn later_text(a: Option<Seq<char>>, b: Option<Seq<char>>) -> Option<Seq<char>> {
    match (a, b) {
        (Some(x), Some(y)) => if precedes(x, y) {
            Some(y)
        } else {
            Some(x)
        },
        (None, y) => y,
        (x, None) => x,
    }
}

/// What all peers told of an artist, with the word of one more: the name that
/// comes first, the image that comes last, and the largest counts.
pub open spec fn grouped(g: Group, r: NetworkView) -> Group {
    Group {
        key: g.key,
        name: if precedes(r.name, g.name) {
            r.name
        } else {
            g.name
        },
        image_path: later_text(g.image_path, r.image_path),
        release_count: larger(g.release_count, r.release_count),
        track_count: larger(g.track_count, r.track_count),
    }
}

pub open spec fn is_group(k: Seq<char>) -> spec_fn(Group) -> bool {
    |g: Group| g.key == k
}

pub open spec fn with_word(s: Seq<Group>, r: NetworkView) -> Seq<Group> {
    match first_where(s, is_group(r.artist_key)) {
        Some(i) => s.update(i, grouped(s[i], r)),
        None => s.push(
            Group {
                key: r.artist_key,
                name: r.name,
                image_path: r.image_path,
                release_count: r.release_count,
                track_count: r.track_count,
            },
        ),
    }
}

/// Whether a peer's word counts among the artists that are shown.
pub open spec fn counts(r: NetworkView, filters: LibraryFilters, now_ms: i64) -> bool {
    is_used(r, filters, now_ms) && (filters.hide_featured_only ==> r.release_count > 0)
}

/// What the peers told, artist by artist.
pub open spec fn groups_of(rows: Seq<NetworkView>, filters: LibraryFilters, now_ms: i64) -> Seq<Group>
    decreases rows.len(),
{
    if rows.len() == 0 {
        Seq::empty()
    } else {
        let before = groups_of(rows.drop_last(), filters, now_ms);
        if counts(rows.last(), filters, now_ms) {
            with_word(before, rows.last())
        } else {
            before
        }
    }
}

/// A card with the key of its artist.
#[verifier::ext_equal]
pub struct KeyedCard {
    pub key: Seq<char>,
    pub card: ArtistCardView,
}

pub struct KeyedCardRow {
    pub key: String,
    pub card: ArtistCard,
}

impl View for KeyedCardRow {
    type V = KeyedCard;

    open spec fn view(&self) -> KeyedCard {
        KeyedCard { key: self.key@, card: self.card@ }
    }
}

pub open spec fn is_keyed(k: Seq<char>) -> spec_fn(KeyedCard) -> bool {
    |c: KeyedCard| c.key == k
}

pub open spec fn with_local<F: Fn(&str) -> String>(f: F, s: Seq<KeyedCard>, c: ArtistCardView) -> Seq<
    KeyedCard,
> {
    let k = key_of(f, c.name);
    if k.len() == 0 {
        s
    } else {
        match first_where(s, is_keyed(k)) {
            Some(i) => s.update(i, KeyedCard { key: k, card: c }),
            None => s.push(KeyedCard { key: k, card: c }),
        }
    }
}

/// The cards of the library by the keys of their artists.
pub open spec fn keyed_local<F: Fn(&str) -> String>(f: F, cards: Seq<ArtistCardView>) -> Seq<KeyedCard>
    decreases cards.len(),
{
    if cards.len() == 0 {
        Seq::empty()
    } else {
        with_local(f, keyed_local(f, cards.drop_last()), cards.last())
    }
}

/// The id of an artist that is not in the library.
pub open spec fn remote_id(k: Seq<char>) -> int {
    placeholder_of(blake3_digest(vstd::utf8::encode_utf8(k)))
}

/// A card with what peers told of its artist: the counts are the largest, and
/// the image is theirs where there is none.
pub open spec fn mixed(c: ArtistCardView, g: Group) -> ArtistCardView {
    ArtistCardView {
        availability: if g.release_count > c.release_count || g.track_count > c.track_count {
            Availability::Mixed
        } else {
            c.availability
        },
        release_count: larger(c.release_count, g.release_count),
        track_count: larger(c.track_count, g.track_count),
        image_path: if c.image_path is Some {
            c.image_path
        } else {
            g.image_path
        },
        ..c
    }
}

pub open spec fn remote_card(g: Group) -> ArtistCardView {
    ArtistCardView {
        id: remote_id(g.key) as i64,
        name: if g.name.len() == 0 {
            g.key
        } else {
            g.name
        },
        image_path: g.image_path,
        release_count: g.release_count,
        track_count: g.track_count,
        availability: Availability::Remote,
    }
}

pub open spec fn with_group(s: Seq<KeyedCard>, g: Group) -> Seq<KeyedCard> {
    if is_blank(g.key) || g.track_count <= 0 {
        s
    } else {
        match first_where(s, is_keyed(g.key)) {
            Some(i) => s.update(i, KeyedCard { key: g.key, card: mixed(s[i].card, g) }),
            None => s.push(KeyedCard { key: g.key, card: remote_card(g) }),
        }
    }
}

pub open spec fn with_groups(s: Seq<KeyedCard>, groups: Seq<Group>) -> Seq<KeyedCard>
    decreases groups.len(),
{
    if groups.len() == 0 {
        s
    } else {
        with_group(with_groups(s, groups.drop_last()), groups.last())
    }
}

pub open spec fn cards_of(s: Seq<KeyedCard>) -> Seq<ArtistCardView> {
    s.map_values(|c: KeyedCard| c.card)
}

/// The artists of the library and of the peers, each once.
pub open spec fn merged_cards<F: Fn(&str) -> String>(
    f: F,
    lib: Library,
    filters: LibraryFilters,
    now_ms: i64,
) -> Seq<ArtistCardView> {
    cards_of(
        with_groups(
            keyed_local(f, shown_cards(lib, filters.hide_featured_only)),
            groups_of(viewed(lib.network@), filters, now_ms),
        ),
    )
}

/// A page of a list of artists.
pub open spec fn page_of(s: Seq<ArtistCardView>, page: i64, limit: i64) -> Seq<ArtistCardView> {
    at_most(
        from_offset(s, page_offset(page, limit)),
        if limit > 0 {
            limit as int
        } else {
            0
        },
    )
}

fn put_word(groups: &mut Vec<GroupRow>, r: &NetworkRow)
    ensures
        viewed(final(groups)@) == with_word(viewed(old(groups)@), r@),
{
    let ghost start = groups@;
    let ghost p = is_group(r.artist_key@);
    let mut i: usize = 0;
    while i < groups.len()
        invariant
            i <= groups@.len(),
            groups@ == start,
            start == old(groups)@,
            p == is_group(r.artist_key@),
            forall|j: int| 0 <= j < i ==> !p(#[trigger] viewed(start)[j]),
        decreases groups@.len() - i,
    {
        proof {
            assert(viewed(start)[i as int] == start[i as int]@);
        }
        if same(groups[i].key.as_str(), r.artist_key.as_str()) {
            proof {
                lemma_first_where(viewed(start), p);
                assert(p(viewed(start)[i as int]));
            }
            let g = &groups[i];
            let name = if before(r.name.as_str(), g.name.as_str()) {
                r.name.clone()
            } else {
                g.name.clone()
            };
            let image_path = match (&g.image_path, &r.image_path) {
                (Some(x), Some(y)) => if before(x.as_str(), y.as_str()) {
                    Some(y.clone())
                } else {
                    Some(x.clone())
                },
                (None, y) => y.clone(),
                (x, None) => x.clone(),
            };
            let merged = GroupRow {
                key: g.key.clone(),
                name,
                image_path,
                release_count: larger_of(g.release_count, r.release_count),
                track_count: larger_of(g.track_count, r.track_count),
            };
            proof {
                assert(merged@ =~= grouped(start[i as int]@, r@));
            }
            groups[i] = merged;
            proof {
                assert(viewed(groups@) =~= viewed(start).update(
                    i as int,
                    grouped(viewed(start)[i as int], r@),
                ));
            }
            return;
        }
        i += 1;
    }
    proof {
        lemma_first_where(viewed(start), p);
    }
    groups.push(
        GroupRow {
            key: r.artist_key.clone(),
            name: r.name.clone(),
            image_path: r.image_path.clone(),
            release_count: r.release_count,
            track_count: r.track_count,
        },
    );
    proof {
        assert(viewed(groups@) =~= viewed(start).push(groups@.last()@));
    }
}

fn larger_of(a: i64, b: i64) -> (r: i64)
    ensures
        r == larger(a, b),
{
    if a >= b {
        a
    } else {
        b
    }
}

fn put_local<F: Fn(&str) -> String>(f: &F, cards: &mut Vec<KeyedCardRow>, card: ArtistCard)
    requires
        normalizes(*f),
    ensures
        viewed(final(cards)@) == with_local(*f, viewed(old(cards)@), card@),
{
    let k = key(f, card.name.as_str());
    if k.as_str().is_empty() {
        return;
    }
    let ghost c = card@;
    let ghost start = cards@;
    let ghost p = is_keyed(k@);
    let mut i: usize = 0;
    while i < cards.len()
        invariant
            i <= cards@.len(),
            cards@ == start,
            start == old(cards)@,
            c == card@,
            k@ == key_of(*f, c.name),
            k@.len() > 0,
            p == is_keyed(k@),
            forall|j: int| 0 <= j < i ==> !p(#[trigger] viewed(start)[j]),
        decreases cards@.len() - i,
    {
        proof {
            assert(viewed(start)[i as int] == start[i as int]@);
        }
        if same(cards[i].key.as_str(), k.as_str()) {
            proof {
                lemma_first_where(viewed(start), p);
                assert(p(viewed(start)[i as int]));
            }
            cards[i] = KeyedCardRow { key: k, card };
            proof {
                assert(viewed(cards@) =~= viewed(start).update(
                    i as int,
                    KeyedCard { key: key_of(*f, c.name), card: c },
                ));
            }
            return;
        }
        i += 1;
    }
    proof {
        lemma_first_where(viewed(start), p);
    }
    cards.push(KeyedCardRow { key: k, card });
    proof {
        assert(viewed(cards@) =~= viewed(start).push(
            KeyedCard { key: key_of(*f, c.name), card: c },
        ));
    }
}

fn put_group(cards: &mut Vec<KeyedCardRow>, g: &GroupRow)
    ensures
        viewed(final(cards)@) == with_group(viewed(old(cards)@), g@),
{
    if blank(g.key.as_str()) || g.track_count <= 0 {
        return;
    }
    let ghost start = cards@;
    let ghost p = is_keyed(g.key@);
    let mut i: usize = 0;
    while i < cards.len()
        invariant
            i <= cards@.len(),
            cards@ == start,
            start == old(cards)@,
            p == is_keyed(g.key@),
            !is_blank(g.key@),
            g.track_count > 0,
            forall|j: int| 0 <= j < i ==> !p(#[trigger] viewed(start)[j]),
        decreases cards@.len() - i,
    {
        proof {
            assert(viewed(start)[i as int] == start[i as int]@);
        }
        if same(cards[i].key.as_str(), g.key.as_str()) {
            proof {
                lemma_first_where(viewed(start), p);
                assert(p(viewed(start)[i as int]));
            }
            let c = &cards[i].card;
            let more = g.release_count > c.release_count || g.track_count > c.track_count;
            let card = ArtistCard {
                id: c.id,
                name: c.name.clone(),
                image_path: match &c.image_path {
                    Some(t) => Some(t.clone()),
                    None => g.image_path.clone(),
                },
                release_count: larger_of(c.release_count, g.release_count),
                track_count: larger_of(c.track_count, g.track_count),
                availability: if more {
                    Availability::Mixed
                } else {
                    c.availability
                },
            };
            proof {
                assert(card@ =~= mixed(start[i as int].card@, g@));
            }
            cards[i] = KeyedCardRow { key: g.key.clone(), card };
            proof {
                assert(viewed(cards@) =~= viewed(start).update(
                    i as int,
                    KeyedCard { key: g.key@, card: mixed(viewed(start)[i as int].card, g@) },
                ));
            }
            return;
        }
        i += 1;
    }
    proof {
        lemma_first_where(viewed(start), p);
    }
    let card = ArtistCard {
        id: text_placeholder(g.key.as_str()),
        name: if g.name.as_str().is_empty() {
            g.key.clone()
        } else {
            g.name.clone()
        },
        image_path: g.image_path.clone(),
        release_count: g.release_count,
        track_count: g.track_count,
        availability: Availability::Remote,
    };
    proof {
        assert(card@ =~= remote_card(g@));
    }
    cards.push(KeyedCardRow { key: g.key.clone(), card });
    proof {
        assert(viewed(cards@) =~= viewed(start).push(
            KeyedCard { key: g.key@, card: remote_card(g@) },
        ));
    }
}

fn sort_cards_folded(cards: &mut Vec<ArtistCard>)
    ensures
        viewed(final(cards)@) == stable_sorted(viewed(old(cards)@), by_size_folded()),
{
    let ghost start = cards@;
    let leq = |a: &ArtistCard, b: &ArtistCard| -> (r: bool)
        ensures
            r == card_by_size_folded()(*a, *b),
        {
            if a.release_count != b.release_count {
                a.release_count > b.release_count
            } else if a.track_count != b.track_count {
                a.track_count > b.track_count
            } else {
                !before(lowercase(b.name.as_str()).as_str(), lowercase(a.name.as_str()).as_str())
            }
        };
    sort_by(cards, leq, Ghost(card_by_size_folded()));
    proof {
        lemma_sorted_mapped(
            start,
            |a: ArtistCard| a@,
            card_by_size_folded(),
            by_size_folded(),
        );
    }
}

fn cards_alone(cards: Vec<KeyedCardRow>) -> (r: Vec<ArtistCard>)
    ensures
        viewed(r@) == cards_of(viewed(cards@)),
{
    let ghost all = cards@;
    let size: usize = cards.len();
    let mut rest = cards;
    let mut out: Vec<ArtistCard> = Vec::new();
    let mut i: usize = 0;
    proof {
        assert(all.skip(0) =~= all);
    }
    while i < size
        invariant
            i <= size,
            size == all.len(),
            rest@ == all.skip(i as int),
            out@.len() == i,
            forall|j: int| 0 <= j < i ==> #[trigger] out@[j] == all[j].card,
        decreases size - i,
    {
        proof {
            assert(rest@.len() == all.len() - i);
            assert(rest@[0] == all[i as int]);
            assert(all.skip(i as int).skip(1) =~= all.skip(i + 1));
        }
        let ghost before = rest@;
        let c = rest.remove(0);
        proof {
            assert(rest@ =~= before.skip(1));
        }
        out.push(c.card);
        i += 1;
    }
    proof {
        assert(viewed(out@) =~= cards_of(viewed(all)));
    }
    out
}

/// What a page of the artists that are shown holds.
pub open spec fn artists_answer<F: Fn(&str) -> String>(
    f: F,
    lib: Library,
    page: i64,
    limit: i64,
    filters: LibraryFilters,
    now_ms: i64,
    r: ArtistsPage,
) -> bool {
    &&& if filters.source_mode is Local {
        &&& viewed(r.items@) == local_page(lib, page, limit, filters.hide_featured_only)
        &&& r.total == shown_cards(lib, filters.hide_featured_only).len()
    } else {
        &&& viewed(r.items@) == page_of(
            stable_sorted(merged_cards(f, lib, filters, now_ms), by_size_folded()),
            page,
            limit,
        )
        &&& r.total == merged_cards(f, lib, filters, now_ms).len()
    }
    &&& r.page == (if page > 1 {
        page
    } else {
        1
    })
    &&& r.has_more == (page_offset(page, limit) + r.items@.len() < r.total)
}

impl Library {
    fn merged_artist_cards<F: Fn(&str) -> String>(&self, f: &F, filters: &LibraryFilters, now_ms: i64) -> (r:
        Vec<ArtistCard>)
        requires
            normalizes(*f),
        ensures
            viewed(r@) == merged_cards(*f, *self, *filters, now_ms),
    {
        let local = self.local_artist_cards(filters.hide_featured_only);
        let ghost shown = viewed(local@);
        let size: usize = local.len();
        let mut rest = local;
        let mut cards: Vec<KeyedCardRow> = Vec::new();
        let mut i: usize = 0;
        proof {
            assert(shown.take(0) =~= Seq::empty());
            assert(shown.skip(0) =~= shown);
            assert(viewed(cards@) =~= Seq::empty());
        }
        while i < size
            invariant
                i <= size,
                size == shown.len(),
                normalizes(*f),
                viewed(rest@) == shown.skip(i as int),
                viewed(cards@) == keyed_local(*f, shown.take(i as int)),
            decreases size - i,
        {
            proof {
                assert(viewed(rest@).len() == rest@.len());
                assert(viewed(rest@)[0] == rest@[0]@);
                assert(shown.skip(i as int)[0] == shown[i as int]);
                assert(shown.take(i + 1).drop_last() =~= shown.take(i as int));
                assert(shown.take(i + 1).last() == shown[i as int]);
            }
            let ghost before = rest@;
            let c = rest.remove(0);
            proof {
                assert(viewed(rest@) =~= viewed(before).skip(1));
                assert(shown.skip(i as int).skip(1) =~= shown.skip(i + 1));
            }
            put_local(f, &mut cards, c);
            i += 1;
        }
        let ghost told = viewed(self.network@);
        let mut groups: Vec<GroupRow> = Vec::new();
        let mut j: usize = 0;
        proof {
            assert(shown.take(size as int) =~= shown);
            assert(told.take(0) =~= Seq::empty());
            assert(viewed(groups@) =~= Seq::empty());
        }
        while j < self.network.len()
            invariant
                j <= self.network@.len(),
                told == viewed(self.network@),
                viewed(groups@) == groups_of(told.take(j as int), *filters, now_ms),
            decreases self.network@.len() - j,
        {
            proof {
                assert(told.take(j + 1).drop_last() =~= told.take(j as int));
                assert(told.take(j + 1).last() == self.network@[j as int]@);
            }
            let row = &self.network[j];
            if uses(row, filters, now_ms) && (!filters.hide_featured_only || row.release_count
                > 0) {
                put_word(&mut groups, row);
            }
            j += 1;
        }
        let ghost all = viewed(groups@);
        let ghost start = viewed(cards@);
        let mut k: usize = 0;
        proof {
            assert(told.take(self.network@.len() as int) =~= told);
            assert(all.take(0) =~= Seq::empty());
        }
        while k < groups.len()
            invariant
                k <= groups@.len(),
                all == viewed(groups@),
                viewed(cards@) == with_groups(start, all.take(k as int)),
            decreases groups@.len() - k,
        {
            proof {
                assert(all.take(k + 1).drop_last() =~= all.take(k as int));
                assert(all.take(k + 1).last() == groups@[k as int]@);
            }
            put_group(&mut cards, &groups[k]);
            k += 1;
        }
        proof {
            assert(all.take(groups@.len() as int) =~= all);
        }
        cards_alone(cards)
    }

    fn merged_artists<F: Fn(&str) -> String>(
        &self,
        f: &F,
        page: i64,
        limit: i64,
        filters: &LibraryFilters,
        now_ms: i64,
    ) -> (r: ArtistsPage)
        requires
            normalizes(*f),
            page_fits(page, limit, 0int + self.artists@.len() + self.network@.len()),
        ensures
            viewed(r.items@) == page_of(
                stable_sorted(merged_cards(*f, *self, *filters, now_ms), by_size_folded()),
                page,
                limit,
            ),
            r.total == merged_cards(*f, *self, *filters, now_ms).len(),
            r.page == (if page > 1 {
                page
            } else {
                1
            }),
            r.has_more == (page_offset(page, limit) + r.items@.len() < r.total),
    {
        let mut items = self.merged_artist_cards(f, filters, now_ms);
        let ghost all = viewed(items@);
        proof {
            lemma_merged_len(*f, *self, *filters, now_ms);
            assert(all.len() == items@.len());
        }
        let offset = offset_of(page, limit);
        let total = items.len() as i64;
        sort_cards_folded(&mut items);
        let ghost sorted = items@;
        proof {
            lemma_sorted_len(all, by_size_folded());
            assert(viewed(items@).len() == items@.len());
        }
        drop_first(&mut items, offset);
        proof {
            assert(viewed(items@) =~= from_offset(viewed(sorted), offset as int));
        }
        let ghost tail = items@;
        let most: i64 = if limit > 0 {
            limit
        } else {
            0
        };
        limit_to(&mut items, most);
        proof {
            assert(viewed(items@) =~= limited(viewed(tail), most));
        }
        let has_more = offset + (items.len() as i64) < total;
        ArtistsPage {
            items,
            total,
            page: if page > 1 {
                page
            } else {
                1
            },
            has_more,
        }
    }

    /// A page of the artists that are shown: those of the library, or with
    /// them those that peers told of.
    pub fn artists<F: Fn(&str) -> String>(
        &self,
        f: &F,
        page: i64,
        limit: i64,
        filters: LibraryFilters,
        now_ms: i64,
    ) -> (r: ArtistsPage)
        requires
            normalizes(*f),
            page_fits(page, limit, 0int + self.artists@.len() + self.network@.len()),
        ensures
            artists_answer(*f, *self, page, limit, filters, now_ms, r),
    {
        if !filters.source_mode.includes_network() {
            self.local_artists(page, limit, filters.hide_featured_only)
        } else {
            self.merged_artists(f, page, limit, &filters, now_ms)
        }
    }
}

proof fn lemma_keyed_len<F: Fn(&str) -> String>(f: F, cards: Seq<ArtistCardView>)
    ensures
        keyed_local(f, cards).len() <= cards.len(),
    decreases cards.len(),
{
    if cards.len() > 0 {
        let b = keyed_local(f, cards.drop_last());
        lemma_keyed_len(f, cards.drop_last());
        lemma_first_where(b, is_keyed(key_of(f, cards.last().name)));
    }
}

proof fn lemma_groups_len(rows: Seq<NetworkView>, filters: LibraryFilters, now_ms: i64)
    ensures
        groups_of(rows, filters, now_ms).len() <= rows.len(),
    decreases rows.len(),
{
    if rows.len() > 0 {
        let b = groups_of(rows.drop_last(), filters, now_ms);
        lemma_groups_len(rows.drop_last(), filters, now_ms);
        lemma_first_where(b, is_group(rows.last().artist_key));
    }
}

proof fn lemma_with_groups_len(s: Seq<KeyedCard>, groups: Seq<Group>)
    ensures
        with_groups(s, groups).len() <= s.len() + groups.len(),
    decreases groups.len(),
{
    if groups.len() > 0 {
        let b = with_groups(s, groups.drop_last());
        lemma_with_groups_len(s, groups.drop_last());
        lemma_first_where(b, is_keyed(groups.last().key));
    }
}

proof fn lemma_merged_len<F: Fn(&str) -> String>(
    f: F,
    lib: Library,
    filters: LibraryFilters,
    now_ms: i64,
)
    ensures
        merged_cards(f, lib, filters, now_ms).len() <= lib.artists@.len() + lib.network@.len(),
{
    lemma_shown_len(lib, filters.hide_featured_only);
    lemma_keyed_len(f, shown_cards(lib, filters.hide_featured_only));
    lemma_groups_len(viewed(lib.network@), filters, now_ms);
    lemma_with_groups_len(
        keyed_local(f, shown_cards(lib, filters.hide_featured_only)),
        groups_of(viewed(lib.network@), filters, now_ms),
    );
}

} // verus!
