//! The appearances on the card of an artist, and the card as a whole.

use crate::federation::catalog::{
    agrees, appearance_order, catalog_views, has_source, merge_catalogs, merged_card,
    numbers_agree, or_else, or_other, put_source, put_text, sort_fed_appearances, sources_view,
    with_source, with_text, AppearsView, CardTrackView, CardView, CatalogArtist, FedAppearsOn,
    FedArtistCard, FedCardTrack, FedRelease, FedReleaseView,
};
use crate::federation::search::{
    cached_has_artist, CachedTrackMetadata, CachedView, ItemKind, NetItem, NetItemView,
};
use crate::federation::track::{any_key, has_key, push_artist_once, with_artist};
use crate::library::models::clone_strings;
use crate::lists::{first_where, lemma_first_where, stable_sorted, viewed};
use crate::names::{key, key_of, normalizes};
use crate::text::{opt_view, same, views};
use vstd::prelude::*;

verus! {

/// Names with more behind them, each key once.
pub open spec fn with_artists<F: Fn(&str) -> String>(
    f: F,
    names: Seq<Seq<char>>,
    more: Seq<Seq<char>>,
) -> Seq<Seq<char>>
    decreases more.len(),
{
    if more.len() == 0 {
        names
    } else {
        with_artist(f, with_artists(f, names, more.drop_last()), more.last())
    }
}

fn push_artists<F: Fn(&str) -> String>(f: &F, names: &mut Vec<String>, more: &Vec<String>)
    requires
        normalizes(*f),
    ensures
        views(final(names)@) == with_artists(*f, views(old(names)@), views(more@)),
{
    let ghost start = views(names@);
    let ghost all = views(more@);
    let mut i: usize = 0;
    proof {
        assert(all.take(0) =~= Seq::empty());
    }
    while i < more.len()
        invariant
            i <= more@.len(),
            all == views(more@),
            normalizes(*f),
            views(names@) == with_artists(*f, start, all.take(i as int)),
        decreases more@.len() - i,
    {
        push_artist_once(f, names, more[i].as_str());
        proof {
            assert(all.take(i + 1).drop_last() =~= all.take(i as int));
            assert(all.take(i + 1).last() == more@[i as int]@);
        }
        i += 1;
    }
    proof {
        assert(all.take(more@.len() as int) =~= all);
    }
}

pub open spec fn or_empty(t: Option<Seq<char>>) -> Seq<char> {
    match t {
        Some(s) => s,
        None => Seq::empty(),
    }
}

fn text_or_empty(t: &Option<String>) -> (r: String)
    ensures
        r@ == or_empty(opt_view(*t)),
{
    match t {
        Some(s) => s.clone(),
        None => String::new(),
    }
}

/// Where a published track features an artist, given by its key: how it is
/// shown on the artist's card.
pub open spec fn item_appearance<F: Fn(&str) -> String>(
    f: F,
    item: NetItemView,
    artist: Seq<char>,
    display: Seq<char>,
) -> Option<AppearsView> {
    if item.kind is Track && has_key(f, item.featured_artist_names, artist) {
        Some(
            AppearsView {
                release_title: or_empty(item.release_title),
                release_type: or_empty(item.release_type),
                year: item.year,
                track: CardTrackView {
                    title: item.name,
                    artists: with_artists(f, Seq::empty(), item.artist_names),
                    featured_artists: or_other(
                        with_artists(f, Seq::empty(), item.featured_artist_names),
                        seq![display],
                    ),
                    track_number: item.track_number,
                    disc_number: item.disc_number,
                    duration: item.duration,
                    content_id: item.content_id,
                    sources: seq![(item.owner, item.id)],
                },
            },
        )
    } else {
        None
    }
}

pub open spec fn appears_view(a: Option<FedAppearsOn>) -> Option<AppearsView> {
    match a {
        Some(v) => Some(v@),
        None => None,
    }
}

fn one_source(owner: &String, item: &String) -> (r: Vec<(String, String)>)
    ensures
        sources_view(r@) == seq![(owner@, item@)],
{
    let mut sources: Vec<(String, String)> = Vec::new();
    sources.push((owner.clone(), item.clone()));
    proof {
        assert(sources_view(sources@) =~= seq![(owner@, item@)]);
    }
    sources
}

pub fn dht_appearance_hit<F: Fn(&str) -> String>(
    f: &F,
    item: &NetItem,
    artist: &str,
    display: &str,
) -> (r: Option<FedAppearsOn>)
    requires
        normalizes(*f),
    ensures
        appears_view(r) == item_appearance(*f, item@, artist@, display@),
{
    if item.kind != ItemKind::Track || !any_key(f, &item.featured_artist_names, artist) {
        return None;
    }
    let mut artists: Vec<String> = Vec::new();
    let mut featured_artists: Vec<String> = Vec::new();
    proof {
        assert(views(artists@) =~= Seq::empty());
        assert(views(featured_artists@) =~= Seq::empty());
    }
    push_artists(f, &mut artists, &item.artist_names);
    push_artists(f, &mut featured_artists, &item.featured_artist_names);
    proof {
        assert(views(featured_artists@).len() == featured_artists@.len());
    }
    if featured_artists.len() == 0 {
        featured_artists.push(display.to_owned());
        proof {
            assert(views(featured_artists@) =~= seq![display@]);
        }
    }
    Some(
        FedAppearsOn {
            release_title: text_or_empty(&item.release_title),
            release_type: text_or_empty(&item.release_type),
            year: item.year,
            track: FedCardTrack {
                title: item.name.clone(),
                artists,
                featured_artists,
                track_number: item.track_number,
                disc_number: item.disc_number,
                duration: item.duration,
                content_id: item.content_id.clone(),
                sources: one_source(&item.owner, &item.id),
            },
        },
    )
}

/// Where a track of which more was learnt features an artist: how it is shown
/// on the artist's card.
pub open spec fn cached_appearance<F: Fn(&str) -> String>(
    f: F,
    c: CachedView,
    artist: Seq<char>,
    display: Seq<char>,
) -> Option<AppearsView> {
    if has_key(f, c.featured_artists, artist) {
        Some(
            AppearsView {
                release_title: or_empty(c.release_title),
                release_type: or_empty(c.release_type),
                year: c.year,
                track: CardTrackView {
                    title: c.title,
                    artists: c.artists,
                    featured_artists: or_other(c.featured_artists, seq![display]),
                    track_number: c.track_number,
                    disc_number: c.disc_number,
                    duration: c.duration,
                    content_id: c.fed.content_id,
                    sources: seq![(c.fed.owner, c.fed.item_id)],
                },
            },
        )
    } else {
        None
    }
}

pub fn cached_appearance_hit<F: Fn(&str) -> String>(
    f: &F,
    cached: &CachedTrackMetadata,
    artist: &str,
    display: &str,
) -> (r: Option<FedAppearsOn>)
    requires
        normalizes(*f),
    ensures
        appears_view(r) == cached_appearance(*f, cached@, artist@, display@),
{
    if !cached_has_artist(f, cached, artist) {
        return None;
    }
    let mut featured_artists = clone_strings(&cached.featured_artists);
    proof {
        assert(views(featured_artists@).len() == featured_artists@.len());
    }
    if featured_artists.len() == 0 {
        featured_artists.push(display.to_owned());
        proof {
            assert(views(featured_artists@) =~= seq![display@]);
        }
    }
    Some(
        FedAppearsOn {
            release_title: text_or_empty(&cached.release_title),
            release_type: text_or_empty(&cached.release_type),
            year: cached.year,
            track: FedCardTrack {
                title: cached.title.clone(),
                artists: clone_strings(&cached.artists),
                featured_artists,
                track_number: cached.track_number,
                disc_number: cached.disc_number,
                duration: cached.duration,
                content_id: cached.fed.content_id.clone(),
                sources: one_source(&cached.fed.owner, &cached.fed.item_id),
            },
        },
    )
}

// ---------------------------------------------------------------------------
// Adding an appearance
// ---------------------------------------------------------------------------

pub open spec fn with_sources(
    s: Seq<(Seq<char>, Seq<char>)>,
    more: Seq<(Seq<char>, Seq<char>)>,
) -> Seq<(Seq<char>, Seq<char>)>
    decreases more.len(),
{
    if more.len() == 0 {
        s
    } else {
        with_source(with_sources(s, more.drop_last()), more.last())
    }
}

/// An appearance with what another one of the same track says.
pub open spec fn merged_hit<F: Fn(&str) -> String>(f: F, t: AppearsView, a: AppearsView) -> AppearsView {
    AppearsView {
        release_title: or_other(t.release_title, a.release_title),
        release_type: or_other(t.release_type, a.release_type),
        year: or_else(t.year, a.year),
        track: CardTrackView {
            title: t.track.title,
            artists: with_artists(f, t.track.artists, a.track.artists),
            featured_artists: with_artists(f, t.track.featured_artists, a.track.featured_artists),
            track_number: t.track.track_number,
            disc_number: t.track.disc_number,
            duration: or_else(t.track.duration, a.track.duration),
            content_id: or_else(t.track.content_id, a.track.content_id),
            sources: with_sources(t.track.sources, a.track.sources),
        },
    }
}

fn merge_dht_appearance<F: Fn(&str) -> String>(f: &F, target: &mut FedAppearsOn, a: FedAppearsOn)
    requires
        normalizes(*f),
    ensures
        final(target)@ == merged_hit(*f, old(target)@, a@),
{
    let ghost t = target@;
    let ghost x = a@;
    if target.release_title.as_str().is_empty() {
        target.release_title = a.release_title;
    }
    if target.release_type.as_str().is_empty() {
        target.release_type = a.release_type;
    }
    if target.year.is_none() {
        target.year = a.year;
    }
    if target.track.duration.is_none() {
        target.track.duration = a.track.duration;
    }
    if target.track.content_id.is_none() {
        target.track.content_id = a.track.content_id;
    }
    push_artists(f, &mut target.track.artists, &a.track.artists);
    push_artists(f, &mut target.track.featured_artists, &a.track.featured_artists);
    put_sources(&mut target.track.sources, &a.track.sources);
    proof {
        assert(target@.track =~= merged_hit(*f, t, x).track);
        assert(target@ =~= merged_hit(*f, t, x));
    }
}

fn put_sources(v: &mut Vec<(String, String)>, more: &Vec<(String, String)>)
    ensures
        sources_view(final(v)@) == with_sources(sources_view(old(v)@), sources_view(more@)),
{
    let ghost start = sources_view(v@);
    let ghost all = sources_view(more@);
    let mut i: usize = 0;
    proof {
        assert(all.take(0) =~= Seq::empty());
    }
    while i < more.len()
        invariant
            i <= more@.len(),
            all == sources_view(more@),
            sources_view(v@) == with_sources(start, all.take(i as int)),
        decreases more@.len() - i,
    {
        put_source(v, more[i].0.as_str(), more[i].1.clone());
        proof {
            assert(all.take(i + 1).drop_last() =~= all.take(i as int));
            assert(all.take(i + 1).last() == (more@[i as int].0@, more@[i as int].1@));
        }
        i += 1;
    }
    proof {
        assert(all.take(more@.len() as int) =~= all);
    }
}

/// Whether an appearance can be of the same track: the titles have the same
/// key, and the release, the number and the year are the same where both are
/// known.
pub open spec fn is_same_appearance<F: Fn(&str) -> String>(f: F, r: AppearsView) -> spec_fn(
    AppearsView,
) -> bool {
    |l: AppearsView|
        {
            let a = key_of(f, l.release_title);
            let b = key_of(f, r.release_title);
            &&& a == b || a.len() == 0 || b.len() == 0
            &&& key_of(f, l.track.title) == key_of(f, r.track.title)
            &&& agrees(l.track.track_number, r.track.track_number)
            &&& agrees(l.year, r.year)
        }
}

pub fn same_appearance<F: Fn(&str) -> String>(f: &F, left: &FedAppearsOn, right: &FedAppearsOn) -> (r:
    bool)
    requires
        normalizes(*f),
    ensures
        r == is_same_appearance(*f, right@)(left@),
{
    let a = key(f, left.release_title.as_str());
    let b = key(f, right.release_title.as_str());
    (same(a.as_str(), b.as_str()) || a.as_str().is_empty() || b.as_str().is_empty()) && same(
        key(f, left.track.title.as_str()).as_str(),
        key(f, right.track.title.as_str()).as_str(),
    ) && numbers_agree(left.track.track_number, right.track.track_number) && numbers_agree(
        left.year,
        right.year,
    )
}

pub open spec fn offers(p: (Seq<char>, Seq<char>)) -> spec_fn(AppearsView) -> bool {
    |a: AppearsView| a.track.sources.contains(p)
}

/// Whether a release of a card has a track from a source.
pub open spec fn released(releases: Seq<FedReleaseView>, p: (Seq<char>, Seq<char>)) -> bool {
    exists|i: int, j: int|
        0 <= i < releases.len() && 0 <= j < releases[i].tracks.len()
            && #[trigger] releases[i].tracks[j].sources.contains(p)
}

/// A card with one more appearance, and whether that changed it. A track that
/// stands on a release of the artist is no appearance.
pub open spec fn card_with<F: Fn(&str) -> String>(f: F, card: CardView, a: AppearsView) -> (
    CardView,
    bool,
) {
    if a.track.sources.len() == 0 {
        (card, false)
    } else {
        let p = a.track.sources[0];
        if released(card.releases, p) {
            (card, false)
        } else {
            match first_where(card.appears_on, offers(p)) {
                Some(i) => (
                    CardView {
                        appears_on: card.appears_on.update(i, merged_hit(f, card.appears_on[i], a)),
                        ..card
                    },
                    true,
                ),
                None => (
                    CardView {
                        owners: with_text(card.owners, p.0),
                        appears_on: match first_where(card.appears_on, is_same_appearance(f, a)) {
                            Some(i) => card.appears_on.update(
                                i,
                                merged_hit(f, card.appears_on[i], a),
                            ),
                            None => card.appears_on.push(a),
                        },
                        ..card
                    },
                    true,
                ),
            }
        }
    }
}

fn release_has_source(release: &FedRelease, owner: &str, item: &str) -> (r: bool)
    ensures
        r == exists|j: int|
            0 <= j < release@.tracks.len() && (#[trigger] release@.tracks[j]).sources.contains(
                (owner@, item@),
            ),
{
    let ghost all = release@.tracks;
    let mut i: usize = 0;
    while i < release.tracks.len()
        invariant
            i <= release.tracks@.len(),
            all == release@.tracks,
            forall|j: int| 0 <= j < i ==> !(#[trigger] all[j]).sources.contains((owner@, item@)),
        decreases release.tracks@.len() - i,
    {
        proof {
            assert(all[i as int] == release.tracks@[i as int]@);
        }
        if has_source(&release.tracks[i].sources, owner, item) {
            return true;
        }
        i += 1;
    }
    false
}

fn fed_releases_have_source(releases: &Vec<FedRelease>, owner: &str, item: &str) -> (r: bool)
    ensures
        r == released(viewed(releases@), (owner@, item@)),
{
    let ghost all = viewed(releases@);
    let ghost p = (owner@, item@);
    let mut i: usize = 0;
    while i < releases.len()
        invariant
            i <= releases@.len(),
            all == viewed(releases@),
            p == (owner@, item@),
            forall|k: int, j: int|
                0 <= k < i && 0 <= j < all[k].tracks.len()
                    ==> !(#[trigger] all[k].tracks[j]).sources.contains(p),
        decreases releases@.len() - i,
    {
        proof {
            assert(all[i as int] == releases@[i as int]@);
        }
        if release_has_source(&releases[i], owner, item) {
            proof {
                let j = choose|j: int|
                    0 <= j < releases@[i as int]@.tracks.len() && (
                    #[trigger] releases@[i as int]@.tracks[j]).sources.contains(p);
                assert(all[i as int].tracks[j].sources.contains(p));
            }
            return true;
        }
        i += 1;
    }
    proof {
        if released(all, p) {
            let (k, j) = choose|k: int, j: int|
                0 <= k < all.len() && 0 <= j < all[k].tracks.len()
                    && #[trigger] all[k].tracks[j].sources.contains(p);
            assert(!all[k].tracks[j].sources.contains(p));
        }
    }
    false
}

pub fn add_appearance_to_card<F: Fn(&str) -> String>(
    f: &F,
    card: &mut FedArtistCard,
    appearance: FedAppearsOn,
) -> (r: bool)
    requires
        normalizes(*f),
    ensures
        (final(card)@, r) == card_with(*f, old(card)@, appearance@),
{
    let ghost before = card@;
    let ghost a = appearance@;
    let ghost rows = card.appears_on@;
    proof {
        assert(a.track.sources.len() == appearance.track.sources@.len());
    }
    if appearance.track.sources.len() == 0 {
        return false;
    }
    let owner = appearance.track.sources[0].0.clone();
    let item = appearance.track.sources[0].1.clone();
    let ghost p = (owner@, item@);
    proof {
        assert(a.track.sources[0] == p);
    }
    if fed_releases_have_source(&card.releases, owner.as_str(), item.as_str()) {
        return false;
    }
    let mut i: usize = 0;
    while i < card.appears_on.len()
        invariant
            i <= card.appears_on@.len(),
            card.appears_on@ == rows,
            card@ == before,
            before == old(card)@,
            a == appearance@,
            p == (owner@, item@),
            a.track.sources.len() > 0,
            a.track.sources[0] == p,
            !released(before.releases, p),
            normalizes(*f),
            forall|j: int| 0 <= j < i ==> !offers(p)(#[trigger] viewed(rows)[j]),
        decreases card.appears_on@.len() - i,
    {
        proof {
            assert(viewed(rows)[i as int] == rows[i as int]@);
        }
        if has_source(&card.appears_on[i].track.sources, owner.as_str(), item.as_str()) {
            proof {
                lemma_first_where(viewed(rows), offers(p));
                assert(offers(p)(viewed(rows)[i as int]));
            }
            merge_dht_appearance(f, &mut card.appears_on[i], appearance);
            proof {
                assert(viewed(card.appears_on@) =~= viewed(rows).update(
                    i as int,
                    merged_hit(*f, viewed(rows)[i as int], a),
                ));
                assert(card@ =~= card_with(*f, before, a).0);
            }
            return true;
        }
        i += 1;
    }
    proof {
        lemma_first_where(viewed(rows), offers(p));
        assert(viewed(rows) == before.appears_on);
    }
    put_text(&mut card.owners, owner.as_str());
    let ghost owners = views(card.owners@);
    let mut k: usize = 0;
    while k < card.appears_on.len()
        invariant
            k <= card.appears_on@.len(),
            card.appears_on@ == rows,
            card@ == (CardView { owners, ..before }),
            owners == with_text(before.owners, p.0),
            before == old(card)@,
            before.appears_on == viewed(rows),
            a == appearance@,
            a.track.sources.len() > 0,
            a.track.sources[0] == p,
            !released(before.releases, p),
            first_where(before.appears_on, offers(p)) is None,
            normalizes(*f),
            forall|j: int|
                0 <= j < k ==> !is_same_appearance(*f, a)(#[trigger] viewed(rows)[j]),
        decreases card.appears_on@.len() - k,
    {
        proof {
            assert(viewed(rows)[k as int] == rows[k as int]@);
        }
        if same_appearance(f, &card.appears_on[k], &appearance) {
            proof {
                lemma_first_where(viewed(rows), is_same_appearance(*f, a));
                assert(is_same_appearance(*f, a)(viewed(rows)[k as int]));
            }
            merge_dht_appearance(f, &mut card.appears_on[k], appearance);
            proof {
                assert(viewed(card.appears_on@) =~= viewed(rows).update(
                    k as int,
                    merged_hit(*f, viewed(rows)[k as int], a),
                ));
                assert(card@ =~= card_with(*f, before, a).0);
            }
            return true;
        }
        k += 1;
    }
    proof {
        lemma_first_where(viewed(rows), is_same_appearance(*f, a));
    }
    card.appears_on.push(appearance);
    proof {
        assert(viewed(card.appears_on@) =~= viewed(rows).push(a));
        assert(card@ =~= card_with(*f, before, a).0);
    }
    true
}

/// A card with several appearances, and whether one changed it.
pub open spec fn card_with_all<F: Fn(&str) -> String>(f: F, card: CardView, rows: Seq<AppearsView>) -> (
    CardView,
    bool,
)
    decreases rows.len(),
{
    if rows.len() == 0 {
        (card, false)
    } else {
        let (c, changed) = card_with_all(f, card, rows.drop_last());
        let (d, more) = card_with(f, c, rows.last());
        (d, changed || more)
    }
}

/// The card after appearances were added: where one changed it, its peers are
/// counted anew and the appearances are sorted.
pub open spec fn card_after<F: Fn(&str) -> String>(f: F, card: CardView, rows: Seq<AppearsView>) -> CardView {
    let (c, changed) = card_with_all(f, card, rows);
    if changed {
        CardView {
            peers: c.owners.len() as usize,
            appears_on: stable_sorted(c.appears_on, appearance_order()),
            ..c
        }
    } else {
        c
    }
}

fn add_appearances<F: Fn(&str) -> String>(
    f: &F,
    card: &mut FedArtistCard,
    rows: Vec<FedAppearsOn>,
)
    requires
        normalizes(*f),
    ensures
        final(card)@ == card_after(*f, old(card)@, viewed(rows@)),
{
    let ghost start = card@;
    let ghost all = viewed(rows@);
    let size: usize = rows.len();
    let mut rest = rows;
    let mut changed = false;
    let mut i: usize = 0;
    proof {
        assert(all.take(0) =~= Seq::empty());
        assert(all.skip(0) =~= all);
    }
    while i < size
        invariant
            i <= size,
            size == all.len(),
            normalizes(*f),
            viewed(rest@) == all.skip(i as int),
            (card@, changed) == card_with_all(*f, start, all.take(i as int)),
        decreases size - i,
    {
        proof {
            assert(viewed(rest@).len() == rest@.len());
            assert(viewed(rest@)[0] == rest@[0]@);
            assert(all.skip(i as int)[0] == all[i as int]);
            assert(all.take(i + 1).drop_last() =~= all.take(i as int));
            assert(all.take(i + 1).last() == all[i as int]);
        }
        let ghost before = rest@;
        let a = rest.remove(0);
        proof {
            assert(viewed(rest@) =~= viewed(before).skip(1));
            assert(all.skip(i as int).skip(1) =~= all.skip(i + 1));
        }
        if add_appearance_to_card(f, card, a) {
            changed = true;
        }
        i += 1;
    }
    let ghost c = card@;
    proof {
        assert(all.take(size as int) =~= all);
        assert(c.owners.len() == card.owners@.len());
    }
    if changed {
        card.peers = card.owners.len();
        sort_fed_appearances(&mut card.appears_on);
        proof {
            assert(card@ =~= card_after(*f, start, all));
        }
    }
}

/// The appearances of an artist among published items.
pub open spec fn item_appearances<F: Fn(&str) -> String>(
    f: F,
    items: Seq<NetItemView>,
    artist: Seq<char>,
    display: Seq<char>,
) -> Seq<AppearsView>
    decreases items.len(),
{
    if items.len() == 0 {
        Seq::empty()
    } else {
        let before = item_appearances(f, items.drop_last(), artist, display);
        match item_appearance(f, items.last(), artist, display) {
            Some(a) => before.push(a),
            None => before,
        }
    }
}

/// The appearances of an artist among the tracks of which more was learnt.
pub open spec fn cached_appearances<F: Fn(&str) -> String>(
    f: F,
    cached: Seq<CachedView>,
    artist: Seq<char>,
    display: Seq<char>,
) -> Seq<AppearsView>
    decreases cached.len(),
{
    if cached.len() == 0 {
        Seq::empty()
    } else {
        let before = cached_appearances(f, cached.drop_last(), artist, display);
        match cached_appearance(f, cached.last(), artist, display) {
            Some(a) => before.push(a),
            None => before,
        }
    }
}

/// Adds what peers published of an artist to its card.
pub fn add_dht_appearance_hits<F: Fn(&str) -> String>(
    f: &F,
    card: &mut FedArtistCard,
    hits: &Vec<NetItem>,
    artist: &str,
    display: &str,
)
    requires
        normalizes(*f),
    ensures
        final(card)@ == card_after(
            *f,
            old(card)@,
            item_appearances(*f, viewed(hits@), artist@, display@),
        ),
{
    let ghost all = viewed(hits@);
    let mut rows: Vec<FedAppearsOn> = Vec::new();
    let mut i: usize = 0;
    proof {
        assert(all.take(0) =~= Seq::empty());
        assert(viewed(rows@) =~= Seq::empty());
    }
    while i < hits.len()
        invariant
            i <= hits@.len(),
            all == viewed(hits@),
            normalizes(*f),
            viewed(rows@) == item_appearances(*f, all.take(i as int), artist@, display@),
        decreases hits@.len() - i,
    {
        proof {
            assert(all.take(i + 1).drop_last() =~= all.take(i as int));
            assert(all.take(i + 1).last() == hits@[i as int]@);
        }
        if let Some(a) = dht_appearance_hit(f, &hits[i], artist, display) {
            let ghost before = rows@;
            let ghost x = a@;
            rows.push(a);
            proof {
                assert(viewed(rows@) =~= viewed(before).push(x));
            }
        }
        i += 1;
    }
    proof {
        assert(all.take(hits@.len() as int) =~= all);
    }
    add_appearances(f, card, rows);
}

/// Adds what was learnt of an artist's tracks to its card.
pub fn add_cached_appearance_hits<F: Fn(&str) -> String>(
    f: &F,
    card: &mut FedArtistCard,
    cached: &Vec<CachedTrackMetadata>,
    artist: &str,
    display: &str,
)
    requires
        normalizes(*f),
    ensures
        final(card)@ == card_after(
            *f,
            old(card)@,
            cached_appearances(*f, viewed(cached@), artist@, display@),
        ),
{
    let ghost all = viewed(cached@);
    let mut rows: Vec<FedAppearsOn> = Vec::new();
    let mut i: usize = 0;
    proof {
        assert(all.take(0) =~= Seq::empty());
        assert(viewed(rows@) =~= Seq::empty());
    }
    while i < cached.len()
        invariant
            i <= cached@.len(),
            all == viewed(cached@),
            normalizes(*f),
            viewed(rows@) == cached_appearances(*f, all.take(i as int), artist@, display@),
        decreases cached@.len() - i,
    {
        proof {
            assert(all.take(i + 1).drop_last() =~= all.take(i as int));
            assert(all.take(i + 1).last() == cached@[i as int]@);
        }
        if let Some(a) = cached_appearance_hit(f, &cached[i], artist, display) {
            let ghost before = rows@;
            let ghost x = a@;
            rows.push(a);
            proof {
                assert(viewed(rows@) =~= viewed(before).push(x));
            }
        }
        i += 1;
    }
    proof {
        assert(all.take(cached@.len() as int) =~= all);
    }
    add_appearances(f, card, rows);
}

// ---------------------------------------------------------------------------
// The card as a whole
// ---------------------------------------------------------------------------

/// Whether a published item is of an artist or has it among its names.
pub open spec fn concerns<F: Fn(&str) -> String>(f: F, item: NetItemView, artist: Seq<char>) -> bool {
    ||| item.kind is Artist && item.normalized_name == artist
    ||| has_key(f, item.artist_names, artist)
    ||| has_key(f, item.featured_artist_names, artist)
}

/// The other peers that hold an artist.
pub open spec fn holders<F: Fn(&str) -> String>(
    f: F,
    items: Seq<NetItemView>,
    artist: Seq<char>,
    own: Seq<char>,
) -> Seq<Seq<char>>
    decreases items.len(),
{
    if items.len() == 0 {
        Seq::empty()
    } else {
        let before = holders(f, items.drop_last(), artist, own);
        if concerns(f, items.last(), artist) && items.last().owner != own {
            with_text(before, items.last().owner)
        } else {
            before
        }
    }
}

/// The other peers that are asked for their part of a card.
pub open spec fn lists_holders<F: Fn(&str) -> String>(
    f: F,
    items: Seq<NetItemView>,
    name: Seq<char>,
    own: Seq<char>,
    r: Seq<String>,
) -> bool {
    views(r) == holders(f, items, key_of(f, name), own)
}

/// The other peers that are asked for their part of an artist's card.
pub fn card_owners<F: Fn(&str) -> String>(f: &F, items: &Vec<NetItem>, name: &str, own: &str) -> (r:
    Vec<String>)
    requires
        normalizes(*f),
    ensures
        lists_holders(*f, viewed(items@), name@, own@, r@),
{
    let artist = key(f, name);
    let ghost all = viewed(items@);
    let mut out: Vec<String> = Vec::new();
    let mut i: usize = 0;
    proof {
        assert(all.take(0) =~= Seq::empty());
        assert(views(out@) =~= Seq::empty());
    }
    while i < items.len()
        invariant
            i <= items@.len(),
            all == viewed(items@),
            normalizes(*f),
            views(out@) == holders(*f, all.take(i as int), artist@, own@),
        decreases items@.len() - i,
    {
        proof {
            assert(all.take(i + 1).drop_last() =~= all.take(i as int));
            assert(all.take(i + 1).last() == items@[i as int]@);
        }
        let item = &items[i];
        let about = (item.kind == ItemKind::Artist && same(
            item.normalized_name.as_str(),
            artist.as_str(),
        )) || any_key(f, &item.artist_names, artist.as_str()) || any_key(
            f,
            &item.featured_artist_names,
            artist.as_str(),
        );
        if about && !same(item.owner.as_str(), own) {
            put_text(&mut out, item.owner.as_str());
        }
        i += 1;
    }
    proof {
        assert(all.take(items@.len() as int) =~= all);
    }
    out
}

/// Whether an artist is featured on a track of which more was learnt.
pub open spec fn any_cached<F: Fn(&str) -> String>(f: F, cached: Seq<CachedView>, artist: Seq<char>) -> bool {
    exists|i: int|
        0 <= i < cached.len() && has_key(f, (#[trigger] cached[i]).featured_artists, artist)
}

/// Whether a card can be put together: another peer holds the artist, this one
/// does, or a track that features it is known.
pub fn check_card_sources<F: Fn(&str) -> String>(
    f: &F,
    name: &str,
    owners: &Vec<String>,
    has_local: bool,
    cached: &Vec<CachedTrackMetadata>,
) -> (r: Result<(), String>)
    requires
        normalizes(*f),
    ensures
        r is Ok == (owners@.len() > 0 || has_local || any_cached(
            *f,
            viewed(cached@),
            key_of(*f, name@),
        )),
        r matches Err(e) ==> e@ == "no peers hold artist \""@ + name@ + "\""@,
{
    if owners.len() > 0 || has_local {
        return Ok(());
    }
    let artist = key(f, name);
    let ghost all = viewed(cached@);
    let mut i: usize = 0;
    while i < cached.len()
        invariant
            i <= cached@.len(),
            all == viewed(cached@),
            normalizes(*f),
            artist@ == key_of(*f, name@),
            owners@.len() == 0,
            !has_local,
            forall|j: int|
                0 <= j < i ==> !has_key(*f, (#[trigger] all[j]).featured_artists, artist@),
        decreases cached@.len() - i,
    {
        proof {
            assert(all[i as int] == cached@[i as int]@);
        }
        if cached_has_artist(f, &cached[i], artist.as_str()) {
            return Ok(());
        }
        i += 1;
    }
    let mut e = "no peers hold artist \"".to_owned();
    e.append(name);
    e.append("\"");
    Err(e)
}

/// The card of an artist: what peers hold of it, with the appearances that
/// were published and those that were learnt.
pub open spec fn whole_card<F: Fn(&str) -> String>(
    f: F,
    name: Seq<char>,
    catalogs: Seq<(Seq<char>, crate::federation::catalog::CatalogArtistView)>,
    items: Seq<NetItemView>,
    cached: Seq<CachedView>,
) -> CardView {
    let k = key_of(f, name);
    card_after(
        f,
        card_after(f, merged_card(f, name, catalogs), item_appearances(f, items, k, name)),
        cached_appearances(f, cached, k, name),
    )
}

/// Puts the card of an artist together. A card without a release or an
/// appearance is an error.
pub fn artist_card<F: Fn(&str) -> String>(
    f: &F,
    name: &str,
    own: &str,
    catalogs: Vec<(String, CatalogArtist)>,
    items: &Vec<NetItem>,
    cached: &Vec<CachedTrackMetadata>,
) -> (r: Result<FedArtistCard, String>)
    requires
        normalizes(*f),
    ensures
        ({
            let c = whole_card(
                *f,
                name@,
                catalog_views(catalogs@),
                viewed(items@),
                viewed(cached@),
            );
            &&& r is Ok == (c.releases.len() > 0 || c.appears_on.len() > 0)
            &&& match r {
                Ok(v) => v@ == (CardView { own_owner: Some(own@), ..c }),
                Err(e) => e@ == "none of the peers returned releases or appearances"@,
            }
        }),
{
    let k = key(f, name);
    let mut card = merge_catalogs(f, name, catalogs);
    add_dht_appearance_hits(f, &mut card, items, k.as_str(), name);
    add_cached_appearance_hits(f, &mut card, cached, k.as_str(), name);
    proof {
        assert(card@.releases.len() == card.releases@.len());
        assert(card@.appears_on.len() == card.appears_on@.len());
    }
    if card.releases.len() == 0 && card.appears_on.len() == 0 {
        return Err("none of the peers returned releases or appearances".to_owned());
    }
    card.own_owner = Some(own.to_owned());
    Ok(card)
}

} // verus!
