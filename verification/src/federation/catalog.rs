//! The card of an artist, put together from what each peer holds of it.

use crate::library::models::Seconds;
use crate::lists::{
    find_by, first_where, holds_text, is_text, lemma_first_mapped, lemma_first_where, lemma_sorted_mapped, sort_by,
    stable_sorted, viewed,
};
use crate::names::{key, key_of, normalizes};
use crate::text::{before, opt_view, precedes, same, signed_text, views};
use vstd::prelude::*;

verus! {

/// The largest answer.
pub const MAX_CATALOG_BYTES: u64 = 4_194_304;

/// Images above this size are not sent.
pub const MAX_IMAGE_BYTES: u64 = 16_777_216;

/// A track as a peer tells of it.
#[derive(Debug)]
pub struct CatalogTrack {
    pub title: String,
    pub artists: Vec<String>,
    pub featured_artists: Vec<String>,
    pub track_number: Option<i32>,
    pub disc_number: Option<i32>,
    pub duration: Option<Seconds>,
    pub content_id: Option<String>,
    /// The item that the audio is asked for by.
    pub item_id: String,
}

#[verifier::ext_equal]
pub struct CatalogTrackView {
    pub title: Seq<char>,
    pub artists: Seq<Seq<char>>,
    pub featured_artists: Seq<Seq<char>>,
    pub track_number: Option<i32>,
    pub disc_number: Option<i32>,
    pub duration: Option<Seconds>,
    pub content_id: Option<Seq<char>>,
    pub item_id: Seq<char>,
}

impl View for CatalogTrack {
    type V = CatalogTrackView;

    open spec fn view(&self) -> CatalogTrackView {
        CatalogTrackView {
            title: self.title@,
            artists: views(self.artists@),
            featured_artists: views(self.featured_artists@),
            track_number: self.track_number,
            disc_number: self.disc_number,
            duration: self.duration,
            content_id: opt_view(self.content_id),
            item_id: self.item_id@,
        }
    }
}

#[derive(Debug)]
pub struct CatalogRelease {
    pub title: String,
    pub release_type: String,
    pub year: Option<i32>,
    pub tracks: Vec<CatalogTrack>,
}

#[verifier::ext_equal]
pub struct CatalogReleaseView {
    pub title: Seq<char>,
    pub release_type: Seq<char>,
    pub year: Option<i32>,
    pub tracks: Seq<CatalogTrackView>,
}

impl View for CatalogRelease {
    type V = CatalogReleaseView;

    open spec fn view(&self) -> CatalogReleaseView {
        CatalogReleaseView {
            title: self.title@,
            release_type: self.release_type@,
            year: self.year,
            tracks: viewed(self.tracks@),
        }
    }
}

/// A track on which an artist is featured.
#[derive(Debug)]
pub struct CatalogAppearance {
    pub release_title: String,
    pub release_type: String,
    pub year: Option<i32>,
    pub track: CatalogTrack,
}

#[verifier::ext_equal]
pub struct CatalogAppearanceView {
    pub release_title: Seq<char>,
    pub release_type: Seq<char>,
    pub year: Option<i32>,
    pub track: CatalogTrackView,
}

impl View for CatalogAppearance {
    type V = CatalogAppearanceView;

    open spec fn view(&self) -> CatalogAppearanceView {
        CatalogAppearanceView {
            release_title: self.release_title@,
            release_type: self.release_type@,
            year: self.year,
            track: self.track@,
        }
    }
}

/// What one peer holds of an artist.
#[derive(Debug)]
pub struct CatalogArtist {
    pub name: String,
    pub releases: Vec<CatalogRelease>,
    pub appears_on: Vec<CatalogAppearance>,
}

#[verifier::ext_equal]
pub struct CatalogArtistView {
    pub name: Seq<char>,
    pub releases: Seq<CatalogReleaseView>,
    pub appears_on: Seq<CatalogAppearanceView>,
}

impl View for CatalogArtist {
    type V = CatalogArtistView;

    open spec fn view(&self) -> CatalogArtistView {
        CatalogArtistView {
            name: self.name@,
            releases: viewed(self.releases@),
            appears_on: viewed(self.appears_on@),
        }
    }
}

/// A track of a card, with every peer that can serve it.
#[derive(Debug)]
pub struct FedCardTrack {
    pub title: String,
    pub artists: Vec<String>,
    pub featured_artists: Vec<String>,
    pub track_number: Option<i32>,
    pub disc_number: Option<i32>,
    pub duration: Option<Seconds>,
    pub content_id: Option<String>,
    /// The owner and the item of each.
    pub sources: Vec<(String, String)>,
}

#[verifier::ext_equal]
pub struct CardTrackView {
    pub title: Seq<char>,
    pub artists: Seq<Seq<char>>,
    pub featured_artists: Seq<Seq<char>>,
    pub track_number: Option<i32>,
    pub disc_number: Option<i32>,
    pub duration: Option<Seconds>,
    pub content_id: Option<Seq<char>>,
    pub sources: Seq<(Seq<char>, Seq<char>)>,
}

pub open spec fn sources_view(s: Seq<(String, String)>) -> Seq<(Seq<char>, Seq<char>)> {
    s.map_values(|p: (String, String)| (p.0@, p.1@))
}

impl View for FedCardTrack {
    type V = CardTrackView;

    open spec fn view(&self) -> CardTrackView {
        CardTrackView {
            title: self.title@,
            artists: views(self.artists@),
            featured_artists: views(self.featured_artists@),
            track_number: self.track_number,
            disc_number: self.disc_number,
            duration: self.duration,
            content_id: opt_view(self.content_id),
            sources: sources_view(self.sources@),
        }
    }
}

#[derive(Debug)]
pub struct FedRelease {
    pub title: String,
    pub release_type: String,
    pub year: Option<i32>,
    /// The peers that hold it.
    pub owners: Vec<String>,
    pub cover_path: Option<String>,
    pub tracks: Vec<FedCardTrack>,
}

#[verifier::ext_equal]
pub struct FedReleaseView {
    pub title: Seq<char>,
    pub release_type: Seq<char>,
    pub year: Option<i32>,
    pub owners: Seq<Seq<char>>,
    pub cover_path: Option<Seq<char>>,
    pub tracks: Seq<CardTrackView>,
}

impl View for FedRelease {
    type V = FedReleaseView;

    open spec fn view(&self) -> FedReleaseView {
        FedReleaseView {
            title: self.title@,
            release_type: self.release_type@,
            year: self.year,
            owners: views(self.owners@),
            cover_path: opt_view(self.cover_path),
            tracks: viewed(self.tracks@),
        }
    }
}

#[derive(Debug)]
pub struct FedAppearsOn {
    pub release_title: String,
    pub release_type: String,
    pub year: Option<i32>,
    pub track: FedCardTrack,
}

#[verifier::ext_equal]
pub struct AppearsView {
    pub release_title: Seq<char>,
    pub release_type: Seq<char>,
    pub year: Option<i32>,
    pub track: CardTrackView,
}

impl View for FedAppearsOn {
    type V = AppearsView;

    open spec fn view(&self) -> AppearsView {
        AppearsView {
            release_title: self.release_title@,
            release_type: self.release_type@,
            year: self.year,
            track: self.track@,
        }
    }
}

/// The card of an artist.
#[derive(Debug)]
pub struct FedArtistCard {
    pub name: String,
    /// This peer, so that its own tracks stay local.
    pub own_owner: Option<String>,
    /// How many peers contributed.
    pub peers: usize,
    /// The peers that contributed.
    pub owners: Vec<String>,
    pub image_path: Option<String>,
    pub releases: Vec<FedRelease>,
    pub appears_on: Vec<FedAppearsOn>,
}

#[verifier::ext_equal]
pub struct CardView {
    pub name: Seq<char>,
    pub own_owner: Option<Seq<char>>,
    pub peers: usize,
    pub owners: Seq<Seq<char>>,
    pub image_path: Option<Seq<char>>,
    pub releases: Seq<FedReleaseView>,
    pub appears_on: Seq<AppearsView>,
}

impl View for FedArtistCard {
    type V = CardView;

    open spec fn view(&self) -> CardView {
        CardView {
            name: self.name@,
            own_owner: opt_view(self.own_owner),
            peers: self.peers,
            owners: views(self.owners@),
            image_path: opt_view(self.image_path),
            releases: viewed(self.releases@),
            appears_on: viewed(self.appears_on@),
        }
    }
}

// ---------------------------------------------------------------------------
// Merging
// ---------------------------------------------------------------------------

/// A list of texts with one more, unless it is there.
pub open spec fn with_text(s: Seq<Seq<char>>, t: Seq<char>) -> Seq<Seq<char>> {
    if s.contains(t) {
        s
    } else {
        s.push(t)
    }
}

pub open spec fn with_source(s: Seq<(Seq<char>, Seq<char>)>, p: (Seq<char>, Seq<char>)) -> Seq<
    (Seq<char>, Seq<char>),
> {
    if s.contains(p) {
        s
    } else {
        s.push(p)
    }
}

pub open spec fn or_else<T>(a: Option<T>, b: Option<T>) -> Option<T> {
    match a {
        Some(v) => Some(v),
        None => b,
    }
}

pub open spec fn or_other<T>(a: Seq<T>, b: Seq<T>) -> Seq<T> {
    if a.len() == 0 {
        b
    } else {
        a
    }
}

/// A track of a card, from one peer.
pub open spec fn card_track_of(owner: Seq<char>, t: CatalogTrackView) -> CardTrackView {
    CardTrackView {
        title: t.title,
        artists: t.artists,
        featured_artists: t.featured_artists,
        track_number: t.track_number,
        disc_number: t.disc_number,
        duration: t.duration,
        content_id: t.content_id,
        sources: seq![(owner, t.item_id)],
    }
}

/// A track of a card with what one more peer holds of it: the peer is one more
/// source, and what was missing is filled in.
pub open spec fn merged_track(c: CardTrackView, owner: Seq<char>, t: CatalogTrackView) -> CardTrackView {
    CardTrackView {
        title: c.title,
        artists: or_other(c.artists, t.artists),
        featured_artists: or_other(c.featured_artists, t.featured_artists),
        track_number: or_else(c.track_number, t.track_number),
        disc_number: or_else(c.disc_number, t.disc_number),
        duration: or_else(c.duration, t.duration),
        content_id: or_else(c.content_id, t.content_id),
        sources: with_source(c.sources, (owner, t.item_id)),
    }
}

/// Whether two numbers can be the same: they are, or one is not known.
pub open spec fn agrees<T>(a: Option<T>, b: Option<T>) -> bool {
    a == b || a is None || b is None
}

/// The tracks of a card that are the same as one that a peer holds.
pub open spec fn is_same_track<F: Fn(&str) -> String>(f: F, t: CatalogTrackView) -> spec_fn(
    CardTrackView,
) -> bool {
    |c: CardTrackView|
        key_of(f, c.title) == key_of(f, t.title) && agrees(c.track_number, t.track_number)
}

/// The tracks of a release with one that a peer holds. One without an item
/// cannot be asked for and is left out.
pub open spec fn with_track<F: Fn(&str) -> String>(
    f: F,
    tracks: Seq<CardTrackView>,
    owner: Seq<char>,
    t: CatalogTrackView,
) -> Seq<CardTrackView> {
    if t.item_id.len() == 0 {
        tracks
    } else {
        match first_where(tracks, is_same_track(f, t)) {
            Some(i) => tracks.update(i, merged_track(tracks[i], owner, t)),
            None => tracks.push(card_track_of(owner, t)),
        }
    }
}

pub open spec fn with_tracks<F: Fn(&str) -> String>(
    f: F,
    tracks: Seq<CardTrackView>,
    owner: Seq<char>,
    ts: Seq<CatalogTrackView>,
) -> Seq<CardTrackView>
    decreases ts.len(),
{
    if ts.len() == 0 {
        tracks
    } else {
        with_track(f, with_tracks(f, tracks, owner, ts.drop_last()), owner, ts.last())
    }
}

pub open spec fn is_release<F: Fn(&str) -> String>(f: F, title: Seq<char>) -> spec_fn(
    FedReleaseView,
) -> bool {
    |r: FedReleaseView| key_of(f, r.title) == key_of(f, title)
}

/// A release of a card with what one more peer holds of it.
pub open spec fn merged_release<F: Fn(&str) -> String>(
    f: F,
    m: FedReleaseView,
    owner: Seq<char>,
    r: CatalogReleaseView,
) -> FedReleaseView {
    FedReleaseView {
        title: m.title,
        release_type: or_other(m.release_type, r.release_type),
        year: or_else(m.year, r.year),
        owners: with_text(m.owners, owner),
        cover_path: m.cover_path,
        tracks: with_tracks(f, m.tracks, owner, r.tracks),
    }
}

pub open spec fn new_release(r: CatalogReleaseView) -> FedReleaseView {
    FedReleaseView {
        title: r.title,
        release_type: r.release_type,
        year: None,
        owners: Seq::empty(),
        cover_path: None,
        tracks: Seq::empty(),
    }
}

/// The releases of a card with one that a peer holds: releases are the same
/// when their titles have the same key.
pub open spec fn with_release<F: Fn(&str) -> String>(
    f: F,
    releases: Seq<FedReleaseView>,
    owner: Seq<char>,
    r: CatalogReleaseView,
) -> Seq<FedReleaseView> {
    match first_where(releases, is_release(f, r.title)) {
        Some(i) => releases.update(i, merged_release(f, releases[i], owner, r)),
        None => releases.push(merged_release(f, new_release(r), owner, r)),
    }
}

pub open spec fn with_releases<F: Fn(&str) -> String>(
    f: F,
    releases: Seq<FedReleaseView>,
    owner: Seq<char>,
    rs: Seq<CatalogReleaseView>,
) -> Seq<FedReleaseView>
    decreases rs.len(),
{
    if rs.len() == 0 {
        releases
    } else {
        with_release(f, with_releases(f, releases, owner, rs.drop_last()), owner, rs.last())
    }
}

/// A track number as it is written in a key.
pub open spec fn number_text(n: Option<i32>) -> Seq<char> {
    match n {
        Some(v) => "Some("@ + crate::text::signed_decimal(v as int) + ")"@,
        None => "None"@,
    }
}

/// What tells appearances apart: the release, the title and the number.
pub open spec fn appearance_key<F: Fn(&str) -> String>(f: F, a: CatalogAppearanceView) -> Seq<char> {
    key_of(f, a.release_title) + seq![':'] + key_of(f, a.track.title) + seq![':'] + number_text(
        a.track.track_number,
    )
}

/// The appearances of a card, with the key that each came in under.
pub struct Appearances {
    pub keys: Seq<Seq<char>>,
    pub rows: Seq<AppearsView>,
}

pub open spec fn no_track() -> CardTrackView {
    CardTrackView {
        title: Seq::empty(),
        artists: Seq::empty(),
        featured_artists: Seq::empty(),
        track_number: None,
        disc_number: None,
        duration: None,
        content_id: None,
        sources: Seq::empty(),
    }
}

/// An appearance of a card with what one more peer holds of it. Only one that
/// was just made has no source yet.
pub open spec fn merged_appearance(m: AppearsView, owner: Seq<char>, a: CatalogAppearanceView) -> AppearsView {
    AppearsView {
        release_title: m.release_title,
        release_type: or_other(m.release_type, a.release_type),
        year: or_else(m.year, a.year),
        track: if m.track.sources.len() == 0 {
            card_track_of(owner, a.track)
        } else {
            merged_track(m.track, owner, a.track)
        },
    }
}

pub open spec fn new_appearance(a: CatalogAppearanceView) -> AppearsView {
    AppearsView {
        release_title: a.release_title,
        release_type: a.release_type,
        year: a.year,
        track: no_track(),
    }
}

pub open spec fn is_key(k: Seq<char>) -> spec_fn(Seq<char>) -> bool {
    |x: Seq<char>| x == k
}

/// The appearances with one that a peer holds.
pub open spec fn with_appearance<F: Fn(&str) -> String>(
    f: F,
    s: Appearances,
    owner: Seq<char>,
    a: CatalogAppearanceView,
) -> Appearances {
    if a.track.item_id.len() == 0 {
        s
    } else {
        let k = appearance_key(f, a);
        match first_where(s.keys, is_key(k)) {
            Some(i) => Appearances {
                keys: s.keys,
                rows: s.rows.update(i, merged_appearance(s.rows[i], owner, a)),
            },
            None => Appearances {
                keys: s.keys.push(k),
                rows: s.rows.push(merged_appearance(new_appearance(a), owner, a)),
            },
        }
    }
}

pub open spec fn with_appearances<F: Fn(&str) -> String>(
    f: F,
    s: Appearances,
    owner: Seq<char>,
    rows: Seq<CatalogAppearanceView>,
) -> Appearances
    decreases rows.len(),
{
    if rows.len() == 0 {
        s
    } else {
        with_appearance(f, with_appearances(f, s, owner, rows.drop_last()), owner, rows.last())
    }
}

/// What several peers hold, put together but not sorted.
pub struct Gathered {
    pub owners: Seq<Seq<char>>,
    pub releases: Seq<FedReleaseView>,
    pub appearances: Appearances,
}

pub open spec fn catalog_views(s: Seq<(String, CatalogArtist)>) -> Seq<(Seq<char>, CatalogArtistView)> {
    s.map_values(|p: (String, CatalogArtist)| (p.0@, p.1@))
}

pub open spec fn gathered<F: Fn(&str) -> String>(
    f: F,
    catalogs: Seq<(Seq<char>, CatalogArtistView)>,
) -> Gathered
    decreases catalogs.len(),
{
    if catalogs.len() == 0 {
        Gathered {
            owners: Seq::empty(),
            releases: Seq::empty(),
            appearances: Appearances { keys: Seq::empty(), rows: Seq::empty() },
        }
    } else {
        let g = gathered(f, catalogs.drop_last());
        let (owner, c) = catalogs.last();
        Gathered {
            owners: with_text(g.owners, owner),
            releases: with_releases(f, g.releases, owner, c.releases),
            appearances: with_appearances(f, g.appearances, owner, c.appears_on),
        }
    }
}

pub open spec fn disc_of(t: CardTrackView) -> i32 {
    match t.disc_number {
        Some(n) => n,
        None => 1,
    }
}

pub open spec fn number_of(t: CardTrackView) -> i32 {
    match t.track_number {
        Some(n) => n,
        None => i32::MAX,
    }
}

pub open spec fn year_of(y: Option<i32>) -> i32 {
    match y {
        Some(n) => n,
        None => i32::MIN,
    }
}

/// The tracks of a release: by disc and number.
pub open spec fn track_order() -> spec_fn(CardTrackView, CardTrackView) -> bool {
    |a: CardTrackView, b: CardTrackView|
        disc_of(a) < disc_of(b) || (disc_of(a) == disc_of(b) && number_of(a) <= number_of(b))
}

/// The releases: the newest first, then by title.
pub open spec fn release_order() -> spec_fn(FedReleaseView, FedReleaseView) -> bool {
    |a: FedReleaseView, b: FedReleaseView|
        year_of(a.year) > year_of(b.year) || (year_of(a.year) == year_of(b.year) && !precedes(
            b.title,
            a.title,
        ))
}

/// The appearances: the newest first, then by release, number and title.
pub open spec fn appearance_order() -> spec_fn(AppearsView, AppearsView) -> bool {
    |a: AppearsView, b: AppearsView|
        if year_of(a.year) != year_of(b.year) {
            year_of(a.year) > year_of(b.year)
        } else if a.release_title != b.release_title {
            precedes(a.release_title, b.release_title)
        } else if number_of(a.track) != number_of(b.track) {
            number_of(a.track) < number_of(b.track)
        } else {
            !precedes(b.track.title, a.track.title)
        }
}

pub open spec fn sorted_release(r: FedReleaseView) -> FedReleaseView {
    FedReleaseView { tracks: stable_sorted(r.tracks, track_order()), ..r }
}

/// The card of an artist, from what several peers hold.
pub open spec fn merged_card<F: Fn(&str) -> String>(
    f: F,
    name: Seq<char>,
    catalogs: Seq<(Seq<char>, CatalogArtistView)>,
) -> CardView {
    let g = gathered(f, catalogs);
    CardView {
        name,
        own_owner: None,
        peers: catalogs.len() as usize,
        owners: g.owners,
        image_path: None,
        releases: stable_sorted(
            g.releases.map_values(|r: FedReleaseView| sorted_release(r)),
            release_order(),
        ),
        appears_on: stable_sorted(g.appearances.rows, appearance_order()),
    }
}

pub(crate) fn put_text(v: &mut Vec<String>, t: &str)
    ensures
        views(final(v)@) == with_text(views(old(v)@), t@),
{
    if !holds_text(v, t) {
        let ghost before = v@;
        v.push(t.to_owned());
        proof {
            assert(views(v@) =~= views(before).push(t@));
        }
    }
}

pub open spec fn is_source(owner: Seq<char>, item: Seq<char>) -> spec_fn((String, String)) -> bool {
    |p: (String, String)| p.0@ == owner && p.1@ == item
}

pub(crate) fn has_source(v: &Vec<(String, String)>, owner: &str, item: &str) -> (r: bool)
    ensures
        r == sources_view(v@).contains((owner@, item@)),
{
    let f = |p: &(String, String)| -> (b: bool)
        ensures
            b == is_source(owner@, item@)(*p),
        { same(p.0.as_str(), owner) && same(p.1.as_str(), item) };
    let found = find_by(v, f, Ghost(is_source(owner@, item@)));
    proof {
        let s = sources_view(v@);
        match found {
            Some(i) => {
                assert(s[i as int] == (owner@, item@));
            },
            None => {
                if s.contains((owner@, item@)) {
                    let i = s.index_of((owner@, item@));
                    assert(is_source(owner@, item@)(v@[i]));
                }
            },
        }
    }
    found.is_some()
}

pub(crate) fn put_source(v: &mut Vec<(String, String)>, owner: &str, item: String)
    ensures
        sources_view(final(v)@) == with_source(sources_view(old(v)@), (owner@, item@)),
{
    if !has_source(v, owner, item.as_str()) {
        let ghost before = v@;
        let ghost i = item@;
        v.push((owner.to_owned(), item));
        proof {
            assert(sources_view(v@) =~= sources_view(before).push((owner@, i)));
        }
    }
}

fn card_track(owner: &str, track: CatalogTrack) -> (r: FedCardTrack)
    ensures
        r@ == card_track_of(owner@, track@),
{
    let ghost t = track@;
    let mut sources: Vec<(String, String)> = Vec::new();
    sources.push((owner.to_owned(), track.item_id));
    proof {
        assert(sources_view(sources@) =~= seq![(owner@, t.item_id)]);
    }
    FedCardTrack {
        title: track.title,
        artists: track.artists,
        featured_artists: track.featured_artists,
        track_number: track.track_number,
        disc_number: track.disc_number,
        duration: track.duration,
        content_id: track.content_id,
        sources,
    }
}

fn merge_card_track(target: &mut FedCardTrack, owner: &str, track: CatalogTrack)
    ensures
        final(target)@ == merged_track(old(target)@, owner@, track@),
{
    let ghost c = target@;
    let ghost t = track@;
    if target.artists.len() == 0 {
        target.artists = track.artists;
    }
    if target.featured_artists.len() == 0 {
        target.featured_artists = track.featured_artists;
    }
    if target.track_number.is_none() {
        target.track_number = track.track_number;
    }
    if target.disc_number.is_none() {
        target.disc_number = track.disc_number;
    }
    if target.duration.is_none() {
        target.duration = track.duration;
    }
    if target.content_id.is_none() {
        target.content_id = track.content_id;
    }
    put_source(&mut target.sources, owner, track.item_id);
    proof {
        assert(target@ =~= merged_track(c, owner@, t));
    }
}

pub(crate) fn numbers_agree(a: Option<i32>, b: Option<i32>) -> (r: bool)
    ensures
        r == agrees(a, b),
{
    match (a, b) {
        (Some(x), Some(y)) => x == y,
        _ => true,
    }
}

fn put_track<F: Fn(&str) -> String>(f: &F, tracks: &mut Vec<FedCardTrack>, owner: &str, track: CatalogTrack)
    requires
        normalizes(*f),
    ensures
        viewed(final(tracks)@) == with_track(*f, viewed(old(tracks)@), owner@, track@),
{
    if track.item_id.as_str().is_empty() {
        return;
    }
    let ghost t = track@;
    let ghost start = tracks@;
    let k = key(f, track.title.as_str());
    let mut i: usize = 0;
    while i < tracks.len()
        invariant
            i <= tracks@.len(),
            tracks@ == start,
            start == old(tracks)@,
            t == track@,
            t.item_id.len() > 0,
            normalizes(*f),
            k@ == key_of(*f, t.title),
            forall|j: int| 0 <= j < i ==> !is_same_track(*f, t)(#[trigger] viewed(start)[j]),
        decreases tracks@.len() - i,
    {
        let other = key(f, tracks[i].title.as_str());
        if same(other.as_str(), k.as_str()) && numbers_agree(
            tracks[i].track_number,
            track.track_number,
        ) {
            proof {
                lemma_first_where(viewed(start), is_same_track(*f, t));
                assert(is_same_track(*f, t)(viewed(start)[i as int]));
            }
            merge_card_track(&mut tracks[i], owner, track);
            proof {
                assert(viewed(tracks@) =~= viewed(start).update(
                    i as int,
                    merged_track(viewed(start)[i as int], owner@, t),
                ));
            }
            return;
        }
        i += 1;
    }
    proof {
        lemma_first_where(viewed(start), is_same_track(*f, t));
    }
    tracks.push(card_track(owner, track));
    proof {
        assert(viewed(tracks@) =~= viewed(start).push(card_track_of(owner@, t)));
    }
}

fn put_tracks<F: Fn(&str) -> String>(
    f: &F,
    tracks: &mut Vec<FedCardTrack>,
    owner: &str,
    more: Vec<CatalogTrack>,
)
    requires
        normalizes(*f),
    ensures
        viewed(final(tracks)@) == with_tracks(*f, viewed(old(tracks)@), owner@, viewed(more@)),
{
    let ghost start = viewed(tracks@);
    let ghost all = viewed(more@);
    let size: usize = more.len();
    let mut rest = more;
    let mut i: usize = 0;
    proof {
        assert(all.take(0) =~= Seq::empty());
        assert(all.skip(0) =~= all);
    }
    while i < size
        invariant
            i <= size,
            size == all.len(),
            normalizes(*f),
            viewed(rest@) == all.skip(i as int),
            viewed(tracks@) == with_tracks(*f, start, owner@, all.take(i as int)),
        decreases size - i,
    {
        proof {
            assert(viewed(rest@).len() == rest@.len());
            assert(viewed(rest@)[0] == rest@[0]@);
            assert(all.skip(i as int)[0] == all[i as int]);
            assert(all.take(i + 1).drop_last() =~= all.take(i as int));
        }
        let ghost before = rest@;
        let t = rest.remove(0);
        proof {
            assert(viewed(rest@) =~= viewed(before).skip(1));
            assert(all.skip(i as int).skip(1) =~= all.skip(i + 1));
        }
        put_track(f, tracks, owner, t);
        i += 1;
    }
    proof {
        assert(all.take(size as int) =~= all);
    }
}

fn merge_release<F: Fn(&str) -> String>(
    f: &F,
    target: &mut FedRelease,
    owner: &str,
    release: CatalogRelease,
)
    requires
        normalizes(*f),
    ensures
        final(target)@ == merged_release(*f, old(target)@, owner@, release@),
{
    let ghost m = target@;
    let ghost r = release@;
    put_text(&mut target.owners, owner);
    if target.year.is_none() {
        target.year = release.year;
    }
    if target.release_type.as_str().is_empty() {
        target.release_type = release.release_type;
    }
    put_tracks(f, &mut target.tracks, owner, release.tracks);
    proof {
        assert(target@ =~= merged_release(*f, m, owner@, r));
    }
}

fn put_release<F: Fn(&str) -> String>(
    f: &F,
    releases: &mut Vec<FedRelease>,
    owner: &str,
    release: CatalogRelease,
)
    requires
        normalizes(*f),
    ensures
        viewed(final(releases)@) == with_release(*f, viewed(old(releases)@), owner@, release@),
{
    let ghost r = release@;
    let ghost start = releases@;
    let k = key(f, release.title.as_str());
    let mut i: usize = 0;
    while i < releases.len()
        invariant
            i <= releases@.len(),
            releases@ == start,
            start == old(releases)@,
            r == release@,
            normalizes(*f),
            k@ == key_of(*f, r.title),
            forall|j: int| 0 <= j < i ==> !is_release(*f, r.title)(#[trigger] viewed(start)[j]),
        decreases releases@.len() - i,
    {
        let other = key(f, releases[i].title.as_str());
        if same(other.as_str(), k.as_str()) {
            proof {
                lemma_first_where(viewed(start), is_release(*f, r.title));
                assert(is_release(*f, r.title)(viewed(start)[i as int]));
            }
            merge_release(f, &mut releases[i], owner, release);
            proof {
                assert(viewed(releases@) =~= viewed(start).update(
                    i as int,
                    merged_release(*f, viewed(start)[i as int], owner@, r),
                ));
            }
            return;
        }
        i += 1;
    }
    proof {
        lemma_first_where(viewed(start), is_release(*f, r.title));
    }
    let mut fresh = FedRelease {
        title: release.title.clone(),
        release_type: release.release_type.clone(),
        year: None,
        owners: Vec::new(),
        cover_path: None,
        tracks: Vec::new(),
    };
    proof {
        assert(fresh@ =~= new_release(r));
    }
    merge_release(f, &mut fresh, owner, release);
    releases.push(fresh);
    proof {
        assert(viewed(releases@) =~= viewed(start).push(
            merged_release(*f, new_release(r), owner@, r),
        ));
    }
}

fn put_releases<F: Fn(&str) -> String>(
    f: &F,
    releases: &mut Vec<FedRelease>,
    owner: &str,
    more: Vec<CatalogRelease>,
)
    requires
        normalizes(*f),
    ensures
        viewed(final(releases)@) == with_releases(
            *f,
            viewed(old(releases)@),
            owner@,
            viewed(more@),
        ),
{
    let ghost start = viewed(releases@);
    let ghost all = viewed(more@);
    let size: usize = more.len();
    let mut rest = more;
    let mut i: usize = 0;
    proof {
        assert(all.take(0) =~= Seq::empty());
        assert(all.skip(0) =~= all);
    }
    while i < size
        invariant
            i <= size,
            size == all.len(),
            normalizes(*f),
            viewed(rest@) == all.skip(i as int),
            viewed(releases@) == with_releases(*f, start, owner@, all.take(i as int)),
        decreases size - i,
    {
        proof {
            assert(viewed(rest@).len() == rest@.len());
            assert(viewed(rest@)[0] == rest@[0]@);
            assert(all.skip(i as int)[0] == all[i as int]);
            assert(all.take(i + 1).drop_last() =~= all.take(i as int));
        }
        let ghost before = rest@;
        let r = rest.remove(0);
        proof {
            assert(viewed(rest@) =~= viewed(before).skip(1));
            assert(all.skip(i as int).skip(1) =~= all.skip(i + 1));
        }
        put_release(f, releases, owner, r);
        i += 1;
    }
    proof {
        assert(all.take(size as int) =~= all);
    }
}

fn key_text<F: Fn(&str) -> String>(f: &F, a: &CatalogAppearance) -> (r: String)
    requires
        normalizes(*f),
    ensures
        r@ == appearance_key(*f, a@),
{
    let mut out = key(f, a.release_title.as_str());
    out.push(':');
    out.append(key(f, a.track.title.as_str()).as_str());
    out.push(':');
    match a.track.track_number {
        Some(n) => {
            out.append("Some(");
            out.append(signed_text(n as i64).as_str());
            out.append(")");
        },
        None => out.append("None"),
    }
    proof {
        assert(out@ =~= appearance_key(*f, a@));
    }
    out
}

fn merge_appearance(target: &mut FedAppearsOn, owner: &str, a: CatalogAppearance)
    ensures
        final(target)@ == merged_appearance(old(target)@, owner@, a@),
{
    let ghost m = target@;
    let ghost x = a@;
    assert(m.track.sources.len() == target.track.sources@.len());
    if target.release_type.as_str().is_empty() {
        target.release_type = a.release_type;
    }
    if target.year.is_none() {
        target.year = a.year;
    }
    if target.track.sources.len() == 0 {
        target.track = card_track(owner, a.track);
    } else {
        merge_card_track(&mut target.track, owner, a.track);
    }
    proof {
        assert(target@ =~= merged_appearance(m, owner@, x));
    }
}

fn put_appearance<F: Fn(&str) -> String>(
    f: &F,
    keys: &mut Vec<String>,
    rows: &mut Vec<FedAppearsOn>,
    owner: &str,
    a: CatalogAppearance,
)
    requires
        normalizes(*f),
        old(keys)@.len() == old(rows)@.len(),
    ensures
        final(keys)@.len() == final(rows)@.len(),
        (Appearances { keys: views(final(keys)@), rows: viewed(final(rows)@) }) == with_appearance(
            *f,
            Appearances { keys: views(old(keys)@), rows: viewed(old(rows)@) },
            owner@,
            a@,
        ),
{
    if a.track.item_id.as_str().is_empty() {
        return;
    }
    let ghost x = a@;
    let ghost start = rows@;
    let ghost names = keys@;
    let k = key_text(f, &a);
    let g = |s: &String| -> (b: bool)
        ensures
            b == is_text(k@)(*s),
        { same(s.as_str(), k.as_str()) };
    let found = find_by(keys, g, Ghost(is_text(k@)));
    proof {
        lemma_first_mapped(
            names,
            |s: String| s@,
            is_text(k@),
            is_key(appearance_key(*f, x)),
        );
        assert(names.map_values(|s: String| s@) =~= views(names));
    }
    match found {
        Some(i) => {
            merge_appearance(&mut rows[i], owner, a);
            proof {
                assert(viewed(rows@) =~= viewed(start).update(
                    i as int,
                    merged_appearance(viewed(start)[i as int], owner@, x),
                ));
            }
        },
        None => {
            let mut fresh = FedAppearsOn {
                release_title: a.release_title.clone(),
                release_type: a.release_type.clone(),
                year: a.year,
                track: FedCardTrack {
                    title: String::new(),
                    artists: Vec::new(),
                    featured_artists: Vec::new(),
                    track_number: None,
                    disc_number: None,
                    duration: None,
                    content_id: None,
                    sources: Vec::new(),
                },
            };
            proof {
                assert(fresh.track@ =~= no_track());
                assert(fresh@ =~= new_appearance(x));
            }
            merge_appearance(&mut fresh, owner, a);
            rows.push(fresh);
            keys.push(k);
            proof {
                assert(viewed(rows@) =~= viewed(start).push(
                    merged_appearance(new_appearance(x), owner@, x),
                ));
                assert(views(keys@) =~= views(names).push(appearance_key(*f, x)));
            }
        },
    }
}

fn put_appearances<F: Fn(&str) -> String>(
    f: &F,
    keys: &mut Vec<String>,
    rows: &mut Vec<FedAppearsOn>,
    owner: &str,
    more: Vec<CatalogAppearance>,
)
    requires
        normalizes(*f),
        old(keys)@.len() == old(rows)@.len(),
    ensures
        final(keys)@.len() == final(rows)@.len(),
        (Appearances { keys: views(final(keys)@), rows: viewed(final(rows)@) }) == with_appearances(
            *f,
            Appearances { keys: views(old(keys)@), rows: viewed(old(rows)@) },
            owner@,
            viewed(more@),
        ),
{
    let ghost start = Appearances { keys: views(keys@), rows: viewed(rows@) };
    let ghost all = viewed(more@);
    let size: usize = more.len();
    let mut rest = more;
    let mut i: usize = 0;
    proof {
        assert(all.take(0) =~= Seq::empty());
        assert(all.skip(0) =~= all);
    }
    while i < size
        invariant
            i <= size,
            size == all.len(),
            normalizes(*f),
            keys@.len() == rows@.len(),
            viewed(rest@) == all.skip(i as int),
            (Appearances { keys: views(keys@), rows: viewed(rows@) }) == with_appearances(
                *f,
                start,
                owner@,
                all.take(i as int),
            ),
        decreases size - i,
    {
        proof {
            assert(viewed(rest@).len() == rest@.len());
            assert(viewed(rest@)[0] == rest@[0]@);
            assert(all.skip(i as int)[0] == all[i as int]);
            assert(all.take(i + 1).drop_last() =~= all.take(i as int));
        }
        let ghost before = rest@;
        let a = rest.remove(0);
        proof {
            assert(viewed(rest@) =~= viewed(before).skip(1));
            assert(all.skip(i as int).skip(1) =~= all.skip(i + 1));
        }
        put_appearance(f, keys, rows, owner, a);
        i += 1;
    }
    proof {
        assert(all.take(size as int) =~= all);
    }
}

pub open spec fn exec_track_order() -> spec_fn(FedCardTrack, FedCardTrack) -> bool {
    |a: FedCardTrack, b: FedCardTrack| track_order()(a@, b@)
}

pub open spec fn exec_release_order() -> spec_fn(FedRelease, FedRelease) -> bool {
    |a: FedRelease, b: FedRelease| release_order()(a@, b@)
}

pub open spec fn exec_appearance_order() -> spec_fn(FedAppearsOn, FedAppearsOn) -> bool {
    |a: FedAppearsOn, b: FedAppearsOn| appearance_order()(a@, b@)
}

fn disc(t: &FedCardTrack) -> (r: i32)
    ensures
        r == disc_of(t@),
{
    match t.disc_number {
        Some(n) => n,
        None => 1,
    }
}

fn number(t: &FedCardTrack) -> (r: i32)
    ensures
        r == number_of(t@),
{
    match t.track_number {
        Some(n) => n,
        None => i32::MAX,
    }
}

fn year_or_min(y: Option<i32>) -> (r: i32)
    ensures
        r == year_of(y),
{
    match y {
        Some(n) => n,
        None => i32::MIN,
    }
}

fn sort_tracks(release: &mut FedRelease)
    ensures
        final(release)@ == sorted_release(old(release)@),
{
    let ghost start = release.tracks@;
    let ghost r = release@;
    let leq = |a: &FedCardTrack, b: &FedCardTrack| -> (r: bool)
        ensures
            r == exec_track_order()(*a, *b),
        { disc(a) < disc(b) || (disc(a) == disc(b) && number(a) <= number(b)) };
    sort_by(&mut release.tracks, leq, Ghost(exec_track_order()));
    proof {
        lemma_sorted_mapped(
            start,
            |t: FedCardTrack| t@,
            exec_track_order(),
            track_order(),
        );
        assert(release@ =~= sorted_release(r));
    }
}

/// Sorts the appearances of a card.
pub(crate) fn sort_fed_appearances(rows: &mut Vec<FedAppearsOn>)
    ensures
        viewed(final(rows)@) == stable_sorted(viewed(old(rows)@), appearance_order()),
{
    let ghost start = rows@;
    let leq = |a: &FedAppearsOn, b: &FedAppearsOn| -> (r: bool)
        ensures
            r == exec_appearance_order()(*a, *b),
        {
            let x = year_or_min(a.year);
            let y = year_or_min(b.year);
            if x != y {
                x > y
            } else if !same(a.release_title.as_str(), b.release_title.as_str()) {
                before(a.release_title.as_str(), b.release_title.as_str())
            } else if number(&a.track) != number(&b.track) {
                number(&a.track) < number(&b.track)
            } else {
                !before(b.track.title.as_str(), a.track.title.as_str())
            }
        };
    sort_by(rows, leq, Ghost(exec_appearance_order()));
    proof {
        lemma_sorted_mapped(
            start,
            |t: FedAppearsOn| t@,
            exec_appearance_order(),
            appearance_order(),
        );
    }
}

fn sort_releases(releases: &mut Vec<FedRelease>)
    ensures
        viewed(final(releases)@) == stable_sorted(
            viewed(old(releases)@).map_values(|r: FedReleaseView| sorted_release(r)),
            release_order(),
        ),
{
    let ghost start = viewed(releases@);
    let mut i: usize = 0;
    let size: usize = releases.len();
    while i < size
        invariant
            i <= size,
            size == start.len(),
            releases@.len() == size,
            forall|j: int|
                0 <= j < size ==> (#[trigger] viewed(releases@)[j]) == (if j < i {
                    sorted_release(start[j])
                } else {
                    start[j]
                }),
        decreases size - i,
    {
        let ghost before = releases@;
        sort_tracks(&mut releases[i]);
        proof {
            assert forall|j: int| 0 <= j < size implies (#[trigger] viewed(releases@)[j]) == (if j
                < i + 1 {
                sorted_release(start[j])
            } else {
                start[j]
            }) by {
                assert(viewed(before)[j] == before[j]@);
                if j != i {
                    assert(releases@[j] == before[j]);
                }
            }
        }
        i += 1;
    }
    let ghost sorted = releases@;
    proof {
        assert(viewed(sorted) =~= start.map_values(|r: FedReleaseView| sorted_release(r)));
    }
    let leq = |a: &FedRelease, b: &FedRelease| -> (r: bool)
        ensures
            r == exec_release_order()(*a, *b),
        {
            let x = year_or_min(a.year);
            let y = year_or_min(b.year);
            x > y || (x == y && !before(b.title.as_str(), a.title.as_str()))
        };
    sort_by(releases, leq, Ghost(exec_release_order()));
    proof {
        lemma_sorted_mapped(
            sorted,
            |t: FedRelease| t@,
            exec_release_order(),
            release_order(),
        );
    }
}

/// Puts the card of an artist together from what several peers hold. Releases
/// with the same title are one, and so are the tracks of a release with the
/// same title and number; a track that several peers hold keeps every source.
pub fn merge_catalogs<F: Fn(&str) -> String>(
    f: &F,
    name: &str,
    catalogs: Vec<(String, CatalogArtist)>,
) -> (r: FedArtistCard)
    requires
        normalizes(*f),
    ensures
        r@ == merged_card(*f, name@, catalog_views(catalogs@)),
{
    let peers: usize = catalogs.len();
    let ghost all = catalog_views(catalogs@);
    let mut rest = catalogs;
    let mut owners: Vec<String> = Vec::new();
    let mut releases: Vec<FedRelease> = Vec::new();
    let mut keys: Vec<String> = Vec::new();
    let mut rows: Vec<FedAppearsOn> = Vec::new();
    let mut i: usize = 0;
    proof {
        assert(all.take(0) =~= Seq::empty());
        assert(all.skip(0) =~= all);
        assert(views(owners@) =~= Seq::empty());
        assert(viewed(releases@) =~= Seq::empty());
        assert(views(keys@) =~= Seq::empty());
        assert(viewed(rows@) =~= Seq::empty());
    }
    while i < peers
        invariant
            i <= peers,
            peers == all.len(),
            normalizes(*f),
            keys@.len() == rows@.len(),
            catalog_views(rest@) == all.skip(i as int),
            (Gathered {
                owners: views(owners@),
                releases: viewed(releases@),
                appearances: Appearances { keys: views(keys@), rows: viewed(rows@) },
            }) == gathered(*f, all.take(i as int)),
        decreases peers - i,
    {
        proof {
            assert(catalog_views(rest@).len() == rest@.len());
            assert(catalog_views(rest@)[0] == (rest@[0].0@, rest@[0].1@));
            assert(all.skip(i as int)[0] == all[i as int]);
            assert(all.take(i + 1).drop_last() =~= all.take(i as int));
            assert(all.take(i + 1).last() == all[i as int]);
        }
        let ghost before = rest@;
        let (owner, catalog) = rest.remove(0);
        proof {
            assert(catalog_views(rest@) =~= catalog_views(before).skip(1));
            assert(all.skip(i as int).skip(1) =~= all.skip(i + 1));
        }
        put_text(&mut owners, owner.as_str());
        put_releases(f, &mut releases, owner.as_str(), catalog.releases);
        put_appearances(f, &mut keys, &mut rows, owner.as_str(), catalog.appears_on);
        i += 1;
    }
    proof {
        assert(all.take(peers as int) =~= all);
    }
    sort_releases(&mut releases);
    sort_fed_appearances(&mut rows);
    let card = FedArtistCard {
        name: name.to_owned(),
        own_owner: None,
        peers,
        owners,
        image_path: None,
        releases,
        appears_on: rows,
    };
    proof {
        assert(card@ =~= merged_card(*f, name@, all));
    }
    card
}

} // verus!
