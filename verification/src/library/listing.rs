//! Reading the library: tracks, artists, releases and search.

use crate::content_id::{canonical, canonical_option, normalize_content_id, normalize_option};
use crate::federation::search::{exact_match_rank, name_rank};
use crate::federation::track::{any_key, has_key};
use crate::library::edit::{row_is_artist, row_is_release};
use crate::library::models::{
    names_of, ref_names, refs_view, ArtistCard, ArtistDetail, ArtistRef, Availability, ReleaseCard,
    ReleaseDetail, SearchResults, TrackItem, TrackView,
};
use crate::library::tables::{
    has_content, is_track, ArtistRow, Library, Play, ReleaseCredit, ReleaseRow, TrackCredit,
    TrackRow,
};
use crate::lists::{
    at_most, count_by, count_where, filter_copy, find_by, first_where, lemma_sorted_mapped,
    limit_to, limited, picked, select_by, sort_by, sort_places, stable_sorted, viewed, within,
};
use crate::names::{key, key_of, normalizes};
use crate::text::{
    contains_text, find_from, no_case_before_or_same, no_case_leq, opt_view, same, trim, trimmed,
};
use vstd::prelude::*;

verus! {

// ---------------------------------------------------------------------------
// Tracks
// ---------------------------------------------------------------------------

pub open spec fn is_credit(track_id: i64, featured: bool) -> spec_fn(TrackCredit) -> bool {
    |c: TrackCredit| c.track_id == track_id && c.featured == featured
}

pub open spec fn by_position() -> spec_fn(TrackCredit, TrackCredit) -> bool {
    |a: TrackCredit, b: TrackCredit| a.position <= b.position
}

/// The credits of a track in one role, in their order.
pub open spec fn track_credits(lib: Library, track_id: i64, featured: bool) -> Seq<TrackCredit> {
    stable_sorted(lib.track_artists@.filter(is_credit(track_id, featured)), by_position())
}

pub open spec fn artist_row(artists: Seq<ArtistRow>, id: i64) -> Option<int> {
    first_where(artists, row_is_artist(id))
}

/// The artists with given ids, by id and name.
pub open spec fn refs_of(artists: Seq<ArtistRow>, ids: Seq<i64>) -> Seq<(i64, Seq<char>)>
    decreases ids.len(),
{
    if ids.len() == 0 {
        Seq::empty()
    } else {
        let before = refs_of(artists, ids.drop_last());
        match artist_row(artists, ids.last()) {
            Some(i) => before.push((ids.last(), artists[i].name@)),
            None => before,
        }
    }
}

pub open spec fn credited(s: Seq<TrackCredit>) -> Seq<i64> {
    s.map_values(|c: TrackCredit| c.artist_id)
}

/// The artists of a track in one role.
pub open spec fn track_refs(lib: Library, track_id: i64, featured: bool) -> Seq<(i64, Seq<char>)> {
    refs_of(lib.artists@, credited(track_credits(lib, track_id, featured)))
}

pub open spec fn is_play(track_id: i64) -> spec_fn(Play) -> bool {
    |p: Play| p.track_id == track_id && p.completed
}

/// How often a track was played to the end.
pub open spec fn plays(history: Seq<Play>, track_id: i64) -> nat {
    count_where(history, is_play(track_id))
}

/// A track as it is listed.
pub open spec fn track_item(lib: Library, t: TrackRow) -> Option<TrackView> {
    match first_where(lib.releases@, row_is_release(t.release_id)) {
        Some(i) => {
            let r = lib.releases@[i];
            Some(
                TrackView {
                    id: t.id,
                    title: t.title@,
                    track_number: t.track_number,
                    disc_number: t.disc_number,
                    duration: t.duration,
                    artists: track_refs(lib, t.id, false),
                    featured_artists: track_refs(lib, t.id, true),
                    release_id: t.release_id,
                    release_title: r.title@,
                    release_year: r.year,
                    file_path: t.file_path@,
                    content_id: canonical_option(opt_view(t.content_id)),
                    cover_path: opt_view(r.cover_path),
                    audio_format: opt_view(t.audio_format),
                    audio_bitrate: t.audio_bitrate,
                    audio_sample_rate: t.audio_sample_rate,
                    audio_bit_depth: t.audio_bit_depth,
                    file_size_bytes: t.file_size_bytes,
                    play_count: plays(lib.history@, t.id) as i64,
                    fed: None,
                },
            )
        },
        None => None,
    }
}

/// Several tracks as they are listed.
pub open spec fn items_of(lib: Library, rows: Seq<TrackRow>) -> Seq<TrackView>
    decreases rows.len(),
{
    if rows.len() == 0 {
        Seq::empty()
    } else {
        let before = items_of(lib, rows.drop_last());
        match track_item(lib, rows.last()) {
            Some(t) => before.push(t),
            None => before,
        }
    }
}

pub open spec fn item_view(t: Option<TrackItem>) -> Option<TrackView> {
    match t {
        Some(v) => Some(v@),
        None => None,
    }
}

/// The tracks with some ids, in the order of the ids.
pub open spec fn items_with_ids(lib: Library, ids: Seq<i64>) -> Seq<TrackView>
    decreases ids.len(),
{
    if ids.len() == 0 {
        Seq::empty()
    } else {
        items_with_ids(lib, ids.drop_last()) + items_of(
            lib,
            lib.tracks@.filter(is_track(ids.last())),
        )
    }
}

pub(crate) fn artist_refs(artists: &Vec<ArtistRow>, ids: &Vec<i64>) -> (r: Vec<ArtistRef>)
    ensures
        refs_view(r@) == refs_of(artists@, ids@),
{
    let mut out: Vec<ArtistRef> = Vec::new();
    let mut i: usize = 0;
    proof {
        assert(ids@.take(0) =~= Seq::empty());
        assert(refs_view(out@) =~= Seq::empty());
    }
    while i < ids.len()
        invariant
            i <= ids@.len(),
            refs_view(out@) == refs_of(artists@, ids@.take(i as int)),
        decreases ids@.len() - i,
    {
        proof {
            assert(ids@.take(i + 1).drop_last() =~= ids@.take(i as int));
        }
        let id: i64 = ids[i];
        let f = |a: &ArtistRow| -> (b: bool)
            ensures
                b == row_is_artist(id)(*a),
            { a.id == id };
        if let Some(k) = find_by(artists, f, Ghost(row_is_artist(id))) {
            let ghost before = out@;
            out.push(ArtistRef { id, name: artists[k].name.clone() });
            proof {
                assert(refs_view(out@) =~= refs_view(before).push((id, artists@[k as int].name@)));
            }
        }
        i += 1;
    }
    proof {
        assert(ids@.take(ids@.len() as int) =~= ids@);
    }
    out
}

impl Library {
    pub(crate) fn credit_refs(&self, track_id: i64, featured: bool) -> (r: Vec<ArtistRef>)
        ensures
            refs_view(r@) == track_refs(*self, track_id, featured),
    {
        let f = |c: &TrackCredit| -> (b: bool)
            ensures
                b == is_credit(track_id, featured)(*c),
            { c.track_id == track_id && c.featured == featured };
        let mut rows = filter_copy(
            &self.track_artists,
            f,
            Ghost(is_credit(track_id, featured)),
        );
        let leq = |a: &TrackCredit, b: &TrackCredit| -> (r: bool)
            ensures
                r == by_position()(*a, *b),
            { a.position <= b.position };
        sort_by(&mut rows, leq, Ghost(by_position()));
        let mut ids: Vec<i64> = Vec::new();
        let mut i: usize = 0;
        while i < rows.len()
            invariant
                i <= rows@.len(),
                ids@.len() == i,
                forall|j: int| 0 <= j < i ==> #[trigger] ids@[j] == rows@[j].artist_id,
            decreases rows@.len() - i,
        {
            ids.push(rows[i].artist_id);
            i += 1;
        }
        proof {
            assert(ids@ =~= credited(rows@));
        }
        artist_refs(&self.artists, &ids)
    }

    pub(crate) fn plays_of(&self, track_id: i64) -> (r: usize)
        ensures
            r == plays(self.history@, track_id),
    {
        let f = |p: &Play| -> (b: bool)
            ensures
                b == is_play(track_id)(*p),
            { p.track_id == track_id && p.completed };
        count_by(&self.history, f, Ghost(is_play(track_id)))
    }

    pub(crate) fn item_at(&self, i: usize) -> (r: Option<TrackItem>)
        requires
            i < self.tracks@.len(),
        ensures
            item_view(r) == track_item(*self, self.tracks@[i as int]),
    {
        let t = &self.tracks[i];
        let release_id = t.release_id;
        let f = |r: &ReleaseRow| -> (b: bool)
            ensures
                b == row_is_release(release_id)(*r),
            { r.id == release_id };
        match find_by(&self.releases, f, Ghost(row_is_release(release_id))) {
            Some(k) => {
                let r = &self.releases[k];
                Some(
                    TrackItem {
                        id: t.id,
                        title: t.title.clone(),
                        track_number: t.track_number,
                        disc_number: t.disc_number,
                        duration: t.duration,
                        artists: self.credit_refs(t.id, false),
                        featured_artists: self.credit_refs(t.id, true),
                        release_id: t.release_id,
                        release_title: r.title.clone(),
                        release_year: r.year,
                        file_path: t.file_path.clone(),
                        content_id: normalize_option(&t.content_id),
                        cover_path: r.cover_path.clone(),
                        audio_format: t.audio_format.clone(),
                        audio_bitrate: t.audio_bitrate,
                        audio_sample_rate: t.audio_sample_rate,
                        audio_bit_depth: t.audio_bit_depth,
                        file_size_bytes: t.file_size_bytes,
                        play_count: self.plays_of(t.id) as i64,
                        fed: None,
                    },
                )
            },
            None => None,
        }
    }

    pub(crate) fn items_at(&self, at: &Vec<usize>) -> (r: Vec<TrackItem>)
        requires
            within(at@, self.tracks@.len() as int),
        ensures
            viewed(r@) == items_of(*self, picked(self.tracks@, at@)),
    {
        let ghost rows = picked(self.tracks@, at@);
        let mut out: Vec<TrackItem> = Vec::new();
        let mut i: usize = 0;
        proof {
            assert(rows.take(0) =~= Seq::empty());
            assert(viewed(out@) =~= Seq::empty());
        }
        while i < at.len()
            invariant
                i <= at@.len(),
                rows == picked(self.tracks@, at@),
                within(at@, self.tracks@.len() as int),
                viewed(out@) == items_of(*self, rows.take(i as int)),
            decreases at@.len() - i,
        {
            proof {
                assert(rows.take(i + 1).drop_last() =~= rows.take(i as int));
                assert(at@[i as int] < self.tracks@.len());
            }
            if let Some(t) = self.item_at(at[i]) {
                let ghost before = out@;
                let ghost v = t@;
                out.push(t);
                proof {
                    assert(viewed(out@) =~= viewed(before).push(v));
                }
            }
            i += 1;
        }
        proof {
            assert(rows.take(at@.len() as int) =~= rows);
        }
        out
    }

    /// The tracks with some ids, in the order of the ids.
    pub fn tracks_by_ids(&self, ids: &[i64]) -> (r: Vec<TrackItem>)
        ensures
            viewed(r@) == items_with_ids(*self, ids@),
    {
        let mut out: Vec<TrackItem> = Vec::new();
        let mut i: usize = 0;
        proof {
            assert(ids@.take(0) =~= Seq::empty());
            assert(viewed(out@) =~= Seq::empty());
        }
        while i < ids.len()
            invariant
                i <= ids@.len(),
                viewed(out@) == items_with_ids(*self, ids@.take(i as int)),
            decreases ids@.len() - i,
        {
            proof {
                assert(ids@.take(i + 1).drop_last() =~= ids@.take(i as int));
            }
            let id: i64 = ids[i];
            let f = |t: &TrackRow| -> (b: bool)
                ensures
                    b == is_track(id)(*t),
                { t.id == id };
            let at = select_by(&self.tracks, f, Ghost(is_track(id)));
            let mut more = self.items_at(&at);
            let ghost a = out@;
            let ghost b = more@;
            out.append(&mut more);
            proof {
                assert(viewed(out@) =~= viewed(a) + viewed(b));
            }
            i += 1;
        }
        proof {
            assert(ids@.take(ids@.len() as int) =~= ids@);
        }
        out
    }

    /// The first track with a content id.
    pub fn track_by_content_id(&self, content_id: &str) -> (r: Option<TrackItem>)
        ensures
            item_view(r) == match canonical(content_id@) {
                Some(id) => first_of(items_of(*self, self.tracks@.filter(has_content(id)))),
                None => None,
            },
    {
        match normalize_content_id(content_id) {
            Some(id) => {
                let f = |t: &TrackRow| -> (b: bool)
                    ensures
                        b == has_content(id@)(*t),
                    {
                        match &t.content_id {
                            Some(c) => same(c.as_str(), id.as_str()),
                            None => false,
                        }
                    };
                let at = select_by(&self.tracks, f, Ghost(has_content(id@)));
                let mut found = self.items_at(&at);
                proof {
                    assert(viewed(found@).len() == found@.len());
                }
                if found.len() > 0 {
                    Some(found.remove(0))
                } else {
                    None
                }
            },
            None => None,
        }
    }
}

pub open spec fn first_of<T>(s: Seq<T>) -> Option<T> {
    if s.len() > 0 {
        Some(s[0])
    } else {
        None
    }
}

// ---------------------------------------------------------------------------
// Cards
// ---------------------------------------------------------------------------

#[verifier::ext_equal]
pub struct ArtistCardView {
    pub id: i64,
    pub name: Seq<char>,
    pub image_path: Option<Seq<char>>,
    pub release_count: i64,
    pub track_count: i64,
    pub availability: Availability,
}

impl View for ArtistCard {
    type V = ArtistCardView;

    open spec fn view(&self) -> ArtistCardView {
        ArtistCardView {
            id: self.id,
            name: self.name@,
            image_path: opt_view(self.image_path),
            release_count: self.release_count,
            track_count: self.track_count,
            availability: self.availability,
        }
    }
}

#[verifier::ext_equal]
pub struct ReleaseCardView {
    pub id: i64,
    pub title: Seq<char>,
    pub release_type: Seq<char>,
    pub year: Option<i32>,
    pub cover_path: Option<Seq<char>>,
    pub track_count: i64,
    pub availability: Availability,
}

impl View for ReleaseCard {
    type V = ReleaseCardView;

    open spec fn view(&self) -> ReleaseCardView {
        ReleaseCardView {
            id: self.id,
            title: self.title@,
            release_type: self.release_type@,
            year: self.year,
            cover_path: opt_view(self.cover_path),
            track_count: self.track_count,
            availability: self.availability,
        }
    }
}

/// The numbers in a list, each once.
pub open spec fn distinct(s: Seq<i64>) -> Seq<i64>
    decreases s.len(),
{
    if s.len() == 0 {
        Seq::empty()
    } else {
        let before = distinct(s.drop_last());
        if before.contains(s.last()) {
            before
        } else {
            before.push(s.last())
        }
    }
}

pub open spec fn of_artist(id: i64) -> spec_fn(TrackCredit) -> bool {
    |c: TrackCredit| c.artist_id == id
}

pub open spec fn release_of_artist(id: i64) -> spec_fn(ReleaseCredit) -> bool {
    |c: ReleaseCredit| c.artist_id == id
}

pub open spec fn credited_tracks(s: Seq<TrackCredit>) -> Seq<i64> {
    s.map_values(|c: TrackCredit| c.track_id)
}

pub open spec fn credited_releases(s: Seq<ReleaseCredit>) -> Seq<i64> {
    s.map_values(|c: ReleaseCredit| c.release_id)
}

/// How many releases are an artist's.
pub open spec fn release_count(lib: Library, id: i64) -> nat {
    distinct(credited_releases(lib.release_artists@.filter(release_of_artist(id)))).len()
}

/// How many tracks an artist is credited on, in any role.
pub open spec fn track_count(lib: Library, id: i64) -> nat {
    distinct(credited_tracks(lib.track_artists@.filter(of_artist(id)))).len()
}

pub open spec fn local_card(lib: Library, a: ArtistRow) -> ArtistCardView {
    ArtistCardView {
        id: a.id,
        name: a.name@,
        image_path: opt_view(a.image_path),
        release_count: release_count(lib, a.id) as i64,
        track_count: track_count(lib, a.id) as i64,
        availability: Availability::Local,
    }
}

pub open spec fn is_on_release(id: i64) -> spec_fn(TrackRow) -> bool {
    |t: TrackRow| t.release_id == id
}

pub open spec fn release_card(lib: Library, r: ReleaseRow) -> ReleaseCardView {
    ReleaseCardView {
        id: r.id,
        title: r.title@,
        release_type: r.release_type@,
        year: r.year,
        cover_path: opt_view(r.cover_path),
        track_count: count_where(lib.tracks@, is_on_release(r.id)) as i64,
        availability: Availability::Local,
    }
}

pub open spec fn local_cards(lib: Library, rows: Seq<ArtistRow>) -> Seq<ArtistCardView> {
    rows.map_values(|a: ArtistRow| local_card(lib, a))
}

pub open spec fn release_cards(lib: Library, rows: Seq<ReleaseRow>) -> Seq<ReleaseCardView> {
    rows.map_values(|r: ReleaseRow| release_card(lib, r))
}

fn distinct_count(ids: &Vec<i64>) -> (r: usize)
    ensures
        r == distinct(ids@).len(),
{
    let mut seen: Vec<i64> = Vec::new();
    let mut i: usize = 0;
    proof {
        assert(ids@.take(0) =~= Seq::empty());
    }
    while i < ids.len()
        invariant
            i <= ids@.len(),
            seen@ == distinct(ids@.take(i as int)),
        decreases ids@.len() - i,
    {
        proof {
            assert(ids@.take(i + 1).drop_last() =~= ids@.take(i as int));
        }
        if !crate::library::delete::has_id(&seen, ids[i]) {
            seen.push(ids[i]);
        }
        i += 1;
    }
    proof {
        assert(ids@.take(ids@.len() as int) =~= ids@);
    }
    seen.len()
}

impl Library {
    fn count_releases_of(&self, id: i64) -> (r: usize)
        ensures
            r == release_count(*self, id),
    {
        let f = |c: &ReleaseCredit| -> (b: bool)
            ensures
                b == release_of_artist(id)(*c),
            { c.artist_id == id };
        let rows = filter_copy(&self.release_artists, f, Ghost(release_of_artist(id)));
        let mut ids: Vec<i64> = Vec::new();
        let mut i: usize = 0;
        while i < rows.len()
            invariant
                i <= rows@.len(),
                ids@.len() == i,
                forall|j: int| 0 <= j < i ==> #[trigger] ids@[j] == rows@[j].release_id,
            decreases rows@.len() - i,
        {
            ids.push(rows[i].release_id);
            i += 1;
        }
        proof {
            assert(ids@ =~= credited_releases(rows@));
        }
        distinct_count(&ids)
    }

    fn count_tracks_of(&self, id: i64) -> (r: usize)
        ensures
            r == track_count(*self, id),
    {
        let f = |c: &TrackCredit| -> (b: bool)
            ensures
                b == of_artist(id)(*c),
            { c.artist_id == id };
        let rows = filter_copy(&self.track_artists, f, Ghost(of_artist(id)));
        let mut ids: Vec<i64> = Vec::new();
        let mut i: usize = 0;
        while i < rows.len()
            invariant
                i <= rows@.len(),
                ids@.len() == i,
                forall|j: int| 0 <= j < i ==> #[trigger] ids@[j] == rows@[j].track_id,
            decreases rows@.len() - i,
        {
            ids.push(rows[i].track_id);
            i += 1;
        }
        proof {
            assert(ids@ =~= credited_tracks(rows@));
        }
        distinct_count(&ids)
    }

    pub(crate) fn artist_cards_at(&self, at: &Vec<usize>) -> (r: Vec<ArtistCard>)
        requires
            within(at@, self.artists@.len() as int),
        ensures
            viewed(r@) == local_cards(*self, picked(self.artists@, at@)),
    {
        let ghost rows = picked(self.artists@, at@);
        let mut out: Vec<ArtistCard> = Vec::new();
        let mut i: usize = 0;
        while i < at.len()
            invariant
                i <= at@.len(),
                rows == picked(self.artists@, at@),
                within(at@, self.artists@.len() as int),
                out@.len() == i,
                forall|j: int| 0 <= j < i ==> (#[trigger] out@[j])@ == local_card(*self, rows[j]),
            decreases at@.len() - i,
        {
            proof {
                assert(at@[i as int] < self.artists@.len());
            }
            let a = &self.artists[at[i]];
            out.push(
                ArtistCard {
                    id: a.id,
                    name: a.name.clone(),
                    image_path: a.image_path.clone(),
                    release_count: self.count_releases_of(a.id) as i64,
                    track_count: self.count_tracks_of(a.id) as i64,
                    availability: Availability::Local,
                },
            );
            i += 1;
        }
        proof {
            assert(viewed(out@) =~= local_cards(*self, rows));
        }
        out
    }

    fn release_cards_at(&self, at: &Vec<usize>) -> (r: Vec<ReleaseCard>)
        requires
            within(at@, self.releases@.len() as int),
        ensures
            viewed(r@) == release_cards(*self, picked(self.releases@, at@)),
    {
        let ghost rows = picked(self.releases@, at@);
        let mut out: Vec<ReleaseCard> = Vec::new();
        let mut i: usize = 0;
        while i < at.len()
            invariant
                i <= at@.len(),
                rows == picked(self.releases@, at@),
                within(at@, self.releases@.len() as int),
                out@.len() == i,
                forall|j: int|
                    0 <= j < i ==> (#[trigger] out@[j])@ == release_card(*self, rows[j]),
            decreases at@.len() - i,
        {
            proof {
                assert(at@[i as int] < self.releases@.len());
            }
            let row = &self.releases[at[i]];
            let id = row.id;
            let f = |t: &TrackRow| -> (b: bool)
                ensures
                    b == is_on_release(id)(*t),
                { t.release_id == id };
            out.push(
                ReleaseCard {
                    id,
                    title: row.title.clone(),
                    release_type: row.release_type.clone(),
                    year: row.year,
                    cover_path: row.cover_path.clone(),
                    track_count: count_by(&self.tracks, f, Ghost(is_on_release(id))) as i64,
                    availability: Availability::Local,
                },
            );
            i += 1;
        }
        proof {
            assert(viewed(out@) =~= release_cards(*self, rows));
        }
        out
    }
}

// ---------------------------------------------------------------------------
// One artist
// ---------------------------------------------------------------------------

pub open spec fn by_title() -> spec_fn(TrackRow, TrackRow) -> bool {
    |a: TrackRow, b: TrackRow| no_case_leq(a.title@, b.title@)
}

/// The tracks that were played more often first, then by title.
pub open spec fn by_plays(history: Seq<Play>) -> spec_fn(TrackRow, TrackRow) -> bool {
    |a: TrackRow, b: TrackRow|
        if plays(history, a.id) as i64 != plays(history, b.id) as i64 {
            plays(history, a.id) as i64 > plays(history, b.id) as i64
        } else {
            no_case_leq(a.title@, b.title@)
        }
}

/// The releases: the newest first, those without a year last, then by title.
pub open spec fn by_year() -> spec_fn(ReleaseRow, ReleaseRow) -> bool {
    |a: ReleaseRow, b: ReleaseRow|
        match (a.year, b.year) {
            (Some(x), Some(y)) => x > y || (x == y && no_case_leq(a.title@, b.title@)),
            (Some(_), None) => true,
            (None, Some(_)) => false,
            (None, None) => no_case_leq(a.title@, b.title@),
        }
}

pub open spec fn is_credited_as(credits: Seq<TrackCredit>, artist: i64, featured: bool) -> spec_fn(
    TrackRow,
) -> bool {
    |t: TrackRow|
        first_where(
            credits,
            crate::library::edit::is_track_credit(t.id, artist, featured),
        ) is Some
}

pub open spec fn is_release_by(credits: Seq<ReleaseCredit>, artist: i64) -> spec_fn(ReleaseRow) -> bool {
    |r: ReleaseRow|
        first_where(credits, crate::library::edit::is_release_credit(r.id, artist)) is Some
}

pub open spec fn is_main_of(artist: i64) -> spec_fn(TrackCredit) -> bool {
    |c: TrackCredit| c.artist_id == artist && !c.featured
}

/// The plays to the end of tracks that an artist is credited on.
pub open spec fn is_play_of(credits: Seq<TrackCredit>, artist: i64) -> spec_fn(Play) -> bool {
    |p: Play| p.completed && first_where(credits, is_any_credit(p.track_id, artist)) is Some
}

pub open spec fn is_any_credit(track_id: i64, artist: i64) -> spec_fn(TrackCredit) -> bool {
    |c: TrackCredit| c.track_id == track_id && c.artist_id == artist
}

fn has_track_credit(credits: &Vec<TrackCredit>, track_id: i64, artist: i64, featured: bool) -> (r: bool)
    ensures
        r == (first_where(
            credits@,
            crate::library::edit::is_track_credit(track_id, artist, featured),
        ) is Some),
{
    let f = |c: &TrackCredit| -> (b: bool)
        ensures
            b == crate::library::edit::is_track_credit(track_id, artist, featured)(*c),
        { c.track_id == track_id && c.artist_id == artist && c.featured == featured };
    find_by(
        credits,
        f,
        Ghost(crate::library::edit::is_track_credit(track_id, artist, featured)),
    ).is_some()
}

fn has_any_credit(credits: &Vec<TrackCredit>, track_id: i64, artist: i64) -> (r: bool)
    ensures
        r == (first_where(credits@, is_any_credit(track_id, artist)) is Some),
{
    let f = |c: &TrackCredit| -> (b: bool)
        ensures
            b == is_any_credit(track_id, artist)(*c),
        { c.track_id == track_id && c.artist_id == artist };
    find_by(credits, f, Ghost(is_any_credit(track_id, artist))).is_some()
}

/// What is told of one artist: what is theirs and where they are featured.
pub open spec fn artist_answer(lib: Library, id: i64, r: Result<ArtistDetail, String>) -> bool {
    &&& r is Ok == (artist_row(lib.artists@, id) is Some)
    &&& match r {
        Err(e) => e@ == "artist not found"@,
        Ok(d) => {
            let a = lib.artists@[artist_row(lib.artists@, id)->0];
            &&& d.id == id
            &&& d.name@ == a.name@
            &&& opt_view(d.image_path) == opt_view(a.image_path)
            &&& d.total_track_count == count_where(
                lib.track_artists@,
                is_main_of(id),
            ) as i64
            &&& d.total_play_count == count_where(
                lib.history@,
                is_play_of(lib.track_artists@, id),
            ) as i64
            &&& viewed(d.top_tracks@) == at_most(
                items_of(
                    lib,
                    stable_sorted(
                        lib.tracks@.filter(
                            is_credited_as(lib.track_artists@, id, false),
                        ),
                        by_plays(lib.history@),
                    ),
                ),
                10,
            )
            &&& viewed(d.releases@) == release_cards(
                lib,
                stable_sorted(
                    lib.releases@.filter(is_release_by(lib.release_artists@, id)),
                    by_year(),
                ),
            )
            &&& viewed(d.featured_tracks@) == items_of(
                lib,
                stable_sorted(
                    lib.tracks@.filter(is_credited_as(lib.track_artists@, id, true)),
                    by_title(),
                ),
            )
        },
    }
}

impl Library {
    fn tracks_of_artist(&self, artist: i64, featured: bool) -> (r: Vec<usize>)
        ensures
            within(r@, self.tracks@.len() as int),
            picked(self.tracks@, r@) == self.tracks@.filter(
                is_credited_as(self.track_artists@, artist, featured),
            ),
    {
        let credits = &self.track_artists;
        let f = |t: &TrackRow| -> (b: bool)
            ensures
                b == is_credited_as(credits@, artist, featured)(*t),
            { has_track_credit(credits, t.id, artist, featured) };
        select_by(&self.tracks, f, Ghost(is_credited_as(credits@, artist, featured)))
    }

    fn releases_of_artist(&self, artist: i64) -> (r: Vec<usize>)
        ensures
            within(r@, self.releases@.len() as int),
            picked(self.releases@, r@) == stable_sorted(
                self.releases@.filter(is_release_by(self.release_artists@, artist)),
                by_year(),
            ),
    {
        let credits = &self.release_artists;
        let f = |r: &ReleaseRow| -> (b: bool)
            ensures
                b == is_release_by(credits@, artist)(*r),
            { crate::library::edit::has_release_credit(credits, r.id, artist) };
        let mut at = select_by(&self.releases, f, Ghost(is_release_by(credits@, artist)));
        let leq = |a: &ReleaseRow, b: &ReleaseRow| -> (r: bool)
            ensures
                r == by_year()(*a, *b),
            {
                match (a.year, b.year) {
                    (Some(x), Some(y)) => x > y || (x == y && no_case_before_or_same(
                        a.title.as_str(),
                        b.title.as_str(),
                    )),
                    (Some(_), None) => true,
                    (None, Some(_)) => false,
                    (None, None) => no_case_before_or_same(a.title.as_str(), b.title.as_str()),
                }
            };
        sort_places(&self.releases, &mut at, leq, Ghost(by_year()));
        at
    }

    /// One artist: what is theirs and where they are featured.
    pub fn artist(&self, id: i64) -> (r: Result<ArtistDetail, String>)
        ensures
            artist_answer(*self, id, r),
    {
        let f = |a: &ArtistRow| -> (b: bool)
            ensures
                b == row_is_artist(id)(*a),
            { a.id == id };
        let place = match find_by(&self.artists, f, Ghost(row_is_artist(id))) {
            Some(i) => i,
            None => {
                return Err("artist not found".to_owned());
            },
        };
        let g = |c: &TrackCredit| -> (b: bool)
            ensures
                b == is_main_of(id)(*c),
            { c.artist_id == id && !c.featured };
        let total_track_count = count_by(&self.track_artists, g, Ghost(is_main_of(id))) as i64;
        let credits = &self.track_artists;
        let h = |p: &Play| -> (b: bool)
            ensures
                b == is_play_of(credits@, id)(*p),
            { p.completed && has_any_credit(credits, p.track_id, id) };
        let total_play_count = count_by(
            &self.history,
            h,
            Ghost(is_play_of(credits@, id)),
        ) as i64;
        let mut top = self.tracks_of_artist(id, false);
        let me = self;
        let more = |a: &TrackRow, b: &TrackRow| -> (r: bool)
            ensures
                r == by_plays(me.history@)(*a, *b),
            {
                let x = me.plays_of(a.id) as i64;
                let y = me.plays_of(b.id) as i64;
                if x != y {
                    x > y
                } else {
                    no_case_before_or_same(a.title.as_str(), b.title.as_str())
                }
            };
        sort_places(&self.tracks, &mut top, more, Ghost(by_plays(me.history@)));
        let mut top_tracks = self.items_at(&top);
        let ghost listed = top_tracks@;
        limit_to(&mut top_tracks, 10);
        proof {
            assert(viewed(top_tracks@) =~= at_most(viewed(listed), 10));
        }
        let mut guest = self.tracks_of_artist(id, true);
        let leq = |a: &TrackRow, b: &TrackRow| -> (r: bool)
            ensures
                r == by_title()(*a, *b),
            { no_case_before_or_same(a.title.as_str(), b.title.as_str()) };
        sort_places(&self.tracks, &mut guest, leq, Ghost(by_title()));
        let featured_tracks = self.items_at(&guest);
        let own = self.releases_of_artist(id);
        let releases = self.release_cards_at(&own);
        let a = &self.artists[place];
        Ok(
            ArtistDetail {
                id,
                name: a.name.clone(),
                image_path: a.image_path.clone(),
                total_track_count,
                total_play_count,
                top_tracks,
                releases,
                featured_tracks,
            },
        )
    }
}

// ---------------------------------------------------------------------------
// One release
// ---------------------------------------------------------------------------

pub open spec fn is_credit_of_release(id: i64) -> spec_fn(ReleaseCredit) -> bool {
    |c: ReleaseCredit| c.release_id == id
}

pub open spec fn by_release_position() -> spec_fn(ReleaseCredit, ReleaseCredit) -> bool {
    |a: ReleaseCredit, b: ReleaseCredit| a.position <= b.position
}

pub open spec fn release_credited_to(s: Seq<ReleaseCredit>) -> Seq<i64> {
    s.map_values(|c: ReleaseCredit| c.artist_id)
}

/// The artists of a release.
pub open spec fn release_refs(lib: Library, id: i64) -> Seq<(i64, Seq<char>)> {
    refs_of(
        lib.artists@,
        release_credited_to(
            stable_sorted(
                lib.release_artists@.filter(is_credit_of_release(id)),
                by_release_position(),
            ),
        ),
    )
}

/// Whether one number comes before another; one that is not known comes last.
pub open spec fn number_before(a: Option<i32>, b: Option<i32>) -> bool {
    match (a, b) {
        (Some(x), Some(y)) => x < y,
        (Some(_), None) => true,
        (None, _) => false,
    }
}

/// The tracks of a release: by disc and number, then by title.
pub open spec fn by_place() -> spec_fn(TrackRow, TrackRow) -> bool {
    |a: TrackRow, b: TrackRow|
        if a.disc_number != b.disc_number {
            number_before(a.disc_number, b.disc_number)
        } else if a.track_number != b.track_number {
            number_before(a.track_number, b.track_number)
        } else {
            no_case_leq(a.title@, b.title@)
        }
}

fn comes_before(a: Option<i32>, b: Option<i32>) -> (r: bool)
    ensures
        r == number_before(a, b),
{
    match (a, b) {
        (Some(x), Some(y)) => x < y,
        (Some(_), None) => true,
        (None, _) => false,
    }
}

fn is_same_number(a: Option<i32>, b: Option<i32>) -> (r: bool)
    ensures
        r == (a == b),
{
    match (a, b) {
        (Some(x), Some(y)) => x == y,
        (None, None) => true,
        _ => false,
    }
}

/// What is told of one release: its artists and its tracks.
pub open spec fn release_answer(lib: Library, id: i64, r: Result<ReleaseDetail, String>) -> bool {
    &&& r is Ok == (first_where(lib.releases@, row_is_release(id)) is Some)
    &&& match r {
        Err(e) => e@ == "release not found"@,
        Ok(d) => {
            let row = lib.releases@[first_where(lib.releases@, row_is_release(id))->0];
            &&& d.id == id
            &&& d.title@ == row.title@
            &&& d.release_type@ == row.release_type@
            &&& d.year == row.year
            &&& opt_view(d.cover_path) == opt_view(row.cover_path)
            &&& refs_view(d.artists@) == release_refs(lib, id)
            &&& viewed(d.tracks@) == items_of(
                lib,
                stable_sorted(lib.tracks@.filter(is_on_release(id)), by_place()),
            )
        },
    }
}

impl Library {
    pub(crate) fn release_artists_of(&self, id: i64) -> (r: Vec<ArtistRef>)
        ensures
            refs_view(r@) == release_refs(*self, id),
    {
        let f = |c: &ReleaseCredit| -> (b: bool)
            ensures
                b == is_credit_of_release(id)(*c),
            { c.release_id == id };
        let mut rows = filter_copy(&self.release_artists, f, Ghost(is_credit_of_release(id)));
        let leq = |a: &ReleaseCredit, b: &ReleaseCredit| -> (r: bool)
            ensures
                r == by_release_position()(*a, *b),
            { a.position <= b.position };
        sort_by(&mut rows, leq, Ghost(by_release_position()));
        let mut ids: Vec<i64> = Vec::new();
        let mut i: usize = 0;
        while i < rows.len()
            invariant
                i <= rows@.len(),
                ids@.len() == i,
                forall|j: int| 0 <= j < i ==> #[trigger] ids@[j] == rows@[j].artist_id,
            decreases rows@.len() - i,
        {
            ids.push(rows[i].artist_id);
            i += 1;
        }
        proof {
            assert(ids@ =~= release_credited_to(rows@));
        }
        artist_refs(&self.artists, &ids)
    }

    /// One release with its tracks.
    pub fn release(&self, id: i64) -> (r: Result<ReleaseDetail, String>)
        ensures
            release_answer(*self, id, r),
    {
        let f = |r: &ReleaseRow| -> (b: bool)
            ensures
                b == row_is_release(id)(*r),
            { r.id == id };
        let place = match find_by(&self.releases, f, Ghost(row_is_release(id))) {
            Some(i) => i,
            None => {
                return Err("release not found".to_owned());
            },
        };
        let g = |t: &TrackRow| -> (b: bool)
            ensures
                b == is_on_release(id)(*t),
            { t.release_id == id };
        let mut at = select_by(&self.tracks, g, Ghost(is_on_release(id)));
        let leq = |a: &TrackRow, b: &TrackRow| -> (r: bool)
            ensures
                r == by_place()(*a, *b),
            {
                if !is_same_number(a.disc_number, b.disc_number) {
                    comes_before(a.disc_number, b.disc_number)
                } else if !is_same_number(a.track_number, b.track_number) {
                    comes_before(a.track_number, b.track_number)
                } else {
                    no_case_before_or_same(a.title.as_str(), b.title.as_str())
                }
            };
        sort_places(&self.tracks, &mut at, leq, Ghost(by_place()));
        let tracks = self.items_at(&at);
        let row = &self.releases[place];
        Ok(
            ReleaseDetail {
                id,
                title: row.title.clone(),
                release_type: row.release_type.clone(),
                year: row.year,
                cover_path: row.cover_path.clone(),
                artists: self.release_artists_of(id),
                tracks,
            },
        )
    }
}

// ---------------------------------------------------------------------------
// Search
// ---------------------------------------------------------------------------

/// Whether the key of a name holds a text.
pub open spec fn names_like<F: Fn(&str) -> String>(f: F, name: Seq<char>, pattern: Seq<char>) -> bool {
    find_from(key_of(f, name), pattern, 0) is Some
}

pub open spec fn artist_like<F: Fn(&str) -> String>(f: F, p: Seq<char>) -> spec_fn(ArtistRow) -> bool {
    |a: ArtistRow| names_like(f, a.name@, p)
}

pub open spec fn release_like<F: Fn(&str) -> String>(f: F, p: Seq<char>) -> spec_fn(ReleaseRow) -> bool {
    |r: ReleaseRow| names_like(f, r.title@, p)
}

pub open spec fn track_like<F: Fn(&str) -> String>(f: F, p: Seq<char>) -> spec_fn(TrackRow) -> bool {
    |t: TrackRow| names_like(f, t.title@, p)
}

pub open spec fn by_artist_name() -> spec_fn(ArtistRow, ArtistRow) -> bool {
    |a: ArtistRow, b: ArtistRow| no_case_leq(a.name@, b.name@)
}

pub open spec fn by_release_title() -> spec_fn(ReleaseRow, ReleaseRow) -> bool {
    |a: ReleaseRow, b: ReleaseRow| no_case_leq(a.title@, b.title@)
}

pub open spec fn artist_rank_order<F: Fn(&str) -> String>(f: F, q: Seq<char>) -> spec_fn(
    ArtistCardView,
    ArtistCardView,
) -> bool {
    |a: ArtistCardView, b: ArtistCardView| name_rank(f, a.name, q) <= name_rank(f, b.name, q)
}

pub open spec fn release_rank_order<F: Fn(&str) -> String>(f: F, q: Seq<char>) -> spec_fn(
    ReleaseCardView,
    ReleaseCardView,
) -> bool {
    |a: ReleaseCardView, b: ReleaseCardView| name_rank(f, a.title, q) <= name_rank(f, b.title, q)
}

pub open spec fn names_in(refs: Seq<(i64, Seq<char>)>) -> Seq<Seq<char>> {
    refs.map_values(|r: (i64, Seq<char>)| r.1)
}

/// How well a track matches: by its title, by its release, by an artist, or in
/// another way.
pub open spec fn item_rank<F: Fn(&str) -> String>(f: F, t: TrackView, q: Seq<char>) -> u8 {
    if key_of(f, t.title) == q {
        0
    } else if key_of(f, t.release_title) == q {
        1
    } else if has_key(f, names_in(t.artists), q) || has_key(f, names_in(t.featured_artists), q) {
        2
    } else {
        3
    }
}

pub open spec fn item_rank_order<F: Fn(&str) -> String>(f: F, q: Seq<char>) -> spec_fn(
    TrackView,
    TrackView,
) -> bool {
    |a: TrackView, b: TrackView| item_rank(f, a, q) <= item_rank(f, b, q)
}

pub open spec fn card_rank_order<F: Fn(&str) -> String>(f: F, q: Seq<char>) -> spec_fn(
    ArtistCard,
    ArtistCard,
) -> bool {
    |a: ArtistCard, b: ArtistCard| artist_rank_order(f, q)(a@, b@)
}

pub open spec fn release_card_rank_order<F: Fn(&str) -> String>(f: F, q: Seq<char>) -> spec_fn(
    ReleaseCard,
    ReleaseCard,
) -> bool {
    |a: ReleaseCard, b: ReleaseCard| release_rank_order(f, q)(a@, b@)
}

pub open spec fn track_item_rank_order<F: Fn(&str) -> String>(f: F, q: Seq<char>) -> spec_fn(
    TrackItem,
    TrackItem,
) -> bool {
    |a: TrackItem, b: TrackItem| item_rank_order(f, q)(a@, b@)
}

pub fn track_match_rank<F: Fn(&str) -> String>(f: &F, track: &TrackItem, query: &str) -> (r: u8)
    requires
        normalizes(*f),
    ensures
        r == item_rank(*f, track@, query@),
{
    if same(key(f, track.title.as_str()).as_str(), query) {
        return 0;
    }
    if same(key(f, track.release_title.as_str()).as_str(), query) {
        return 1;
    }
    let main = names_of(&track.artists);
    let featured = names_of(&track.featured_artists);
    proof {
        assert(ref_names(track.artists@) =~= names_in(track@.artists));
        assert(ref_names(track.featured_artists@) =~= names_in(track@.featured_artists));
    }
    if any_key(f, &main, query) || any_key(f, &featured, query) {
        2
    } else {
        3
    }
}

/// Sorts results by how well they match a query, which is given by its key.
pub fn rank_search_results<F: Fn(&str) -> String>(f: &F, results: &mut SearchResults, query: &str)
    requires
        normalizes(*f),
    ensures
        viewed(final(results).artists@) == stable_sorted(
            viewed(old(results).artists@),
            artist_rank_order(*f, query@),
        ),
        viewed(final(results).releases@) == stable_sorted(
            viewed(old(results).releases@),
            release_rank_order(*f, query@),
        ),
        viewed(final(results).tracks@) == stable_sorted(
            viewed(old(results).tracks@),
            item_rank_order(*f, query@),
        ),
{
    let ghost before = *results;
    let a = |x: &ArtistCard, y: &ArtistCard| -> (r: bool)
        ensures
            r == card_rank_order(*f, query@)(*x, *y),
        {
            exact_match_rank(f, x.name.as_str(), query) <= exact_match_rank(
                f,
                y.name.as_str(),
                query,
            )
        };
    sort_by(&mut results.artists, a, Ghost(card_rank_order(*f, query@)));
    let b = |x: &ReleaseCard, y: &ReleaseCard| -> (r: bool)
        ensures
            r == release_card_rank_order(*f, query@)(*x, *y),
        {
            exact_match_rank(f, x.title.as_str(), query) <= exact_match_rank(
                f,
                y.title.as_str(),
                query,
            )
        };
    sort_by(&mut results.releases, b, Ghost(release_card_rank_order(*f, query@)));
    let c = |x: &TrackItem, y: &TrackItem| -> (r: bool)
        ensures
            r == track_item_rank_order(*f, query@)(*x, *y),
        { track_match_rank(f, x, query) <= track_match_rank(f, y, query) };
    sort_by(&mut results.tracks, c, Ghost(track_item_rank_order(*f, query@)));
    proof {
        lemma_sorted_mapped(
            before.artists@,
            |x: ArtistCard| x@,
            card_rank_order(*f, query@),
            artist_rank_order(*f, query@),
        );
        lemma_sorted_mapped(
            before.releases@,
            |x: ReleaseCard| x@,
            release_card_rank_order(*f, query@),
            release_rank_order(*f, query@),
        );
        lemma_sorted_mapped(
            before.tracks@,
            |x: TrackItem| x@,
            track_item_rank_order(*f, query@),
            item_rank_order(*f, query@),
        );
    }
}

/// The artists that a search finds.
pub open spec fn found_artists<F: Fn(&str) -> String>(f: F, lib: Library, p: Seq<char>, limit: i64) -> Seq<
    ArtistCardView,
> {
    stable_sorted(
        limited(
            local_cards(
                lib,
                stable_sorted(lib.artists@.filter(artist_like(f, p)), by_artist_name()),
            ),
            limit,
        ),
        artist_rank_order(f, p),
    )
}

/// The releases that a search finds.
pub open spec fn found_releases<F: Fn(&str) -> String>(f: F, lib: Library, p: Seq<char>, limit: i64) -> Seq<
    ReleaseCardView,
> {
    stable_sorted(
        limited(
            release_cards(
                lib,
                stable_sorted(lib.releases@.filter(release_like(f, p)), by_release_title()),
            ),
            limit,
        ),
        release_rank_order(f, p),
    )
}

/// The tracks that a search finds.
pub open spec fn found_tracks<F: Fn(&str) -> String>(f: F, lib: Library, p: Seq<char>, limit: i64) -> Seq<
    TrackView,
> {
    stable_sorted(
        limited(
            items_of(lib, stable_sorted(lib.tracks@.filter(track_like(f, p)), by_title())),
            limit,
        ),
        item_rank_order(f, p),
    )
}

/// What a search finds, listed by name, cut at the limit, and with what is
/// named exactly first.
pub open spec fn search_answer<F: Fn(&str) -> String>(
    f: F,
    lib: Library,
    query: Seq<char>,
    limit: i64,
    r: SearchResults,
) -> bool {
    let p = key_of(f, trimmed(query));
    if trimmed(query).len() == 0 || p.len() == 0 {
        r.artists@.len() == 0 && r.releases@.len() == 0 && r.tracks@.len() == 0
    } else {
        &&& viewed(r.artists@) == found_artists(f, lib, p, limit)
        &&& viewed(r.releases@) == found_releases(f, lib, p, limit)
        &&& viewed(r.tracks@) == found_tracks(f, lib, p, limit)
    }
}

impl Library {
    /// Searches artists, releases and tracks by name. What is found is listed
    /// by name, cut at the limit, and what is named exactly comes first.
    pub fn search<F: Fn(&str) -> String>(&self, f: &F, query: &str, limit: i64) -> (r: SearchResults)
        requires
            normalizes(*f),
        ensures
            search_answer(*f, *self, query@, limit, r),
    {
        let clean = trim(query);
        if clean.as_str().is_empty() {
            return SearchResults::default();
        }
        let p = key(f, clean.as_str());
        if p.as_str().is_empty() {
            return SearchResults::default();
        }
        let a = |x: &ArtistRow| -> (b: bool)
            ensures
                b == artist_like(*f, p@)(*x),
            { contains_text(key(f, x.name.as_str()).as_str(), p.as_str()) };
        let mut at = select_by(&self.artists, a, Ghost(artist_like(*f, p@)));
        let by_name = |x: &ArtistRow, y: &ArtistRow| -> (r: bool)
            ensures
                r == by_artist_name()(*x, *y),
            { no_case_before_or_same(x.name.as_str(), y.name.as_str()) };
        sort_places(&self.artists, &mut at, by_name, Ghost(by_artist_name()));
        let mut artists = self.artist_cards_at(&at);
        let ghost all_artists = artists@;
        limit_to(&mut artists, limit);
        let b = |x: &ReleaseRow| -> (b: bool)
            ensures
                b == release_like(*f, p@)(*x),
            { contains_text(key(f, x.title.as_str()).as_str(), p.as_str()) };
        let mut on = select_by(&self.releases, b, Ghost(release_like(*f, p@)));
        let by_name = |x: &ReleaseRow, y: &ReleaseRow| -> (r: bool)
            ensures
                r == by_release_title()(*x, *y),
            { no_case_before_or_same(x.title.as_str(), y.title.as_str()) };
        sort_places(&self.releases, &mut on, by_name, Ghost(by_release_title()));
        let mut releases = self.release_cards_at(&on);
        let ghost all_releases = releases@;
        limit_to(&mut releases, limit);
        let c = |x: &TrackRow| -> (b: bool)
            ensures
                b == track_like(*f, p@)(*x),
            { contains_text(key(f, x.title.as_str()).as_str(), p.as_str()) };
        let mut of = select_by(&self.tracks, c, Ghost(track_like(*f, p@)));
        let by_name = |x: &TrackRow, y: &TrackRow| -> (r: bool)
            ensures
                r == by_title()(*x, *y),
            { no_case_before_or_same(x.title.as_str(), y.title.as_str()) };
        sort_places(&self.tracks, &mut of, by_name, Ghost(by_title()));
        let mut tracks = self.items_at(&of);
        let ghost all_tracks = tracks@;
        limit_to(&mut tracks, limit);
        proof {
            assert(viewed(artists@) =~= limited(viewed(all_artists), limit));
            assert(viewed(releases@) =~= limited(viewed(all_releases), limit));
            assert(viewed(tracks@) =~= limited(viewed(all_tracks), limit));
        }
        let mut results = SearchResults { artists, releases, tracks };
        rank_search_results(f, &mut results, p.as_str());
        results
    }
}

} // verus!
