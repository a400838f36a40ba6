//! Liked tracks: local ones, and tracks of other peers until they are
//! downloaded.

use crate::content_id::{canonical, canonical_option, normalize_content_id, normalize_option};
use crate::federation::track::{FedTrack, FedTrackView};
use crate::library::tables::{stored, stored_view, FedLikeRow, Library, LikeRow, Play, TrackRow};
use crate::lists::{any_by, find_by, first_where, lemma_filter_full, retain_by};
use crate::text::{join, joined, opt_view, same, same_option, views};
use vstd::prelude::*;

verus! {

/// Why a like cannot be toggled.
#[derive(Clone, Copy, PartialEq, Eq, Structural, Debug)]
pub enum LikeError {
    InvalidContentId,
    NoLocalTrack,
}

pub open spec fn likes_track(id: i64) -> spec_fn(LikeRow) -> bool {
    |l: LikeRow| l.track_id == id
}

pub open spec fn likes_other_track(id: i64) -> spec_fn(LikeRow) -> bool {
    |l: LikeRow| l.track_id != id
}

/// Whether a liked track has the given content id.
pub open spec fn likes_content(tracks: Seq<TrackRow>, id: Seq<char>, l: LikeRow) -> bool {
    exists|i: int|
        0 <= i < tracks.len() && (#[trigger] tracks[i]).id == l.track_id && opt_view(
            tracks[i].content_id,
        ) == Some(id)
}

pub open spec fn likes_no_content(tracks: Seq<TrackRow>, id: Seq<char>) -> spec_fn(LikeRow) -> bool {
    |l: LikeRow| !likes_content(tracks, id, l)
}

pub open spec fn fed_has_content(id: Seq<char>) -> spec_fn(FedLikeRow) -> bool {
    |r: FedLikeRow| opt_view(r.fed.content_id) == Some(id)
}

pub open spec fn fed_lacks_content(id: Seq<char>) -> spec_fn(FedLikeRow) -> bool {
    |r: FedLikeRow| opt_view(r.fed.content_id) != Some(id)
}

pub open spec fn fed_is_item(id: Seq<char>) -> spec_fn(FedLikeRow) -> bool {
    |r: FedLikeRow| r.fed.item_id@ == id
}

pub open spec fn fed_is_other_item(id: Seq<char>) -> spec_fn(FedLikeRow) -> bool {
    |r: FedLikeRow| r.fed.item_id@ != id
}

/// The liked tracks of other peers that a federated track does not take the
/// place of: those with another item id and another content id.
pub open spec fn fed_unrelated(item_id: Seq<char>, content_id: Option<Seq<char>>) -> spec_fn(
    FedLikeRow,
) -> bool {
    |r: FedLikeRow|
        r.fed.item_id@ != item_id && (content_id is None || opt_view(r.fed.content_id)
            != content_id)
}

/// Those that are no second record of the same audio under another item id.
pub open spec fn fed_no_duplicate(item_id: Seq<char>, content_id: Seq<char>) -> spec_fn(
    FedLikeRow,
) -> bool {
    |r: FedLikeRow| !(opt_view(r.fed.content_id) == Some(content_id) && r.fed.item_id@ != item_id)
}

/// The likes with the one of a track set.
pub open spec fn with_like(s: Seq<LikeRow>, row: LikeRow) -> Seq<LikeRow> {
    match first_where(s, likes_track(row.track_id)) {
        Some(i) => s.update(i, row),
        None => s.push(row),
    }
}

/// The whole second in which a time lies, in milliseconds. Likes are kept by
/// the second.
pub open spec fn whole_second(ms: i64) -> int {
    (ms as int) / 1000 * 1000
}

fn second_of(ms: i64) -> (r: i64)
    requires
        i64::MIN <= whole_second(ms),
    ensures
        r == whole_second(ms),
{
    if ms >= 0 {
        let n: u64 = ms as u64;
        (n / 1000 * 1000) as i64
    } else {
        let n: u64 = (-(ms + 1)) as u64;
        let back: u64 = n / 1000 * 1000 + 999;
        proof {
            assert(whole_second(ms) == -(back as int) - 1);
        }
        (-(back as i128) - 1) as i64
    }
}

/// When a track was liked, for the order of the liked tracks.
pub open spec fn liked_time(hlc: Option<i64>, at: i64) -> i64 {
    match hlc {
        Some(t) => t,
        None => at,
    }
}

fn put_like(likes: &mut Vec<LikeRow>, row: LikeRow)
    ensures
        final(likes)@ == with_like(old(likes)@, row),
{
    let id = row.track_id;
    let f = |l: &LikeRow| -> (b: bool)
        ensures
            b == likes_track(id)(*l),
        { l.track_id == id };
    match find_by(likes, f, Ghost(likes_track(id))) {
        Some(i) => {
            likes[i] = row;
        },
        None => {
            likes.push(row);
        },
    }
}

fn liked_content(tracks: &Vec<TrackRow>, id: &str, l: &LikeRow) -> (r: bool)
    ensures
        r == likes_content(tracks@, id@, *l),
{
    let ghost p = |t: TrackRow| t.id == l.track_id && opt_view(t.content_id) == Some(id@);
    let f = |t: &TrackRow| -> (b: bool)
        ensures
            b == p(*t),
        {
            t.id == l.track_id && match &t.content_id {
                Some(c) => same(c.as_str(), id),
                None => false,
            }
        };
    let r = any_by(tracks, f, Ghost(p));
    proof {
        if r {
            let j = choose|j: int| 0 <= j < tracks@.len() && p(#[trigger] tracks@[j]);
            assert(tracks@[j].id == l.track_id);
        } else {
            assert forall|i: int| 0 <= i < tracks@.len() implies !((
            #[trigger] tracks@[i]).id == l.track_id && opt_view(tracks@[i].content_id) == Some(
                id@,
            )) by {
                assert(!p(tracks@[i]));
            }
        }
    }
    r
}

/// Takes out the likes of the tracks with a content id.
fn unlike_content(lib: &mut Library, id: &str) -> (r: bool)
    ensures
        final(lib).likes@ == old(lib).likes@.filter(likes_no_content(old(lib).tracks@, id@)),
        r == (final(lib).likes@.len() < old(lib).likes@.len()),
        final(lib).likes@.len() <= old(lib).likes@.len(),
        (Library { likes: old(lib).likes, ..*final(lib) }) == *old(lib),
{
    let n: usize = lib.likes.len();
    let ghost tracks = lib.tracks@;
    let mut likes: Vec<LikeRow> = Vec::new();
    std::mem::swap(&mut likes, &mut lib.likes);
    let all = &lib.tracks;
    let f = |l: &LikeRow| -> (b: bool)
        ensures
            b == likes_no_content(all@, id@)(*l),
        { !liked_content(all, id, l) };
    let ghost before = likes@;
    retain_by(&mut likes, f, Ghost(likes_no_content(tracks, id@)));
    proof {
        before.lemma_filter_len(likes_no_content(tracks, id@));
    }
    let r = likes.len() < n;
    lib.likes = likes;
    r
}

/// What toggling the like of a content id gives.
pub open spec fn toggled(lib: Library, content_id: Seq<char>) -> Result<bool, LikeError> {
    match canonical(content_id) {
        None => Err(LikeError::InvalidContentId),
        Some(id) => if lib.likes@.filter(likes_no_content(lib.tracks@, id)).len() < lib.likes@.len()
            || lib.fed_likes@.filter(fed_lacks_content(id)).len() < lib.fed_likes@.len() {
            Ok(false)
        } else if lowest_track(lib, id) is Some {
            Ok(true)
        } else {
            Err(LikeError::NoLocalTrack)
        },
    }
}

/// The smallest id of a local track with a content id.
pub open spec fn lowest_track(lib: Library, id: Seq<char>) -> Option<i64> {
    lowest_of(lib.tracks@, id)
}

pub open spec fn lowest_of(tracks: Seq<TrackRow>, id: Seq<char>) -> Option<i64>
    decreases tracks.len(),
{
    if tracks.len() == 0 {
        None
    } else {
        let before = lowest_of(tracks.drop_last(), id);
        let t = tracks.last();
        if opt_view(t.content_id) == Some(id) && (before is None || t.id < before->0) {
            Some(t.id)
        } else {
            before
        }
    }
}

fn lowest(tracks: &Vec<TrackRow>, id: &str) -> (r: Option<i64>)
    ensures
        r == lowest_of(tracks@, id@),
{
    let mut best: Option<i64> = None;
    let mut i: usize = 0;
    while i < tracks.len()
        invariant
            i <= tracks@.len(),
            best == lowest_of(tracks@.take(i as int), id@),
        decreases tracks@.len() - i,
    {
        proof {
            assert(tracks@.take(i + 1).drop_last() =~= tracks@.take(i as int));
        }
        let hit = match &tracks[i].content_id {
            Some(c) => same(c.as_str(), id),
            None => false,
        };
        if hit {
            match best {
                Some(b) => {
                    if tracks[i].id < b {
                        best = Some(tracks[i].id);
                    }
                },
                None => {
                    best = Some(tracks[i].id);
                },
            }
        }
        i += 1;
    }
    proof {
        assert(tracks@.take(tracks@.len() as int) =~= tracks@);
    }
    best
}

/// The row with a content id that was liked last; of several at the same
/// time, the first.
pub open spec fn latest_fed_like(s: Seq<FedLikeRow>, id: Seq<char>) -> Option<int>
    decreases s.len(),
{
    if s.len() == 0 {
        None
    } else {
        let before = latest_fed_like(s.drop_last(), id);
        let r = s.last();
        if opt_view(r.fed.content_id) == Some(id) && (before is None || fed_time(s[before->0])
            < fed_time(r)) {
            Some(s.len() - 1)
        } else {
            before
        }
    }
}

pub open spec fn fed_time(r: FedLikeRow) -> i64 {
    liked_time(r.liked_hlc_ms, r.liked_at_ms)
}

pub(crate) fn like_time(r: &FedLikeRow) -> (t: i64)
    ensures
        t == fed_time(*r),
{
    match r.liked_hlc_ms {
        Some(t) => t,
        None => r.liked_at_ms,
    }
}

/// Whether a row already says what a synchronised like says, but for the
/// content id. Lists of names are compared as the text they are kept as.
pub open spec fn same_like(row: FedLikeRow, fed: FedTrackView, hlc: i64) -> bool {
    let r = row.fed@;
    &&& r.owner == fed.owner
    &&& r.title == fed.title
    &&& joined(r.artist_names, "; "@) == joined(fed.artist_names, "; "@)
    &&& joined(r.featured_artist_names, "; "@) == joined(fed.featured_artist_names, "; "@)
    &&& r.year == fed.year
    &&& r.duration_seconds == fed.duration_seconds
    &&& r.release_title == fed.release_title
    &&& r.track_number == fed.track_number
    &&& r.disc_number == fed.disc_number
    &&& row.liked_hlc_ms == Some(hlc)
}

fn is_same_like(row: &FedLikeRow, fed: &FedTrack, hlc: i64) -> (r: bool)
    ensures
        r == same_like(*row, fed@, hlc),
{
    let hlc_same = match row.liked_hlc_ms {
        Some(t) => t == hlc,
        None => false,
    };
    hlc_same && same(row.fed.owner.as_str(), fed.owner.as_str()) && same(
        row.fed.title.as_str(),
        fed.title.as_str(),
    ) && same(
        join(&row.fed.artist_names, "; ").as_str(),
        join(&fed.artist_names, "; ").as_str(),
    ) && same(
        join(&row.fed.featured_artist_names, "; ").as_str(),
        join(&fed.featured_artist_names, "; ").as_str(),
    ) && row.fed.year == fed.year && row.fed.duration_seconds == fed.duration_seconds
        && same_option(&row.fed.release_title, &fed.release_title) && row.fed.track_number
        == fed.track_number && row.fed.disc_number == fed.disc_number
}

/// The ids that mark a track as liked: its item id, and its content id where
/// it has a valid one.
pub open spec fn like_keys(s: Seq<FedLikeRow>) -> Seq<Seq<char>>
    decreases s.len(),
{
    if s.len() == 0 {
        Seq::empty()
    } else {
        let before = like_keys(s.drop_last()).push(s.last().fed.item_id@);
        match canonical_option(opt_view(s.last().fed.content_id)) {
            Some(id) => before.push(id),
            None => before,
        }
    }
}

pub open spec fn is_liked_track(likes: Seq<LikeRow>) -> spec_fn(TrackRow) -> bool {
    |t: TrackRow| first_where(likes, likes_track(t.id)) is Some
}

/// The content ids of the chosen tracks, each once.
pub open spec fn distinct_contents(s: Seq<TrackRow>, p: spec_fn(TrackRow) -> bool) -> Seq<Seq<char>>
    decreases s.len(),
{
    if s.len() == 0 {
        Seq::empty()
    } else {
        let before = distinct_contents(s.drop_last(), p);
        match opt_view(s.last().content_id) {
            Some(id) => if p(s.last()) && !before.contains(id) {
                before.push(id)
            } else {
                before
            },
            None => before,
        }
    }
}

pub open spec fn canonical_list(s: Seq<Seq<char>>) -> Seq<Seq<char>>
    decreases s.len(),
{
    if s.len() == 0 {
        Seq::empty()
    } else {
        let before = canonical_list(s.drop_last());
        match canonical(s.last()) {
            Some(id) => before.push(id),
            None => before,
        }
    }
}

pub(crate) fn lists_text(v: &Vec<String>, s: &str) -> (r: bool)
    ensures
        r == views(v@).contains(s@),
{
    let ghost p = |x: String| x@ == s@;
    let f = |x: &String| -> (b: bool)
        ensures
            b == p(*x),
        { same(x.as_str(), s) };
    match find_by(v, f, Ghost(p)) {
        Some(i) => {
            proof {
                assert(views(v@)[i as int] == s@);
            }
            true
        },
        None => {
            proof {
                assert forall|j: int| 0 <= j < views(v@).len() implies views(v@)[j] != s@ by {
                    assert(!p(v@[j]));
                }
            }
            false
        },
    }
}

fn contents<F: Fn(&TrackRow) -> bool>(
    tracks: &Vec<TrackRow>,
    f: F,
    Ghost(p): Ghost<spec_fn(TrackRow) -> bool>,
) -> (r: Vec<String>)
    requires
        forall|x: &TrackRow| call_requires(f, (x,)),
        forall|x: &TrackRow, b: bool| call_ensures(f, (x,), b) ==> b == p(*x),
    ensures
        views(r@) == distinct_contents(tracks@, p),
{
    let mut out: Vec<String> = Vec::new();
    let mut i: usize = 0;
    proof {
        assert(views(out@) =~= distinct_contents(tracks@.take(0), p));
    }
    while i < tracks.len()
        invariant
            i <= tracks@.len(),
            forall|x: &TrackRow| call_requires(f, (x,)),
            forall|x: &TrackRow, b: bool| call_ensures(f, (x,), b) ==> b == p(*x),
            views(out@) == distinct_contents(tracks@.take(i as int), p),
        decreases tracks@.len() - i,
    {
        proof {
            assert(tracks@.take(i + 1).drop_last() =~= tracks@.take(i as int));
        }
        if let Some(id) = &tracks[i].content_id {
            if f(&tracks[i]) && !lists_text(&out, id.as_str()) {
                let ghost before = out@;
                out.push(id.clone());
                proof {
                    assert(views(out@) =~= views(before).push(id@));
                }
            }
        }
        i += 1;
    }
    proof {
        assert(tracks@.take(tracks@.len() as int) =~= tracks@);
    }
    out
}

fn canonicalize(ids: &Vec<String>) -> (r: Vec<String>)
    ensures
        views(r@) == canonical_list(views(ids@)),
{
    let mut out: Vec<String> = Vec::new();
    let mut i: usize = 0;
    proof {
        assert(views(out@) =~= canonical_list(views(ids@.take(0))));
    }
    while i < ids.len()
        invariant
            i <= ids@.len(),
            views(out@) == canonical_list(views(ids@.take(i as int))),
        decreases ids@.len() - i,
    {
        proof {
            let now = views(ids@.take(i + 1));
            assert(now.drop_last() =~= views(ids@.take(i as int)));
            assert(now.last() == ids@[i as int]@);
        }
        if let Some(id) = normalize_content_id(ids[i].as_str()) {
            let ghost before = out@;
            out.push(id);
            proof {
                assert(views(out@) =~= views(before).push(id@));
            }
        }
        i += 1;
    }
    proof {
        assert(ids@.take(ids@.len() as int) =~= ids@);
    }
    out
}

/// What setting the like of another peer's track changes, and whether it
/// changes anything.
pub open spec fn upserts_like(
    before: Library,
    after: Library,
    fed: FedTrackView,
    hlc: i64,
    changed: bool,
) -> bool {
    &&& match canonical_option(fed.content_id) {
        None => !changed && after.fed_likes == before.fed_likes,
        Some(id) => {
            let base = before.fed_likes@.filter(fed_no_duplicate(fed.item_id, id));
            let now = after.fed_likes@;
            let fresh = FedTrackView { content_id: Some(id), ..fed };
            match first_where(base, fed_is_item(fed.item_id)) {
                Some(i) => if base.len() == before.fed_likes@.len() && same_like(
                    base[i],
                    fed,
                    hlc,
                ) {
                    !changed && now == before.fed_likes@
                } else {
                    &&& changed
                    &&& now == base.update(i, now[i])
                    &&& now[i].fed@ == fresh
                    &&& now[i].liked_at_ms == hlc
                    &&& now[i].liked_hlc_ms == Some(hlc)
                },
                None => {
                    &&& changed
                    &&& now.len() == base.len() + 1
                    &&& now.drop_last() == base
                    &&& now.last().fed@ == fresh
                    &&& now.last().liked_at_ms == hlc
                    &&& now.last().liked_hlc_ms == Some(hlc)
                },
            }
        },
    }
    &&& after == Library { fed_likes: after.fed_likes, ..before }
}

/// The liked track of another peer with a content id, as it is read back.
pub open spec fn found_fed_like(l: Library, content_id: Seq<char>) -> Option<FedTrackView> {
    match canonical(content_id) {
        None => None,
        Some(id) => match latest_fed_like(l.fed_likes@, id) {
            Some(i) => Some(stored_view(l.fed_likes@[i].fed@, Some(id))),
            None => None,
        },
    }
}

/// What toggling the like of a content id changes.
pub open spec fn toggles_like(
    a: Library,
    b: Library,
    content_id: Seq<char>,
    now_ms: i64,
    r: Result<bool, LikeError>,
) -> bool {
    &&& r == toggled(a, content_id)
    &&& r is Err ==> b == a
    &&& r == Ok::<bool, LikeError>(false) ==> {
        let id = canonical(content_id)->0;
        &&& b.likes@ == a.likes@.filter(
            likes_no_content(a.tracks@, id),
        )
        &&& b.fed_likes@ == a.fed_likes@.filter(fed_lacks_content(id))
    }
    &&& r == Ok::<bool, LikeError>(true) ==> {
        &&& b.likes@ == a.likes@.push(
            LikeRow {
                track_id: lowest_track(a, canonical(content_id)->0)->0,
                liked_at_ms: whole_second(now_ms) as i64,
                liked_hlc_ms: None,
            },
        )
        &&& b.fed_likes@ == a.fed_likes@
    }
    &&& (Library {
        likes: a.likes,
        fed_likes: a.fed_likes,
        ..b
    }) == a
}

/// What setting the like of a track, or taking it back, changes.
pub open spec fn sets_like(
    a: Library,
    b: Library,
    track_id: i64,
    liked: bool,
    liked_hlc_ms: i64,
    r: bool,
) -> bool {
    &&& b.likes@ == (if liked {
        with_like(
            a.likes@,
            LikeRow {
                track_id,
                liked_at_ms: liked_hlc_ms,
                liked_hlc_ms: Some(liked_hlc_ms),
            },
        )
    } else {
        a.likes@.filter(likes_other_track(track_id))
    })
    &&& r == (liked || b.likes@.len() < a.likes@.len())
    &&& (Library { likes: a.likes, ..b }) == a
}

/// What toggling the like of another peer's track changes.
pub open spec fn toggles_fed_like(
    a: Library,
    b: Library,
    fed: FedTrack,
    now_ms: i64,
    r: bool,
) -> bool {
    &&& ({
        let id = canonical_option(opt_view(fed.content_id));
        let rest = a.fed_likes@.filter(fed_unrelated(fed.item_id@, id));
        let others = match id {
            Some(c) => a.likes@.filter(likes_no_content(a.tracks@, c)),
            None => a.likes@,
        };
        &&& r == (rest.len() == a.fed_likes@.len() && others.len() == a.likes@.len())
        &&& b.likes@ == (if r {
            a.likes@
        } else {
            others
        })
        &&& !r ==> b.fed_likes@ == rest
        &&& r ==> {
            &&& b.fed_likes@.len() == a.fed_likes@.len() + 1
            &&& b.fed_likes@.drop_last() == a.fed_likes@
            &&& b.fed_likes@.last().fed@ == (FedTrackView {
                content_id: id,
                ..fed@
            })
            &&& b.fed_likes@.last().liked_at_ms == whole_second(now_ms)
            &&& b.fed_likes@.last().liked_hlc_ms is None
        }
    })
    &&& (Library {
        likes: a.likes,
        fed_likes: a.fed_likes,
        ..b
    }) == a
}

/// What moving the like of another peer's track onto a local one changes.
pub open spec fn transfers_like(
    a: Library,
    b: Library,
    item_id: Seq<char>,
    track_id: i64,
    r: bool,
) -> bool {
    &&& match first_where(a.fed_likes@, fed_is_item(item_id)) {
        Some(i) => {
            &&& r
            &&& b.fed_likes@ == a.fed_likes@.filter(
                fed_is_other_item(item_id),
            )
            &&& b.likes@ == with_like(
                a.likes@,
                LikeRow {
                    track_id,
                    liked_at_ms: a.fed_likes@[i].liked_at_ms,
                    liked_hlc_ms: a.fed_likes@[i].liked_hlc_ms,
                },
            )
        },
        None => !r && b == a,
    }
    &&& (Library {
        likes: a.likes,
        fed_likes: a.fed_likes,
        ..b
    }) == a
}

impl Library {
    /// Toggles the like of a content id; gives the new state. A like is taken
    /// back where there is one; else the local track with the smallest id is
    /// liked.
    pub fn toggle_like_by_content_id(&mut self, content_id: &str, now_ms: i64) -> (r: Result<
        bool,
        LikeError,
    >)
        requires
            i64::MIN <= whole_second(now_ms),
        ensures
            toggles_like(*old(self), *final(self), content_id@, now_ms, r),
    {
        let id = match normalize_content_id(content_id) {
            Some(id) => id,
            None => {
                return Err(LikeError::InvalidContentId);
            },
        };
        let liked = self.has_like(id.as_str());
        if liked {
            let _ = unlike_content(self, id.as_str());
            let f = |r: &FedLikeRow| -> (b: bool)
                ensures
                    b == fed_lacks_content(id@)(*r),
                {
                    match &r.fed.content_id {
                        Some(c) => !same(c.as_str(), id.as_str()),
                        None => true,
                    }
                };
            let mut fed: Vec<FedLikeRow> = Vec::new();
            std::mem::swap(&mut fed, &mut self.fed_likes);
            retain_by(&mut fed, f, Ghost(fed_lacks_content(id@)));
            self.fed_likes = fed;
            return Ok(false);
        }
        match lowest(&self.tracks, id.as_str()) {
            Some(track_id) => {
                self.likes.push(LikeRow { track_id, liked_at_ms: second_of(now_ms), liked_hlc_ms: None });
                Ok(true)
            },
            None => Err(LikeError::NoLocalTrack),
        }
    }

    /// Whether a content id is liked, locally or as another peer's track.
    fn has_like(&self, id: &str) -> (r: bool)
        ensures
            r == (self.likes@.filter(likes_no_content(self.tracks@, id@)).len() < self.likes@.len()
                || self.fed_likes@.filter(fed_lacks_content(id@)).len() < self.fed_likes@.len()),
    {
        let ghost p = likes_no_content(self.tracks@, id@);
        let ghost q = fed_lacks_content(id@);
        let all = &self.tracks;
        let ghost tracks = self.tracks@;
        let f = |l: &LikeRow| -> (b: bool)
            ensures
                b == likes_no_content(all@, id@)(*l),
            { !liked_content(all, id, l) };
        let n = crate::lists::count_by(&self.likes, f, Ghost(p));
        let g = |r: &FedLikeRow| -> (b: bool)
            ensures
                b == fed_lacks_content(id@)(*r),
            {
                match &r.fed.content_id {
                    Some(c) => !same(c.as_str(), id),
                    None => true,
                }
            };
        let m = crate::lists::count_by(&self.fed_likes, g, Ghost(q));
        n < self.likes.len() || m < self.fed_likes.len()
    }

    /// Sets or takes back the like of a track as another device has it; gives
    /// whether a row was written.
    pub fn set_synced_like(&mut self, track_id: i64, liked: bool, liked_hlc_ms: i64) -> (r: bool)
        ensures
            sets_like(*old(self), *final(self), track_id, liked, liked_hlc_ms, r),
    {
        if liked {
            put_like(
                &mut self.likes,
                LikeRow { track_id, liked_at_ms: liked_hlc_ms, liked_hlc_ms: Some(liked_hlc_ms) },
            );
            true
        } else {
            let n: usize = self.likes.len();
            let f = |l: &LikeRow| -> (b: bool)
                ensures
                    b == likes_other_track(track_id)(*l),
                { l.track_id != track_id };
            proof {
                self.likes@.lemma_filter_len(likes_other_track(track_id));
            }
            retain_by(&mut self.likes, f, Ghost(likes_other_track(track_id)));
            self.likes.len() < n
        }
    }

    /// Takes back the like of another peer's track; gives whether there was
    /// one.
    pub fn remove_fed_like_by_content_id(&mut self, content_id: &str) -> (r: bool)
        ensures
            final(self).fed_likes@ == match canonical(content_id@) {
                Some(id) => old(self).fed_likes@.filter(fed_lacks_content(id)),
                None => old(self).fed_likes@,
            },
            r == (final(self).fed_likes@.len() < old(self).fed_likes@.len()),
            (Library { fed_likes: old(self).fed_likes, ..*final(self) }) == *old(self),
    {
        let id = match normalize_content_id(content_id) {
            Some(id) => id,
            None => {
                return false;
            },
        };
        let n: usize = self.fed_likes.len();
        let f = |r: &FedLikeRow| -> (b: bool)
            ensures
                b == fed_lacks_content(id@)(*r),
            {
                match &r.fed.content_id {
                    Some(c) => !same(c.as_str(), id.as_str()),
                    None => true,
                }
            };
        proof {
            self.fed_likes@.lemma_filter_len(fed_lacks_content(id@));
        }
        retain_by(&mut self.fed_likes, f, Ghost(fed_lacks_content(id@)));
        self.fed_likes.len() < n
    }

    /// Toggles a like on a federated track; gives the resulting state. A like
    /// of the same item or the same audio is taken back; else the track is
    /// liked.
    pub fn toggle_fed_like(&mut self, fed: &FedTrack, now_ms: i64) -> (r: bool)
        requires
            i64::MIN <= whole_second(now_ms),
        ensures
            toggles_fed_like(*old(self), *final(self), *fed, now_ms, r),
    {
        let id = normalize_option(&fed.content_id);
        let ghost cid = opt_view(id);
        let ghost p = fed_unrelated(fed.item_id@, cid);
        let n: usize = self.fed_likes.len();
        let m: usize = self.likes.len();
        let f = |r: &FedLikeRow| -> (b: bool)
            ensures
                b == p(*r),
            {
                !same(r.fed.item_id.as_str(), fed.item_id.as_str()) && (id.is_none()
                    || !same_option(&r.fed.content_id, &id))
            };
        let kept = crate::lists::count_by(&self.fed_likes, f, Ghost(p));
        let mut liked = kept < n;
        if let Some(c) = &id {
            let ghost q = likes_no_content(self.tracks@, c@);
            let all = &self.tracks;
            let ghost tracks = self.tracks@;
            let g = |l: &LikeRow| -> (b: bool)
                ensures
                    b == likes_no_content(all@, c@)(*l),
                { !liked_content(all, c.as_str(), l) };
            let others = crate::lists::count_by(&self.likes, g, Ghost(q));
            if others < m {
                liked = true;
            }
        }
        if liked {
            let h = |r: &FedLikeRow| -> (b: bool)
                ensures
                    b == p(*r),
                {
                    !same(r.fed.item_id.as_str(), fed.item_id.as_str()) && (id.is_none()
                        || !same_option(&r.fed.content_id, &id))
                };
            retain_by(&mut self.fed_likes, h, Ghost(p));
            if let Some(c) = &id {
                let _ = unlike_content(self, c.as_str());
            }
            return false;
        }
        let mut copy = fed.clone();
        copy.content_id = id;
        let ghost before = self.fed_likes@;
        let row = FedLikeRow { fed: copy, liked_at_ms: second_of(now_ms), liked_hlc_ms: None };
        self.fed_likes.push(row);
        proof {
            assert(self.fed_likes@.drop_last() =~= before);
            assert(self.fed_likes@.last() == row);
            assert(row.fed@ =~= (FedTrackView { content_id: cid, ..fed@ }));
        }
        true
    }

    /// Moves a federated like onto a freshly imported local track. Gives
    /// whether a transfer happened.
    pub fn transfer_fed_like(&mut self, item_id: &str, track_id: i64) -> (r: bool)
        ensures
            transfers_like(*old(self), *final(self), item_id@, track_id, r),
    {
        let f = |r: &FedLikeRow| -> (b: bool)
            ensures
                b == fed_is_item(item_id@)(*r),
            { same(r.fed.item_id.as_str(), item_id) };
        match find_by(&self.fed_likes, f, Ghost(fed_is_item(item_id@))) {
            Some(i) => {
                let liked_at_ms = self.fed_likes[i].liked_at_ms;
                let liked_hlc_ms = self.fed_likes[i].liked_hlc_ms;
                let g = |r: &FedLikeRow| -> (b: bool)
                    ensures
                        b == fed_is_other_item(item_id@)(*r),
                    { !same(r.fed.item_id.as_str(), item_id) };
                retain_by(&mut self.fed_likes, g, Ghost(fed_is_other_item(item_id@)));
                put_like(&mut self.likes, LikeRow { track_id, liked_at_ms, liked_hlc_ms });
                true
            },
            None => false,
        }
    }

    /// The liked track of another peer with a content id: of several, the one
    /// liked last.
    pub fn fed_like_by_content_id(&self, content_id: &str) -> (r: Option<FedTrack>)
        ensures
            crate::federation::track::fed_view(r) == found_fed_like(*self, content_id@),
    {
        let id = match normalize_content_id(content_id) {
            Some(id) => id,
            None => {
                return None;
            },
        };
        let rows = &self.fed_likes;
        let mut best: Option<usize> = None;
        let mut i: usize = 0;
        while i < rows.len()
            invariant
                i <= rows@.len(),
                best matches Some(b) ==> b < i && opt_view(rows@[b as int].fed.content_id) == Some(
                    id@,
                ),
                match best {
                    Some(b) => latest_fed_like(rows@.take(i as int), id@) == Some(b as int),
                    None => latest_fed_like(rows@.take(i as int), id@) is None,
                },
            decreases rows@.len() - i,
        {
            proof {
                assert(rows@.take(i + 1).drop_last() =~= rows@.take(i as int));
            }
            let hit = match &rows[i].fed.content_id {
                Some(c) => same(c.as_str(), id.as_str()),
                None => false,
            };
            if hit {
                match best {
                    Some(b) => {
                        if like_time(&rows[b]) < like_time(&rows[i]) {
                            best = Some(i);
                        }
                    },
                    None => {
                        best = Some(i);
                    },
                }
            }
            i += 1;
        }
        proof {
            assert(rows@.take(rows@.len() as int) =~= rows@);
        }
        match best {
            Some(b) => Some(stored(&rows[b].fed, Some(id))),
            None => None,
        }
    }

    /// Sets the like of another peer's track as another device has it; gives
    /// whether anything changed. Other records of the same audio go.
    pub fn upsert_synced_fed_like(&mut self, fed: &FedTrack, liked_hlc_ms: i64) -> (r: bool)
        ensures
            upserts_like(*old(self), *final(self), fed@, liked_hlc_ms, r),
    {
        let id = match normalize_option(&fed.content_id) {
            Some(id) => id,
            None => {
                return false;
            },
        };
        let ghost p = fed_no_duplicate(fed.item_id@, id@);
        let n: usize = self.fed_likes.len();
        let f = |r: &FedLikeRow| -> (b: bool)
            ensures
                b == p(*r),
            {
                !(match &r.fed.content_id {
                    Some(c) => same(c.as_str(), id.as_str()),
                    None => false,
                } && !same(r.fed.item_id.as_str(), fed.item_id.as_str()))
            };
        let ghost all = self.fed_likes@;
        retain_by(&mut self.fed_likes, f, Ghost(p));
        let ghost base = self.fed_likes@;
        let unique = self.fed_likes.len() == n;
        proof {
            if base.len() == all.len() {
                lemma_filter_full(all, p);
            }
        }
        let g = |r: &FedLikeRow| -> (b: bool)
            ensures
                b == fed_is_item(fed.item_id@)(*r),
            { same(r.fed.item_id.as_str(), fed.item_id.as_str()) };
        let found = find_by(&self.fed_likes, g, Ghost(fed_is_item(fed.item_id@)));
        let mut copy = fed.clone();
        copy.content_id = Some(id);
        proof {
            assert(copy@ =~= (FedTrackView { content_id: Some(id@), ..fed@ }));
        }
        match found {
            Some(i) => {
                if unique && is_same_like(&self.fed_likes[i], fed, liked_hlc_ms) {
                    return false;
                }
                self.fed_likes[i] =
                FedLikeRow {
                    fed: copy,
                    liked_at_ms: liked_hlc_ms,
                    liked_hlc_ms: Some(liked_hlc_ms),
                };
                proof {
                    assert(self.fed_likes@ =~= base.update(i as int, self.fed_likes@[i as int]));
                }
            },
            None => {
                self.fed_likes.push(
                    FedLikeRow {
                        fed: copy,
                        liked_at_ms: liked_hlc_ms,
                        liked_hlc_ms: Some(liked_hlc_ms),
                    },
                );
                proof {
                    assert(self.fed_likes@.drop_last() =~= base);
                }
            },
        }
        true
    }

    /// Item ids and content ids of every liked federated track.
    pub fn fed_like_ids(&self) -> (r: Vec<String>)
        ensures
            views(r@) == like_keys(self.fed_likes@),
    {
        let mut out: Vec<String> = Vec::new();
        let mut i: usize = 0;
        proof {
            assert(views(out@) =~= like_keys(self.fed_likes@.take(0)));
        }
        while i < self.fed_likes.len()
            invariant
                i <= self.fed_likes@.len(),
                views(out@) == like_keys(self.fed_likes@.take(i as int)),
            decreases self.fed_likes@.len() - i,
        {
            let ghost before = out@;
            proof {
                assert(self.fed_likes@.take(i + 1).drop_last() =~= self.fed_likes@.take(i as int));
            }
            out.push(self.fed_likes[i].fed.item_id.clone());
            proof {
                assert(views(out@) =~= views(before).push(self.fed_likes@[i as int].fed.item_id@));
            }
            let ghost middle = out@;
            if let Some(id) = normalize_option(&self.fed_likes[i].fed.content_id) {
                out.push(id);
                proof {
                    assert(views(out@) =~= views(middle).push(id@));
                }
            }
            i += 1;
        }
        proof {
            assert(self.fed_likes@.take(self.fed_likes@.len() as int) =~= self.fed_likes@);
        }
        out
    }

    /// The content ids of the local tracks, each once, in canonical form.
    pub fn local_content_ids(&self) -> (r: Vec<String>)
        ensures
            views(r@) == canonical_list(distinct_contents(self.tracks@, |t: TrackRow| true)),
    {
        let f = |t: &TrackRow| -> (b: bool)
            ensures
                b,
            { true };
        let ids = contents(&self.tracks, f, Ghost(|t: TrackRow| true));
        canonicalize(&ids)
    }

    /// The content ids of the liked local tracks, each once, in canonical
    /// form.
    pub fn liked_content_ids(&self) -> (r: Vec<String>)
        ensures
            views(r@) == canonical_list(
                distinct_contents(self.tracks@, is_liked_track(self.likes@)),
            ),
    {
        let likes = &self.likes;
        let f = |t: &TrackRow| -> (b: bool)
            ensures
                b == is_liked_track(likes@)(*t),
            {
                let id = t.id;
                let g = |l: &LikeRow| -> (b: bool)
                    ensures
                        b == likes_track(id)(*l),
                    { l.track_id == id };
                let found = find_by(likes, g, Ghost(likes_track(id)));
                found.is_some()
            };
        let ids = contents(&self.tracks, f, Ghost(is_liked_track(likes@)));
        canonicalize(&ids)
    }

    /// Records one play.
    pub fn add_history(
        &mut self,
        track_id: i64,
        started_at: Option<i64>,
        listened_seconds: i32,
        completed: bool,
    )
        ensures
            final(self).history@ == old(self).history@.push(
                Play { track_id, started_at, listened_seconds, completed },
            ),
            (Library { history: old(self).history, ..*final(self) }) == *old(self),
    {
        self.history.push(Play { track_id, started_at, listened_seconds, completed });
    }
}

} // verus!
