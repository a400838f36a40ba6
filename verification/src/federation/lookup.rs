//! Finding a track by its content, and the order in which its owners are
//! asked.

use crate::federation::audio::TrackMetadata;
use crate::federation::play::{apply_remote_metadata, metadata_view, overlaid};
use crate::federation::search::{
    all_among, are_among, cached_track, fed_track_from_item, item_track, CachedTrackMetadata,
    CachedView, ItemKind, NetItem, NetItemView,
};
use crate::federation::serve::{identifies, local_of_item, requested_item};
use crate::federation::track::{FedTrack, FedTrackView};
use crate::hex::hex_decode_item_id;
use crate::library::edit::{
    artist_place, can_take_in, lacks_cover, lacks_name, shelf, upserted, EditError, Upserted,
};
use crate::library::import::{Cover, ImportView, TrackImport};
use crate::library::likes::{fed_is_item, fed_is_other_item, with_like};
use crate::library::listing::{first_of, item_view, items_with_ids};
use crate::library::models::{TrackItem, TrackView};
use crate::library::tables::{track_named, Library, LikeRow};
use crate::lists::{first_where, retain_by, viewed};
use crate::names::{key, key_of, normalizes, splits, words, words_of};
use crate::text::{opt_view, same, views};
use vstd::prelude::*;

verus! {

// ---------------------------------------------------------------------------
// A shared track
// ---------------------------------------------------------------------------

/// How often a content id is looked up before the label is tried.
pub const CONTENT_LOOKUP_ATTEMPTS: usize = 3;

pub open spec fn has_content(id: Seq<char>) -> spec_fn(CachedView) -> bool {
    |c: CachedView| c.fed.content_id == Some(id)
}

pub open spec fn is_published_track() -> spec_fn(NetItemView) -> bool {
    |i: NetItemView| i.kind is Track
}

pub open spec fn published_with_content(id: Seq<char>) -> spec_fn(NetItemView) -> bool {
    |i: NetItemView| i.kind is Track && i.content_id == Some(id)
}

pub open spec fn published_with_words(want: Seq<Seq<char>>) -> spec_fn(NetItemView) -> bool {
    |i: NetItemView| i.kind is Track && all_among(want, i.tokens)
}

pub open spec fn fed_option(t: Option<FedTrack>) -> Option<FedTrackView> {
    match t {
        Some(v) => Some(v@),
        None => None,
    }
}

/// The track of which more was learnt that has a content id.
pub fn cached_with_content(cached: &Vec<CachedTrackMetadata>, content_id: &str) -> (r: Option<
    FedTrack,
>)
    ensures
        fed_option(r) == match first_where(viewed(cached@), has_content(content_id@)) {
            Some(i) => Some(cached_track(viewed(cached@)[i])),
            None => None,
        },
{
    let ghost all = viewed(cached@);
    let ghost p = has_content(content_id@);
    let mut i: usize = 0;
    while i < cached.len()
        invariant
            i <= cached@.len(),
            all == viewed(cached@),
            p == has_content(content_id@),
            forall|j: int| 0 <= j < i ==> !p(#[trigger] all[j]),
        decreases cached@.len() - i,
    {
        proof {
            assert(all[i as int] == cached@[i as int]@);
        }
        let found = match &cached[i].fed.content_id {
            Some(c) => same(c.as_str(), content_id),
            None => false,
        };
        if found {
            proof {
                crate::lists::lemma_first_where(all, p);
                assert(p(all[i as int]));
            }
            return Some(cached[i].to_fed_track());
        }
        i += 1;
    }
    proof {
        crate::lists::lemma_first_where(all, p);
    }
    None
}

/// The first item that satisfies something, as a track.
pub open spec fn first_track(items: Seq<NetItemView>, p: spec_fn(NetItemView) -> bool, own: Seq<char>) -> Option<
    FedTrackView,
> {
    match first_where(items, p) {
        Some(i) => Some(item_track(own, items[i])),
        None => None,
    }
}

/// The first track that was found under a content id.
pub fn first_published_track(items: &Vec<NetItem>, own: &str) -> (r: Option<FedTrack>)
    ensures
        fed_option(r) == first_track(viewed(items@), is_published_track(), own@),
{
    let ghost all = viewed(items@);
    let ghost p = is_published_track();
    let mut i: usize = 0;
    while i < items.len()
        invariant
            i <= items@.len(),
            all == viewed(items@),
            p == is_published_track(),
            forall|j: int| 0 <= j < i ==> !p(#[trigger] all[j]),
        decreases items@.len() - i,
    {
        proof {
            assert(all[i as int] == items@[i as int]@);
        }
        if items[i].kind == ItemKind::Track {
            proof {
                crate::lists::lemma_first_where(all, p);
                assert(p(all[i as int]));
            }
            return Some(fed_track_from_item(&items[i], own));
        }
        i += 1;
    }
    proof {
        crate::lists::lemma_first_where(all, p);
    }
    None
}

pub open spec fn is_no_feat() -> spec_fn(Seq<char>) -> bool {
    |w: Seq<char>| w != "feat"@
}

pub open spec fn word_is_no_feat() -> spec_fn(String) -> bool {
    |w: String| w@ != "feat"@
}

/// The words of a label that a track is found by. The word before the guests
/// is none of them.
pub open spec fn label_words<F: Fn(&str) -> String, T: Fn(&str) -> Vec<String>>(
    f: F,
    t: T,
    label: Seq<char>,
) -> Seq<Seq<char>> {
    words_of(t, key_of(f, label)).filter(is_no_feat())
}

/// The track that a label finds: one with the content id, or else one that has
/// all words of the label.
pub open spec fn track_by_label<F: Fn(&str) -> String, T: Fn(&str) -> Vec<String>>(
    f: F,
    t: T,
    items: Seq<NetItemView>,
    content_id: Seq<char>,
    label: Seq<char>,
    own: Seq<char>,
) -> Option<FedTrackView> {
    match first_track(items, published_with_content(content_id), own) {
        Some(found) => Some(found),
        None => if label_words(f, t, label).len() > 0 {
            first_track(items, published_with_words(label_words(f, t, label)), own)
        } else {
            None
        },
    }
}

/// The track that a label finds among what was published under it.
pub fn find_by_label<F: Fn(&str) -> String, T: Fn(&str) -> Vec<String>>(
    f: &F,
    t: &T,
    items: &Vec<NetItem>,
    content_id: &str,
    label: &str,
    own: &str,
) -> (r: Option<FedTrack>)
    requires
        normalizes(*f),
        splits(*t),
    ensures
        fed_option(r) == track_by_label(*f, *t, viewed(items@), content_id@, label@, own@),
{
    let ghost all = viewed(items@);
    let ghost p = published_with_content(content_id@);
    let mut i: usize = 0;
    while i < items.len()
        invariant
            i <= items@.len(),
            all == viewed(items@),
            p == published_with_content(content_id@),
            forall|j: int| 0 <= j < i ==> !p(#[trigger] all[j]),
        decreases items@.len() - i,
    {
        proof {
            assert(all[i as int] == items@[i as int]@);
        }
        let found = items[i].kind == ItemKind::Track && match &items[i].content_id {
            Some(c) => same(c.as_str(), content_id),
            None => false,
        };
        if found {
            proof {
                crate::lists::lemma_first_where(all, p);
                assert(p(all[i as int]));
            }
            return Some(fed_track_from_item(&items[i], own));
        }
        i += 1;
    }
    proof {
        crate::lists::lemma_first_where(all, p);
    }
    let k = key(f, label);
    let mut want = words(t, k.as_str());
    let ghost split = want@;
    let g = |w: &String| -> (b: bool)
        ensures
            b == word_is_no_feat()(*w),
        { !same(w.as_str(), "feat") };
    retain_by(&mut want, g, Ghost(word_is_no_feat()));
    proof {
        crate::lists::lemma_filter_mapped(
            split,
            |s: String| s@,
            word_is_no_feat(),
            is_no_feat(),
        );
        assert(split.map_values(|s: String| s@) =~= views(split));
        assert(want@.map_values(|s: String| s@) =~= views(want@));
        assert(views(want@) == label_words(*f, *t, label@));
        assert(views(want@).len() == want@.len());
    }
    if want.len() == 0 {
        return None;
    }
    let ghost q = published_with_words(views(want@));
    let mut n: usize = 0;
    while n < items.len()
        invariant
            n <= items@.len(),
            all == viewed(items@),
            q == published_with_words(views(want@)),
            views(want@) == label_words(*f, *t, label@),
            want@.len() > 0,
            views(want@).len() == want@.len(),
            first_where(all, published_with_content(content_id@)) is None,
            forall|j: int| 0 <= j < n ==> !q(#[trigger] all[j]),
        decreases items@.len() - n,
    {
        proof {
            assert(all[n as int] == items@[n as int]@);
        }
        if items[n].kind == ItemKind::Track && are_among(&want, &items[n].tokens) {
            proof {
                crate::lists::lemma_first_where(all, q);
                assert(q(all[n as int]));
            }
            return Some(fed_track_from_item(&items[n], own));
        }
        n += 1;
    }
    proof {
        crate::lists::lemma_first_where(all, q);
    }
    None
}

/// What is done next to find a shared track.
#[derive(Clone, Copy, PartialEq, Eq, Structural, Debug)]
pub enum LookupStep {
    /// Look the content id up, after a pause where it is not the first time.
    Content { pause: bool },
    /// Search for the label.
    Label,
    GiveUp,
}

/// What is done next to find a shared track.
pub open spec fn looks_next<F: Fn(&str) -> String>(
    f: F,
    attempts: usize,
    label: Option<Seq<char>>,
    label_tried: bool,
    r: LookupStep,
) -> bool {
    r == if attempts < CONTENT_LOOKUP_ATTEMPTS {
        LookupStep::Content { pause: attempts > 0 }
    } else if !label_tried && label is Some && key_of(f, label->0).len() > 0 {
        LookupStep::Label
    } else {
        LookupStep::GiveUp
    }
}

/// What is done next to find a shared track, after some lookups of its content
/// id that found nothing.
pub fn next_lookup<F: Fn(&str) -> String>(
    f: &F,
    attempts: usize,
    label: Option<&str>,
    label_tried: bool,
) -> (r: LookupStep)
    requires
        normalizes(*f),
    ensures
        looks_next(*f, attempts, match label {
            Some(l) => Some(l@),
            None => None,
        }, label_tried, r),
{
    if attempts < CONTENT_LOOKUP_ATTEMPTS {
        return LookupStep::Content { pause: attempts > 0 };
    }
    if !label_tried {
        if let Some(l) = label {
            if !key(f, l).as_str().is_empty() {
                return LookupStep::Label;
            }
        }
    }
    LookupStep::GiveUp
}

/// Why a shared track was not found, by how many nodes were asked.
pub fn not_found(queried_nodes: usize) -> (r: &'static str)
    ensures
        r@ == if queried_nodes == 0 {
            "no federation peers reachable yet — check the Federation tab and retry"@
        } else {
            "no peers currently publish this shared track"@
        },
{
    if queried_nodes == 0 {
        "no federation peers reachable yet — check the Federation tab and retry"
    } else {
        "no peers currently publish this shared track"
    }
}

// ---------------------------------------------------------------------------
// Owners
// ---------------------------------------------------------------------------

/// Whether a published item is another source of a track.
pub open spec fn is_other_source(fed: FedTrackView, i: NetItemView) -> bool {
    i.kind is Track && !(i.owner == fed.owner && i.id == fed.item_id)
}

/// The other sources of a track, in the order in which they are asked.
pub open spec fn other_sources(fed: FedTrackView, items: Seq<NetItemView>) -> Seq<(Seq<char>, Seq<char>)>
    decreases items.len(),
{
    if items.len() == 0 {
        Seq::empty()
    } else if is_other_source(fed, items.last()) {
        other_sources(fed, items.drop_last()).push((items.last().owner, items.last().id))
    } else {
        other_sources(fed, items.drop_last())
    }
}

/// The other sources of a track, from what is published under its content id.
pub fn fallback_sources(fed: &FedTrack, items: &Vec<NetItem>) -> (r: Vec<(String, String)>)
    ensures
        crate::federation::catalog::sources_view(r@) == other_sources(fed@, viewed(items@)),
{
    let ghost all = viewed(items@);
    let mut out: Vec<(String, String)> = Vec::new();
    let mut i: usize = 0;
    proof {
        assert(all.take(0) =~= Seq::empty());
        assert(crate::federation::catalog::sources_view(out@) =~= Seq::empty());
    }
    while i < items.len()
        invariant
            i <= items@.len(),
            all == viewed(items@),
            crate::federation::catalog::sources_view(out@) == other_sources(
                fed@,
                all.take(i as int),
            ),
        decreases items@.len() - i,
    {
        proof {
            assert(all.take(i + 1).drop_last() =~= all.take(i as int));
            assert(all.take(i + 1).last() == items@[i as int]@);
        }
        let item = &items[i];
        if item.kind == ItemKind::Track && !(same(item.owner.as_str(), fed.owner.as_str()) && same(
            item.id.as_str(),
            fed.item_id.as_str(),
        )) {
            let ghost before = out@;
            out.push((item.owner.clone(), item.id.clone()));
            proof {
                assert(crate::federation::catalog::sources_view(out@)
                    =~= crate::federation::catalog::sources_view(before).push(
                    (item@.owner, item@.id),
                ));
            }
        }
        i += 1;
    }
    proof {
        assert(all.take(items@.len() as int) =~= all);
    }
    out
}

/// What is done next to fetch a track or what its owner says of it.
#[derive(Debug)]
pub enum SourceStep {
    /// Ask an owner for an item.
    Ask { owner: String, item_id: String },
    /// Look for other sources under a content id.
    LookUp { content_id: String },
    /// Give up with the error of the first owner.
    GiveUp,
}

/// What is done next after some sources failed.
pub open spec fn asks_next(
    fed: FedTrack,
    failed: usize,
    others: Option<Vec<(String, String)>>,
    r: SourceStep,
) -> bool {
    if failed == 0 {
        r matches SourceStep::Ask { owner, item_id } && owner@ == fed.owner@ && item_id@
            == fed.item_id@
    } else {
        match others {
            None => match fed.content_id {
                Some(id) => r matches SourceStep::LookUp { content_id } && content_id@ == id@,
                None => r is GiveUp,
            },
            Some(v) => if failed - 1 < v@.len() {
                r matches SourceStep::Ask { owner, item_id } && owner@ == v@[failed - 1].0@
                    && item_id@ == v@[failed - 1].1@
            } else {
                r is GiveUp
            },
        }
    }
}

/// What is done next after some sources failed: the owner of the track is
/// asked first, then what is published under its content id is looked up, and
/// those sources are asked one after the other.
pub fn next_source(fed: &FedTrack, failed: usize, others: &Option<Vec<(String, String)>>) -> (r:
    SourceStep)
    ensures
        asks_next(*fed, failed, *others, r),
{
    if failed == 0 {
        return SourceStep::Ask { owner: fed.owner.clone(), item_id: fed.item_id.clone() };
    }
    match others {
        None => match &fed.content_id {
            Some(id) => SourceStep::LookUp { content_id: id.clone() },
            None => SourceStep::GiveUp,
        },
        Some(v) => if failed - 1 < v.len() {
            SourceStep::Ask { owner: v[failed - 1].0.clone(), item_id: v[failed - 1].1.clone() }
        } else {
            SourceStep::GiveUp
        },
    }
}

// ---------------------------------------------------------------------------
// Playing
// ---------------------------------------------------------------------------

/// A track that can be played.
#[derive(Debug)]
pub struct FedPlayable {
    pub track: TrackItem,
    /// The file was taken into the library.
    pub imported: bool,
}

/// How a track of the network is played.
#[derive(Clone, Copy, PartialEq, Eq, Structural, Debug)]
pub enum PlayPlan {
    /// It is in the library.
    Local,
    /// It is fetched, into the library or into the cache.
    Fetch { into_library: bool },
}

pub open spec fn is_item_id(id: Seq<char>) -> bool {
    requested_item(id) is Some
}

/// How a track of the network is played.
pub open spec fn plans_playback(
    fed: FedTrack,
    owner_known: bool,
    save: bool,
    r: Result<PlayPlan, String>,
) -> bool {
    match r {
        Ok(PlayPlan::Local) => is_item_id(fed.item_id@) && fed.own,
        Ok(PlayPlan::Fetch { into_library }) => is_item_id(fed.item_id@) && !fed.own
            && owner_known && into_library == save,
        Err(e) => if is_item_id(fed.item_id@) {
            !fed.own && !owner_known && e@ == "malformed owner id '"@ + fed.owner@ + "'"@
        } else {
            e@ == "malformed item id in the result"@
        },
    }
}

/// How a track of the network is played. `owner_known` says whether the id of
/// its owner could be read.
pub fn plan_playback(fed: &FedTrack, owner_known: bool, save: bool) -> (r: Result<PlayPlan, String>)
    ensures
        plans_playback(*fed, owner_known, save, r),
{
    if hex_decode_item_id(fed.item_id.as_str()).is_none() {
        return Err("malformed item id in the result".to_owned());
    }
    if fed.own {
        return Ok(PlayPlan::Local);
    }
    if !owner_known {
        let mut e = "malformed owner id '".to_owned();
        e.append(fed.owner.as_str());
        e.append("'");
        return Err(e);
    }
    Ok(PlayPlan::Fetch { into_library: save })
}

/// Plays a track of this peer from the library.
pub fn play_local(track: Option<TrackItem>) -> (r: Result<FedPlayable, String>)
    ensures
        match r {
            Ok(p) => track == Some(p.track) && !p.imported,
            Err(e) => track is None && e@ == "this track is no longer in the local library"@,
        },
{
    match track {
        Some(t) => Ok(FedPlayable { track: t, imported: false }),
        None => Err("this track is no longer in the local library".to_owned()),
    }
}

impl Library {
    /// Plays a track that this peer published itself.
    pub fn play_own<G: Fn(i64) -> String>(&self, g: &G, fed: &FedTrack) -> (r: Result<
        FedPlayable,
        String,
    >)
        requires
            identifies(*g),
        ensures
            match requested_item(fed.item_id@) {
                None => r matches Err(e) && e@ == "malformed item id in the result"@,
                Some(item) => match local_of_item(*g, *self, item) {
                    None => r matches Err(e) && e@
                        == "this track is no longer in the local library"@,
                    Some(t) => r matches Ok(p) && p.track@ == t && !p.imported,
                },
            },
    {
        match hex_decode_item_id(fed.item_id.as_str()) {
            None => Err("malformed item id in the result".to_owned()),
            Some(item) => play_local(self.local_track_of_item(g, item.as_slice())),
        }
    }
}

/// The track of the library that has the content of a track of the network.
pub open spec fn local_copy(lib: Library, fed: FedTrackView) -> Option<TrackView> {
    match fed.content_id {
        Some(id) => match track_named(lib, id) {
            Some(t) => first_of(items_with_ids(lib, seq![t])),
            None => None,
        },
        None => None,
    }
}

/// What is done to have a track of the network in the library.
#[derive(Debug)]
pub enum DownloadStep {
    /// It is there.
    Here(TrackItem),
    /// It is fetched into the library.
    Fetch,
}

/// What is done to have a track of the network in the library.
pub open spec fn plans_download<G: Fn(i64) -> String>(
    g: G,
    lib: Library,
    fed: FedTrack,
    owner_known: bool,
    r: Result<DownloadStep, String>,
) -> bool {
    match requested_item(fed.item_id@) {
        None => r matches Err(e) && e@ == "malformed item id in the result"@,
        Some(item) => if fed.own {
            match local_of_item(g, lib, item) {
                None => r matches Err(e) && e@
                    == "this track is no longer in the local library"@,
                Some(t) => r matches Ok(DownloadStep::Here(x)) && x@ == t,
            }
        } else {
            match local_copy(lib, fed@) {
                Some(t) => r matches Ok(DownloadStep::Here(x)) && x@ == t,
                None => if owner_known {
                    r matches Ok(DownloadStep::Fetch)
                } else {
                    r matches Err(e) && e@ == "malformed owner id '"@ + fed.owner@ + "'"@
                },
            }
        },
    }
}

impl Library {
    /// The track of the library that has the content of a track of the network.
    pub fn copy_of(&self, fed: &FedTrack) -> (r: Option<TrackItem>)
        ensures
            item_view(r) == local_copy(*self, fed@),
    {
        match &fed.content_id {
            Some(id) => match self.track_id_by_content_id(id.as_str()) {
                Some(t) => {
                    let mut ids: Vec<i64> = Vec::new();
                    ids.push(t);
                    let mut found = self.tracks_by_ids(ids.as_slice());
                    proof {
                        assert(ids@ =~= seq![t]);
                        assert(viewed(found@).len() == found@.len());
                    }
                    if found.len() > 0 {
                        Some(found.remove(0))
                    } else {
                        None
                    }
                },
                None => None,
            },
            None => None,
        }
    }

    /// What is done to have a track of the network in the library. One's own,
    /// and one whose content is there, need no download.
    pub fn plan_download<G: Fn(i64) -> String>(&self, g: &G, fed: &FedTrack, owner_known: bool) -> (r:
        Result<DownloadStep, String>)
        requires
            identifies(*g),
        ensures
            plans_download(*g, *self, *fed, owner_known, r),
    {
        if hex_decode_item_id(fed.item_id.as_str()).is_none() {
            return Err("malformed item id in the result".to_owned());
        }
        if fed.own {
            return match self.play_own(g, fed) {
                Ok(p) => Ok(DownloadStep::Here(p.track)),
                Err(e) => Err(e),
            };
        }
        if let Some(t) = self.copy_of(fed) {
            return Ok(DownloadStep::Here(t));
        }
        match plan_playback(fed, owner_known, true) {
            Ok(_) => Ok(DownloadStep::Fetch),
            Err(e) => Err(e),
        }
    }
}

/// What a fetched file gives: what its tags say, with what its owner says over
/// it, and with the owner's cover where there is one.
pub open spec fn fetched_import(
    import: ImportView,
    meta: Option<crate::federation::audio::MetadataView>,
    cover: Option<Cover>,
) -> ImportView {
    let told = match meta {
        Some(m) => overlaid(import, m),
        None => import,
    };
    ImportView {
        cover: if cover is Some {
            cover
        } else {
            told.cover
        },
        ..told
    }
}

/// A file that was taken into the library.
#[derive(Debug)]
pub struct TakenIn {
    pub track: Option<TrackItem>,
    pub upserted: Upserted,
    /// The embedded or fetched picture, for the cover of the release.
    pub cover: Option<Cover>,
    /// The main artist, where its image is missing.
    pub image_wanted_for: Option<String>,
}

/// What taking a fetched file into the library changes.
pub open spec fn takes_in_fetched<F: Fn(&str) -> String>(
    f: F,
    a: Library,
    b: Library,
    import: ImportView,
    metadata: Option<crate::federation::audio::MetadataView>,
    cover: Option<Cover>,
    fed_item_id: Seq<char>,
    r: Result<TakenIn, EditError>,
) -> bool {
    let x = fetched_import(import, metadata, cover);
    let s = shelf(a);
    &&& r is Err == lacks_name(f, s, x)
    &&& match r {
        Err(e) => e == EditError::EmptyName && b == a,
        Ok(t) => {
            &&& (
                shelf(b),
                t.upserted.track_id,
                t.upserted.created,
                t.upserted.release_id,
            ) == upserted(f, s, x)
            &&& t.upserted.wants_cover == lacks_cover(
                viewed(b.releases@),
                t.upserted.release_id,
            )
            &&& t.cover == x.cover
            &&& item_view(t.track) == first_of(
                items_with_ids(b, seq![t.upserted.track_id]),
            )
            &&& opt_view(t.image_wanted_for) == wanted_image(
                f,
                b,
                x.artists,
            )
            &&& match first_where(a.fed_likes@, fed_is_item(fed_item_id)) {
                Some(i) => {
                    &&& b.fed_likes@ == a.fed_likes@.filter(
                        fed_is_other_item(fed_item_id),
                    )
                    &&& b.likes@ == with_like(
                        a.likes@,
                        LikeRow {
                            track_id: t.upserted.track_id,
                            liked_at_ms: a.fed_likes@[i].liked_at_ms,
                            liked_hlc_ms: a.fed_likes@[i].liked_hlc_ms,
                        },
                    )
                },
                None => {
                    &&& b.fed_likes == a.fed_likes
                    &&& b.likes == a.likes
                },
            }
            &&& (Library {
                artists: a.artists,
                releases: a.releases,
                release_artists: a.release_artists,
                tracks: a.tracks,
                track_artists: a.track_artists,
                likes: a.likes,
                fed_likes: a.fed_likes,
                ..b
            }) == a
        },
    }
}

impl Library {
    /// Takes a fetched file into the library. A like of the track moves onto
    /// it.
    pub fn take_in_fetched<F: Fn(&str) -> String>(
        &mut self,
        f: &F,
        import: TrackImport,
        metadata: &Option<TrackMetadata>,
        cover: Option<Cover>,
        fed_item_id: &str,
    ) -> (r: Result<TakenIn, EditError>)
        requires
            normalizes(*f),
            can_take_in(
                shelf(*old(self)),
                fetched_import(import@, metadata_view(*metadata), cover),
            ),
        ensures
            takes_in_fetched(
                *f,
                *old(self),
                *final(self),
                import@,
                metadata_view(*metadata),
                cover,
                fed_item_id@,
                r,
            ),
    {
        let ghost tags = import@;
        let ghost picture = cover;
        let mut import = import;
        if let Some(m) = metadata {
            apply_remote_metadata(&mut import, m);
        }
        if cover.is_some() {
            import.cover = cover;
        }
        proof {
            assert(import@ =~= fetched_import(tags, metadata_view(*metadata), picture));
        }
        let upserted = match self.upsert_track(f, &import) {
            Ok(u) => u,
            Err(e) => {
                return Err(e);
            },
        };
        self.transfer_fed_like(fed_item_id, upserted.track_id);
        let image_wanted_for = if import.artists.len() > 0 {
            proof {
                assert(import@.artists[0] == import.artists@[0]@);
            }
            if self.artist_image_missing(f, import.artists[0].as_str()) {
                Some(import.artists[0].clone())
            } else {
                None
            }
        } else {
            None
        };
        let mut ids: Vec<i64> = Vec::new();
        ids.push(upserted.track_id);
        let mut found = self.tracks_by_ids(ids.as_slice());
        proof {
            assert(ids@ =~= seq![upserted.track_id]);
            assert(viewed(found@).len() == found@.len());
            assert(import@.artists.len() == import.artists@.len());
        }
        let track = if found.len() > 0 {
            Some(found.remove(0))
        } else {
            None
        };
        Ok(TakenIn { track, upserted, cover: import.cover, image_wanted_for })
    }
}

/// The main artist of a file, where its image is missing.
pub open spec fn wanted_image<F: Fn(&str) -> String>(f: F, lib: Library, artists: Seq<Seq<char>>) -> Option<
    Seq<char>,
> {
    if artists.len() > 0 {
        match artist_place(f, viewed(lib.artists@), artists[0]) {
            Some(i) => if lib.artists@[i].image_path is None {
                Some(artists[0])
            } else {
                None
            },
            None => None,
        }
    } else {
        None
    }
}

/// Plays what was taken into the library; nothing where it is not there after
/// all.
pub fn play_taken_in(track: Option<TrackItem>) -> (r: Option<FedPlayable>)
    ensures
        match r {
            Some(p) => track == Some(p.track) && p.imported,
            None => track is None,
        },
{
    match track {
        Some(t) => Some(FedPlayable { track: t, imported: true }),
        None => None,
    }
}

} // verus!
