//! What peers ask of each other and what they are answered, whatever was
//! published and whatever a library holds.

use crate::federation::audio::{
    all_received, audio_type, extension_of_audio, extension_of_image, heads_stream, image_type,
    is_whole, AudioRequest, AudioResponseHeader, ServedImage, TrackMetadata,
};
use crate::federation::card::{
    cached_appearance, card_after, card_with, card_with_all, concerns, holders, is_same_appearance,
    item_appearance, lists_holders, offers, released, with_sources,
};
use crate::federation::catalog::{appearance_order, sources_view, AppearsView, CardView};
use crate::federation::lookup::{
    asks_next, is_no_feat, label_words, local_copy, looks_next, other_sources, plans_download,
    plans_playback, published_with_content, published_with_words, track_by_label, DownloadStep,
    LookupStep, PlayPlan, SourceStep,
};
use crate::federation::search::{all_among, CachedView, ItemKind, NetItemView};
use crate::federation::search_laws::one_is_named;
use crate::federation::serve::{
    answers_request, is_served, item_of, local_of_item, requested_item, track_of_item, Served,
};
use crate::federation::track::{FedTrack, FedTrackView};
use crate::library::listing::{first_of, items_of, items_with_ids, track_item};
use crate::library::listing_laws::{lemma_items_places, lemma_sorted_has};
use crate::library::edit::row_is_release;
use crate::library::tables::{is_track, Library, TrackRow};
use crate::lists::{first_where, lemma_filter_holds, lemma_first_where, stable_sorted};
use crate::names::{key_of, words_of};
use crate::text::{ascii_lowered, views};
use vstd::prelude::*;

verus! {

// ---------------------------------------------------------------------------
// Who is asked
// ---------------------------------------------------------------------------

/// Whether an item is a track of the network that is not the given one.
pub open spec fn is_elsewhere(fed: FedTrackView, i: NetItemView) -> bool {
    i.kind == ItemKind::Track && (i.owner != fed.owner || i.id != fed.item_id)
}

/// Whether a source is a published track other than the given one.
pub open spec fn is_published(
    fed: FedTrackView,
    items: Seq<NetItemView>,
    p: (Seq<char>, Seq<char>),
) -> bool {
    exists|i: int|
        0 <= i < items.len() && is_elsewhere(fed, #[trigger] items[i]) && p == (
            items[i].owner,
            items[i].id,
        )
}

proof fn lemma_others(fed: FedTrackView, items: Seq<NetItemView>, n: int)
    requires
        0 <= n <= items.len(),
    ensures
        ({
            let s = other_sources(fed, items);
            let t = other_sources(fed, items.take(n));
            &&& t.len() <= s.len()
            &&& s.take(t.len() as int) == t
        }),
    decreases items.len(),
{
    if n == items.len() {
        assert(items.take(n) =~= items);
    } else {
        let h = items.drop_last();
        lemma_others(fed, h, n);
        assert(h.take(n) =~= items.take(n));
        let s = other_sources(fed, items);
        let t = other_sources(fed, items.take(n));
        assert(s.take(t.len() as int) =~= other_sources(fed, h).take(t.len() as int));
    }
}

proof fn lemma_other_sources(fed: FedTrackView, items: Seq<NetItemView>)
    ensures
        ({
            let s = other_sources(fed, items);
            &&& forall|i: int|
                0 <= i < items.len() && is_elsewhere(fed, #[trigger] items[i]) ==> s.contains(
                    (items[i].owner, items[i].id),
                )
            &&& forall|j: int|
                0 <= j < s.len() ==> is_published(fed, items, #[trigger] s[j])
        }),
    decreases items.len(),
{
    if items.len() > 0 {
        let h = items.drop_last();
        lemma_other_sources(fed, h);
        let s = other_sources(fed, items);
        let b = other_sources(fed, h);
        assert forall|i: int|
            0 <= i < items.len() && is_elsewhere(fed, #[trigger] items[i]) implies s.contains(
            (items[i].owner, items[i].id),
        ) by {
            if i == items.len() - 1 {
                assert(s[s.len() - 1] == (items[i].owner, items[i].id));
            } else {
                assert(h[i] == items[i]);
                let j = b.index_of((h[i].owner, h[i].id));
                assert(s[j] == b[j]);
            }
        }
        assert forall|j: int| 0 <= j < s.len() implies is_published(fed, items, #[trigger] s[j]) by {
            if j < b.len() {
                assert(s[j] == b[j]);
                assert(is_published(fed, h, b[j]));
                let i = choose|i: int|
                    0 <= i < h.len() && is_elsewhere(fed, #[trigger] h[i]) && b[j] == (
                        h[i].owner,
                        h[i].id,
                    );
                assert(items[i] == h[i]);
            } else {
                let i = items.len() - 1;
                assert(is_elsewhere(fed, items[i]));
            }
        }
    }
}

/// The other sources of a track are the tracks that were published under its
/// content and are not the track itself, in the order in which they were found.
pub proof fn law_other_sources_are_those_published(
    fed: FedTrackView,
    items: Seq<NetItemView>,
    s: Seq<(Seq<char>, Seq<char>)>,
    n: int,
)
    requires
        s == other_sources(fed, items),
        0 <= n <= items.len(),
    ensures
        forall|i: int|
            0 <= i < items.len() && is_elsewhere(fed, #[trigger] items[i]) ==> s.contains(
                (items[i].owner, items[i].id),
            ),
        forall|j: int|
            0 <= j < s.len() ==> is_published(fed, items, #[trigger] s[j]),
        !s.contains((fed.owner, fed.item_id)),
        other_sources(fed, items.take(n)).len() <= s.len(),
        s.take(other_sources(fed, items.take(n)).len() as int) == other_sources(fed, items.take(n)),
{
    lemma_other_sources(fed, items);
    lemma_others(fed, items, n);
    if s.contains((fed.owner, fed.item_id)) {
        let j = s.index_of((fed.owner, fed.item_id));
        assert(is_published(fed, items, s[j]));
    }
}

/// The owner of a track is asked first. A peer that publishes the same content is
/// asked after some number of failures, and none is left out.
pub proof fn law_every_source_is_asked(
    fed: FedTrack,
    items: Seq<NetItemView>,
    others: Vec<(String, String)>,
    i: int,
) -> (n: usize)
    requires
        sources_view(others@) == other_sources(fed@, items),
        0 <= i < items.len(),
        is_elsewhere(fed@, items[i]),
    ensures
        1 <= n <= others@.len(),
        forall|r: SourceStep| #[trigger]
            asks_next(fed, n, Some(others), r) ==> (r matches SourceStep::Ask { owner, item_id }
                && owner@ == items[i].owner && item_id@ == items[i].id),
        forall|o: Option<Vec<(String, String)>>, r: SourceStep| #[trigger]
            asks_next(fed, 0, o, r) ==> (r matches SourceStep::Ask { owner, item_id } && owner@
                == fed.owner@ && item_id@ == fed.item_id@),
{
    lemma_other_sources(fed@, items);
    let s = sources_view(others@);
    let j = s.index_of((items[i].owner, items[i].id));
    assert(s.len() == others@.len());
    assert(s[j] == (others@[j].0@, others@[j].1@));
    assert(others@.len() == others.len());
    (j + 1) as usize
}

/// The search for a source ends only when every other source that was found has
/// failed too, or when there is no content to look for. After the owner failed,
/// what has the content is looked up before anyone else is asked.
pub proof fn law_giving_up_comes_last(
    fed: FedTrack,
    failed: usize,
    others: Option<Vec<(String, String)>>,
    r: SourceStep,
)
    requires
        asks_next(fed, failed, others, r),
    ensures
        r is GiveUp ==> failed > 0 && match others {
            Some(v) => failed > v@.len(),
            None => fed.content_id is None,
        },
        r matches SourceStep::LookUp { content_id } ==> failed > 0 && others is None
            && fed.content_id is Some && content_id@ == fed.content_id->0@,
        failed > 0 && others is None ==> !(r is Ask),
{
}

/// A shared track is looked for by its content three times, the first time
/// without a pause; by its label once, where it has one that says anything; and
/// then no more.
pub proof fn law_content_is_tried_before_the_label<F: Fn(&str) -> String>(
    f: F,
    attempts: usize,
    label: Option<Seq<char>>,
    label_tried: bool,
    r: LookupStep,
)
    requires
        looks_next(f, attempts, label, label_tried, r),
    ensures
        r is Content <==> attempts < 3,
        r matches LookupStep::Content { pause } ==> (pause <==> attempts != 0),
        r is Label ==> !label_tried && label is Some,
        attempts >= 3 && !label_tried && label is Some && key_of(f, label->0).len() > 0
            ==> r is Label,
        label_tried && attempts >= 3 ==> r is GiveUp,
{
}

// ---------------------------------------------------------------------------
// What a label finds
// ---------------------------------------------------------------------------

/// Whether a track was published with a content id.
pub open spec fn shares_content(i: NetItemView, id: Seq<char>) -> bool {
    i.kind == ItemKind::Track && i.content_id == Some(id)
}

/// Whether a track was published with all of the words, whatever stands for its
/// guests.
pub open spec fn shares_words(i: NetItemView, words: Seq<Seq<char>>) -> bool {
    &&& i.kind == ItemKind::Track
    &&& exists|w: int| 0 <= w < words.len() && #[trigger] words[w] != "feat"@
    &&& forall|w: int|
        0 <= w < words.len() && #[trigger] words[w] != "feat"@ ==> i.tokens.contains(words[w])
}

/// A label finds a track with the content id where one was published. Else it finds
/// one that has all words of the label, and nothing only where there is none. What
/// is found is one of the published tracks.
pub proof fn law_label_finds_the_track<F: Fn(&str) -> String, T: Fn(&str) -> Vec<String>>(
    f: F,
    t: T,
    items: Seq<NetItemView>,
    id: Seq<char>,
    label: Seq<char>,
    own: Seq<char>,
    r: Option<FedTrackView>,
)
    requires
        r == track_by_label(f, t, items, id, label, own),
    ensures
        ({
            let words = words_of(t, key_of(f, label));
            &&& r is Some <==> exists|i: int|
                0 <= i < items.len() && (shares_content(#[trigger] items[i], id) || shares_words(
                    items[i],
                    words,
                ))
            &&& r matches Some(x) ==> exists|i: int|
                {
                    &&& 0 <= i < items.len()
                    &&& shares_content(#[trigger] items[i], id) || shares_words(items[i], words)
                    &&& x.owner == items[i].owner
                    &&& x.item_id == items[i].id
                    &&& x.title == items[i].name
                    &&& x.own == (items[i].owner == own)
                    &&& x.content_id == items[i].content_id
                }
            &&& (exists|i: int| 0 <= i < items.len() && shares_content(#[trigger] items[i], id))
                ==> r is Some && r->0.content_id == Some(id)
        }),
{
    let words = words_of(t, key_of(f, label));
    let want = label_words(f, t, label);
    let p = published_with_content(id);
    let q = published_with_words(want);
    lemma_first_where(items, p);
    lemma_first_where(items, q);
    lemma_filter_holds(words, is_no_feat());
    assert(want.len() > 0 <==> exists|w: int| 0 <= w < words.len() && #[trigger] words[w]
        != "feat"@) by {
        if want.len() > 0 {
            assert(want.contains(want[0]));
            let w = words.index_of(want[0]);
            assert(words[w] != "feat"@);
        }
        if exists|w: int| 0 <= w < words.len() && #[trigger] words[w] != "feat"@ {
            let w = choose|w: int| 0 <= w < words.len() && #[trigger] words[w] != "feat"@;
            assert(words.contains(words[w]));
            assert(want.contains(words[w]));
        }
    }
    assert forall|i: int| 0 <= i < items.len() && want.len() > 0 implies (q(items[i])
        <==> shares_words(#[trigger] items[i], words)) by {
        let tokens = items[i].tokens;
        if all_among(want, tokens) {
            assert forall|w: int|
                0 <= w < words.len() && #[trigger] words[w] != "feat"@ implies tokens.contains(
                words[w],
            ) by {
                assert(words.contains(words[w]));
                assert(want.contains(words[w]));
                let v = want.index_of(words[w]);
                assert(want[v] == words[w]);
            }
        }
        if shares_words(items[i], words) {
            assert forall|v: int| 0 <= v < want.len() implies tokens.contains(#[trigger] want[v]) by {
                assert(want.contains(want[v]));
                let w = words.index_of(want[v]);
                assert(words[w] != "feat"@);
            }
        }
    }
    assert forall|i: int| 0 <= i < items.len() implies (p(items[i]) <==> shares_content(
        #[trigger] items[i],
        id,
    )) by {}
}

// ---------------------------------------------------------------------------
// What is fetched
// ---------------------------------------------------------------------------

/// One's own tracks are played from the library and others are fetched, into the
/// library only if tracks are kept.
pub proof fn law_only_others_tracks_are_fetched(
    fed: FedTrack,
    owner_known: bool,
    save: bool,
    r: Result<PlayPlan, String>,
)
    requires
        plans_playback(fed, owner_known, save, r),
    ensures
        r is Ok && fed.own ==> r->Ok_0 is Local,
        r is Ok && !fed.own ==> r->Ok_0 == (PlayPlan::Fetch { into_library: save }),
        r is Ok && !fed.own ==> owner_known,
        r is Err && requested_item(fed.item_id@) is Some ==> !fed.own && !owner_known,
{
}

/// The track with an id as it is shown is a row with that id.
proof fn lemma_shown_by_id(lib: Library, id: i64)
    ensures
        ({
            let x = first_of(items_with_ids(lib, seq![id]));
            &&& x matches Some(v) ==> exists|k: int|
                0 <= k < lib.tracks@.len() && (#[trigger] lib.tracks@[k]).id == id && track_item(
                    lib,
                    lib.tracks@[k],
                ) == Some(v)
            &&& x is None ==> forall|k: int|
                0 <= k < lib.tracks@.len() && (#[trigger] lib.tracks@[k]).id == id ==> track_item(
                    lib,
                    lib.tracks@[k],
                ) is None
        }),
{
    let ids = seq![id];
    let rows = lib.tracks@.filter(is_track(id));
    assert(ids.drop_last() =~= Seq::empty());
    assert(items_with_ids(lib, ids.drop_last()) =~= Seq::empty());
    assert(items_with_ids(lib, ids) =~= items_of(lib, rows));
    let places = lemma_items_places(lib, rows);
    lemma_filter_holds(lib.tracks@, is_track(id));
    if items_of(lib, rows).len() > 0 {
        let row = rows[places[0]];
        assert(rows.contains(row));
        let k = lib.tracks@.index_of(row);
        assert(lib.tracks@[k].id == id);
    } else {
        assert forall|k: int|
            0 <= k < lib.tracks@.len() && (#[trigger] lib.tracks@[k]).id == id implies track_item(
            lib,
            lib.tracks@[k],
        ) is None by {
            let row = lib.tracks@[k];
            assert(lib.tracks@.contains(row));
            assert(rows.contains(row));
            let m = rows.index_of(row);
            assert(rows[m] == row);
        }
    }
}

/// Whether a track of the library stands for an item and has a release.
pub open spec fn stands_for_item<G: Fn(i64) -> String>(
    g: G,
    lib: Library,
    t: TrackRow,
    item: Seq<char>,
) -> bool {
    &&& item_of(g, t.id) == item
    &&& exists|k: int|
        0 <= k < lib.releases@.len() && (#[trigger] lib.releases@[k]).id == t.release_id
}

/// A peer that asks for an item is sent the file of the track that it stands for
/// and what the library says of it. It is refused only where no track stands for it.
pub proof fn law_peer_is_sent_the_track<G: Fn(i64) -> String>(
    g: G,
    lib: Library,
    item_id: Seq<char>,
    r: Result<Served, &'static str>,
)
    requires
        answers_request(g, lib, item_id, r),
        requested_item(item_id) is Some,
    ensures
        ({
            let item = crate::text::ascii_text(crate::hex::hexed(requested_item(item_id)->0));
            &&& r is Ok <==> exists|k: int|
                0 <= k < lib.tracks@.len() && stands_for_item(g, lib, #[trigger] lib.tracks@[k], item)
            &&& r matches Ok(s) ==> exists|k: int|
                {
                    &&& 0 <= k < lib.tracks@.len()
                    &&& item_of(g, (#[trigger] lib.tracks@[k]).id) == item
                    &&& s.file_path@ == lib.tracks@[k].file_path@
                    &&& s.metadata.title@ == lib.tracks@[k].title@
                    &&& s.metadata.track_number == lib.tracks@[k].track_number
                    &&& s.metadata.disc_number == lib.tracks@[k].disc_number
                }
        }),
{
    let bytes = requested_item(item_id)->0;
    let item = crate::text::ascii_text(crate::hex::hexed(bytes));
    let p = is_served(g, lib, bytes);
    lemma_first_where(lib.tracks@, p);
    assert forall|k: int| 0 <= k < lib.tracks@.len() implies (p(lib.tracks@[k])
        <==> stands_for_item(g, lib, #[trigger] lib.tracks@[k], item)) by {
        let t = lib.tracks@[k];
        lemma_first_where(lib.releases@, row_is_release(t.release_id));
        match first_where(lib.releases@, row_is_release(t.release_id)) {
            Some(m) => {
                assert(lib.releases@[m].id == t.release_id);
            },
            None => {},
        }
    }
    match first_where(lib.tracks@, p) {
        Some(k) => {
            lemma_shown_by_id(lib, lib.tracks@[k].id);
            assert(track_item(lib, lib.tracks@[k]) is Some);
            assert(stands_for_item(g, lib, lib.tracks@[k], item));
            assert(local_of_item(g, lib, bytes) is Some);
            let s = r->Ok_0;
            assert(s.metadata@.title == s.metadata.title@);
            assert(s.metadata@.track_number == s.metadata.track_number);
            assert(s.metadata@.disc_number == s.metadata.disc_number);
        },
        None => {},
    }
}

/// What is one's own is never fetched, nor is anything while the owner is not known.
/// What is said to be here is a track of the library: one's own stands for the item
/// that was asked for.
pub proof fn law_only_what_is_missing_is_fetched<G: Fn(i64) -> String>(
    g: G,
    lib: Library,
    fed: FedTrack,
    owner_known: bool,
    r: Result<DownloadStep, String>,
)
    requires
        plans_download(g, lib, fed, owner_known, r),
    ensures
        r matches Ok(DownloadStep::Fetch) ==> !fed.own && owner_known && local_copy(lib, fed@)
            is None,
        r matches Ok(DownloadStep::Here(x)) ==> exists|k: int|
            0 <= k < lib.tracks@.len() && (#[trigger] lib.tracks@[k]).id == x.id && x.title@
                == lib.tracks@[k].title@ && x.file_path@ == lib.tracks@[k].file_path@,
        r is Err && requested_item(fed.item_id@) is Some && !fed.own ==> !owner_known,
{
    match r {
        Ok(DownloadStep::Here(x)) => {
            if fed.own {
                lemma_shown_by_id(lib, track_of_item(g, lib, requested_item(fed.item_id@)->0)->0);
            } else {
                lemma_shown_by_id(
                    lib,
                    crate::library::tables::track_named(lib, fed@.content_id->0)->0,
                );
            }
            assert(x@.id == x.id && x@.title == x.title@ && x@.file_path == x.file_path@);
        },
        _ => {},
    }
}

/// A stream goes on where it was asked to, but never beyond its end. All that comes
/// is received when the number of bytes is right, and images come only if asked for.
pub proof fn law_stream_goes_on_where_asked(
    request: AudioRequest,
    extension: Seq<char>,
    total: u64,
    metadata: TrackMetadata,
    cover: ServedImage,
    image: ServedImage,
    r: AudioResponseHeader,
    received: u64,
    done: Result<(), String>,
)
    requires
        heads_stream(request, extension, total, metadata, cover, image, r),
        all_received(received, r.total_size, done),
    ensures
        r.offset <= r.total_size,
        request.offset <= total ==> r.offset == request.offset,
        request.offset > total ==> r.offset == total,
        !request.want_cover ==> r.cover_size == 0 && r.artist_image_size == 0,
        request.want_cover && cover is Some ==> r.cover_size == (cover->0).0,
        request.want_cover && image is Some ==> r.artist_image_size == (image->0).0,
        received == total ==> done is Ok,
        received < total ==> done is Err,
        r.ok && r.metadata == Some(metadata),
{
}

/// A file is not fetched again exactly where all of it is there.
pub proof fn law_whole_file_is_kept(on_disk: Option<u64>, total: u64, r: bool)
    requires
        is_whole(on_disk, total, r),
    ensures
        r ==> on_disk is Some && on_disk->0 == total && total != 0,
        on_disk is Some && on_disk->0 == total && total > 0 ==> r,
{
}

/// A picture keeps its kind on the way to a peer: the type that is told gives back
/// the extension, whatever its case.
pub proof fn law_picture_keeps_its_kind(extension: Seq<char>)
    ensures
        ({
            let e = ascii_lowered(extension);
            e == "png"@ || e == "webp"@ || e == "gif"@ || e == "bmp"@ || e == "jpg"@
                ==> extension_of_image(image_type(extension)) == e
        }),
{
    reveal_strlit("png");
    reveal_strlit("webp");
    reveal_strlit("gif");
    reveal_strlit("bmp");
    reveal_strlit("jpg");
    reveal_strlit("image/png");
    reveal_strlit("image/webp");
    reveal_strlit("image/gif");
    reveal_strlit("image/bmp");
    reveal_strlit("image/jpeg");
    assert("image/png"@[6] == 'p' && "image/webp"@[6] == 'w' && "image/gif"@[6] == 'g'
        && "image/bmp"@[6] == 'b' && "image/jpeg"@[6] == 'j');
    assert("png"@[0] == 'p' && "webp"@[0] == 'w' && "gif"@[0] == 'g' && "bmp"@[0] == 'b'
        && "jpg"@[0] == 'j');
}

/// A file keeps its format on the way to a peer: the type that is told gives back
/// the extension, whatever its case.
pub proof fn law_audio_keeps_its_format(extension: Seq<char>)
    ensures
        ({
            let e = ascii_lowered(extension);
            e == "mp3"@ || e == "flac"@ || e == "ogg"@ || e == "opus"@ || e == "wav"@ || e == "m4a"@
                || e == "aac"@ || e == "aiff"@ ==> extension_of_audio(audio_type(extension)) == e
        }),
{
    reveal_strlit("mp3");
    reveal_strlit("flac");
    reveal_strlit("ogg");
    reveal_strlit("oga");
    reveal_strlit("opus");
    reveal_strlit("wav");
    reveal_strlit("m4a");
    reveal_strlit("mp4");
    reveal_strlit("alac");
    reveal_strlit("aac");
    reveal_strlit("aiff");
    reveal_strlit("aif");
    reveal_strlit("audio/mpeg");
    reveal_strlit("audio/flac");
    reveal_strlit("audio/x-flac");
    reveal_strlit("audio/ogg");
    reveal_strlit("audio/opus");
    reveal_strlit("audio/wav");
    reveal_strlit("audio/x-wav");
    reveal_strlit("audio/mp4");
    reveal_strlit("audio/x-m4a");
    reveal_strlit("audio/aac");
    reveal_strlit("audio/aiff");
    assert("mp3"@[0] == 'm' && "mp3"@[1] == 'p' && "mp3"@[2] == '3');
    assert("mp4"@[0] == 'm' && "mp4"@[1] == 'p' && "mp4"@[2] == '4');
    assert("m4a"@[0] == 'm' && "m4a"@[1] == '4');
    assert("flac"@[0] == 'f' && "wav"@[0] == 'w');
    assert("ogg"@[0] == 'o' && "oga"@[0] == 'o' && "opus"@[0] == 'o');
    assert("ogg"@[1] == 'g' && "oga"@[1] == 'g' && "opus"@[1] == 'p');
    assert("ogg"@[2] == 'g' && "oga"@[2] == 'a');
    assert("alac"@[0] == 'a' && "aac"@[0] == 'a' && "aiff"@[0] == 'a' && "aif"@[0] == 'a');
    assert("alac"@[1] == 'l' && "aac"@[1] == 'a' && "aiff"@[1] == 'i' && "aif"@[1] == 'i');
    assert("audio/mpeg"@[6] == 'm' && "audio/mpeg"@[7] == 'p' && "audio/mpeg"@.len() == 10);
    assert("audio/mp4"@[6] == 'm' && "audio/mp4"@.len() == 9);
    assert("audio/flac"@[6] == 'f' && "audio/wav"@[6] == 'w');
    assert("audio/x-flac"@[6] == 'x' && "audio/x-wav"@[6] == 'x' && "audio/x-m4a"@[6] == 'x');
    assert("audio/ogg"@[6] == 'o' && "audio/ogg"@[7] == 'g');
    assert("audio/opus"@[6] == 'o' && "audio/opus"@[7] == 'p');
    assert("audio/aac"@[6] == 'a' && "audio/aac"@[7] == 'a');
    assert("audio/aiff"@[6] == 'a' && "audio/aiff"@[7] == 'i');
}

// ---------------------------------------------------------------------------
// The card of an artist
// ---------------------------------------------------------------------------

/// Whether an item is of an artist or by the artist, given by the key.
pub open spec fn is_of_artist<F: Fn(&str) -> String>(f: F, i: NetItemView, k: Seq<char>) -> bool {
    ||| i.kind == ItemKind::Artist && i.normalized_name == k
    ||| one_is_named(f, i.artist_names, k)
    ||| one_is_named(f, i.featured_artist_names, k)
}

proof fn lemma_holders<F: Fn(&str) -> String>(
    f: F,
    items: Seq<NetItemView>,
    k: Seq<char>,
    own: Seq<char>,
)
    ensures
        ({
            let s = holders(f, items, k, own);
            &&& s.no_duplicates()
            &&& forall|o: Seq<char>| #[trigger]
                s.contains(o) <==> exists|i: int|
                    0 <= i < items.len() && (#[trigger] items[i]).owner == o && o != own
                        && is_of_artist(f, items[i], k)
        }),
    decreases items.len(),
{
    if items.len() > 0 {
        let h = items.drop_last();
        lemma_holders(f, h, k, own);
        let b = holders(f, h, k, own);
        let s = holders(f, items, k, own);
        let last = items.last();
        assert(concerns(f, last, k) <==> is_of_artist(f, last, k));
        assert forall|o: Seq<char>| #[trigger] s.contains(o) <==> b.contains(o) || (o == last.owner
            && o != own && is_of_artist(f, last, k)) by {
            if s != b {
                assert(s[s.len() - 1] == last.owner);
                if b.contains(o) {
                    assert(s[b.index_of(o)] == o);
                }
            }
        }
        assert forall|o: Seq<char>| #[trigger] s.contains(o) <==> exists|i: int|
            0 <= i < items.len() && (#[trigger] items[i]).owner == o && o != own && is_of_artist(
                f,
                items[i],
                k,
            ) by {
            if s.contains(o) {
                if b.contains(o) {
                    let i = choose|i: int|
                        0 <= i < h.len() && (#[trigger] h[i]).owner == o && o != own
                            && is_of_artist(f, h[i], k);
                    assert(items[i] == h[i]);
                } else {
                    assert(items[items.len() - 1].owner == o);
                }
            }
            if exists|i: int|
                0 <= i < items.len() && (#[trigger] items[i]).owner == o && o != own
                    && is_of_artist(f, items[i], k) {
                let i = choose|i: int|
                    0 <= i < items.len() && (#[trigger] items[i]).owner == o && o != own
                        && is_of_artist(f, items[i], k);
                if i < h.len() {
                    assert(h[i] == items[i]);
                    assert(b.contains(o));
                }
            }
        }
    }
}

/// For the card of an artist exactly those other peers are asked that published
/// something of the artist, each once.
pub proof fn law_holders_of_an_artist_are_asked<F: Fn(&str) -> String>(
    f: F,
    items: Seq<NetItemView>,
    name: Seq<char>,
    own: Seq<char>,
    r: Seq<String>,
)
    requires
        lists_holders(f, items, name, own, r),
    ensures
        views(r).no_duplicates(),
        forall|o: Seq<char>| #[trigger]
            views(r).contains(o) <==> exists|i: int|
                0 <= i < items.len() && (#[trigger] items[i]).owner == o && o != own
                    && is_of_artist(f, items[i], key_of(f, name)),
{
    lemma_holders(f, items, key_of(f, name), own);
}

/// Whether a card offers a track from a source, on a release or as an appearance.
pub open spec fn is_offered(c: CardView, p: (Seq<char>, Seq<char>)) -> bool {
    ||| exists|i: int, j: int|
        0 <= i < c.releases.len() && 0 <= j < c.releases[i].tracks.len()
            && #[trigger] c.releases[i].tracks[j].sources.contains(p)
    ||| exists|i: int|
        0 <= i < c.appears_on.len() && (#[trigger] c.appears_on[i]).track.sources.contains(p)
}

proof fn lemma_sources_join(
    s: Seq<(Seq<char>, Seq<char>)>,
    more: Seq<(Seq<char>, Seq<char>)>,
    p: (Seq<char>, Seq<char>),
)
    requires
        s.contains(p) || more.contains(p),
    ensures
        with_sources(s, more).contains(p),
    decreases more.len(),
{
    if more.len() > 0 {
        let h = more.drop_last();
        let b = with_sources(s, h);
        let r = with_sources(s, more);
        if s.contains(p) || h.contains(p) {
            lemma_sources_join(s, h, p);
            if r != b {
                assert(r[b.index_of(p)] == p);
            }
        } else {
            let i = more.index_of(p);
            if i < h.len() {
                assert(h[i] == p);
            }
            assert(p == more.last());
            if r != b {
                assert(r[r.len() - 1] == p);
            }
        }
    }
}

proof fn lemma_appearance_added<F: Fn(&str) -> String>(f: F, card: CardView, a: AppearsView)
    ensures
        ({
            let c = card_with(f, card, a).0;
            &&& c.releases == card.releases
            &&& forall|p: (Seq<char>, Seq<char>)| #[trigger]
                is_offered(card, p) ==> is_offered(c, p)
            &&& a.track.sources.len() > 0 ==> is_offered(c, a.track.sources[0])
        }),
{
    let c = card_with(f, card, a).0;
    if a.track.sources.len() > 0 && !released(card.releases, a.track.sources[0]) {
        let p = a.track.sources[0];
        lemma_first_where(card.appears_on, offers(p));
        lemma_first_where(card.appears_on, is_same_appearance(f, a));
        let place = match first_where(card.appears_on, offers(p)) {
            Some(i) => Some(i),
            None => first_where(card.appears_on, is_same_appearance(f, a)),
        };
        assert forall|q: (Seq<char>, Seq<char>)| #[trigger] is_offered(card, q) implies is_offered(
            c,
            q,
        ) by {
            if !(exists|i: int, j: int|
                0 <= i < c.releases.len() && 0 <= j < c.releases[i].tracks.len()
                    && #[trigger] c.releases[i].tracks[j].sources.contains(q)) {
                let i = choose|i: int|
                    0 <= i < card.appears_on.len() && (
                    #[trigger] card.appears_on[i]).track.sources.contains(q);
                if place == Some(i) {
                    lemma_sources_join(card.appears_on[i].track.sources, a.track.sources, q);
                }
                assert(c.appears_on[i].track.sources.contains(q));
            }
        }
        match place {
            Some(i) => {
                assert(a.track.sources.contains(p));
                lemma_sources_join(card.appears_on[i].track.sources, a.track.sources, p);
                assert(c.appears_on[i].track.sources.contains(p));
            },
            None => {
                let i = c.appears_on.len() - 1;
                assert(c.appears_on[i] == a);
                assert(a.track.sources.contains(p));
            },
        }
    }
}

proof fn lemma_appearances_added<F: Fn(&str) -> String>(
    f: F,
    card: CardView,
    rows: Seq<AppearsView>,
)
    ensures
        ({
            let c = card_with_all(f, card, rows).0;
            &&& c.releases == card.releases
            &&& forall|p: (Seq<char>, Seq<char>)| #[trigger]
                is_offered(card, p) ==> is_offered(c, p)
            &&& forall|i: int|
                0 <= i < rows.len() && (#[trigger] rows[i]).track.sources.len() > 0 ==> is_offered(
                    c,
                    rows[i].track.sources[0],
                )
        }),
    decreases rows.len(),
{
    if rows.len() > 0 {
        let h = rows.drop_last();
        lemma_appearances_added(f, card, h);
        let b = card_with_all(f, card, h).0;
        lemma_appearance_added(f, b, rows.last());
        let c = card_with_all(f, card, rows).0;
        assert forall|i: int|
            0 <= i < rows.len() && (#[trigger] rows[i]).track.sources.len() > 0 implies is_offered(
            c,
            rows[i].track.sources[0],
        ) by {
            if i < h.len() {
                assert(h[i] == rows[i]);
                assert(is_offered(b, h[i].track.sources[0]));
            }
        }
    }
}

/// Each appearance that is added to a card can be played from there, and nothing that
/// could be is lost.
pub proof fn law_appearances_are_on_the_card<F: Fn(&str) -> String>(
    f: F,
    card: CardView,
    rows: Seq<AppearsView>,
)
    ensures
        ({
            let c = card_after(f, card, rows);
            &&& c.releases == card.releases
            &&& c.name == card.name
            &&& forall|p: (Seq<char>, Seq<char>)| #[trigger]
                is_offered(card, p) ==> is_offered(c, p)
            &&& forall|i: int|
                0 <= i < rows.len() && (#[trigger] rows[i]).track.sources.len() > 0 ==> is_offered(
                    c,
                    rows[i].track.sources[0],
                )
        }),
{
    let (b, changed) = card_with_all(f, card, rows);
    let c = card_after(f, card, rows);
    lemma_appearances_added(f, card, rows);
    lemma_same_name(f, card, rows);
    lemma_sorted_has(b.appears_on, appearance_order());
    assert forall|p: (Seq<char>, Seq<char>)| #[trigger] is_offered(b, p) implies is_offered(c, p) by {
        if !(exists|i: int, j: int|
            0 <= i < c.releases.len() && 0 <= j < c.releases[i].tracks.len()
                && #[trigger] c.releases[i].tracks[j].sources.contains(p)) {
            let i = choose|i: int|
                0 <= i < b.appears_on.len() && (#[trigger] b.appears_on[i]).track.sources.contains(
                    p,
                );
            if changed {
                let s = stable_sorted(b.appears_on, appearance_order());
                assert(b.appears_on.contains(b.appears_on[i]));
                assert(s.contains(b.appears_on[i]));
                let j = s.index_of(b.appears_on[i]);
                assert(c.appears_on[j].track.sources.contains(p));
            }
        }
    }
}

proof fn lemma_same_name<F: Fn(&str) -> String>(f: F, card: CardView, rows: Seq<AppearsView>)
    ensures
        card_with_all(f, card, rows).0.name == card.name,
    decreases rows.len(),
{
    if rows.len() > 0 {
        lemma_same_name(f, card, rows.drop_last());
    }
}

/// A published track appears on the card of an artist exactly when it features the
/// artist: under its title and its number, and from the peer that published it.
pub proof fn law_featured_track_appears<F: Fn(&str) -> String>(
    f: F,
    item: NetItemView,
    k: Seq<char>,
    display: Seq<char>,
)
    ensures
        ({
            let r = item_appearance(f, item, k, display);
            &&& r is Some <==> item.kind == ItemKind::Track && one_is_named(
                f,
                item.featured_artist_names,
                k,
            )
            &&& r matches Some(x) ==> {
                &&& x.track.title == item.name
                &&& x.track.track_number == item.track_number
                &&& x.track.disc_number == item.disc_number
                &&& x.track.content_id == item.content_id
                &&& x.track.sources.len() == 1
                &&& x.track.sources[0] == (item.owner, item.id)
                &&& x.year == item.year
                &&& item.release_title matches Some(t) ==> x.release_title == t
                &&& x.track.featured_artists.len() > 0
            }
        }),
{
}

/// A track of which more was learnt appears on the card of an artist exactly when it
/// features the artist, from the peer that has it.
pub proof fn law_learnt_track_appears<F: Fn(&str) -> String>(
    f: F,
    c: CachedView,
    k: Seq<char>,
    display: Seq<char>,
)
    ensures
        ({
            let r = cached_appearance(f, c, k, display);
            &&& r is Some <==> one_is_named(f, c.featured_artists, k)
            &&& r matches Some(x) ==> {
                &&& x.track.title == c.title
                &&& x.track.track_number == c.track_number
                &&& x.track.artists == c.artists
                &&& x.track.content_id == c.fed.content_id
                &&& x.track.sources.len() == 1
                &&& x.track.sources[0] == (c.fed.owner, c.fed.item_id)
                &&& x.year == c.year
            }
        }),
{
}

} // verus!
