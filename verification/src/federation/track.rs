//! A track of another peer.

use crate::library::models::clone_strings;
use crate::names::{key, key_of, normalizes};
use crate::text::{joined, opt_view, same, views};
use vstd::prelude::*;

verus! {

/// A track found through federated search.
#[derive(Debug)]
pub struct FedTrack {
    /// Hex item id in the network (the key audio is requested by).
    pub item_id: String,
    /// Hex endpoint id of the owning peer.
    pub owner: String,
    /// The item is published by this very instance.
    pub own: bool,
    pub title: String,
    pub artist_names: Vec<String>,
    pub featured_artist_names: Vec<String>,
    pub year: Option<i32>,
    pub duration_seconds: Option<i64>,
    /// Stable audio content id (`b3:<64 hex>`) when the owner published it.
    pub content_id: Option<String>,
    /// Release context, known when the track came from an artist card.
    pub release_title: Option<String>,
    pub track_number: Option<i32>,
    pub disc_number: Option<i32>,
}

#[verifier::ext_equal]
pub struct FedTrackView {
    pub item_id: Seq<char>,
    pub owner: Seq<char>,
    pub own: bool,
    pub title: Seq<char>,
    pub artist_names: Seq<Seq<char>>,
    pub featured_artist_names: Seq<Seq<char>>,
    pub year: Option<i32>,
    pub duration_seconds: Option<i64>,
    pub content_id: Option<Seq<char>>,
    pub release_title: Option<Seq<char>>,
    pub track_number: Option<i32>,
    pub disc_number: Option<i32>,
}

impl View for FedTrack {
    type V = FedTrackView;

    open spec fn view(&self) -> FedTrackView {
        FedTrackView {
            item_id: self.item_id@,
            owner: self.owner@,
            own: self.own,
            title: self.title@,
            artist_names: views(self.artist_names@),
            featured_artist_names: views(self.featured_artist_names@),
            year: self.year,
            duration_seconds: self.duration_seconds,
            content_id: opt_view(self.content_id),
            release_title: opt_view(self.release_title),
            track_number: self.track_number,
            disc_number: self.disc_number,
        }
    }
}

pub open spec fn fed_view(fed: Option<FedTrack>) -> Option<FedTrackView> {
    match fed {
        Some(t) => Some(t@),
        None => None,
    }
}

impl Clone for FedTrack {
    fn clone(&self) -> (r: Self)
        ensures
            r@ == self@,
    {
        FedTrack {
            item_id: self.item_id.clone(),
            owner: self.owner.clone(),
            own: self.own,
            title: self.title.clone(),
            artist_names: clone_strings(&self.artist_names),
            featured_artist_names: clone_strings(&self.featured_artist_names),
            year: self.year,
            duration_seconds: self.duration_seconds,
            content_id: self.content_id.clone(),
            release_title: self.release_title.clone(),
            track_number: self.track_number,
            disc_number: self.disc_number,
        }
    }
}

/// Whether a list of names holds one with the given key.
pub open spec fn has_key<F: Fn(&str) -> String>(f: F, names: Seq<Seq<char>>, k: Seq<char>) -> bool {
    exists|i: int| 0 <= i < names.len() && key_of(f, #[trigger] names[i]) == k
}

/// `names` with `name` behind them, unless one of them has its key.
pub open spec fn with_artist<F: Fn(&str) -> String>(
    f: F,
    names: Seq<Seq<char>>,
    name: Seq<char>,
) -> Seq<Seq<char>> {
    if has_key(f, names, key_of(f, name)) {
        names
    } else {
        names.push(name)
    }
}

/// The names without those whose key occurs before them or in `taken`.
pub open spec fn distinct_names<F: Fn(&str) -> String>(
    f: F,
    names: Seq<Seq<char>>,
    taken: Seq<Seq<char>>,
) -> Seq<Seq<char>>
    decreases names.len(),
{
    if names.len() == 0 {
        Seq::empty()
    } else {
        let before = distinct_names(f, names.drop_last(), taken);
        if has_key(f, taken, key_of(f, names.last())) {
            before
        } else {
            with_artist(f, before, names.last())
        }
    }
}

/// The credited artists as one line: the main artists, each once, and behind
/// "feat." the featured ones who are not among them.
pub open spec fn line_of<F: Fn(&str) -> String>(
    f: F,
    artists: Seq<Seq<char>>,
    featured: Seq<Seq<char>>,
) -> Seq<char> {
    let main = distinct_names(f, artists, Seq::empty());
    let guests = distinct_names(f, featured, main);
    if main.len() > 0 && guests.len() > 0 {
        joined(main, ", "@) + " feat. "@ + joined(guests, ", "@)
    } else if main.len() > 0 {
        joined(main, ", "@)
    } else if guests.len() > 0 {
        "feat. "@ + joined(guests, ", "@)
    } else {
        Seq::empty()
    }
}

/// Whether one of the names has the given key.
pub(crate) fn any_key<F: Fn(&str) -> String>(f: &F, names: &[String], k: &str) -> (r: bool)
    requires
        normalizes(*f),
    ensures
        r == has_key(*f, views(names@), k@),
{
    let mut i: usize = 0;
    while i < names.len()
        invariant
            i <= names@.len(),
            normalizes(*f),
            forall|j: int| 0 <= j < i ==> key_of(*f, #[trigger] names@[j]@) != k@,
        decreases names@.len() - i,
    {
        let other = key(f, names[i].as_str());
        if same(&other, k) {
            proof {
                assert(views(names@)[i as int] == names@[i as int]@);
            }
            return true;
        }
        i += 1;
    }
    proof {
        assert forall|j: int| 0 <= j < views(names@).len() implies key_of(
            *f,
            #[trigger] views(names@)[j],
        ) != k@ by {
            assert(views(names@)[j] == names@[j]@);
        }
    }
    false
}

/// Appends a name unless one with the same key is there.
pub fn push_artist_once<F: Fn(&str) -> String>(f: &F, names: &mut Vec<String>, name: &str)
    requires
        normalizes(*f),
    ensures
        views(final(names)@) == with_artist(*f, views(old(names)@), name@),
{
    let k = key(f, name);
    if any_key(f, names, &k) {
        return;
    }
    let ghost before = names@;
    names.push(name.to_owned());
    proof {
        assert(views(names@) =~= views(before).push(name@));
    }
}

fn distinct<F: Fn(&str) -> String>(f: &F, names: &[String], taken: &[String]) -> (r: Vec<String>)
    requires
        normalizes(*f),
    ensures
        views(r@) == distinct_names(*f, views(names@), views(taken@)),
{
    let mut out: Vec<String> = Vec::new();
    let mut i: usize = 0;
    proof {
        assert(views(out@) =~= distinct_names(*f, views(names@.take(0)), views(taken@)));
    }
    while i < names.len()
        invariant
            i <= names@.len(),
            normalizes(*f),
            views(out@) == distinct_names(*f, views(names@.take(i as int)), views(taken@)),
        decreases names@.len() - i,
    {
        proof {
            let now = views(names@.take(i + 1));
            assert(now.drop_last() =~= views(names@.take(i as int)));
            assert(now.last() == names@[i as int]@);
        }
        let k = key(f, names[i].as_str());
        if !any_key(f, taken, &k) {
            push_artist_once(f, &mut out, names[i].as_str());
        }
        i += 1;
    }
    proof {
        assert(names@.take(names@.len() as int) =~= names@);
    }
    out
}

/// The credited artists as one line.
pub fn artist_line<F: Fn(&str) -> String>(f: &F, artists: &[String], featured: &[String]) -> (r:
    String)
    requires
        normalizes(*f),
    ensures
        r@ == line_of(*f, views(artists@), views(featured@)),
{
    let none: Vec<String> = Vec::new();
    let main = distinct(f, artists, &none);
    let guests = distinct(f, featured, &main);
    proof {
        assert(views(none@) =~= Seq::empty());
        assert(views(main@).len() == main@.len());
        assert(views(guests@).len() == guests@.len());
    }
    if main.len() > 0 && guests.len() > 0 {
        let mut out = crate::text::join(&main, ", ");
        out.append(" feat. ");
        let tail = crate::text::join(&guests, ", ");
        out.append(tail.as_str());
        out
    } else if main.len() > 0 {
        crate::text::join(&main, ", ")
    } else if guests.len() > 0 {
        let mut out = String::new();
        out.append("feat. ");
        let tail = crate::text::join(&guests, ", ");
        out.append(tail.as_str());
        proof {
            assert(out@ =~= "feat. "@ + joined(views(guests@), ", "@));
        }
        out
    } else {
        String::new()
    }
}

/// The first characters of a text, at most `n`.
pub open spec fn first_chars(s: Seq<char>, n: int) -> Seq<char> {
    if s.len() <= n {
        s
    } else {
        s.take(n)
    }
}

pub(crate) fn prefix_text(s: &str, n: usize) -> (r: String)
    ensures
        r@ == first_chars(s@, n as int),
{
    let chars = crate::text::chars_of(s);
    if chars.len() <= n {
        crate::text::string_of(&chars)
    } else {
        let head = crate::text::slice_of(&chars, 0, n);
        proof {
            assert(head@ =~= chars@.take(n as int));
        }
        crate::text::string_of(&head)
    }
}

impl FedTrack {
    pub fn artist_line<F: Fn(&str) -> String>(&self, f: &F) -> (r: String)
        requires
            normalizes(*f),
        ensures
            r@ == line_of(*f, self@.artist_names, self@.featured_artist_names),
    {
        artist_line(f, &self.artist_names, &self.featured_artist_names)
    }

    /// The start of the owner's id, for display.
    pub fn owner_short(&self) -> (r: String)
        ensures
            r@ == first_chars(self.owner@, 10),
    {
        prefix_text(self.owner.as_str(), 10)
    }

    /// The duration as minutes and seconds; nothing where it is not known.
    pub fn duration_label(&self) -> (r: String)
        ensures
            r@ == match self.duration_seconds {
                Some(total) => crate::library::models::minutes_label(total as int),
                None => Seq::empty(),
            },
    {
        match self.duration_seconds {
            Some(total) => crate::library::models::minutes_text(total),
            None => String::new(),
        }
    }
}

} // verus!
