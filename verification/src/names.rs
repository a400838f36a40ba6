//! Names are matched by a key: the form of a name that does not depend on its
//! case, its punctuation or its spacing. How a name is brought into that form,
//! and how a key is split into words, is the caller's choice; every function
//! here that compares names or words takes it as an argument.

use crate::text::views;
use vstd::prelude::*;

verus! {

/// A usable normalisation: it accepts every text, and its result depends on
/// the text alone.
pub open spec fn normalizes<F: Fn(&str) -> String>(f: F) -> bool {
    &&& forall|s: &str| #[trigger] call_requires(f, (s,))
    &&& forall|s: &str, t: &str, a: String, b: String|
        #[trigger] call_ensures(f, (s,), a) && #[trigger] call_ensures(f, (t,), b) && s@ == t@
            ==> a@ == b@
}

/// Whether the normalisation can give the key `k` for the text `v`.
pub open spec fn gives_key<F: Fn(&str) -> String>(f: F, v: Seq<char>, k: Seq<char>) -> bool {
    exists|s: &str, r: String| s@ == v && r@ == k && #[trigger] call_ensures(f, (s,), r)
}

/// The key of a text under a normalisation.
pub open spec fn key_of<F: Fn(&str) -> String>(f: F, v: Seq<char>) -> Seq<char> {
    choose|k: Seq<char>| gives_key(f, v, k)
}

/// The key of a name.
pub fn key<F: Fn(&str) -> String>(f: &F, s: &str) -> (r: String)
    requires
        normalizes(*f),
    ensures
        r@ == key_of(*f, s@),
{
    let r = f(s);
    proof {
        assert(gives_key(*f, s@, r@));
        let k = key_of(*f, s@);
        assert(gives_key(*f, s@, k));
    }
    r
}

/// A usable splitting: it accepts every text, and the words depend on the text
/// alone.
pub open spec fn splits<T: Fn(&str) -> Vec<String>>(t: T) -> bool {
    &&& forall|s: &str| #[trigger] call_requires(t, (s,))
    &&& forall|s: &str, u: &str, a: Vec<String>, b: Vec<String>|
        #[trigger] call_ensures(t, (s,), a) && #[trigger] call_ensures(t, (u,), b) && s@ == u@
            ==> views(a@) == views(b@)
}

/// Whether the splitting can give the words `w` for the text `v`.
pub open spec fn gives_words<T: Fn(&str) -> Vec<String>>(t: T, v: Seq<char>, w: Seq<Seq<char>>) -> bool {
    exists|s: &str, r: Vec<String>|
        s@ == v && views(r@) == w && #[trigger] call_ensures(t, (s,), r)
}

/// The words of a text under a splitting.
pub open spec fn words_of<T: Fn(&str) -> Vec<String>>(t: T, v: Seq<char>) -> Seq<Seq<char>> {
    choose|w: Seq<Seq<char>>| gives_words(t, v, w)
}

/// The words of a text.
pub fn words<T: Fn(&str) -> Vec<String>>(t: &T, s: &str) -> (r: Vec<String>)
    requires
        splits(*t),
    ensures
        views(r@) == words_of(*t, s@),
{
    let r = t(s);
    proof {
        assert(gives_words(*t, s@, views(r@)));
        let w = words_of(*t, s@);
        assert(gives_words(*t, s@, w));
    }
    r
}

} // verus!
