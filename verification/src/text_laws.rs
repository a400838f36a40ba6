//! What holds of texts that are cut and written.

use crate::text::{
    decimal, digit, drop_leading, drop_trailing, is_space, joined, trimmed, two_digits,
};
use crate::library::models::{credit_line, minutes_label};
use vstd::prelude::*;

verus! {

/// Whether a text is the part of another that starts at a place.
pub open spec fn cut_at(s: Seq<char>, t: Seq<char>, k: int) -> bool {
    0 <= k && k + t.len() <= s.len() && t == s.subrange(k, k + t.len())
}

proof fn lemma_leading(s: Seq<char>, p: spec_fn(char) -> bool) -> (k: int)
    ensures
        0 <= k <= s.len(),
        drop_leading(s, p) == s.skip(k),
        forall|i: int| 0 <= i < k ==> p(#[trigger] s[i]),
        k < s.len() ==> !p(s[k]),
    decreases s.len(),
{
    if s.len() > 0 && p(s[0]) {
        let t = s.skip(1);
        let k = lemma_leading(t, p);
        assert(t.skip(k) =~= s.skip(k + 1));
        assert forall|i: int| 0 <= i < k + 1 implies p(#[trigger] s[i]) by {
            if i > 0 {
                assert(t[i - 1] == s[i]);
            }
        }
        if k < t.len() {
            assert(t[k] == s[k + 1]);
        }
        k + 1
    } else {
        assert(s.skip(0) =~= s);
        0
    }
}

proof fn lemma_trailing(s: Seq<char>, p: spec_fn(char) -> bool) -> (k: int)
    ensures
        0 <= k <= s.len(),
        drop_trailing(s, p) == s.take(k),
        forall|i: int| k <= i < s.len() ==> p(#[trigger] s[i]),
        k > 0 ==> !p(s[k - 1]),
    decreases s.len(),
{
    if s.len() > 0 && p(s.last()) {
        let t = s.drop_last();
        let k = lemma_trailing(t, p);
        assert(t.take(k) =~= s.take(k));
        assert forall|i: int| k <= i < s.len() implies p(#[trigger] s[i]) by {
            if i < t.len() {
                assert(t[i] == s[i]);
            }
        }
        if k > 0 {
            assert(t[k - 1] == s[k - 1]);
        }
        k
    } else {
        assert(s.take(s.len() as int) =~= s);
        s.len() as int
    }
}

/// Trimming takes away the white space around a text and nothing else: what is left is a
/// part of the text, starts and ends with something to see, and what was cut off is
/// white space.
pub proof fn law_trimmed_text(s: Seq<char>) -> (k: int)
    ensures
        cut_at(s, trimmed(s), k),
        0 <= k,
        k + trimmed(s).len() <= s.len(),
        trimmed(s).len() > 0 ==> !is_space(trimmed(s)[0]) && !is_space(trimmed(s).last()),
        forall|i: int| 0 <= i < k ==> is_space(#[trigger] s[i]),
        forall|i: int| k + trimmed(s).len() <= i < s.len() ==> is_space(#[trigger] s[i]),
{
    let p = |c: char| is_space(c);
    let k = lemma_leading(s, p);
    let t = s.skip(k);
    let n = lemma_trailing(t, p);
    assert(trimmed(s) == t.take(n));
    assert(t.take(n) =~= s.subrange(k, k + n));
    assert forall|i: int| k + n <= i < s.len() implies is_space(#[trigger] s[i]) by {
        assert(t[i - k] == s[i]);
        assert(p(t[i - k]));
    }
    assert forall|i: int| 0 <= i < k implies is_space(#[trigger] s[i]) by {
        assert(p(s[i]));
    }
    if n > 0 {
        assert(t[0] == s[k]);
        assert(!p(s[k]));
        assert(trimmed(s).last() == t[n - 1]);
        assert(!p(t[n - 1]));
    }
    k
}

/// A text that was trimmed has nothing left to trim.
pub proof fn law_trimming_again_changes_nothing(s: Seq<char>)
    ensures
        trimmed(trimmed(s)) == trimmed(s),
{
    let t = trimmed(s);
    law_trimmed_text(s);
    let k = law_trimmed_text(t);
    let u = trimmed(t);
    if t.len() > 0 {
        if k > 0 {
            assert(is_space(t[0]));
        }
        if u.len() < t.len() {
            assert(is_space(t[t.len() - 1]));
        }
    }
    assert(u =~= t);
}

/// The number that decimal digits stand for.
pub open spec fn number_of(s: Seq<char>) -> int
    decreases s.len(),
{
    if s.len() == 0 {
        0
    } else {
        number_of(s.drop_last()) * 10 + (s.last() as int - '0' as int)
    }
}

/// A number that is written in decimal digits is read back from them.
pub proof fn law_decimal_says_the_number(n: nat)
    ensures
        number_of(decimal(n)) == n,
        decimal(n).len() > 0,
        forall|i: int| 0 <= i < decimal(n).len() ==> '0' <= #[trigger] decimal(n)[i] <= '9',
        n >= 10 ==> decimal(n)[0] != '0',
    decreases n,
{
    let s = decimal(n);
    if n < 10 {
        assert(s.drop_last() =~= Seq::empty());
        assert(number_of(s.drop_last()) == 0);
        assert(s.last() == digit(n as int));
    } else {
        law_decimal_says_the_number(n / 10);
        assert(s.drop_last() =~= decimal(n / 10));
        assert(s.last() == digit((n % 10) as int));
        assert(s[0] == decimal(n / 10)[0]);
        if n / 10 < 10 {
            assert(decimal(n / 10)[0] == digit((n / 10) as int));
        }
    }
}

/// Texts that are joined have what stands between them between each two, and nothing at
/// the ends.
pub proof fn law_joined_texts(parts: Seq<Seq<char>>, x: Seq<char>, sep: Seq<char>)
    ensures
        joined(Seq::empty(), sep).len() == 0,
        joined(seq![x], sep) == x,
        parts.len() > 0 ==> joined(parts.push(x), sep) == joined(parts, sep) + sep + x,
{
    assert(parts.push(x).drop_last() =~= parts);
}

/// The line of artists names the artists and then the guests, if there are any.
pub proof fn law_artist_line_names_everyone(artists: Seq<Seq<char>>, guests: Seq<Seq<char>>)
    ensures
        guests.len() == 0 ==> credit_line(artists, guests) == joined(artists, ", "@),
        artists.len() > 0 && guests.len() > 0 ==> credit_line(artists, guests) == credit_line(
            artists,
            Seq::empty(),
        ) + " feat. "@ + credit_line(guests, Seq::empty()),
        artists.len() == 0 && guests.len() > 0 ==> credit_line(artists, guests) == "feat. "@
            + credit_line(guests, Seq::empty()),
{
}

/// A length is shown in minutes and in seconds below sixty, which are two digits.
pub proof fn law_length_is_shown_in_minutes(total: nat) -> (m: nat)
    ensures
        m * 60 <= total < m * 60 + 60,
        minutes_label(total as int) == decimal(m) + seq![':'] + two_digits((total - m * 60) as nat),
        two_digits((total - m * 60) as nat).len() == 2,
        number_of(two_digits((total - m * 60) as nat)) == total - m * 60,
{
    let m = total / 60;
    let s = (total % 60) as nat;
    assert(s == total - m * 60);
    law_decimal_says_the_number(s);
    let d = decimal(s);
    if s < 10 {
        assert(d.len() == 1);
        let t = two_digits(s);
        assert(t =~= seq!['0'].push(d[0]));
        assert(t.drop_last() =~= seq!['0']);
        assert(seq!['0'].drop_last() =~= Seq::empty());
        assert(number_of(seq!['0']) == 0) by {
            assert(number_of(seq!['0'].drop_last()) == 0);
        }
        assert(d.drop_last() =~= Seq::empty());
        assert(number_of(d.drop_last()) == 0);
    } else {
        assert(decimal(s / 10).len() == 1);
        assert(d.len() == 2);
    }
    m
}

} // verus!
