//! Bytes as hexadecimal text.

use crate::text::ascii_text;
use vstd::prelude::*;
use vstd::utf8::encode_utf8;

verus! {

/// The small hexadecimal digit for a value below sixteen, as a byte.
pub open spec fn hex_digit(v: int) -> u8 {
    if v < 10 {
        (48 + v) as u8
    } else {
        (87 + v) as u8
    }
}

/// The value of a hexadecimal digit of either case.
pub open spec fn hex_value(b: u8) -> Option<int> {
    if 48 <= b <= 57 {
        Some(b - 48)
    } else if 97 <= b <= 102 {
        Some(b - 87)
    } else if 65 <= b <= 70 {
        Some(b - 55)
    } else {
        None
    }
}

/// Two digits for each byte.
pub open spec fn hexed(s: Seq<u8>) -> Seq<u8>
    decreases s.len(),
{
    if s.len() == 0 {
        Seq::empty()
    } else {
        hexed(s.drop_last()).push(hex_digit(s.last() as int / 16)).push(
            hex_digit(s.last() as int % 16),
        )
    }
}

/// The byte that two characters stand for: two digits, or a plus sign and one
/// digit.
pub open spec fn hex_pair(a: u8, b: u8) -> Option<int> {
    if a == 43 {
        hex_value(b)
    } else {
        match (hex_value(a), hex_value(b)) {
            (Some(x), Some(y)) => Some(x * 16 + y),
            _ => None,
        }
    }
}

/// The bytes that the first `2 * n` characters stand for.
pub open spec fn unhexed(s: Seq<u8>, n: nat) -> Option<Seq<u8>>
    decreases n,
{
    if n == 0 {
        Some(Seq::empty())
    } else {
        match (unhexed(s, (n - 1) as nat), hex_pair(s[2 * n - 2], s[2 * n - 1])) {
            (Some(head), Some(v)) => Some(head.push(v as u8)),
            _ => None,
        }
    }
}

pub(crate) fn digit_of(v: u8) -> (r: u8)
    requires
        v < 16,
    ensures
        r == hex_digit(v as int),
{
    if v < 10 {
        48 + v
    } else {
        87 + v
    }
}

fn value_of(b: u8) -> (r: Option<u8>)
    ensures
        match r {
            Some(v) => v < 16 && hex_value(b) == Some(v as int),
            None => hex_value(b) is None,
        },
{
    if 48 <= b && b <= 57 {
        Some(b - 48)
    } else if 97 <= b && b <= 102 {
        Some(b - 87)
    } else if 65 <= b && b <= 70 {
        Some(b - 55)
    } else {
        None
    }
}

pub(crate) fn pair_of(a: u8, b: u8) -> (r: Option<u8>)
    ensures
        match r {
            Some(v) => hex_pair(a, b) == Some(v as int),
            None => hex_pair(a, b) is None,
        },
{
    if a == 43 {
        return value_of(b);
    }
    match (value_of(a), value_of(b)) {
        (Some(x), Some(y)) => Some(x * 16 + y),
        _ => None,
    }
}

/// The bytes in small hexadecimal digits.
pub fn hex_encode(bytes: &[u8]) -> (r: String)
    ensures
        r@ == ascii_text(hexed(bytes@)),
{
    let mut out = String::new();
    let mut i: usize = 0;
    proof {
        assert(out@ =~= ascii_text(hexed(bytes@.take(0))));
    }
    while i < bytes.len()
        invariant
            i <= bytes@.len(),
            out@ == ascii_text(hexed(bytes@.take(i as int))),
        decreases bytes@.len() - i,
    {
        let b: u8 = bytes[i];
        out.push(digit_of(b / 16) as char);
        out.push(digit_of(b % 16) as char);
        i += 1;
        proof {
            let now = bytes@.take(i as int);
            assert(now.drop_last() =~= bytes@.take(i - 1));
            assert(out@ =~= ascii_text(hexed(now)));
        }
    }
    proof {
        assert(bytes@.take(bytes@.len() as int) =~= bytes@);
    }
    out
}

/// The 32 bytes of an item id written in 64 hexadecimal digits.
pub fn hex_decode_item_id(value: &str) -> (r: Option<Vec<u8>>)
    ensures
        match r {
            Some(v) => encode_utf8(value@).len() == 64 && unhexed(encode_utf8(value@), 32) == Some(
                v@,
            ),
            None => encode_utf8(value@).len() != 64 || unhexed(encode_utf8(value@), 32) is None,
        },
{
    let s = value.as_bytes();
    if s.len() != 64 {
        return None;
    }
    let mut out: Vec<u8> = Vec::new();
    let mut i: usize = 0;
    while i < 32
        invariant
            i <= 32,
            s@ == encode_utf8(value@),
            s@.len() == 64,
            unhexed(s@, i as nat) == Some(out@),
        decreases 32 - i,
    {
        match pair_of(s[2 * i], s[2 * i + 1]) {
            Some(v) => {
                out.push(v);
            },
            None => {
                proof {
                    lemma_unhexed_none(s@, (i + 1) as nat, 32);
                }
                return None;
            },
        }
        i += 1;
    }
    Some(out)
}

proof fn lemma_unhexed_none(s: Seq<u8>, m: nat, n: nat)
    requires
        m <= n,
        unhexed(s, m) is None,
    ensures
        unhexed(s, n) is None,
    decreases n - m,
{
    if m < n {
        lemma_unhexed_none(s, m + 1, n);
    }
}

proof fn lemma_unhexed_prefix(s: Seq<u8>, t: Seq<u8>, n: nat)
    requires
        2 * n <= s.len(),
    ensures
        unhexed(s + t, n) == unhexed(s, n),
    decreases n,
{
    if n > 0 {
        lemma_unhexed_prefix(s, t, (n - 1) as nat);
        assert((s + t)[2 * n - 2] == s[2 * n - 2]);
        assert((s + t)[2 * n - 1] == s[2 * n - 1]);
    }
}

/// Reading back what was written in hexadecimal digits gives the same bytes.
pub proof fn law_hex_round_trip(s: Seq<u8>)
    ensures
        hexed(s).len() == 2 * s.len(),
        unhexed(hexed(s), s.len()) == Some(s),
        forall|i: int| 0 <= i < hexed(s).len() ==> hexed(s)[i] < 128,
        encode_utf8(ascii_text(hexed(s))) == hexed(s),
    decreases s.len(),
{
    if s.len() == 0 {
        assert(s =~= Seq::empty());
    } else {
        let head = s.drop_last();
        law_hex_round_trip(head);
        let b = s.last() as int;
        let tail = seq![hex_digit(b / 16), hex_digit(b % 16)];
        assert(hexed(s) =~= hexed(head) + tail);
        lemma_unhexed_prefix(hexed(head), tail, head.len());
        assert((b / 16) * 16 + b % 16 == b);
        assert(head.push(s.last()) =~= s);
    }
    crate::text::lemma_ascii_text(hexed(s));
}

} // verus!
