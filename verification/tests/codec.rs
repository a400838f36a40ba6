//! Text codecs.

use furumi::base64url::{base64url_decode, base64url_encode};

#[test]
fn devices_base64url_round_trip_without_padding() {
    for input in [b"".as_slice(), b"a", b"ab", b"abc", b"abcdef"] {
        let encoded = base64url_encode(input);
        assert!(!encoded.contains('='));
        assert_eq!(base64url_decode(&encoded).unwrap(), input);
    }
}

#[test]
fn tests_base64url_round_trip_without_padding() {
    for input in [b"".as_slice(), b"a", b"ab", b"abc", b"abcdef"] {
        let encoded = base64url_encode(input);
        assert!(!encoded.contains('='));
        assert_eq!(base64url_decode(&encoded).unwrap(), input);
    }
}
