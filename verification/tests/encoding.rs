use desire::encoding::{hex_val, percent_decode, percent_encode};
use desire::extract::encode_params;

#[test]
fn decode_roundtrip() {
    assert_eq!(percent_decode("a%20b"), "a b");
    assert_eq!(percent_decode("caf%C3%A9"), "café");
    assert_eq!(percent_decode("100%"), "100%");
    assert_eq!(percent_encode("a b&c=d"), "a%20b%26c%3Dd");
}

#[test]
fn params_deserialize() {
    let params = vec![("id".to_owned(), "42".to_owned())];
    let encoded = encode_params(&params);
    let args: Vec<(String, i64)> = serde_urlencoded::from_str(&encoded).unwrap();
    assert_eq!(args, vec![("id".to_owned(), 42)]);
}

#[test]
fn hex_digits_of_both_cases() {
    assert_eq!(hex_val(b'0'), Some(0));
    assert_eq!(hex_val(b'9'), Some(9));
    assert_eq!(hex_val(b'a'), Some(10));
    assert_eq!(hex_val(b'F'), Some(15));
    assert_eq!(hex_val(b'g'), None);
    assert_eq!(hex_val(b'%'), None);
}

#[test]
fn malformed_escapes_stay_literal() {
    assert_eq!(percent_decode("%zz"), "%zz");
    assert_eq!(percent_decode("%4"), "%4");
    assert_eq!(percent_decode("%41"), "A");
    assert_eq!(percent_decode("a%2Fb"), "a/b");
}

#[test]
fn invalid_utf8_is_replaced() {
    assert_eq!(percent_decode("%FF"), "\u{FFFD}");
    assert_eq!(percent_decode("%c0%ae"), "\u{FFFD}\u{FFFD}");
}

#[test]
fn encode_keeps_unreserved_and_escapes_multibyte() {
    assert_eq!(percent_encode("AZaz09-_.~"), "AZaz09-_.~");
    assert_eq!(percent_encode("é"), "%C3%A9");
    assert_eq!(percent_encode(""), "");
}

#[test]
fn encode_then_decode_gives_back_the_text() {
    for s in ["a b&c=d", "café", "100%", "/x/../y", "\u{1F600}"] {
        assert_eq!(percent_decode(&percent_encode(s)), s);
    }
}

#[test]
fn params_query_joins_with_ampersand() {
    let params = vec![
        ("a".to_owned(), "x y".to_owned()),
        ("b".to_owned(), "1&2".to_owned()),
    ];
    assert_eq!(encode_params(&params), "a=x%20y&b=1%262");
    assert_eq!(encode_params(&Vec::new()), "");
}
