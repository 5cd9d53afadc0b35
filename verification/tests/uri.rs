use hello_http::uri::{decode_uri, DecodeError};

#[test]
fn test_decode_invariants() {
    assert_eq!(decode_uri("").unwrap(), String::from(""));
    assert_eq!(decode_uri("foo").unwrap(), String::from("foo"));
    assert_eq!(decode_uri("%").unwrap(), String::from("%"));
    assert_eq!(decode_uri("%xyz").unwrap(), String::from("%xyz"));
    assert_eq!(decode_uri("address%").unwrap(), String::from("address%"));
    assert_eq!(decode_uri("20% discount").unwrap(), String::from("20% discount"));
    assert_eq!(decode_uri("100%!").unwrap(), String::from("100%!"));
}

#[test]
fn test_decode_single_byte() {
    assert_eq!(decode_uri("%20").unwrap(), String::from(" "));
    assert_eq!(decode_uri("two%20words").unwrap(), String::from("two words"));
    assert_eq!(decode_uri("two%20%20spaces").unwrap(), String::from("two  spaces"));
    assert_eq!(decode_uri("%40label").unwrap(), String::from("@label"));
    assert_eq!(decode_uri("label%40").unwrap(), String::from("label@"));
}

#[test]
fn test_decode_multi_byte() {
    assert_eq!(decode_uri("%C2%A3").unwrap(), String::from("£"));
    assert_eq!(decode_uri("Price: %C2%A357").unwrap(), String::from("Price: £57"));
    assert_eq!(decode_uri("%E2%82%AC").unwrap(), String::from("€"));
    assert_eq!(decode_uri("Price: %E2%82%AC79").unwrap(), String::from("Price: €79"));
    assert_eq!(
        decode_uri("Currencies:%20$%E2%82%AC%C2%A3").unwrap(),
        String::from("Currencies: $€£")
    );
}

#[test]
fn decode_accepts_lowercase_hex() {
    assert_eq!(decode_uri("%2f").unwrap(), String::from("/"));
    assert_eq!(decode_uri("%2F").unwrap(), String::from("/"));
}

#[test]
fn decode_rejects_bytes_that_are_not_utf8() {
    assert_eq!(decode_uri("%FF"), Err(DecodeError::InvalidUtf8));
    assert_eq!(decode_uri("%C2"), Err(DecodeError::InvalidUtf8));
    assert_eq!(decode_uri("a%80b"), Err(DecodeError::InvalidUtf8));
}
