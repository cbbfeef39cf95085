use std::collections::HashSet;

use convey::utils::{gen_token, is_magnet_link_valid, token_from_entropy};

#[test]
fn is_magnet_link_valid_test() {
    assert!(is_magnet_link_valid(
        "magnet:?xt=urn:btih:c12fe1c06bba254a9dc9f519b335aa7c1367a88a"
    ));
    assert!(!is_magnet_link_valid(
        "magnet:xt=urn:btih:c12fe1c06bba254a9dc9f519b335aa7c1367a88a"
    ));
    assert!(!is_magnet_link_valid("magnet:?"));
}

#[test]
fn magnet_prefix_alone_is_too_short() {
    assert!(!is_magnet_link_valid(""));
    assert!(!is_magnet_link_valid("magnet:"));
    assert!(is_magnet_link_valid("magnet:?x"));
}

#[test]
fn gen_token_test() {
    let mut token_set: HashSet<String> = std::collections::HashSet::new();

    for _ in 0..100 {
        let token = gen_token();
        assert!(token.is_ok());
        let token_string = token.unwrap();
        assert!(!token_string.is_empty());
        assert!(!token_set.contains(&token_string));
        token_set.insert(token_string);
    }
}

#[test]
fn token_is_always_44_characters() {
    let token = gen_token().unwrap();
    assert_eq!(token.chars().count(), 44);
}

#[test]
fn token_from_entropy_hashes_then_encodes() {
    let entropy: Vec<u8> = (0u8..32).collect();
    let token = token_from_entropy(&entropy).unwrap();
    let digest = orion::hash::digest(&entropy).unwrap();
    let expected = base64::encode(digest.as_ref());
    assert_eq!(token, expected);
    assert_ne!(token.as_bytes(), entropy.as_slice());
}
