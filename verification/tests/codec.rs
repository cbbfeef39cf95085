use convey::codec::{decode_session, encode_session};
use convey::errors::ConveyError;
use convey::session::SessionInfos;

fn sample() -> SessionInfos {
    SessionInfos {
        key: String::from("abc"),
        host_id: String::from("host-7"),
        magnet_link: String::from("magnet:?xt=urn:btih:c12fe1c06bba254a9dc9f519b335aa7c1367a88a"),
        opened_at: 1_700_000_000_123,
        revocation_token: String::from("secret-token"),
    }
}

#[test]
fn encode_layout_is_fixed_width() {
    let rec = SessionInfos {
        key: String::from("ab"),
        host_id: String::from("c"),
        magnet_link: String::from("magnet:?x"),
        opened_at: 5,
        revocation_token: String::from("zz"),
    };
    let expected = format!(
        "{:020}ab{:020}c{:020}magnet:?x{:020}zz{:020}",
        2, 1, 9, 2, 5
    );
    assert_eq!(encode_session(&rec), expected);
}

#[test]
fn decode_inverts_encode() {
    let rec = sample();
    let decoded = decode_session(encode_session(&rec).as_str()).unwrap();
    assert_eq!(decoded.key, rec.key);
    assert_eq!(decoded.host_id, rec.host_id);
    assert_eq!(decoded.magnet_link, rec.magnet_link);
    assert_eq!(decoded.opened_at, rec.opened_at);
    assert_eq!(decoded.revocation_token, rec.revocation_token);
}

#[test]
fn decode_handles_empty_fields_and_extreme_time() {
    let rec = SessionInfos {
        key: String::new(),
        host_id: String::new(),
        magnet_link: String::new(),
        opened_at: u64::MAX,
        revocation_token: String::new(),
    };
    let decoded = decode_session(encode_session(&rec).as_str()).unwrap();
    assert_eq!(decoded.key, "");
    assert_eq!(decoded.opened_at, u64::MAX);
}

#[test]
fn decode_rejects_garbage() {
    assert!(matches!(
        decode_session("not a record"),
        Err(ConveyError::SerializationError)
    ));
    assert!(matches!(decode_session(""), Err(ConveyError::SerializationError)));
}

#[test]
fn decode_rejects_truncated_text() {
    let mut text = encode_session(&sample());
    text.pop();
    assert!(matches!(
        decode_session(text.as_str()),
        Err(ConveyError::SerializationError)
    ));
}

#[test]
fn decode_rejects_trailing_text() {
    let mut text = encode_session(&sample());
    text.push('0');
    assert!(matches!(
        decode_session(text.as_str()),
        Err(ConveyError::SerializationError)
    ));
}

#[test]
fn decode_rejects_a_non_digit_count() {
    let mut text = encode_session(&sample());
    text.replace_range(0..1, "x");
    assert!(matches!(
        decode_session(text.as_str()),
        Err(ConveyError::SerializationError)
    ));
}

#[test]
fn decode_rejects_an_overlong_count() {
    let text = format!("{:020}abc", 4);
    assert!(matches!(
        decode_session(text.as_str()),
        Err(ConveyError::SerializationError)
    ));
}
