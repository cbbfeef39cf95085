use convey::codec::encode_session;
use convey::errors::ConveyError;
use convey::manager::{
    decide_close_session, decide_open_session, decide_retrieve_session, SessionManager, SessionMsg,
};
use convey::session::{OpenSessionReq, SessionInfos};

const TEST_MAGNET: &str = "magnet:?xt=urn:btih:c12fe1c06bba254a9dc9f519b335aa7c1367a88a";

fn req(key: &str) -> OpenSessionReq {
    OpenSessionReq {
        key: String::from(key),
        host_id: String::from("h1"),
        magnet_link: String::from(TEST_MAGNET),
    }
}

#[test]
fn end_to_end_scenario() {
    let mut m = SessionManager::new();
    let id = String::from("abc");

    let opened = m.open_session(req("abc")).unwrap();
    assert_eq!(opened.key, "abc");
    assert!(!opened.revocation_token.is_empty());
    let token = opened.revocation_token.clone();

    let read = m.retrieve_session(&id).unwrap();
    assert_eq!(read.key, "abc");
    assert_eq!(read.host_id, "h1");
    assert_eq!(read.magnet_link, TEST_MAGNET);
    assert_eq!(read.opened_at, opened.opened_at);
    assert_eq!(read.revocation_token, "");

    let wrong = m.close_session(&id, &String::from("wrong-token"));
    assert!(matches!(wrong, Err(ConveyError::UnauthorizedError())));
    let still_there = m.retrieve_session(&id).unwrap();
    assert_eq!(still_there.key, "abc");
    assert_eq!(still_there.opened_at, opened.opened_at);

    let closed = m.close_session(&id, &token).unwrap();
    assert_eq!(closed.key, "abc");
    assert_eq!(closed.revocation_token, token);
    assert!(matches!(m.retrieve_session(&id), Err(ConveyError::NotFound())));
}

#[test]
fn reopen_conflicts_until_closed() {
    let mut m = SessionManager::new();
    let token = m.open_session(req("k")).unwrap().revocation_token;

    let second = m.open_session(req("k"));
    match second {
        Err(ConveyError::BadRequest(msg)) => {
            assert_eq!(msg, "This session is already open.")
        },
        _ => panic!("a second open of the same key must conflict"),
    }

    m.close_session(&String::from("k"), &token).unwrap();
    assert!(m.open_session(req("k")).is_ok());
}

#[test]
fn validation_gate_rejects_before_any_mutation() {
    let mut m = SessionManager::new();

    let mut bad = req("v");
    bad.magnet_link = String::from("magnet:invalid");
    match m.open_session(bad) {
        Err(ConveyError::BadRequest(msg)) => assert_eq!(msg, "Invalid magnet link."),
        _ => panic!("an invalid magnet link must be rejected"),
    }
    assert!(matches!(
        m.retrieve_session(&String::from("v")),
        Err(ConveyError::NotFound())
    ));

    let mut empty = req("");
    empty.key = String::new();
    match m.open_session(empty) {
        Err(ConveyError::BadRequest(msg)) => assert_eq!(msg, "Bad ids."),
        _ => panic!("an empty key must be rejected"),
    }
}

#[test]
fn each_open_issues_a_fresh_token() {
    let mut m = SessionManager::new();
    let first = m.open_session(req("fresh")).unwrap();
    m.close_session(&String::from("fresh"), &first.revocation_token).unwrap();
    let second = m.open_session(req("fresh")).unwrap();
    assert_ne!(first.revocation_token, second.revocation_token);

    let stale = m.close_session(&String::from("fresh"), &first.revocation_token);
    assert!(matches!(stale, Err(ConveyError::UnauthorizedError())));
}

#[test]
fn handle_dispatches_all_three_operations() {
    let mut m = SessionManager::new();
    let opened = m.handle(SessionMsg::OpenSession(req("msg"))).unwrap();

    let read = m.handle(SessionMsg::GetSessionInfos(String::from("msg"))).unwrap();
    assert_eq!(read.revocation_token, "");

    let closed = m
        .handle(SessionMsg::CloseSession {
            id: String::from("msg"),
            revocation_token: opened.revocation_token.clone(),
        })
        .unwrap();
    assert_eq!(closed.key, "msg");
    assert!(matches!(
        m.handle(SessionMsg::GetSessionInfos(String::from("msg"))),
        Err(ConveyError::NotFound())
    ));
}

#[test]
fn close_of_absent_key_is_not_found() {
    let mut m = SessionManager::new();
    let r = m.close_session(&String::from("nobody"), &String::from("t"));
    assert!(matches!(r, Err(ConveyError::NotFound())));
}

#[test]
fn decisions_cover_the_store_outcomes() {
    let conflict = decide_open_session(true, req("any"));
    assert!(matches!(conflict, Err(ConveyError::BadRequest(_))));

    assert!(matches!(
        decide_retrieve_session(None),
        Err(ConveyError::NotFound())
    ));
    assert!(matches!(
        decide_close_session(None, &String::from("t")),
        Err(ConveyError::NotFound())
    ));
    assert!(matches!(
        decide_retrieve_session(Some(String::from("corrupt"))),
        Err(ConveyError::SerializationError)
    ));
    assert!(matches!(
        decide_close_session(Some(String::from("corrupt")), &String::from("t")),
        Err(ConveyError::SerializationError)
    ));

    let rec = SessionInfos {
        key: String::from("d"),
        host_id: String::from("h"),
        magnet_link: String::from(TEST_MAGNET),
        opened_at: 12,
        revocation_token: String::from("tok"),
    };
    let payload = encode_session(&rec);
    let read = decide_retrieve_session(Some(payload.clone())).unwrap();
    assert_eq!(read.revocation_token, "");
    assert_eq!(read.key, "d");

    let denied = decide_close_session(Some(payload.clone()), &String::from("other"));
    assert!(matches!(denied, Err(ConveyError::UnauthorizedError())));
    let granted = decide_close_session(Some(payload), &String::from("tok")).unwrap();
    assert_eq!(granted.revocation_token, "tok");
}
