use convey::store::SessionStore;

#[test]
fn get_returns_what_set_stored() {
    let mut s = SessionStore::new();
    assert!(!s.exists_key(&String::from("a")));
    assert!(s.get(&String::from("a")).is_none());

    s.set(String::from("a"), String::from("one"));
    assert!(s.exists_key(&String::from("a")));
    assert_eq!(s.get(&String::from("a")).unwrap(), "one");

    s.set(String::from("a"), String::from("two"));
    assert_eq!(s.get(&String::from("a")).unwrap(), "two");
}

#[test]
fn delete_removes_only_its_key() {
    let mut s = SessionStore::new();
    s.set(String::from("a"), String::from("one"));
    s.set(String::from("b"), String::from("two"));
    s.delete(&String::from("a"));
    assert!(!s.exists_key(&String::from("a")));
    assert_eq!(s.get(&String::from("b")).unwrap(), "two");
    s.delete(&String::from("missing"));
    assert_eq!(s.get(&String::from("b")).unwrap(), "two");
}

#[test]
fn create_if_absent_writes_at_most_once() {
    let mut s = SessionStore::new();
    assert!(s.create_if_absent(String::from("k"), String::from("first")));
    assert!(!s.create_if_absent(String::from("k"), String::from("second")));
    assert_eq!(s.get(&String::from("k")).unwrap(), "first");
}
