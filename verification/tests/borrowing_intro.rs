use minidb::borrowing_intro::{Bucket, Key, Store, Value};

#[test]
fn any_number_of_shared_references_at_once() {
    let mut store = Store::new();
    let users = Bucket::parse("users").unwrap();
    let id = Key::parse("42").unwrap();
    store.insert(&users, &id, Value::new("Alice"));

    let first = store.get(&users, &id);
    let second = store.get(&users, &id);
    let buckets = store.buckets().count();

    assert_eq!(first.map(Value::as_str), Some("Alice"));
    assert_eq!(second.map(Value::as_str), Some("Alice"));
    assert_eq!(buckets, 1);
}

#[test]
fn a_borrow_ends_at_its_last_use() {
    let mut store = Store::new();
    let users = Bucket::parse("users").unwrap();
    let id = Key::parse("42").unwrap();
    store.insert(&users, &id, Value::new("Alice"));

    let alice = store.get(&users, &id).map(Value::as_str);
    assert_eq!(alice, Some("Alice"));

    store.insert(&users, &id, Value::new("Bob"));
    assert_eq!(store.get(&users, &id).map(Value::as_str), Some("Bob"));
}
