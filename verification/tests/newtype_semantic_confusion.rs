use minidb::newtype_semantic_confusion::{Bucket, Key, Store};

#[test]
fn lib_insert_and_get() {
    let mut store = Store::new();
    let users = Bucket::new("users");
    let id = Key::new("42");

    assert_eq!(store.insert(&users, &id, "Alice"), None);
    assert_eq!(store.get(&users, &id), Some("Alice"));
    assert_eq!(store.insert(&users, &id, "Bob").as_deref(), Some("Alice"));
    assert_eq!(store.remove(&users, &id).as_deref(), Some("Bob"));
    assert_eq!(store.get(&users, &id), None);
}

#[test]
fn buckets_are_independent() {
    let mut store = Store::new();
    let users = Bucket::new("users");
    let orders = Bucket::new("orders");
    let id = Key::new("42");

    store.insert(&users, &id, "Alice");

    assert_eq!(store.get(&orders, &id), None);
}

#[test]
fn any_text_makes_a_name_here() {
    let mut store = Store::new();
    let odd = Bucket::new("");
    let spaced = Key::new("user 42");

    store.insert(&odd, &spaced, "Alice");

    assert_eq!(odd.0, "");
    assert_eq!(store.get(&odd, &spaced), Some("Alice"));
}
