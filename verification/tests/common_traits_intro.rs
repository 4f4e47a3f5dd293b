use minidb::common_traits_intro::{Bucket, Key, Store};

#[test]
fn lib_the_store_still_works() {
    let mut store = Store::new();
    let users = Bucket::parse("users").unwrap();
    let id = Key::parse("42").unwrap();

    store.insert(&users, &id, "Alice");

    assert_eq!(store.get(&users, &id), Some("Alice"));
}

#[test]
fn removing_hands_the_value_back() {
    let mut store = Store::new();
    let users = Bucket::parse("users").unwrap();
    let id = Key::parse("42").unwrap();

    store.insert(&users, &id, "Alice");

    assert_eq!(store.remove(&users, &id).as_deref(), Some("Alice"));
    assert_eq!(store.get(&users, &id), None);
}
