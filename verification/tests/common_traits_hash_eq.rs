use minidb::common_traits_hash_eq::{Bucket, Key, NameError, Store, Value};
use std::collections::HashMap;

#[test]
fn keys_are_map_keys() {
    let mut map = HashMap::new();
    map.insert(Key::parse("users/42").unwrap(), "Alice");

    assert_eq!(map[&Key::parse("users/42").unwrap()], "Alice");
}

#[test]
fn equal_keys_are_the_same_entry() {
    let mut map = HashMap::new();
    map.insert(Key::parse("users/42").unwrap(), "Alice");
    map.insert(Key::parse("users/42").unwrap(), "Bob");

    assert_eq!(map.len(), 1);
}

#[test]
fn buckets_are_handed_out_as_buckets() {
    let mut store = Store::new();
    let users = Bucket::parse("users").unwrap();
    store.insert(&users, &Key::parse("42").unwrap(), Value::new("Alice"));

    let names = store.buckets().map(Bucket::as_str).collect::<Vec<_>>();

    assert_eq!(names, ["users"]);
}

#[test]
fn try_from_is_parse_by_another_name() {
    assert_eq!(
        Key::try_from("users/42").unwrap().as_str(),
        Key::parse("users/42").unwrap().as_str()
    );
    assert_eq!(
        Key::try_from("user 42").unwrap_err(),
        NameError::InvalidCharacter {
            character: ' ',
            index: 4
        }
    );
}

#[test]
fn the_store_still_works_with_names_as_keys() {
    let mut store = Store::new();
    let users = Bucket::parse("users").unwrap();
    let id = Key::parse("42").unwrap();

    store.insert(&users, &id, Value::new("Alice"));

    assert_eq!(store.get(&users, &id).map(Value::as_str), Some("Alice"));
    assert_eq!(
        store.remove(&users, &id).map(Value::into_inner).as_deref(),
        Some("Alice")
    );
}

#[test]
fn each_bucket_is_listed_once() {
    let mut store = Store::new();
    let users = Bucket::parse("users").unwrap();
    let orders = Bucket::parse("orders").unwrap();
    store.insert(&users, &Key::parse("42").unwrap(), Value::new("Alice"));
    store.insert(&users, &Key::parse("43").unwrap(), Value::new("Bob"));
    store.insert(&orders, &Key::parse("1").unwrap(), Value::new("a book"));
    store.remove(&orders, &Key::parse("1").unwrap());

    let mut names = store.buckets().map(Bucket::as_str).collect::<Vec<_>>();
    names.sort();

    assert_eq!(names, ["orders", "users"]);
    assert_eq!(users, users.clone());
    assert!(orders < users);
}
