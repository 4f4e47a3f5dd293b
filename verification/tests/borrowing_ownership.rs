use minidb::borrowing_ownership::{Bucket, Key, Store, Value};

#[test]
fn the_store_takes_the_names_it_keeps() {
    let mut store = Store::new();
    let users = Bucket::parse("users").unwrap();
    let id = Key::parse("42").unwrap();

    let replaced = store.insert(users.clone(), id.clone(), Value::new("Alice"));

    assert!(replaced.is_none());
    assert_eq!(store.get(&users, &id).map(Value::as_str), Some("Alice"));
}

#[test]
fn looking_up_still_only_borrows() {
    let mut store = Store::new();
    let users = Bucket::parse("users").unwrap();
    let id = Key::parse("42").unwrap();
    store.insert(users.clone(), id.clone(), Value::new("Alice"));

    assert_eq!(store.get(&users, &id).map(Value::as_str), Some("Alice"));
    assert_eq!(
        store.remove(&users, &id).map(Value::into_inner).as_deref(),
        Some("Alice")
    );
    assert_eq!(store.get(&users, &id).map(Value::as_str), None);
}
