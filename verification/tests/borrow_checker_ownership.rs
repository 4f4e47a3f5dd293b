use minidb::borrow_checker_ownership::{Bucket, Key, Store, Value};

#[test]
fn lib_the_store_takes_the_names_it_keeps() {
    let mut store = Store::new();
    let users = Bucket::parse("users").unwrap();
    let id = Key::parse("42").unwrap();

    let replaced = store.insert(users.clone(), id.clone(), Value::new("Alice"));

    assert!(replaced.is_none());
    assert_eq!(store.get(&users, &id).map(Value::as_str), Some("Alice"));
}

#[test]
fn lib_looking_up_still_only_borrows() {
    let mut store = Store::new();
    let users = Bucket::parse("users").unwrap();
    let id = Key::parse("42").unwrap();
    store.insert(users.clone(), id.clone(), Value::new("Alice"));

    assert_eq!(store.get(&users, &id).map(Value::as_str), Some("Alice"));
    assert_eq!(
        store.remove(&users, &id).map(Value::into_inner).as_deref(),
        Some("Alice")
    );
    assert_eq!(store.get(&users, &id).map(Value::as_str), None);
}

#[test]
fn transactions_take_the_names_too() {
    let mut store = Store::new();
    let users = Bucket::parse("users").unwrap();
    let id = Key::parse("42").unwrap();

    store
        .transaction(|txn| {
            txn.insert(users.clone(), id.clone(), Value::new("Alice"));
            Ok::<_, ()>(())
        })
        .unwrap();

    assert_eq!(store.get(&users, &id).map(Value::as_str), Some("Alice"));
}

#[test]
fn rolling_back_still_puts_the_names_back() {
    let mut store = Store::new();
    let users = Bucket::parse("users").unwrap();
    let id = Key::parse("42").unwrap();
    store.insert(users.clone(), id.clone(), Value::new("Alice"));

    let outcome = store.transaction(|txn| {
        txn.insert(users.clone(), id.clone(), Value::new("Bob"));
        txn.remove(users.clone(), id.clone());
        Err::<(), _>("no")
    });

    assert_eq!(outcome, Err("no"));
    assert_eq!(store.get(&users, &id).map(Value::as_str), Some("Alice"));
}

#[test]
fn a_rolled_back_insert_leaves_no_bucket_listed() {
    let mut store = Store::new();
    let users = Bucket::parse("users").unwrap();
    let id = Key::parse("42").unwrap();

    let outcome = store.transaction(|txn| {
        txn.insert(users.clone(), id.clone(), Value::new("Alice"));
        Err::<(), _>("no")
    });

    assert_eq!(outcome, Err("no"));
    assert_eq!(store.get(&users, &id).map(Value::as_str), None);
    assert_eq!(store.buckets().count(), 0);

    store.retain(|_, _, _| true);
    assert_eq!(store.buckets().count(), 0);
}
