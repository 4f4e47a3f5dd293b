use minidb::borrowing_retain::{Bucket, Key, Store, Value};

#[test]
fn rejected_values_are_removed_and_the_rest_stay() {
    let mut store = Store::new();
    let users = Bucket::parse("users").unwrap();
    let alice = Key::parse("42").unwrap();
    let bob = Key::parse("43").unwrap();
    store.insert(&users, &alice, Value::new("Alice"));
    store.insert(&users, &bob, Value::new("Bob"));

    store.retain(|_, _, value| value.as_str().starts_with('A'));

    assert_eq!(store.get(&users, &alice).map(Value::as_str), Some("Alice"));
    assert_eq!(store.get(&users, &bob).map(Value::as_str), None);
}

#[test]
fn emptied_buckets_disappear() {
    let mut store = Store::new();
    let users = Bucket::parse("users").unwrap();
    let orders = Bucket::parse("orders").unwrap();
    let id = Key::parse("42").unwrap();
    store.insert(&users, &id, Value::new("Alice"));
    store.insert(&orders, &id, Value::new("a book"));

    store.retain(|bucket, _, _| bucket.as_str() == "users");

    let remaining = store.buckets().map(Bucket::as_str).collect::<Vec<_>>();

    assert_eq!(remaining, ["users"]);
}

#[test]
fn the_predicate_sees_every_value_once() {
    let mut store = Store::new();
    let users = Bucket::parse("users").unwrap();
    let orders = Bucket::parse("orders").unwrap();
    store.insert(&users, &Key::parse("42").unwrap(), Value::new("Alice"));
    store.insert(&users, &Key::parse("43").unwrap(), Value::new("Bob"));
    store.insert(&orders, &Key::parse("1").unwrap(), Value::new("a book"));

    let mut seen = Vec::new();
    store.retain(|bucket, key, _| {
        seen.push(format!("{}/{}", bucket.as_str(), key.as_str()));
        true
    });
    seen.sort();

    assert_eq!(seen, ["orders/1", "users/42", "users/43"]);
}

#[test]
fn keeping_everything_changes_nothing() {
    let mut store = Store::new();
    let users = Bucket::parse("users").unwrap();
    let id = Key::parse("42").unwrap();
    store.insert(&users, &id, Value::new("Alice"));

    store.retain(|_, _, _| true);

    assert_eq!(store.get(&users, &id).map(Value::as_str), Some("Alice"));
    assert_eq!(store.buckets().count(), 1);
}

#[test]
fn a_bucket_emptied_by_remove_goes_at_the_next_retain() {
    let mut store = Store::new();
    let users = Bucket::parse("users").unwrap();
    let id = Key::parse("42").unwrap();
    store.insert(&users, &id, Value::new("Alice"));
    store.remove(&users, &id);

    assert_eq!(store.buckets().count(), 1);

    store.retain(|_, _, _| true);

    assert_eq!(store.buckets().count(), 0);
}

#[test]
fn rejecting_everything_empties_the_store() {
    let mut store = Store::new();
    let users = Bucket::parse("users").unwrap();
    store.insert(&users, &Key::parse("42").unwrap(), Value::new("Alice"));
    store.insert(&users, &Key::parse("43").unwrap(), Value::new("Bob"));

    store.retain(|_, _, _| false);

    assert_eq!(store.buckets().count(), 0);
    assert_eq!(store.get(&users, &Key::parse("42").unwrap()).map(Value::as_str), None);
}
