use minidb::raii_intro::{Bucket, Key, Store, Value};

#[test]
fn the_store_has_to_be_handed_back() {
    let store = Store::new();
    let users = Bucket::parse("users").unwrap();
    let id = Key::parse("42").unwrap();

    let mut tx = store.begin();
    tx.insert(users.clone(), id.clone(), Value::new("Alice"));
    let store = tx.commit();

    assert_eq!(store.get(&users, &id).map(Value::as_str), Some("Alice"));
}

#[test]
fn a_rollback_hands_it_back_too() {
    let mut store = Store::new();
    let users = Bucket::parse("users").unwrap();
    let id = Key::parse("42").unwrap();
    store.insert(users.clone(), id.clone(), Value::new("Alice"));

    let mut tx = store.begin();
    tx.insert(users.clone(), id.clone(), Value::new("Bob"));
    let store = tx.rollback();

    assert_eq!(store.get(&users, &id).map(Value::as_str), Some("Alice"));
}

#[test]
fn every_read_has_to_go_through_the_transaction() {
    let store = Store::new();
    let users = Bucket::parse("users").unwrap();
    let id = Key::parse("42").unwrap();

    let mut tx = store.begin();
    tx.insert(users.clone(), id.clone(), Value::new("Alice"));

    assert_eq!(tx.get(&users, &id).map(Value::as_str), Some("Alice"));

    tx.commit();
}

fn fetch_the_other_value() -> Result<Value, ()> {
    Err(())
}

fn write_both(store: Store, bucket: &Bucket, first: &Key, second: &Key) -> Result<Store, ()> {
    let mut tx = store.begin();
    tx.insert(bucket.clone(), first.clone(), Value::new("Alice"));

    let second_value = fetch_the_other_value()?;

    tx.insert(bucket.clone(), second.clone(), second_value);

    Ok(tx.commit())
}

#[test]
fn bailing_out_halfway_loses_the_store_entirely() {
    let store = Store::new();
    let users = Bucket::parse("users").unwrap();
    let alice = Key::parse("42").unwrap();
    let bob = Key::parse("43").unwrap();

    let outcome = write_both(store, &users, &alice, &bob);

    assert!(outcome.is_err());
}

#[test]
fn a_rollback_undoes_a_removal() {
    let mut store = Store::new();
    let users = Bucket::parse("users").unwrap();
    let id = Key::parse("42").unwrap();
    store.insert(users.clone(), id.clone(), Value::new("Alice"));

    let mut tx = store.begin();
    tx.remove(users.clone(), id.clone());
    assert_eq!(tx.get(&users, &id).map(Value::as_str), None);
    let store = tx.rollback();

    assert_eq!(store.get(&users, &id).map(Value::as_str), Some("Alice"));
}

#[test]
fn a_rollback_keeps_the_buckets_the_transaction_saw_last() {
    let mut store = Store::new();
    let users = Bucket::parse("users").unwrap();
    let orders = Bucket::parse("orders").unwrap();
    let alice = Key::parse("42").unwrap();
    let book = Key::parse("1").unwrap();
    store.insert(users.clone(), alice.clone(), Value::new("Alice"));

    let mut tx = store.begin();
    tx.insert(orders.clone(), book.clone(), Value::new("a book"));
    tx.remove(users.clone(), alice.clone());
    let store = tx.rollback();

    assert_eq!(store.get(&users, &alice).map(Value::as_str), Some("Alice"));
    assert_eq!(store.get(&orders, &book).map(Value::as_str), None);
    let mut listed: Vec<&str> = store.buckets().map(Bucket::as_str).collect();
    listed.sort();
    assert_eq!(listed, vec!["orders", "users"]);
}
