use minidb::raii_drop_guard::{Bucket, Key, Store, Value};

#[test]
fn an_abandoned_transaction_undoes_itself() {
    let mut store = Store::new();
    let users = Bucket::parse("users").unwrap();
    let id = Key::parse("42").unwrap();

    {
        let mut tx = store.begin();
        tx.insert(users.clone(), id.clone(), Value::new("Alice"));
    }

    assert_eq!(store.get(&users, &id).map(Value::as_str), None);
}

#[test]
fn a_committed_transaction_survives_being_dropped() {
    let mut store = Store::new();
    let users = Bucket::parse("users").unwrap();
    let id = Key::parse("42").unwrap();

    let mut tx = store.begin();
    tx.insert(users.clone(), id.clone(), Value::new("Alice"));
    tx.commit();

    assert_eq!(store.get(&users, &id).map(Value::as_str), Some("Alice"));
}

#[test]
fn an_explicit_rollback_still_works() {
    let mut store = Store::new();
    let users = Bucket::parse("users").unwrap();
    let id = Key::parse("42").unwrap();

    let mut tx = store.begin();
    tx.insert(users.clone(), id.clone(), Value::new("Alice"));
    tx.rollback();

    assert_eq!(store.get(&users, &id).map(Value::as_str), None);
}

#[test]
fn undoing_restores_what_was_there_before() {
    let mut store = Store::new();
    let users = Bucket::parse("users").unwrap();
    let id = Key::parse("42").unwrap();
    store.insert(users.clone(), id.clone(), Value::new("Alice"));

    {
        let mut tx = store.begin();
        tx.insert(users.clone(), id.clone(), Value::new("Bob"));
        tx.insert(users.clone(), id.clone(), Value::new("Carol"));
        tx.remove(users.clone(), id.clone());
    }

    assert_eq!(store.get(&users, &id).map(Value::as_str), Some("Alice"));
}

fn fetch_the_other_value() -> Result<Value, ()> {
    Err(())
}

fn write_both(store: &mut Store, bucket: &Bucket, first: &Key, second: &Key) -> Result<(), ()> {
    let mut tx = store.begin();
    tx.insert(bucket.clone(), first.clone(), Value::new("Alice"));

    let second_value = fetch_the_other_value()?;

    tx.insert(bucket.clone(), second.clone(), second_value);
    tx.commit();

    Ok(())
}

#[test]
fn bailing_out_halfway_undoes_the_first_half() {
    let mut store = Store::new();
    let users = Bucket::parse("users").unwrap();
    let alice = Key::parse("42").unwrap();
    let bob = Key::parse("43").unwrap();

    let outcome = write_both(&mut store, &users, &alice, &bob);

    assert!(outcome.is_err());
    assert_eq!(store.get(&users, &alice).map(Value::as_str), None);
    assert_eq!(store.get(&users, &bob).map(Value::as_str), None);
}

#[test]
fn an_abandoned_transaction_leaves_the_bucket_it_created_empty() {
    let mut store = Store::new();
    let users = Bucket::parse("users").unwrap();
    let id = Key::parse("42").unwrap();

    {
        let mut tx = store.begin();
        tx.insert(users.clone(), id.clone(), Value::new("Alice"));
    }

    let listed: Vec<&str> = store.buckets().map(Bucket::as_str).collect();
    assert_eq!(listed, vec!["users"]);
    assert_eq!(store.get(&users, &id).map(Value::as_str), None);
}

#[test]
fn a_rolled_back_transaction_leaves_every_other_value_in_place() {
    let mut store = Store::new();
    let users = Bucket::parse("users").unwrap();
    let orders = Bucket::parse("orders").unwrap();
    let alice = Key::parse("42").unwrap();
    let book = Key::parse("1").unwrap();
    store.insert(users.clone(), alice.clone(), Value::new("Alice"));

    let mut tx = store.begin();
    tx.remove(users.clone(), alice.clone());
    tx.insert(orders.clone(), book.clone(), Value::new("a book"));
    tx.rollback();

    assert_eq!(store.get(&users, &alice).map(Value::as_str), Some("Alice"));
    assert_eq!(store.get(&orders, &book).map(Value::as_str), None);
    let mut listed: Vec<&str> = store.buckets().map(Bucket::as_str).collect();
    listed.sort();
    assert_eq!(listed, vec!["orders", "users"]);
}
