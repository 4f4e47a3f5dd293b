use minidb::typestate_writer::{Bucket, Key, Store, Value, Writer};

#[test]
fn a_writer_walks_the_states() {
    let users = Bucket::parse("users").unwrap();
    let alice = Key::parse("42").unwrap();
    let bob = Key::parse("43").unwrap();

    let text = Writer::new()
        .bucket(&users)
        .entry(&alice, &Value::new("Alice"))
        .entry(&bob, &Value::new("Bob"))
        .end()
        .finish();

    assert_eq!(text, "[users]\n42 = Alice\n43 = Bob\n");
}

#[test]
fn an_empty_document_is_empty() {
    assert_eq!(Writer::new().finish(), "");
}

#[test]
fn an_empty_bucket_still_gets_a_heading() {
    let users = Bucket::parse("users").unwrap();

    assert_eq!(Writer::new().bucket(&users).end().finish(), "[users]\n");
}

#[test]
fn exporting_sorts_buckets_and_keys() {
    let mut store = Store::new();
    let users = Bucket::parse("users").unwrap();
    let orders = Bucket::parse("orders").unwrap();
    store.insert(users.clone(), Key::parse("43").unwrap(), Value::new("Bob"));
    store.insert(
        users.clone(),
        Key::parse("42").unwrap(),
        Value::new("Alice"),
    );
    store.insert(
        orders.clone(),
        Key::parse("1").unwrap(),
        Value::new("a book"),
    );

    assert_eq!(
        store.export(),
        "[orders]\n1 = a book\n[users]\n42 = Alice\n43 = Bob\n"
    );
}

#[test]
fn exporting_an_empty_store_is_empty() {
    assert_eq!(Store::new().export(), "");
}

#[test]
fn exporting_sorts_by_bytes_and_keeps_emptied_buckets() {
    let mut store = Store::new();
    let lower = Bucket::parse("b").unwrap();
    let upper = Bucket::parse("B").unwrap();
    let long = Bucket::parse("aa").unwrap();
    let short = Bucket::parse("a").unwrap();
    let id = Key::parse("10").unwrap();
    store.insert(lower.clone(), id.clone(), Value::new("x"));
    store.insert(upper.clone(), Key::parse("9").unwrap(), Value::new("y"));
    store.insert(upper.clone(), id.clone(), Value::new("z"));
    store.insert(long.clone(), id.clone(), Value::new(""));
    store.insert(short.clone(), id.clone(), Value::new("gone"));
    store.remove(&short, &id);

    assert_eq!(
        store.export(),
        "[B]\n10 = z\n9 = y\n[a]\n[aa]\n10 = \n[b]\n10 = x\n"
    );
}

#[test]
fn an_emptied_bucket_is_not_listed_but_still_exported() {
    let mut store = Store::new();
    let users = Bucket::parse("users").unwrap();
    let id = Key::parse("42").unwrap();
    store.insert(users.clone(), id.clone(), Value::new("Alice"));
    store.remove(&users, &id);

    assert_eq!(store.buckets().count(), 0);
    assert_eq!(store.export(), "[users]\n");
}
