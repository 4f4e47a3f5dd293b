use minidb::polymorphism_sealed::{Bucket, Ini, Key, Store, Value};

#[test]
fn sealing_changes_nothing_for_users_of_the_crate() {
    let mut store = Store::new();
    let users = Bucket::parse("users").unwrap();
    let id = Key::parse("42").unwrap();

    store
        .transaction(|txn| {
            txn.insert(users.clone(), id.clone(), Value::new("Alice"));
            Ok::<_, ()>(())
        })
        .unwrap();

    let txn = store.begin_read();

    assert_eq!(txn.get(&users, &id).map(Value::as_str), Some("Alice"));
    drop(txn);

    assert_eq!(store.export_with(Ini::default()), "[users]\n42 = Alice\n");
}

#[test]
fn only_buckets_holding_a_value_are_listed() {
    let mut store = Store::new();
    let users = Bucket::parse("users").unwrap();
    let orders = Bucket::parse("orders").unwrap();
    let id = Key::parse("42").unwrap();
    store.insert(users.clone(), id.clone(), Value::new("Alice"));
    store.insert(orders.clone(), id.clone(), Value::new("a book"));
    store.remove(&users, &id);

    let names = store.buckets().map(Bucket::as_str).collect::<Vec<_>>();

    assert_eq!(names, ["orders"]);
    assert_eq!(store.export(), "[orders]\n42 = a book\n[users]\n");
}

#[test]
fn a_read_only_transaction_leaves_the_store_as_it_was() {
    let mut store = Store::new();
    let users = Bucket::parse("users").unwrap();
    let id = Key::parse("42").unwrap();
    store.insert(users.clone(), id.clone(), Value::new("Alice"));

    {
        let txn = store.begin_read();
        assert_eq!(txn.get(&users, &id).map(Value::as_str), Some("Alice"));
    }

    assert_eq!(store.get(&users, &id).map(Value::as_str), Some("Alice"));
    assert_eq!(store.buckets().count(), 1);
}
