use minidb::typestate_transaction::{Bucket, Key, ReadOnly, ReadWrite, Store, Transaction, Value};

fn report(tx: &Transaction<'_, ReadOnly>, bucket: &Bucket, key: &Key) -> Option<String> {
    tx.get(bucket, key).map(|value| value.as_str().to_owned())
}

fn write_one(tx: &mut Transaction<'_, ReadWrite>, bucket: Bucket, key: Key, value: Value) {
    tx.insert(bucket, key, value);
}

#[test]
fn a_read_only_transaction_can_read() {
    let mut store = Store::new();
    let users = Bucket::parse("users").unwrap();
    let id = Key::parse("42").unwrap();
    store.insert(users.clone(), id.clone(), Value::new("Alice"));

    let tx = store.begin_read();

    assert_eq!(report(&tx, &users, &id), Some("Alice".to_owned()));
}

#[test]
fn a_read_write_transaction_can_do_both() {
    let mut store = Store::new();
    let users = Bucket::parse("users").unwrap();
    let id = Key::parse("42").unwrap();

    let mut tx = store.begin();
    write_one(&mut tx, users.clone(), id.clone(), Value::new("Alice"));

    assert_eq!(tx.get(&users, &id).map(Value::as_str), Some("Alice"));

    tx.commit();

    assert_eq!(store.get(&users, &id).map(Value::as_str), Some("Alice"));
}

#[test]
fn a_read_only_transaction_needs_no_decision() {
    let mut store = Store::new();

    store.begin_read();
}

#[test]
fn the_closure_api_still_writes() {
    let mut store = Store::new();
    let users = Bucket::parse("users").unwrap();
    let id = Key::parse("42").unwrap();

    store
        .transaction(|tx| {
            tx.insert(users.clone(), id.clone(), Value::new("Alice"));
            Ok::<_, ()>(())
        })
        .unwrap();

    assert_eq!(store.get(&users, &id).map(Value::as_str), Some("Alice"));
}

#[test]
fn dropping_a_read_only_transaction_changes_nothing() {
    let mut store = Store::new();
    let users = Bucket::parse("users").unwrap();
    let id = Key::parse("42").unwrap();
    store.insert(users.clone(), id.clone(), Value::new("Alice"));

    {
        let tx = store.begin_read();
        assert_eq!(tx.get(&users, &id).map(Value::as_str), Some("Alice"));
    }

    assert_eq!(store.get(&users, &id).map(Value::as_str), Some("Alice"));
}

#[test]
fn an_undecided_read_write_transaction_is_rolled_back_when_dropped() {
    let mut store = Store::new();
    let users = Bucket::parse("users").unwrap();
    let id = Key::parse("42").unwrap();
    store.insert(users.clone(), id.clone(), Value::new("Alice"));

    {
        let mut tx = store.begin();
        tx.insert(users.clone(), id.clone(), Value::new("Bob"));
    }

    assert_eq!(store.get(&users, &id).map(Value::as_str), Some("Alice"));
}

#[test]
fn reads_through_a_transaction_see_its_own_changes_in_order() {
    let mut store = Store::new();
    let users = Bucket::parse("users").unwrap();
    let alice = Key::parse("42").unwrap();
    let bob = Key::parse("43").unwrap();
    store.insert(users.clone(), alice.clone(), Value::new("Alice"));
    store.insert(users.clone(), bob.clone(), Value::new("Bob"));

    let mut tx = store.begin();
    tx.insert(users.clone(), alice.clone(), Value::new("Carol"));
    tx.remove(users.clone(), alice.clone());
    tx.insert(users.clone(), alice.clone(), Value::new("Dave"));
    tx.remove(users.clone(), bob.clone());
    assert_eq!(tx.get(&users, &alice).map(Value::as_str), Some("Dave"));
    assert_eq!(tx.get(&users, &bob).map(Value::as_str), None);
    tx.commit();

    assert_eq!(store.get(&users, &alice).map(Value::as_str), Some("Dave"));
    assert_eq!(store.get(&users, &bob).map(Value::as_str), None);
}
