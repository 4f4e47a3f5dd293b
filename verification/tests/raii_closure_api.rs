use minidb::raii_closure_api::{Bucket, Key, Store, Value};

#[derive(Debug, PartialEq, Eq)]
struct Rejected;

fn rejected() -> Result<Value, Rejected> {
    Err(Rejected)
}

#[test]
fn returning_ok_commits_and_hands_the_value_back() {
    let mut store = Store::new();
    let users = Bucket::parse("users").unwrap();
    let id = Key::parse("42").unwrap();

    let outcome = store.transaction(|txn| {
        txn.insert(&users, &id, Value::new("Alice"));
        Ok::<_, Rejected>(7)
    });

    assert_eq!(outcome, Ok(7));
    assert_eq!(store.get(&users, &id).map(Value::as_str), Some("Alice"));
}

#[test]
fn returning_err_rolls_back_and_hands_the_error_back() {
    let mut store = Store::new();
    let users = Bucket::parse("users").unwrap();
    let alice = Key::parse("42").unwrap();
    let bob = Key::parse("43").unwrap();

    let outcome = store.transaction(|txn| {
        txn.insert(&users, &alice, Value::new("Alice"));
        txn.insert(&users, &bob, Value::new("Bob"));
        Err::<(), _>(Rejected)
    });

    assert_eq!(outcome, Err(Rejected));
    assert_eq!(store.get(&users, &alice).map(Value::as_str), None);
    assert_eq!(store.get(&users, &bob).map(Value::as_str), None);
}

#[test]
fn the_question_mark_operator_works_inside() {
    let mut store = Store::new();
    let users = Bucket::parse("users").unwrap();
    let id = Key::parse("42").unwrap();

    let outcome = store.transaction(|txn| {
        txn.insert(&users, &id, Value::new("Alice"));
        let value = rejected()?;
        txn.insert(&users, &id, value);
        Ok(())
    });

    assert_eq!(outcome, Err(Rejected));
    assert_eq!(store.get(&users, &id).map(Value::as_str), None);
}

#[test]
fn begin_and_an_explicit_decision_still_work() {
    let mut store = Store::new();
    let users = Bucket::parse("users").unwrap();
    let id = Key::parse("42").unwrap();

    let mut txn = store.begin();
    txn.insert(&users, &id, Value::new("Alice"));
    txn.commit();

    let mut txn = store.begin();
    txn.insert(&users, &id, Value::new("Bob"));
    txn.remove(&users, &id);
    txn.rollback();

    assert_eq!(store.get(&users, &id).map(Value::as_str), Some("Alice"));
}

#[test]
fn a_failed_transaction_restores_overwritten_and_removed_values() {
    let mut store = Store::new();
    let users = Bucket::parse("users").unwrap();
    let alice = Key::parse("42").unwrap();
    let bob = Key::parse("43").unwrap();
    store.insert(&users, &alice, Value::new("Alice"));
    store.insert(&users, &bob, Value::new("Bob"));

    let outcome = store.transaction(|txn| {
        txn.insert(&users, &alice, Value::new("Mallory"));
        txn.remove(&users, &bob);
        txn.insert(&users, &alice, Value::new("Eve"));
        Err::<(), _>("no")
    });

    assert_eq!(outcome, Err("no"));
    assert_eq!(store.get(&users, &alice).map(Value::as_str), Some("Alice"));
    assert_eq!(store.get(&users, &bob).map(Value::as_str), Some("Bob"));
}

#[test]
fn a_failed_transaction_leaves_the_bucket_it_created_empty() {
    let mut store = Store::new();
    let users = Bucket::parse("users").unwrap();
    let id = Key::parse("42").unwrap();

    let outcome = store.transaction(|txn| {
        txn.insert(&users, &id, Value::new("Alice"));
        Err::<(), _>("no")
    });

    assert_eq!(outcome, Err("no"));
    assert_eq!(store.get(&users, &id).map(Value::as_str), None);
    let listed: Vec<&str> = store.buckets().map(Bucket::as_str).collect();
    assert_eq!(listed, vec!["users"]);
}

#[test]
fn a_transaction_dropped_undecided_is_rolled_back_without_a_panic() {
    let mut store = Store::new();
    let users = Bucket::parse("users").unwrap();
    let id = Key::parse("42").unwrap();
    store.insert(&users, &id, Value::new("Alice"));

    {
        let mut txn = store.begin();
        txn.insert(&users, &id, Value::new("Bob"));
        txn.remove(&users, &id);
    }

    assert_eq!(store.get(&users, &id).map(Value::as_str), Some("Alice"));
}
