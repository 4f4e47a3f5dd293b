use minidb::common_traits_debug::{Bucket, Key, Store, Value};

#[test]
fn names_are_shown_in_full() {
    let bucket = Bucket::parse("users").unwrap();
    let key = Key::parse("users/42").unwrap();

    assert_eq!(format!("{bucket:?}"), r#"Bucket("users")"#);
    assert_eq!(format!("{key:?}"), r#"Key("users/42")"#);
}

#[test]
fn values_are_redacted() {
    let value = Value::new("hunter2");

    assert_eq!(value.redacted(), "Value(<redacted, 7 bytes>)");
}

#[test]
fn redaction_survives_being_nested_in_something_else() {
    let mut store = Store::new();
    let users = Bucket::parse("users").unwrap();
    let id = Key::parse("42").unwrap();
    store.insert(&users, &id, Value::new("s3cret token"));

    let rendered = format!("{:?}", store.get(&users, &id).map(Value::redacted));

    assert!(!rendered.contains("s3cret"));
    assert!(rendered.contains("12 bytes"));
}

#[test]
fn redaction_counts_bytes_not_characters() {
    assert_eq!(Value::new("").redacted(), "Value(<redacted, 0 bytes>)");
    assert_eq!(Value::new("caf\u{e9}").redacted(), "Value(<redacted, 5 bytes>)");
    assert_eq!(
        Value::new(&"x".repeat(1234)).redacted(),
        "Value(<redacted, 1234 bytes>)"
    );
}

#[test]
fn values_can_be_unwrapped() {
    let mut store = Store::new();
    let users = Bucket::parse("users").unwrap();
    let id = Key::parse("42").unwrap();

    assert!(store.insert(&users, &id, Value::new("Alice")).is_none());
    let previous = store.insert(&users, &id, Value::new("Bob"));

    assert_eq!(previous.map(Value::into_inner).as_deref(), Some("Alice"));
    assert_eq!(store.get(&users, &id).map(Value::as_str), Some("Bob"));
}
