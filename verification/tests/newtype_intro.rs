use minidb::newtype_intro::Store;

#[test]
fn insert_and_get() {
    let mut store = Store::new();
    store.insert("users", "42", "Alice");

    assert_eq!(store.get("users", "42"), Some("Alice"));
    assert_eq!(store.remove("users", "42").as_deref(), Some("Alice"));
    assert_eq!(store.get("users", "42"), None);
}

#[test]
fn swapping_the_arguments_compiles_and_lies() {
    let mut store = Store::new();
    store.insert("users", "42", "Alice");

    assert_eq!(store.get("42", "users"), None);
}

#[test]
fn removing_what_is_not_there_returns_nothing() {
    let mut store = Store::new();

    assert_eq!(store.remove("users", "42"), None);
    store.insert("users", "42", "Alice");
    assert_eq!(store.remove("users", "43"), None);
    assert_eq!(store.get("users", "42"), Some("Alice"));
}
