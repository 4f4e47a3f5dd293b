use minidb::api_design_doc_comments::Store;

#[test]
fn the_store_still_works() {
    let mut store = Store::new();
    store.insert("users", "42", "Alice");

    assert_eq!(store.get("users", "42"), Some("Alice"));
    assert_eq!(store.get("users", "43"), None);
    assert_eq!(store.get("orders", "42"), None);
    assert_eq!(store.len(), 1);
    assert!(store.contains_bucket("users"));
}

#[test]
fn an_unknown_key_is_none_not_empty() {
    let store = Store::new();

    assert_eq!(store.get("users", "42"), None);
    assert!(store.is_empty());
}

#[test]
fn inserting_twice_returns_the_first_value() {
    let mut store = Store::new();

    assert_eq!(store.insert("users", "42", "Alice"), None);
    assert_eq!(store.insert("users", "42", "Bob").as_deref(), Some("Alice"));
    assert_eq!(store.to_map()["users"]["42"], "Bob");
}
