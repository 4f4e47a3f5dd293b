use minidb::api_design_naming::Store;

#[test]
fn insert_get_remove() {
    let mut store = Store::new();

    assert_eq!(store.insert("users", "42", "Alice"), None);
    assert_eq!(store.get("users", "42"), Some("Alice"));
    assert_eq!(store.insert("users", "42", "Bob").as_deref(), Some("Alice"));
    assert_eq!(store.remove("users", "42").as_deref(), Some("Bob"));
    assert_eq!(store.get("users", "42"), None);
}

#[test]
fn len_and_is_empty_agree() {
    let mut store = Store::new();
    assert!(store.is_empty());
    assert_eq!(store.len(), 0);

    store.insert("users", "42", "Alice");
    store.insert("orders", "1", "a book");

    assert!(!store.is_empty());
    assert_eq!(store.len(), 2);
}

#[test]
fn buckets_can_be_probed() {
    let mut store = Store::new();
    store.insert("users", "42", "Alice");

    assert!(store.contains_bucket("users"));
    assert!(!store.contains_bucket("orders"));
}

#[test]
fn to_map_copies() {
    let mut store = Store::new();
    store.insert("users", "42", "Alice");

    let map = store.to_map();

    assert_eq!(map["users"]["42"], "Alice");
}

#[test]
fn len_counts_values_not_buckets() {
    let mut store = Store::new();
    store.insert("users", "42", "Alice");
    store.insert("users", "43", "Bob");
    store.insert("users", "42", "Carol");
    store.insert("orders", "1", "a book");
    store.remove("orders", "1");

    assert_eq!(store.len(), 2);
    assert!(store.contains_bucket("orders"));
    assert!(!store.is_empty());

    store.remove("users", "42");
    store.remove("users", "43");

    assert!(store.is_empty());
    assert_eq!(store.to_map().len(), 2);
}

#[test]
fn to_map_is_a_copy() {
    let mut store = Store::new();
    store.insert("users", "42", "Alice");

    let map = store.to_map();
    store.insert("users", "42", "Bob");

    assert_eq!(map["users"]["42"], "Alice");
    assert_eq!(store.get("users", "42"), Some("Bob"));
}
