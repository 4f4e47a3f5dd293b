use minidb::api_design_intro::Store;

#[test]
fn everything_works_and_nothing_reads_well() {
    let mut store = Store::make_store();

    assert_eq!(store.set_value("users", "42", "Alice"), None);
    assert_eq!(store.get_value("users", "42"), Some("Alice"));
    assert!(store.is_has_bucket("users"));
    assert_eq!(store.get_count(), 1);
    assert_eq!(store.as_map()["users"]["42"], "Alice");
    assert_eq!(store.delete("users", "42").as_deref(), Some("Alice"));
}

#[test]
fn delete_leaves_the_emptied_bucket_behind() {
    let mut store = Store::make_store();
    store.set_value("users", "42", "Alice");

    assert_eq!(store.delete("users", "42").as_deref(), Some("Alice"));
    assert_eq!(store.delete("users", "42"), None);
    assert!(store.is_has_bucket("users"));
    assert_eq!(store.get_count(), 0);
    assert!(store.as_map()["users"].is_empty());
}
