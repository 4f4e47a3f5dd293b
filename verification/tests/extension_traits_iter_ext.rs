use minidb::extension_traits_iter_ext::IteratorExt;
use minidb::extension_traits_iter_ext::{Bucket, Key, Store, Value};

#[test]
fn the_store_still_exports_in_order() {
    let mut store = Store::new();
    store.insert(
        Bucket::parse("users").unwrap(),
        Key::parse("42").unwrap(),
        Value::new("Alice"),
    );
    store.insert(
        Bucket::parse("orders").unwrap(),
        Key::parse("1").unwrap(),
        Value::new("a book"),
    );

    assert_eq!(store.export(), "[orders]\n1 = a book\n[users]\n42 = Alice\n");
    assert_eq!(store.buckets().count(), 2);
}

#[test]
fn buckets_come_out_sorted() {
    let mut store = Store::new();
    store.insert(
        Bucket::parse("users").unwrap(),
        Key::parse("42").unwrap(),
        Value::new("Alice"),
    );
    store.insert(
        Bucket::parse("orders").unwrap(),
        Key::parse("1").unwrap(),
        Value::new("a book"),
    );

    let sorted = store.buckets().cloned().collect_sorted();
    let names = sorted.iter().map(Bucket::as_str).collect::<Vec<_>>();

    assert_eq!(names, ["orders", "users"]);
}

#[test]
fn it_works_on_anything_that_iterates() {
    assert_eq!([3, 1, 2].into_iter().collect_sorted(), [1, 2, 3]);
    assert_eq!(vec!["b", "a"].into_iter().collect_sorted(), ["a", "b"]);
    assert_eq!((0..0).collect_sorted(), Vec::<i32>::new());
}

#[test]
fn sorting_keeps_every_item_and_duplicates() {
    assert_eq!(
        vec![5, 3, 5, 1, 3, 9, 0].into_iter().collect_sorted(),
        [0, 1, 3, 3, 5, 5, 9]
    );
    assert_eq!((1..4).rev().collect_sorted(), [1, 2, 3]);
    assert_eq!(
        vec![(2, 'b'), (1, 'z'), (2, 'a')].into_iter().collect_sorted(),
        [(1, 'z'), (2, 'a'), (2, 'b')]
    );
}
