use minidb::polymorphism_format::{Bucket, Csv, Format, Ini, Key, Store, Value};

fn populated() -> Store {
    let mut store = Store::new();
    store.insert(
        Bucket::parse("users").unwrap(),
        Key::parse("42").unwrap(),
        Value::new("Alice"),
    );
    store.insert(
        Bucket::parse("orders").unwrap(),
        Key::parse("1").unwrap(),
        Value::new("a book"),
    );
    store
}

#[test]
fn the_generic_version_renders_both_formats() {
    let store = populated();

    assert_eq!(
        store.export_with(Ini::default()),
        "[orders]\n1 = a book\n[users]\n42 = Alice\n"
    );
    assert_eq!(
        store.export_with(Csv::default()),
        "orders,1,a book\nusers,42,Alice\n"
    );
}

#[test]
fn the_dyn_version_renders_both_formats() {
    let store = populated();
    let mut ini = Ini::default();
    let mut csv = Csv::default();

    assert_eq!(
        store.export_into(&mut ini),
        "[orders]\n1 = a book\n[users]\n42 = Alice\n"
    );
    assert_eq!(
        store.export_into(&mut csv),
        "orders,1,a book\nusers,42,Alice\n"
    );
}

#[test]
fn export_still_means_ini() {
    assert_eq!(
        populated().export(),
        populated().export_with(Ini::default())
    );
}

#[test]
fn a_format_can_be_stored_behind_a_pointer() {
    let mut boxed: Box<dyn Format> = Box::new(Csv::default());
    boxed.bucket(&Bucket::parse("users").unwrap());
    boxed.entry(&Key::parse("42").unwrap(), &Value::new("Alice"));

    assert_eq!(boxed.finish(), "users,42,Alice\n");
}

#[test]
fn an_empty_store_renders_to_nothing() {
    assert_eq!(Store::new().export_with(Csv::default()), "");
}

#[test]
fn formats_can_be_mixed_behind_pointers() {
    let users = Bucket::parse("users").unwrap();
    let id = Key::parse("42").unwrap();

    let mut formats: Vec<Box<dyn Format>> = vec![Box::new(Ini::default()), Box::new(Csv::default())];

    for format in &mut formats {
        format.bucket(&users);
        format.entry(&id, &Value::new("Alice"));
    }

    let rendered = formats.iter_mut().map(|f| f.finish()).collect::<Vec<_>>();

    assert_eq!(rendered, ["[users]\n42 = Alice\n", "users,42,Alice\n"]);
}

#[test]
fn finishing_leaves_the_format_empty() {
    let store = populated();
    let mut csv = Csv::default();

    csv.entry(&Key::parse("0").unwrap(), &Value::new("stray"));
    assert_eq!(csv.finish(), ",0,stray\n");
    assert_eq!(csv.finish(), "");

    csv.bucket(&Bucket::parse("first").unwrap());
    assert_eq!(store.export_into(&mut csv), "orders,1,a book\nusers,42,Alice\n");
    assert_eq!(csv.finish(), "");
}

#[test]
fn a_format_fed_before_the_export_keeps_what_it_was_fed() {
    let store = populated();
    let mut ini = Ini::default();
    ini.bucket(&Bucket::parse("zzz").unwrap());

    assert_eq!(
        store.export_into(&mut ini),
        "[zzz]\n[orders]\n1 = a book\n[users]\n42 = Alice\n"
    );
}
