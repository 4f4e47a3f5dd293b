use minidb::newtype_encapsulation::{Bucket, Key, NameError, Store, MAX_NAME_LENGTH};

#[test]
fn as_str_borrows_the_name() {
    let bucket = Bucket::parse("users").unwrap();
    let key = Key::parse("users/42").unwrap();

    assert_eq!(bucket.as_str(), "users");
    assert_eq!(key.as_str(), "users/42");
}

#[test]
fn into_inner_gives_the_name_back() {
    let bucket = Bucket::parse("users").unwrap();
    let key = Key::parse("users/42").unwrap();

    assert_eq!(bucket.into_inner(), "users".to_owned());
    assert_eq!(key.into_inner(), "users/42".to_owned());
}

#[test]
fn valid_names_are_accepted() {
    assert!(Bucket::parse("users").is_ok());
    assert!(Key::parse("users/42").is_ok());
    assert!(Key::parse("a-b_c.d/e9").is_ok());
    assert!(Key::parse(&"x".repeat(MAX_NAME_LENGTH)).is_ok());
}

#[test]
fn invalid_names_are_rejected() {
    assert_eq!(Key::parse("").err(), Some(NameError::Empty));
    assert_eq!(
        Key::parse(&"x".repeat(MAX_NAME_LENGTH + 1)).err(),
        Some(NameError::TooLong {
            length: MAX_NAME_LENGTH + 1
        })
    );
    assert_eq!(
        Key::parse("user 42").err(),
        Some(NameError::InvalidCharacter {
            character: ' ',
            index: 4
        })
    );
}

#[test]
fn parsed_names_still_work_as_names() {
    let mut store = Store::new();
    let users = Bucket::parse("users").unwrap();
    let id = Key::parse("42").unwrap();

    store.insert(&users, &id, "Alice");

    assert_eq!(store.get(&users, &id), Some("Alice"));
}

#[test]
fn every_allowed_character_is_accepted() {
    let all = "abcdefghijklmnopqrstuvwxyzABCDEFGHIJKLMNOPQRSTUVWXYZ0123456789-_./";

    assert!(Key::parse(&all[..MAX_NAME_LENGTH]).is_ok());
    assert!(Bucket::parse(&all[MAX_NAME_LENGTH..]).is_ok());
    assert_eq!(
        Key::parse("a:b").err(),
        Some(NameError::InvalidCharacter {
            character: ':',
            index: 1
        })
    );
}
