use minidb::newtype_parse_dont_validate::{Bucket, Key, NameError, Store, MAX_NAME_LENGTH};

#[test]
fn lib_valid_names_are_accepted() {
    assert!(Bucket::parse("users").is_ok());
    assert!(Key::parse("users/42").is_ok());
    assert!(Key::parse("a-b_c.d/e9").is_ok());
    assert!(Key::parse(&"x".repeat(MAX_NAME_LENGTH)).is_ok());
}

#[test]
fn empty_names_are_rejected() {
    assert_eq!(Bucket::parse("").err(), Some(NameError::Empty));
    assert_eq!(Key::parse("").err(), Some(NameError::Empty));
}

#[test]
fn long_names_are_rejected() {
    let raw = "x".repeat(MAX_NAME_LENGTH + 1);

    assert_eq!(
        Key::parse(&raw).err(),
        Some(NameError::TooLong {
            length: MAX_NAME_LENGTH + 1
        })
    );
}

#[test]
fn invalid_characters_are_rejected() {
    assert_eq!(
        Key::parse("user 42").err(),
        Some(NameError::InvalidCharacter {
            character: ' ',
            index: 4
        })
    );
    assert_eq!(
        Key::parse("caf\u{e9}").err(),
        Some(NameError::InvalidCharacter {
            character: '\u{e9}',
            index: 3
        })
    );
}

#[test]
fn the_first_violation_wins() {
    let raw = format!("{} ", "x".repeat(MAX_NAME_LENGTH));

    assert_eq!(
        Key::parse(&raw).err(),
        Some(NameError::TooLong {
            length: MAX_NAME_LENGTH + 1
        })
    );
}

#[test]
fn lib_parsed_names_still_work_as_names() {
    let mut store = Store::new();
    let users = Bucket::parse("users").unwrap();
    let id = Key::parse("42").unwrap();

    store.insert(&users, &id, "Alice");

    assert_eq!(store.get(&users, &id), Some("Alice"));
}

#[test]
fn length_is_counted_in_bytes() {
    let raw = "\u{e9}".repeat(MAX_NAME_LENGTH / 2 + 1);

    assert_eq!(
        Key::parse(&raw).err(),
        Some(NameError::TooLong {
            length: MAX_NAME_LENGTH + 2
        })
    );
    assert_eq!(
        Key::parse("ab\u{e9}c\u{e9}").err(),
        Some(NameError::InvalidCharacter {
            character: '\u{e9}',
            index: 2
        })
    );
}

#[test]
fn the_first_invalid_character_is_reported() {
    assert_eq!(
        Bucket::parse("a b!c").err(),
        Some(NameError::InvalidCharacter {
            character: ' ',
            index: 1
        })
    );
    assert_eq!(
        Bucket::parse("!").err(),
        Some(NameError::InvalidCharacter {
            character: '!',
            index: 0
        })
    );
    assert_eq!(Bucket::parse("users").unwrap().0, "users");
}
