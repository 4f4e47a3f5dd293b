use minidb::welcome::ready;

#[test]
fn starting_block() {
    assert!(ready(), "Make `ready` return `true` and run `wr` again.");
}
