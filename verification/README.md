# minidb

A small in-memory key-value store, partitioned into named buckets, written in Verus. Every
function of the library carries a contract that Verus proves; nothing is taken on trust.

A borrowing transaction keeps its changes back until it is committed, so it needs no `Drop`: one
that is dropped while undecided leaves every value of the store as it was. That rollback is silent.
A forgotten decision does not panic and is not reported anywhere; the laws named
`law_dropped_transaction_changes_nothing` state what the store holds afterwards.

## Layout

- `src/text.rs`, `src/names.rs`: how names are ordered and measured, and the naming rules
  (`NameError`, `Bucket`, `Key`, which can only hold valid names).
- `src/table.rs`, `src/buckets.rs`: the storage, a table of buckets each holding a table of values,
  viewed as a map from bucket names to maps from keys to values; the laws of `insert`, `remove` and
  `retain` over that view.
- `src/values.rs`: `Value`, and its redacted rendering.
- `src/journal.rs`, `src/session.rs`: the changes a transaction makes and what they do to a store;
  the undo log of the transaction that applies its changes at once, with the law that replaying it
  restores the store; and the session every other borrowing transaction runs on, which keeps its
  changes back until the commit.
- `src/document.rs`, `src/writer.rs`, `src/format.rs`, `src/export.rs`: what an export is made of,
  the typestate `Writer`, the `Format` trait with `Ini` and `Csv`, and the sorted walk over a store.
- `src/plain.rs`: copying a store of plain strings into standard `HashMap`s.
- The other modules are the store's API in each of its shapes, from `api_design_intro` (plain string
  arguments) to `polymorphism_sealed` (owned names, transactions with sealed access states, and
  pluggable export formats).
- `src/iter_ext.rs`: `IteratorExt::collect_sorted`, which always returns exactly the items an
  iterator yields, sorted whenever the items' `Ord` is a total order.
