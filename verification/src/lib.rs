//! `minidb`, a small embedded key-value store partitioned into named buckets.
//!
//! The first modules are the store's machinery: how names are compared and checked, the tables and
//! buckets values live in, the undo log and sessions behind transactions, and the export formats.
//! The remaining modules are the store's public API in each of the shapes it takes, from plain
//! string arguments to parsed names, owned keys, transactions with a typed access state, and
//! pluggable export formats.
pub mod text;
pub mod names;
pub mod table;
pub mod buckets;
pub mod values;
pub mod journal;
pub mod session;
pub mod plain;
pub mod document;
mod sealed;
pub mod access;
pub mod writer;
pub mod format;
pub mod export;
pub mod iter_ext;

pub mod welcome;
pub mod api_design_intro;
pub mod api_design_naming;
pub mod api_design_doc_comments;
pub mod newtype_intro;
pub mod newtype_semantic_confusion;
pub mod newtype_parse_dont_validate;
pub mod newtype_encapsulation;
pub mod common_traits_intro;
pub mod common_traits_debug;
pub mod common_traits_hash_eq;
pub mod borrowing_intro;
pub mod borrowing_retain;
pub mod borrowing_ownership;
pub mod raii_closure_api;
pub mod borrow_checker_ownership;
pub mod raii_intro;
pub mod raii_drop_guard;
pub mod typestate_transaction;
pub mod typestate_writer;
pub mod extension_traits_iter_ext;
pub mod polymorphism_format;
pub mod polymorphism_sealed;
