//! A single-user, single-file database engine for a fixed `users` schema.
//!
//! The engine keeps rows in a single B-tree leaf page managed by a pager that
//! caches fixed-size pages of a backing heap file.  The file itself is read
//! and written by the embedding program; this crate works on the file's bytes
//! and proves what the storage layer does with them: how rows are serialized
//! into cells, how the leaf page and the page cache evolve under inserts, and
//! that the image flushed at shutdown reopens to exactly the same rows.

pub mod btree;
pub mod byteops;
pub mod constants;
pub mod pager;
pub mod repl;
pub mod table;
pub mod virtual_machine;
