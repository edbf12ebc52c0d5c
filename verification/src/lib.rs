//! Small Rust programs with verified logic: a RESP key-value server (its
//! wire format, store and commands), a sharded key-value database, a URL
//! shortener, and exercises on the language's features.
use vstd::prelude::*;

pub mod basic;
pub mod book;
pub mod keyed;
pub mod modules;
pub mod shard_db;
pub mod text;
pub mod trusted;
pub mod url_shortener;

pub use basic::{deserialize_array, deserialize_bulk_string, deserialize_flat_command, Types};
