//! A local URL-shortening library: deterministic hashing of long URLs to
//! short codes over a fixed alphabet, a line-oriented record format for the
//! stored entries, and a persistence capability with an in-memory backend and
//! a file-backed backend that mirrors an append-only log in a read cache.

pub mod codec;
pub mod ops;
pub mod persistence;
pub mod strutil;
pub mod url_entry;
