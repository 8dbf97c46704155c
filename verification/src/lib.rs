//! A small URL-bookmarking library: an append-only store of URL records
//! (each with an optional tag and a creation date), kept one serialized
//! record per line, plus the pure logic behind adding, listing and
//! reachability-checking the stored URLs.
//!
//! File and network I/O live outside this crate; everything here works on
//! plain values and is verified.

pub mod args;
pub mod check;
pub mod codec;
pub mod dates;
pub mod listing;
pub mod record;
pub mod store;
