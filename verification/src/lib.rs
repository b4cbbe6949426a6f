//! A SQLite-dialect database adapter core for Cloudflare's D1 service.
//!
//! The host database is reachable only through an asynchronous, dynamically
//! typed binding: values cross the boundary as loosely typed scalars rather
//! than fixed-width binary. This crate holds the pure core of the adapter:
//! the value codec, the SQL text builder with its dialect rules, the bind
//! collector, the row/field accessor and the transaction emulator. The
//! asynchronous host calls themselves live outside this crate; they hand the
//! core plain values and take plain values back.

pub mod backend;
pub mod bind_collector;
pub mod connection;
pub mod date_and_time;
pub mod julian;
pub mod laws;
pub mod limit_offset;
pub mod query_builder;
pub mod row;
pub mod statement;
pub mod transaction_manager;
pub mod types;
pub mod utils;
pub mod value;

use vstd::prelude::*;

verus! {

} // verus!
