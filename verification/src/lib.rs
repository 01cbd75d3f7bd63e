//! Incrementally tails an append-only, timestamp-ordered event log,
//! transforms each record into a normalized schema, and hands it to an
//! emission sink, without re-delivering an already-seen record.
//!
//! The verified core is the extraction cycle: watermark (cursor) tracking,
//! the fetch/transform cycle over a modelled store, the query text built for
//! the backing store, and the idle-backoff state machine. I/O collaborators
//! (the embedded query engine, configuration files, the console sink) live
//! outside the library and exchange plain values with it.

pub mod config;
pub mod errors;
pub mod query;
pub mod record;
pub mod store;
pub mod tail;

use vstd::prelude::*;

verus! {

/// Seconds the loop waits after a cycle, and while backing off when a cycle
/// found no new records.
pub const POLL_INTERVAL_SECS: u64 = 10;

} // verus!
