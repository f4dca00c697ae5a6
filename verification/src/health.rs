//! The health snapshot both transports report.

use vstd::prelude::*;

verus! {

/// A point-in-time server status record, decoded from the JSON body of a
/// health reply. Purely descriptive; never mutated after construction.
/// All fields are integers except the status text.
#[derive(Debug)]
pub struct Health {
    /// The server's status text.
    pub status: String,
    /// Seconds since the server started.
    pub uptime_seconds: i64,
    /// Number of items the cache holds.
    pub cache_items: i64,
    /// Size of the cache, in megabytes.
    pub cache_size_mb: i64,
    /// Size of the backing storage, in megabytes.
    pub storage_size_mb: i64,
    /// The server's count of concurrent workers.
    pub goroutines: i32,
    /// Memory in use, in megabytes.
    pub memory_mb: i64,
}

} // verus!
