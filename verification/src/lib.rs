//! Client-side logic for a remote key-value store that speaks two
//! equivalent protocols: a length-prefixed binary framing over a raw
//! stream, and an HTTP convention with JSON for health reports.
//!
//! This crate holds the decision layer of both clients: request frame
//! construction (including the optional authentication frame), response
//! frame decoding and validation, HTTP status interpretation, and the
//! aggregation policy of the concurrent batch operations. All transport
//! I/O is the caller's concern: the functions here turn plain values
//! (keys, values, delivered bytes, status codes) into plain values.

pub mod binary;
pub mod error;
pub mod frame;
pub mod health;
pub mod http;

pub use binary::MiniVaultBinary;
pub use binary::RequestPlan;
pub use error::VaultError;
pub use health::Health;
pub use http::MiniVault;
