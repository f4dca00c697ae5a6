//! The error kinds the client layer reports.

use vstd::prelude::*;

verus! {

/// Why a client operation failed.
///
/// - `Transport`: the connection failed, timed out, or delivered a
///   malformed or incomplete response frame. Never retried by this layer.
/// - `Server`: the server answered with a non-success status; the raw
///   status is carried for the caller to interpret. For the binary
///   protocol this is the one-byte frame status, for HTTP the response
///   status code.
/// - `Argument`: the request was rejected before any I/O was attempted
///   (a missing Set value, or a length the wire format cannot carry).
/// - `Decode`: the server answered, but the payload did not parse as the
///   requested typed value. Kept distinct from `Server` on purpose.
#[derive(Clone, Copy, Debug, PartialEq, Eq, Structural)]
pub enum VaultError {
    Transport,
    Server(u16),
    Argument,
    Decode,
}

} // verus!
