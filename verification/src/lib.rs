//! Diagnostic peer-to-peer handshakes for two wire protocols: a Bitcoin-style
//! plaintext Version/Verack exchange and an RLPx-style encrypted Hello
//! exchange. The library holds the message codec, the two handshake state
//! machines and the per-peer outcome model; network I/O is left to the caller.

pub mod btc;
pub mod error;
pub mod eth;
pub mod report;
pub mod wire;

use vstd::prelude::*;

verus! {

/// Maximum size in bytes of an uncompressed RLPx message payload.
pub const MAX_PAYLOAD_SIZE: usize = 16 * 1024 * 1024;

/// Default time in milliseconds to wait before a handshake is timed out.
pub const HANDSHAKE_TIMEOUT: u64 = 1000;

} // verus!
