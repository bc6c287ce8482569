//! The RLPx-style protocol: the logical-message codec over an established
//! encrypted transport, and the Hello/Disconnect handshake evaluation.

pub mod messages;
pub mod rlp;
pub mod stream;
pub mod utils;

use vstd::prelude::*;

verus! {

/// A peer target: its address and port, and the public-key identifier that
/// the encrypted channel is validated against.
#[derive(Clone, Debug, PartialEq, Eq)]
pub struct PeerRecord {
    pub ip: [u8; 16],
    pub port: u16,
    pub id: Vec<u8>,
}

/// Per-run parameters of one RLPx handshake attempt.
#[derive(Clone, Debug, PartialEq, Eq)]
pub struct Config {
    pub timeout: u64,
    pub peer: PeerRecord,
}

} // verus!
