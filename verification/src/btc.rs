//! The Bitcoin-style protocol: the frame codec and the Version/Verack
//! handshake state machine.

pub mod codec;
pub mod stream;

use vstd::prelude::*;

use crate::btc::codec::NetAddress;

verus! {

/// Per-run parameters of one Bitcoin handshake attempt: the peer to dial,
/// the timeout in milliseconds, and the user-agent the Version message
/// announces.
#[derive(Clone, Debug, PartialEq, Eq)]
pub struct Config {
    pub node_address: NetAddress,
    pub timeout: u64,
    pub user_agent: Vec<u8>,
}

} // verus!
