//! The shared per-peer failure taxonomy. Both protocol variants report their
//! failures through `P2PError`, so the orchestrator can tag any failure with
//! the peer's address and report it uniformly.

use vstd::prelude::*;

use crate::btc::codec::DecodeError;
use crate::eth::messages::DisconnectReason;
use crate::eth::stream::RlpxError;

verus! {

/// How a protocol was violated.
#[derive(Clone, Copy, Debug, PartialEq, Eq, Structural)]
pub enum ProtocolViolation {
    /// A message above the payload-size limit, with the observed size and the
    /// limit.
    MessageTooBig { message_size: usize, max_size: usize },
    /// A first message that did not decode.
    MalformedMessage,
    /// A decoded message of a kind the handshake does not allow.
    UnexpectedMessage,
    /// A malformed frame, as the codec reported it.
    MalformedFrame(DecodeError),
}

/// Why the peer is gone.
#[derive(Clone, Copy, Debug, PartialEq, Eq, Structural)]
pub enum DisconnectCause {
    /// The peer ended the handshake explicitly, with its reason.
    WithReason(DisconnectReason),
    /// The connection closed before the handshake finished.
    ConnectionClosed,
}

/// One peer's failure, in the taxonomy both protocols share.
#[derive(Clone, Copy, Debug, PartialEq, Eq, Structural)]
pub enum P2PError {
    /// The TCP connection could not be established.
    ConnectionError,
    /// No response within the configured bound.
    TimeoutError,
    /// Secure-channel establishment or mid-handshake I/O failed.
    TransportError,
    /// A malformed, oversized or out-of-sequence message.
    ProtocolError(ProtocolViolation),
    /// The peer ended the handshake.
    PeerDisconnected(DisconnectCause),
}

/// Where each RLPx failure lands in the shared taxonomy.
pub open spec fn p2p_error_of_rlpx_spec(e: RlpxError) -> P2PError {
    match e {
        RlpxError::Timeout => P2PError::TimeoutError,
        RlpxError::NoResponse => P2PError::PeerDisconnected(DisconnectCause::ConnectionClosed),
        RlpxError::MessageTooBig { message_size, max_size } => P2PError::ProtocolError(
            ProtocolViolation::MessageTooBig { message_size, max_size },
        ),
        RlpxError::DecodeError => P2PError::ProtocolError(ProtocolViolation::MalformedMessage),
        RlpxError::NonHelloMessage => P2PError::ProtocolError(ProtocolViolation::UnexpectedMessage),
        RlpxError::Disconnected(r) => P2PError::PeerDisconnected(DisconnectCause::WithReason(r)),
        RlpxError::Io => P2PError::TransportError,
    }
}

/// Maps an RLPx failure into the shared taxonomy.
pub fn p2p_error_of_rlpx(e: RlpxError) -> (r: P2PError)
    ensures
        r == p2p_error_of_rlpx_spec(e),
{
    match e {
        RlpxError::Timeout => P2PError::TimeoutError,
        RlpxError::NoResponse => P2PError::PeerDisconnected(DisconnectCause::ConnectionClosed),
        RlpxError::MessageTooBig { message_size, max_size } => P2PError::ProtocolError(
            ProtocolViolation::MessageTooBig { message_size, max_size },
        ),
        RlpxError::DecodeError => P2PError::ProtocolError(ProtocolViolation::MalformedMessage),
        RlpxError::NonHelloMessage => P2PError::ProtocolError(ProtocolViolation::UnexpectedMessage),
        RlpxError::Disconnected(r) => P2PError::PeerDisconnected(DisconnectCause::WithReason(r)),
        RlpxError::Io => P2PError::TransportError,
    }
}

/// Maps a frame decode failure into the shared taxonomy.
pub fn p2p_error_of_decode(e: DecodeError) -> (r: P2PError)
    ensures
        r == P2PError::ProtocolError(ProtocolViolation::MalformedFrame(e)),
{
    P2PError::ProtocolError(ProtocolViolation::MalformedFrame(e))
}

/// The short human-readable phrase each failure kind reports.
pub open spec fn error_text(e: P2PError) -> Seq<char> {
    match e {
        P2PError::ConnectionError => "connection failed"@,
        P2PError::TimeoutError => "timed out"@,
        P2PError::TransportError => "transport failed"@,
        P2PError::ProtocolError(_) => "protocol violation"@,
        P2PError::PeerDisconnected(_) => "peer disconnected"@,
    }
}

impl P2PError {
    /// The short human-readable phrase for this failure.
    pub fn describe(&self) -> (r: String)
        ensures
            r@ == error_text(*self),
    {
        match self {
            P2PError::ConnectionError => String::from_str("connection failed"),
            P2PError::TimeoutError => String::from_str("timed out"),
            P2PError::TransportError => String::from_str("transport failed"),
            P2PError::ProtocolError(_) => String::from_str("protocol violation"),
            P2PError::PeerDisconnected(_) => String::from_str("peer disconnected"),
        }
    }
}

/// One peer's failed handshake: the failure's description tagged with the
/// peer's address, ready for the report.
#[derive(Clone, Debug, PartialEq, Eq)]
pub struct P2PHandshake {
    pub message: String,
    pub address: String,
}

impl P2PHandshake {
    /// Tags a failure with the peer it came from.
    pub fn new(err: P2PError, address: String) -> (r: Self)
        ensures
            r.message@ == error_text(err),
            r.address@ == address@,
    {
        P2PHandshake { message: err.describe(), address }
    }
}

} // verus!
