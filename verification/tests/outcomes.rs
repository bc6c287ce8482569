use p2p_handshake::error::{
    p2p_error_of_decode, p2p_error_of_rlpx, DisconnectCause, P2PError, P2PHandshake,
    ProtocolViolation,
};
use p2p_handshake::btc::codec::DecodeError;
use p2p_handshake::eth::messages::DisconnectReason;
use p2p_handshake::eth::stream::RlpxError;
use p2p_handshake::report::{summarize, HandshakeOutcome};

#[test]
fn rlpx_failures_map_into_the_shared_taxonomy() {
    assert_eq!(p2p_error_of_rlpx(RlpxError::Timeout), P2PError::TimeoutError);
    assert_eq!(
        p2p_error_of_rlpx(RlpxError::NoResponse),
        P2PError::PeerDisconnected(DisconnectCause::ConnectionClosed)
    );
    assert_eq!(p2p_error_of_rlpx(RlpxError::Io), P2PError::TransportError);
    assert_eq!(
        p2p_error_of_rlpx(RlpxError::MessageTooBig { message_size: 20, max_size: 10 }),
        P2PError::ProtocolError(ProtocolViolation::MessageTooBig {
            message_size: 20,
            max_size: 10,
        })
    );
    assert_eq!(
        p2p_error_of_rlpx(RlpxError::DecodeError),
        P2PError::ProtocolError(ProtocolViolation::MalformedMessage)
    );
    assert_eq!(
        p2p_error_of_rlpx(RlpxError::NonHelloMessage),
        P2PError::ProtocolError(ProtocolViolation::UnexpectedMessage)
    );
    assert_eq!(
        p2p_error_of_rlpx(RlpxError::Disconnected(DisconnectReason::TooManyPeers)),
        P2PError::PeerDisconnected(DisconnectCause::WithReason(DisconnectReason::TooManyPeers))
    );
    assert_eq!(
        p2p_error_of_decode(DecodeError::ChecksumMismatch),
        P2PError::ProtocolError(ProtocolViolation::MalformedFrame(DecodeError::ChecksumMismatch))
    );
}

#[test]
fn failures_carry_the_peer_address_and_a_cause() {
    let tagged = P2PHandshake::new(P2PError::TimeoutError, "10.0.0.7:8333".to_string());
    assert_eq!(tagged.address, "10.0.0.7:8333");
    assert_eq!(tagged.message, "timed out");
    assert_eq!(P2PError::ConnectionError.describe(), "connection failed");
    assert_eq!(P2PError::TransportError.describe(), "transport failed");
}

#[test]
fn batch_of_three_reports_each_peer_independently() {
    // One unreachable peer, one that timed out, one that succeeded: three
    // distinct outcomes, each reported from its own result alone.
    let outcomes = vec![
        HandshakeOutcome::Failure(P2PHandshake::new(
            P2PError::ConnectionError,
            "10.0.0.1:8333".to_string(),
        )),
        HandshakeOutcome::Failure(P2PHandshake::new(
            P2PError::TimeoutError,
            "10.0.0.2:8333".to_string(),
        )),
        HandshakeOutcome::Success("10.0.0.3:8333".to_string()),
    ];
    assert!(!outcomes[0].is_success());
    assert!(!outcomes[1].is_success());
    assert!(outcomes[2].is_success());
    let report = summarize(&outcomes);
    assert_eq!(report.len(), 3);
    assert_eq!(report[0], "[failed] [10.0.0.1:8333] error: connection failed");
    assert_eq!(report[1], "[failed] [10.0.0.2:8333] error: timed out");
    assert_eq!(report[2], "[successful] [10.0.0.3:8333]");
}

#[test]
fn run_parameters_hold_their_fields() {
    let btc = p2p_handshake::btc::Config {
        node_address: p2p_handshake::btc::codec::NetAddress {
            services: 0,
            ip: [0; 16],
            port: 8333,
        },
        timeout: p2p_handshake::HANDSHAKE_TIMEOUT,
        user_agent: b"/Satoshi:25.0.0/".to_vec(),
    };
    assert_eq!(btc.timeout, 1000);
    let eth = p2p_handshake::eth::Config {
        timeout: 500,
        peer: p2p_handshake::eth::PeerRecord { ip: [0; 16], port: 30303, id: vec![0x11; 64] },
    };
    assert_eq!(eth.peer.port, 30303);
    assert_eq!(eth.peer.id.len(), 64);
}
