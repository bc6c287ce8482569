use p2p_handshake::eth::messages::{
    encode_rlpx_message, Capability, DisconnectReason, HelloMessage, RlpxMessage,
};
use p2p_handshake::eth::stream::{
    evaluate_first_message, rlpx_handshake_step, FirstMessageOutcome, P2PStream, RlpxAction,
    RlpxError,
};
use p2p_handshake::MAX_PAYLOAD_SIZE;

fn sample_hello() -> HelloMessage {
    HelloMessage {
        protocol_version: 5,
        client_version: b"diagnostic/0.1.0".to_vec(),
        capabilities: vec![Capability { name: b"eth".to_vec(), version: 68 }],
        port: 30303,
        id: vec![0x11; 64],
    }
}

fn frame_of(msg: &RlpxMessage) -> FirstMessageOutcome {
    let mut wire: Vec<u8> = Vec::new();
    encode_rlpx_message(msg, &mut wire);
    FirstMessageOutcome::Frame(wire)
}

#[test]
fn hello_reply_completes_and_disconnects_gracefully() {
    // A peer that answers with a Hello within the timeout: the handshake
    // succeeds and the driver is told to send Disconnect(ClientQuitting).
    let hello = sample_hello();
    let (outcome, action) = rlpx_handshake_step(&frame_of(&RlpxMessage::Hello(hello.clone())));
    assert_eq!(outcome, Ok(hello));
    assert_eq!(
        action,
        RlpxAction::SendDisconnect(DisconnectReason::ClientQuitting)
    );
}

#[test]
fn peer_disconnect_fails_with_its_reason() {
    let (outcome, action) =
        rlpx_handshake_step(&frame_of(&RlpxMessage::Disconnect(DisconnectReason::UselessPeer)));
    assert_eq!(
        outcome,
        Err(RlpxError::Disconnected(DisconnectReason::UselessPeer))
    );
    assert_eq!(action, RlpxAction::DoNothing);
}

#[test]
fn timeout_fails_with_timeout_error() {
    let (outcome, action) = rlpx_handshake_step(&FirstMessageOutcome::TimedOut);
    assert_eq!(outcome, Err(RlpxError::Timeout));
    assert_eq!(action, RlpxAction::DoNothing);
}

#[test]
fn closed_stream_fails_with_no_response() {
    assert_eq!(
        evaluate_first_message(&FirstMessageOutcome::StreamClosed),
        Err(RlpxError::NoResponse)
    );
}

#[test]
fn transport_fault_fails_with_io() {
    assert_eq!(
        evaluate_first_message(&FirstMessageOutcome::TransportFailed),
        Err(RlpxError::Io)
    );
}

#[test]
fn oversized_message_reports_both_sizes() {
    let big = vec![0u8; MAX_PAYLOAD_SIZE + 1];
    assert_eq!(
        evaluate_first_message(&FirstMessageOutcome::Frame(big)),
        Err(RlpxError::MessageTooBig {
            message_size: MAX_PAYLOAD_SIZE + 1,
            max_size: MAX_PAYLOAD_SIZE,
        })
    );
}

#[test]
fn ping_first_is_a_protocol_violation() {
    assert_eq!(
        evaluate_first_message(&frame_of(&RlpxMessage::Ping)),
        Err(RlpxError::NonHelloMessage)
    );
}

#[test]
fn garbage_first_is_a_decode_error() {
    assert_eq!(
        evaluate_first_message(&FirstMessageOutcome::Frame(vec![0x42, 0x13, 0x37])),
        Err(RlpxError::DecodeError)
    );
}

#[test]
fn stream_wrapper_hands_back_its_inner() {
    let stream = P2PStream::new(vec![1u8, 2, 3]);
    assert_eq!(stream.into_inner(), vec![1u8, 2, 3]);
}

#[test]
fn built_hello_round_trips_through_evaluation() {
    let hello = p2p_handshake::eth::utils::create_hello_msg(vec![0x42; 64]);
    assert_eq!(hello.protocol_version, 5);
    assert_eq!(hello.client_version, b"p2p-handshake/0.1.0".to_vec());
    assert_eq!(hello.capabilities.len(), 1);
    assert_eq!(hello.capabilities[0].name, b"eth".to_vec());
    assert_eq!(hello.capabilities[0].version, 68);
    assert_eq!(hello.port, 0);
    let (outcome, action) = rlpx_handshake_step(&frame_of(&RlpxMessage::Hello(hello.clone())));
    assert_eq!(outcome, Ok(hello));
    assert_eq!(
        action,
        RlpxAction::SendDisconnect(DisconnectReason::ClientQuitting)
    );
}
