use p2p_handshake::btc::codec::{NetAddress, NetworkMessage, VersionPayload};
use p2p_handshake::btc::stream::{
    btc_start, btc_step, BtcAction, BtcEvent, BtcHandshakeState, MessageStream,
};

fn version_message() -> NetworkMessage {
    NetworkMessage::Version(VersionPayload {
        version: 70001,
        services: 0,
        timestamp: 7,
        receiver: NetAddress { services: 0, ip: [0; 16], port: 8333 },
        sender: NetAddress { services: 0, ip: [0; 16], port: 0 },
        nonce: 7,
        user_agent: b"/Satoshi:25.0.0/".to_vec(),
        start_height: 0,
        relay: false,
    })
}

#[test]
fn verack_first_completes() {
    let s = btc_start();
    assert_eq!(s, BtcHandshakeState::VersionSent);
    let (s, a) = btc_step(s, &BtcEvent::Received(NetworkMessage::Verack));
    assert_eq!(s, BtcHandshakeState::Complete);
    assert_eq!(a, BtcAction::DoNothing);
}

#[test]
fn version_then_verack_completes_and_answers() {
    // The peer sends its Version before its Verack: the machine answers the
    // Version with a Verack and still completes.
    let s = btc_start();
    let (s, a) = btc_step(s, &BtcEvent::Received(version_message()));
    assert_eq!(s, BtcHandshakeState::AwaitingPeer);
    assert_eq!(a, BtcAction::SendVerack);
    let (s, a) = btc_step(s, &BtcEvent::Received(NetworkMessage::Verack));
    assert_eq!(s, BtcHandshakeState::Complete);
    assert_eq!(a, BtcAction::DoNothing);
}

#[test]
fn other_messages_are_ignored() {
    let s = btc_start();
    let other = NetworkMessage::Other {
        command: b"inv\0\0\0\0\0\0\0\0\0".to_vec(),
        payload: vec![],
    };
    let (s, a) = btc_step(s, &BtcEvent::Received(other));
    assert_eq!(s, BtcHandshakeState::AwaitingPeer);
    assert_eq!(a, BtcAction::DoNothing);
    let (s, _) = btc_step(s, &BtcEvent::Received(NetworkMessage::Verack));
    assert_eq!(s, BtcHandshakeState::Complete);
}

#[test]
fn stream_end_before_verack_fails() {
    let s = btc_start();
    let (s, a) = btc_step(s, &BtcEvent::StreamEnded);
    assert_eq!(s, BtcHandshakeState::Failed);
    assert_eq!(a, BtcAction::DoNothing);
}

#[test]
fn terminal_states_absorb_events() {
    let (done, _) = btc_step(btc_start(), &BtcEvent::Received(NetworkMessage::Verack));
    let (still_done, a) = btc_step(done, &BtcEvent::StreamEnded);
    assert_eq!(still_done, BtcHandshakeState::Complete);
    assert_eq!(a, BtcAction::DoNothing);
}

#[test]
fn message_stream_keeps_its_endpoint() {
    let addr = NetAddress { services: 0, ip: [0; 16], port: 8333 };
    let ms = MessageStream::new(addr.clone(), b"/Satoshi:25.0.0/".to_vec());
    assert_eq!(ms.node_address, addr);
    assert_eq!(ms.user_agent, b"/Satoshi:25.0.0/".to_vec());
}
