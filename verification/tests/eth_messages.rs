use p2p_handshake::eth::messages::{
    encode_rlpx_message, parse_rlpx_message_exec, reason_from_code, reason_to_code, Capability,
    DisconnectReason, HelloMessage, RlpxMessage,
};
use p2p_handshake::eth::rlp::{write_rlp_str, write_rlp_uint};

fn sample_hello() -> HelloMessage {
    HelloMessage {
        protocol_version: 5,
        client_version: b"diagnostic/0.1.0".to_vec(),
        capabilities: vec![
            Capability { name: b"eth".to_vec(), version: 68 },
            Capability { name: b"snap".to_vec(), version: 1 },
        ],
        port: 30303,
        id: vec![0xab; 64],
    }
}

#[test]
fn hello_round_trip() {
    let msg = RlpxMessage::Hello(sample_hello());
    let mut wire: Vec<u8> = Vec::new();
    encode_rlpx_message(&msg, &mut wire);
    assert_eq!(wire[0], 0x00);
    assert_eq!(parse_rlpx_message_exec(&wire), Some(msg));
}

#[test]
fn hello_without_capabilities_round_trip() {
    let msg = RlpxMessage::Hello(HelloMessage {
        protocol_version: 5,
        client_version: vec![],
        capabilities: vec![],
        port: 0,
        id: vec![0x01; 64],
    });
    let mut wire: Vec<u8> = Vec::new();
    encode_rlpx_message(&msg, &mut wire);
    assert_eq!(parse_rlpx_message_exec(&wire), Some(msg));
}

#[test]
fn disconnect_round_trip_every_reason() {
    for code in [0x00u8, 0x01, 0x02, 0x03, 0x04, 0x05, 0x06, 0x07, 0x08, 0x09, 0x0a, 0x0b, 0x10] {
        let reason = reason_from_code(code).unwrap();
        assert_eq!(reason_to_code(reason), code);
        let msg = RlpxMessage::Disconnect(reason);
        let mut wire: Vec<u8> = Vec::new();
        encode_rlpx_message(&msg, &mut wire);
        assert_eq!(wire[0], 0x01);
        assert_eq!(parse_rlpx_message_exec(&wire), Some(msg));
    }
    assert_eq!(reason_from_code(0x0c), None);
    assert_eq!(reason_from_code(0xff), None);
}

#[test]
fn bare_integer_disconnect_is_accepted() {
    // Some peers send the reason as a bare integer rather than a list of one.
    let wire = vec![0x01, 0x03];
    assert_eq!(
        parse_rlpx_message_exec(&wire),
        Some(RlpxMessage::Disconnect(DisconnectReason::UselessPeer))
    );
}

#[test]
fn ping_pong_round_trip() {
    for msg in [RlpxMessage::Ping, RlpxMessage::Pong] {
        let mut wire: Vec<u8> = Vec::new();
        encode_rlpx_message(&msg, &mut wire);
        assert_eq!(parse_rlpx_message_exec(&wire), Some(msg));
    }
}

#[test]
fn malformed_messages_yield_none() {
    assert_eq!(parse_rlpx_message_exec(&vec![]), None);
    assert_eq!(parse_rlpx_message_exec(&vec![0x07]), None);
    assert_eq!(parse_rlpx_message_exec(&vec![0x00]), None);
    assert_eq!(parse_rlpx_message_exec(&vec![0x00, 0xc2, 0x01]), None);
    assert_eq!(parse_rlpx_message_exec(&vec![0x01, 0xc1]), None);
    assert_eq!(parse_rlpx_message_exec(&vec![0x02, 0xc1, 0x00]), None);
    // A Hello whose list has trailing bytes beyond the declared length.
    let msg = RlpxMessage::Hello(sample_hello());
    let mut wire: Vec<u8> = Vec::new();
    encode_rlpx_message(&msg, &mut wire);
    wire.push(0x00);
    assert_eq!(parse_rlpx_message_exec(&wire), None);
}

#[test]
fn rlp_integers_match_reference_encoder() {
    for v in [0u64, 1, 0x7f, 0x80, 0xff, 0x100, 0xffff, 0x1_0000, u64::MAX] {
        let mut mine: Vec<u8> = Vec::new();
        write_rlp_uint(&mut mine, v);
        assert_eq!(mine, alloy_rlp::encode(v), "integer {v}");
    }
}

#[test]
fn rlp_strings_match_reference_encoder() {
    let cases: Vec<Vec<u8>> = vec![
        vec![],
        vec![0x00],
        vec![0x7f],
        vec![0x80],
        b"eth".to_vec(),
        vec![0xaa; 55],
        vec![0xbb; 56],
        vec![0xcc; 300],
    ];
    for s in cases {
        let mut mine: Vec<u8> = Vec::new();
        write_rlp_str(&mut mine, &s);
        let reference = alloy_rlp::encode(alloy_rlp::Bytes::from(s.clone()));
        assert_eq!(mine, reference, "string of length {}", s.len());
    }
}
