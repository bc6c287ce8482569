use p2p_handshake::btc::codec::{
    decode, encode_message, DecodeError, NetAddress, NetworkMessage, NetworkMessageType,
    RawNetworkMessageCodec, VersionPayload, MAX_USER_AGENT_LEN,
};

fn sample_address() -> NetAddress {
    NetAddress {
        services: 0,
        ip: [0, 0, 0, 0, 0, 0, 0, 0, 0, 0, 0xff, 0xff, 10, 0, 0, 7],
        port: 8333,
    }
}

fn sample_version() -> NetworkMessage {
    NetworkMessage::Version(VersionPayload {
        version: 70001,
        services: 0,
        timestamp: 1_700_000_000,
        receiver: sample_address(),
        sender: NetAddress {
            services: 0,
            ip: [0, 0, 0, 0, 0, 0, 0, 0, 0, 0, 0xff, 0xff, 0, 0, 0, 0],
            port: 0,
        },
        nonce: 1_700_000_000,
        user_agent: b"/Satoshi:25.0.0/".to_vec(),
        start_height: 0,
        relay: false,
    })
}

#[test]
fn version_round_trip() {
    let msg = sample_version();
    let mut wire: Vec<u8> = Vec::new();
    encode_message(&msg, &mut wire);
    let mut buf = wire.clone();
    let decoded = decode(&mut buf);
    assert_eq!(decoded, Ok(Some(msg)));
    assert!(buf.is_empty());
}

#[test]
fn verack_round_trip() {
    let msg = NetworkMessage::Verack;
    let mut wire: Vec<u8> = Vec::new();
    encode_message(&msg, &mut wire);
    let mut buf = wire.clone();
    assert_eq!(decode(&mut buf), Ok(Some(NetworkMessage::Verack)));
    assert!(buf.is_empty());
}

#[test]
fn other_command_round_trip() {
    let msg = NetworkMessage::Other {
        command: b"ping\0\0\0\0\0\0\0\0".to_vec(),
        payload: vec![1, 2, 3, 4, 5, 6, 7, 8],
    };
    let mut wire: Vec<u8> = Vec::new();
    encode_message(&msg, &mut wire);
    let mut buf = wire.clone();
    assert_eq!(decode(&mut buf), Ok(Some(msg)));
    assert!(buf.is_empty());
}

#[test]
fn verack_frame_matches_reference_encoder() {
    // The frame this codec builds for a Verack must agree byte for byte with
    // the rust-bitcoin consensus encoding, checksum included.
    let mut wire: Vec<u8> = Vec::new();
    encode_message(&NetworkMessage::Verack, &mut wire);
    let reference = bitcoin::consensus::serialize(&bitcoin::p2p::message::RawNetworkMessage::new(
        bitcoin::p2p::Magic::BITCOIN,
        bitcoin::p2p::message::NetworkMessage::Verack,
    ));
    assert_eq!(wire, reference);
}

#[test]
fn version_frame_matches_reference_encoder() {
    let mut wire: Vec<u8> = Vec::new();
    encode_message(&sample_version(), &mut wire);

    let receiver = bitcoin::p2p::Address {
        services: bitcoin::p2p::ServiceFlags::NONE,
        address: [0, 0, 0, 0, 0, 0xffff, 0x0a00, 0x0007],
        port: 8333,
    };
    let sender = bitcoin::p2p::Address {
        services: bitcoin::p2p::ServiceFlags::NONE,
        address: [0, 0, 0, 0, 0, 0xffff, 0, 0],
        port: 0,
    };
    let vm = bitcoin::p2p::message_network::VersionMessage {
        version: 70001,
        services: bitcoin::p2p::ServiceFlags::NONE,
        timestamp: 1_700_000_000,
        receiver,
        sender,
        nonce: 1_700_000_000,
        user_agent: "/Satoshi:25.0.0/".to_string(),
        start_height: 0,
        relay: false,
    };
    let reference = bitcoin::consensus::serialize(&bitcoin::p2p::message::RawNetworkMessage::new(
        bitcoin::p2p::Magic::BITCOIN,
        bitcoin::p2p::message::NetworkMessage::Version(vm),
    ));
    assert_eq!(wire, reference);
}

#[test]
fn short_buffer_needs_more_and_reassembles() {
    let msg = sample_version();
    let mut wire: Vec<u8> = Vec::new();
    encode_message(&msg, &mut wire);
    for split in [0usize, 1, 3, 4, 23, 24, wire.len() - 1] {
        let mut buf: Vec<u8> = wire[..split].to_vec();
        let before = buf.clone();
        assert_eq!(decode(&mut buf), Ok(None));
        assert_eq!(buf, before, "a partial frame must leave the buffer untouched");
        buf.extend_from_slice(&wire[split..]);
        assert_eq!(decode(&mut buf), Ok(Some(msg.clone())));
        assert!(buf.is_empty());
    }
}

#[test]
fn two_frames_decode_in_turn() {
    let mut wire: Vec<u8> = Vec::new();
    encode_message(&sample_version(), &mut wire);
    encode_message(&NetworkMessage::Verack, &mut wire);
    let mut buf = wire;
    assert_eq!(decode(&mut buf), Ok(Some(sample_version())));
    assert_eq!(decode(&mut buf), Ok(Some(NetworkMessage::Verack)));
    assert!(buf.is_empty());
}

#[test]
fn bad_magic_is_an_error() {
    let mut buf = vec![0xde, 0xad, 0xbe, 0xef, 0, 0, 0, 0];
    assert_eq!(decode(&mut buf), Err(DecodeError::BadMagic));
    assert_eq!(buf.len(), 8);
}

#[test]
fn oversized_length_is_an_error() {
    let mut buf = vec![0xf9, 0xbe, 0xb4, 0xd9];
    buf.extend_from_slice(b"verack\0\0\0\0\0\0");
    buf.extend_from_slice(&u32::MAX.to_le_bytes());
    buf.extend_from_slice(&[0, 0, 0, 0]);
    assert_eq!(decode(&mut buf), Err(DecodeError::OversizedPayload));
}

#[test]
fn checksum_mismatch_is_an_error() {
    let mut wire: Vec<u8> = Vec::new();
    encode_message(&NetworkMessage::Verack, &mut wire);
    wire[20] ^= 0xff;
    let mut buf = wire;
    assert_eq!(decode(&mut buf), Err(DecodeError::ChecksumMismatch));
}

#[test]
fn verack_with_payload_is_malformed() {
    // A "verack" command carrying bytes, framed with a correct checksum.
    let msg = NetworkMessage::Other {
        command: b"verack\0\0\0\0\0\0".to_vec(),
        payload: vec![1],
    };
    let mut wire: Vec<u8> = Vec::new();
    encode_message(&msg, &mut wire);
    let mut buf = wire;
    assert_eq!(decode(&mut buf), Err(DecodeError::MalformedPayload));
}

#[test]
fn truncated_version_payload_is_malformed() {
    // A "version" command whose payload is one zero byte.
    let msg = NetworkMessage::Other {
        command: b"version\0\0\0\0\0".to_vec(),
        payload: vec![0],
    };
    let mut wire: Vec<u8> = Vec::new();
    encode_message(&msg, &mut wire);
    let mut buf = wire;
    assert_eq!(decode(&mut buf), Err(DecodeError::MalformedPayload));
}

#[test]
fn codec_builds_version_from_clock_and_nonce() {
    let codec =
        RawNetworkMessageCodec::new_client(sample_address(), b"/Satoshi:25.0.0/".to_vec())
            .unwrap();
    let msg = codec.version_message(1_700_000_000, 1_700_000_000);
    assert_eq!(msg, sample_version());
    assert_eq!(codec.verack_message(), NetworkMessage::Verack);

    let mut wire: Vec<u8> = Vec::new();
    codec.encode(
        NetworkMessageType::Version,
        1_700_000_000,
        1_700_000_000,
        &mut wire,
    );
    let mut direct: Vec<u8> = Vec::new();
    encode_message(&sample_version(), &mut direct);
    assert_eq!(wire, direct);
}

#[test]
fn new_client_never_fails() {
    let agent = vec![b'x'; MAX_USER_AGENT_LEN + 1];
    let codec = RawNetworkMessageCodec::new_client(sample_address(), agent).unwrap();
    assert_eq!(codec.user_agent.len(), MAX_USER_AGENT_LEN + 1);
}
