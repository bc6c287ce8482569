//! Codec for the Bitcoin-style handshake wire format. A frame is
//! `magic(4) | command(12, ASCII null-padded) | payload_length(4, LE) |
//! checksum(4, first bytes of the double-SHA-256 of the payload) | payload`.
//! Encoding and decoding are specified over byte sequences and proved to be
//! inverse to one another; the checksum itself is delegated to an outside
//! hashing library behind one trusted wrapper.

use vstd::prelude::*;

use crate::wire::{
    be_bytes, be_val, le_bytes, le_val, lemma_le_bytes_len, pow256, read_u16_be, read_u16_le,
    read_u32_le, read_u64_le, vec_sub, write_u16_be, write_u16_le, write_u32_le, write_u64_le,
};

verus! {

/// Safety bound on the payload length a frame may declare.
pub const MAX_BTC_PAYLOAD_SIZE: usize = 32 * 1024 * 1024;

/// Bound on the user-agent length accepted when building a Version message,
/// chosen so that the whole payload stays under `MAX_BTC_PAYLOAD_SIZE`.
pub const MAX_USER_AGENT_LEN: usize = 16 * 1024 * 1024;

/// A network address as the Version payload carries it: service flags, a
/// sixteen-byte address (IPv4 addresses are carried in mapped form) and a port.
#[derive(Clone, Debug, PartialEq, Eq)]
pub struct NetAddress {
    pub services: u64,
    pub ip: [u8; 16],
    pub port: u16,
}

/// Mathematical model of a `NetAddress`.
pub struct AddrModel {
    pub services: u64,
    pub ip: Seq<u8>,
    pub port: u16,
}

impl View for NetAddress {
    type V = AddrModel;

    open spec fn view(&self) -> AddrModel {
        AddrModel { services: self.services, ip: self.ip@, port: self.port }
    }
}

/// The fields of a Version message payload.
#[derive(Clone, Debug, PartialEq, Eq)]
pub struct VersionPayload {
    pub version: u32,
    pub services: u64,
    pub timestamp: u64,
    pub receiver: NetAddress,
    pub sender: NetAddress,
    pub nonce: u64,
    pub user_agent: Vec<u8>,
    pub start_height: u32,
    pub relay: bool,
}

/// Mathematical model of a `VersionPayload`.
pub struct VersionModel {
    pub version: u32,
    pub services: u64,
    pub timestamp: u64,
    pub receiver: AddrModel,
    pub sender: AddrModel,
    pub nonce: u64,
    pub user_agent: Seq<u8>,
    pub start_height: u32,
    pub relay: bool,
}

impl View for VersionPayload {
    type V = VersionModel;

    open spec fn view(&self) -> VersionModel {
        VersionModel {
            version: self.version,
            services: self.services,
            timestamp: self.timestamp,
            receiver: self.receiver@,
            sender: self.sender@,
            nonce: self.nonce,
            user_agent: self.user_agent@,
            start_height: self.start_height,
            relay: self.relay,
        }
    }
}

/// A decoded handshake message: the two control messages the handshake cares
/// about, or any other complete frame carried as raw command and payload.
#[derive(Clone, Debug, PartialEq, Eq)]
pub enum NetworkMessage {
    Version(VersionPayload),
    Verack,
    Other { command: Vec<u8>, payload: Vec<u8> },
}

/// Mathematical model of a `NetworkMessage`.
pub enum MessageModel {
    Version(VersionModel),
    Verack,
    Other { command: Seq<u8>, payload: Seq<u8> },
}

impl View for NetworkMessage {
    type V = MessageModel;

    open spec fn view(&self) -> MessageModel {
        match self {
            NetworkMessage::Version(p) => MessageModel::Version(p@),
            NetworkMessage::Verack => MessageModel::Verack,
            NetworkMessage::Other { command, payload } => MessageModel::Other {
                command: command@,
                payload: payload@,
            },
        }
    }
}

/// Why a frame was rejected. Each variant names exactly one malformation; a
/// frame that is merely incomplete is not an error.
#[derive(Clone, Copy, Debug, PartialEq, Eq, Structural)]
pub enum DecodeError {
    /// The first four bytes are not the network magic.
    BadMagic,
    /// The declared payload length exceeds `MAX_BTC_PAYLOAD_SIZE`.
    OversizedPayload,
    /// The checksum field does not match the payload.
    ChecksumMismatch,
    /// A Version or Verack payload that does not parse.
    MalformedPayload,
}

/// First four bytes of the double-SHA-256 digest of `b`, as a little-endian
/// integer: the frame checksum. Computed by an outside hashing library; the
/// digest is a function of the bytes alone.
pub uninterp spec fn checksum_of(b: Seq<u8>) -> u32;

/// Relies on `bitcoin::hashes::sha256d::Hash::hash`: the double-SHA-256
/// digest of the input, a function of the input bytes alone. The Bitcoin
/// frame checksum is the digest's first four bytes, read here little-endian.
#[verifier::external_body]
fn payload_checksum(data: &Vec<u8>) -> (r: u32)
    ensures
        r == checksum_of(data@),
{
    let h = <bitcoin::hashes::sha256d::Hash as bitcoin::hashes::Hash>::hash(data.as_slice());
    let d = <bitcoin::hashes::sha256d::Hash as bitcoin::hashes::Hash>::to_byte_array(h);
    u32::from_le_bytes([d[0], d[1], d[2], d[3]])
}

/// The network magic that prefixes every frame.
pub open spec fn magic_bytes() -> Seq<u8> {
    seq![0xf9u8, 0xbeu8, 0xb4u8, 0xd9u8]
}

/// The command field for a Version message: "version", null-padded.
pub open spec fn command_version() -> Seq<u8> {
    seq![118u8, 101u8, 114u8, 115u8, 105u8, 111u8, 110u8, 0u8, 0u8, 0u8, 0u8, 0u8]
}

/// The command field for a Verack message: "verack", null-padded.
pub open spec fn command_verack() -> Seq<u8> {
    seq![118u8, 101u8, 114u8, 97u8, 99u8, 107u8, 0u8, 0u8, 0u8, 0u8, 0u8, 0u8]
}

/// The variable-length integer encoding that prefixes the user-agent.
pub open spec fn varint_bytes(n: nat) -> Seq<u8> {
    if n < 0xfd {
        seq![n as u8]
    } else if n < 0x1_0000 {
        seq![0xfdu8] + le_bytes(n, 2)
    } else if n < 0x1_0000_0000 {
        seq![0xfeu8] + le_bytes(n, 4)
    } else {
        seq![0xffu8] + le_bytes(n, 8)
    }
}

/// The twenty-six byte encoding of an address inside a Version payload:
/// services (LE), the sixteen address bytes, then the port big-endian.
pub open spec fn addr_bytes(a: AddrModel) -> Seq<u8> {
    le_bytes(a.services as nat, 8) + a.ip + be_bytes(a.port as nat, 2)
}

/// The Version payload encoding, field by field in wire order.
pub open spec fn version_payload_bytes(p: VersionModel) -> Seq<u8> {
    le_bytes(p.version as nat, 4) + le_bytes(p.services as nat, 8) + le_bytes(
        p.timestamp as nat,
        8,
    ) + addr_bytes(p.receiver) + addr_bytes(p.sender) + le_bytes(p.nonce as nat, 8) + varint_bytes(
        p.user_agent.len(),
    ) + p.user_agent + le_bytes(p.start_height as nat, 4) + seq![
        if p.relay {
            1u8
        } else {
            0u8
        },
    ]
}

/// The payload carried by a message.
pub open spec fn payload_bytes(m: MessageModel) -> Seq<u8> {
    match m {
        MessageModel::Version(p) => version_payload_bytes(p),
        MessageModel::Verack => Seq::empty(),
        MessageModel::Other { command, payload } => payload,
    }
}

/// The command field of a message.
pub open spec fn command_of(m: MessageModel) -> Seq<u8> {
    match m {
        MessageModel::Version(p) => command_version(),
        MessageModel::Verack => command_verack(),
        MessageModel::Other { command, payload } => command,
    }
}

/// Which addresses are well-formed: the address field holds sixteen bytes.
pub open spec fn addr_wf(a: AddrModel) -> bool {
    a.ip.len() == 16
}

/// Which Version payloads are well-formed: addresses of the right width and a
/// user-agent short enough for the payload to stay within the safety bound.
pub open spec fn version_wf(p: VersionModel) -> bool {
    &&& addr_wf(p.receiver)
    &&& addr_wf(p.sender)
    &&& p.user_agent.len() <= MAX_USER_AGENT_LEN
}

/// Which messages are well-formed, that is, have exactly one frame encoding
/// that decodes back to them. An `Other` message must carry a command that is
/// none of the two the codec itself owns.
pub open spec fn msg_wf(m: MessageModel) -> bool {
    match m {
        MessageModel::Version(p) => version_wf(p),
        MessageModel::Verack => true,
        MessageModel::Other { command, payload } => {
            &&& command.len() == 12
            &&& command != command_version()
            &&& command != command_verack()
            &&& payload.len() <= MAX_BTC_PAYLOAD_SIZE
        },
    }
}

/// The full frame encoding of a message.
pub open spec fn frame_bytes(m: MessageModel) -> Seq<u8> {
    magic_bytes() + command_of(m) + le_bytes(payload_bytes(m).len(), 4) + le_bytes(
        checksum_of(payload_bytes(m)) as nat,
        4,
    ) + payload_bytes(m)
}

/// Appends the sixteen address bytes.
fn write_ip(out: &mut Vec<u8>, ip: &[u8; 16])
    ensures
        final(out)@ == old(out)@ + ip@,
{
    out.extend_from_slice(ip.as_slice());
    assert(out@ =~= old(out)@ + ip@);
}

/// Appends the variable-length integer encoding of `n`.
fn write_varint(out: &mut Vec<u8>, n: u64)
    ensures
        final(out)@ == old(out)@ + varint_bytes(n as nat),
{
    if n < 0xfd {
        out.push(n as u8);
        assert(out@ =~= old(out)@ + varint_bytes(n as nat));
    } else if n < 0x1_0000 {
        out.push(0xfd);
        write_u16_le(out, n as u16);
        assert(le_bytes(n as u16 as nat, 2) == le_bytes(n as nat, 2));
        assert(out@ =~= old(out)@ + varint_bytes(n as nat));
    } else if n < 0x1_0000_0000 {
        out.push(0xfe);
        write_u32_le(out, n as u32);
        assert(le_bytes(n as u32 as nat, 4) == le_bytes(n as nat, 4));
        assert(out@ =~= old(out)@ + varint_bytes(n as nat));
    } else {
        out.push(0xff);
        write_u64_le(out, n);
        assert(out@ =~= old(out)@ + varint_bytes(n as nat));
    }
}

/// Appends the twenty-six byte address encoding.
fn write_addr(out: &mut Vec<u8>, a: &NetAddress)
    ensures
        final(out)@ == old(out)@ + addr_bytes(a@),
{
    write_u64_le(out, a.services);
    write_ip(out, &a.ip);
    write_u16_be(out, a.port);
    assert(out@ =~= old(out)@ + addr_bytes(a@));
}

/// Appends the Version payload encoding.
fn write_version_payload(out: &mut Vec<u8>, p: &VersionPayload)
    ensures
        final(out)@ == old(out)@ + version_payload_bytes(p@),
{
    write_u32_le(out, p.version);
    write_u64_le(out, p.services);
    write_u64_le(out, p.timestamp);
    write_addr(out, &p.receiver);
    write_addr(out, &p.sender);
    write_u64_le(out, p.nonce);
    write_varint(out, p.user_agent.len() as u64);
    out.extend_from_slice(p.user_agent.as_slice());
    write_u32_le(out, p.start_height);
    if p.relay {
        out.push(1u8);
    } else {
        out.push(0u8);
    }
    assert(out@ =~= old(out)@ + version_payload_bytes(p@));
}

/// Builds the payload bytes of a message.
fn build_payload(m: &NetworkMessage) -> (r: Vec<u8>)
    ensures
        r@ == payload_bytes(m@),
{
    let mut payload: Vec<u8> = Vec::new();
    match m {
        NetworkMessage::Version(p) => {
            write_version_payload(&mut payload, p);
        },
        NetworkMessage::Verack => {},
        NetworkMessage::Other { command, payload: pl } => {
            payload.extend_from_slice(pl.as_slice());
        },
    }
    assert(payload@ =~= payload_bytes(m@));
    payload
}

/// Appends the twelve-byte command field of a message.
fn write_command(out: &mut Vec<u8>, m: &NetworkMessage)
    requires
        msg_wf(m@),
    ensures
        final(out)@ == old(out)@ + command_of(m@),
{
    match m {
        NetworkMessage::Version(_) => {
            out.push(118u8);
            out.push(101u8);
            out.push(114u8);
            out.push(115u8);
            out.push(105u8);
            out.push(111u8);
            out.push(110u8);
            out.push(0u8);
            out.push(0u8);
            out.push(0u8);
            out.push(0u8);
            out.push(0u8);
            assert(out@ =~= old(out)@ + command_version());
        },
        NetworkMessage::Verack => {
            out.push(118u8);
            out.push(101u8);
            out.push(114u8);
            out.push(97u8);
            out.push(99u8);
            out.push(107u8);
            out.push(0u8);
            out.push(0u8);
            out.push(0u8);
            out.push(0u8);
            out.push(0u8);
            out.push(0u8);
            assert(out@ =~= old(out)@ + command_verack());
        },
        NetworkMessage::Other { command, payload } => {
            out.extend_from_slice(command.as_slice());
            assert(out@ =~= old(out)@ + command@);
        },
    }
}

/// Encodes one message as a complete frame appended to `out`.
pub fn encode_message(m: &NetworkMessage, out: &mut Vec<u8>)
    requires
        msg_wf(m@),
    ensures
        final(out)@ == old(out)@ + frame_bytes(m@),
{
    let payload = build_payload(m);
    proof {
        lemma_payload_len_bounded(m@);
    }
    let cs = payload_checksum(&payload);
    out.push(0xf9u8);
    out.push(0xbeu8);
    out.push(0xb4u8);
    out.push(0xd9u8);
    write_command(out, m);
    write_u32_le(out, payload.len() as u32);
    write_u32_le(out, cs);
    out.extend_from_slice(payload.as_slice());
    assert(out@ =~= old(out)@ + frame_bytes(m@));
}

/// A well-formed message's payload stays within the safety bound.
pub proof fn lemma_payload_len_bounded(m: MessageModel)
    requires
        msg_wf(m),
    ensures
        payload_bytes(m).len() <= MAX_BTC_PAYLOAD_SIZE,
{
    match m {
        MessageModel::Version(p) => {
            lemma_version_payload_len(p);
        },
        MessageModel::Verack => {},
        MessageModel::Other { command, payload } => {},
    }
}

/// Length of a well-formed Version payload: the fixed fields, the user-agent
/// prefix and the user-agent itself.
pub proof fn lemma_version_payload_len(p: VersionModel)
    requires
        version_wf(p),
    ensures
        version_payload_bytes(p).len() == 85 + varint_bytes(p.user_agent.len()).len()
            + p.user_agent.len(),
        version_payload_bytes(p).len() <= MAX_BTC_PAYLOAD_SIZE,
{
    lemma_le_bytes_len(p.version as nat, 4);
    lemma_le_bytes_len(p.services as nat, 8);
    lemma_le_bytes_len(p.timestamp as nat, 8);
    lemma_le_bytes_len(p.nonce as nat, 8);
    lemma_le_bytes_len(p.start_height as nat, 4);
    lemma_addr_bytes_len(p.receiver);
    lemma_addr_bytes_len(p.sender);
    lemma_varint_bytes_len(p.user_agent.len());
}

/// A well-formed address encodes to twenty-six bytes.
pub proof fn lemma_addr_bytes_len(a: AddrModel)
    requires
        addr_wf(a),
    ensures
        addr_bytes(a).len() == 26,
{
    lemma_le_bytes_len(a.services as nat, 8);
    crate::wire::lemma_be_bytes_len(a.port as nat, 2);
}

/// A variable-length integer prefix is between one and nine bytes.
pub proof fn lemma_varint_bytes_len(n: nat)
    ensures
        1 <= varint_bytes(n).len() <= 9,
        n < 0xfd ==> varint_bytes(n).len() == 1,
        0xfd <= n < 0x1_0000 ==> varint_bytes(n).len() == 3,
        0x1_0000 <= n < 0x1_0000_0000 ==> varint_bytes(n).len() == 5,
        0x1_0000_0000 <= n ==> varint_bytes(n).len() == 9,
{
    lemma_le_bytes_len(n, 2);
    lemma_le_bytes_len(n, 4);
    lemma_le_bytes_len(n, 8);
}


/// Parses a variable-length integer at the front of `b`: the value and the
/// number of bytes it occupies. Non-canonical encodings are rejected.
pub open spec fn parse_varint(b: Seq<u8>) -> Option<(nat, nat)> {
    if b.len() < 1 {
        None
    } else if b[0] < 0xfd {
        Some((b[0] as nat, 1nat))
    } else if b[0] == 0xfd {
        if b.len() < 3 {
            None
        } else {
            let v = le_val(b.subrange(1, 3));
            if v >= 0xfd {
                Some((v, 3nat))
            } else {
                None
            }
        }
    } else if b[0] == 0xfe {
        if b.len() < 5 {
            None
        } else {
            let v = le_val(b.subrange(1, 5));
            if v >= 0x1_0000 {
                Some((v, 5nat))
            } else {
                None
            }
        }
    } else {
        if b.len() < 9 {
            None
        } else {
            let v = le_val(b.subrange(1, 9));
            if v >= 0x1_0000_0000 {
                Some((v, 9nat))
            } else {
                None
            }
        }
    }
}

/// Parses the twenty-six byte address encoding.
pub open spec fn parse_addr(b: Seq<u8>) -> AddrModel {
    AddrModel {
        services: le_val(b.subrange(0, 8)) as u64,
        ip: b.subrange(8, 24),
        port: be_val(b.subrange(24, 26)) as u16,
    }
}

/// Parses a complete Version payload. The payload must be consumed exactly
/// and the relay flag must be a canonical boolean byte.
pub open spec fn parse_version_payload(b: Seq<u8>) -> Option<VersionModel> {
    if b.len() < 80 {
        None
    } else {
        match parse_varint(b.skip(80)) {
            None => None,
            Some((ualen, vlen)) => {
                if b.len() == 80 + vlen + ualen + 5 {
                    let relay_byte = b[b.len() - 1];
                    if relay_byte == 0 || relay_byte == 1 {
                        Some(
                            VersionModel {
                                version: le_val(b.subrange(0, 4)) as u32,
                                services: le_val(b.subrange(4, 12)) as u64,
                                timestamp: le_val(b.subrange(12, 20)) as u64,
                                receiver: parse_addr(b.subrange(20, 46)),
                                sender: parse_addr(b.subrange(46, 72)),
                                nonce: le_val(b.subrange(72, 80)) as u64,
                                user_agent: b.subrange(
                                    (80 + vlen) as int,
                                    (80 + vlen + ualen) as int,
                                ),
                                start_height: le_val(
                                    b.subrange(
                                        (80 + vlen + ualen) as int,
                                        (84 + vlen + ualen) as int,
                                    ),
                                ) as u32,
                                relay: relay_byte == 1,
                            },
                        )
                    } else {
                        None
                    }
                } else {
                    None
                }
            },
        }
    }
}

/// The payload length a frame header declares.
pub open spec fn frame_payload_len(b: Seq<u8>) -> nat {
    le_val(b.subrange(16, 20))
}

/// The total length of the frame at the front of `b`.
pub open spec fn frame_len(b: Seq<u8>) -> nat {
    24 + frame_payload_len(b)
}

/// What decoding the front of `b` yields: a complete message, "no message
/// yet" on a merely incomplete buffer, or an error on a malformed frame.
pub open spec fn decode_spec(b: Seq<u8>) -> Result<Option<MessageModel>, DecodeError> {
    if b.len() < 4 {
        Ok(None)
    } else if b.subrange(0, 4) != magic_bytes() {
        Err(DecodeError::BadMagic)
    } else if b.len() < 24 {
        Ok(None)
    } else if frame_payload_len(b) > MAX_BTC_PAYLOAD_SIZE {
        Err(DecodeError::OversizedPayload)
    } else if b.len() < frame_len(b) {
        Ok(None)
    } else {
        let payload = b.subrange(24, frame_len(b) as int);
        if le_val(b.subrange(20, 24)) != checksum_of(payload) {
            Err(DecodeError::ChecksumMismatch)
        } else {
            let command = b.subrange(4, 16);
            if command == command_version() {
                match parse_version_payload(payload) {
                    Some(pm) => Ok(Some(MessageModel::Version(pm))),
                    None => Err(DecodeError::MalformedPayload),
                }
            } else if command == command_verack() {
                if payload.len() == 0 {
                    Ok(Some(MessageModel::Verack))
                } else {
                    Err(DecodeError::MalformedPayload)
                }
            } else {
                Ok(Some(MessageModel::Other { command, payload }))
            }
        }
    }
}

/// Relates one `decode` call to the specification: on a complete frame the
/// returned message models the parse and the frame is consumed; otherwise the
/// buffer is left untouched.
pub open spec fn decode_post(
    b: Seq<u8>,
    r: Result<Option<NetworkMessage>, DecodeError>,
    b2: Seq<u8>,
) -> bool {
    match decode_spec(b) {
        Ok(Some(mm)) => {
            &&& r matches Ok(Some(m)) && m@ == mm
            &&& b2 == b.skip(frame_len(b) as int)
        },
        Ok(None) => r matches Ok(None) && b2 == b,
        Err(e) => r == Err::<Option<NetworkMessage>, DecodeError>(e) && b2 == b,
    }
}

/// Reads a variable-length integer at `pos`.
fn read_varint(b: &Vec<u8>, pos: usize) -> (r: Option<(u64, usize)>)
    requires
        pos <= b@.len(),
    ensures
        ({
            let s = parse_varint(b@.skip(pos as int));
            match (r, s) {
                (Some((v, l)), Some((sv, sl))) => v == sv && l == sl,
                (None, None) => true,
                _ => false,
            }
        }),
{
    let n = b.len();
    let ghost t = b@.skip(pos as int);
    if pos >= n {
        return None;
    }
    let tag = b[pos];
    proof {
        assert(t[0] == b@[pos as int]);
    }
    if tag < 0xfd {
        Some((tag as u64, 1))
    } else if tag == 0xfd {
        if n - pos < 3 {
            return None;
        }
        let v = read_u16_le(b, pos + 1);
        proof {
            assert(t.subrange(1, 3) =~= b@.subrange(pos + 1, pos + 3));
        }
        if v >= 0xfd {
            Some((v as u64, 3))
        } else {
            None
        }
    } else if tag == 0xfe {
        if n - pos < 5 {
            return None;
        }
        let v = read_u32_le(b, pos + 1);
        proof {
            assert(t.subrange(1, 5) =~= b@.subrange(pos + 1, pos + 5));
        }
        if v >= 0x1_0000 {
            Some((v as u64, 5))
        } else {
            None
        }
    } else {
        if n - pos < 9 {
            return None;
        }
        let v = read_u64_le(b, pos + 1);
        proof {
            assert(t.subrange(1, 9) =~= b@.subrange(pos + 1, pos + 9));
        }
        if v >= 0x1_0000_0000 {
            Some((v, 9))
        } else {
            None
        }
    }
}

/// Reads the twenty-six byte address encoding at `pos`.
fn parse_addr_exec(b: &Vec<u8>, pos: usize) -> (r: NetAddress)
    requires
        pos + 26 <= b@.len(),
    ensures
        r@ == parse_addr(b@.subrange(pos as int, pos + 26)),
{
    let n = b.len();
    let services = read_u64_le(b, pos);
    let ip = [
        b[pos + 8],
        b[pos + 9],
        b[pos + 10],
        b[pos + 11],
        b[pos + 12],
        b[pos + 13],
        b[pos + 14],
        b[pos + 15],
        b[pos + 16],
        b[pos + 17],
        b[pos + 18],
        b[pos + 19],
        b[pos + 20],
        b[pos + 21],
        b[pos + 22],
        b[pos + 23],
    ];
    let port = read_u16_be(b, pos + 24);
    let r = NetAddress { services, ip, port };
    proof {
        let s = b@.subrange(pos as int, pos + 26);
        assert(s.subrange(0, 8) =~= b@.subrange(pos as int, pos + 8));
        assert(s.subrange(24, 26) =~= b@.subrange(pos + 24, pos + 26));
        assert(ip@ =~= s.subrange(8, 24));
        crate::wire::lemma_le_val_bound(s.subrange(0, 8));
        crate::wire::lemma_be_val_bound(s.subrange(24, 26));
        assert(pow256(8) == 0x1_0000_0000_0000_0000 && pow256(2) == 0x1_0000) by {
            reveal_with_fuel(pow256, 9);
        }
    }
    r
}

/// Parses a Version payload.
fn parse_version_exec(b: &Vec<u8>) -> (r: Option<VersionPayload>)
    ensures
        ({
            let s = parse_version_payload(b@);
            match (r, s) {
                (Some(p), Some(pm)) => p@ == pm,
                (None, None) => true,
                _ => false,
            }
        }),
{
    let n = b.len();
    if n < 80 {
        return None;
    }
    let (ualen, vlen) = match read_varint(b, 80) {
        Some(x) => x,
        None => {
            return None;
        },
    };
    if n < 85 + vlen {
        proof {
            let s = parse_varint(b@.skip(80));
            assert(s matches Some((ul, vl)) && 80 + vl + ul + 5 != b@.len()) by {
                assert(s matches Some((ul, vl)) && ul >= 0);
            }
        }
        return None;
    }
    if ualen != (n - 85 - vlen) as u64 {
        return None;
    }
    let ualen_us = (n - 85 - vlen);
    let ua = vec_sub(b, 80 + vlen, 80 + vlen + ualen_us);
    let relay_byte = b[n - 1];
    if relay_byte > 1 {
        return None;
    }
    let p = VersionPayload {
        version: read_u32_le(b, 0),
        services: read_u64_le(b, 4),
        timestamp: read_u64_le(b, 12),
        receiver: parse_addr_exec(b, 20),
        sender: parse_addr_exec(b, 46),
        nonce: read_u64_le(b, 72),
        user_agent: ua,
        start_height: read_u32_le(b, 80 + vlen + ualen_us),
        relay: relay_byte == 1,
    };
    proof {
        crate::wire::lemma_le_val_bound(b@.subrange(0, 4));
        crate::wire::lemma_le_val_bound(b@.subrange(4, 12));
        crate::wire::lemma_le_val_bound(b@.subrange(12, 20));
        crate::wire::lemma_le_val_bound(b@.subrange(72, 80));
        crate::wire::lemma_le_val_bound(b@.subrange(80 + vlen, 84 + vlen + ualen_us));
        assert(pow256(4) == 0x1_0000_0000 && pow256(8) == 0x1_0000_0000_0000_0000) by {
            reveal_with_fuel(pow256, 9);
        }
    }
    Some(p)
}

/// Attempts to decode one complete frame from the front of `buf`. On success
/// the frame's bytes are consumed; on "no message yet" and on every error the
/// buffer is left exactly as it was.
pub fn decode(buf: &mut Vec<u8>) -> (r: Result<Option<NetworkMessage>, DecodeError>)
    ensures
        decode_post(old(buf)@, r, final(buf)@),
{
    let n = buf.len();
    if n < 4 {
        return Ok(None);
    }
    let magic_ok = buf[0] == 0xf9 && buf[1] == 0xbe && buf[2] == 0xb4 && buf[3] == 0xd9;
    proof {
        let c = buf@.subrange(0, 4);
        assert(c[0] == buf@[0] && c[1] == buf@[1] && c[2] == buf@[2] && c[3] == buf@[3]);
        if magic_ok {
            assert(c =~= magic_bytes());
        }
    }
    if !magic_ok {
        return Err(DecodeError::BadMagic);
    }
    if n < 24 {
        return Ok(None);
    }
    let plen32 = read_u32_le(buf, 16);
    let plen = plen32 as usize;
    if plen > MAX_BTC_PAYLOAD_SIZE {
        return Err(DecodeError::OversizedPayload);
    }
    if n < 24 + plen {
        return Ok(None);
    }
    let payload = vec_sub(buf, 24, 24 + plen);
    let stored = read_u32_le(buf, 20);
    let computed = payload_checksum(&payload);
    if stored != computed {
        return Err(DecodeError::ChecksumMismatch);
    }
    let is_version = buf[4] == 118 && buf[5] == 101 && buf[6] == 114 && buf[7] == 115 && buf[8]
        == 105 && buf[9] == 111 && buf[10] == 110 && buf[11] == 0 && buf[12] == 0 && buf[13] == 0
        && buf[14] == 0 && buf[15] == 0;
    let is_verack = buf[4] == 118 && buf[5] == 101 && buf[6] == 114 && buf[7] == 97 && buf[8] == 99
        && buf[9] == 107 && buf[10] == 0 && buf[11] == 0 && buf[12] == 0 && buf[13] == 0 && buf[14]
        == 0 && buf[15] == 0;
    proof {
        let c = buf@.subrange(4, 16);
        assert(forall|i: int| 0 <= i < 12 ==> c[i] == buf@[4 + i]);
        if is_version {
            assert(c =~= command_version());
        }
        if is_verack {
            assert(c =~= command_verack());
        }
        if c == command_version() {
            assert(buf@[4] == 118 && buf@[5] == 101 && buf@[6] == 114 && buf@[7] == 115 && buf@[8]
                == 105 && buf@[9] == 111 && buf@[10] == 110 && buf@[11] == 0 && buf@[12] == 0
                && buf@[13] == 0 && buf@[14] == 0 && buf@[15] == 0) by {
                assert(forall|i: int| 0 <= i < 12 ==> c[i] == command_version()[i]);
            }
        }
        if c == command_verack() {
            assert(buf@[4] == 118 && buf@[5] == 101 && buf@[6] == 114 && buf@[7] == 97 && buf@[8]
                == 99 && buf@[9] == 107 && buf@[10] == 0 && buf@[11] == 0 && buf@[12] == 0
                && buf@[13] == 0 && buf@[14] == 0 && buf@[15] == 0) by {
                assert(forall|i: int| 0 <= i < 12 ==> c[i] == command_verack()[i]);
            }
        }
    }
    let msg: NetworkMessage;
    if is_version {
        match parse_version_exec(&payload) {
            Some(p) => {
                msg = NetworkMessage::Version(p);
            },
            None => {
                return Err(DecodeError::MalformedPayload);
            },
        }
    } else if is_verack {
        if plen != 0 {
            return Err(DecodeError::MalformedPayload);
        }
        assert(payload@ =~= Seq::<u8>::empty());
        msg = NetworkMessage::Verack;
    } else {
        let command = vec_sub(buf, 4, 16);
        msg = NetworkMessage::Other { command, payload };
    }
    let tail = buf.split_off(24 + plen);
    *buf = tail;
    Ok(Some(msg))
}


/// A variable-length integer at the front of a buffer parses back to the
/// value it encodes, whatever follows it.
pub proof fn lemma_parse_varint_roundtrip(n: nat, rest: Seq<u8>)
    requires
        n < pow256(8),
    ensures
        parse_varint(varint_bytes(n) + rest) == Some((n, varint_bytes(n).len())),
{
    let b = varint_bytes(n) + rest;
    lemma_varint_bytes_len(n);
    if n < 0xfd {
        assert(b[0] == n as u8);
    } else if n < 0x1_0000 {
        assert(b[0] == 0xfdu8);
        lemma_le_bytes_len(n, 2);
        assert(b.subrange(1, 3) =~= le_bytes(n, 2));
        assert(pow256(2) == 0x1_0000) by {
            reveal_with_fuel(pow256, 3);
        }
        crate::wire::lemma_le_val_le_bytes(n, 2);
    } else if n < 0x1_0000_0000 {
        assert(b[0] == 0xfeu8);
        lemma_le_bytes_len(n, 4);
        assert(b.subrange(1, 5) =~= le_bytes(n, 4));
        assert(pow256(4) == 0x1_0000_0000) by {
            reveal_with_fuel(pow256, 5);
        }
        crate::wire::lemma_le_val_le_bytes(n, 4);
    } else {
        assert(b[0] == 0xffu8);
        lemma_le_bytes_len(n, 8);
        assert(b.subrange(1, 9) =~= le_bytes(n, 8));
        crate::wire::lemma_le_val_le_bytes(n, 8);
    }
}

/// An address encoding parses back to the address it encodes.
pub proof fn lemma_parse_addr_roundtrip(a: AddrModel)
    requires
        addr_wf(a),
    ensures
        parse_addr(addr_bytes(a)) == a,
{
    let b = addr_bytes(a);
    lemma_le_bytes_len(a.services as nat, 8);
    crate::wire::lemma_be_bytes_len(a.port as nat, 2);
    assert(b.subrange(0, 8) =~= le_bytes(a.services as nat, 8));
    assert(b.subrange(8, 24) =~= a.ip);
    assert(b.subrange(24, 26) =~= be_bytes(a.port as nat, 2));
    assert(pow256(8) == 0x1_0000_0000_0000_0000 && pow256(2) == 0x1_0000) by {
        reveal_with_fuel(pow256, 9);
    }
    crate::wire::lemma_le_val_le_bytes(a.services as nat, 8);
    crate::wire::lemma_be_val_be_bytes(a.port as nat, 2);
}

/// A well-formed Version payload parses back to itself.
pub proof fn lemma_parse_version_roundtrip(p: VersionModel)
    requires
        version_wf(p),
    ensures
        parse_version_payload(version_payload_bytes(p)) == Some(p),
{
    let b = version_payload_bytes(p);
    let ul = p.user_agent.len();
    let vl = varint_bytes(ul).len();
    let rb: u8 = if p.relay {
        1u8
    } else {
        0u8
    };
    lemma_version_payload_len(p);
    lemma_varint_bytes_len(ul);
    lemma_le_bytes_len(p.version as nat, 4);
    lemma_le_bytes_len(p.services as nat, 8);
    lemma_le_bytes_len(p.timestamp as nat, 8);
    lemma_le_bytes_len(p.nonce as nat, 8);
    lemma_le_bytes_len(p.start_height as nat, 4);
    lemma_addr_bytes_len(p.receiver);
    lemma_addr_bytes_len(p.sender);
    assert(b.len() == 85 + vl + ul);
    assert(b.subrange(0, 4) =~= le_bytes(p.version as nat, 4));
    assert(b.subrange(4, 12) =~= le_bytes(p.services as nat, 8));
    assert(b.subrange(12, 20) =~= le_bytes(p.timestamp as nat, 8));
    assert(b.subrange(20, 46) =~= addr_bytes(p.receiver));
    assert(b.subrange(46, 72) =~= addr_bytes(p.sender));
    assert(b.subrange(72, 80) =~= le_bytes(p.nonce as nat, 8));
    let tail = p.user_agent + le_bytes(p.start_height as nat, 4) + seq![rb];
    assert(b.skip(80) =~= varint_bytes(ul) + tail);
    assert(ul < pow256(8) && p.version < pow256(4) && p.services < pow256(8) && p.timestamp
        < pow256(8) && p.nonce < pow256(8) && p.start_height < pow256(4)) by {
        reveal_with_fuel(pow256, 9);
    }
    lemma_parse_varint_roundtrip(ul, tail);
    assert(parse_varint(b.skip(80)) == Some((ul, vl)));
    assert(b.len() == 80 + vl + ul + 5);
    assert(b[b.len() - 1] == rb);
    assert(b.subrange((80 + vl) as int, (80 + vl + ul) as int) =~= p.user_agent);
    assert(b.subrange((80 + vl + ul) as int, (84 + vl + ul) as int) =~= le_bytes(
        p.start_height as nat,
        4,
    ));
    crate::wire::lemma_le_val_le_bytes(p.version as nat, 4);
    crate::wire::lemma_le_val_le_bytes(p.services as nat, 8);
    crate::wire::lemma_le_val_le_bytes(p.timestamp as nat, 8);
    crate::wire::lemma_le_val_le_bytes(p.nonce as nat, 8);
    crate::wire::lemma_le_val_le_bytes(p.start_height as nat, 4);
    lemma_parse_addr_roundtrip(p.receiver);
    lemma_parse_addr_roundtrip(p.sender);
    assert(parse_version_payload(b) == Some(p));
}

/// Twelve bytes of command field for every well-formed message.
pub proof fn lemma_command_len(m: MessageModel)
    requires
        msg_wf(m),
    ensures
        command_of(m).len() == 12,
{
}

/// Decoding a buffer that starts with the complete frame of a well-formed
/// message yields exactly that message and consumes exactly the frame.
pub proof fn lemma_decode_frame(m: MessageModel, rest: Seq<u8>)
    requires
        msg_wf(m),
    ensures
        frame_len(frame_bytes(m) + rest) == frame_bytes(m).len(),
        decode_spec(frame_bytes(m) + rest) == Ok::<Option<MessageModel>, DecodeError>(Some(m)),
{
    let pl = payload_bytes(m);
    let b = frame_bytes(m) + rest;
    lemma_payload_len_bounded(m);
    lemma_command_len(m);
    lemma_le_bytes_len(pl.len(), 4);
    lemma_le_bytes_len(checksum_of(pl) as nat, 4);
    assert(frame_bytes(m).len() == 24 + pl.len());
    assert(b.subrange(0, 4) =~= magic_bytes());
    assert(b.subrange(4, 16) =~= command_of(m));
    assert(b.subrange(16, 20) =~= le_bytes(pl.len(), 4));
    assert(b.subrange(20, 24) =~= le_bytes(checksum_of(pl) as nat, 4));
    assert(pow256(4) == 0x1_0000_0000) by {
        reveal_with_fuel(pow256, 5);
    }
    crate::wire::lemma_le_val_le_bytes(pl.len(), 4);
    crate::wire::lemma_le_val_le_bytes(checksum_of(pl) as nat, 4);
    assert(frame_payload_len(b) == pl.len());
    assert(b.subrange(24, frame_len(b) as int) =~= pl);
    assert(command_version() != command_verack()) by {
        assert(command_version()[3] == 115u8 && command_verack()[3] == 97u8);
    }
    match m {
        MessageModel::Version(p) => {
            lemma_parse_version_roundtrip(p);
        },
        MessageModel::Verack => {},
        MessageModel::Other { command, payload } => {},
    }
}

/// Round-trip law: a well-formed message, encoded and then decoded, returns
/// exactly itself, consuming exactly its own frame.
pub proof fn lemma_encode_decode_roundtrip(m: MessageModel)
    requires
        msg_wf(m),
    ensures
        decode_spec(frame_bytes(m)) == Ok::<Option<MessageModel>, DecodeError>(Some(m)),
        frame_len(frame_bytes(m)) == frame_bytes(m).len(),
{
    lemma_decode_frame(m, Seq::empty());
    assert(frame_bytes(m) + Seq::<u8>::empty() =~= frame_bytes(m));
}

/// Any strict prefix of a well-formed frame decodes to "no message yet".
pub proof fn lemma_decode_incomplete(m: MessageModel, i: int)
    requires
        msg_wf(m),
        0 <= i < frame_bytes(m).len(),
    ensures
        decode_spec(frame_bytes(m).take(i)) == Ok::<Option<MessageModel>, DecodeError>(None),
{
    let f = frame_bytes(m);
    let b = f.take(i);
    let pl = payload_bytes(m);
    lemma_payload_len_bounded(m);
    lemma_command_len(m);
    lemma_le_bytes_len(pl.len(), 4);
    lemma_le_bytes_len(checksum_of(pl) as nat, 4);
    assert(f.len() == 24 + pl.len());
    if i >= 4 {
        assert(b.subrange(0, 4) =~= magic_bytes());
        if i >= 24 {
            assert(b.subrange(16, 20) =~= le_bytes(pl.len(), 4));
            assert(pow256(4) == 0x1_0000_0000) by {
                reveal_with_fuel(pow256, 5);
            }
            crate::wire::lemma_le_val_le_bytes(pl.len(), 4);
            assert(frame_payload_len(b) == pl.len());
            assert(b.len() < frame_len(b));
        }
    }
}

/// Chunked-reassembly law: a buffer holding any strict prefix of a frame
/// yields "no message yet", and once the remaining bytes arrive the whole
/// buffer decodes to the original message.
pub proof fn lemma_chunked_reassembly(m: MessageModel, i: int)
    requires
        msg_wf(m),
        0 <= i < frame_bytes(m).len(),
    ensures
        decode_spec(frame_bytes(m).take(i)) == Ok::<Option<MessageModel>, DecodeError>(None),
        frame_bytes(m).take(i) + frame_bytes(m).skip(i) == frame_bytes(m),
        decode_spec(frame_bytes(m).take(i) + frame_bytes(m).skip(i)) == Ok::<
            Option<MessageModel>,
            DecodeError,
        >(Some(m)),
{
    lemma_decode_incomplete(m, i);
    assert(frame_bytes(m).take(i) + frame_bytes(m).skip(i) =~= frame_bytes(m));
    lemma_encode_decode_roundtrip(m);
}


/// The protocol version a Version message announces.
pub const PROTOCOL_VERSION: u32 = 70001;

/// Message types the handshake sends.
#[derive(Clone, Copy, Debug, PartialEq, Eq, Structural)]
pub enum NetworkMessageType {
    Version,
    Verack,
}

/// The placeholder sender address a Version message carries: the unspecified
/// IPv4 address in its sixteen-byte mapped form, as the wire format carries
/// IPv4 addresses.
pub open spec fn unspecified_sender_ip() -> Seq<u8> {
    seq![0u8, 0u8, 0u8, 0u8, 0u8, 0u8, 0u8, 0u8, 0u8, 0u8, 0xffu8, 0xffu8, 0u8, 0u8, 0u8, 0u8]
}

/// The Version message a codec builds: fixed protocol version, no service
/// flags, the peer as receiver, an unspecified sender, the configured
/// user-agent and a start height of zero.
pub open spec fn version_message_model(
    addr: AddrModel,
    user_agent: Seq<u8>,
    timestamp: u64,
    nonce: u64,
) -> VersionModel {
    VersionModel {
        version: PROTOCOL_VERSION,
        services: 0,
        timestamp: timestamp,
        receiver: AddrModel { services: 0, ip: addr.ip, port: addr.port },
        sender: AddrModel { services: 0, ip: unspecified_sender_ip(), port: 0 },
        nonce: nonce,
        user_agent: user_agent,
        start_height: 0,
        relay: false,
    }
}

/// Encoder and decoder for the frames a handshake initiator exchanges.
#[derive(Clone, Debug, PartialEq, Eq)]
pub struct RawNetworkMessageCodec {
    pub node_address: NetAddress,
    pub user_agent: Vec<u8>,
}

impl RawNetworkMessageCodec {
    /// A codec is well-formed when its user-agent leaves the Version payload
    /// under the safety bound.
    pub open spec fn wf(&self) -> bool {
        self.user_agent@.len() <= MAX_USER_AGENT_LEN
    }

    /// The message a given message type encodes to, with the clock and nonce
    /// the caller supplies.
    pub open spec fn message_model_of(
        &self,
        item: NetworkMessageType,
        timestamp: u64,
        nonce: u64,
    ) -> MessageModel {
        match item {
            NetworkMessageType::Version => MessageModel::Version(
                version_message_model(self.node_address@, self.user_agent@, timestamp, nonce),
            ),
            NetworkMessageType::Verack => MessageModel::Verack,
        }
    }

    /// Creates a codec for initiating a connection; never fails.
    pub fn new_client(node_address: NetAddress, user_agent: Vec<u8>) -> (r: Result<
        Self,
        DecodeError,
    >)
        ensures
            r matches Ok(c) && c == (RawNetworkMessageCodec { node_address, user_agent }),
    {
        Ok(RawNetworkMessageCodec { node_address, user_agent })
    }

    /// Builds the Version message announcing this node to the peer. The
    /// timestamp and nonce come from the caller, who owns the clock.
    pub fn version_message(&self, timestamp: u64, nonce: u64) -> (m: NetworkMessage)
        ensures
            m@ == MessageModel::Version(
                version_message_model(self.node_address@, self.user_agent@, timestamp, nonce),
            ),
            self.wf() ==> msg_wf(m@),
    {
        let sender = NetAddress {
            services: 0,
            ip: [
                0u8,
                0u8,
                0u8,
                0u8,
                0u8,
                0u8,
                0u8,
                0u8,
                0u8,
                0u8,
                0xffu8,
                0xffu8,
                0u8,
                0u8,
                0u8,
                0u8,
            ],
            port: 0,
        };
        let receiver = NetAddress {
            services: 0,
            ip: self.node_address.ip,
            port: self.node_address.port,
        };
        let m = NetworkMessage::Version(
            VersionPayload {
                version: PROTOCOL_VERSION,
                services: 0,
                timestamp,
                receiver,
                sender,
                nonce,
                user_agent: self.user_agent.clone(),
                start_height: 0,
                relay: false,
            },
        );
        proof {
            assert(sender@.ip =~= unspecified_sender_ip());
        }
        m
    }

    /// Builds the Verack acknowledgement.
    pub fn verack_message(&self) -> (m: NetworkMessage)
        ensures
            m@ == MessageModel::Verack,
            msg_wf(m@),
    {
        NetworkMessage::Verack
    }

    /// Encodes one outgoing message as a complete frame appended to `dst`.
    pub fn encode(&self, item: NetworkMessageType, timestamp: u64, nonce: u64, dst: &mut Vec<u8>)
        requires
            self.wf(),
        ensures
            final(dst)@ == old(dst)@ + frame_bytes(self.message_model_of(item, timestamp, nonce)),
    {
        match item {
            NetworkMessageType::Version => {
                let m = self.version_message(timestamp, nonce);
                encode_message(&m, dst);
            },
            NetworkMessageType::Verack => {
                let m = self.verack_message();
                encode_message(&m, dst);
            },
        }
    }

    /// Attempts to decode one complete frame from the front of `buf`; see
    /// `decode`.
    pub fn decode_next(&self, buf: &mut Vec<u8>) -> (r: Result<
        Option<NetworkMessage>,
        DecodeError,
    >)
        ensures
            decode_post(old(buf)@, r, final(buf)@),
    {
        decode(buf)
    }
}

} // verus!
