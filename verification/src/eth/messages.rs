//! The logical messages of the RLPx handshake. On the wire a message is one
//! raw type-id byte followed by an RLP-encoded payload: `Hello` announces
//! protocol version, client identifier, capabilities, listening port and the
//! node's public key; `Disconnect` carries a reason code; `Ping` and `Pong`
//! carry an empty list. Parsing is total on bytes and the exact inverse of
//! encoding on well-formed messages.

use vstd::prelude::*;

use crate::eth::rlp::{
    lemma_min_be_first_nonzero, lemma_min_be_len_bound, lemma_min_be_val, lemma_rlp_list_header,
    lemma_rlp_str_header, min_be_bytes, min_be_len, rlp_header, rlp_list_bytes, rlp_str_bytes,
    rlp_uint_bytes, write_rlp_list, write_rlp_str, write_rlp_uint,
};
use crate::wire::{be_val, lemma_be_bytes_len, pow256, read_be_len, vec_sub};

verus! {

/// One announced capability: a name and a version.
#[derive(Clone, Debug, PartialEq, Eq)]
pub struct Capability {
    pub name: Vec<u8>,
    pub version: u64,
}

/// Mathematical model of a `Capability`.
pub struct CapModel {
    pub name: Seq<u8>,
    pub version: u64,
}

impl View for Capability {
    type V = CapModel;

    open spec fn view(&self) -> CapModel {
        CapModel { name: self.name@, version: self.version }
    }
}

/// The Hello announcement: the first message of the handshake.
#[derive(Clone, Debug, PartialEq, Eq)]
pub struct HelloMessage {
    pub protocol_version: u8,
    pub client_version: Vec<u8>,
    pub capabilities: Vec<Capability>,
    pub port: u16,
    pub id: Vec<u8>,
}

/// Mathematical model of a `HelloMessage`.
pub struct HelloModel {
    pub protocol_version: u8,
    pub client_version: Seq<u8>,
    pub capabilities: Seq<CapModel>,
    pub port: u16,
    pub id: Seq<u8>,
}

/// The models of a capability sequence, element by element.
pub open spec fn caps_views(cs: Seq<Capability>) -> Seq<CapModel> {
    cs.map_values(|c: Capability| c@)
}

impl View for HelloMessage {
    type V = HelloModel;

    open spec fn view(&self) -> HelloModel {
        HelloModel {
            protocol_version: self.protocol_version,
            client_version: self.client_version@,
            capabilities: caps_views(self.capabilities@),
            port: self.port,
            id: self.id@,
        }
    }
}

/// The reasons a Disconnect message may carry.
#[derive(Clone, Copy, Debug, PartialEq, Eq, Structural)]
pub enum DisconnectReason {
    DisconnectRequested,
    TcpSubsystemError,
    ProtocolBreach,
    UselessPeer,
    TooManyPeers,
    AlreadyConnected,
    IncompatibleP2PProtocolVersion,
    NullNodeIdentity,
    ClientQuitting,
    UnexpectedHandshakeIdentity,
    ConnectedToSelf,
    PingTimeout,
    SubprotocolSpecific,
}

/// The wire code of each disconnect reason.
pub open spec fn reason_code(r: DisconnectReason) -> u8 {
    match r {
        DisconnectReason::DisconnectRequested => 0x00,
        DisconnectReason::TcpSubsystemError => 0x01,
        DisconnectReason::ProtocolBreach => 0x02,
        DisconnectReason::UselessPeer => 0x03,
        DisconnectReason::TooManyPeers => 0x04,
        DisconnectReason::AlreadyConnected => 0x05,
        DisconnectReason::IncompatibleP2PProtocolVersion => 0x06,
        DisconnectReason::NullNodeIdentity => 0x07,
        DisconnectReason::ClientQuitting => 0x08,
        DisconnectReason::UnexpectedHandshakeIdentity => 0x09,
        DisconnectReason::ConnectedToSelf => 0x0a,
        DisconnectReason::PingTimeout => 0x0b,
        DisconnectReason::SubprotocolSpecific => 0x10,
    }
}

/// The reason a wire code names, if any.
pub open spec fn reason_of_code(c: u8) -> Option<DisconnectReason> {
    if c == 0x00 {
        Some(DisconnectReason::DisconnectRequested)
    } else if c == 0x01 {
        Some(DisconnectReason::TcpSubsystemError)
    } else if c == 0x02 {
        Some(DisconnectReason::ProtocolBreach)
    } else if c == 0x03 {
        Some(DisconnectReason::UselessPeer)
    } else if c == 0x04 {
        Some(DisconnectReason::TooManyPeers)
    } else if c == 0x05 {
        Some(DisconnectReason::AlreadyConnected)
    } else if c == 0x06 {
        Some(DisconnectReason::IncompatibleP2PProtocolVersion)
    } else if c == 0x07 {
        Some(DisconnectReason::NullNodeIdentity)
    } else if c == 0x08 {
        Some(DisconnectReason::ClientQuitting)
    } else if c == 0x09 {
        Some(DisconnectReason::UnexpectedHandshakeIdentity)
    } else if c == 0x0a {
        Some(DisconnectReason::ConnectedToSelf)
    } else if c == 0x0b {
        Some(DisconnectReason::PingTimeout)
    } else if c == 0x10 {
        Some(DisconnectReason::SubprotocolSpecific)
    } else {
        None
    }
}

/// The code is the reason's own.
pub proof fn lemma_reason_code_inverse(r: DisconnectReason)
    ensures
        reason_of_code(reason_code(r)) == Some(r),
{
}

/// Executable map from a reason to its code.
pub fn reason_to_code(r: DisconnectReason) -> (c: u8)
    ensures
        c == reason_code(r),
{
    match r {
        DisconnectReason::DisconnectRequested => 0x00,
        DisconnectReason::TcpSubsystemError => 0x01,
        DisconnectReason::ProtocolBreach => 0x02,
        DisconnectReason::UselessPeer => 0x03,
        DisconnectReason::TooManyPeers => 0x04,
        DisconnectReason::AlreadyConnected => 0x05,
        DisconnectReason::IncompatibleP2PProtocolVersion => 0x06,
        DisconnectReason::NullNodeIdentity => 0x07,
        DisconnectReason::ClientQuitting => 0x08,
        DisconnectReason::UnexpectedHandshakeIdentity => 0x09,
        DisconnectReason::ConnectedToSelf => 0x0a,
        DisconnectReason::PingTimeout => 0x0b,
        DisconnectReason::SubprotocolSpecific => 0x10,
    }
}

/// Executable map from a code to the reason it names.
pub fn reason_from_code(c: u8) -> (r: Option<DisconnectReason>)
    ensures
        r == reason_of_code(c),
{
    if c == 0x00 {
        Some(DisconnectReason::DisconnectRequested)
    } else if c == 0x01 {
        Some(DisconnectReason::TcpSubsystemError)
    } else if c == 0x02 {
        Some(DisconnectReason::ProtocolBreach)
    } else if c == 0x03 {
        Some(DisconnectReason::UselessPeer)
    } else if c == 0x04 {
        Some(DisconnectReason::TooManyPeers)
    } else if c == 0x05 {
        Some(DisconnectReason::AlreadyConnected)
    } else if c == 0x06 {
        Some(DisconnectReason::IncompatibleP2PProtocolVersion)
    } else if c == 0x07 {
        Some(DisconnectReason::NullNodeIdentity)
    } else if c == 0x08 {
        Some(DisconnectReason::ClientQuitting)
    } else if c == 0x09 {
        Some(DisconnectReason::UnexpectedHandshakeIdentity)
    } else if c == 0x0a {
        Some(DisconnectReason::ConnectedToSelf)
    } else if c == 0x0b {
        Some(DisconnectReason::PingTimeout)
    } else if c == 0x10 {
        Some(DisconnectReason::SubprotocolSpecific)
    } else {
        None
    }
}

/// A logical handshake message.
#[derive(Clone, Debug, PartialEq, Eq)]
pub enum RlpxMessage {
    Hello(HelloMessage),
    Disconnect(DisconnectReason),
    Ping,
    Pong,
}

/// Mathematical model of an `RlpxMessage`.
pub enum RlpxMessageModel {
    Hello(HelloModel),
    Disconnect(DisconnectReason),
    Ping,
    Pong,
}

impl View for RlpxMessage {
    type V = RlpxMessageModel;

    open spec fn view(&self) -> RlpxMessageModel {
        match self {
            RlpxMessage::Hello(h) => RlpxMessageModel::Hello(h@),
            RlpxMessage::Disconnect(r) => RlpxMessageModel::Disconnect(*r),
            RlpxMessage::Ping => RlpxMessageModel::Ping,
            RlpxMessage::Pong => RlpxMessageModel::Pong,
        }
    }
}

/// The encoding of one capability: a two-item list of name and version.
pub open spec fn cap_bytes(c: CapModel) -> Seq<u8> {
    rlp_list_bytes(rlp_str_bytes(c.name) + rlp_uint_bytes(c.version as nat))
}

/// The concatenated encodings of a capability sequence.
pub open spec fn caps_payload(cs: Seq<CapModel>) -> Seq<u8>
    decreases cs.len(),
{
    if cs.len() == 0 {
        Seq::empty()
    } else {
        cap_bytes(cs[0]) + caps_payload(cs.skip(1))
    }
}

/// The Hello list payload, item by item in wire order.
pub open spec fn hello_payload_bytes(h: HelloModel) -> Seq<u8> {
    rlp_uint_bytes(h.protocol_version as nat) + rlp_str_bytes(h.client_version) + rlp_list_bytes(
        caps_payload(h.capabilities),
    ) + rlp_uint_bytes(h.port as nat) + rlp_str_bytes(h.id)
}

/// The full wire bytes of a message: the type-id byte, then the payload.
pub open spec fn rlpx_message_bytes(m: RlpxMessageModel) -> Seq<u8> {
    match m {
        RlpxMessageModel::Hello(h) => seq![0x00u8] + rlp_list_bytes(hello_payload_bytes(h)),
        RlpxMessageModel::Disconnect(r) => seq![0x01u8] + rlp_list_bytes(
            rlp_uint_bytes(reason_code(r) as nat),
        ),
        RlpxMessageModel::Ping => seq![0x02u8] + rlp_list_bytes(Seq::empty()),
        RlpxMessageModel::Pong => seq![0x03u8] + rlp_list_bytes(Seq::empty()),
    }
}

/// Which capabilities are well-formed: the name short enough for every
/// length computation to stay tame.
pub open spec fn cap_wf(c: CapModel) -> bool {
    c.name.len() < 0x1_0000_0000
}

/// Which Hello messages are well-formed: a sixty-four byte node identifier
/// and fields whose encodings keep the payload within one RLP long length.
pub open spec fn hello_wf(h: HelloModel) -> bool {
    &&& h.id.len() == 64
    &&& h.client_version.len() < 0x1_0000_0000
    &&& (forall|i: int| 0 <= i < h.capabilities.len() ==> cap_wf(#[trigger] h.capabilities[i]))
    &&& caps_payload(h.capabilities).len() < 0x1_0000_0000
}

/// Which messages are well-formed.
pub open spec fn rlpx_msg_wf(m: RlpxMessageModel) -> bool {
    match m {
        RlpxMessageModel::Hello(h) => hello_wf(h),
        _ => true,
    }
}

/// Appends the encoding of one capability.
fn encode_cap(c: &Capability, out: &mut Vec<u8>)
    ensures
        final(out)@ == old(out)@ + cap_bytes(c@),
{
    let mut payload: Vec<u8> = Vec::new();
    write_rlp_str(&mut payload, &c.name);
    write_rlp_uint(&mut payload, c.version);
    assert(payload@ =~= rlp_str_bytes(c@.name) + rlp_uint_bytes(c@.version as nat));
    write_rlp_list(out, &payload);
}

/// Appending one capability extends the concatenated encoding by its own.
pub proof fn lemma_caps_payload_push(cs: Seq<CapModel>, c: CapModel)
    ensures
        caps_payload(cs.push(c)) == caps_payload(cs) + cap_bytes(c),
    decreases cs.len(),
{
    if cs.len() == 0 {
        assert(cs.push(c)[0] == c);
        assert(cs.push(c).skip(1) =~= Seq::<CapModel>::empty());
        assert(caps_payload(Seq::<CapModel>::empty()) == Seq::<u8>::empty());
        assert(caps_payload(cs.push(c)) == cap_bytes(c) + caps_payload(cs.push(c).skip(1)));
        assert(caps_payload(cs.push(c)) =~= cap_bytes(c));
        assert(caps_payload(cs) + cap_bytes(c) =~= cap_bytes(c));
    } else {
        assert(cs.push(c).skip(1) =~= cs.skip(1).push(c));
        lemma_caps_payload_push(cs.skip(1), c);
        assert(caps_payload(cs.push(c)) =~= caps_payload(cs) + cap_bytes(c));
    }
}

/// Appends the Hello list payload.
fn encode_hello_payload(h: &HelloMessage, out: &mut Vec<u8>)
    ensures
        final(out)@ == old(out)@ + hello_payload_bytes(h@),
{
    write_rlp_uint(out, h.protocol_version as u64);
    write_rlp_str(out, &h.client_version);
    let mut caps: Vec<u8> = Vec::new();
    let ncaps = h.capabilities.len();
    let mut i: usize = 0;
    while i < ncaps
        invariant
            i <= ncaps,
            ncaps == h.capabilities@.len(),
            caps@ == caps_payload(caps_views(h.capabilities@).take(i as int)),
        decreases ncaps - i,
    {
        encode_cap(&h.capabilities[i], &mut caps);
        i = i + 1;
        proof {
            let views = caps_views(h.capabilities@);
            assert(views[i - 1] == h.capabilities@[i - 1]@);
            assert(views.take(i as int) =~= views.take(i - 1).push(views[i - 1]));
            lemma_caps_payload_push(views.take(i - 1), views[i - 1]);
        }
    }
    proof {
        let views = caps_views(h.capabilities@);
        assert(views.take(ncaps as int) =~= views);
        assert(caps@ == caps_payload(h@.capabilities));
    }
    write_rlp_list(out, &caps);
    write_rlp_uint(out, h.port as u64);
    write_rlp_str(out, &h.id);
    assert(out@ =~= old(out)@ + hello_payload_bytes(h@));
}

/// Encodes one message as its full wire bytes appended to `out`.
pub fn encode_rlpx_message(m: &RlpxMessage, out: &mut Vec<u8>)
    ensures
        final(out)@ == old(out)@ + rlpx_message_bytes(m@),
{
    match m {
        RlpxMessage::Hello(h) => {
            out.push(0x00u8);
            let mut payload: Vec<u8> = Vec::new();
            encode_hello_payload(h, &mut payload);
            write_rlp_list(out, &payload);
            assert(out@ =~= old(out)@ + rlpx_message_bytes(m@));
        },
        RlpxMessage::Disconnect(r) => {
            out.push(0x01u8);
            let mut payload: Vec<u8> = Vec::new();
            write_rlp_uint(&mut payload, reason_to_code(*r) as u64);
            write_rlp_list(out, &payload);
            assert(out@ =~= old(out)@ + rlpx_message_bytes(m@));
        },
        RlpxMessage::Ping => {
            out.push(0x02u8);
            let empty: Vec<u8> = Vec::new();
            write_rlp_list(out, &empty);
            assert(out@ =~= old(out)@ + rlpx_message_bytes(m@));
        },
        RlpxMessage::Pong => {
            out.push(0x03u8);
            let empty: Vec<u8> = Vec::new();
            write_rlp_list(out, &empty);
            assert(out@ =~= old(out)@ + rlpx_message_bytes(m@));
        },
    }
}


/// Parses a string item at the front of `b`: its payload and the bytes consumed.
pub open spec fn parse_str(b: Seq<u8>) -> Option<(Seq<u8>, nat)> {
    match rlp_header(b) {
        Some((is_list, hl, pl)) => {
            if !is_list && b.len() >= hl + pl {
                Some((b.subrange(hl as int, (hl + pl) as int), hl + pl))
            } else {
                None
            }
        },
        None => None,
    }
}

/// Parses an integer item at the front of `b`: its value and the bytes
/// consumed. At most eight value bytes, and no leading zero.
pub open spec fn parse_uint(b: Seq<u8>) -> Option<(nat, nat)> {
    match parse_str(b) {
        Some((payload, n)) => {
            if payload.len() > 8 {
                None
            } else if payload.len() > 0 && payload[0] == 0 {
                None
            } else {
                Some((be_val(payload), n))
            }
        },
        None => None,
    }
}

/// Parses a list header at the front of `b`: the header length and the
/// payload length, with the payload fully present.
pub open spec fn parse_list(b: Seq<u8>) -> Option<(nat, nat)> {
    match rlp_header(b) {
        Some((is_list, hl, pl)) => {
            if is_list && b.len() >= hl + pl {
                Some((hl, pl))
            } else {
                None
            }
        },
        None => None,
    }
}

/// Parses one capability item: a two-item list of name and version, consumed
/// exactly.
pub open spec fn parse_cap(b: Seq<u8>) -> Option<(CapModel, nat)> {
    match parse_list(b) {
        Some((hl, pl)) => {
            let region = b.subrange(hl as int, (hl + pl) as int);
            match parse_str(region) {
                Some((name, n1)) => {
                    match parse_uint(region.skip(n1 as int)) {
                        Some((v, n2)) => {
                            if n1 + n2 == region.len() {
                                Some((CapModel { name, version: v as u64 }, hl + pl))
                            } else {
                                None
                            }
                        },
                        None => None,
                    }
                },
                None => None,
            }
        },
        None => None,
    }
}

/// Parses a whole region of back-to-back capability items.
pub open spec fn parse_caps(b: Seq<u8>) -> Option<Seq<CapModel>>
    decreases b.len(),
{
    if b.len() == 0 {
        Some(Seq::empty())
    } else {
        match parse_cap(b) {
            Some((c, n)) => {
                if 0 < n <= b.len() {
                    match parse_caps(b.skip(n as int)) {
                        Some(rest) => Some(seq![c] + rest),
                        None => None,
                    }
                } else {
                    None
                }
            },
            None => None,
        }
    }
}

/// Parses the Hello list payload: the five items in wire order, consumed
/// exactly, with a sixty-four byte node identifier.
pub open spec fn parse_hello_payload(b: Seq<u8>) -> Option<HelloModel> {
    match parse_uint(b) {
        Some((pv, n1)) => {
            if pv > 255 {
                None
            } else {
                match parse_str(b.skip(n1 as int)) {
                    Some((cv, n2)) => {
                        match parse_list(b.skip((n1 + n2) as int)) {
                            Some((hl, pl)) => {
                                let caps_start = n1 + n2 + hl;
                                let region = b.subrange(
                                    caps_start as int,
                                    (caps_start + pl) as int,
                                );
                                match parse_caps(region) {
                                    Some(caps) => {
                                        let p4 = caps_start + pl;
                                        match parse_uint(b.skip(p4 as int)) {
                                            Some((port, n4)) => {
                                                if port > 0xffff {
                                                    None
                                                } else {
                                                    match parse_str(b.skip((p4 + n4) as int)) {
                                                        Some((id, n5)) => {
                                                            if id.len() == 64 && p4 + n4 + n5
                                                                == b.len() {
                                                                Some(
                                                                    HelloModel {
                                                                        protocol_version: pv as u8,
                                                                        client_version: cv,
                                                                        capabilities: caps,
                                                                        port: port as u16,
                                                                        id,
                                                                    },
                                                                )
                                                            } else {
                                                                None
                                                            }
                                                        },
                                                        None => None,
                                                    }
                                                }
                                            },
                                            None => None,
                                        }
                                    },
                                    None => None,
                                }
                            },
                            None => None,
                        }
                    },
                    None => None,
                }
            }
        },
        None => None,
    }
}

/// Parses a Disconnect payload: a one-integer list, or the bare integer some
/// peers send, consumed exactly, naming a known reason.
pub open spec fn parse_disconnect(b: Seq<u8>) -> Option<DisconnectReason> {
    match parse_list(b) {
        Some((hl, pl)) => {
            let region = b.subrange(hl as int, (hl + pl) as int);
            match parse_uint(region) {
                Some((v, n)) => {
                    if n == region.len() && hl + pl == b.len() && v <= 255 {
                        reason_of_code(v as u8)
                    } else {
                        None
                    }
                },
                None => None,
            }
        },
        None => {
            match parse_uint(b) {
                Some((v, n)) => {
                    if n == b.len() && v <= 255 {
                        reason_of_code(v as u8)
                    } else {
                        None
                    }
                },
                None => None,
            }
        },
    }
}

/// Parses a whole logical message: the type-id byte, then its payload,
/// consumed exactly. Total on bytes: every malformed input yields `None`.
pub open spec fn parse_rlpx_message(b: Seq<u8>) -> Option<RlpxMessageModel> {
    if b.len() == 0 {
        None
    } else if b[0] == 0x00 {
        match parse_list(b.skip(1)) {
            Some((hl, pl)) => {
                if 1 + hl + pl == b.len() {
                    match parse_hello_payload(b.subrange((1 + hl) as int, b.len() as int)) {
                        Some(h) => Some(RlpxMessageModel::Hello(h)),
                        None => None,
                    }
                } else {
                    None
                }
            },
            None => None,
        }
    } else if b[0] == 0x01 {
        match parse_disconnect(b.skip(1)) {
            Some(r) => Some(RlpxMessageModel::Disconnect(r)),
            None => None,
        }
    } else if b[0] == 0x02 {
        if b.len() == 2 && b[1] == 0xc0 {
            Some(RlpxMessageModel::Ping)
        } else {
            None
        }
    } else if b[0] == 0x03 {
        if b.len() == 2 && b[1] == 0xc0 {
            Some(RlpxMessageModel::Pong)
        } else {
            None
        }
    } else {
        None
    }
}

/// Reads a string item at `pos`: the payload and the bytes consumed.
fn parse_str_at(b: &Vec<u8>, pos: usize) -> (r: Option<(Vec<u8>, usize)>)
    requires
        pos <= b@.len(),
    ensures
        ({
            let s = parse_str(b@.skip(pos as int));
            match (r, s) {
                (Some((v, n)), Some((sv, sn))) => v@ == sv && n == sn && pos + n <= b@.len(),
                (None, None) => true,
                _ => false,
            }
        }),
{
    let n = b.len();
    let ghost t = b@.skip(pos as int);
    match crate::eth::rlp::rlp_header_exec(b, pos) {
        Some((is_list, hl, pl)) => {
            if is_list {
                return None;
            }
            assert(hl <= n - pos);
            if pl > ((n - pos) - hl) as u64 {
                return None;
            }
            let pl_us = pl as usize;
            let v = vec_sub(b, pos + hl, pos + hl + pl_us);
            proof {
                assert(t.subrange(hl as int, (hl + pl_us) as int) =~= b@.subrange(
                    pos + hl,
                    pos + hl + pl_us,
                ));
            }
            Some((v, hl + pl_us))
        },
        None => None,
    }
}

/// Reads an integer item at `pos`: the value and the bytes consumed.
fn parse_uint_at(b: &Vec<u8>, pos: usize) -> (r: Option<(u64, usize)>)
    requires
        pos <= b@.len(),
    ensures
        ({
            let s = parse_uint(b@.skip(pos as int));
            match (r, s) {
                (Some((v, n)), Some((sv, sn))) => v == sv && n == sn && pos + n <= b@.len(),
                (None, None) => true,
                _ => false,
            }
        }),
{
    let n = b.len();
    let ghost t = b@.skip(pos as int);
    match crate::eth::rlp::rlp_header_exec(b, pos) {
        Some((is_list, hl, pl)) => {
            if is_list {
                return None;
            }
            assert(hl <= n - pos);
            if pl > ((n - pos) - hl) as u64 {
                return None;
            }
            let pl_us = pl as usize;
            proof {
                assert(t.subrange(hl as int, (hl + pl_us) as int) =~= b@.subrange(
                    pos + hl,
                    pos + hl + pl_us,
                ));
            }
            if pl_us > 8 {
                return None;
            }
            if pl_us > 0 && b[pos + hl] == 0 {
                proof {
                    assert(t.subrange(hl as int, (hl + pl_us) as int)[0] == b@[pos + hl]);
                }
                return None;
            }
            proof {
                if pl_us > 0 {
                    assert(t.subrange(hl as int, (hl + pl_us) as int)[0] == b@[pos + hl]);
                }
            }
            let v = read_be_len(b, pos + hl, pl_us);
            Some((v, hl + pl_us))
        },
        None => None,
    }
}

/// Reads a list header at `pos`: the header and payload lengths, with the
/// payload fully present.
fn parse_list_at(b: &Vec<u8>, pos: usize) -> (r: Option<(usize, usize)>)
    requires
        pos <= b@.len(),
    ensures
        ({
            let s = parse_list(b@.skip(pos as int));
            match (r, s) {
                (Some((hl, pl)), Some((shl, spl))) => hl == shl && pl == spl && pos + hl + pl
                    <= b@.len(),
                (None, None) => true,
                _ => false,
            }
        }),
{
    let n = b.len();
    match crate::eth::rlp::rlp_header_exec(b, pos) {
        Some((is_list, hl, pl)) => {
            if !is_list {
                return None;
            }
            assert(hl <= n - pos);
            if pl > ((n - pos) - hl) as u64 {
                return None;
            }
            Some((hl, pl as usize))
        },
        None => None,
    }
}

/// Reads one capability item at `pos`.
fn parse_cap_at(b: &Vec<u8>, pos: usize) -> (r: Option<(Capability, usize)>)
    requires
        pos <= b@.len(),
    ensures
        ({
            let s = parse_cap(b@.skip(pos as int));
            match (r, s) {
                (Some((c, n)), Some((sc, sn))) => c@ == sc && n == sn && pos + n <= b@.len(),
                (None, None) => true,
                _ => false,
            }
        }),
{
    let n = b.len();
    let ghost t = b@.skip(pos as int);
    let (hl, pl) = match parse_list_at(b, pos) {
        Some(x) => x,
        None => {
            return None;
        },
    };
    let region = vec_sub(b, pos + hl, pos + hl + pl);
    proof {
        assert(t.subrange(hl as int, (hl + pl) as int) =~= b@.subrange(pos + hl, pos + hl + pl));
        assert(region@.skip(0) =~= region@);
    }
    let (name, n1) = match parse_str_at(&region, 0) {
        Some(x) => x,
        None => {
            return None;
        },
    };
    let (v, n2) = match parse_uint_at(&region, n1) {
        Some(x) => x,
        None => {
            return None;
        },
    };
    if n1 + n2 == region.len() {
        Some((Capability { name, version: v }, hl + pl))
    } else {
        None
    }
}

/// Reads a whole region of back-to-back capability items.
fn parse_caps_exec(b: &Vec<u8>) -> (r: Option<Vec<Capability>>)
    ensures
        ({
            let s = parse_caps(b@);
            match (r, s) {
                (Some(v), Some(sv)) => caps_views(v@) == sv,
                (None, None) => true,
                _ => false,
            }
        }),
{
    let n = b.len();
    let mut acc: Vec<Capability> = Vec::new();
    let mut pos: usize = 0;
    proof {
        assert(b@.skip(0) =~= b@);
        match parse_caps(b@) {
            Some(rest) => {
                assert(caps_views(acc@) + rest =~= rest);
            },
            None => {},
        }
    }
    while pos < n
        invariant
            pos <= n,
            n == b@.len(),
            ({
                match parse_caps(b@.skip(pos as int)) {
                    Some(rest) => parse_caps(b@) == Some(caps_views(acc@) + rest),
                    None => parse_caps(b@) is None,
                }
            }),
        decreases n - pos,
    {
        let ghost t = b@.skip(pos as int);
        match parse_cap_at(b, pos) {
            None => {
                return None;
            },
            Some((c, used)) => {
                proof {
                    assert(parse_cap(t) matches Some((sc, sn)) && sn == hl_pl_of(t) && sn >= 1) by {
                        assert(parse_cap(t) is Some);
                        lemma_parse_cap_consumes(t);
                    }
                }
                acc.push(c);
                let ghost old_pos = pos;
                let ghost old_acc = acc@.drop_last();
                pos = pos + used;
                proof {
                    assert(t.skip(used as int) =~= b@.skip(pos as int));
                    assert(caps_views(acc@) =~= caps_views(old_acc).push(c@));
                    assert(caps_views(old_acc).push(c@) =~= caps_views(old_acc) + seq![c@]);
                    match parse_caps(b@.skip(pos as int)) {
                        Some(rest) => {
                            assert(caps_views(old_acc) + (seq![c@] + rest) =~= caps_views(acc@)
                                + rest);
                        },
                        None => {},
                    }
                }
            },
        }
    }
    assert(b@.skip(pos as int).len() == 0);
    assert(parse_caps(b@.skip(pos as int)) == Some(Seq::<CapModel>::empty()));
    assert(caps_views(acc@) + Seq::<CapModel>::empty() =~= caps_views(acc@));
    Some(acc)
}

/// What `parse_cap` consumes: the whole list item, at least one byte.
pub open spec fn hl_pl_of(b: Seq<u8>) -> nat {
    match parse_list(b) {
        Some((hl, pl)) => hl + pl,
        None => 0,
    }
}

/// A parsed capability consumes its whole list item, which is nonempty and
/// within the buffer.
pub proof fn lemma_parse_cap_consumes(b: Seq<u8>)
    requires
        parse_cap(b) is Some,
    ensures
        parse_cap(b) matches Some((c, n)) && n == hl_pl_of(b) && 1 <= n <= b.len(),
{
}

/// Reads the Hello list payload.
fn parse_hello_payload_exec(b: &Vec<u8>) -> (r: Option<HelloMessage>)
    ensures
        ({
            let s = parse_hello_payload(b@);
            match (r, s) {
                (Some(h), Some(sh)) => h@ == sh,
                (None, None) => true,
                _ => false,
            }
        }),
{
    let n = b.len();
    proof {
        assert(b@.skip(0) =~= b@);
    }
    let (pv, n1) = match parse_uint_at(b, 0) {
        Some(x) => x,
        None => {
            return None;
        },
    };
    if pv > 255 {
        return None;
    }
    let (cv, n2) = match parse_str_at(b, n1) {
        Some(x) => x,
        None => {
            return None;
        },
    };
    proof {
        assert(b@.skip(n1 as int).skip(n2 as int) =~= b@.skip((n1 + n2) as int));
    }
    let (hl3, pl3) = match parse_list_at(b, n1 + n2) {
        Some(x) => x,
        None => {
            return None;
        },
    };
    let caps_start = n1 + n2 + hl3;
    let region = vec_sub(b, caps_start, caps_start + pl3);
    let caps = match parse_caps_exec(&region) {
        Some(x) => x,
        None => {
            return None;
        },
    };
    let p4 = caps_start + pl3;
    let (port, n4) = match parse_uint_at(b, p4) {
        Some(x) => x,
        None => {
            return None;
        },
    };
    if port > 0xffff {
        return None;
    }
    proof {
        assert(b@.skip(p4 as int).skip(n4 as int) =~= b@.skip((p4 + n4) as int));
    }
    let (id, n5) = match parse_str_at(b, p4 + n4) {
        Some(x) => x,
        None => {
            return None;
        },
    };
    if id.len() == 64 && p4 + n4 + n5 == n {
        Some(
            HelloMessage {
                protocol_version: pv as u8,
                client_version: cv,
                capabilities: caps,
                port: port as u16,
                id,
            },
        )
    } else {
        None
    }
}

/// Reads a Disconnect payload.
fn parse_disconnect_exec(b: &Vec<u8>) -> (r: Option<DisconnectReason>)
    ensures
        r == parse_disconnect(b@),
{
    let n = b.len();
    proof {
        assert(b@.skip(0) =~= b@);
    }
    match parse_list_at(b, 0) {
        Some((hl, pl)) => {
            let region = vec_sub(b, hl, hl + pl);
            proof {
                assert(region@.skip(0) =~= region@);
            }
            match parse_uint_at(&region, 0) {
                Some((v, used)) => {
                    if used == region.len() && hl + pl == n && v <= 255 {
                        reason_from_code(v as u8)
                    } else {
                        None
                    }
                },
                None => None,
            }
        },
        None => {
            match parse_uint_at(b, 0) {
                Some((v, used)) => {
                    if used == n && v <= 255 {
                        reason_from_code(v as u8)
                    } else {
                        None
                    }
                },
                None => None,
            }
        },
    }
}

/// Decodes one whole logical message from `b`. Total on bytes: adversarial
/// or truncated input yields `None`, never a panic.
pub fn parse_rlpx_message_exec(b: &Vec<u8>) -> (r: Option<RlpxMessage>)
    ensures
        ({
            let s = parse_rlpx_message(b@);
            match (r, s) {
                (Some(m), Some(sm)) => m@ == sm,
                (None, None) => true,
                _ => false,
            }
        }),
{
    let n = b.len();
    if n == 0 {
        return None;
    }
    let id = b[0];
    if id == 0x00 {
        match parse_list_at(b, 1) {
            Some((hl, pl)) => {
                if 1 + hl + pl != n {
                    return None;
                }
                let region = vec_sub(b, 1 + hl, n);
                proof {
                    assert(b@.skip(1).subrange(hl as int, (hl + pl) as int) =~= b@.subrange(
                        (1 + hl) as int,
                        n as int,
                    ));
                }
                match parse_hello_payload_exec(&region) {
                    Some(h) => Some(RlpxMessage::Hello(h)),
                    None => None,
                }
            },
            None => None,
        }
    } else if id == 0x01 {
        let tail = vec_sub(b, 1, n);
        proof {
            assert(tail@ =~= b@.skip(1));
        }
        match parse_disconnect_exec(&tail) {
            Some(r) => Some(RlpxMessage::Disconnect(r)),
            None => None,
        }
    } else if id == 0x02 {
        if n == 2 && b[1] == 0xc0 {
            Some(RlpxMessage::Ping)
        } else {
            None
        }
    } else if id == 0x03 {
        if n == 2 && b[1] == 0xc0 {
            Some(RlpxMessage::Pong)
        } else {
            None
        }
    } else {
        None
    }
}


/// Length bounds of a string item's encoding.
pub proof fn lemma_rlp_str_len(s: Seq<u8>)
    requires
        s.len() < pow256(8),
    ensures
        s.len() <= rlp_str_bytes(s).len() <= s.len() + 9,
        rlp_str_bytes(s).len() >= 1,
{
    if s.len() == 1 && s[0] < 0x80 {
    } else if s.len() < 56 {
    } else {
        lemma_min_be_len_bound(s.len(), 8);
        lemma_be_bytes_len(s.len(), min_be_len(s.len()));
    }
}

/// Length bounds of a list item's encoding.
pub proof fn lemma_rlp_list_len(p: Seq<u8>)
    requires
        p.len() < pow256(8),
    ensures
        p.len() + 1 <= rlp_list_bytes(p).len() <= p.len() + 9,
{
    if p.len() < 56 {
    } else {
        lemma_min_be_len_bound(p.len(), 8);
        lemma_be_bytes_len(p.len(), min_be_len(p.len()));
    }
}

/// Length bounds of an integer item's encoding.
pub proof fn lemma_rlp_uint_len(v: nat)
    requires
        v < pow256(8),
    ensures
        1 <= rlp_uint_bytes(v).len() <= 9,
{
    lemma_min_be_len_bound(v, 8);
    lemma_be_bytes_len(v, min_be_len(v));
    lemma_rlp_str_len(min_be_bytes(v));
}

/// A string item parses back to its payload, whatever follows it.
pub proof fn lemma_parse_str_roundtrip(s: Seq<u8>, rest: Seq<u8>)
    requires
        s.len() < pow256(8),
    ensures
        parse_str(rlp_str_bytes(s) + rest) == Some((s, rlp_str_bytes(s).len() as nat)),
{
    lemma_rlp_str_header(s, rest);
}

/// An integer item parses back to its value, whatever follows it.
pub proof fn lemma_parse_uint_roundtrip(v: nat, rest: Seq<u8>)
    requires
        v < pow256(8),
    ensures
        parse_uint(rlp_uint_bytes(v) + rest) == Some((v, rlp_uint_bytes(v).len() as nat)),
{
    lemma_min_be_len_bound(v, 8);
    lemma_be_bytes_len(v, min_be_len(v));
    lemma_parse_str_roundtrip(min_be_bytes(v), rest);
    if v > 0 {
        lemma_min_be_first_nonzero(v);
    }
    lemma_min_be_val(v);
}

/// A list item's header parses back, whatever follows the item, and the
/// region it delimits is the payload.
pub proof fn lemma_parse_list_roundtrip(p: Seq<u8>, rest: Seq<u8>)
    requires
        p.len() < pow256(8),
    ensures
        ({
            let e = rlp_list_bytes(p);
            let b = e + rest;
            &&& parse_list(b) matches Some((hl, pl)) && pl == p.len() && hl + pl == e.len()
                && b.subrange(hl as int, (hl + pl) as int) == p
        }),
{
    lemma_rlp_list_header(p, rest);
}

/// A capability item parses back to itself, whatever follows it.
pub proof fn lemma_parse_cap_roundtrip(c: CapModel, rest: Seq<u8>)
    requires
        cap_wf(c),
    ensures
        parse_cap(cap_bytes(c) + rest) == Some((c, cap_bytes(c).len() as nat)),
{
    let p = rlp_str_bytes(c.name) + rlp_uint_bytes(c.version as nat);
    assert(pow256(8) == 0x1_0000_0000_0000_0000) by {
        reveal_with_fuel(pow256, 9);
    }
    lemma_rlp_str_len(c.name);
    lemma_rlp_uint_len(c.version as nat);
    lemma_parse_list_roundtrip(p, rest);
    let b = cap_bytes(c) + rest;
    let hl = (cap_bytes(c).len() - p.len()) as nat;
    assert(b.subrange(hl as int, (hl + p.len()) as int) == p);
    lemma_parse_str_roundtrip(c.name, rlp_uint_bytes(c.version as nat));
    assert(p.skip(rlp_str_bytes(c.name).len() as int) =~= rlp_uint_bytes(c.version as nat)
        + Seq::<u8>::empty());
    lemma_parse_uint_roundtrip(c.version as nat, Seq::empty());
    crate::wire::lemma_be_val_bound(min_be_bytes(c.version as nat));
}

/// A region of encoded capabilities parses back to the sequence it encodes.
pub proof fn lemma_parse_caps_roundtrip(cs: Seq<CapModel>)
    requires
        forall|i: int| 0 <= i < cs.len() ==> cap_wf(#[trigger] cs[i]),
    ensures
        parse_caps(caps_payload(cs)) == Some(cs),
    decreases cs.len(),
{
    if cs.len() == 0 {
        assert(caps_payload(cs).len() == 0);
    } else {
        let e0 = cap_bytes(cs[0]);
        let rest = caps_payload(cs.skip(1));
        lemma_parse_cap_roundtrip(cs[0], rest);
        assert(pow256(8) == 0x1_0000_0000_0000_0000) by {
            reveal_with_fuel(pow256, 9);
        }
        lemma_rlp_str_len(cs[0].name);
        lemma_rlp_uint_len(cs[0].version as nat);
        lemma_rlp_list_len(rlp_str_bytes(cs[0].name) + rlp_uint_bytes(cs[0].version as nat));
        assert(e0.len() >= 1);
        assert((e0 + rest).skip(e0.len() as int) =~= rest);
        assert(forall|i: int| 0 <= i < cs.skip(1).len() ==> cap_wf(#[trigger] cs.skip(1)[i])) by {
            assert(forall|i: int| 0 <= i < cs.skip(1).len() ==> cs.skip(1)[i] == cs[i + 1]);
        }
        lemma_parse_caps_roundtrip(cs.skip(1));
        assert(seq![cs[0]] + cs.skip(1) =~= cs);
    }
}

/// Skipping a concatenation's first part leaves its second.
pub proof fn lemma_skip_concat(a: Seq<u8>, b: Seq<u8>)
    ensures
        (a + b).skip(a.len() as int) == b,
{
    assert((a + b).skip(a.len() as int) =~= b);
}

/// Concatenation is associative.
pub proof fn lemma_add_assoc(a: Seq<u8>, b: Seq<u8>, c: Seq<u8>)
    ensures
        (a + b) + c == a + (b + c),
{
    assert((a + b) + c =~= a + (b + c));
}

/// A subrange of a suffix is a subrange of the whole.
pub proof fn lemma_subrange_of_skip(b: Seq<u8>, k: int, x: int, y: int)
    requires
        0 <= k <= b.len(),
        0 <= x <= y <= b.len() - k,
    ensures
        b.skip(k).subrange(x, y) == b.subrange(k + x, k + y),
{
    assert(b.skip(k).subrange(x, y) =~= b.subrange(k + x, k + y));
}

/// Skipping within a suffix skips within the whole.
pub proof fn lemma_skip_of_skip(b: Seq<u8>, k: int, x: int)
    requires
        0 <= k <= b.len(),
        0 <= x <= b.len() - k,
    ensures
        b.skip(k).skip(x) == b.skip(k + x),
{
    assert(b.skip(k).skip(x) =~= b.skip(k + x));
}

/// A well-formed Hello payload parses back to itself.
#[verifier::rlimit(100)]
#[verifier::spinoff_prover]
pub proof fn lemma_parse_hello_roundtrip(h: HelloModel)
    requires
        hello_wf(h),
    ensures
        parse_hello_payload(hello_payload_bytes(h)) == Some(h),
{
    let b = hello_payload_bytes(h);
    let e1 = rlp_uint_bytes(h.protocol_version as nat);
    let e2 = rlp_str_bytes(h.client_version);
    let e3 = rlp_list_bytes(caps_payload(h.capabilities));
    let e4 = rlp_uint_bytes(h.port as nat);
    let e5 = rlp_str_bytes(h.id);
    let r3 = e4 + e5;
    let r2 = e3 + r3;
    let r1 = e2 + r2;
    assert(pow256(8) == 0x1_0000_0000_0000_0000) by {
        reveal_with_fuel(pow256, 9);
    }
    lemma_rlp_uint_len(h.protocol_version as nat);
    lemma_rlp_str_len(h.client_version);
    lemma_rlp_list_len(caps_payload(h.capabilities));
    lemma_rlp_uint_len(h.port as nat);
    lemma_rlp_str_len(h.id);
    let n1 = e1.len() as int;
    let n2 = e2.len() as int;
    let n3 = e3.len() as int;
    let n4 = e4.len() as int;
    let n5 = e5.len() as int;
    lemma_add_assoc(e1 + e2 + e3, e4, e5);
    lemma_add_assoc(e1 + e2, e3, r3);
    lemma_add_assoc(e1, e2, r2);
    assert(b == e1 + r1);
    lemma_parse_uint_roundtrip(h.protocol_version as nat, r1);
    assert(parse_uint(b) == Some((h.protocol_version as nat, n1 as nat)));
    lemma_skip_concat(e1, r1);
    assert(b.skip(n1) == r1);
    lemma_parse_str_roundtrip(h.client_version, r2);
    assert(parse_str(b.skip(n1)) == Some((h.client_version, n2 as nat)));
    lemma_skip_of_skip(b, n1, n2);
    lemma_skip_concat(e2, r2);
    assert(b.skip(n1 + n2) == r2);
    lemma_parse_list_roundtrip(caps_payload(h.capabilities), r3);
    let pl = caps_payload(h.capabilities).len() as int;
    let hl = n3 - pl;
    assert(parse_list(b.skip(n1 + n2)) == Some((hl as nat, pl as nat)));
    let caps_start = n1 + n2 + hl;
    lemma_subrange_of_skip(b, n1 + n2, hl, hl + pl);
    assert(b.subrange(caps_start, caps_start + pl) == caps_payload(h.capabilities));
    lemma_parse_caps_roundtrip(h.capabilities);
    let p4 = caps_start + pl;
    assert(p4 == n1 + n2 + n3);
    lemma_skip_of_skip(b, n1 + n2, n3);
    lemma_skip_concat(e3, r3);
    assert(b.skip(p4) == r3);
    lemma_parse_uint_roundtrip(h.port as nat, e5);
    assert(parse_uint(b.skip(p4)) == Some((h.port as nat, n4 as nat)));
    lemma_skip_of_skip(b, p4, n4);
    lemma_skip_concat(e4, e5);
    assert(b.skip(p4 + n4) == e5);
    lemma_parse_str_roundtrip(h.id, Seq::empty());
    assert(e5 + Seq::<u8>::empty() =~= e5);
    assert(parse_str(b.skip(p4 + n4)) == Some((h.id, n5 as nat)));
    assert(p4 + n4 + n5 == b.len());
}

/// A well-formed Hello message's wire bytes parse back to it.
#[verifier::rlimit(100)]
#[verifier::spinoff_prover]
pub proof fn lemma_rlpx_roundtrip_hello(h: HelloModel)
    requires
        hello_wf(h),
    ensures
        parse_rlpx_message(rlpx_message_bytes(RlpxMessageModel::Hello(h))) == Some(
            RlpxMessageModel::Hello(h),
        ),
{
    assert(pow256(8) == 0x1_0000_0000_0000_0000) by {
        reveal_with_fuel(pow256, 9);
    }
    let hp = hello_payload_bytes(h);
    lemma_rlp_uint_len(h.protocol_version as nat);
    lemma_rlp_str_len(h.client_version);
    lemma_rlp_list_len(caps_payload(h.capabilities));
    lemma_rlp_uint_len(h.port as nat);
    lemma_rlp_str_len(h.id);
    lemma_rlp_list_len(hp);
    let b = rlpx_message_bytes(RlpxMessageModel::Hello(h));
    assert(b[0] == 0x00u8);
    lemma_skip_concat(seq![0x00u8], rlp_list_bytes(hp));
    assert(b.skip(1) == rlp_list_bytes(hp));
    assert(rlp_list_bytes(hp) + Seq::<u8>::empty() =~= rlp_list_bytes(hp));
    lemma_parse_list_roundtrip(hp, Seq::empty());
    let pl = hp.len() as int;
    let hl = rlp_list_bytes(hp).len() - pl;
    assert(parse_list(b.skip(1)) == Some((hl as nat, pl as nat)));
    assert(1 + hl + pl == b.len());
    lemma_subrange_of_skip(b, 1, hl, hl + pl);
    assert(b.subrange(1 + hl, b.len() as int) == hp);
    lemma_parse_hello_roundtrip(h);
}

/// A Disconnect message's wire bytes parse back to it.
#[verifier::rlimit(100)]
#[verifier::spinoff_prover]
pub proof fn lemma_rlpx_roundtrip_disconnect(r: DisconnectReason)
    ensures
        parse_rlpx_message(rlpx_message_bytes(RlpxMessageModel::Disconnect(r))) == Some(
            RlpxMessageModel::Disconnect(r),
        ),
{
    assert(pow256(8) == 0x1_0000_0000_0000_0000) by {
        reveal_with_fuel(pow256, 9);
    }
    let up = rlp_uint_bytes(reason_code(r) as nat);
    lemma_rlp_uint_len(reason_code(r) as nat);
    lemma_rlp_list_len(up);
    let b = rlpx_message_bytes(RlpxMessageModel::Disconnect(r));
    assert(b[0] == 0x01u8);
    lemma_skip_concat(seq![0x01u8], rlp_list_bytes(up));
    assert(b.skip(1) == rlp_list_bytes(up));
    assert(rlp_list_bytes(up) + Seq::<u8>::empty() =~= rlp_list_bytes(up));
    lemma_parse_list_roundtrip(up, Seq::empty());
    let pl = up.len() as int;
    let hl = rlp_list_bytes(up).len() - pl;
    assert(parse_list(b.skip(1)) == Some((hl as nat, pl as nat)));
    lemma_subrange_of_skip(b.skip(1), 0, hl, hl + pl);
    assert(b.skip(1).subrange(hl, hl + pl) == up);
    lemma_parse_uint_roundtrip(reason_code(r) as nat, Seq::empty());
    assert(up + Seq::<u8>::empty() =~= up);
    assert(parse_uint(up) == Some((reason_code(r) as nat, up.len() as nat)));
    lemma_reason_code_inverse(r);
}

/// Round-trip law: a well-formed message, encoded and then decoded, returns
/// exactly itself.
pub proof fn lemma_rlpx_roundtrip(m: RlpxMessageModel)
    requires
        rlpx_msg_wf(m),
    ensures
        parse_rlpx_message(rlpx_message_bytes(m)) == Some(m),
{
    match m {
        RlpxMessageModel::Hello(h) => {
            lemma_rlpx_roundtrip_hello(h);
        },
        RlpxMessageModel::Disconnect(r) => {
            lemma_rlpx_roundtrip_disconnect(r);
        },
        RlpxMessageModel::Ping => {
            let b = rlpx_message_bytes(m);
            assert(rlp_list_bytes(Seq::<u8>::empty()) =~= seq![0xc0u8]);
            assert(b =~= seq![0x02u8, 0xc0u8]);
            assert(b[0] == 0x02u8 && b[1] == 0xc0u8 && b.len() == 2);
        },
        RlpxMessageModel::Pong => {
            let b = rlpx_message_bytes(m);
            assert(rlp_list_bytes(Seq::<u8>::empty()) =~= seq![0xc0u8]);
            assert(b =~= seq![0x03u8, 0xc0u8]);
            assert(b[0] == 0x03u8 && b[1] == 0xc0u8 && b.len() == 2);
        },
    }
}

} // verus!
