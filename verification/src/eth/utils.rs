//! Construction of this client's own Hello announcement. Only the node
//! identifier comes from outside (the sixty-four public-key bytes derived
//! from the session key); everything else the announcement carries is fixed
//! here.

use vstd::prelude::*;

use crate::eth::messages::{
    cap_bytes, cap_wf, caps_payload, caps_views, hello_wf, CapModel, Capability, HelloMessage,
    HelloModel,
};
use crate::eth::rlp::{min_be_bytes, min_be_len, rlp_str_bytes, rlp_uint_bytes};

verus! {

/// The client identifier announced: "p2p-handshake/0.1.0".
pub open spec fn client_version_bytes() -> Seq<u8> {
    seq![
        112u8,
        50u8,
        112u8,
        45u8,
        104u8,
        97u8,
        110u8,
        100u8,
        115u8,
        104u8,
        97u8,
        107u8,
        101u8,
        47u8,
        48u8,
        46u8,
        49u8,
        46u8,
        48u8,
    ]
}

/// The single capability announced: "eth" at version sixty-eight.
pub open spec fn eth_capability() -> CapModel {
    CapModel { name: seq![101u8, 116u8, 104u8], version: 68 }
}

/// The Hello announcement around a node identifier: protocol version five,
/// this client's identifier, the eth capability, and no listening port (this
/// client only dials out).
pub open spec fn hello_model_of(id: Seq<u8>) -> HelloModel {
    HelloModel {
        protocol_version: 5,
        client_version: client_version_bytes(),
        capabilities: seq![eth_capability()],
        port: 0,
        id,
    }
}

/// Builds this client's Hello announcement around the given sixty-four-byte
/// node identifier. The result is well-formed, so its encoding round-trips.
pub fn create_hello_msg(id: Vec<u8>) -> (h: HelloMessage)
    requires
        id@.len() == 64,
    ensures
        h@ == hello_model_of(id@),
        hello_wf(h@),
{
    let mut client_version: Vec<u8> = Vec::new();
    client_version.push(112u8);
    client_version.push(50u8);
    client_version.push(112u8);
    client_version.push(45u8);
    client_version.push(104u8);
    client_version.push(97u8);
    client_version.push(110u8);
    client_version.push(100u8);
    client_version.push(115u8);
    client_version.push(104u8);
    client_version.push(97u8);
    client_version.push(107u8);
    client_version.push(101u8);
    client_version.push(47u8);
    client_version.push(48u8);
    client_version.push(46u8);
    client_version.push(49u8);
    client_version.push(46u8);
    client_version.push(48u8);
    let mut name: Vec<u8> = Vec::new();
    name.push(101u8);
    name.push(116u8);
    name.push(104u8);
    let mut capabilities: Vec<Capability> = Vec::new();
    capabilities.push(Capability { name, version: 68 });
    let h = HelloMessage { protocol_version: 5, client_version, capabilities, port: 0, id };
    proof {
        assert(h.client_version@ =~= client_version_bytes());
        assert(h.capabilities@[0].name@ =~= seq![101u8, 116u8, 104u8]);
        assert(h.capabilities@[0]@ == eth_capability());
        assert(caps_views(h.capabilities@) =~= seq![eth_capability()]);
        assert(h@ == hello_model_of(h.id@));
        lemma_announced_caps_payload_small();
    }
    h
}

/// The announced capability list encodes to a handful of bytes, so the Hello
/// payload stays well within one RLP long length.
proof fn lemma_announced_caps_payload_small()
    ensures
        caps_payload(seq![eth_capability()]).len() < 0x1_0000_0000,
        cap_wf(eth_capability()),
{
    let c = eth_capability();
    assert(min_be_len(0nat) == 0);
    assert(min_be_len(68nat) == 1);
    assert(min_be_bytes(68nat) =~= seq![68u8]) by {
        assert(crate::wire::be_bytes(0nat, 0nat) =~= Seq::<u8>::empty());
        assert(crate::wire::be_bytes(68nat, 1nat) =~= crate::wire::be_bytes(0nat, 0nat) + seq![
            68u8,
        ]);
    }
    assert(rlp_uint_bytes(68nat) =~= seq![68u8]);
    assert(rlp_str_bytes(c.name) =~= seq![0x83u8, 101u8, 116u8, 104u8]);
    assert(cap_bytes(c).len() == 6);
    assert(caps_payload(seq![c]) == cap_bytes(c) + caps_payload(seq![c].skip(1)));
    assert(seq![c].skip(1).len() == 0);
    assert(caps_payload(seq![c].skip(1)) == Seq::<u8>::empty());
}

} // verus!
