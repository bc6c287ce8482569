//! The Version/Verack handshake state machine, from the initiator's side.
//! The caller connects, sends the Version frame, and then feeds every decoded
//! message (or the end of the stream) into `btc_step`, performing the action
//! each step asks for, until the machine reaches a terminal state.

use vstd::prelude::*;

use crate::btc::codec::{MessageModel, NetAddress, NetworkMessage};

verus! {

/// The states of the exchange. `Connected` is before the Version frame has
/// been sent; `VersionSent` and `AwaitingPeer` both wait on the peer;
/// `Complete` and `Failed` are terminal.
#[derive(Clone, Copy, Debug, PartialEq, Eq, Structural)]
pub enum BtcHandshakeState {
    Connected,
    VersionSent,
    AwaitingPeer,
    Complete,
    Failed,
}

/// What the peer did next: delivered one decoded message, or ended the stream.
#[derive(Clone, Debug, PartialEq, Eq)]
pub enum BtcEvent {
    Received(NetworkMessage),
    StreamEnded,
}

/// Mathematical model of a `BtcEvent`.
pub enum BtcEventModel {
    Received(MessageModel),
    StreamEnded,
}

impl View for BtcEvent {
    type V = BtcEventModel;

    open spec fn view(&self) -> BtcEventModel {
        match self {
            BtcEvent::Received(m) => BtcEventModel::Received(m@),
            BtcEvent::StreamEnded => BtcEventModel::StreamEnded,
        }
    }
}

/// What the driver must do after a step.
#[derive(Clone, Copy, Debug, PartialEq, Eq, Structural)]
pub enum BtcAction {
    SendVerack,
    DoNothing,
}

/// One step of the exchange. While waiting: a Verack completes the handshake;
/// a Version is answered with a Verack and the wait goes on (peers order the
/// two messages freely); any other message is ignored; the stream ending
/// before a Verack is a failure. Terminal states absorb every event, and
/// nothing moves before the Version frame has been sent.
pub open spec fn btc_step_spec(s: BtcHandshakeState, ev: BtcEventModel) -> (
    BtcHandshakeState,
    BtcAction,
) {
    match s {
        BtcHandshakeState::VersionSent | BtcHandshakeState::AwaitingPeer => {
            match ev {
                BtcEventModel::Received(MessageModel::Verack) => (
                    BtcHandshakeState::Complete,
                    BtcAction::DoNothing,
                ),
                BtcEventModel::Received(MessageModel::Version(_)) => (
                    BtcHandshakeState::AwaitingPeer,
                    BtcAction::SendVerack,
                ),
                BtcEventModel::Received(MessageModel::Other { command, payload }) => (
                    BtcHandshakeState::AwaitingPeer,
                    BtcAction::DoNothing,
                ),
                BtcEventModel::StreamEnded => (BtcHandshakeState::Failed, BtcAction::DoNothing),
            }
        },
        _ => (s, BtcAction::DoNothing),
    }
}

/// Sending the Version frame moves the machine out of `Connected`.
pub fn btc_start() -> (r: BtcHandshakeState)
    ensures
        r == BtcHandshakeState::VersionSent,
{
    BtcHandshakeState::VersionSent
}

/// One executable step; exactly `btc_step_spec`.
pub fn btc_step(s: BtcHandshakeState, ev: &BtcEvent) -> (r: (BtcHandshakeState, BtcAction))
    ensures
        r == btc_step_spec(s, ev@),
{
    match s {
        BtcHandshakeState::VersionSent | BtcHandshakeState::AwaitingPeer => {
            match ev {
                BtcEvent::Received(NetworkMessage::Verack) => (
                    BtcHandshakeState::Complete,
                    BtcAction::DoNothing,
                ),
                BtcEvent::Received(NetworkMessage::Version(_)) => (
                    BtcHandshakeState::AwaitingPeer,
                    BtcAction::SendVerack,
                ),
                BtcEvent::Received(NetworkMessage::Other { command, payload }) => (
                    BtcHandshakeState::AwaitingPeer,
                    BtcAction::DoNothing,
                ),
                BtcEvent::StreamEnded => (BtcHandshakeState::Failed, BtcAction::DoNothing),
            }
        },
        _ => (s, BtcAction::DoNothing),
    }
}

/// The state after feeding a whole sequence of events into the machine.
pub open spec fn btc_run(s: BtcHandshakeState, evs: Seq<BtcEventModel>) -> BtcHandshakeState
    decreases evs.len(),
{
    if evs.len() == 0 {
        s
    } else {
        btc_run(btc_step_spec(s, evs[0]).0, evs.skip(1))
    }
}

/// Terminal states absorb every sequence of events.
pub proof fn lemma_terminal_absorbs(s: BtcHandshakeState, evs: Seq<BtcEventModel>)
    requires
        s == BtcHandshakeState::Complete || s == BtcHandshakeState::Failed,
    ensures
        btc_run(s, evs) == s,
    decreases evs.len(),
{
    if evs.len() > 0 {
        lemma_terminal_absorbs(s, evs.skip(1));
    }
}

/// Completion law: once the Version frame is out, the handshake completes
/// whenever the peer's stream delivers a Verack, whatever messages precede it
/// and in whatever order they arrive, provided the stream has not ended
/// before that Verack.
pub proof fn lemma_handshake_completes(s: BtcHandshakeState, evs: Seq<BtcEventModel>, k: int)
    requires
        s == BtcHandshakeState::VersionSent || s == BtcHandshakeState::AwaitingPeer,
        0 <= k < evs.len(),
        evs[k] == BtcEventModel::Received(MessageModel::Verack),
        forall|j: int| 0 <= j < k ==> evs[j] is Received,
    ensures
        btc_run(s, evs) == BtcHandshakeState::Complete,
    decreases evs.len(),
{
    let (s1, _) = btc_step_spec(s, evs[0]);
    if k == 0 {
        lemma_terminal_absorbs(BtcHandshakeState::Complete, evs.skip(1));
    } else {
        match evs[0] {
            BtcEventModel::Received(MessageModel::Verack) => {
                lemma_terminal_absorbs(BtcHandshakeState::Complete, evs.skip(1));
            },
            BtcEventModel::Received(_) => {
                assert(forall|j: int|
                    0 <= j < k - 1 ==> evs.skip(1)[j] == evs[j + 1] && evs[j + 1] is Received);
                lemma_handshake_completes(s1, evs.skip(1), k - 1);
            },
            BtcEventModel::StreamEnded => {
                assert(false);
            },
        }
    }
}

/// Failure law: if the stream ends while every earlier event was an ordinary
/// message and none was a Verack, the handshake fails.
pub proof fn lemma_handshake_fails_on_close(s: BtcHandshakeState, evs: Seq<BtcEventModel>, k: int)
    requires
        s == BtcHandshakeState::VersionSent || s == BtcHandshakeState::AwaitingPeer,
        0 <= k < evs.len(),
        evs[k] == BtcEventModel::StreamEnded,
        forall|j: int|
            0 <= j < k ==> evs[j] is Received && !(evs[j] matches BtcEventModel::Received(
                MessageModel::Verack,
            )),
    ensures
        btc_run(s, evs) == BtcHandshakeState::Failed,
    decreases evs.len(),
{
    let (s1, _) = btc_step_spec(s, evs[0]);
    if k == 0 {
        lemma_terminal_absorbs(BtcHandshakeState::Failed, evs.skip(1));
    } else {
        assert(forall|j: int|
            0 <= j < k - 1 ==> evs.skip(1)[j] == evs[j + 1] && evs[j + 1] is Received && !(evs[j
                + 1] matches BtcEventModel::Received(MessageModel::Verack)));
        lemma_handshake_fails_on_close(s1, evs.skip(1), k - 1);
    }
}

/// The handshake endpoint description the driver carries: the peer address
/// the Version message names and the user-agent it announces.
#[derive(Clone, Debug, PartialEq, Eq)]
pub struct MessageStream {
    pub node_address: NetAddress,
    pub user_agent: Vec<u8>,
}

impl MessageStream {
    /// Describes a handshake with the given peer.
    pub fn new(node_address: NetAddress, user_agent: Vec<u8>) -> (r: Self)
        ensures
            r == (MessageStream { node_address, user_agent }),
    {
        MessageStream { node_address, user_agent }
    }
}

} // verus!
