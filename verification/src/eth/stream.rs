//! The RLPx handshake over an already-established encrypted byte stream. The
//! driver sends the Hello announcement, waits (bounded by the configured
//! timeout) for the peer's first message, and feeds what happened into
//! `rlpx_handshake_step`: a Hello completes the handshake and asks the driver
//! to send a graceful Disconnect(ClientQuitting); everything else fails with
//! the error the taxonomy assigns to it.

use vstd::prelude::*;

use crate::eth::messages::{
    parse_rlpx_message, parse_rlpx_message_exec, DisconnectReason, HelloMessage, HelloModel,
    RlpxMessage, RlpxMessageModel,
};
use crate::MAX_PAYLOAD_SIZE;

verus! {

/// A handshake session around the underlying framed byte stream, which the
/// driver takes back out to perform the actual sends and receives.
pub struct P2PStream<S> {
    pub stream: S,
}

impl<S> P2PStream<S> {
    /// Wraps a framed byte stream for a handshake.
    pub fn new(stream: S) -> (r: Self)
        ensures
            r == (P2PStream { stream }),
    {
        P2PStream { stream }
    }

    /// Hands the underlying stream back to the driver.
    pub fn into_inner(self) -> (r: S)
        ensures
            r == self.stream,
    {
        self.stream
    }
}

/// Failures of the RLPx handshake, each naming exactly one condition.
#[derive(Clone, Copy, Debug, PartialEq, Eq, Structural)]
pub enum RlpxError {
    /// No first message arrived within the configured timeout.
    Timeout,
    /// The stream closed before any message arrived.
    NoResponse,
    /// The first message exceeded the payload-size limit; both the observed
    /// size and the limit are reported.
    MessageTooBig { message_size: usize, max_size: usize },
    /// The first message did not decode.
    DecodeError,
    /// The first message decoded, but was neither Hello nor Disconnect.
    NonHelloMessage,
    /// The peer ended the handshake, with its reason.
    Disconnected(DisconnectReason),
    /// The transport failed mid-handshake.
    Io,
}

/// What the wait for the peer's first message produced.
#[derive(Clone, Debug, PartialEq, Eq)]
pub enum FirstMessageOutcome {
    /// The timeout elapsed first.
    TimedOut,
    /// The stream ended before any message.
    StreamClosed,
    /// The transport reported an error.
    TransportFailed,
    /// One complete frame arrived.
    Frame(Vec<u8>),
}

/// Mathematical model of a `FirstMessageOutcome`.
pub enum FirstOutcomeModel {
    TimedOut,
    StreamClosed,
    TransportFailed,
    Frame(Seq<u8>),
}

impl View for FirstMessageOutcome {
    type V = FirstOutcomeModel;

    open spec fn view(&self) -> FirstOutcomeModel {
        match self {
            FirstMessageOutcome::TimedOut => FirstOutcomeModel::TimedOut,
            FirstMessageOutcome::StreamClosed => FirstOutcomeModel::StreamClosed,
            FirstMessageOutcome::TransportFailed => FirstOutcomeModel::TransportFailed,
            FirstMessageOutcome::Frame(b) => FirstOutcomeModel::Frame(b@),
        }
    }
}

/// How the peer's first message decides the handshake: a timeout, a closed
/// stream and a transport fault fail outright; an oversized frame fails with
/// both sizes; otherwise the frame must decode to Hello (success, carrying
/// the announcement) or Disconnect (failure preserving the peer's reason);
/// any other message or a decode failure is a protocol violation.
pub open spec fn first_message_spec(o: FirstOutcomeModel) -> Result<HelloModel, RlpxError> {
    match o {
        FirstOutcomeModel::TimedOut => Err(RlpxError::Timeout),
        FirstOutcomeModel::StreamClosed => Err(RlpxError::NoResponse),
        FirstOutcomeModel::TransportFailed => Err(RlpxError::Io),
        FirstOutcomeModel::Frame(b) => {
            if b.len() > MAX_PAYLOAD_SIZE {
                Err(
                    RlpxError::MessageTooBig {
                        message_size: b.len() as usize,
                        max_size: MAX_PAYLOAD_SIZE,
                    },
                )
            } else {
                match parse_rlpx_message(b) {
                    Some(RlpxMessageModel::Hello(h)) => Ok(h),
                    Some(RlpxMessageModel::Disconnect(r)) => Err(RlpxError::Disconnected(r)),
                    Some(_) => Err(RlpxError::NonHelloMessage),
                    None => Err(RlpxError::DecodeError),
                }
            }
        },
    }
}

/// Relates the executable evaluation to `first_message_spec`.
pub open spec fn first_message_post(
    o: FirstOutcomeModel,
    r: Result<HelloMessage, RlpxError>,
) -> bool {
    match (r, first_message_spec(o)) {
        (Ok(h), Ok(sh)) => h@ == sh,
        (Err(e), Err(se)) => e == se,
        _ => false,
    }
}

/// Evaluates the peer's first message; exactly `first_message_spec`.
pub fn evaluate_first_message(o: &FirstMessageOutcome) -> (r: Result<HelloMessage, RlpxError>)
    ensures
        first_message_post(o@, r),
{
    match o {
        FirstMessageOutcome::TimedOut => Err(RlpxError::Timeout),
        FirstMessageOutcome::StreamClosed => Err(RlpxError::NoResponse),
        FirstMessageOutcome::TransportFailed => Err(RlpxError::Io),
        FirstMessageOutcome::Frame(b) => {
            if b.len() > MAX_PAYLOAD_SIZE {
                Err(
                    RlpxError::MessageTooBig {
                        message_size: b.len(),
                        max_size: MAX_PAYLOAD_SIZE,
                    },
                )
            } else {
                match parse_rlpx_message_exec(b) {
                    Some(RlpxMessage::Hello(h)) => Ok(h),
                    Some(RlpxMessage::Disconnect(r)) => Err(RlpxError::Disconnected(r)),
                    Some(_) => Err(RlpxError::NonHelloMessage),
                    None => Err(RlpxError::DecodeError),
                }
            }
        },
    }
}

/// What the driver does after the first message has been judged.
#[derive(Clone, Copy, Debug, PartialEq, Eq, Structural)]
pub enum RlpxAction {
    SendDisconnect(DisconnectReason),
    DoNothing,
}

/// One decision step of the handshake: judges the first message, and on
/// success asks the driver to close the session gracefully with a
/// Disconnect(ClientQuitting) — this client only verifies the handshake.
pub fn rlpx_handshake_step(o: &FirstMessageOutcome) -> (r: (
    Result<HelloMessage, RlpxError>,
    RlpxAction,
))
    ensures
        first_message_post(o@, r.0),
        r.0 is Ok <==> r.1 == RlpxAction::SendDisconnect(DisconnectReason::ClientQuitting),
        r.0 is Err ==> r.1 == RlpxAction::DoNothing,
{
    let outcome = evaluate_first_message(o);
    let action = if outcome.is_ok() {
        RlpxAction::SendDisconnect(DisconnectReason::ClientQuitting)
    } else {
        RlpxAction::DoNothing
    };
    (outcome, action)
}

/// Timeout law: a peer that never responds within the bound fails with the
/// timeout error, never with a hang or any other error.
pub proof fn lemma_timeout_fails()
    ensures
        first_message_spec(FirstOutcomeModel::TimedOut) == Err::<HelloModel, RlpxError>(
            RlpxError::Timeout,
        ),
{
}

/// Oversize law: a first message above the payload-size limit fails with an
/// error reporting both the observed size and the limit, whatever its bytes.
pub proof fn lemma_oversized_fails(b: Seq<u8>)
    requires
        b.len() > MAX_PAYLOAD_SIZE,
    ensures
        first_message_spec(FirstOutcomeModel::Frame(b)) == Err::<HelloModel, RlpxError>(
            RlpxError::MessageTooBig { message_size: b.len() as usize, max_size: MAX_PAYLOAD_SIZE },
        ),
{
}

/// Disconnect law: a peer that answers the Hello with a Disconnect fails the
/// handshake with exactly that reason preserved.
#[verifier::rlimit(50)]
#[verifier::spinoff_prover]
pub proof fn lemma_disconnect_fails(r: DisconnectReason)
    ensures
        first_message_spec(
            FirstOutcomeModel::Frame(
                crate::eth::messages::rlpx_message_bytes(RlpxMessageModel::Disconnect(r)),
            ),
        ) == Err::<HelloModel, RlpxError>(RlpxError::Disconnected(r)),
{
    let b = crate::eth::messages::rlpx_message_bytes(RlpxMessageModel::Disconnect(r));
    assert(crate::wire::pow256(8) == 0x1_0000_0000_0000_0000) by {
        reveal_with_fuel(crate::wire::pow256, 9);
    }
    crate::eth::messages::lemma_rlp_uint_len(crate::eth::messages::reason_code(r) as nat);
    crate::eth::messages::lemma_rlp_list_len(
        crate::eth::rlp::rlp_uint_bytes(crate::eth::messages::reason_code(r) as nat),
    );
    assert(b.len() <= MAX_PAYLOAD_SIZE);
    crate::eth::messages::lemma_rlpx_roundtrip_disconnect(r);
}

/// Hello law: a peer that answers with a well-formed Hello whose frame
/// respects the payload-size limit completes the handshake successfully,
/// yielding exactly the peer's announcement.
#[verifier::rlimit(50)]
#[verifier::spinoff_prover]
pub proof fn lemma_hello_succeeds(h: HelloModel)
    requires
        crate::eth::messages::hello_wf(h),
        crate::eth::messages::rlpx_message_bytes(RlpxMessageModel::Hello(h)).len()
            <= MAX_PAYLOAD_SIZE,
    ensures
        first_message_spec(
            FirstOutcomeModel::Frame(
                crate::eth::messages::rlpx_message_bytes(RlpxMessageModel::Hello(h)),
            ),
        ) == Ok::<HelloModel, RlpxError>(h),
{
    crate::eth::messages::lemma_rlpx_roundtrip_hello(h);
}

} // verus!
