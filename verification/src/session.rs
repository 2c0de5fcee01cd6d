//! Subscriber session rules.
//!
//! One session stands between the bus and one external push-channel client.
//! Its relay loop waits for the next bus outcome and forwards messages
//! verbatim; a lag is reported and survived, only a closed bus ends the
//! session. Inbound client frames are answered at the transport level and
//! never reach the device.

use vstd::prelude::*;

use crate::bus::RecvOutcome;

verus! {

/// What the relay loop does with one bus outcome.
pub enum SessionAction {
    /// Hand this text frame to the external sink, verbatim.
    Forward(String),
    /// Record that this many messages were missed, then keep listening.
    NoteLag(u64),
    /// Nothing to do yet; wait for the next outcome.
    Wait,
    /// The bus is finished; end the session and release the subscription.
    End,
}

/// One step of the relay loop. A message is forwarded unchanged; a lag is
/// noted, never fatal; only a closed bus ends the session.
pub fn session_step(outcome: RecvOutcome) -> (action: SessionAction)
    ensures
        (outcome matches RecvOutcome::Received(msg) ==> action == SessionAction::Forward(msg)),
        (outcome matches RecvOutcome::Lagged(n) ==> action == SessionAction::NoteLag(n)),
        (outcome is Pending ==> action == SessionAction::Wait),
        (outcome is Closed ==> action == SessionAction::End),
{
    match outcome {
        RecvOutcome::Received(msg) => SessionAction::Forward(msg),
        RecvOutcome::Lagged(n) => SessionAction::NoteLag(n),
        RecvOutcome::Pending => SessionAction::Wait,
        RecvOutcome::Closed => SessionAction::End,
    }
}

/// An inbound frame from the push-channel client, as the session sees it.
pub enum InboundFrame {
    /// Transport-level ping, with its payload.
    Ping(Vec<u8>),
    /// A text message from the client.
    Text(String),
    /// The client asked to close the channel.
    Close,
    /// Any other frame.
    Other,
}

/// The session's answer to an inbound frame.
pub enum InboundAction {
    /// Answer at the transport level with this pong payload.
    Pong(Vec<u8>),
    /// Take no action: client chatter is never forwarded to the device.
    Ignore,
    /// Close the channel and stop the session.
    CloseChannel,
}

/// How one inbound frame is answered: a ping is returned as a pong with the
/// very same payload, a close request closes, and everything else —
/// including text — is ignored by this layer.
pub fn handle_inbound(frame: InboundFrame) -> (action: InboundAction)
    ensures
        (frame matches InboundFrame::Ping(payload) ==> action == InboundAction::Pong(payload)),
        (frame matches InboundFrame::Text(_) ==> action == InboundAction::Ignore),
        (frame is Close ==> action == InboundAction::CloseChannel),
        (frame is Other ==> action == InboundAction::Ignore),
{
    match frame {
        InboundFrame::Ping(payload) => InboundAction::Pong(payload),
        InboundFrame::Text(_) => InboundAction::Ignore,
        InboundFrame::Close => InboundAction::CloseChannel,
        InboundFrame::Other => InboundAction::Ignore,
    }
}

} // verus!
