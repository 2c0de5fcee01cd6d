//! Plain request and message shapes shared with the surrounding process.

use vstd::prelude::*;

verus! {

/// Text for the push-channel actor to hand to its client.
pub struct ClientTextMessage(pub String);

/// Body of a connect request: the `host:port` target the device listens on.
pub struct ConnectPayload {
    pub socket_path: String,
}

/// Body of a raw text command request: the line to write to the device,
/// which goes on the wire with a trailing carriage-return byte.
pub struct TextCommandPayload {
    pub text_command: String,
}

} // verus!
