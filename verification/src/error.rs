//! The failures that signaling and chat routing can report.

use vstd::prelude::*;
use crate::identity::SessionIdentity;

verus! {

/// Why a signaling exchange was rejected.
#[derive(Clone, Copy, Debug, PartialEq, Eq, Structural)]
pub enum SignalingError {
    /// The offer or answer text is not base64, not a JSON object, or lacks a
    /// usable `type` or `sdp` member.
    MalformedSignalingPayload,
    /// The connection could not be set up after its session existed.
    SignalingHandshakeFailed,
}

/// A failure while chat messages are routed. It is reported and the
/// session goes on.
#[derive(Clone, Copy, Debug, PartialEq, Eq, Structural)]
pub enum RoutingError {
    /// A text could not be sent on the channel of this recipient.
    ChannelDeliveryFailed(SessionIdentity),
    /// A command to join a room named no room.
    InvalidRoomCommand,
}

} // verus!
