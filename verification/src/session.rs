//! The connection states of a peer session.

use vstd::prelude::*;
use crate::identity::SessionIdentity;

verus! {

/// The state of a peer's connection.
#[derive(Clone, Copy, Debug, PartialEq, Eq, Structural)]
pub enum ConnectionState {
    New,
    Connecting,
    Connected,
    Disconnected,
    Failed,
    Closed,
}

/// True for the states on which a session's resources are released:
/// `Disconnected`, `Failed` and `Closed`.
pub open spec fn is_terminal(state: ConnectionState) -> bool {
    state == ConnectionState::Disconnected || state == ConnectionState::Failed || state
        == ConnectionState::Closed
}

/// True when a connection in state `from` can come to state `to` in one
/// step: `New` to `Connecting`, `Connecting` to `Connected`, either of the
/// latter two to `Disconnected` or `Failed`, and any state to `Closed`.
pub open spec fn can_become(from: ConnectionState, to: ConnectionState) -> bool {
    ||| to == ConnectionState::Closed
    ||| from == ConnectionState::New && to == ConnectionState::Connecting
    ||| from == ConnectionState::Connecting && to == ConnectionState::Connected
    ||| (from == ConnectionState::Connecting || from == ConnectionState::Connected) && (to
        == ConnectionState::Disconnected || to == ConnectionState::Failed)
}

impl ConnectionState {
    /// True for `Disconnected`, `Failed` and `Closed`.
    pub fn is_terminal(&self) -> (r: bool)
        ensures
            r == is_terminal(*self),
    {
        match self {
            ConnectionState::Disconnected | ConnectionState::Failed | ConnectionState::Closed => true,
            _ => false,
        }
    }

    /// True when this state can come to `to` in one step.
    pub fn can_become(&self, to: ConnectionState) -> (r: bool)
        ensures
            r == can_become(*self, to),
    {
        match (*self, to) {
            (_, ConnectionState::Closed) => true,
            (ConnectionState::New, ConnectionState::Connecting) => true,
            (ConnectionState::Connecting, ConnectionState::Connected) => true,
            (ConnectionState::Connecting, ConnectionState::Disconnected) => true,
            (ConnectionState::Connecting, ConnectionState::Failed) => true,
            (ConnectionState::Connected, ConnectionState::Disconnected) => true,
            (ConnectionState::Connected, ConnectionState::Failed) => true,
            _ => false,
        }
    }
}

/// One peer's session: its identity and the state of its connection. The
/// connection itself stays with whoever made the session.
#[derive(Clone, Copy, Debug, PartialEq, Eq, Structural)]
pub struct PeerSession {
    pub identity: SessionIdentity,
    pub connection_state: ConnectionState,
}

impl PeerSession {
    /// A session whose connection is new. The identity is the caller's to
    /// give: it is another for every session where it was issued by an
    /// [`IdentityIssuer`](crate::identity::IdentityIssuer), as a hub and
    /// [`create_peer_connection`](crate::signaling::create_peer_connection)
    /// do.
    pub fn new(identity: SessionIdentity) -> (s: PeerSession)
        ensures
            s.identity == identity,
            s.connection_state == ConnectionState::New,
    {
        PeerSession { identity, connection_state: ConnectionState::New }
    }

    /// Takes in a state that the connection reports. The session moves to
    /// it if it can come to it in one step, and stays as it is otherwise;
    /// the result says whether it moved.
    pub fn observe(&mut self, next: ConnectionState) -> (moved: bool)
        ensures
            moved == can_become(old(self).connection_state, next),
            final(self).identity == old(self).identity,
            final(self).connection_state == if moved {
                next
            } else {
                old(self).connection_state
            },
    {
        if self.connection_state.can_become(next) {
            self.connection_state = next;
            true
        } else {
            false
        }
    }

    /// True when the session's resources are to be released.
    pub fn is_terminal(&self) -> (r: bool)
        ensures
            r == is_terminal(self.connection_state),
    {
        self.connection_state.is_terminal()
    }
}

/// A connection that has closed stays closed.
pub proof fn lemma_closed_is_final(to: ConnectionState)
    ensures
        can_become(ConnectionState::Closed, to) <==> to == ConnectionState::Closed,
{
}

/// Every state that can be come to from a terminal state is terminal.
pub proof fn lemma_terminal_stays_terminal(from: ConnectionState, to: ConnectionState)
    requires
        is_terminal(from),
        can_become(from, to),
    ensures
        is_terminal(to),
{
}

} // verus!
