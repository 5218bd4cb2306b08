//! The supervisor of a session: it looks at the connection's state at a
//! fixed interval and tears the session down once the state is one on
//! which resources are released.

use vstd::prelude::*;
use crate::hub::{outcome_of, step, EventView, Hub, SessionEvent};
use crate::session::{is_terminal, PeerSession};

verus! {

/// The interval between two looks, in milliseconds, unless another is
/// chosen.
pub const DEFAULT_POLL_INTERVAL_MS: u64 = 1000;

/// What the supervisor's owner is to do next.
#[derive(Clone, Copy, Debug, PartialEq, Eq, Structural)]
pub enum Supervision {
    /// Keep the session and look again after this many milliseconds.
    Sleep(u64),
    /// Drop the session: it is torn down.
    Release,
}

/// A supervisor with its interval.
#[derive(Clone, Copy, Debug, PartialEq, Eq, Structural)]
pub struct ConnectionSupervisor {
    pub interval_ms: u64,
}

impl ConnectionSupervisor {
    /// A supervisor that looks every `interval_ms` milliseconds.
    pub fn new(interval_ms: u64) -> (s: ConnectionSupervisor)
        ensures
            s.interval_ms == interval_ms,
    {
        ConnectionSupervisor { interval_ms }
    }

    /// A supervisor that looks once a second.
    pub fn every_second() -> (s: ConnectionSupervisor)
        ensures
            s.interval_ms == DEFAULT_POLL_INTERVAL_MS,
    {
        ConnectionSupervisor { interval_ms: DEFAULT_POLL_INTERVAL_MS }
    }

    /// One look at a session. While its state is none on which resources
    /// are released, nothing changes and the owner sleeps one interval. At
    /// the first look that finds such a state the session is torn down as
    /// by the event of that state, and the owner releases it.
    pub fn poll(&self, hub: &mut Hub, session: &PeerSession) -> (next: Supervision)
        requires
            old(hub).wf(),
        ensures
            final(hub).wf(),
            is_terminal(session.connection_state) ==> next == Supervision::Release && final(hub)@
                == step(
                old(hub)@,
                session.identity,
                EventView::ConnectionStateChanged(session.connection_state),
            ),
            !is_terminal(session.connection_state) ==> next == Supervision::Sleep(self.interval_ms)
                && final(hub)@ == old(hub)@,
    {
        if session.is_terminal() {
            let event = SessionEvent::ConnectionStateChanged(session.connection_state);
            let outcome = hub.dispatch(session.identity, &event);
            assert(outcome@ == outcome_of(old(hub)@, session.identity, event@));
            Supervision::Release
        } else {
            Supervision::Sleep(self.interval_ms)
        }
    }
}

} // verus!
