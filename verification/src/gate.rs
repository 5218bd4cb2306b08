//! Telling when the gathering of candidates is complete.
//!
//! Signaling here is not trickled: one description with all candidates is
//! sent, and it is complete only once the connection reports the end of
//! its candidates. A [`ConnectivityGate`] tells that moment, once.

use vstd::prelude::*;

verus! {

/// Whether the end of the candidates was seen.
#[derive(Clone, Copy, Debug, PartialEq, Eq, Structural)]
pub struct ConnectivityGate {
    pub fired: bool,
}

/// How often a gate fires over a run of candidate events, each of which
/// says whether it is the end of the candidates.
pub open spec fn fire_count(fired: bool, events: Seq<bool>) -> nat
    decreases events.len(),
{
    if events.len() == 0 {
        0
    } else {
        let fires: nat = if events[0] && !fired {
            1
        } else {
            0
        };
        fires + fire_count(fired || events[0], events.drop_first())
    }
}

/// Over any run of events a gate fires at most once, and a gate that has
/// not fired fires exactly when the run holds an end of candidates.
pub proof fn lemma_fires_once(fired: bool, events: Seq<bool>)
    ensures
        fire_count(fired, events) <= 1,
        fire_count(fired, events) == 1 <==> !fired && events.contains(true),
    decreases events.len(),
{
    if events.len() > 0 {
        let rest = events.drop_first();
        lemma_fires_once(fired || events[0], rest);
        if rest.contains(true) {
            let j = choose|j: int| 0 <= j < rest.len() && rest[j] == true;
            assert(events[j + 1] == true);
        }
        if events.contains(true) && !events[0] {
            let j = choose|j: int| 0 <= j < events.len() && events[j] == true;
            assert(rest[j - 1] == true);
        }
        if events[0] {
            assert(events.contains(true));
        }
    }
}

impl ConnectivityGate {
    /// A gate that has not fired.
    pub fn new() -> (gate: ConnectivityGate)
        ensures
            !gate.fired,
    {
        ConnectivityGate { fired: false }
    }

    /// Takes in a candidate event. It fires on the first event that
    /// is the end of the candidates, and on no other.
    pub fn on_candidate(&mut self, end_of_candidates: bool) -> (fires: bool)
        ensures
            fires == (end_of_candidates && !old(self).fired),
            final(self).fired == (old(self).fired || end_of_candidates),
    {
        let fires = end_of_candidates && !self.fired;
        if end_of_candidates {
            self.fired = true;
        }
        fires
    }

    /// True once the end of the candidates was seen.
    pub fn has_fired(&self) -> (r: bool)
        ensures
            r == self.fired,
    {
        self.fired
    }
}

} // verus!
