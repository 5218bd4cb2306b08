//! The live sessions and, for each, the registry of its open channels.

use vstd::prelude::*;
use crate::identity::SessionIdentity;
use crate::registry::DataChannelRegistry;

verus! {

/// The channel labels of a session, or none if the session is not live.
pub open spec fn labels_of(
    sessions: Map<SessionIdentity, Set<Seq<char>>>,
    id: SessionIdentity,
) -> Set<Seq<char>> {
    if sessions.contains_key(id) {
        sessions[id]
    } else {
        Set::empty()
    }
}

/// The sessions after a channel of a live session has opened; nothing
/// changes for a session that is not live.
pub open spec fn with_channel(
    sessions: Map<SessionIdentity, Set<Seq<char>>>,
    id: SessionIdentity,
    label: Seq<char>,
) -> Map<SessionIdentity, Set<Seq<char>>> {
    if sessions.contains_key(id) {
        sessions.insert(id, sessions[id].insert(label))
    } else {
        sessions
    }
}

/// The sessions after a channel of a session has closed.
pub open spec fn without_channel(
    sessions: Map<SessionIdentity, Set<Seq<char>>>,
    id: SessionIdentity,
    label: Seq<char>,
) -> Map<SessionIdentity, Set<Seq<char>>> {
    if sessions.contains_key(id) {
        sessions.insert(id, sessions[id].remove(label))
    } else {
        sessions
    }
}

/// The live sessions, each with its channel registry.
pub struct SessionTable {
    ids: Vec<SessionIdentity>,
    registries: Vec<DataChannelRegistry>,
}

impl View for SessionTable {
    type V = Map<SessionIdentity, Set<Seq<char>>>;

    closed spec fn view(&self) -> Map<SessionIdentity, Set<Seq<char>>> {
        Map::new(
            |id: SessionIdentity| self.ids@.contains(id),
            |id: SessionIdentity| self.registries@[self.ids@.index_of(id)]@,
        )
    }
}

impl SessionTable {
    /// Every session stands once and has a registry in order.
    pub closed spec fn wf(&self) -> bool {
        &&& self.ids@.len() == self.registries@.len()
        &&& self.ids@.no_duplicates()
        &&& forall|i: int| 0 <= i < self.registries@.len() ==> (#[trigger] self.registries@[i]).wf()
    }

    proof fn lemma_session_at(&self, i: int)
        requires
            self.wf(),
            0 <= i < self.ids@.len(),
        ensures
            self@.contains_key(self.ids@[i]),
            self@[self.ids@[i]] == self.registries@[i]@,
            self.ids@.index_of(self.ids@[i]) == i,
    {
        assert(self.ids@.contains(self.ids@[i]));
    }

    fn find(&self, id: SessionIdentity) -> (r: Option<usize>)
        ensures
            match r {
                Some(i) => i < self.ids@.len() && self.ids@[i as int] == id,
                None => !self.ids@.contains(id),
            },
    {
        let mut i: usize = 0;
        while i < self.ids.len()
            invariant
                i <= self.ids.len(),
                forall|j: int| 0 <= j < i ==> self.ids@[j] != id,
            decreases self.ids.len() - i,
        {
            if self.ids[i] == id {
                return Some(i);
            }
            i = i + 1;
        }
        None
    }

    /// The table without sessions.
    pub fn new() -> (t: SessionTable)
        ensures
            t.wf(),
            t@ == Map::<SessionIdentity, Set<Seq<char>>>::empty(),
    {
        let t = SessionTable { ids: Vec::new(), registries: Vec::new() };
        assert(t@ =~= Map::<SessionIdentity, Set<Seq<char>>>::empty());
        t
    }

    /// True when the session is live.
    pub fn contains(&self, id: SessionIdentity) -> (r: bool)
        ensures
            r == self@.contains_key(id),
    {
        self.find(id).is_some()
    }

    /// True when the session is live and has a channel under the label.
    pub fn has_channel(&self, id: SessionIdentity, label: &str) -> (r: bool)
        requires
            self.wf(),
        ensures
            r == labels_of(self@, id).contains(label@),
    {
        match self.find(id) {
            None => false,
            Some(i) => {
                proof {
                    self.lemma_session_at(i as int);
                }
                self.registries[i].contains(label)
            },
        }
    }

    /// Makes a session live, without channels. A session that is live
    /// already starts over without channels.
    pub fn insert(&mut self, id: SessionIdentity)
        requires
            old(self).wf(),
        ensures
            final(self).wf(),
            final(self)@ == old(self)@.insert(id, Set::<Seq<char>>::empty()),
    {
        let ghost ids = self.ids@;
        match self.find(id) {
            Some(i) => {
                self.registries.set(i, DataChannelRegistry::new());
                proof {
                    assert(ids.index_of(id) == i);
                    assert forall|other: SessionIdentity| ids.contains(other) && other
                        != id implies ids.index_of(other) != i by {}
                    assert(self@ =~= old(self)@.insert(id, Set::<Seq<char>>::empty()));
                }
            },
            None => {
                self.ids.push(id);
                self.registries.push(DataChannelRegistry::new());
                proof {
                    let after = self.ids@;
                    assert forall|other: SessionIdentity| #[trigger] after.contains(other) <==> (
                    ids.contains(other) || other == id) by {
                        if ids.contains(other) {
                            let j = ids.index_of(other);
                            assert(after[j] == other);
                        }
                        if other == id {
                            assert(after[after.len() - 1] == other);
                        }
                    }
                    assert forall|other: SessionIdentity| ids.contains(other) implies after.index_of(
                        other,
                    ) == ids.index_of(other) by {
                        let j = ids.index_of(other);
                        assert(after[j] == other);
                        assert(after.contains(other));
                    }
                    assert(after.index_of(id) == after.len() - 1) by {
                        assert(after[after.len() - 1] == id);
                    }
                    assert(self@ =~= old(self)@.insert(id, Set::<Seq<char>>::empty()));
                }
            },
        }
    }

    /// Removes a session and its registry, if it is live.
    pub fn remove(&mut self, id: SessionIdentity)
        requires
            old(self).wf(),
        ensures
            final(self).wf(),
            final(self)@ == old(self)@.remove(id),
    {
        let ghost ids = self.ids@;
        let ghost registries = self.registries@;
        match self.find(id) {
            None => {
                assert(self@ =~= old(self)@.remove(id));
            },
            Some(i) => {
                self.ids.remove(i);
                self.registries.remove(i);
                proof {
                    let after = self.ids@;
                    assert(after =~= ids.remove(i as int));
                    assert(self.registries@ =~= registries.remove(i as int));
                    assert forall|other: SessionIdentity| #[trigger] after.contains(other) <==> (
                    ids.contains(other) && other != id) by {
                        if after.contains(other) {
                            let j = after.index_of(other);
                            if j < i {
                                assert(ids[j] == other);
                            } else {
                                assert(ids[j + 1] == other);
                            }
                        }
                        if ids.contains(other) && other != id {
                            let j = ids.index_of(other);
                            if j < i {
                                assert(after[j] == other);
                            } else {
                                assert(after[j - 1] == other);
                            }
                        }
                    }
                    assert forall|other: SessionIdentity| after.contains(other) implies self.registries@[after.index_of(
                        other,
                    )] == registries[ids.index_of(other)] by {
                        let j = after.index_of(other);
                        if j < i {
                            assert(ids[j] == other);
                        } else {
                            assert(ids[j + 1] == other);
                        }
                    }
                    assert(self@ =~= old(self)@.remove(id));
                }
            },
        }
    }

    /// Registers a channel of a live session under its label.
    pub fn register_channel(&mut self, id: SessionIdentity, label: &str)
        requires
            old(self).wf(),
        ensures
            final(self).wf(),
            final(self)@ == with_channel(old(self)@, id, label@),
    {
        let ghost ids = self.ids@;
        match self.find(id) {
            None => {},
            Some(i) => {
                proof {
                    self.lemma_session_at(i as int);
                }
                self.registries[i].register(label);
                proof {
                    assert forall|other: SessionIdentity| ids.contains(other) && other
                        != id implies ids.index_of(other) != i by {}
                    assert(self@ =~= with_channel(old(self)@, id, label@));
                }
            },
        }
    }

    /// Removes the channel that a session has under a label, if any.
    pub fn remove_channel(&mut self, id: SessionIdentity, label: &str)
        requires
            old(self).wf(),
        ensures
            final(self).wf(),
            final(self)@ == without_channel(old(self)@, id, label@),
    {
        let ghost ids = self.ids@;
        match self.find(id) {
            None => {},
            Some(i) => {
                proof {
                    self.lemma_session_at(i as int);
                }
                self.registries[i].remove(label);
                proof {
                    assert forall|other: SessionIdentity| ids.contains(other) && other
                        != id implies ids.index_of(other) != i by {}
                    assert(self@ =~= without_channel(old(self)@, id, label@));
                }
            },
        }
    }
}

} // verus!
