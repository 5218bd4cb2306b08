//! Data channels and the registry of one session's open channels.

use vstd::prelude::*;
use crate::identity::SessionIdentity;
use crate::text::same_text;

verus! {

/// The label of the control channel, which carries the room commands.
pub open spec fn control_label() -> Seq<char> {
    "lobby"@
}

/// How far a data channel has come.
#[derive(Clone, Copy, Debug, PartialEq, Eq, Structural)]
pub enum ChannelState {
    Connecting,
    Open,
    Closing,
    Closed,
}

/// A data channel as its session sees it. The owner is named, not held.
#[derive(Clone, Debug, PartialEq, Eq)]
pub struct DataChannel {
    pub label: String,
    pub ready_state: ChannelState,
    pub owning_session: SessionIdentity,
}

/// The texts of a sequence of strings.
pub open spec fn texts(v: Seq<String>) -> Seq<Seq<char>> {
    v.map_values(|s: String| s@)
}

/// The index at which a text stands among strings.
pub(crate) fn position(v: &Vec<String>, key: &str) -> (r: Option<usize>)
    ensures
        match r {
            Some(i) => i < v.len() && texts(v@)[i as int] == key@,
            None => !texts(v@).contains(key@),
        },
{
    let mut i: usize = 0;
    while i < v.len()
        invariant
            i <= v.len(),
            forall|j: int| 0 <= j < i ==> texts(v@)[j] != key@,
        decreases v.len() - i,
    {
        if same_text(v[i].as_str(), key) {
            return Some(i);
        }
        i = i + 1;
    }
    None
}

/// The labels under which one session has an open channel. A label is
/// registered when its channel opens and removed when it closes, so a
/// closed channel is never found here.
pub struct DataChannelRegistry {
    labels: Vec<String>,
}

impl View for DataChannelRegistry {
    type V = Set<Seq<char>>;

    closed spec fn view(&self) -> Set<Seq<char>> {
        texts(self.labels@).to_set()
    }
}

impl DataChannelRegistry {
    /// No label is held twice.
    pub closed spec fn wf(&self) -> bool {
        texts(self.labels@).no_duplicates()
    }

    /// A registry is a finite set of labels.
    pub proof fn lemma_finite(&self)
        ensures
            self@.finite(),
    {
        vstd::seq_lib::seq_to_set_is_finite(texts(self.labels@));
    }

    /// The registry of a session without channels.
    pub fn new() -> (r: DataChannelRegistry)
        ensures
            r.wf(),
            r@ == Set::<Seq<char>>::empty(),
    {
        let r = DataChannelRegistry { labels: Vec::new() };
        assert(r@ =~= Set::<Seq<char>>::empty());
        r
    }

    /// True when a channel is registered under the label.
    pub fn contains(&self, label: &str) -> (r: bool)
        ensures
            r == self@.contains(label@),
    {
        position(&self.labels, label).is_some()
    }

    /// How many channels are registered.
    pub fn len(&self) -> (n: usize)
        requires
            self.wf(),
        ensures
            n == self@.len(),
    {
        proof {
            texts(self.labels@).unique_seq_to_set();
        }
        self.labels.len()
    }

    /// Registers the channel with the given label.
    pub fn register(&mut self, label: &str)
        requires
            old(self).wf(),
        ensures
            final(self).wf(),
            final(self)@ == old(self)@.insert(label@),
    {
        match position(&self.labels, label) {
            Some(_) => {
                assert(self@ =~= self@.insert(label@));
            },
            None => {
                let ghost before = texts(self.labels@);
                self.labels.push(label.to_owned());
                proof {
                    assert(texts(self.labels@) =~= before.push(label@));
                    before.lemma_push_to_set_commute(label@);
                }
            },
        }
    }

    /// Removes the channel with the given label, if there is one.
    pub fn remove(&mut self, label: &str)
        requires
            old(self).wf(),
        ensures
            final(self).wf(),
            final(self)@ == old(self)@.remove(label@),
    {
        match position(&self.labels, label) {
            None => {
                assert(self@ =~= self@.remove(label@));
            },
            Some(i) => {
                let ghost before = texts(self.labels@);
                self.labels.remove(i);
                proof {
                    let after = texts(self.labels@);
                    assert(after =~= before.remove(i as int));
                    assert forall|a: Seq<char>| after.contains(a) <==> (before.contains(a) && a
                        != label@) by {
                        if after.contains(a) {
                            let j = choose|j: int| 0 <= j < after.len() && after[j] == a;
                            if j < i {
                                assert(before[j] == a);
                            } else {
                                assert(before[j + 1] == a);
                            }
                        }
                        if before.contains(a) && a != label@ {
                            let j = choose|j: int| 0 <= j < before.len() && before[j] == a;
                            if j < i {
                                assert(after[j] == a);
                            } else {
                                assert(after[j - 1] == a);
                            }
                        }
                    }
                    assert(self@ =~= old(self)@.remove(label@));
                }
            },
        }
    }

    /// Removes every channel.
    pub fn clear(&mut self)
        ensures
            final(self).wf(),
            final(self)@ == Set::<Seq<char>>::empty(),
    {
        self.labels.clear();
        assert(self@ =~= Set::<Seq<char>>::empty());
    }
}

} // verus!
