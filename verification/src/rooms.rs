//! The directory of rooms: for each room name, the sessions that joined.
//!
//! A room comes into being when its first member joins and is never
//! destroyed. Its members stand in the order in which they joined, each
//! once.

use vstd::prelude::*;
use crate::identity::SessionIdentity;
use crate::registry::{position, texts};

verus! {

/// The members of a room, or none if the room does not exist.
pub open spec fn members_of(
    rooms: Map<Seq<char>, Seq<SessionIdentity>>,
    room: Seq<char>,
) -> Seq<SessionIdentity> {
    if rooms.contains_key(room) {
        rooms[room]
    } else {
        seq![]
    }
}

/// The rooms after a session has joined one: the room exists, and the
/// session is its last member unless it was a member already.
pub open spec fn joined(
    rooms: Map<Seq<char>, Seq<SessionIdentity>>,
    room: Seq<char>,
    id: SessionIdentity,
) -> Map<Seq<char>, Seq<SessionIdentity>> {
    if members_of(rooms, room).contains(id) {
        rooms
    } else {
        rooms.insert(room, members_of(rooms, room).push(id))
    }
}

/// The test that holds of every session but one.
pub open spec fn other_than(id: SessionIdentity) -> spec_fn(SessionIdentity) -> bool {
    |m: SessionIdentity| m != id
}

/// The rooms after a session has left all of them: the same rooms, each
/// without that session.
pub open spec fn without_member(
    rooms: Map<Seq<char>, Seq<SessionIdentity>>,
    id: SessionIdentity,
) -> Map<Seq<char>, Seq<SessionIdentity>> {
    Map::new(
        |room: Seq<char>| rooms.contains_key(room),
        |room: Seq<char>| rooms[room].filter(other_than(id)),
    )
}

/// No room lists a member twice.
pub open spec fn distinct_members(rooms: Map<Seq<char>, Seq<SessionIdentity>>) -> bool {
    forall|room: Seq<char>| rooms.contains_key(room) ==> (#[trigger] rooms[room]).no_duplicates()
}

/// Joining a room twice is the same as joining it once.
pub proof fn lemma_join_idempotent(
    rooms: Map<Seq<char>, Seq<SessionIdentity>>,
    room: Seq<char>,
    id: SessionIdentity,
)
    ensures
        joined(joined(rooms, room, id), room, id) == joined(rooms, room, id),
        members_of(joined(rooms, room, id), room).contains(id),
{
    let once = joined(rooms, room, id);
    if !members_of(rooms, room).contains(id) {
        let grown = members_of(rooms, room).push(id);
        assert(grown[grown.len() - 1] == id);
        assert(members_of(once, room) == grown);
    }
}

/// Joining keeps members distinct.
pub proof fn lemma_join_distinct(
    rooms: Map<Seq<char>, Seq<SessionIdentity>>,
    room: Seq<char>,
    id: SessionIdentity,
)
    requires
        distinct_members(rooms),
    ensures
        distinct_members(joined(rooms, room, id)),
{
    let once = joined(rooms, room, id);
    assert forall|r: Seq<char>| once.contains_key(r) implies (#[trigger] once[r]).no_duplicates() by {
        if r != room || members_of(rooms, room).contains(id) {
            assert(once[r] == rooms[r]);
        }
    }
}

/// After a session has left all rooms, no room lists it, and every other
/// membership is as before.
pub proof fn lemma_without_member(
    rooms: Map<Seq<char>, Seq<SessionIdentity>>,
    id: SessionIdentity,
    room: Seq<char>,
    other: SessionIdentity,
)
    ensures
        !members_of(without_member(rooms, id), room).contains(id),
        other != id ==> (members_of(without_member(rooms, id), room).contains(other)
            <==> members_of(rooms, room).contains(other)),
{
    if rooms.contains_key(room) {
        let before = rooms[room];
        let after = before.filter(other_than(id));
        assert(members_of(without_member(rooms, id), room) == after);
        if after.contains(id) {
            let j = choose|j: int| 0 <= j < after.len() && after[j] == id;
            before.lemma_filter_pred(other_than(id), j);
        }
        if other != id {
            if after.contains(other) {
                before.lemma_filter_contains_rev(other_than(id), other);
            }
            if before.contains(other) {
                let j = choose|j: int| 0 <= j < before.len() && before[j] == other;
                before.lemma_filter_contains(other_than(id), j);
            }
        }
    }
}

/// Leaving out some elements of a sequence that holds nothing twice gives
/// a sequence that holds nothing twice.
pub proof fn lemma_filter_distinct(s: Seq<SessionIdentity>, keep: spec_fn(SessionIdentity) -> bool)
    requires
        s.no_duplicates(),
    ensures
        s.filter(keep).no_duplicates(),
    decreases s.len(),
{
    reveal_with_fuel(Seq::filter, 1);
    if s.len() > 0 {
        let rest = s.drop_last();
        lemma_filter_distinct(rest, keep);
        if keep(s.last()) {
            let kept = rest.filter(keep);
            if kept.contains(s.last()) {
                rest.lemma_filter_contains_rev(keep, s.last());
                let j = choose|j: int| 0 <= j < rest.len() && rest[j] == s.last();
                assert(s[j] == s[s.len() - 1]);
            }
            assert forall|a: int, b: int| 0 <= a < b < kept.len() + 1 implies kept.push(
                s.last(),
            )[a] != kept.push(s.last())[b] by {
                if b == kept.len() {
                    assert(kept.contains(kept[a]));
                }
            }
        }
    }
}

/// The members of a sequence other than one session, in order.
fn others(members: &Vec<SessionIdentity>, id: SessionIdentity) -> (out: Vec<SessionIdentity>)
    ensures
        out@ == members@.filter(other_than(id)),
{
    let mut out: Vec<SessionIdentity> = Vec::new();
    let mut i: usize = 0;
    proof {
        reveal_with_fuel(Seq::filter, 1);
        assert(members@.subrange(0, 0) =~= Seq::<SessionIdentity>::empty());
    }
    while i < members.len()
        invariant
            i <= members.len(),
            out@ == members@.subrange(0, i as int).filter(other_than(id)),
        decreases members.len() - i,
    {
        proof {
            reveal_with_fuel(Seq::filter, 1);
            let next = members@.subrange(0, i + 1);
            assert(next.drop_last() =~= members@.subrange(0, i as int));
            assert(next.last() == members@[i as int]);
        }
        if members[i] != id {
            out.push(members[i]);
        }
        i = i + 1;
    }
    proof {
        assert(members@.subrange(0, i as int) =~= members@);
    }
    out
}

/// True when the session stands among the members.
fn holds(members: &Vec<SessionIdentity>, id: SessionIdentity) -> (r: bool)
    ensures
        r == members@.contains(id),
{
    let mut i: usize = 0;
    while i < members.len()
        invariant
            i <= members.len(),
            forall|j: int| 0 <= j < i ==> members@[j] != id,
        decreases members.len() - i,
    {
        if members[i] == id {
            return true;
        }
        i = i + 1;
    }
    false
}

/// A copy of the members.
fn copy_of(members: &Vec<SessionIdentity>) -> (out: Vec<SessionIdentity>)
    ensures
        out@ == members@,
{
    let mut out: Vec<SessionIdentity> = Vec::new();
    let mut i: usize = 0;
    while i < members.len()
        invariant
            i <= members.len(),
            out@ == members@.subrange(0, i as int),
        decreases members.len() - i,
    {
        out.push(members[i]);
        proof {
            assert(members@.subrange(0, i + 1) =~= members@.subrange(0, i as int).push(
                members@[i as int],
            ));
        }
        i = i + 1;
    }
    proof {
        assert(members@.subrange(0, i as int) =~= members@);
    }
    out
}

/// The rooms and their members.
pub struct RoomDirectory {
    names: Vec<String>,
    members: Vec<Vec<SessionIdentity>>,
}

impl View for RoomDirectory {
    type V = Map<Seq<char>, Seq<SessionIdentity>>;

    closed spec fn view(&self) -> Map<Seq<char>, Seq<SessionIdentity>> {
        Map::new(
            |room: Seq<char>| texts(self.names@).contains(room),
            |room: Seq<char>| self.members@[texts(self.names@).index_of(room)]@,
        )
    }
}

impl RoomDirectory {
    /// Every name stands once and has its members, and no room lists a
    /// member twice.
    pub closed spec fn wf(&self) -> bool {
        &&& self.names@.len() == self.members@.len()
        &&& texts(self.names@).no_duplicates()
        &&& forall|i: int| 0 <= i < self.members@.len() ==> (#[trigger] self.members@[i])@.no_duplicates()
    }

    proof fn lemma_room_at(&self, i: int)
        requires
            self.wf(),
            0 <= i < self.names@.len(),
        ensures
            self@.contains_key(texts(self.names@)[i]),
            self@[texts(self.names@)[i]] == self.members@[i]@,
    {
        let names = texts(self.names@);
        assert(names.contains(names[i]));
        assert(names.index_of(names[i]) == i);
    }

    /// A directory holds finitely many rooms, and none lists a member
    /// twice.
    pub proof fn lemma_valid(&self)
        requires
            self.wf(),
        ensures
            self@.dom().finite(),
            distinct_members(self@),
    {
        let names = texts(self.names@);
        vstd::seq_lib::seq_to_set_is_finite(names);
        assert(self@.dom() =~= names.to_set());
        assert forall|room: Seq<char>| self@.contains_key(room) implies (#[trigger] self@[room]).no_duplicates() by {
            let i = names.index_of(room);
            self.lemma_room_at(i);
        }
    }

    /// The directory without rooms.
    pub fn new() -> (r: RoomDirectory)
        ensures
            r.wf(),
            r@ == Map::<Seq<char>, Seq<SessionIdentity>>::empty(),
    {
        let r = RoomDirectory { names: Vec::new(), members: Vec::new() };
        assert(r@ =~= Map::<Seq<char>, Seq<SessionIdentity>>::empty());
        r
    }

    /// True when the room exists.
    pub fn has_room(&self, room: &str) -> (r: bool)
        ensures
            r == self@.contains_key(room@),
    {
        position(&self.names, room).is_some()
    }

    /// The members of a room in the order in which they joined; none if the
    /// room does not exist.
    pub fn members(&self, room: &str) -> (out: Vec<SessionIdentity>)
        requires
            self.wf(),
        ensures
            out@ == members_of(self@, room@),
    {
        match position(&self.names, room) {
            None => Vec::new(),
            Some(i) => {
                proof {
                    self.lemma_room_at(i as int);
                }
                copy_of(&self.members[i])
            },
        }
    }

    /// True when the session is a member of the room.
    pub fn is_member(&self, room: &str, id: SessionIdentity) -> (r: bool)
        requires
            self.wf(),
        ensures
            r == members_of(self@, room@).contains(id),
    {
        match position(&self.names, room) {
            None => false,
            Some(i) => {
                proof {
                    self.lemma_room_at(i as int);
                }
                holds(&self.members[i], id)
            },
        }
    }

    /// Adds the session to the room, which is created if it does not exist.
    /// A session that is a member already stays where it is.
    pub fn join(&mut self, room: &str, id: SessionIdentity)
        requires
            old(self).wf(),
        ensures
            final(self).wf(),
            final(self)@ == joined(old(self)@, room@, id),
    {
        let ghost names = texts(self.names@);
        match position(&self.names, room) {
            None => {
                let mut first: Vec<SessionIdentity> = Vec::new();
                first.push(id);
                self.names.push(room.to_owned());
                self.members.push(first);
                proof {
                    let after = texts(self.names@);
                    assert(after =~= names.push(room@));
                    assert(first@ =~= Seq::<SessionIdentity>::empty().push(id));
                    assert forall|n: Seq<char>| #[trigger] after.contains(n) <==> (names.contains(n)
                        || n == room@) by {
                        if names.contains(n) {
                            let j = names.index_of(n);
                            assert(after[j] == n);
                        }
                        if n == room@ {
                            assert(after[after.len() - 1] == n);
                        }
                    }
                    assert forall|n: Seq<char>| names.contains(n) implies after.index_of(n)
                        == names.index_of(n) by {
                        let j = names.index_of(n);
                        assert(after[j] == n);
                        assert(after.contains(n));
                    }
                    assert(after.index_of(room@) == after.len() - 1) by {
                        assert(after[after.len() - 1] == room@);
                    }
                    assert(self@ =~= joined(old(self)@, room@, id));
                }
            },
            Some(i) => {
                proof {
                    self.lemma_room_at(i as int);
                }
                if !holds(&self.members[i], id) {
                    let mut grown = copy_of(&self.members[i]);
                    grown.push(id);
                    self.members.set(i, grown);
                    proof {
                        assert forall|n: Seq<char>| names.contains(n) && n != room@ implies names.index_of(
                            n,
                        ) != i by {}
                        assert(names.index_of(room@) == i);
                        assert(self@ =~= joined(old(self)@, room@, id));
                    }
                }
            },
        }
    }

    /// Removes the session from every room. The rooms stay.
    pub fn remove_member(&mut self, id: SessionIdentity)
        requires
            old(self).wf(),
        ensures
            final(self).wf(),
            final(self)@ == without_member(old(self)@, id),
    {
        let mut rebuilt: Vec<Vec<SessionIdentity>> = Vec::new();
        let mut i: usize = 0;
        while i < self.members.len()
            invariant
                i <= self.members.len(),
                *self == *old(self),
                self.wf(),
                rebuilt@.len() == i,
                forall|j: int| 0 <= j < i ==> (#[trigger] rebuilt@[j])@ == self.members@[j]@.filter(other_than(id)),
            decreases self.members.len() - i,
        {
            let kept = others(&self.members[i], id);
            rebuilt.push(kept);
            i = i + 1;
        }
        proof {
            assert forall|j: int| 0 <= j < rebuilt@.len() implies (#[trigger] rebuilt@[j])@.no_duplicates() by {
                lemma_filter_distinct(self.members@[j]@, other_than(id));
            }
        }
        self.members = rebuilt;
        proof {
            assert(self@ =~= without_member(old(self)@, id));
        }
    }
}

} // verus!
