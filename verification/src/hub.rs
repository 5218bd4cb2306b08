//! The state that all sessions of a server share, and the one function
//! through which a session's events change it.
//!
//! [`Hub::dispatch`] changes the state and hands back what is to be sent.
//! The sending itself is the caller's, after the call has returned: nothing
//! is sent while the state is being changed, and one send that fails holds
//! up no other.

use vstd::prelude::*;
use vstd::utf8::{decode_utf8, encode_utf8_decode_utf8, valid_utf8};
use crate::error::{RoutingError, SignalingError};
use crate::identity::{IdentityIssuer, SessionIdentity};
use crate::registry::{control_label, ChannelState, DataChannel};
use crate::rooms::{
    distinct_members, joined, lemma_join_distinct, lemma_join_idempotent, lemma_without_member,
    lemma_filter_distinct, members_of, other_than, without_member, RoomDirectory,
};
use crate::router::{
    command_of, deliveries_view, fan_out, join_word, lemma_fan_out_complete,
    lemma_fan_out_isolated, lemma_fan_out_sound, lemma_join_without_a_room, read_command, route,
    tagged, welcome_text, Command, CommandView, Delivery, DeliveryView,
};
use crate::session::{is_terminal, ConnectionState};
use crate::sessions::{labels_of, with_channel, without_channel, SessionTable};
use crate::text::{string_from_utf8, word_at};

verus! {

/// What happened to a session.
#[derive(Clone, Debug, PartialEq, Eq)]
pub enum SessionEvent {
    /// The connection reports a state.
    ConnectionStateChanged(ConnectionState),
    /// The channel with this label has opened.
    ChannelOpened(String),
    /// The channel with this label has closed.
    ChannelClosed(String),
    /// A text came in on the channel with this label.
    MessageReceived(String, String),
    /// A text of this session could not be sent to a recipient.
    DeliveryFailed(Delivery),
}

/// A [`SessionEvent`] as plain values.
pub ghost enum EventView {
    ConnectionStateChanged(ConnectionState),
    ChannelOpened(Seq<char>),
    ChannelClosed(Seq<char>),
    MessageReceived(Seq<char>, Seq<char>),
    DeliveryFailed(DeliveryView),
}

impl View for SessionEvent {
    type V = EventView;

    open spec fn view(&self) -> EventView {
        match self {
            SessionEvent::ConnectionStateChanged(state) => EventView::ConnectionStateChanged(
                *state,
            ),
            SessionEvent::ChannelOpened(label) => EventView::ChannelOpened(label@),
            SessionEvent::ChannelClosed(label) => EventView::ChannelClosed(label@),
            SessionEvent::MessageReceived(label, text) => EventView::MessageReceived(
                label@,
                text@,
            ),
            SessionEvent::DeliveryFailed(delivery) => EventView::DeliveryFailed(delivery@),
        }
    }
}

/// The event that a channel's state stands for, seen from its owner: an
/// open channel has opened, a closed one has closed, and a channel that is
/// connecting or closing is no event.
pub open spec fn channel_event_of(label: Seq<char>, state: ChannelState) -> Option<EventView> {
    match state {
        ChannelState::Open => Some(EventView::ChannelOpened(label)),
        ChannelState::Closed => Some(EventView::ChannelClosed(label)),
        _ => None,
    }
}

/// The event to dispatch for a channel whose state has changed, if any.
pub fn channel_event(channel: &DataChannel) -> (event: Option<SessionEvent>)
    ensures
        match event {
            Some(e) => channel_event_of(channel.label@, channel.ready_state) == Some(e@),
            None => channel_event_of(channel.label@, channel.ready_state) is None,
        },
{
    match channel.ready_state {
        ChannelState::Open => Some(SessionEvent::ChannelOpened(channel.label.clone())),
        ChannelState::Closed => Some(SessionEvent::ChannelClosed(channel.label.clone())),
        _ => None,
    }
}

/// The event to dispatch for a frame that came in on a channel: the
/// message that its bytes spell as UTF-8, or none if they spell no text.
pub fn message_event(label: &str, frame: Vec<u8>) -> (event: Option<SessionEvent>)
    ensures
        match event {
            Some(e) => valid_utf8(frame@) && e@ == EventView::MessageReceived(
                label@,
                decode_utf8(frame@),
            ),
            None => !valid_utf8(frame@),
        },
{
    match string_from_utf8(frame) {
        Some(text) => {
            proof {
                encode_utf8_decode_utf8(text@);
            }
            Some(SessionEvent::MessageReceived(label.to_owned(), text))
        },
        None => None,
    }
}

/// What is to be done after an event: texts to send, each on its own
/// whatever becomes of the others; a failure to report; and whether the
/// session's connection is to be released.
#[derive(Debug, PartialEq, Eq)]
pub struct Outcome {
    pub deliveries: Vec<Delivery>,
    pub error: Option<RoutingError>,
    pub release: bool,
}

/// An [`Outcome`] as plain values.
pub ghost struct OutcomeView {
    pub deliveries: Seq<DeliveryView>,
    pub error: Option<RoutingError>,
    pub release: bool,
}

impl View for Outcome {
    type V = OutcomeView;

    open spec fn view(&self) -> OutcomeView {
        OutcomeView {
            deliveries: deliveries_view(self.deliveries@),
            error: self.error,
            release: self.release,
        }
    }
}

/// The shared state as plain values: the channel labels of each live
/// session, the members of each room, and every identity that was ever
/// given to a session.
pub ghost struct HubView {
    pub sessions: Map<SessionIdentity, Set<Seq<char>>>,
    pub rooms: Map<Seq<char>, Seq<SessionIdentity>>,
    pub issued: Set<SessionIdentity>,
}

/// What holds of the shared state at all times: every member of a room is
/// a live session, every live session has an identity that was issued,
/// and no room lists a member twice.
pub open spec fn valid(h: HubView) -> bool {
    &&& forall|room: Seq<char>, m: SessionIdentity| #[trigger]
        members_of(h.rooms, room).contains(m) ==> h.sessions.contains_key(m)
    &&& forall|m: SessionIdentity| #[trigger] h.sessions.contains_key(m) ==> h.issued.contains(m)
    &&& distinct_members(h.rooms)
}

/// The state in which nothing has happened yet.
pub open spec fn initial() -> HubView {
    HubView { sessions: Map::empty(), rooms: Map::empty(), issued: Set::empty() }
}

/// The state after a session with a fresh identity has been admitted, or
/// `None` if the identity was issued before.
pub open spec fn admitted(h: HubView, id: SessionIdentity) -> Option<HubView> {
    if h.issued.contains(id) {
        None
    } else {
        Some(
            HubView {
                sessions: h.sessions.insert(id, Set::empty()),
                rooms: h.rooms,
                issued: h.issued.insert(id),
            },
        )
    }
}

/// The state after an event of a session.
///
/// A state in which the session's resources are released removes the
/// session and its channels, and its membership of every room. An opened
/// channel is registered and a closed one removed, if the session is live.
/// A message of a live session that is the command to join a room makes
/// the session a member of it. Nothing else changes the state.
pub open spec fn step(h: HubView, session: SessionIdentity, event: EventView) -> HubView {
    match event {
        EventView::ConnectionStateChanged(state) => if is_terminal(state) {
            HubView {
                sessions: h.sessions.remove(session),
                rooms: without_member(h.rooms, session),
                issued: h.issued,
            }
        } else {
            h
        },
        EventView::ChannelOpened(label) => HubView {
            sessions: with_channel(h.sessions, session, label),
            rooms: h.rooms,
            issued: h.issued,
        },
        EventView::ChannelClosed(label) => HubView {
            sessions: without_channel(h.sessions, session, label),
            rooms: h.rooms,
            issued: h.issued,
        },
        EventView::MessageReceived(label, text) => if h.sessions.contains_key(session) {
            match command_of(label, text) {
                CommandView::Join(room) => HubView {
                    sessions: h.sessions,
                    rooms: joined(h.rooms, room, session),
                    issued: h.issued,
                },
                _ => h,
            }
        } else {
            h
        },
        EventView::DeliveryFailed(_) => h,
    }
}

/// Nothing to send, nothing to report, nothing to release.
pub open spec fn nothing() -> OutcomeView {
    OutcomeView { deliveries: seq![], error: None, release: false }
}

/// What is to be done after an event of a session.
///
/// A state in which resources are released asks for the release of the
/// connection. A channel of a live session that has opened gets the
/// welcome text. A message of a live session is fanned out over the rooms
/// as they are after the message's own command, and a command that names
/// no room is reported. A failed delivery is reported with its recipient.
pub open spec fn outcome_of(h: HubView, session: SessionIdentity, event: EventView) -> OutcomeView {
    match event {
        EventView::ConnectionStateChanged(state) => OutcomeView {
            deliveries: seq![],
            error: None,
            release: is_terminal(state),
        },
        EventView::ChannelOpened(label) => if h.sessions.contains_key(session) {
            OutcomeView {
                deliveries: seq![
                    DeliveryView { recipient: session, label, text: welcome_text() },
                ],
                error: None,
                release: false,
            }
        } else {
            nothing()
        },
        EventView::ChannelClosed(_) => nothing(),
        EventView::MessageReceived(label, text) => if h.sessions.contains_key(session) {
            OutcomeView {
                deliveries: fan_out(
                    h.sessions,
                    step(h, session, event).rooms,
                    session,
                    label,
                    text,
                ),
                error: if command_of(label, text) is Invalid {
                    Some(RoutingError::InvalidRoomCommand)
                } else {
                    None
                },
                release: false,
            }
        } else {
            nothing()
        },
        EventView::DeliveryFailed(delivery) => OutcomeView {
            deliveries: seq![],
            error: Some(RoutingError::ChannelDeliveryFailed(delivery.recipient)),
            release: false,
        },
    }
}

/// Admitting a session keeps the state valid.
pub proof fn lemma_admitted_valid(h: HubView, id: SessionIdentity)
    requires
        valid(h),
        admitted(h, id) is Some,
    ensures
        valid(admitted(h, id)->0),
{
    let after = admitted(h, id)->0;
    assert forall|room: Seq<char>, m: SessionIdentity| #[trigger]
        members_of(after.rooms, room).contains(m) implies after.sessions.contains_key(m) by {
        assert(members_of(h.rooms, room).contains(m));
    }
}

/// Every event keeps the state valid.
pub proof fn lemma_step_valid(h: HubView, session: SessionIdentity, event: EventView)
    requires
        valid(h),
    ensures
        valid(step(h, session, event)),
{
    let after = step(h, session, event);
    match event {
        EventView::ConnectionStateChanged(state) => {
            if is_terminal(state) {
                assert forall|room: Seq<char>, m: SessionIdentity| #[trigger]
                    members_of(after.rooms, room).contains(m) implies after.sessions.contains_key(
                    m,
                ) by {
                    lemma_without_member(h.rooms, session, room, m);
                    assert(members_of(h.rooms, room).contains(m));
                }
                assert forall|room: Seq<char>| after.rooms.contains_key(room) implies (
                #[trigger] after.rooms[room]).no_duplicates() by {
                    lemma_filter_distinct(h.rooms[room], other_than(session));
                }
            }
        },
        EventView::ChannelOpened(label) => {
            assert forall|room: Seq<char>, m: SessionIdentity| #[trigger]
                members_of(after.rooms, room).contains(m) implies after.sessions.contains_key(
                m,
            ) by {
                assert(members_of(h.rooms, room).contains(m));
            }
        },
        EventView::ChannelClosed(label) => {
            assert forall|room: Seq<char>, m: SessionIdentity| #[trigger]
                members_of(after.rooms, room).contains(m) implies after.sessions.contains_key(
                m,
            ) by {
                assert(members_of(h.rooms, room).contains(m));
            }
        },
        EventView::MessageReceived(label, text) => {
            if h.sessions.contains_key(session) {
                match command_of(label, text) {
                    CommandView::Join(name) => {
                        lemma_join_distinct(h.rooms, name, session);
                        assert forall|room: Seq<char>, m: SessionIdentity| #[trigger]
                            members_of(after.rooms, room).contains(
                                m,
                            ) implies after.sessions.contains_key(m) by {
                            if room == name && !members_of(h.rooms, name).contains(session) {
                                let grown = members_of(h.rooms, name).push(session);
                                let j = choose|j: int| 0 <= j < grown.len() && grown[j] == m;
                                if j < grown.len() - 1 {
                                    assert(members_of(h.rooms, name)[j] == m);
                                    assert(members_of(h.rooms, room).contains(m));
                                }
                            } else {
                                assert(members_of(h.rooms, room).contains(m));
                            }
                        }
                    },
                    _ => {},
                }
            }
        },
        EventView::DeliveryFailed(_) => {},
    }
}

/// No event issues an identity or takes one back.
pub proof fn lemma_step_keeps_issued(h: HubView, session: SessionIdentity, event: EventView)
    ensures
        step(h, session, event).issued == h.issued,
{
}

/// One thing that happens to the shared state: a session asks to be
/// admitted under an identity, or an event of a session comes in.
pub ghost enum Operation {
    Admit(SessionIdentity),
    Event(SessionIdentity, EventView),
}

/// The state after one operation. An admission that is refused changes
/// nothing.
pub open spec fn apply(h: HubView, operation: Operation) -> HubView {
    match operation {
        Operation::Admit(id) => match admitted(h, id) {
            Some(after) => after,
            None => h,
        },
        Operation::Event(session, event) => step(h, session, event),
    }
}

/// The state after a run of operations.
pub open spec fn run(h: HubView, operations: Seq<Operation>) -> HubView
    decreases operations.len(),
{
    if operations.len() == 0 {
        h
    } else {
        apply(run(h, operations.drop_last()), operations.last())
    }
}

/// True when the operation at index `i` of a run is an admission that
/// succeeds.
pub open spec fn admits(h: HubView, operations: Seq<Operation>, i: int) -> bool {
    &&& 0 <= i < operations.len()
    &&& operations[i] matches Operation::Admit(id)
    &&& admitted(run(h, operations.take(i)), id) is Some
}

/// The state stays valid over every run.
pub proof fn lemma_run_valid(h: HubView, operations: Seq<Operation>)
    requires
        valid(h),
    ensures
        valid(run(h, operations)),
    decreases operations.len(),
{
    if operations.len() > 0 {
        let before = run(h, operations.drop_last());
        lemma_run_valid(h, operations.drop_last());
        match operations.last() {
            Operation::Admit(id) => {
                if admitted(before, id) is Some {
                    lemma_admitted_valid(before, id);
                }
            },
            Operation::Event(session, event) => {
                lemma_step_valid(before, session, event);
            },
        }
    }
}

/// An identity that was issued stays issued, whatever happens later.
pub proof fn lemma_run_keeps_issued(h: HubView, operations: Seq<Operation>, i: int)
    requires
        0 <= i <= operations.len(),
    ensures
        run(h, operations.take(i)).issued.subset_of(run(h, operations).issued),
    decreases operations.len(),
{
    if i == operations.len() {
        assert(operations.take(i) =~= operations);
    } else {
        let shorter = operations.drop_last();
        lemma_run_keeps_issued(h, shorter, i);
        assert(shorter.take(i) =~= operations.take(i));
    }
}

/// No two sessions share an identity: of all the sessions that are ever
/// admitted in a run, whatever else happens in it, each has an identity of
/// its own.
pub proof fn lemma_run_identities_unique(h: HubView, operations: Seq<Operation>, i: int, j: int)
    requires
        i < j,
        admits(h, operations, i),
        admits(h, operations, j),
    ensures
        operations[i]->Admit_0 != operations[j]->Admit_0,
{
    let first = operations[i]->Admit_0;
    let upto = operations.take(j);
    let through = upto.take(i + 1);
    assert(through.drop_last() =~= operations.take(i));
    assert(through.last() == operations[i]);
    assert(run(h, through).issued.contains(first));
    lemma_run_keeps_issued(h, upto, i + 1);
    assert(run(h, upto).issued.contains(first));
}

/// Joining the room that a session is in already changes no room: the
/// same message a second time leaves the state as it was after the first.
pub proof fn lemma_rejoin_changes_nothing(
    h: HubView,
    session: SessionIdentity,
    label: Seq<char>,
    text: Seq<char>,
)
    ensures
        ({
            let message = EventView::MessageReceived(label, text);
            step(step(h, session, message), session, message) == step(h, session, message)
        }),
{
    match command_of(label, text) {
        CommandView::Join(room) => {
            lemma_join_idempotent(h.rooms, room, session);
        },
        _ => {},
    }
}

/// A join command that names no room changes nothing and is reported: on
/// the control channel, the join word alone or with nothing but spaces
/// behind it leaves every room, every member and every session as they
/// were.
pub proof fn lemma_invalid_join_changes_nothing(
    h: HubView,
    session: SessionIdentity,
    text: Seq<char>,
)
    requires
        h.sessions.contains_key(session),
        word_at(text, 0, join_word()),
        forall|i: int| join_word().len() <= i < text.len() ==> text[i] == ' ',
    ensures
        ({
            let message = EventView::MessageReceived(control_label(), text);
            &&& step(h, session, message) == h
            &&& outcome_of(h, session, message).error == Some(RoutingError::InvalidRoomCommand)
            &&& !outcome_of(h, session, message).release
        }),
{
    lemma_join_without_a_room(text);
}

/// A message of a live session is delivered to every member of the room
/// named like the channel's label that has a channel under that label, the
/// sender included, tagged with the sender.
pub proof fn lemma_message_reaches_room(
    h: HubView,
    sender: SessionIdentity,
    label: Seq<char>,
    text: Seq<char>,
    member: SessionIdentity,
)
    requires
        h.sessions.contains_key(sender),
        members_of(h.rooms, label).contains(member),
        labels_of(h.sessions, member).contains(label),
    ensures
        outcome_of(h, sender, EventView::MessageReceived(label, text)).deliveries.contains(
            DeliveryView { recipient: member, label, text: tagged(sender, text) },
        ),
{
    let after = step(h, sender, EventView::MessageReceived(label, text));
    match command_of(label, text) {
        CommandView::Join(room) => {
            if room == label && !members_of(h.rooms, room).contains(sender) {
                let before = members_of(h.rooms, room);
                let j = choose|j: int| 0 <= j < before.len() && before[j] == member;
                assert(before.push(sender)[j] == member);
            }
        },
        _ => {},
    }
    assert(members_of(after.rooms, label).contains(member));
    lemma_fan_out_complete(h.sessions, after.rooms, sender, label, text, member);
}

/// A channel that has closed takes nothing from the others: a message that
/// comes in after one member's channel has closed is not delivered to that
/// member, and is delivered to every other member just as before.
pub proof fn lemma_closed_channel_is_isolated(
    h: HubView,
    closed: SessionIdentity,
    sender: SessionIdentity,
    label: Seq<char>,
    text: Seq<char>,
    member: SessionIdentity,
)
    requires
        member != closed,
    ensures
        ({
            let message = EventView::MessageReceived(label, text);
            let after = step(h, closed, EventView::ChannelClosed(label));
            let to_member = DeliveryView { recipient: member, label, text: tagged(sender, text) };
            let to_closed = DeliveryView { recipient: closed, label, text: tagged(sender, text) };
            &&& outcome_of(after, sender, message).deliveries.contains(to_member) <==> outcome_of(
                h,
                sender,
                message,
            ).deliveries.contains(to_member)
            &&& !outcome_of(after, sender, message).deliveries.contains(to_closed)
        }),
{
    let message = EventView::MessageReceived(label, text);
    let after = step(h, closed, EventView::ChannelClosed(label));
    let to_closed = DeliveryView { recipient: closed, label, text: tagged(sender, text) };
    assert(after.sessions.contains_key(sender) <==> h.sessions.contains_key(sender));
    assert(after.rooms == h.rooms);
    assert(labels_of(after.sessions, member) == labels_of(h.sessions, member));
    if h.sessions.contains_key(sender) {
        let rooms = step(h, sender, message).rooms;
        assert(step(after, sender, message).rooms == rooms);
        lemma_fan_out_isolated(after.sessions, h.sessions, rooms, sender, label, text, member);
        if fan_out(after.sessions, rooms, sender, label, text).contains(to_closed) {
            lemma_fan_out_sound(after.sessions, rooms, sender, label, text, to_closed);
        }
    }
}

/// When a session's connection comes to `Disconnected`, `Failed` or
/// `Closed`, the session is live no more, has no channel under any label,
/// and is a member of no room; its connection is to be released.
pub proof fn lemma_teardown_complete(
    h: HubView,
    session: SessionIdentity,
    state: ConnectionState,
    room: Seq<char>,
    label: Seq<char>,
)
    requires
        is_terminal(state),
    ensures
        ({
            let event = EventView::ConnectionStateChanged(state);
            let after = step(h, session, event);
            &&& !after.sessions.contains_key(session)
            &&& !labels_of(after.sessions, session).contains(label)
            &&& !members_of(after.rooms, room).contains(session)
            &&& outcome_of(h, session, event).release
        }),
{
    lemma_without_member(h.rooms, session, room, session);
}

/// Tearing a session down twice is the same as tearing it down once.
pub proof fn lemma_teardown_idempotent(
    h: HubView,
    session: SessionIdentity,
    state: ConnectionState,
)
    requires
        is_terminal(state),
    ensures
        ({
            let event = EventView::ConnectionStateChanged(state);
            step(step(h, session, event), session, event) == step(h, session, event)
        }),
{
    let event = EventView::ConnectionStateChanged(state);
    let once = step(h, session, event);
    let twice = step(once, session, event);
    assert(twice.sessions =~= once.sessions);
    assert forall|room: Seq<char>| once.rooms.contains_key(room) implies once.rooms[room].filter(
        other_than(session),
    ) == once.rooms[room] by {
        lemma_filter_twice(h.rooms[room], other_than(session));
    }
    assert(twice.rooms =~= once.rooms);
}

proof fn lemma_filter_twice(s: Seq<SessionIdentity>, keep: spec_fn(SessionIdentity) -> bool)
    ensures
        s.filter(keep).filter(keep) == s.filter(keep),
    decreases s.len(),
{
    reveal_with_fuel(Seq::filter, 1);
    if s.len() > 0 {
        let rest = s.drop_last();
        lemma_filter_twice(rest, keep);
        if keep(s.last()) {
            let kept = rest.filter(keep);
            assert(kept.push(s.last()).drop_last() =~= kept);
        }
    }
}

/// The shared state of a server: the live sessions with their channels,
/// the rooms, and the identities that were issued.
pub struct Hub {
    sessions: SessionTable,
    rooms: RoomDirectory,
    issuer: IdentityIssuer,
}

impl View for Hub {
    type V = HubView;

    closed spec fn view(&self) -> HubView {
        HubView { sessions: self.sessions@, rooms: self.rooms@, issued: self.issuer@ }
    }
}

impl Hub {
    /// The parts are in order, and the state is valid.
    pub closed spec fn wf(&self) -> bool {
        &&& self.sessions.wf()
        &&& self.rooms.wf()
        &&& valid(self@)
    }

    /// The state of a hub in order is valid.
    pub proof fn lemma_valid(&self)
        requires
            self.wf(),
        ensures
            valid(self@),
    {
    }

    /// A hub without sessions and rooms.
    pub fn new() -> (hub: Hub)
        ensures
            hub.wf(),
            hub@ == initial(),
    {
        Hub {
            sessions: SessionTable::new(),
            rooms: RoomDirectory::new(),
            issuer: IdentityIssuer::new(),
        }
    }

    /// True when the identity was given to a session of this hub, live or
    /// not.
    pub fn was_issued(&self, id: SessionIdentity) -> (r: bool)
        ensures
            r == self@.issued.contains(id),
    {
        self.issuer.was_issued(id)
    }

    /// True when the session is live.
    pub fn is_live(&self, id: SessionIdentity) -> (r: bool)
        ensures
            r == self@.sessions.contains_key(id),
    {
        self.sessions.contains(id)
    }

    /// True when the session is live and has a channel under the label.
    pub fn has_channel(&self, id: SessionIdentity, label: &str) -> (r: bool)
        requires
            self.wf(),
        ensures
            r == labels_of(self@.sessions, id).contains(label@),
    {
        self.sessions.has_channel(id, label)
    }

    /// True when the room exists.
    pub fn has_room(&self, room: &str) -> (r: bool)
        ensures
            r == self@.rooms.contains_key(room@),
    {
        self.rooms.has_room(room)
    }

    /// The members of a room in the order in which they joined.
    pub fn members(&self, room: &str) -> (out: Vec<SessionIdentity>)
        requires
            self.wf(),
        ensures
            out@ == members_of(self@.rooms, room@),
    {
        self.rooms.members(room)
    }

    /// Admits a session under an identity drawn at random. The identity is
    /// refused with `SignalingHandshakeFailed` exactly when it was issued
    /// before, and then nothing changes.
    pub fn open_session(&mut self, bits: u128) -> (r: Result<SessionIdentity, SignalingError>)
        requires
            old(self).wf(),
        ensures
            final(self).wf(),
            match r {
                Ok(id) => id.bits == bits && admitted(old(self)@, id) == Some(final(self)@),
                Err(e) => e == SignalingError::SignalingHandshakeFailed && admitted(
                    old(self)@,
                    SessionIdentity { bits },
                ) is None && final(self)@ == old(self)@,
            },
    {
        match self.issuer.issue(bits) {
            None => Err(SignalingError::SignalingHandshakeFailed),
            Some(id) => {
                self.sessions.insert(id);
                proof {
                    assert(self@ == admitted(old(self)@, id)->0);
                    lemma_admitted_valid(old(self)@, id);
                }
                Ok(id)
            },
        }
    }

    /// Takes in an event of a session, and says what is to be done.
    pub fn dispatch(&mut self, session: SessionIdentity, event: &SessionEvent) -> (outcome: Outcome)
        requires
            old(self).wf(),
        ensures
            final(self).wf(),
            final(self)@ == step(old(self)@, session, event@),
            outcome@ == outcome_of(old(self)@, session, event@),
    {
        proof {
            lemma_step_valid(self@, session, event@);
        }
        let live = self.sessions.contains(session);
        match event {
            SessionEvent::ConnectionStateChanged(state) => {
                let release = state.is_terminal();
                if release {
                    self.sessions.remove(session);
                    self.rooms.remove_member(session);
                }
                let outcome = Outcome { deliveries: Vec::new(), error: None, release };
                assert(outcome@.deliveries =~= Seq::<DeliveryView>::empty());
                outcome
            },
            SessionEvent::ChannelOpened(label) => {
                self.sessions.register_channel(session, label.as_str());
                let mut deliveries: Vec<Delivery> = Vec::new();
                if live {
                    let welcome = Delivery {
                        recipient: session,
                        label: label.clone(),
                        text: "Connected to client!".to_owned(),
                    };
                    deliveries.push(welcome);
                    assert(deliveries_view(deliveries@) =~= seq![welcome@]);
                } else {
                    assert(deliveries_view(deliveries@) =~= Seq::<DeliveryView>::empty());
                }
                Outcome { deliveries, error: None, release: false }
            },
            SessionEvent::ChannelClosed(label) => {
                self.sessions.remove_channel(session, label.as_str());
                let outcome = Outcome { deliveries: Vec::new(), error: None, release: false };
                assert(outcome@.deliveries =~= Seq::<DeliveryView>::empty());
                outcome
            },
            SessionEvent::MessageReceived(label, text) => {
                if !live {
                    let outcome = Outcome { deliveries: Vec::new(), error: None, release: false };
                    assert(outcome@.deliveries =~= Seq::<DeliveryView>::empty());
                    return outcome;
                }
                let error = match read_command(label.as_str(), text.as_str()) {
                    Command::Join(room) => {
                        self.rooms.join(room.as_str(), session);
                        None
                    },
                    Command::Invalid => Some(RoutingError::InvalidRoomCommand),
                    Command::Pass => None,
                };
                let deliveries = route(
                    &self.sessions,
                    &self.rooms,
                    session,
                    label.as_str(),
                    text.as_str(),
                );
                Outcome { deliveries, error, release: false }
            },
            SessionEvent::DeliveryFailed(delivery) => {
                let outcome = Outcome {
                    deliveries: Vec::new(),
                    error: Some(RoutingError::ChannelDeliveryFailed(delivery.recipient)),
                    release: false,
                };
                assert(outcome@.deliveries =~= Seq::<DeliveryView>::empty());
                outcome
            },
        }
    }
}

} // verus!
