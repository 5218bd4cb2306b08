//! What travels on the channels: the room command of the control channel,
//! and the messages that are fanned out to a room.
//!
//! The command to join a room is the join word, spaces, and the room's
//! name, which holds no space. What stands behind the name is not looked
//! at.

use vstd::prelude::*;
use vstd::string::*;
use crate::identity::{decimal, SessionIdentity};
use crate::registry::control_label;
use crate::rooms::{members_of, RoomDirectory};
use crate::sessions::{labels_of, SessionTable};
use crate::text::{chars_of, has_word, push_char, same_text, word_at};

verus! {

/// The text that the server sends on a channel that has opened.
pub open spec fn welcome_text() -> Seq<char> {
    "Connected to client!"@
}

/// The word that starts the command to join a room.
pub open spec fn join_word() -> Seq<char> {
    "/join"@
}

/// The first index at or after `from` that holds a space, or the length of
/// the text if there is none.
pub open spec fn next_space(text: Seq<char>, from: int) -> int
    decreases text.len() - from,
{
    if 0 <= from < text.len() && text[from] != ' ' {
        next_space(text, from + 1)
    } else {
        from
    }
}

/// The first index at or after `from` that holds no space, or the length
/// of the text if only spaces follow.
pub open spec fn skip_spaces(text: Seq<char>, from: int) -> int
    decreases text.len() - from,
{
    if 0 <= from < text.len() && text[from] == ' ' {
        skip_spaces(text, from + 1)
    } else {
        from
    }
}

/// True when a text begins with the join word as a word of its own: the
/// text ends behind it, or a space follows.
pub open spec fn is_join(text: Seq<char>) -> bool {
    let n = join_word().len() as int;
    word_at(text, 0, join_word()) && (text.len() == n || text[n] == ' ')
}

/// The room that a join command names: the first run of characters other
/// than spaces behind the join word, or `None` if nothing but spaces
/// follows the join word.
pub open spec fn room_named(text: Seq<char>) -> Option<Seq<char>> {
    let start = skip_spaces(text, join_word().len() as int);
    if start < text.len() {
        Some(text.subrange(start, next_space(text, start)))
    } else {
        None
    }
}

/// What a message asks of the server besides being passed on.
#[derive(Clone, Debug, PartialEq, Eq)]
pub enum Command {
    /// Nothing: the message is not a command.
    Pass,
    /// To join the room of this name.
    Join(String),
    /// To join a room, without naming one.
    Invalid,
}

/// A [`Command`] as plain values.
pub ghost enum CommandView {
    Pass,
    Join(Seq<char>),
    Invalid,
}

impl View for Command {
    type V = CommandView;

    open spec fn view(&self) -> CommandView {
        match self {
            Command::Pass => CommandView::Pass,
            Command::Join(room) => CommandView::Join(room@),
            Command::Invalid => CommandView::Invalid,
        }
    }
}

/// The command in a message. A message on the control channel that
/// begins with the join word as a word of its own asks to join the room
/// that it names, and is invalid if it names none: the join word alone, or
/// with nothing but spaces behind it. Every other message is no command,
/// also one whose first word only begins like the join word.
pub open spec fn command_of(label: Seq<char>, text: Seq<char>) -> CommandView {
    if label == control_label() && is_join(text) {
        match room_named(text) {
            Some(room) => CommandView::Join(room),
            None => CommandView::Invalid,
        }
    } else {
        CommandView::Pass
    }
}

/// Up to the next space there is no space.
pub proof fn lemma_next_space(text: Seq<char>, from: int)
    requires
        0 <= from <= text.len(),
    ensures
        from <= next_space(text, from) <= text.len(),
        forall|i: int| from <= i < next_space(text, from) ==> text[i] != ' ',
        from < text.len() && text[from] != ' ' ==> from < next_space(text, from),
    decreases text.len() - from,
{
    if from < text.len() && text[from] != ' ' {
        lemma_next_space(text, from + 1);
    }
}

/// Spaces are skipped forwards, up to a character that is no space or to the
/// end of the text.
pub proof fn lemma_skip_spaces(text: Seq<char>, from: int)
    requires
        0 <= from <= text.len(),
    ensures
        from <= skip_spaces(text, from) <= text.len(),
        forall|i: int| from <= i < skip_spaces(text, from) ==> text[i] == ' ',
        skip_spaces(text, from) < text.len() ==> text[skip_spaces(text, from)] != ' ',
    decreases text.len() - from,
{
    if from < text.len() && text[from] == ' ' {
        lemma_skip_spaces(text, from + 1);
    }
}

/// The room of a join command has a name: at least one character, and no
/// space.
pub proof fn lemma_room_has_a_name(label: Seq<char>, text: Seq<char>)
    requires
        command_of(label, text) is Join,
    ensures
        ({
            let room = command_of(label, text)->Join_0;
            room.len() > 0 && forall|i: int| 0 <= i < room.len() ==> room[i] != ' '
        }),
{
    let n = join_word().len() as int;
    lemma_skip_spaces(text, n);
    let start = skip_spaces(text, n);
    lemma_next_space(text, start);
}

/// A join word with nothing but spaces behind it names no room: the command
/// is invalid, whatever the number of spaces.
pub proof fn lemma_join_without_a_room(text: Seq<char>)
    requires
        word_at(text, 0, join_word()),
        forall|i: int| join_word().len() <= i < text.len() ==> text[i] == ' ',
    ensures
        command_of(control_label(), text) is Invalid,
{
    let n = join_word().len() as int;
    lemma_only_spaces(text, n);
}

proof fn lemma_only_spaces(text: Seq<char>, from: int)
    requires
        0 <= from <= text.len(),
        forall|i: int| from <= i < text.len() ==> text[i] == ' ',
    ensures
        skip_spaces(text, from) == text.len(),
    decreases text.len() - from,
{
    if from < text.len() {
        lemma_only_spaces(text, from + 1);
    }
}

fn find_space(text: &Vec<char>, from: usize) -> (at: usize)
    requires
        from <= text.len(),
    ensures
        at == next_space(text@, from as int),
        from <= at <= text.len(),
{
    let mut at: usize = from;
    while at < text.len() && text[at] != ' '
        invariant
            from <= at <= text.len(),
            next_space(text@, from as int) == next_space(text@, at as int),
        decreases text.len() - at,
    {
        at = at + 1;
    }
    at
}

fn find_no_space(text: &Vec<char>, from: usize) -> (at: usize)
    requires
        from <= text.len(),
    ensures
        at == skip_spaces(text@, from as int),
        from <= at <= text.len(),
{
    let mut at: usize = from;
    while at < text.len() && text[at] == ' '
        invariant
            from <= at <= text.len(),
            skip_spaces(text@, from as int) == skip_spaces(text@, at as int),
        decreases text.len() - at,
    {
        at = at + 1;
    }
    at
}

/// Reads the command in a message that came in on the channel with the
/// given label.
pub fn read_command(label: &str, text: &str) -> (command: Command)
    ensures
        command@ == command_of(label@, text@),
{
    if !same_text(label, "lobby") {
        return Command::Pass;
    }
    let chars = chars_of(text);
    if !has_word(&chars, 0, "/join") {
        return Command::Pass;
    }
    proof {
        reveal_strlit("/join");
    }
    let word_end: usize = 5;
    if chars.len() > word_end && chars[word_end] != ' ' {
        return Command::Pass;
    }
    let start = find_no_space(&chars, word_end);
    if start >= chars.len() {
        return Command::Invalid;
    }
    let end = find_space(&chars, start);
    let mut room = String::new();
    let mut i: usize = start;
    while i < end
        invariant
            start <= i <= end <= chars.len(),
            room@ == chars@.subrange(start as int, i as int),
        decreases end - i,
    {
        push_char(&mut room, chars[i]);
        proof {
            assert(chars@.subrange(start as int, i + 1) =~= chars@.subrange(
                start as int,
                i as int,
            ).push(chars@[i as int]));
        }
        i = i + 1;
    }
    Command::Join(room)
}

/// A message as its recipients get it: the sender's identity in decimal, a
/// colon and a space, and the text as it was sent.
pub open spec fn tagged(sender: SessionIdentity, text: Seq<char>) -> Seq<char> {
    decimal(sender.bits as nat) + ": "@ + text
}

/// Tags a message with its sender.
pub fn tag(sender: SessionIdentity, text: &str) -> (out: String)
    ensures
        out@ == tagged(sender, text@),
{
    let mut out = sender.to_text();
    out.append(": ");
    out.append(text);
    out
}

/// One text to send on one channel of one session.
#[derive(Clone, Debug, PartialEq, Eq)]
pub struct Delivery {
    pub recipient: SessionIdentity,
    pub label: String,
    pub text: String,
}

/// A [`Delivery`] as plain values.
pub ghost struct DeliveryView {
    pub recipient: SessionIdentity,
    pub label: Seq<char>,
    pub text: Seq<char>,
}

impl View for Delivery {
    type V = DeliveryView;

    open spec fn view(&self) -> DeliveryView {
        DeliveryView { recipient: self.recipient, label: self.label@, text: self.text@ }
    }
}

/// The deliveries in a sequence, as plain values.
pub open spec fn deliveries_view(deliveries: Seq<Delivery>) -> Seq<DeliveryView> {
    deliveries.map_values(|d: Delivery| d@)
}

/// The test for the sessions that have a channel under a label.
pub open spec fn reaches(
    sessions: Map<SessionIdentity, Set<Seq<char>>>,
    label: Seq<char>,
) -> spec_fn(SessionIdentity) -> bool {
    |m: SessionIdentity| labels_of(sessions, m).contains(label)
}

/// The delivery of one text on the channels with one label, by recipient.
pub open spec fn addressed(label: Seq<char>, text: Seq<char>) -> spec_fn(
    SessionIdentity,
) -> DeliveryView {
    |m: SessionIdentity| DeliveryView { recipient: m, label, text }
}

/// The deliveries of a message that came in on a channel: one to each
/// member of the room named like the channel's label that has a channel
/// under that label, the sender included, in the order of joining. Each
/// carries the text tagged with the sender.
pub open spec fn fan_out(
    sessions: Map<SessionIdentity, Set<Seq<char>>>,
    rooms: Map<Seq<char>, Seq<SessionIdentity>>,
    sender: SessionIdentity,
    label: Seq<char>,
    text: Seq<char>,
) -> Seq<DeliveryView> {
    members_of(rooms, label).filter(reaches(sessions, label)).map_values(
        addressed(label, tagged(sender, text)),
    )
}

/// Computes the deliveries of a message.
pub fn route(
    sessions: &SessionTable,
    rooms: &RoomDirectory,
    sender: SessionIdentity,
    label: &str,
    text: &str,
) -> (out: Vec<Delivery>)
    requires
        sessions.wf(),
        rooms.wf(),
    ensures
        deliveries_view(out@) == fan_out(sessions@, rooms@, sender, label@, text@),
{
    let members = rooms.members(label);
    let tagged_text = tag(sender, text);
    let mut out: Vec<Delivery> = Vec::new();
    let mut i: usize = 0;
    let ghost keep = reaches(sessions@, label@);
    let ghost make = addressed(label@, tagged(sender, text@));
    proof {
        reveal_with_fuel(Seq::filter, 1);
        assert(members@.subrange(0, 0) =~= Seq::<SessionIdentity>::empty());
        assert(deliveries_view(out@) =~= members@.subrange(0, 0).filter(keep).map_values(make));
    }
    while i < members.len()
        invariant
            i <= members.len(),
            sessions.wf(),
            keep == reaches(sessions@, label@),
            make == addressed(label@, tagged(sender, text@)),
            tagged_text@ == tagged(sender, text@),
            deliveries_view(out@) == members@.subrange(0, i as int).filter(keep).map_values(make),
        decreases members.len() - i,
    {
        let m = members[i];
        let ghost before = out@;
        proof {
            reveal_with_fuel(Seq::filter, 1);
            let next = members@.subrange(0, i + 1);
            assert(next.drop_last() =~= members@.subrange(0, i as int));
            assert(next.last() == m);
        }
        if sessions.has_channel(m, label) {
            let delivery = Delivery {
                recipient: m,
                label: label.to_owned(),
                text: tagged_text.clone(),
            };
            out.push(delivery);
            proof {
                let kept = members@.subrange(0, i as int).filter(keep);
                assert(deliveries_view(out@) =~= deliveries_view(before).push(delivery@));
                assert(kept.push(m).map_values(make) =~= kept.map_values(make).push(make(m)));
            }
        }
        i = i + 1;
    }
    proof {
        assert(members@.subrange(0, i as int) =~= members@);
    }
    out
}

/// A message reaches every member of the room that has a channel under
/// the label, the sender included, tagged with the sender.
pub proof fn lemma_fan_out_complete(
    sessions: Map<SessionIdentity, Set<Seq<char>>>,
    rooms: Map<Seq<char>, Seq<SessionIdentity>>,
    sender: SessionIdentity,
    label: Seq<char>,
    text: Seq<char>,
    member: SessionIdentity,
)
    requires
        members_of(rooms, label).contains(member),
        labels_of(sessions, member).contains(label),
    ensures
        fan_out(sessions, rooms, sender, label, text).contains(
            DeliveryView { recipient: member, label, text: tagged(sender, text) },
        ),
{
    let members = members_of(rooms, label);
    let keep = reaches(sessions, label);
    let make = addressed(label, tagged(sender, text));
    let i = choose|i: int| 0 <= i < members.len() && members[i] == member;
    members.lemma_filter_contains(keep, i);
    let kept = members.filter(keep);
    let j = choose|j: int| 0 <= j < kept.len() && kept[j] == member;
    assert(kept.map_values(make)[j] == make(member));
}

/// A message reaches nobody else: every delivery goes to a member of the
/// room that has a channel under the label, on that label, tagged with the
/// sender.
pub proof fn lemma_fan_out_sound(
    sessions: Map<SessionIdentity, Set<Seq<char>>>,
    rooms: Map<Seq<char>, Seq<SessionIdentity>>,
    sender: SessionIdentity,
    label: Seq<char>,
    text: Seq<char>,
    delivery: DeliveryView,
)
    requires
        fan_out(sessions, rooms, sender, label, text).contains(delivery),
    ensures
        delivery.label == label,
        delivery.text == tagged(sender, text),
        members_of(rooms, label).contains(delivery.recipient),
        labels_of(sessions, delivery.recipient).contains(label),
{
    let members = members_of(rooms, label);
    let keep = reaches(sessions, label);
    let make = addressed(label, tagged(sender, text));
    let kept = members.filter(keep);
    let out = kept.map_values(make);
    let j = choose|j: int| 0 <= j < out.len() && out[j] == delivery;
    assert(out[j] == make(kept[j]));
    members.lemma_filter_pred(keep, j);
    assert(kept.contains(kept[j]));
    members.lemma_filter_contains_rev(keep, kept[j]);
}

/// Whether a message reaches a member depends on that member's own
/// channels alone: whatever the channels of the other sessions are, open
/// or closed, the member gets the same delivery.
pub proof fn lemma_fan_out_isolated(
    sessions: Map<SessionIdentity, Set<Seq<char>>>,
    others: Map<SessionIdentity, Set<Seq<char>>>,
    rooms: Map<Seq<char>, Seq<SessionIdentity>>,
    sender: SessionIdentity,
    label: Seq<char>,
    text: Seq<char>,
    member: SessionIdentity,
)
    requires
        labels_of(sessions, member) == labels_of(others, member),
    ensures
        ({
            let delivery = DeliveryView { recipient: member, label, text: tagged(sender, text) };
            fan_out(sessions, rooms, sender, label, text).contains(delivery) <==> fan_out(
                others,
                rooms,
                sender,
                label,
                text,
            ).contains(delivery)
        }),
{
    let delivery = DeliveryView { recipient: member, label, text: tagged(sender, text) };
    if fan_out(sessions, rooms, sender, label, text).contains(delivery) {
        lemma_fan_out_sound(sessions, rooms, sender, label, text, delivery);
        lemma_fan_out_complete(others, rooms, sender, label, text, member);
    }
    if fan_out(others, rooms, sender, label, text).contains(delivery) {
        lemma_fan_out_sound(others, rooms, sender, label, text, delivery);
        lemma_fan_out_complete(sessions, rooms, sender, label, text, member);
    }
}

} // verus!
