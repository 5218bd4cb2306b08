use cyberdeck_client_web_sys::error::{RoutingError, SignalingError};
use cyberdeck_client_web_sys::hub::{channel_event, message_event, Hub, Outcome, SessionEvent};
use cyberdeck_client_web_sys::identity::SessionIdentity;
use cyberdeck_client_web_sys::registry::{ChannelState, DataChannel};
use cyberdeck_client_web_sys::router::{read_command, route, tag, Command, Delivery};
use cyberdeck_client_web_sys::rooms::RoomDirectory;
use cyberdeck_client_web_sys::session::ConnectionState;
use cyberdeck_client_web_sys::sessions::SessionTable;

fn opened(label: &str) -> SessionEvent {
    SessionEvent::ChannelOpened(label.to_string())
}

fn closed(label: &str) -> SessionEvent {
    SessionEvent::ChannelClosed(label.to_string())
}

fn message(label: &str, text: &str) -> SessionEvent {
    SessionEvent::MessageReceived(label.to_string(), text.to_string())
}

fn delivery(recipient: SessionIdentity, label: &str, text: &str) -> Delivery {
    Delivery { recipient, label: label.to_string(), text: text.to_string() }
}

fn nothing() -> Outcome {
    Outcome { deliveries: vec![], error: None, release: false }
}

/// A hub with sessions 101, 102 and 103, each with the channels "lobby"
/// and "roomX" and a member of "roomX".
fn three_in_a_room() -> (Hub, SessionIdentity, SessionIdentity, SessionIdentity) {
    let mut hub = Hub::new();
    let a = hub.open_session(101).unwrap();
    let b = hub.open_session(102).unwrap();
    let c = hub.open_session(103).unwrap();
    for s in [a, b, c] {
        hub.dispatch(s, &opened("lobby"));
        hub.dispatch(s, &message("lobby", "/join roomX"));
        hub.dispatch(s, &opened("roomX"));
    }
    (hub, a, b, c)
}

#[test]
fn a_new_hub_is_empty() {
    let hub = Hub::new();
    assert!(!hub.is_live(SessionIdentity::from_bits(1)));
    assert!(!hub.was_issued(SessionIdentity::from_bits(1)));
    assert_eq!(hub.members("lobby"), vec![]);
    assert!(!hub.has_channel(SessionIdentity::from_bits(1), "lobby"));
}

#[test]
fn a_session_is_admitted_under_its_bits() {
    let mut hub = Hub::new();
    let a = hub.open_session(77).unwrap();
    assert_eq!(a, SessionIdentity::from_bits(77));
    assert!(hub.is_live(a));
    assert!(hub.was_issued(a));
    assert!(!hub.has_channel(a, "lobby"));
}

#[test]
fn no_two_sessions_share_an_identity() {
    let mut hub = Hub::new();
    let a = hub.open_session(77).unwrap();
    assert_eq!(hub.open_session(77), Err(SignalingError::SignalingHandshakeFailed));
    let b = hub.open_session(78).unwrap();
    assert_ne!(a, b);
    // not even after the first is gone
    hub.dispatch(a, &SessionEvent::ConnectionStateChanged(ConnectionState::Closed));
    assert!(!hub.is_live(a));
    assert!(hub.was_issued(a));
    assert_eq!(hub.open_session(77), Err(SignalingError::SignalingHandshakeFailed));
    assert!(!hub.is_live(a));
}

#[test]
fn a_refused_identity_changes_nothing() {
    let mut hub = Hub::new();
    let a = hub.open_session(77).unwrap();
    hub.dispatch(a, &opened("lobby"));
    hub.dispatch(a, &message("lobby", "/join lobby"));
    assert!(hub.open_session(77).is_err());
    assert!(hub.is_live(a));
    assert!(hub.has_channel(a, "lobby"));
    assert_eq!(hub.members("lobby"), vec![a]);
}

#[test]
fn an_opened_channel_is_registered_and_welcomed() {
    let mut hub = Hub::new();
    let a = hub.open_session(1).unwrap();
    let outcome = hub.dispatch(a, &opened("lobby"));
    assert_eq!(
        outcome,
        Outcome {
            deliveries: vec![delivery(a, "lobby", "Connected to client!")],
            error: None,
            release: false
        }
    );
    assert!(hub.has_channel(a, "lobby"));
    let outcome = hub.dispatch(a, &opened("roomX"));
    assert_eq!(outcome.deliveries, vec![delivery(a, "roomX", "Connected to client!")]);
    assert!(hub.has_channel(a, "roomX"));
}

#[test]
fn a_closed_channel_is_removed_and_membership_stays() {
    let (mut hub, a, b, c) = three_in_a_room();
    assert_eq!(hub.dispatch(b, &closed("roomX")), nothing());
    assert!(!hub.has_channel(b, "roomX"));
    assert!(hub.has_channel(b, "lobby"));
    assert_eq!(hub.members("roomX"), vec![a, b, c]);
}

#[test]
fn events_of_a_session_that_is_not_live_do_nothing() {
    let mut hub = Hub::new();
    let a = hub.open_session(1).unwrap();
    hub.dispatch(a, &opened("lobby"));
    hub.dispatch(a, &message("lobby", "/join lobby"));
    let ghost = SessionIdentity::from_bits(9);
    assert_eq!(hub.dispatch(ghost, &opened("lobby")), nothing());
    assert_eq!(hub.dispatch(ghost, &message("lobby", "/join lobby")), nothing());
    assert_eq!(hub.dispatch(ghost, &message("lobby", "hi")), nothing());
    assert_eq!(hub.dispatch(ghost, &closed("lobby")), nothing());
    assert!(!hub.is_live(ghost));
    assert!(!hub.has_channel(ghost, "lobby"));
    assert_eq!(hub.members("lobby"), vec![a]);
}

#[test]
fn join_makes_a_member_and_is_passed_on_like_any_message() {
    let mut hub = Hub::new();
    let a = hub.open_session(5).unwrap();
    hub.dispatch(a, &opened("lobby"));
    let outcome = hub.dispatch(a, &message("lobby", "/join lobby"));
    assert_eq!(hub.members("lobby"), vec![a]);
    assert_eq!(
        outcome,
        Outcome { deliveries: vec![delivery(a, "lobby", "5: /join lobby")], error: None, release: false }
    );
    let outcome = hub.dispatch(a, &message("lobby", "/join roomX"));
    assert_eq!(hub.members("roomX"), vec![a]);
    assert_eq!(outcome.deliveries, vec![delivery(a, "lobby", "5: /join roomX")]);
}

#[test]
fn joining_twice_leaves_the_members_unchanged() {
    let (mut hub, a, b, c) = three_in_a_room();
    hub.dispatch(a, &message("lobby", "/join roomX"));
    hub.dispatch(b, &message("lobby", "/join roomX"));
    assert_eq!(hub.members("roomX"), vec![a, b, c]);
}

#[test]
fn join_counts_on_the_control_channel_only() {
    let (mut hub, a, _, _) = three_in_a_room();
    let outcome = hub.dispatch(a, &message("roomX", "/join roomY"));
    assert_eq!(hub.members("roomY"), vec![]);
    assert_eq!(outcome.error, None);
    assert_eq!(outcome.deliveries.len(), 3);
}

#[test]
fn join_without_a_room_is_reported_and_changes_nothing() {
    for text in ["/join", "/join ", "/join  ", "/join      "] {
        let mut hub = Hub::new();
        let a = hub.open_session(5).unwrap();
        hub.dispatch(a, &opened("lobby"));
        hub.dispatch(a, &message("lobby", "/join lobby"));
        let outcome = hub.dispatch(a, &message("lobby", text));
        assert_eq!(
            outcome,
            Outcome {
                deliveries: vec![delivery(a, "lobby", &format!("5: {}", text))],
                error: Some(RoutingError::InvalidRoomCommand),
                release: false
            }
        );
        assert!(!hub.has_room(""));
        assert!(!hub.has_room(" "));
        assert_eq!(hub.members(""), vec![]);
        assert!(hub.has_room("lobby"));
        assert_eq!(hub.members("lobby"), vec![a]);
        assert!(hub.is_live(a));
        assert!(hub.has_channel(a, "lobby"));
        // the session goes on
        hub.dispatch(a, &message("lobby", "/join roomX"));
        assert_eq!(hub.members("roomX"), vec![a]);
    }
}

#[test]
fn a_word_that_only_begins_like_join_joins_nothing() {
    let mut hub = Hub::new();
    let a = hub.open_session(5).unwrap();
    hub.dispatch(a, &opened("lobby"));
    hub.dispatch(a, &message("lobby", "/join lobby"));
    let outcome = hub.dispatch(a, &message("lobby", "/joinnow roomX"));
    assert_eq!(
        outcome,
        Outcome { deliveries: vec![delivery(a, "lobby", "5: /joinnow roomX")], error: None, release: false }
    );
    assert!(!hub.has_room("roomX"));
}

#[test]
fn join_takes_the_room_behind_any_number_of_spaces() {
    let mut hub = Hub::new();
    let a = hub.open_session(5).unwrap();
    hub.dispatch(a, &message("lobby", "/join   roomX"));
    assert_eq!(hub.members("roomX"), vec![a]);
    assert!(!hub.has_room(""));
}

#[test]
fn rooms_come_into_being_at_the_first_join() {
    let mut hub = Hub::new();
    let a = hub.open_session(5).unwrap();
    assert!(!hub.has_room("roomX"));
    hub.dispatch(a, &message("lobby", "/join roomX"));
    assert!(hub.has_room("roomX"));
    hub.dispatch(a, &SessionEvent::ConnectionStateChanged(ConnectionState::Closed));
    assert!(hub.has_room("roomX"));
    assert_eq!(hub.members("roomX"), vec![]);
}

#[test]
fn a_message_reaches_every_member_with_a_channel_the_sender_too() {
    let (mut hub, a, b, c) = three_in_a_room();
    let outcome = hub.dispatch(a, &message("roomX", "hello"));
    assert_eq!(
        outcome,
        Outcome {
            deliveries: vec![
                delivery(a, "roomX", "101: hello"),
                delivery(b, "roomX", "101: hello"),
                delivery(c, "roomX", "101: hello"),
            ],
            error: None,
            release: false
        }
    );
}

#[test]
fn a_closed_channel_does_not_hold_up_the_others() {
    let (mut hub, a, b, c) = three_in_a_room();
    hub.dispatch(b, &closed("roomX"));
    let outcome = hub.dispatch(a, &message("roomX", "hello"));
    assert_eq!(
        outcome.deliveries,
        vec![delivery(a, "roomX", "101: hello"), delivery(c, "roomX", "101: hello")]
    );
    assert_eq!(outcome.error, None);
}

#[test]
fn a_failed_delivery_is_reported_and_changes_nothing() {
    let (mut hub, a, b, c) = three_in_a_room();
    let outcome = hub.dispatch(a, &message("roomX", "hello"));
    let failed = outcome.deliveries[1].clone();
    assert_eq!(failed.recipient, b);
    let outcome = hub.dispatch(a, &SessionEvent::DeliveryFailed(failed));
    assert_eq!(
        outcome,
        Outcome { deliveries: vec![], error: Some(RoutingError::ChannelDeliveryFailed(b)), release: false }
    );
    assert!(hub.is_live(a) && hub.is_live(b) && hub.is_live(c));
    assert!(hub.has_channel(b, "roomX"));
    assert_eq!(hub.members("roomX"), vec![a, b, c]);
    // the next message goes out to all three again
    assert_eq!(hub.dispatch(c, &message("roomX", "again")).deliveries.len(), 3);
}

#[test]
fn a_message_goes_to_members_only() {
    let (mut hub, a, _, _) = three_in_a_room();
    let d = hub.open_session(104).unwrap();
    hub.dispatch(d, &opened("lobby"));
    hub.dispatch(d, &opened("roomX"));
    // d has the channel but has not joined
    let outcome = hub.dispatch(d, &message("roomX", "psst"));
    assert_eq!(outcome.deliveries.len(), 3);
    assert!(outcome.deliveries.iter().all(|x| x.recipient != d && x.text == "104: psst"));
    // nobody has joined the lobby
    assert_eq!(hub.dispatch(a, &message("lobby", "anyone?")), nothing());
}

#[test]
fn a_member_without_the_channel_is_passed_over() {
    let mut hub = Hub::new();
    let a = hub.open_session(1).unwrap();
    let b = hub.open_session(2).unwrap();
    for s in [a, b] {
        hub.dispatch(s, &opened("lobby"));
        hub.dispatch(s, &message("lobby", "/join roomX"));
    }
    hub.dispatch(b, &opened("roomX"));
    let outcome = hub.dispatch(a, &message("roomX", "hi"));
    assert_eq!(outcome.deliveries, vec![delivery(b, "roomX", "1: hi")]);
}

#[test]
fn teardown_removes_the_session_everywhere() {
    for state in [ConnectionState::Closed, ConnectionState::Disconnected, ConnectionState::Failed] {
        let (mut hub, a, b, c) = three_in_a_room();
        hub.dispatch(b, &message("lobby", "/join roomY"));
        let outcome = hub.dispatch(b, &SessionEvent::ConnectionStateChanged(state));
        assert_eq!(outcome, Outcome { deliveries: vec![], error: None, release: true });
        assert!(!hub.is_live(b));
        assert!(!hub.has_channel(b, "lobby"));
        assert!(!hub.has_channel(b, "roomX"));
        assert_eq!(hub.members("roomX"), vec![a, c]);
        assert_eq!(hub.members("roomY"), vec![]);
        assert!(hub.was_issued(b));
        assert!(hub.is_live(a) && hub.is_live(c));
        assert!(hub.has_channel(a, "roomX") && hub.has_channel(c, "roomX"));
        let outcome = hub.dispatch(a, &message("roomX", "gone?"));
        assert_eq!(
            outcome.deliveries,
            vec![delivery(a, "roomX", "101: gone?"), delivery(c, "roomX", "101: gone?")]
        );
    }
}

#[test]
fn teardown_twice_is_teardown_once() {
    let (mut hub, a, b, c) = three_in_a_room();
    hub.dispatch(b, &SessionEvent::ConnectionStateChanged(ConnectionState::Failed));
    let outcome = hub.dispatch(b, &SessionEvent::ConnectionStateChanged(ConnectionState::Closed));
    assert!(outcome.release);
    assert_eq!(hub.members("roomX"), vec![a, c]);
    assert!(!hub.is_live(b));
}

#[test]
fn states_of_a_living_connection_change_nothing() {
    let (mut hub, a, b, c) = three_in_a_room();
    for state in [ConnectionState::New, ConnectionState::Connecting, ConnectionState::Connected] {
        assert_eq!(hub.dispatch(b, &SessionEvent::ConnectionStateChanged(state)), nothing());
    }
    assert!(hub.is_live(b));
    assert_eq!(hub.members("roomX"), vec![a, b, c]);
}

#[test]
fn the_command_names_the_room_behind_the_join_word() {
    assert_eq!(read_command("lobby", "/join roomX"), Command::Join("roomX".to_string()));
    assert_eq!(read_command("lobby", "/join roomX and more"), Command::Join("roomX".to_string()));
    assert_eq!(read_command("lobby", "/join roomX "), Command::Join("roomX".to_string()));
    assert_eq!(read_command("lobby", "/join  roomX"), Command::Join("roomX".to_string()));
    assert_eq!(read_command("lobby", "/join    roomX  y"), Command::Join("roomX".to_string()));
    assert_eq!(read_command("lobby", "/join \u{e9}t\u{e9}"), Command::Join("\u{e9}t\u{e9}".to_string()));
    assert_eq!(read_command("lobby", "/join x"), Command::Join("x".to_string()));
    assert_eq!(read_command("lobby", "/join /join"), Command::Join("/join".to_string()));
    assert_eq!(read_command("lobby", "/join \troomX"), Command::Join("\troomX".to_string()));
}

#[test]
fn a_join_word_without_a_room_is_invalid() {
    assert_eq!(read_command("lobby", "/join"), Command::Invalid);
    assert_eq!(read_command("lobby", "/join "), Command::Invalid);
    assert_eq!(read_command("lobby", "/join  "), Command::Invalid);
    assert_eq!(read_command("lobby", "/join          "), Command::Invalid);
}

#[test]
fn other_messages_are_no_command() {
    assert_eq!(read_command("lobby", "hello"), Command::Pass);
    assert_eq!(read_command("lobby", ""), Command::Pass);
    assert_eq!(read_command("lobby", "/joi roomX"), Command::Pass);
    assert_eq!(read_command("lobby", " /join roomX"), Command::Pass);
    assert_eq!(read_command("lobby", "/JOIN roomX"), Command::Pass);
    assert_eq!(read_command("lobby", "/joinnow roomX"), Command::Pass);
    assert_eq!(read_command("lobby", "/joinroomX"), Command::Pass);
    assert_eq!(read_command("lobby", "/join\troomX"), Command::Pass);
    assert_eq!(read_command("lobby", "/joins"), Command::Pass);
    assert_eq!(read_command("roomX", "/join roomY"), Command::Pass);
    assert_eq!(read_command("Lobby", "/join roomY"), Command::Pass);
    assert_eq!(read_command("", "/join roomY"), Command::Pass);
}

#[test]
fn a_message_is_tagged_with_its_sender() {
    assert_eq!(tag(SessionIdentity::from_bits(42), "hello"), "42: hello");
    assert_eq!(tag(SessionIdentity::from_bits(0), ""), "0: ");
    assert_eq!(
        tag(SessionIdentity::from_bits(u128::MAX), "x: y"),
        "340282366920938463463374607431768211455: x: y"
    );
}

#[test]
fn route_goes_by_rooms_and_channels() {
    let a = SessionIdentity::from_bits(1);
    let b = SessionIdentity::from_bits(2);
    let c = SessionIdentity::from_bits(3);
    let mut sessions = SessionTable::new();
    let mut rooms = RoomDirectory::new();
    for s in [a, b, c] {
        sessions.insert(s);
    }
    sessions.register_channel(a, "roomX");
    sessions.register_channel(c, "roomX");
    sessions.register_channel(b, "roomY");
    rooms.join("roomX", c);
    rooms.join("roomX", b);
    rooms.join("roomX", a);
    assert_eq!(
        route(&sessions, &rooms, b, "roomX", "hi"),
        vec![delivery(c, "roomX", "2: hi"), delivery(a, "roomX", "2: hi")]
    );
    assert_eq!(route(&sessions, &rooms, b, "roomY", "hi"), vec![]);
}

#[test]
fn a_channel_state_stands_for_an_event() {
    let mut channel = DataChannel {
        label: "roomX".to_string(),
        ready_state: ChannelState::Connecting,
        owning_session: SessionIdentity::from_bits(1),
    };
    assert_eq!(channel_event(&channel), None);
    channel.ready_state = ChannelState::Open;
    assert_eq!(channel_event(&channel), Some(opened("roomX")));
    channel.ready_state = ChannelState::Closing;
    assert_eq!(channel_event(&channel), None);
    channel.ready_state = ChannelState::Closed;
    assert_eq!(channel_event(&channel), Some(closed("roomX")));
}

#[test]
fn a_frame_of_text_is_a_message() {
    assert_eq!(message_event("roomX", b"hello".to_vec()), Some(message("roomX", "hello")));
    assert_eq!(message_event("lobby", "/join caf\u{e9}".as_bytes().to_vec()), Some(message("lobby", "/join caf\u{e9}")));
    assert_eq!(message_event("lobby", vec![]), Some(message("lobby", "")));
}

#[test]
fn a_frame_that_is_no_text_is_no_message() {
    assert_eq!(message_event("roomX", vec![0xff]), None);
    assert_eq!(message_event("roomX", vec![b'a', 0xc3]), None);
    assert_eq!(message_event("roomX", vec![0xed, 0xa0, 0x80]), None);
}
