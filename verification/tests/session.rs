use cyberdeck_client_web_sys::gate::ConnectivityGate;
use cyberdeck_client_web_sys::hub::{Hub, SessionEvent};
use cyberdeck_client_web_sys::identity::SessionIdentity;
use cyberdeck_client_web_sys::session::{ConnectionState, PeerSession};
use cyberdeck_client_web_sys::supervisor::{ConnectionSupervisor, Supervision, DEFAULT_POLL_INTERVAL_MS};

const ALL: [ConnectionState; 6] = [
    ConnectionState::New,
    ConnectionState::Connecting,
    ConnectionState::Connected,
    ConnectionState::Disconnected,
    ConnectionState::Failed,
    ConnectionState::Closed,
];

#[test]
fn three_states_release_resources() {
    assert!(!ConnectionState::New.is_terminal());
    assert!(!ConnectionState::Connecting.is_terminal());
    assert!(!ConnectionState::Connected.is_terminal());
    assert!(ConnectionState::Disconnected.is_terminal());
    assert!(ConnectionState::Failed.is_terminal());
    assert!(ConnectionState::Closed.is_terminal());
}

#[test]
fn the_steps_of_a_connection() {
    let allowed = [
        (ConnectionState::New, ConnectionState::Connecting),
        (ConnectionState::Connecting, ConnectionState::Connected),
        (ConnectionState::Connecting, ConnectionState::Disconnected),
        (ConnectionState::Connecting, ConnectionState::Failed),
        (ConnectionState::Connected, ConnectionState::Disconnected),
        (ConnectionState::Connected, ConnectionState::Failed),
    ];
    for from in ALL {
        for to in ALL {
            let expected = to == ConnectionState::Closed || allowed.contains(&(from, to));
            assert_eq!(from.can_become(to), expected, "{:?} -> {:?}", from, to);
        }
    }
}

#[test]
fn a_session_starts_new_and_follows_its_connection() {
    let mut session = PeerSession::new(SessionIdentity::from_bits(5));
    assert_eq!(session.identity, SessionIdentity::from_bits(5));
    assert_eq!(session.connection_state, ConnectionState::New);
    assert!(!session.is_terminal());
    assert!(session.observe(ConnectionState::Connecting));
    assert!(session.observe(ConnectionState::Connected));
    assert_eq!(session.connection_state, ConnectionState::Connected);
    assert!(!session.is_terminal());
    assert!(session.observe(ConnectionState::Disconnected));
    assert!(session.is_terminal());
    assert_eq!(session.identity, SessionIdentity::from_bits(5));
}

#[test]
fn a_session_stays_where_it_cannot_move() {
    let mut session = PeerSession::new(SessionIdentity::from_bits(5));
    assert!(!session.observe(ConnectionState::Connected));
    assert_eq!(session.connection_state, ConnectionState::New);
    assert!(session.observe(ConnectionState::Closed));
    assert!(!session.observe(ConnectionState::Connecting));
    assert_eq!(session.connection_state, ConnectionState::Closed);
    assert!(session.observe(ConnectionState::Closed));
}

#[test]
fn the_end_of_candidates_counts_once() {
    let mut gate = ConnectivityGate::new();
    assert!(!gate.has_fired());
    assert!(!gate.on_candidate(false));
    assert!(!gate.on_candidate(false));
    assert!(!gate.has_fired());
    assert!(gate.on_candidate(true));
    assert!(gate.has_fired());
    assert!(!gate.on_candidate(true));
    assert!(!gate.on_candidate(false));
    assert!(gate.has_fired());
}

#[test]
fn the_supervisor_sleeps_while_the_connection_lives() {
    let mut hub = Hub::new();
    let a = hub.open_session(1).unwrap();
    let supervisor = ConnectionSupervisor::every_second();
    assert_eq!(DEFAULT_POLL_INTERVAL_MS, 1000);
    assert_eq!(supervisor.interval_ms, 1000);
    let mut session = PeerSession::new(a);
    for state in [ConnectionState::New, ConnectionState::Connecting, ConnectionState::Connected] {
        session.connection_state = state;
        assert_eq!(supervisor.poll(&mut hub, &session), Supervision::Sleep(1000));
        assert!(hub.is_live(a));
    }
    assert_eq!(ConnectionSupervisor::new(250).poll(&mut hub, &session), Supervision::Sleep(250));
}

#[test]
fn the_supervisor_tears_down_at_the_first_look_that_finds_the_end() {
    for state in [ConnectionState::Disconnected, ConnectionState::Failed, ConnectionState::Closed] {
        let mut hub = Hub::new();
        let a = hub.open_session(1).unwrap();
        let b = hub.open_session(2).unwrap();
        for s in [a, b] {
            hub.dispatch(s, &SessionEvent::ChannelOpened("lobby".to_string()));
            hub.dispatch(s, &SessionEvent::MessageReceived("lobby".to_string(), "/join lobby".to_string()));
        }
        let mut session = PeerSession::new(a);
        session.connection_state = state;
        assert_eq!(ConnectionSupervisor::every_second().poll(&mut hub, &session), Supervision::Release);
        assert!(!hub.is_live(a));
        assert!(!hub.has_channel(a, "lobby"));
        assert_eq!(hub.members("lobby"), vec![b]);
        assert!(hub.is_live(b));
        // a second look changes nothing
        assert_eq!(ConnectionSupervisor::every_second().poll(&mut hub, &session), Supervision::Release);
        assert_eq!(hub.members("lobby"), vec![b]);
    }
}
