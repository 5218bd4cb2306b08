use cyberdeck_client_web_sys::identity::SessionIdentity;
use cyberdeck_client_web_sys::registry::DataChannelRegistry;
use cyberdeck_client_web_sys::rooms::RoomDirectory;
use cyberdeck_client_web_sys::sessions::SessionTable;

fn id(bits: u128) -> SessionIdentity {
    SessionIdentity::from_bits(bits)
}

#[test]
fn a_new_directory_has_no_rooms() {
    let rooms = RoomDirectory::new();
    assert!(!rooms.has_room("lobby"));
    assert_eq!(rooms.members("lobby"), vec![]);
    assert!(!rooms.is_member("lobby", id(1)));
}

#[test]
fn joining_creates_the_room() {
    let mut rooms = RoomDirectory::new();
    rooms.join("roomX", id(1));
    assert!(rooms.has_room("roomX"));
    assert!(!rooms.has_room("roomY"));
    assert_eq!(rooms.members("roomX"), vec![id(1)]);
    assert!(rooms.is_member("roomX", id(1)));
    assert!(!rooms.is_member("roomX", id(2)));
}

#[test]
fn members_stand_in_the_order_of_joining() {
    let mut rooms = RoomDirectory::new();
    rooms.join("roomX", id(3));
    rooms.join("roomY", id(9));
    rooms.join("roomX", id(1));
    rooms.join("roomX", id(2));
    assert_eq!(rooms.members("roomX"), vec![id(3), id(1), id(2)]);
    assert_eq!(rooms.members("roomY"), vec![id(9)]);
}

#[test]
fn joining_twice_changes_nothing() {
    let mut rooms = RoomDirectory::new();
    rooms.join("roomX", id(1));
    rooms.join("roomX", id(2));
    let once = rooms.members("roomX");
    rooms.join("roomX", id(1));
    assert_eq!(rooms.members("roomX"), once);
    assert_eq!(rooms.members("roomX"), vec![id(1), id(2)]);
}

#[test]
fn room_names_are_told_apart_exactly() {
    let mut rooms = RoomDirectory::new();
    rooms.join("room", id(1));
    rooms.join("Room", id(2));
    rooms.join("", id(3));
    rooms.join("room ", id(4));
    assert_eq!(rooms.members("room"), vec![id(1)]);
    assert_eq!(rooms.members("Room"), vec![id(2)]);
    assert_eq!(rooms.members(""), vec![id(3)]);
    assert_eq!(rooms.members("room "), vec![id(4)]);
}

#[test]
fn removing_a_member_leaves_every_room_but_keeps_the_rooms() {
    let mut rooms = RoomDirectory::new();
    rooms.join("roomX", id(1));
    rooms.join("roomX", id(2));
    rooms.join("roomY", id(2));
    rooms.join("roomZ", id(3));
    rooms.remove_member(id(2));
    assert_eq!(rooms.members("roomX"), vec![id(1)]);
    assert_eq!(rooms.members("roomY"), vec![]);
    assert_eq!(rooms.members("roomZ"), vec![id(3)]);
    assert!(rooms.has_room("roomY"));
    rooms.remove_member(id(2));
    assert_eq!(rooms.members("roomX"), vec![id(1)]);
}

#[test]
fn registry_holds_labels_once() {
    let mut registry = DataChannelRegistry::new();
    assert_eq!(registry.len(), 0);
    assert!(!registry.contains("lobby"));
    registry.register("lobby");
    registry.register("roomX");
    registry.register("lobby");
    assert_eq!(registry.len(), 2);
    assert!(registry.contains("lobby"));
    assert!(registry.contains("roomX"));
    assert!(!registry.contains("roomY"));
}

#[test]
fn registry_removes_and_clears() {
    let mut registry = DataChannelRegistry::new();
    registry.register("lobby");
    registry.register("roomX");
    registry.register("roomY");
    registry.remove("roomX");
    registry.remove("nowhere");
    assert_eq!(registry.len(), 2);
    assert!(registry.contains("lobby"));
    assert!(!registry.contains("roomX"));
    assert!(registry.contains("roomY"));
    registry.clear();
    assert_eq!(registry.len(), 0);
    assert!(!registry.contains("lobby"));
}

#[test]
fn session_table_keeps_a_registry_for_each_session() {
    let mut table = SessionTable::new();
    assert!(!table.contains(id(1)));
    table.insert(id(1));
    table.insert(id(2));
    table.register_channel(id(1), "lobby");
    table.register_channel(id(2), "roomX");
    table.register_channel(id(3), "roomX");
    assert!(table.contains(id(1)));
    assert!(table.contains(id(2)));
    assert!(!table.contains(id(3)));
    assert!(table.has_channel(id(1), "lobby"));
    assert!(!table.has_channel(id(1), "roomX"));
    assert!(table.has_channel(id(2), "roomX"));
    assert!(!table.has_channel(id(3), "roomX"));
}

#[test]
fn session_table_removes_channels_and_sessions() {
    let mut table = SessionTable::new();
    table.insert(id(1));
    table.insert(id(2));
    table.insert(id(3));
    table.register_channel(id(1), "lobby");
    table.register_channel(id(2), "lobby");
    table.register_channel(id(3), "lobby");
    table.remove_channel(id(2), "lobby");
    table.remove_channel(id(2), "lobby");
    table.remove_channel(id(9), "lobby");
    assert!(table.has_channel(id(1), "lobby"));
    assert!(!table.has_channel(id(2), "lobby"));
    assert!(table.contains(id(2)));
    table.remove(id(1));
    table.remove(id(1));
    assert!(!table.contains(id(1)));
    assert!(!table.has_channel(id(1), "lobby"));
    assert!(table.has_channel(id(3), "lobby"));
}

#[test]
fn inserting_a_live_session_again_starts_it_over() {
    let mut table = SessionTable::new();
    table.insert(id(1));
    table.register_channel(id(1), "lobby");
    table.insert(id(1));
    assert!(table.contains(id(1)));
    assert!(!table.has_channel(id(1), "lobby"));
}
