use sidewire::discovery::announce;
use sidewire::remote::{current_remote_key, RemoteKey};
use sidewire::startup::{
    lan_ports, local_device_name, new_link, new_link_with_code, primary_ipv4, Link,
};

#[test]
fn known_ports_are_tried_first() {
    let ports = lan_ports();
    assert_eq!(ports.len(), 21);
    assert_eq!(ports[0], 8765);
    assert_eq!(ports[19], 8784);
    assert_eq!(ports[20], 0);
}

#[test]
fn device_names_come_from_the_environment() {
    let name = |s: &str| Some(s.to_string());
    assert_eq!(local_device_name(name("PC"), name("host")), "PC");
    assert_eq!(local_device_name(None, name("host")), "host");
    assert_eq!(local_device_name(None, None), "local-device");
    assert_eq!(primary_ipv4(name("10.0.0.9")), "10.0.0.9");
    assert_eq!(primary_ipv4(None), "127.0.0.1");
}

#[test]
fn new_room_says_so() {
    let Link { room, state, .. } = new_link_with_code("ABC234".to_string(), "host".to_string());
    assert_eq!(room.room_code, "ABC234");
    assert_eq!(room.password, "");
    assert!(room.tokens.is_empty());
    assert_eq!(room.creator_device_name, "host");
    assert_eq!(state.messages.len(), 1);
    assert_eq!(state.messages[0].id, "msg-1");
    assert_eq!(state.messages[0].body, "Room ABC234 created. Share the code.");
    let Link { room, state, .. } = new_link("host".to_string());
    assert_eq!(room.room_code.len(), 6);
    assert!(state.messages[0].body.contains(&room.room_code));
}

#[test]
fn new_device_is_silent_and_has_no_key() {
    let link = new_link("host".to_string());
    assert!(!link.hosting);
    assert!(announce(link.hosting, &link.room.room_code, 8765).is_none());
    assert!(link.remote_key.key.is_none());
    assert_eq!(current_remote_key(&RemoteKey::new()).unwrap_err(), "no remote key set");
}
