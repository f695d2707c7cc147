use sidewire::discovery::{
    announce, discovered_rooms, hear, hear_text, parse_port, Datagram, UDP_DISCOVERY_PORT,
};

fn datagram(text: &str, ip: &str) -> Datagram {
    Datagram { packet: text.as_bytes().to_vec(), ip: ip.to_string() }
}

#[test]
fn rooms_are_announced_only_while_hosting() {
    assert_eq!(announce(true, "ABC234", 8765).unwrap(), "SIDEWIRE_ROOM:ABC234:8765");
    assert!(announce(false, "ABC234", 8765).is_none());
    assert_eq!(UDP_DISCOVERY_PORT, 42069);
}

#[test]
fn announcement_is_heard_by_others() {
    let text = announce(true, "ABC234", 65535).unwrap();
    assert_eq!(hear(text.as_bytes(), "OWN").unwrap(), ("ABC234".to_string(), 65535));
    assert!(hear(text.as_bytes(), "ABC234").is_none());
}

#[test]
fn code_with_a_colon_is_heard_cut() {
    let text = announce(true, "A:B", 80).unwrap();
    assert_eq!(hear_text(&text, "").unwrap(), ("A".to_string(), 0));
}

#[test]
fn other_datagrams_are_passed_over() {
    for text in ["", "SIDEWIRE_ROOM", "SIDEWIRE_ROOM:", "SIDEWIRE_ROOM:A", "sidewire_room:A:1", "XSIDEWIRE_ROOM:A:1"] {
        assert!(hear_text(text, "OWN").is_none());
    }
    assert_eq!(hear_text("SIDEWIRE_ROOM:A:1:more", "OWN").unwrap(), ("A".to_string(), 1));
    assert_eq!(hear_text("SIDEWIRE_ROOM::", "OWN").unwrap(), (String::new(), 0));
}

#[test]
fn bytes_that_are_not_utf8_are_repaired() {
    let r = hear(b"SIDEWIRE_ROOM:A\xff:7", "OWN").unwrap();
    assert_eq!(r, ("A\u{fffd}".to_string(), 7));
}

#[test]
fn ports_agree_with_std() {
    for text in ["", "0", "80", "+80", "-80", "++1", "+", "-", "007", "65535", "65536", "99999999999", "8a", " 8", "8 ", "8", "+65535", "٣"] {
        assert_eq!(parse_port(text), text.parse::<u16>().unwrap_or(0), "{}", text);
    }
}

#[test]
fn rooms_are_listed_by_code_and_once() {
    let datagrams = vec![
        datagram("SIDEWIRE_ROOM:ZZZ:1", "10.0.0.1"),
        datagram("SIDEWIRE_ROOM:AAA:2", "10.0.0.2"),
        datagram("noise", "10.0.0.3"),
        datagram("SIDEWIRE_ROOM:ZZZ:3", "10.0.0.4"),
        datagram("SIDEWIRE_ROOM:OWN:4", "10.0.0.5"),
        datagram("SIDEWIRE_ROOM:MMM:x", "10.0.0.6"),
    ];
    let rooms = discovered_rooms(&datagrams, "OWN");
    let found: Vec<(&str, &str, u16)> =
        rooms.iter().map(|r| (r.room_code.as_str(), r.ip.as_str(), r.port)).collect();
    assert_eq!(
        found,
        [("AAA", "10.0.0.2", 2), ("MMM", "10.0.0.6", 0), ("ZZZ", "10.0.0.1", 1)]
    );
    assert!(discovered_rooms(&vec![], "OWN").is_empty());
}
