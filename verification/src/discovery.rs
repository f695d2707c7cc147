//! Finding rooms on the local network: while a room is hosted it is announced by
//! datagrams, and a device that looks for rooms listens to these.
use crate::encoding::{lossy_text, text_lossy, utf8_repaired, utf8_round_trip};
use crate::messages::text_option;
use crate::room::{is_room_code, room_code_chars};
use crate::text::{
    ascending_order_is_unique, chars_of, decimal, decimal_is_digits, decimal_round_trip, decimal_text,
    decimal_value, is_ascending, is_before, join, split, split_at_separator, split_on, starts_with, text_before,
    text_order_is_irreflexive, text_order_is_total, text_order_is_transitive, text_views, unsplit,
};
use vstd::prelude::*;
use vstd::utf8::{encode_utf8, valid_utf8};

verus! {

/// The port that rooms are announced on.
pub const UDP_DISCOVERY_PORT: u16 = 42069;

// ----------------------------------------------------------------- announcing
/// The datagram that announces a room.
pub open spec fn announcement(room_code: Seq<char>, port: u16) -> Seq<char> {
    ("SIDEWIRE_ROOM:"@ + room_code).push(':') + decimal(port as nat)
}

/// The datagram that is sent for a room: its announcement, while it is hosted.
pub open spec fn announced(hosting: bool, room_code: Seq<char>, port: u16) -> Option<Seq<char>> {
    if hosting {
        Some(announcement(room_code, port))
    } else {
        None
    }
}

/// The datagram that announces a room. A room is announced only while it is
/// hosted.
pub fn announce(hosting: bool, room_code: &str, port: u16) -> (r: Option<String>)
    ensures
        text_option(r) == announced(hosting, room_code@, port),
        r is Some <==> hosting,
        r matches Some(text) ==> text@ == ("SIDEWIRE_ROOM:"@ + room_code@).push(':') + decimal(
            port as nat,
        ),
{
    if !hosting {
        return None;
    }
    let mut head: String = join("SIDEWIRE_ROOM:", room_code);
    head.push(':');
    let digits: String = decimal_text(port as u64);
    Some(join(head.as_str(), digits.as_str()))
}

// ------------------------------------------------------------------ listening
/// What is left of a number when the plus sign before it is taken off.
pub open spec fn without_sign(text: Seq<char>) -> Seq<char> {
    if text.len() > 0 && text[0] == '+' {
        text.drop_first()
    } else {
        text
    }
}

/// Whether `text` is written with decimal digits.
pub open spec fn is_digits(text: Seq<char>) -> bool {
    &&& text.len() > 0
    &&& forall|i: int| 0 <= i < text.len() ==> '0' <= #[trigger] text[i] <= '9'
}

/// The port that `text` names: digits, perhaps behind a plus sign, for a number
/// that fits. Anything else counts as port 0.
pub open spec fn port_of(text: Seq<char>) -> u16 {
    let digits = without_sign(text);
    if is_digits(digits) && decimal_value(digits) <= 65535 {
        decimal_value(digits) as u16
    } else {
        0
    }
}

/// The port that `text` names.
pub fn parse_port(text: &str) -> (r: u16)
    ensures
        r == port_of(text@),
{
    let chars: Vec<char> = chars_of(text);
    let mut from: usize = 0;
    if chars.len() > 0 && chars[0] == '+' {
        from = 1;
    }
    let ghost digits = chars@.skip(from as int);
    assert(digits == without_sign(text@));
    let mut value: u32 = 0;
    let mut i: usize = from;
    assert(digits.take(0) == Seq::<char>::empty());
    while i < chars.len()
        invariant
            from <= i <= chars@.len(),
            digits == chars@.skip(from as int),
            digits == without_sign(text@),
            forall|j: int| 0 <= j < i - from ==> '0' <= #[trigger] digits[j] <= '9',
            value <= 65536,
            value <= 65535 ==> value == decimal_value(digits.take(i - from)),
            value == 65536 ==> decimal_value(digits.take(i - from)) > 65535,
        decreases chars@.len() - i,
    {
        let c: char = chars[i];
        assert(c == digits[i - from]);
        if c < '0' || c > '9' {
            return 0;
        }
        assert(digits.take(i + 1 - from).drop_last() == digits.take(i - from));
        let d: u32 = c as u32 - '0' as u32;
        if value <= 65535 {
            value = 10 * value + d;
            if value > 65535 {
                value = 65536;
            }
        }
        i = i + 1;
    }
    assert(digits.take(digits.len() as int) == digits);
    if i == from || value > 65535 {
        0
    } else {
        value as u16
    }
}

/// The room that the text of a datagram announces to a device, by its code and
/// its port: any but the device's own.
pub open spec fn heard_text(message: Seq<char>, own_code: Seq<char>) -> Option<(Seq<char>, u16)> {
    let parts = split_on(message, ':');
    if "SIDEWIRE_ROOM:"@.is_prefix_of(message) && parts.len() >= 3 && parts[1] != own_code {
        Some((parts[1], port_of(parts[2])))
    } else {
        None
    }
}

/// The room that a datagram announces to a device.
pub open spec fn heard(packet: Seq<u8>, own_code: Seq<char>) -> Option<(Seq<char>, u16)> {
    heard_text(lossy_text(packet), own_code)
}

/// The view of a code and a port.
pub open spec fn heard_view(r: Option<(String, u16)>) -> Option<(Seq<char>, u16)> {
    match r {
        Some((code, port)) => Some((code@, port)),
        None => None,
    }
}

/// The room that the text of a datagram announces to a device.
pub fn hear_text(message: &str, own_code: &str) -> (r: Option<(String, u16)>)
    ensures
        heard_view(r) == heard_text(message@, own_code@),
{
    let chars: Vec<char> = chars_of(message);
    if !starts_with(&chars, "SIDEWIRE_ROOM:") {
        return None;
    }
    let parts: Vec<String> = split(&chars, ':');
    let ghost views = split_on(message@, ':');
    assert(views == text_views(parts@));
    if parts.len() < 3 {
        return None;
    }
    assert(views[1] == parts@[1]@);
    assert(views[2] == parts@[2]@);
    let own: String = own_code.to_owned();
    if parts[1] == own {
        return None;
    }
    Some((parts[1].clone(), parse_port(parts[2].as_str())))
}

/// The room that a datagram announces to a device.
pub fn hear(packet: &[u8], own_code: &str) -> (r: Option<(String, u16)>)
    ensures
        heard_view(r) == heard(packet@, own_code@),
{
    let message: String = text_lossy(packet);
    hear_text(message.as_str(), own_code)
}

// --------------------------------------------------------------------- results
/// A datagram that was received.
#[derive(Debug)]
pub struct Datagram {
    /// What it holds.
    pub packet: Vec<u8>,
    /// The address that it came from.
    pub ip: String,
}

/// A room that was found.
#[derive(Debug)]
pub struct DiscoveredRoom {
    /// The code that identifies it.
    pub room_code: String,
    /// The address that it is served on.
    pub ip: String,
    /// The port that it is served on.
    pub port: u16,
}

/// The codes of some rooms.
pub open spec fn room_codes(rooms: Seq<DiscoveredRoom>) -> Seq<Seq<char>> {
    rooms.map_values(|r: DiscoveredRoom| r.room_code@)
}

/// Whether `datagrams[i]` announces the room with this code.
pub open spec fn announces(
    datagrams: Seq<Datagram>,
    own_code: Seq<char>,
    i: int,
    code: Seq<char>,
) -> bool {
    heard(datagrams[i].packet@, own_code) matches Some((c, _)) && c == code
}

/// Whether `datagrams[i]` is the first to announce the room with this code.
pub open spec fn announces_first(
    datagrams: Seq<Datagram>,
    own_code: Seq<char>,
    i: int,
    code: Seq<char>,
) -> bool {
    &&& announces(datagrams, own_code, i, code)
    &&& forall|j: int| 0 <= j < i ==> !#[trigger] announces(datagrams, own_code, j, code)
}

/// Whether a room is as `datagram` announces it.
pub open spec fn is_as_announced(
    room: DiscoveredRoom,
    datagram: Datagram,
    own_code: Seq<char>,
) -> bool {
    &&& heard(datagram.packet@, own_code) == Some((room.room_code@, room.port))
    &&& room.ip@ == datagram.ip@
}

/// Whether a room is as it was first announced, within the first `n` datagrams.
pub open spec fn is_first_heard(
    room: DiscoveredRoom,
    datagrams: Seq<Datagram>,
    own_code: Seq<char>,
    n: int,
) -> bool {
    exists|i: int|
        0 <= i < n && #[trigger] announces_first(datagrams, own_code, i, room.room_code@)
            && is_as_announced(room, datagrams[i], own_code)
}

/// Puts a room in its place among rooms in the order of their codes, unless
/// there is one with its code.
fn insert_room(rooms: &mut Vec<DiscoveredRoom>, room: DiscoveredRoom)
    requires
        is_ascending(room_codes(old(rooms)@)),
    ensures
        is_ascending(room_codes(final(rooms)@)),
        room_codes(old(rooms)@).contains(room.room_code@) ==> final(rooms)@ == old(rooms)@,
        !room_codes(old(rooms)@).contains(room.room_code@) ==> exists|at: int|
            0 <= at <= old(rooms)@.len() && final(rooms)@ == #[trigger] old(rooms)@.insert(at, room),
{
    let ghost before = room_codes(rooms@);
    let ghost code = room.room_code@;
    let mut i: usize = 0;
    while i < rooms.len() && is_before(rooms[i].room_code.as_str(), room.room_code.as_str())
        invariant
            rooms@ == old(rooms)@,
            before == room_codes(rooms@),
            code == room.room_code@,
            i <= rooms@.len(),
            forall|j: int| 0 <= j < i ==> text_before(#[trigger] before[j], code),
        decreases rooms@.len() - i,
    {
        i = i + 1;
    }
    if i < rooms.len() && rooms[i].room_code == room.room_code {
        assert(before[i as int] == code);
        return;
    }
    proof {
        if i < before.len() {
            text_order_is_total(before[i as int], code);
        }
        assert forall|j: int| i <= j < before.len() implies text_before(
            code,
            #[trigger] before[j],
        ) by {
            if j > i {
                text_order_is_transitive(code, before[i as int], before[j]);
            }
        }
        if before.contains(code) {
            let k = choose|k: int| 0 <= k < before.len() && before[k] == code;
            text_order_is_irreflexive(code);
            assert(false);
        }
    }
    rooms.insert(i, room);
    proof {
        let after = room_codes(rooms@);
        assert(after =~= before.insert(i as int, code));
        assert(rooms@ == old(rooms)@.insert(i as int, room));
    }
}

/// The rooms that were heard of, in the order of their codes, each once and as
/// it was first announced. The device's own room is not among them.
pub fn discovered_rooms(datagrams: &Vec<Datagram>, own_code: &str) -> (r: Vec<DiscoveredRoom>)
    ensures
        is_ascending(room_codes(r@)),
        forall|code: Seq<char>| #[trigger]
            room_codes(r@).contains(code) <==> exists|i: int|
                0 <= i < datagrams@.len() && #[trigger] announces(datagrams@, own_code@, i, code),
        !room_codes(r@).contains(own_code@),
        forall|k: int|
            0 <= k < r@.len() ==> is_first_heard(
                #[trigger] r@[k],
                datagrams@,
                own_code@,
                datagrams@.len() as int,
            ),
        forall|k: int, l: int|
            0 <= k < l < r@.len() ==> text_before(
                (#[trigger] r@[k]).room_code@,
                (#[trigger] r@[l]).room_code@,
            ),
        forall|i: int|
            0 <= i < datagrams@.len() ==> (#[trigger] heard(
                datagrams@[i].packet@,
                own_code@,
            ) matches Some((c, _)) ==> room_codes(r@).contains(c)),
{
    let mut rooms: Vec<DiscoveredRoom> = Vec::new();
    let mut n: usize = 0;
    let ghost ds = datagrams@;
    let ghost own = own_code@;
    while n < datagrams.len()
        invariant
            n <= datagrams@.len(),
            ds == datagrams@,
            own == own_code@,
            is_ascending(room_codes(rooms@)),
            forall|code: Seq<char>| #[trigger]
                room_codes(rooms@).contains(code) <==> exists|i: int|
                    0 <= i < n && #[trigger] announces(ds, own, i, code),
            forall|k: int|
                0 <= k < rooms@.len() ==> is_first_heard(#[trigger] rooms@[k], ds, own, n as int),
        decreases datagrams@.len() - n,
    {
        let ghost before = rooms@;
        let ghost codes = room_codes(rooms@);
        match hear(datagrams[n].packet.as_slice(), own_code) {
            Some((room_code, port)) => {
                let ghost code = room_code@;
                assert(announces(ds, own, n as int, code));
                let ip: String = datagrams[n].ip.clone();
                let room = DiscoveredRoom { room_code, ip, port };
                insert_room(&mut rooms, room);
                proof {
                    if !codes.contains(code) {
                        let at = choose|at: int|
                            0 <= at <= before.len() && rooms@ == #[trigger] before.insert(at, room);
                        lemma_inserted_code(before, at, room);
                        assert(announces_first(ds, own, n as int, code));
                        assert(is_as_announced(room, ds[n as int], own));
                    }
                    assert forall|c: Seq<char>| #[trigger]
                        room_codes(rooms@).contains(c) <==> exists|i: int|
                            0 <= i < n + 1 && #[trigger] announces(ds, own, i, c) by {
                        assert(room_codes(rooms@).contains(c) <==> codes.contains(c) || c == code);
                        if codes.contains(c) {
                            let i = choose|i: int| 0 <= i < n && #[trigger] announces(ds, own, i, c);
                            assert(announces(ds, own, i, c));
                        }
                    }
                    assert forall|k: int| 0 <= k < rooms@.len() implies is_first_heard(
                        #[trigger] rooms@[k],
                        ds,
                        own,
                        n + 1,
                    ) by {
                        if codes.contains(code) {
                            lemma_still_first_heard(before[k], ds, own, n as int);
                        } else {
                            let at = choose|at: int|
                                0 <= at <= before.len() && rooms@ == #[trigger] before.insert(
                                    at,
                                    room,
                                );
                            if k < at {
                                lemma_still_first_heard(before[k], ds, own, n as int);
                            } else if k > at {
                                lemma_still_first_heard(before[k - 1], ds, own, n as int);
                            }
                        }
                    }
                }
            },
            None => {
                assert(forall|c: Seq<char>| !announces(ds, own, n as int, c));
                assert forall|k: int| 0 <= k < rooms@.len() implies is_first_heard(
                    #[trigger] rooms@[k],
                    ds,
                    own,
                    n + 1,
                ) by {
                    lemma_still_first_heard(rooms@[k], ds, own, n as int);
                }
            },
        }
        n = n + 1;
    }
    proof {
        let codes = room_codes(rooms@);
        assert forall|k: int, l: int| 0 <= k < l < rooms@.len() implies text_before(
            (#[trigger] rooms@[k]).room_code@,
            (#[trigger] rooms@[l]).room_code@,
        ) by {
            assert(text_before(codes[k], codes[l]));
        }
        assert forall|i: int| 0 <= i < ds.len() implies (#[trigger] heard(
            ds[i].packet@,
            own,
        ) matches Some((c, _)) ==> codes.contains(c)) by {
            if let Some((c, _)) = heard(ds[i].packet@, own) {
                assert(announces(ds, own, i, c));
            }
        }
    }
    rooms
}

proof fn lemma_still_first_heard(
    room: DiscoveredRoom,
    datagrams: Seq<Datagram>,
    own_code: Seq<char>,
    n: int,
)
    requires
        is_first_heard(room, datagrams, own_code, n),
    ensures
        is_first_heard(room, datagrams, own_code, n + 1),
{
    let i = choose|i: int|
        0 <= i < n && #[trigger] announces_first(datagrams, own_code, i, room.room_code@)
            && is_as_announced(room, datagrams[i], own_code);
    assert(announces_first(datagrams, own_code, i, room.room_code@));
}

proof fn lemma_inserted_code(rooms: Seq<DiscoveredRoom>, at: int, room: DiscoveredRoom)
    requires
        0 <= at <= rooms.len(),
    ensures
        forall|c: Seq<char>| #[trigger]
            room_codes(rooms.insert(at, room)).contains(c) <==> room_codes(rooms).contains(c) || c
                == room.room_code@,
{
    let before = room_codes(rooms);
    let after = room_codes(rooms.insert(at, room));
    assert(after =~= before.insert(at, room.room_code@));
    assert forall|c: Seq<char>| #[trigger] after.contains(c) <==> before.contains(c) || c
        == room.room_code@ by {
        if before.contains(c) {
            let k = choose|k: int| 0 <= k < before.len() && before[k] == c;
            assert(after[if k < at {
                k
            } else {
                k + 1
            }] == c);
        }
        if c == room.room_code@ {
            assert(after[at] == c);
        }
        if after.contains(c) {
            let k = choose|k: int| 0 <= k < after.len() && after[k] == c;
            if k < at {
                assert(before[k] == c);
            } else if k > at {
                assert(before[k - 1] == c);
            }
        }
    }
}

// ------------------------------------------------------------------------ laws
/// What one device announces another hears: the same code and port. Its own
/// announcement a device passes over.
pub proof fn announcement_is_heard(room_code: Seq<char>, port: u16, own_code: Seq<char>)
    requires
        !room_code.contains(':'),
    ensures
        heard(encode_utf8(announcement(room_code, port)), own_code) == (if room_code == own_code {
            None
        } else {
            Some((room_code, port))
        }),
{
    let message = announcement(room_code, port);
    let tag = "SIDEWIRE_ROOM"@;
    let digits = decimal(port as nat);
    reveal_strlit("SIDEWIRE_ROOM:");
    reveal_strlit("SIDEWIRE_ROOM");
    utf8_round_trip(message);
    assert("SIDEWIRE_ROOM:"@ == tag.push(':'));
    let rest = room_code.push(':') + digits;
    assert(message == tag.push(':') + rest);
    decimal_is_digits(port as nat);
    decimal_round_trip(port as nat);
    assert(!digits.contains(':'));
    assert(!tag.contains(':'));
    unsplit(tag, ':');
    unsplit(room_code, ':');
    unsplit(digits, ':');
    split_at_separator(room_code, digits, ':');
    split_at_separator(tag, rest, ':');
    assert(split_on(message, ':') == seq![tag, room_code, digits]);
    assert("SIDEWIRE_ROOM:"@.is_prefix_of(message));
}

/// A port in decimal, with or without a plus sign, is understood as that port;
/// a number that is no port is not.
pub proof fn port_in_decimal_is_understood(n: nat)
    ensures
        n <= 65535 ==> port_of(decimal(n)) == n,
        n <= 65535 ==> port_of(seq!['+'] + decimal(n)) == n,
        n > 65535 ==> port_of(decimal(n)) == 0,
        n > 65535 ==> port_of(seq!['+'] + decimal(n)) == 0,
{
    decimal_is_digits(n);
    decimal_round_trip(n);
    let signed = seq!['+'] + decimal(n);
    assert(signed[0] == '+');
    assert(signed.drop_first() =~= decimal(n));
    assert(decimal(n)[0] != '+');
    assert(without_sign(decimal(n)) == decimal(n));
    assert(without_sign(signed) == decimal(n));
}

/// Digits are understood as the number that they write, with or without zeros
/// before it.
pub proof fn digits_are_understood(text: Seq<char>)
    requires
        text.len() > 0,
        forall|i: int| 0 <= i < text.len() ==> '0' <= #[trigger] text[i] <= '9',
    ensures
        port_of(text) == (if decimal_value(text) <= 65535 {
            decimal_value(text) as int
        } else {
            0
        }),
{
    assert(text[0] != '+');
}

/// What is not written with digits alone, but for a plus sign before them, is no
/// port.
pub proof fn other_text_is_no_port(text: Seq<char>, i: int)
    requires
        0 <= i < text.len(),
        !('0' <= text[i] <= '9'),
        i > 0 || text[i] != '+' || text.len() == 1,
    ensures
        port_of(text) == 0,
{
    let digits = without_sign(text);
    if text[0] == '+' {
        if i > 0 {
            assert(digits[i - 1] == text[i]);
        } else {
            assert(digits.len() == 0);
        }
    } else {
        assert(digits[i] == text[i]);
    }
}

/// The code and the port of an announcement are what stands between its first
/// colons. What follows a further colon is passed over, and so is the device's
/// own room.
pub proof fn announcement_is_read_by_its_colons(
    room_code: Seq<char>,
    port: Seq<char>,
    rest: Seq<char>,
    own_code: Seq<char>,
)
    requires
        !room_code.contains(':'),
        !port.contains(':'),
    ensures
        ({
            let short = ("SIDEWIRE_ROOM:"@ + room_code).push(':') + port;
            let read = if room_code == own_code {
                None
            } else {
                Some((room_code, port_of(port)))
            };
            &&& heard_text(short, own_code) == read
            &&& heard_text(short.push(':') + rest, own_code) == read
        }),
{
    let tag = "SIDEWIRE_ROOM"@;
    reveal_strlit("SIDEWIRE_ROOM:");
    reveal_strlit("SIDEWIRE_ROOM");
    assert("SIDEWIRE_ROOM:"@ =~= tag.push(':'));
    let short = ("SIDEWIRE_ROOM:"@ + room_code).push(':') + port;
    let long = short.push(':') + rest;
    assert(!tag.contains(':'));
    unsplit(tag, ':');
    unsplit(room_code, ':');
    unsplit(port, ':');
    let pair = room_code.push(':') + port;
    assert(short =~= tag.push(':') + pair);
    split_at_separator(room_code, port, ':');
    split_at_separator(tag, pair, ':');
    assert(split_on(short, ':') =~= seq![tag, room_code, port]);
    split_at_separator(short, rest, ':');
    let parts = split_on(long, ':');
    assert(parts == split_on(short, ':') + split_on(rest, ':'));
    assert(parts[1] == room_code);
    assert(parts[2] == port);
    assert("SIDEWIRE_ROOM:"@.is_prefix_of(short)) by {
        assert(short.subrange(0, "SIDEWIRE_ROOM:"@.len() as int) =~= "SIDEWIRE_ROOM:"@);
    }
    assert("SIDEWIRE_ROOM:"@.is_prefix_of(long)) by {
        assert(long.subrange(0, "SIDEWIRE_ROOM:"@.len() as int) =~= "SIDEWIRE_ROOM:"@);
    }
}

/// A datagram that does not begin as an announcement does, or that ends before its
/// port, announces nothing.
pub proof fn other_datagrams_announce_nothing(
    message: Seq<char>,
    room_code: Seq<char>,
    own_code: Seq<char>,
)
    requires
        !room_code.contains(':'),
    ensures
        !"SIDEWIRE_ROOM:"@.is_prefix_of(message) ==> heard_text(message, own_code) is None,
        heard_text("SIDEWIRE_ROOM:"@ + room_code, own_code) is None,
{
    let tag = "SIDEWIRE_ROOM"@;
    reveal_strlit("SIDEWIRE_ROOM:");
    reveal_strlit("SIDEWIRE_ROOM");
    assert("SIDEWIRE_ROOM:"@ =~= tag.push(':'));
    assert(!tag.contains(':'));
    unsplit(tag, ':');
    unsplit(room_code, ':');
    split_at_separator(tag, room_code, ':');
    assert("SIDEWIRE_ROOM:"@ + room_code == tag.push(':') + room_code);
}

/// What is heard in a datagram is what the whole of its text says, after repair
/// where it is not UTF-8.
pub proof fn datagram_is_read_as_text(message: Seq<char>, packet: Seq<u8>, own_code: Seq<char>)
    ensures
        heard(encode_utf8(message), own_code) == heard_text(message, own_code),
        !valid_utf8(packet) ==> heard(packet, own_code) == heard_text(
            utf8_repaired(packet),
            own_code,
        ),
{
    utf8_round_trip(message);
}

/// A room that is as it was first announced has the code, the port and the address
/// of a datagram, and no datagram before that one announces a room with its code.
pub proof fn first_announcement_counts(
    room: DiscoveredRoom,
    datagrams: Seq<Datagram>,
    own_code: Seq<char>,
    n: int,
) -> (i: int)
    requires
        is_first_heard(room, datagrams, own_code, n),
    ensures
        0 <= i < n,
        heard(datagrams[i].packet@, own_code) == Some((room.room_code@, room.port)),
        room.ip@ == datagrams[i].ip@,
        forall|j: int|
            0 <= j < i ==> (#[trigger] heard(datagrams[j].packet@, own_code) matches Some((c, _))
                ==> c != room.room_code@),
{
    let i = choose|i: int|
        0 <= i < n && #[trigger] announces_first(datagrams, own_code, i, room.room_code@)
            && is_as_announced(room, datagrams[i], own_code);
    assert forall|j: int| 0 <= j < i implies (#[trigger] heard(
        datagrams[j].packet@,
        own_code,
    ) matches Some((c, _)) ==> c != room.room_code@) by {
        assert(!announces(datagrams, own_code, j, room.room_code@));
    }
    i
}

/// Two lists of rooms that were found in the same datagrams, each in the order
/// of the codes, without gaps and as first announced, say the same.
pub proof fn found_rooms_are_determined(
    a: Seq<DiscoveredRoom>,
    b: Seq<DiscoveredRoom>,
    datagrams: Seq<Datagram>,
    own_code: Seq<char>,
)
    requires
        is_ascending(room_codes(a)),
        is_ascending(room_codes(b)),
        forall|code: Seq<char>| #[trigger]
            room_codes(a).contains(code) <==> room_codes(b).contains(code),
        forall|k: int|
            0 <= k < a.len() ==> is_first_heard(
                #[trigger] a[k],
                datagrams,
                own_code,
                datagrams.len() as int,
            ),
        forall|k: int|
            0 <= k < b.len() ==> is_first_heard(
                #[trigger] b[k],
                datagrams,
                own_code,
                datagrams.len() as int,
            ),
    ensures
        a.len() == b.len(),
        forall|k: int|
            0 <= k < a.len() ==> {
                &&& (#[trigger] a[k]).room_code@ == b[k].room_code@
                &&& a[k].ip@ == b[k].ip@
                &&& a[k].port == b[k].port
            },
{
    ascending_order_is_unique(room_codes(a), room_codes(b));
    assert(room_codes(a).len() == a.len());
    assert(room_codes(b).len() == b.len());
    let n = datagrams.len() as int;
    assert forall|k: int| 0 <= k < a.len() implies {
        &&& (#[trigger] a[k]).room_code@ == b[k].room_code@
        &&& a[k].ip@ == b[k].ip@
        &&& a[k].port == b[k].port
    } by {
        assert(room_codes(a)[k] == room_codes(b)[k]);
        let code = a[k].room_code@;
        assert(b[k].room_code@ == code);
        assert(is_first_heard(b[k], datagrams, own_code, n));
        let i = choose|i: int|
            0 <= i < n && #[trigger] announces_first(datagrams, own_code, i, code)
                && is_as_announced(a[k], datagrams[i], own_code);
        let j = choose|j: int|
            0 <= j < n && #[trigger] announces_first(datagrams, own_code, j, code)
                && is_as_announced(b[k], datagrams[j], own_code);
        assert(announces(datagrams, own_code, i, code));
        assert(announces(datagrams, own_code, j, code));
        assert(i == j);
    }
}

/// The codes that are generated can be announced.
pub proof fn room_code_can_be_announced(room_code: Seq<char>)
    requires
        is_room_code(room_code),
    ensures
        !room_code.contains(':'),
{
    reveal_strlit("ABCDEFGHJKLMNPQRSTUVWXYZ23456789");
    if room_code.contains(':') {
        let i = choose|i: int| 0 <= i < room_code.len() && room_code[i] == ':';
        assert(room_code_chars().contains(room_code[i]));
    }
}

} // verus!
