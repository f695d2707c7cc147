//! What a device starts with: its name, its room and the ports it tries.
use crate::clock::{is_reading, millis_of, SinceEpoch};
use crate::discovery::announced;
use crate::messages::{
    add_system_message, system_message, text_option, FileView, LinkMessage, LinkState, SharedFile,
};
use crate::remote::{carried, RemoteKey};
use crate::room::{
    generate_room_code, given_or, is_drawn_char, is_room_code, text_or, RoomState, RoomView,
};
use crate::text::{decimal, join};
use vstd::prelude::*;

verus! {

/// The first port that a room is served on if it is free.
pub const LAN_PORT_START: u16 = 8765;

/// The last port that a room is served on if it is free.
pub const LAN_PORT_END: u16 = 8784;

/// The ports to try, one after the other: those by which a room can be found
/// without an announcement, then any that is free, which is asked for as port 0.
pub fn lan_ports() -> (r: Vec<u16>)
    ensures
        r@.len() == LAN_PORT_END - LAN_PORT_START + 2,
        r@.len() == 21,
        forall|i: int| 0 <= i < 20 ==> #[trigger] r@[i] == 8765 + i,
        forall|i: int| 0 <= i < r@.len() - 1 ==> #[trigger] r@[i] == LAN_PORT_START + i,
        r@.last() == 0,
{
    let mut ports: Vec<u16> = Vec::new();
    let mut port: u16 = LAN_PORT_START;
    while port <= LAN_PORT_END
        invariant
            LAN_PORT_START <= port <= LAN_PORT_END + 1,
            ports@.len() == port - LAN_PORT_START,
            forall|i: int| 0 <= i < ports@.len() ==> #[trigger] ports@[i] == LAN_PORT_START + i,
        decreases LAN_PORT_END + 1 - port,
    {
        ports.push(port);
        port = port + 1;
    }
    ports.push(0);
    ports
}

/// What a device is called: what the environment calls the computer or else the
/// host, where it does.
pub fn local_device_name(computer_name: Option<String>, host_name: Option<String>) -> (r: String)
    ensures
        r@ == given_or(
            text_option(computer_name),
            given_or(text_option(host_name), "local-device"@),
        ),
        computer_name matches Some(name) ==> r == name,
        computer_name is None ==> (host_name matches Some(name) ==> r@ == name@),
        computer_name is None && host_name is None ==> r@ == "local-device"@,
{
    match computer_name {
        Some(name) => name,
        None => text_or(&host_name, "local-device"),
    }
}

/// The address of the device on its network, or the address by which it reaches
/// itself where it has none.
pub fn primary_ipv4(address: Option<String>) -> (r: String)
    ensures
        r@ == given_or(text_option(address), "127.0.0.1"@),
        address matches Some(ip) ==> r@ == ip@,
        address is None ==> r@ == "127.0.0.1"@,
{
    text_or(&address, "127.0.0.1")
}

/// What a device holds while it runs.
pub struct Link {
    /// The room that it can host.
    pub room: RoomState,
    /// The conversation in that room.
    pub state: LinkState,
    /// The key of the relayed room that it is in, if it is in one.
    pub remote_key: RemoteKey,
    /// Whether it hosts its room, and so announces it.
    pub hosting: bool,
}

impl Link {
    /// Whether this is what a device called `device_name` starts with, under the
    /// code `room_code`: a room without a password that nobody has joined, a
    /// conversation that says so, no relayed room, and no hosting.
    pub open spec fn is_new(self, room_code: Seq<char>, device_name: Seq<char>) -> bool {
        &&& self.room@ == (RoomView {
            room_code,
            password: Seq::empty(),
            tokens: Seq::empty(),
            device_names: Map::empty(),
            creator_device_name: device_name,
        })
        &&& self.state@.next_id == 1
        &&& self.state@.files == Map::<Seq<char>, FileView>::empty()
        &&& self.state@.messages.len() == 1
        &&& exists|created_at: u64|
            self.state@.messages[0] == #[trigger] system_message(
                LinkState::spec_new(),
                "Room "@ + room_code + " created. Share the code."@,
                created_at,
            )
        &&& self.remote_key@ is None
        &&& !self.hosting
    }
}

/// What a device starts with, under a given room code.
pub fn new_link_with_code(room_code: String, device_name: String) -> (r: Link)
    ensures
        r.is_new(room_code@, device_name@),
        r.room.room_code == room_code,
        r.room.password@ == Seq::<char>::empty(),
        r.room.tokens@.len() == 0,
        r.room.device_names@ == Map::<Seq<char>, String>::empty(),
        r.room.creator_device_name == device_name,
        r.state.next_id == 1,
        r.state.files@ == Map::<Seq<char>, SharedFile>::empty(),
        r.state.messages@.len() == 1,
        r.state.messages@[0].id@ == "msg"@.push('-') + decimal(1),
        r.state.messages@[0].sender@ == "system"@,
        r.state.messages@[0].device_name@ == "system"@,
        r.state.messages@[0].kind@ == "system"@,
        r.state.messages@[0].body@ == "Room "@ + room_code@ + " created. Share the code."@,
        r.state.messages@[0].file_name is None && r.state.messages@[0].file_size is None,
        r.state.messages@[0].file_mime is None && r.state.messages@[0].download_url is None,
        exists|reading: Option<SinceEpoch>|
            is_reading(reading) && r.state.messages@[0].created_at == #[trigger] millis_of(reading),
        r.remote_key.key is None,
        !r.hosting,
        r.room@.wf(),
        r.state@.wf(),
{
    let head: String = join("Room ", room_code.as_str());
    let body: String = join(head.as_str(), " created. Share the code.");
    let mut state: LinkState = LinkState::new();
    let message: LinkMessage = add_system_message(&mut state, body);
    let room: RoomState = RoomState::new(room_code, device_name);
    assert(state@.messages[0] == message@);
    Link { room, state, remote_key: RemoteKey::new(), hosting: false }
}

/// What a device starts with, under a random room code.
pub fn new_link(device_name: String) -> (r: Link)
    ensures
        is_room_code(r.room@.room_code),
        r.is_new(r.room@.room_code, device_name@),
        r.room.room_code@.len() == 6,
        forall|i: int| 0 <= i < 6 ==> is_drawn_char(#[trigger] r.room.room_code@[i]),
        r.room.password@ == Seq::<char>::empty(),
        r.room.tokens@.len() == 0,
        r.room.creator_device_name == device_name,
        r.state.messages@.len() == 1,
        r.state.messages@[0].body@ == "Room "@ + r.room.room_code@ + " created. Share the code."@,
        exists|reading: Option<SinceEpoch>|
            is_reading(reading) && r.state.messages@[0].created_at == #[trigger] millis_of(reading),
        r.remote_key.key is None,
        !r.hosting,
        r.room@.wf(),
        r.state@.wf(),
{
    new_link_with_code(generate_room_code(), device_name)
}

/// A device that has just started is not discovered: its room is not announced,
/// whatever the port. Nor does it open what comes through the relay.
pub proof fn new_link_is_silent(
    link: Link,
    room_code: Seq<char>,
    device_name: Seq<char>,
    port: u16,
    payload: Seq<char>,
)
    requires
        link.is_new(room_code, device_name),
    ensures
        announced(link.hosting, link.room@.room_code, port) is None,
        carried(link.remote_key@, payload) == Err::<Seq<u8>, Seq<char>>("no remote key set"@),
{
}

} // verus!
