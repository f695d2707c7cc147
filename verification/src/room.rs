//! A hosted room: its code and password, and the devices that have joined it.
use crate::crypto::{
    derive_key, draw_below, generate_secure_token, is_drawn, is_drawn_below, key_is_bound_to_token,
    key_of, sha256, KEY_SIZE,
};
use crate::encoding::hex_text;
use crate::messages::text_option;
use crate::text::{chars_of, insert_ascending, is_ascending, text_views};
use vstd::hash_map::StringHashMap;
use vstd::prelude::*;
use vstd::utf8::{decode_utf8, encode_utf8, valid_utf8};

verus! {

// ------------------------------------------------------------------- room code
/// The length of a room code.
pub const ROOM_CODE_LEN: usize = 6;

/// The characters of room codes: capital letters and digits, without those that
/// are easily taken for one another.
pub open spec fn room_code_chars() -> Seq<char> {
    "ABCDEFGHJKLMNPQRSTUVWXYZ23456789"@
}

/// Whether `code` has the form of a generated room code.
pub open spec fn is_room_code(code: Seq<char>) -> bool {
    &&& code.len() == ROOM_CODE_LEN
    &&& forall|i: int| 0 <= i < code.len() ==> room_code_chars().contains(#[trigger] code[i])
}

/// The room code that picks these characters.
pub fn room_code_of(picks: &Vec<usize>) -> (r: String)
    requires
        forall|i: int| 0 <= i < picks@.len() ==> #[trigger] picks@[i] < room_code_chars().len(),
    ensures
        r@ == picks@.map_values(|p: usize| room_code_chars()[p as int]),
{
    let chars: Vec<char> = chars_of("ABCDEFGHJKLMNPQRSTUVWXYZ23456789");
    let mut code = String::new();
    let mut i: usize = 0;
    while i < picks.len()
        invariant
            i <= picks@.len(),
            chars@ == room_code_chars(),
            forall|j: int| 0 <= j < picks@.len() ==> #[trigger] picks@[j] < room_code_chars().len(),
            code@ == picks@.take(i as int).map_values(|p: usize| room_code_chars()[p as int]),
        decreases picks@.len() - i,
    {
        code.push(chars[picks[i]]);
        i = i + 1;
        assert(picks@.take(i as int) == picks@.take(i - 1).push(picks@[i - 1]));
        assert(code@ == picks@.take(i as int).map_values(
            |p: usize| room_code_chars()[p as int],
        ));
    }
    assert(picks@.take(picks@.len() as int) == picks@);
    code
}

/// Room codes are written with 32 capital letters and digits, each once, and
/// none of I, O, 0 and 1, which are easily taken for one another.
pub proof fn room_code_chars_are_told_apart()
    ensures
        room_code_chars().len() == 32,
        forall|i: int, j: int|
            0 <= i < j < 32 ==> #[trigger] room_code_chars()[i] != #[trigger] room_code_chars()[j],
        forall|i: int|
            0 <= i < 32 ==> {
                let c = #[trigger] room_code_chars()[i];
                &&& 'A' <= c <= 'Z' || '2' <= c <= '9'
                &&& c != 'I' && c != 'O'
            },
{
    reveal_strlit("ABCDEFGHJKLMNPQRSTUVWXYZ23456789");
}

/// Whether `c` is a character of room codes whose place the generator has given.
pub open spec fn is_drawn_char(c: char) -> bool {
    exists|n: usize| #[trigger] is_drawn_below(32, n) && c == room_code_chars()[n as int]
}

/// A random room code: six characters that are drawn from those of room codes.
pub fn generate_room_code() -> (r: String)
    ensures
        is_room_code(r@),
        r@.len() == 6,
        forall|i: int| 0 <= i < 6 ==> is_drawn_char(#[trigger] r@[i]),
{
    let mut picks: Vec<usize> = Vec::new();
    proof {
        reveal_strlit("ABCDEFGHJKLMNPQRSTUVWXYZ23456789");
    }
    while picks.len() < ROOM_CODE_LEN
        invariant
            picks@.len() <= ROOM_CODE_LEN,
            room_code_chars().len() == 32,
            forall|i: int| 0 <= i < picks@.len() ==> #[trigger] picks@[i] < 32,
            forall|i: int| 0 <= i < picks@.len() ==> is_drawn_below(32, #[trigger] picks@[i]),
        decreases ROOM_CODE_LEN - picks@.len(),
    {
        picks.push(draw_below(32));
    }
    let code: String = room_code_of(&picks);
    assert forall|i: int| 0 <= i < 6 implies is_drawn_char(#[trigger] code@[i]) by {
        assert(is_drawn_below(32, picks@[i]));
        assert(code@[i] == room_code_chars()[picks@[i] as int]);
    }
    assert forall|i: int| 0 <= i < code@.len() implies room_code_chars().contains(
        #[trigger] code@[i],
    ) by {
        assert(code@[i] == room_code_chars()[picks@[i] as int]);
    }
    code
}

// ------------------------------------------------------------------------ room
/// A hosted room.
pub struct RoomState {
    /// The code that identifies it.
    pub room_code: String,
    /// What must be given to join it; empty where nothing need be.
    pub password: String,
    /// The tokens of the devices that have joined, in order.
    pub tokens: Vec<String>,
    /// The names of those devices by their tokens.
    pub device_names: StringHashMap<String>,
    /// The name of the hosting device.
    pub creator_device_name: String,
}

/// A room as a mathematical value.
pub struct RoomView {
    pub room_code: Seq<char>,
    pub password: Seq<char>,
    pub tokens: Seq<Seq<char>>,
    pub device_names: Map<Seq<char>, Seq<char>>,
    pub creator_device_name: Seq<char>,
}

impl View for RoomState {
    type V = RoomView;

    open spec fn view(&self) -> RoomView {
        RoomView {
            room_code: self.room_code@,
            password: self.password@,
            tokens: text_views(self.tokens@),
            device_names: self.device_names@.map_values(|n: String| n@),
            creator_device_name: self.creator_device_name@,
        }
    }
}

impl RoomView {
    /// Every device that has joined has a name.
    pub open spec fn wf(self) -> bool {
        forall|i: int|
            0 <= i < self.tokens.len() ==> self.device_names.contains_key(#[trigger] self.tokens[i])
    }

    /// The room once a device has joined it.
    pub open spec fn with_device(self, token: Seq<char>, name: Seq<char>) -> RoomView {
        RoomView {
            tokens: self.tokens.push(token),
            device_names: self.device_names.insert(token, name),
            ..self
        }
    }

    /// Whether a device with this name is in the room.
    pub open spec fn is_connected(self, name: Seq<char>) -> bool {
        ||| name == self.creator_device_name
        ||| exists|i: int|
            0 <= i < self.tokens.len() && self.device_names.contains_key(#[trigger] self.tokens[i])
                && self.device_names[self.tokens[i]] == name
    }

    /// Whether `token` admits to the room.
    pub open spec fn admits(self, token: Option<Seq<char>>) -> bool {
        token matches Some(t) && self.tokens.contains(t)
    }

    /// Whether `password` opens the room.
    pub open spec fn opens_with(self, password: Seq<char>) -> bool {
        self.password.len() == 0 || self.password == password
    }

    /// The key that the files of the room are encrypted under.
    pub open spec fn key(self) -> Seq<u8> {
        key_of(self.room_code)
    }
}

impl RoomState {
    /// An empty room without a password.
    pub fn new(room_code: String, creator_device_name: String) -> (r: Self)
        ensures
            r@ == (RoomView {
                room_code: room_code@,
                password: Seq::empty(),
                tokens: Seq::empty(),
                device_names: Map::empty(),
                creator_device_name: creator_device_name@,
            }),
            r.room_code == room_code,
            r.password@ == Seq::<char>::empty(),
            r.tokens@.len() == 0,
            r.device_names@ == Map::<Seq<char>, String>::empty(),
            r.creator_device_name == creator_device_name,
            r@.wf(),
    {
        let r = RoomState {
            room_code,
            password: String::new(),
            tokens: Vec::new(),
            device_names: StringHashMap::new(),
            creator_device_name,
        };
        assert(r@.tokens == Seq::<Seq<char>>::empty());
        assert(r@.device_names == Map::<Seq<char>, Seq<char>>::empty());
        r
    }
}

// --------------------------------------------------------------------- request
/// What a device can say in the query of a request.
#[derive(Debug)]
pub struct ApiQuery {
    /// The token it was given when it joined.
    pub token: Option<String>,
    /// The name of the file it sends.
    pub name: Option<String>,
    /// The media type of the file it sends.
    pub mime: Option<String>,
    /// Its own name.
    pub device: Option<String>,
    /// The password of the room.
    pub password: Option<String>,
}

/// A query as a mathematical value.
pub struct QueryView {
    pub token: Option<Seq<char>>,
    pub name: Option<Seq<char>>,
    pub mime: Option<Seq<char>>,
    pub device: Option<Seq<char>>,
    pub password: Option<Seq<char>>,
}

impl View for ApiQuery {
    type V = QueryView;

    open spec fn view(&self) -> QueryView {
        QueryView {
            token: text_option(self.token),
            name: text_option(self.name),
            mime: text_option(self.mime),
            device: text_option(self.device),
            password: text_option(self.password),
        }
    }
}

/// The given text, or another where none was given.
pub open spec fn given_or(t: Option<Seq<char>>, other: Seq<char>) -> Seq<char> {
    match t {
        Some(s) => s,
        None => other,
    }
}

/// The given text, or another where none was given.
pub fn text_or(t: &Option<String>, other: &str) -> (r: String)
    ensures
        r@ == given_or(text_option(*t), other@),
        *t matches Some(s) ==> r@ == s@,
        *t is None ==> r@ == other@,
{
    match t {
        Some(s) => s.clone(),
        None => other.to_owned(),
    }
}

/// Whether a request may use the room.
pub fn is_authorized(query: &ApiQuery, room: &RoomState) -> (r: bool)
    ensures
        r == room@.admits(query@.token),
        r <==> (query.token matches Some(token) && exists|i: int|
            0 <= i < room.tokens@.len() && (#[trigger] room.tokens@[i])@ == token@),
{
    match &query.token {
        Some(token) => {
            let mut i: usize = 0;
            while i < room.tokens.len()
                invariant
                    i <= room.tokens@.len(),
                    query.token == Some(*token),
                    forall|j: int| 0 <= j < i ==> #[trigger] room@.tokens[j] != token@,
                    forall|j: int| 0 <= j < i ==> (#[trigger] room.tokens@[j])@ != token@,
                decreases room.tokens@.len() - i,
            {
                if room.tokens[i] == *token {
                    assert(room@.tokens[i as int] == token@);
                    return true;
                }
                i = i + 1;
            }
            false
        },
        None => false,
    }
}

/// Admits a device to the room under `token`.
pub fn register_device_with_token(room: &mut RoomState, device_name: String, token: String)
    ensures
        final(room)@ == old(room)@.with_device(token@, device_name@),
        final(room)@.admits(Some(token@)),
        final(room).tokens@ == old(room).tokens@.push(token),
        final(room).device_names@ == old(room).device_names@.insert(token@, device_name),
        final(room).room_code == old(room).room_code,
        final(room).password == old(room).password,
        final(room).creator_device_name == old(room).creator_device_name,
        old(room)@.wf() ==> final(room)@.wf(),
{
    room.tokens.push(token.clone());
    room.device_names.insert(token, device_name);
    proof {
        assert(room@.tokens == old(room)@.tokens.push(token@));
        assert(room@.device_names == old(room)@.device_names.insert(token@, device_name@));
        joined_device_is_admitted(old(room)@, token@, device_name@);
        if old(room)@.wf() {
            joining_keeps_wf(old(room)@, token@, device_name@);
        }
    }
}

/// Admits a device to the room under a random token, which is returned.
pub fn register_device(room: &mut RoomState, device_name: String) -> (r: String)
    ensures
        exists|bytes: Seq<u8>|
            bytes.len() == 32 && is_drawn(bytes) && r@ == #[trigger] hex_text(bytes),
        final(room)@ == old(room)@.with_device(r@, device_name@),
        final(room)@.admits(Some(r@)),
        final(room).tokens@ == old(room).tokens@.push(r),
        final(room).device_names@ == old(room).device_names@.insert(r@, device_name),
        final(room).room_code == old(room).room_code,
        final(room).password == old(room).password,
        final(room).creator_device_name == old(room).creator_device_name,
        old(room)@.wf() ==> final(room)@.wf(),
{
    let token: String = generate_secure_token();
    register_device_with_token(room, device_name, token.clone());
    token
}

/// The names of the devices in the room, in order, each once.
pub fn connected_device_names(room: &RoomState) -> (r: Vec<String>)
    ensures
        is_ascending(text_views(r@)),
        forall|name: Seq<char>| #[trigger]
            text_views(r@).contains(name) <==> room@.is_connected(name),
        forall|name: Seq<char>| #[trigger]
            text_views(r@).contains(name) <==> {
                ||| name == room.creator_device_name@
                ||| exists|i: int|
                    0 <= i < room.tokens@.len() && room.device_names@.contains_key(
                        (#[trigger] room.tokens@[i])@,
                    ) && room.device_names@[room.tokens@[i]@]@ == name
            },
{
    let mut names: Vec<String> = Vec::new();
    assert(is_ascending(text_views(names@)));
    insert_ascending(&mut names, room.creator_device_name.clone());
    let mut i: usize = 0;
    while i < room.tokens.len()
        invariant
            i <= room.tokens@.len(),
            is_ascending(text_views(names@)),
            forall|name: Seq<char>| #[trigger]
                text_views(names@).contains(name) <==> (name == room@.creator_device_name || exists|
                    j: int,
                |
                    0 <= j < i && room@.device_names.contains_key(#[trigger] room@.tokens[j])
                        && room@.device_names[room@.tokens[j]] == name),
        decreases room.tokens@.len() - i,
    {
        let ghost before = text_views(names@);
        assert(room@.tokens[i as int] == room.tokens@[i as int]@);
        if let Some(name) = room.device_names.get(room.tokens[i].as_str()) {
            insert_ascending(&mut names, name.clone());
        }
        i = i + 1;
    }
    assert forall|name: Seq<char>| #[trigger] text_views(names@).contains(name) <==> {
        ||| name == room.creator_device_name@
        ||| exists|k: int|
            0 <= k < room.tokens@.len() && room.device_names@.contains_key(
                (#[trigger] room.tokens@[k])@,
            ) && room.device_names@[room.tokens@[k]@]@ == name
    } by {
        assert(text_views(names@).contains(name) <==> room@.is_connected(name));
        assert(forall|k: int|
            0 <= k < room.tokens@.len() ==> #[trigger] room@.tokens[k] == room.tokens@[k]@);
        assert(forall|k: int|
            0 <= k < room.tokens@.len() ==> (#[trigger] room.tokens@[k])@ == room@.tokens[k]);
    }
    names
}

/// The key that the files of the room are encrypted under.
pub fn get_encryption_key(room: &RoomState) -> (r: [u8; KEY_SIZE])
    ensures
        r@ == room@.key(),
        r@ == sha256(encode_utf8(room.room_code@)),
{
    derive_key(room.room_code.as_str())
}

/// A room with a password opens with that password and with no other; one without
/// opens with any.
pub proof fn password_opens_the_room(room: RoomView, password: Seq<char>)
    ensures
        room.opens_with(room.password),
        room.password.len() > 0 && password != room.password ==> !room.opens_with(password),
        room.password.len() == 0 ==> room.opens_with(password),
{
}

/// The key of a room is bound to its whole code: it is the hash of bytes from
/// which the code can be read back.
pub proof fn room_key_is_bound_to_code(room: RoomView)
    ensures
        exists|hashed: Seq<u8>|
            valid_utf8(hashed) && decode_utf8(hashed) == room.room_code && room.key()
                == #[trigger] sha256(hashed),
{
    key_is_bound_to_token(room.room_code, room.room_code);
}

/// A text that is given is taken as it is.
pub proof fn given_text_is_taken(text: Seq<char>, other: Seq<char>)
    ensures
        given_or(Some(text), other) == text,
        given_or(None, other) == other,
{
}

/// A device that has joined is admitted from then on.
pub proof fn joined_device_is_admitted(room: RoomView, token: Seq<char>, name: Seq<char>)
    ensures
        room.with_device(token, name).admits(Some(token)),
        room.with_device(token, name).is_connected(name),
{
    let after = room.with_device(token, name);
    assert(after.tokens[room.tokens.len() as int] == token);
}

/// A device that joins changes nothing for the others: who was admitted stays
/// admitted, and nobody else is let in.
pub proof fn joining_admits_nobody_else(
    room: RoomView,
    token: Seq<char>,
    name: Seq<char>,
    other: Seq<char>,
)
    requires
        other != token,
    ensures
        room.with_device(token, name).admits(Some(other)) <==> room.admits(Some(other)),
{
    let after = room.with_device(token, name).tokens;
    if room.tokens.contains(other) {
        let i = choose|i: int| 0 <= i < room.tokens.len() && room.tokens[i] == other;
        assert(after[i] == other);
    }
    if after.contains(other) {
        let i = choose|i: int| 0 <= i < after.len() && after[i] == other;
        assert(room.tokens[i] == other);
    }
}

/// A device that joins leaves every device with a name.
pub proof fn joining_keeps_wf(room: RoomView, token: Seq<char>, name: Seq<char>)
    requires
        room.wf(),
    ensures
        room.with_device(token, name).wf(),
{
}

/// No token is admitted to a room that nobody has joined.
pub proof fn empty_room_admits_nobody(room: RoomView, token: Option<Seq<char>>)
    requires
        room.tokens.len() == 0,
    ensures
        !room.admits(token),
{
}

// ---------------------------------------------------------------- description
/// What a room says of itself to anyone who asks.
#[derive(Debug)]
pub struct RoomInfo {
    /// The code that identifies it.
    pub room_code: String,
    /// The name of the hosting device.
    pub device_name: String,
    /// The names of the devices in it.
    pub devices: Vec<String>,
    /// The port that it is served on.
    pub port: u16,
    /// The address that it is served on.
    pub ip: String,
    /// Whether a password is needed to join it.
    pub has_password: bool,
    /// Whether it is announced on the network.
    pub hosting: bool,
}

/// What the room says of itself.
pub fn room_info(room: &RoomState, port: u16, ip: String, hosting: bool) -> (r: RoomInfo)
    ensures
        r.room_code@ == room@.room_code,
        r.room_code@ == room.room_code@,
        r.device_name@ == room@.creator_device_name,
        r.device_name@ == room.creator_device_name@,
        is_ascending(text_views(r.devices@)),
        forall|name: Seq<char>| #[trigger]
            text_views(r.devices@).contains(name) <==> room@.is_connected(name),
        forall|name: Seq<char>| #[trigger]
            text_views(r.devices@).contains(name) <==> {
                ||| name == room.creator_device_name@
                ||| exists|i: int|
                    0 <= i < room.tokens@.len() && room.device_names@.contains_key(
                        (#[trigger] room.tokens@[i])@,
                    ) && room.device_names@[room.tokens@[i]@]@ == name
            },
        r.port == port,
        r.ip@ == ip@,
        r.has_password == (room@.password.len() > 0),
        r.has_password == (room.password@.len() > 0),
        r.hosting == hosting,
{
    RoomInfo {
        room_code: room.room_code.clone(),
        device_name: room.creator_device_name.clone(),
        devices: connected_device_names(room),
        port,
        ip,
        has_password: !room.password.as_str().is_empty(),
        hosting,
    }
}

} // verus!
