//! What a hosted room answers to the devices on its network.
use crate::clock::{is_reading, millis_of, SinceEpoch};
use crate::crypto::{is_drawn, sha256, KEY_SIZE};
use crate::encoding::{hex_encode, hex_text};
use crate::messages::{
    add_message, add_system_message, find_file, is_issued, list_messages, message_views, next_plan,
    planned_file, reserve_file, system_message, text_message, FilePlan, LinkMessage, LinkState,
    SharedFile,
};
use crate::naming::{
    chosen_mime, is_stored_char, is_stored_name, mime_of, mime_or_guess, sanitize_file_name, sanitized,
    sanitized_name_is_safe,
};
use crate::room::{
    get_encryption_key, given_or, is_authorized, register_device, text_or, ApiQuery, RoomState,
};
use crate::text::{decimal, join, trim, trim_keeps_the_middle, trimmed};
use vstd::prelude::*;
use vstd::utf8::{encode_scalar, encode_utf8};

verus! {

// -------------------------------------------------------------------- refusals
/// Why a request is refused.
#[derive(Clone, Copy, Debug, PartialEq, Eq, Structural)]
pub enum Refusal {
    /// The password of the room is another one.
    WrongPassword,
    /// The token was not given out by this room, or none was sent.
    InvalidToken,
    /// The message holds nothing but white space.
    EmptyMessage,
    /// No file was recorded under the identifier.
    FileNotFound,
}

impl Refusal {
    /// The status of the answer.
    pub open spec fn spec_status(self) -> u16 {
        match self {
            Refusal::WrongPassword => 401,
            Refusal::InvalidToken => 401,
            Refusal::EmptyMessage => 400,
            Refusal::FileNotFound => 404,
        }
    }

    /// The body of the answer.
    pub open spec fn spec_reason(self) -> Seq<char> {
        match self {
            Refusal::WrongPassword => "wrong password"@,
            Refusal::InvalidToken => "invalid token"@,
            Refusal::EmptyMessage => "empty message"@,
            Refusal::FileNotFound => "file not found"@,
        }
    }

    /// The status of the answer.
    pub fn status(self) -> (r: u16)
        ensures
            r == self.spec_status(),
    {
        match self {
            Refusal::WrongPassword => 401,
            Refusal::InvalidToken => 401,
            Refusal::EmptyMessage => 400,
            Refusal::FileNotFound => 404,
        }
    }

    /// The body of the answer.
    pub fn reason(self) -> (r: String)
        ensures
            r@ == self.spec_reason(),
    {
        match self {
            Refusal::WrongPassword => "wrong password".to_owned(),
            Refusal::InvalidToken => "invalid token".to_owned(),
            Refusal::EmptyMessage => "empty message".to_owned(),
            Refusal::FileNotFound => "file not found".to_owned(),
        }
    }
}

// --------------------------------------------------------------------- joining
/// What a device gets when it joins.
#[derive(Debug)]
pub struct JoinReply {
    /// The token by which it is known from then on.
    pub token: String,
    /// The key of the files of the room, in hexadecimal.
    pub key_hex: String,
    /// The message that announces it.
    pub message: LinkMessage,
}

/// The name of the device that a request comes from.
pub open spec fn device_of(device: Option<Seq<char>>) -> Seq<char> {
    given_or(device, "unknown"@)
}

/// Lets a device join the room, if it knows the password.
pub fn api_join_room(room: &mut RoomState, state: &mut LinkState, query: &ApiQuery) -> (r: Result<
    JoinReply,
    Refusal,
>)
    requires
        old(room)@.opens_with(given_or(query@.password, ""@)) ==> old(state).next_id < u64::MAX,
    ensures
        match r {
            Ok(reply) => {
                let device = device_of(query@.device);
                &&& old(room)@.opens_with(given_or(query@.password, ""@))
                &&& old(room).password@.len() == 0 || (query.password matches Some(p) && p@
                    == old(room).password@)
                &&& exists|bytes: Seq<u8>|
                    bytes.len() == 32 && is_drawn(bytes) && reply.token@ == #[trigger] hex_text(
                        bytes,
                    )
                &&& final(room).tokens@ == old(room).tokens@.push(reply.token)
                &&& final(room).device_names@ == old(room).device_names@.insert(
                    reply.token@,
                    final(room).device_names@[reply.token@],
                )
                &&& final(room).device_names@[reply.token@]@ == (match query.device {
                    Some(name) => name@,
                    None => "unknown"@,
                })
                &&& final(room).room_code == old(room).room_code
                &&& final(room).password == old(room).password
                &&& final(room).creator_device_name == old(room).creator_device_name
                &&& reply.key_hex@ == hex_text(sha256(encode_utf8(old(room).room_code@)))
                &&& reply.message.sender@ == "system"@
                &&& reply.message.device_name@ == "system"@
                &&& reply.message.kind@ == "system"@
                &&& reply.message.body@ == (match query.device {
                    Some(name) => name@,
                    None => "unknown"@,
                }) + " joined the room"@
                &&& exists|reading: Option<SinceEpoch>|
                    is_reading(reading) && reply.message.created_at == #[trigger] millis_of(reading)
                &&& final(state).messages@ == old(state).messages@.push(reply.message)
                &&& final(state).files@ == old(state).files@
                &&& final(state).next_id == old(state).next_id + 1
                &&& final(room)@ == old(room)@.with_device(reply.token@, device)
                &&& final(room)@.admits(Some(reply.token@))
                &&& old(room)@.key().len() == KEY_SIZE
                &&& reply.key_hex@ == hex_text(old(room)@.key())
                &&& reply.message@ == system_message(
                    old(state)@,
                    device + " joined the room"@,
                    reply.message.created_at,
                )
                &&& final(state)@ == old(state)@.with_message(reply.message@)
            },
            Err(e) => {
                &&& !old(room)@.opens_with(given_or(query@.password, ""@))
                &&& old(room).password@.len() > 0
                &&& query.password matches Some(p) ==> p@ != old(room).password@
                &&& e == Refusal::WrongPassword
                &&& final(room)@ == old(room)@
                &&& final(state)@ == old(state)@
                &&& *final(room) == *old(room)
                &&& *final(state) == *old(state)
            },
        },
        old(room)@.wf() ==> final(room)@.wf(),
        old(state)@.wf() ==> final(state)@.wf(),
{
    let password: String = text_or(&query.password, "");
    proof {
        reveal_strlit("");
    }
    if !room.password.as_str().is_empty() && room.password != password {
        return Err(Refusal::WrongPassword);
    }
    let device_name: String = text_or(&query.device, "unknown");
    let body: String = join(device_name.as_str(), " joined the room");
    let token: String = register_device(room, device_name);
    let key: [u8; KEY_SIZE] = get_encryption_key(room);
    let key_hex: String = hex_encode(&key);
    let message: LinkMessage = add_system_message(state, body);
    Ok(JoinReply { token, key_hex, message })
}

// -------------------------------------------------------------------- messages
/// The messages of the room, for a device that has joined it.
pub fn api_messages(room: &RoomState, state: &LinkState, query: &ApiQuery) -> (r: Result<
    Vec<LinkMessage>,
    Refusal,
>)
    ensures
        match r {
            Ok(messages) => {
                &&& room@.admits(query@.token)
                &&& message_views(messages@) == state@.messages
                &&& messages@ == state.messages@
            },
            Err(e) => !room@.admits(query@.token) && e == Refusal::InvalidToken,
        },
        r is Ok <==> (query.token matches Some(token) && exists|i: int|
            0 <= i < room.tokens@.len() && (#[trigger] room.tokens@[i])@ == token@),
{
    if !is_authorized(query, room) {
        return Err(Refusal::InvalidToken);
    }
    Ok(list_messages(state))
}

/// Adds the message that a device sends.
pub fn api_send_message(
    room: &RoomState,
    state: &mut LinkState,
    query: &ApiQuery,
    body: &str,
) -> (r: Result<LinkMessage, Refusal>)
    requires
        room@.admits(query@.token) && trimmed(body@).len() > 0 ==> old(state).next_id < u64::MAX,
    ensures
        match r {
            Ok(message) => {
                &&& room@.admits(query@.token)
                &&& trimmed(body@).len() > 0
                &&& message@ == text_message(
                    old(state)@,
                    device_of(query@.device),
                    trimmed(body@),
                    message.created_at,
                )
                &&& final(state)@ == old(state)@.with_message(message@)
                &&& message.sender@ == "user"@
                &&& message.device_name@ == (match query.device {
                    Some(name) => name@,
                    None => "unknown"@,
                })
                &&& message.kind@ == "text"@
                &&& message.body@ == trimmed(body@)
                &&& message.file_name is None && message.file_size is None
                &&& message.file_mime is None && message.download_url is None
                &&& exists|reading: Option<SinceEpoch>|
                    is_reading(reading) && message.created_at == #[trigger] millis_of(reading)
                &&& final(state).messages@ == old(state).messages@.push(message)
                &&& final(state).files@ == old(state).files@
                &&& final(state).next_id == old(state).next_id + 1
            },
            Err(e) => {
                &&& if !room@.admits(query@.token) {
                    e == Refusal::InvalidToken
                } else {
                    trimmed(body@).len() == 0 && e == Refusal::EmptyMessage
                }
                &&& final(state)@ == old(state)@
                &&& *final(state) == *old(state)
            },
        },
        r != Err::<LinkMessage, Refusal>(Refusal::InvalidToken) <==> (query.token matches Some(
            token,
        ) && exists|i: int|
            0 <= i < room.tokens@.len() && (#[trigger] room.tokens@[i])@ == token@),
        old(state)@.wf() ==> final(state)@.wf(),
{
    if !is_authorized(query, room) {
        return Err(Refusal::InvalidToken);
    }
    let device_name: String = text_or(&query.device, "unknown");
    let text: String = trim(body);
    if text.as_str().is_empty() {
        return Err(Refusal::EmptyMessage);
    }
    Ok(add_message(state, "user", device_name.as_str(), "text", text, None, None, None, None))
}

// ----------------------------------------------------------------------- files
/// Starts taking a file of `file_size` bytes that a device sends: gives it its
/// identifier and its place.
pub fn api_upload_file(
    room: &RoomState,
    state: &mut LinkState,
    query: &ApiQuery,
    file_size: u64,
) -> (r: Result<FilePlan, Refusal>)
    requires
        room@.admits(query@.token) ==> old(state).next_id < u64::MAX,
    ensures
        match r {
            Ok(plan) => {
                let name = sanitized(given_or(query@.name, "upload.bin"@));
                &&& room@.admits(query@.token)
                &&& plan@ == next_plan(
                    old(state)@,
                    name,
                    chosen_mime(given_or(query@.mime, ""@), name),
                    file_size,
                    device_of(query@.device),
                )
                &&& plan.file_name@ == sanitized(
                    match query.name {
                        Some(name) => name@,
                        None => "upload.bin"@,
                    },
                )
                &&& plan.mime@ == (match query.mime {
                    Some(mime) => if trimmed(mime@).len() > 0 {
                        mime@
                    } else {
                        mime_of(plan.file_name@)
                    },
                    None => mime_of(plan.file_name@),
                })
                &&& plan.file_size == file_size
                &&& plan.device_name@ == (match query.device {
                    Some(name) => name@,
                    None => "unknown"@,
                })
                &&& plan.file_id@ == "file"@.push('-') + decimal((old(state).next_id + 1) as nat)
                &&& plan.stored_name@ == plan.file_id@.push('-') + plan.file_name@
                &&& final(state).next_id == old(state).next_id + 1
                &&& final(state).messages@ == old(state).messages@
                &&& final(state).files@ == old(state).files@
                &&& planned_file(plan@).kept_as(plan@.file_id)
                &&& is_issued("file"@, plan@.file_id, final(state)@.next_id)
                &&& final(state)@ == old(state)@.with_id()
            },
            Err(e) => {
                &&& !room@.admits(query@.token)
                &&& e == Refusal::InvalidToken
                &&& final(state)@ == old(state)@
                &&& *final(state) == *old(state)
            },
        },
        r is Ok <==> (query.token matches Some(token) && exists|i: int|
            0 <= i < room.tokens@.len() && (#[trigger] room.tokens@[i])@ == token@),
        old(state)@.wf() ==> final(state)@.wf(),
{
    if !is_authorized(query, room) {
        return Err(Refusal::InvalidToken);
    }
    let device_name: String = text_or(&query.device, "unknown");
    let incoming_name: String = text_or(&query.name, "upload.bin");
    proof {
        sanitized_name_is_safe(incoming_name@);
        reveal_strlit("");
        trim_keeps_the_middle(""@, ""@, ""@);
        assert(""@ + ""@ + ""@ =~= ""@);
    }
    let file_name: String = sanitize_file_name(incoming_name.as_str());
    let given: String = text_or(&query.mime, "");
    let mime: String = mime_or_guess(given, file_name.as_str());
    Ok(reserve_file(state, file_name, mime, file_size, device_name))
}

/// Whether a byte may stand in the value of a header: a visible character, a
/// space, a tab, or a byte outside ASCII.
pub open spec fn is_header_byte(b: u8) -> bool {
    b == 9 || (32 <= b && b != 127)
}

/// Whether `text` may be the value of a header.
pub open spec fn is_header_text(text: Seq<char>) -> bool {
    forall|i: int|
        0 <= i < encode_utf8(text).len() ==> is_header_byte(#[trigger] encode_utf8(text)[i])
}

/// `HeaderValue::from_str` takes a text unless its UTF-8 form holds a control
/// byte other than the tab.
#[verifier::external_body]
fn is_header_value(text: &str) -> (r: bool)
    ensures
        r == is_header_text(text@),
{
    axum::http::HeaderValue::from_str(text).is_ok()
}

/// The text, where it may be the value of a header, or another.
pub open spec fn header_or(text: Seq<char>, other: Seq<char>) -> Seq<char> {
    if is_header_text(text) {
        text
    } else {
        other
    }
}

fn header_text(text: String, other: &str) -> (r: String)
    ensures
        r@ == header_or(text@, other@),
{
    if is_header_value(text.as_str()) {
        text
    } else {
        other.to_owned()
    }
}

/// What a device gets that downloads a file: where the encrypted contents are,
/// and the headers that go with them.
#[derive(Debug)]
pub struct Download {
    /// The name that the file is stored under, in the directory for incoming
    /// files.
    pub stored_name: String,
    /// `Content-Type`.
    pub content_type: String,
    /// `Content-Disposition`.
    pub content_disposition: String,
    /// `X-Encryption-Key-Hex`.
    pub key_hex: String,
    /// `X-Original-Name`.
    pub original_name: String,
    /// `X-Original-Mime`.
    pub original_mime: String,
}

/// A download as a mathematical value.
pub struct DownloadView {
    pub stored_name: Seq<char>,
    pub content_type: Seq<char>,
    pub content_disposition: Seq<char>,
    pub key_hex: Seq<char>,
    pub original_name: Seq<char>,
    pub original_mime: Seq<char>,
}

impl View for Download {
    type V = DownloadView;

    open spec fn view(&self) -> DownloadView {
        DownloadView {
            stored_name: self.stored_name@,
            content_type: self.content_type@,
            content_disposition: self.content_disposition@,
            key_hex: self.key_hex@,
            original_name: self.original_name@,
            original_mime: self.original_mime@,
        }
    }
}

/// The name that a browser is told to save an encrypted file under.
pub open spec fn disposition(file_name: Seq<char>) -> Seq<char> {
    "attachment; filename=\""@ + sanitized(file_name) + ".encrypted\""@
}

/// A character that may stand in the value of a header: any but the control
/// characters of ASCII, of which the tab alone may.
pub open spec fn is_header_char(c: char) -> bool {
    c == '\t' || (' ' <= c && c != '\u{7f}')
}

proof fn lemma_header_scalar(c: char)
    ensures
        (forall|i: int|
            0 <= i < encode_scalar(c as u32).len() ==> is_header_byte(
                #[trigger] encode_scalar(c as u32)[i],
            )) <==> is_header_char(c),
        encode_scalar(c as u32).len() > 0,
{
    let v = c as u32;
    let bytes = encode_scalar(v);
    assert(v <= 0x7f ==> (v & 0x7f) as u8 == v) by (bit_vector);
    assert(0x80u8 | (v & 0x3f) as u8 >= 0x80) by (bit_vector);
    assert(0x80u8 | ((v >> 6) & 0x3f) as u8 >= 0x80) by (bit_vector);
    assert(0x80u8 | ((v >> 12) & 0x3f) as u8 >= 0x80) by (bit_vector);
    assert(0xc0u8 | ((v >> 6) & 0x1f) as u8 >= 0x80) by (bit_vector);
    assert(0xe0u8 | ((v >> 12) & 0x0f) as u8 >= 0x80) by (bit_vector);
    assert(0xf0u8 | ((v >> 18) & 0x7) as u8 >= 0x80) by (bit_vector);
    if v <= 0x7f {
        assert(bytes[0] == v);
    }
}

/// A text may be the value of a header exactly where each of its characters may
/// stand in one.
pub proof fn header_text_by_char(text: Seq<char>)
    ensures
        is_header_text(text) <==> (forall|i: int|
            0 <= i < text.len() ==> is_header_char(#[trigger] text[i])),
    decreases text.len(),
{
    if text.len() > 0 {
        let head = encode_scalar(text[0] as u32);
        let rest = text.drop_first();
        let tail = encode_utf8(rest);
        let all = encode_utf8(text);
        assert(all == head + tail);
        lemma_header_scalar(text[0]);
        header_text_by_char(rest);
        assert(forall|i: int| 0 <= i < head.len() ==> #[trigger] head[i] == all[i]);
        assert(forall|i: int| 0 <= i < tail.len() ==> #[trigger] tail[i] == all[head.len() + i]);
        assert(forall|i: int| 0 <= i < rest.len() ==> #[trigger] rest[i] == text[i + 1]);
        if is_header_text(text) {
            assert(is_header_text(rest));
            assert forall|i: int| 0 <= i < text.len() implies is_header_char(#[trigger] text[i]) by {
                if i > 0 {
                    assert(is_header_char(rest[i - 1]));
                }
            }
        }
        if forall|i: int| 0 <= i < text.len() ==> is_header_char(#[trigger] text[i]) {
            assert(is_header_text(rest));
            assert forall|i: int| 0 <= i < all.len() implies is_header_byte(#[trigger] all[i]) by {
                if i < head.len() {
                    assert(is_header_byte(head[i]));
                } else {
                    assert(is_header_byte(tail[i - head.len()]));
                }
            }
        }
    }
}

/// The name of a file that is kept reaches the device that downloads it
/// unchanged.
pub proof fn stored_name_is_header_text(name: Seq<char>)
    requires
        is_stored_name(name),
    ensures
        header_or(name, "file"@) == name,
{
    header_text_by_char(name);
    assert forall|i: int| 0 <= i < name.len() implies is_header_char(#[trigger] name[i]) by {
        assert(is_stored_char(name[i]));
    }
}

/// A text that may be the value of a header is sent as it is.
pub proof fn header_text_is_sent_whole(text: Seq<char>, other: Seq<char>)
    ensures
        (forall|i: int|
            0 <= i < text.len() ==> (#[trigger] text[i] == '\t' || (' ' <= text[i] && text[i]
                != '\u{7f}'))) ==> header_or(text, other) == text,
        (exists|i: int|
            0 <= i < text.len() && #[trigger] text[i] != '\t' && (text[i] < ' ' || text[i]
                == '\u{7f}')) ==> header_or(text, other) == other,
{
    header_text_by_char(text);
    if exists|i: int|
        0 <= i < text.len() && #[trigger] text[i] != '\t' && (text[i] < ' ' || text[i]
            == '\u{7f}') {
        let i = choose|i: int|
            0 <= i < text.len() && #[trigger] text[i] != '\t' && (text[i] < ' ' || text[i]
                == '\u{7f}');
        assert(!is_header_char(text[i]));
    } else {
        assert(forall|i: int|
            0 <= i < text.len() && (#[trigger] text[i] == '\t' || (' ' <= text[i] && text[i]
                != '\u{7f}')) ==> is_header_char(text[i]));
    }
}

/// Hexadecimal text may be the value of a header.
pub proof fn hex_is_header_text(bytes: Seq<u8>)
    ensures
        is_header_text(hex_text(bytes)),
{
    let text = hex_text(bytes);
    header_text_by_char(text);
}

/// Finds a file for a device that downloads it.
pub fn api_download_file(
    room: &RoomState,
    state: &LinkState,
    query: &ApiQuery,
    file_id: &str,
) -> (r: Result<Download, Refusal>)
    ensures
        match r {
            Ok(download) => {
                &&& room@.admits(query@.token)
                &&& state@.files.contains_key(file_id@)
                &&& room@.key().len() == KEY_SIZE
                &&& query.token matches Some(token) && exists|i: int|
                    0 <= i < room.tokens@.len() && (#[trigger] room.tokens@[i])@ == token@
                &&& state.files@.contains_key(file_id@)
                &&& download.stored_name == state.files@[file_id@].stored_name
                &&& download.content_type@ == "application/octet-stream"@
                &&& download.content_disposition@ == header_or(
                    "attachment; filename=\""@ + sanitized(state.files@[file_id@].file_name@)
                        + ".encrypted\""@,
                    "attachment"@,
                )
                &&& download.key_hex@ == hex_text(sha256(encode_utf8(room.room_code@)))
                &&& download.original_name@ == header_or(
                    state.files@[file_id@].file_name@,
                    "file"@,
                )
                &&& download.original_mime@ == header_or(
                    state.files@[file_id@].mime@,
                    "application/octet-stream"@,
                )
                &&& download@ == ({
                    let file = state@.files[file_id@];
                    DownloadView {
                        stored_name: file.stored_name,
                        content_type: "application/octet-stream"@,
                        content_disposition: header_or(
                            disposition(file.file_name),
                            "attachment"@,
                        ),
                        key_hex: hex_text(room@.key()),
                        original_name: header_or(file.file_name, "file"@),
                        original_mime: header_or(file.mime, "application/octet-stream"@),
                    }
                })
            },
            Err(e) => if !room@.admits(query@.token) {
                e == Refusal::InvalidToken
            } else {
                !state@.files.contains_key(file_id@) && e == Refusal::FileNotFound
            },
        },
        r == Err::<Download, Refusal>(Refusal::FileNotFound) ==> !state.files@.contains_key(
            file_id@,
        ),
        r == Err::<Download, Refusal>(Refusal::InvalidToken) ==> !(query.token matches Some(token)
            && exists|i: int|
            0 <= i < room.tokens@.len() && (#[trigger] room.tokens@[i])@ == token@),
{
    if !is_authorized(query, room) {
        return Err(Refusal::InvalidToken);
    }
    let key: [u8; KEY_SIZE] = get_encryption_key(room);
    let key_hex: String = hex_encode(&key);
    let file: SharedFile = match find_file(state, file_id) {
        Some(file) => file,
        None => {
            return Err(Refusal::FileNotFound);
        },
    };
    let safe_name: String = sanitize_file_name(file.file_name.as_str());
    let head: String = join("attachment; filename=\"", safe_name.as_str());
    let saved_as: String = join(head.as_str(), ".encrypted\"");
    proof {
        hex_is_header_text(key@);
    }
    Ok(
        Download {
            stored_name: file.stored_name,
            content_type: "application/octet-stream".to_owned(),
            content_disposition: header_text(saved_as, "attachment"),
            key_hex: header_text(key_hex, ""),
            original_name: header_text(file.file_name, "file"),
            original_mime: header_text(file.mime, "application/octet-stream"),
        },
    )
}

} // verus!
