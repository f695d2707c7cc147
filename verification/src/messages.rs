//! The conversation of a hosted room: its messages, and the files that were
//! sent in it.
use crate::clock::{is_reading, millis_of, now_millis, SinceEpoch};
use crate::naming::is_stored_name;
use crate::text::{
    decimal, decimal_is_digits, decimal_is_injective, decimal_round_trip, decimal_text, decimal_value,
    is_white_space_char, join, trim, trim_keeps_the_middle, trimmed,
};
use vstd::hash_map::StringHashMap;
use vstd::prelude::*;

verus! {

/// The view of an optional text.
pub open spec fn text_option(t: Option<String>) -> Option<Seq<char>> {
    match t {
        Some(s) => Some(s@),
        None => None,
    }
}

// --------------------------------------------------------------------- message
/// One entry of a conversation.
#[derive(Debug)]
pub struct LinkMessage {
    /// Identifies the message in its conversation.
    pub id: String,
    /// `user` or `system`.
    pub sender: String,
    /// The name of the device that it came from.
    pub device_name: String,
    /// `text`, `file` or `system`.
    pub kind: String,
    /// What is shown.
    pub body: String,
    /// The name of the file, for a file.
    pub file_name: Option<String>,
    /// The size of the file in bytes, for a file.
    pub file_size: Option<u64>,
    /// The media type of the file, for a file.
    pub file_mime: Option<String>,
    /// Where the file can be had, for a file.
    pub download_url: Option<String>,
    /// When it was added, in milliseconds since the Unix epoch.
    pub created_at: u64,
}

/// A message as a mathematical value.
pub struct MessageView {
    pub id: Seq<char>,
    pub sender: Seq<char>,
    pub device_name: Seq<char>,
    pub kind: Seq<char>,
    pub body: Seq<char>,
    pub file_name: Option<Seq<char>>,
    pub file_size: Option<u64>,
    pub file_mime: Option<Seq<char>>,
    pub download_url: Option<Seq<char>>,
    pub created_at: u64,
}

impl View for LinkMessage {
    type V = MessageView;

    open spec fn view(&self) -> MessageView {
        MessageView {
            id: self.id@,
            sender: self.sender@,
            device_name: self.device_name@,
            kind: self.kind@,
            body: self.body@,
            file_name: text_option(self.file_name),
            file_size: self.file_size,
            file_mime: text_option(self.file_mime),
            download_url: text_option(self.download_url),
            created_at: self.created_at,
        }
    }
}

impl Clone for LinkMessage {
    fn clone(&self) -> (r: Self)
        ensures
            r == *self,
    {
        LinkMessage {
            id: self.id.clone(),
            sender: self.sender.clone(),
            device_name: self.device_name.clone(),
            kind: self.kind.clone(),
            body: self.body.clone(),
            file_name: self.file_name.clone(),
            file_size: self.file_size,
            file_mime: self.file_mime.clone(),
            download_url: self.download_url.clone(),
            created_at: self.created_at,
        }
    }
}

/// The views of some messages.
pub open spec fn message_views(messages: Seq<LinkMessage>) -> Seq<MessageView> {
    messages.map_values(|m: LinkMessage| m@)
}

/// A copy of some messages.
pub fn copy_messages(messages: &Vec<LinkMessage>) -> (r: Vec<LinkMessage>)
    ensures
        r@ == messages@,
{
    let mut out: Vec<LinkMessage> = Vec::new();
    let mut i: usize = 0;
    while i < messages.len()
        invariant
            i <= messages@.len(),
            out@ == messages@.take(i as int),
        decreases messages@.len() - i,
    {
        out.push(messages[i].clone());
        i = i + 1;
    }
    assert(messages@.take(messages@.len() as int) == messages@);
    out
}

// ----------------------------------------------------------------- shared file
/// A file that was sent in a room and is kept, encrypted, by its host.
#[derive(Debug)]
pub struct SharedFile {
    /// The name that it is stored under, in the directory for incoming files.
    pub stored_name: String,
    /// Its own name.
    pub file_name: String,
    /// Its media type.
    pub mime: String,
}

/// A shared file as a mathematical value.
pub struct FileView {
    pub stored_name: Seq<char>,
    pub file_name: Seq<char>,
    pub mime: Seq<char>,
}

impl View for SharedFile {
    type V = FileView;

    open spec fn view(&self) -> FileView {
        FileView { stored_name: self.stored_name@, file_name: self.file_name@, mime: self.mime@ }
    }
}

impl FileView {
    /// The file has a name that files can be stored under, and its place is
    /// named after its identifier and that name.
    pub open spec fn kept_as(self, id: Seq<char>) -> bool {
        &&& is_stored_name(self.file_name)
        &&& self.stored_name == id.push('-') + self.file_name
    }
}

impl Clone for SharedFile {
    fn clone(&self) -> (r: Self)
        ensures
            r == *self,
    {
        SharedFile {
            stored_name: self.stored_name.clone(),
            file_name: self.file_name.clone(),
            mime: self.mime.clone(),
        }
    }
}

// ----------------------------------------------------------------------- state
/// The conversation of a hosted room.
pub struct LinkState {
    /// The messages, oldest first.
    pub messages: Vec<LinkMessage>,
    /// The files by their identifiers.
    pub files: StringHashMap<SharedFile>,
    /// The number of the last identifier that was given out.
    pub next_id: u64,
}

/// A conversation as a mathematical value.
pub struct StateView {
    pub messages: Seq<MessageView>,
    pub files: Map<Seq<char>, FileView>,
    pub next_id: nat,
}

impl View for LinkState {
    type V = StateView;

    open spec fn view(&self) -> StateView {
        StateView {
            messages: message_views(self.messages@),
            files: self.files@.map_values(|f: SharedFile| f@),
            next_id: self.next_id as nat,
        }
    }
}

/// The identifier with the number `n`.
pub open spec fn numbered(prefix: Seq<char>, n: nat) -> Seq<char> {
    prefix.push('-') + decimal(n)
}

/// Whether `id` is an identifier with a number from 1 to `last`.
pub open spec fn is_issued(prefix: Seq<char>, id: Seq<char>, last: nat) -> bool {
    exists|n: nat| 1 <= n <= last && id == #[trigger] numbered(prefix, n)
}

impl StateView {
    /// Every identifier in the conversation has been given out, no two messages
    /// share one, and every file has a safe name and its own place.
    pub open spec fn wf(self) -> bool {
        &&& forall|i: int|
            0 <= i < self.messages.len() ==> is_issued(
                "msg"@,
                (#[trigger] self.messages[i]).id,
                self.next_id,
            )
        &&& forall|i: int, j: int|
            0 <= i < j < self.messages.len() ==> (#[trigger] self.messages[i]).id != (
            #[trigger] self.messages[j]).id
        &&& forall|id: Seq<char>| #[trigger]
            self.files.contains_key(id) ==> is_issued("file"@, id, self.next_id)
                && self.files[id].kept_as(id)
    }

    /// The conversation once one more identifier has been given out.
    pub open spec fn with_id(self) -> StateView {
        StateView { next_id: self.next_id + 1, ..self }
    }

    /// The conversation once `message` has been added.
    pub open spec fn with_message(self, message: MessageView) -> StateView {
        StateView { messages: self.messages.push(message), ..self.with_id() }
    }

    /// The conversation once `file` has been recorded under `id`.
    pub open spec fn with_file(self, id: Seq<char>, file: FileView) -> StateView {
        StateView { files: self.files.insert(id, file), ..self }
    }
}

/// Identifiers with different numbers differ.
pub proof fn numbered_is_injective(prefix: Seq<char>, a: nat, b: nat)
    requires
        numbered(prefix, a) == numbered(prefix, b),
    ensures
        a == b,
{
    let n = prefix.len() as int + 1;
    assert(numbered(prefix, a).skip(n) == decimal(a));
    assert(numbered(prefix, b).skip(n) == decimal(b));
    decimal_is_injective(a, b);
}

/// An identifier is its prefix, a hyphen and its number in decimal.
pub proof fn identifier_carries_its_number(prefix: Seq<char>, n: nat)
    ensures
        numbered(prefix, n).take(prefix.len() as int) == prefix,
        numbered(prefix, n)[prefix.len() as int] == '-',
        decimal_value(numbered(prefix, n).skip(prefix.len() as int + 1)) == n,
        forall|i: int|
            prefix.len() < i < numbered(prefix, n).len() ==> '0' <= #[trigger] numbered(prefix, n)[i]
                <= '9',
{
    let id = numbered(prefix, n);
    assert(id.take(prefix.len() as int) =~= prefix);
    assert(id.skip(prefix.len() as int + 1) =~= decimal(n));
    decimal_is_digits(n);
    decimal_round_trip(n);
}

/// An identifier that is given out was not given out before.
pub proof fn new_id_is_fresh(prefix: Seq<char>, id: Seq<char>, last: nat)
    requires
        is_issued(prefix, id, last),
    ensures
        id != numbered(prefix, last + 1),
        is_issued(prefix, id, last + 1),
{
    let n = choose|n: nat| 1 <= n <= last && id == #[trigger] numbered(prefix, n);
    if id == numbered(prefix, last + 1) {
        numbered_is_injective(prefix, n, last + 1);
    }
    assert(id == numbered(prefix, n));
}

/// Giving out an identifier keeps a conversation well formed.
pub proof fn id_keeps_wf(s: StateView)
    requires
        s.wf(),
    ensures
        s.with_id().wf(),
{
    assert forall|i: int| 0 <= i < s.messages.len() implies is_issued(
        "msg"@,
        (#[trigger] s.with_id().messages[i]).id,
        s.next_id + 1,
    ) by {
        new_id_is_fresh("msg"@, s.messages[i].id, s.next_id);
    }
    assert forall|id: Seq<char>| #[trigger] s.with_id().files.contains_key(id) implies is_issued(
        "file"@,
        id,
        s.next_id + 1,
    ) && s.files[id].kept_as(id) by {
        assert(s.files.contains_key(id));
        new_id_is_fresh("file"@, id, s.next_id);
    }
}

/// Adding a message with the next identifier keeps a conversation well formed.
pub proof fn message_keeps_wf(s: StateView, message: MessageView)
    requires
        s.wf(),
        message.id == numbered("msg"@, s.next_id + 1),
    ensures
        s.with_message(message).wf(),
{
    id_keeps_wf(s);
    let t = s.with_message(message);
    assert forall|i: int| 0 <= i < t.messages.len() implies is_issued(
        "msg"@,
        (#[trigger] t.messages[i]).id,
        t.next_id,
    ) by {
        if i < s.messages.len() {
            assert(t.messages[i] == s.with_id().messages[i]);
        } else {
            assert(t.messages[i].id == numbered("msg"@, t.next_id));
        }
    }
    assert forall|i: int, j: int| 0 <= i < j < t.messages.len() implies (
    #[trigger] t.messages[i]).id != (#[trigger] t.messages[j]).id by {
        assert(t.messages[i] == s.messages[i]);
        if j == s.messages.len() {
            new_id_is_fresh("msg"@, s.messages[i].id, s.next_id);
        } else {
            assert(t.messages[j] == s.messages[j]);
        }
    }
    assert forall|id: Seq<char>| #[trigger] t.files.contains_key(id) implies is_issued(
        "file"@,
        id,
        t.next_id,
    ) && t.files[id].kept_as(id) by {
        assert(s.with_id().files.contains_key(id));
    }
}

/// Recording a file under an identifier that was given out keeps a
/// conversation well formed.
pub proof fn file_keeps_wf(s: StateView, id: Seq<char>, file: FileView)
    requires
        s.wf(),
        is_issued("file"@, id, s.next_id),
        file.kept_as(id),
    ensures
        s.with_file(id, file).wf(),
{
    let t = s.with_file(id, file);
    assert forall|k: Seq<char>| #[trigger] t.files.contains_key(k) implies is_issued(
        "file"@,
        k,
        t.next_id,
    ) && t.files[k].kept_as(k) by {
        assert(k == id || s.files.contains_key(k));
    }
}

/// A message is added behind all others, which stay as they are, and no file
/// changes.
pub proof fn message_is_added_last(s: StateView, message: MessageView)
    ensures
        s.with_message(message).messages.last() == message,
        s.with_message(message).messages.drop_last() == s.messages,
        s.with_message(message).files == s.files,
{
}

impl LinkState {
    /// A conversation without messages and files.
    pub open spec fn spec_new() -> StateView {
        StateView { messages: Seq::empty(), files: Map::empty(), next_id: 0 }
    }

    /// A conversation without messages and files.
    pub fn new() -> (r: Self)
        ensures
            r@ == Self::spec_new(),
            r.messages@.len() == 0,
            r.files@ == Map::<Seq<char>, SharedFile>::empty(),
            r.next_id == 0,
            r@.wf(),
    {
        let r = LinkState { messages: Vec::new(), files: StringHashMap::new(), next_id: 0 };
        assert(r@.messages == Seq::<MessageView>::empty());
        assert(r@.files == Map::<Seq<char>, FileView>::empty());
        r
    }
}

/// Gives out the next identifier.
pub fn reserved_id(state: &mut LinkState, prefix: &str) -> (r: String)
    requires
        old(state).next_id < u64::MAX,
    ensures
        r@ == numbered(prefix@, old(state)@.next_id + 1),
        r@ == prefix@.push('-') + decimal((old(state).next_id + 1) as nat),
        final(state)@ == old(state)@.with_id(),
        final(state).next_id == old(state).next_id + 1,
        final(state).messages@ == old(state).messages@,
        final(state).files@ == old(state).files@,
        old(state)@.wf() ==> final(state)@.wf(),
{
    state.next_id = state.next_id + 1;
    proof {
        if old(state)@.wf() {
            id_keeps_wf(old(state)@);
        }
    }
    let mut id: String = prefix.to_owned();
    id.push('-');
    let digits: String = decimal_text(state.next_id);
    join(id.as_str(), digits.as_str())
}

/// Adds a message that was written at `created_at`.
pub fn add_message_at(
    state: &mut LinkState,
    sender: &str,
    device_name: &str,
    kind: &str,
    body: String,
    file_name: Option<String>,
    file_size: Option<u64>,
    file_mime: Option<String>,
    download_url: Option<String>,
    created_at: u64,
) -> (r: LinkMessage)
    requires
        old(state).next_id < u64::MAX,
    ensures
        r@ == (MessageView {
            id: numbered("msg"@, old(state)@.next_id + 1),
            sender: sender@,
            device_name: device_name@,
            kind: kind@,
            body: body@,
            file_name: text_option(file_name),
            file_size,
            file_mime: text_option(file_mime),
            download_url: text_option(download_url),
            created_at,
        }),
        final(state)@ == old(state)@.with_message(r@),
        r.id@ == "msg"@.push('-') + decimal((old(state).next_id + 1) as nat),
        r.sender@ == sender@,
        r.device_name@ == device_name@,
        r.kind@ == kind@,
        r.body@ == body@,
        r.file_name == file_name,
        r.file_size == file_size,
        r.file_mime == file_mime,
        r.download_url == download_url,
        r.created_at == created_at,
        final(state).messages@ == old(state).messages@.push(r),
        final(state).files@ == old(state).files@,
        final(state).next_id == old(state).next_id + 1,
        old(state)@.wf() ==> final(state)@.wf(),
{
    let id: String = reserved_id(state, "msg");
    let message = LinkMessage {
        id,
        sender: sender.to_owned(),
        device_name: device_name.to_owned(),
        kind: kind.to_owned(),
        body,
        file_name,
        file_size,
        file_mime,
        download_url,
        created_at,
    };
    state.messages.push(message.clone());
    assert(state@.messages == old(state)@.messages.push(message@));
    proof {
        if old(state)@.wf() {
            message_keeps_wf(old(state)@, message@);
        }
    }
    message
}

/// Adds a message that is written now.
pub fn add_message(
    state: &mut LinkState,
    sender: &str,
    device_name: &str,
    kind: &str,
    body: String,
    file_name: Option<String>,
    file_size: Option<u64>,
    file_mime: Option<String>,
    download_url: Option<String>,
) -> (r: LinkMessage)
    requires
        old(state).next_id < u64::MAX,
    ensures
        r@ == (MessageView {
            id: numbered("msg"@, old(state)@.next_id + 1),
            sender: sender@,
            device_name: device_name@,
            kind: kind@,
            body: body@,
            file_name: text_option(file_name),
            file_size,
            file_mime: text_option(file_mime),
            download_url: text_option(download_url),
            created_at: r.created_at,
        }),
        final(state)@ == old(state)@.with_message(r@),
        r.id@ == "msg"@.push('-') + decimal((old(state).next_id + 1) as nat),
        r.sender@ == sender@,
        r.device_name@ == device_name@,
        r.kind@ == kind@,
        r.body@ == body@,
        r.file_name == file_name,
        r.file_size == file_size,
        r.file_mime == file_mime,
        r.download_url == download_url,
        exists|reading: Option<SinceEpoch>|
            is_reading(reading) && r.created_at == #[trigger] millis_of(reading),
        final(state).messages@ == old(state).messages@.push(r),
        final(state).files@ == old(state).files@,
        final(state).next_id == old(state).next_id + 1,
        old(state)@.wf() ==> final(state)@.wf(),
{
    let created_at: u64 = now_millis();
    add_message_at(
        state,
        sender,
        device_name,
        kind,
        body,
        file_name,
        file_size,
        file_mime,
        download_url,
        created_at,
    )
}

/// The messages of a conversation, oldest first.
pub fn list_messages(state: &LinkState) -> (r: Vec<LinkMessage>)
    ensures
        message_views(r@) == state@.messages,
        r@ == state.messages@,
{
    copy_messages(&state.messages)
}

/// Adds what the person at the host has written.
pub fn send_text(state: &mut LinkState, text: &str, device_name: &str) -> (r: Result<
    LinkMessage,
    String,
>)
    requires
        trimmed(text@).len() > 0 ==> old(state).next_id < u64::MAX,
    ensures
        match r {
            Ok(message) => {
                &&& trimmed(text@).len() > 0
                &&& message@ == text_message(
                    old(state)@,
                    device_name@,
                    trimmed(text@),
                    message.created_at,
                )
                &&& final(state)@ == old(state)@.with_message(message@)
                &&& message.id@ == "msg"@.push('-') + decimal((old(state).next_id + 1) as nat)
                &&& message.sender@ == "user"@
                &&& message.device_name@ == device_name@
                &&& message.kind@ == "text"@
                &&& message.body@ == trimmed(text@)
                &&& message.file_name is None && message.file_size is None
                &&& message.file_mime is None && message.download_url is None
                &&& exists|reading: Option<SinceEpoch>|
                    is_reading(reading) && message.created_at == #[trigger] millis_of(reading)
                &&& final(state).messages@ == old(state).messages@.push(message)
                &&& final(state).files@ == old(state).files@
                &&& final(state).next_id == old(state).next_id + 1
            },
            Err(e) => {
                &&& trimmed(text@).len() == 0
                &&& e@ == "message is empty"@
                &&& final(state)@ == old(state)@
                &&& *final(state) == *old(state)
            },
        },
        old(state)@.wf() ==> final(state)@.wf(),
{
    let text: String = trim(text);
    if text.as_str().is_empty() {
        return Err("message is empty".to_owned());
    }
    Ok(add_message(state, "user", device_name, "text", text, None, None, None, None))
}

/// The next message of a conversation, with the text `body` in it.
pub open spec fn text_message(
    s: StateView,
    device_name: Seq<char>,
    body: Seq<char>,
    created_at: u64,
) -> MessageView {
    MessageView {
        id: numbered("msg"@, s.next_id + 1),
        sender: "user"@,
        device_name,
        kind: "text"@,
        body,
        file_name: None,
        file_size: None,
        file_mime: None,
        download_url: None,
        created_at,
    }
}

/// A text that is sent arrives whole: without the white space at its two ends,
/// and with all that stands between, however long it is. The conversation then
/// ends with it.
pub proof fn text_arrives_whole(
    s: StateView,
    device_name: Seq<char>,
    lead: Seq<char>,
    middle: Seq<char>,
    trail: Seq<char>,
    created_at: u64,
)
    requires
        forall|i: int| 0 <= i < lead.len() ==> is_white_space_char(#[trigger] lead[i]),
        forall|i: int| 0 <= i < trail.len() ==> is_white_space_char(#[trigger] trail[i]),
        middle.len() > 0,
        !is_white_space_char(middle[0]) && !is_white_space_char(middle.last()),
    ensures
        ({
            let message = text_message(
                s,
                device_name,
                trimmed(lead + middle + trail),
                created_at,
            );
            &&& message.body == middle
            &&& message.device_name == device_name
            &&& message.sender == "user"@ && message.kind == "text"@
            &&& message.created_at == created_at
            &&& s.with_message(message).messages.last().body == middle
            &&& s.with_message(message).messages.len() == s.messages.len() + 1
        }),
{
    trim_keeps_the_middle(lead, middle, trail);
}

/// What the room itself says is said whole.
pub proof fn system_text_is_whole(s: StateView, body: Seq<char>, created_at: u64)
    ensures
        system_message(s, body, created_at).body == body,
        system_message(s, body, created_at).sender == "system"@,
        system_message(s, body, created_at).created_at == created_at,
        s.with_message(system_message(s, body, created_at)).messages.last().body == body,
{
}

/// The next message of a conversation, when the room itself says `body`.
pub open spec fn system_message(s: StateView, body: Seq<char>, created_at: u64) -> MessageView {
    MessageView {
        id: numbered("msg"@, s.next_id + 1),
        sender: "system"@,
        device_name: "system"@,
        kind: "system"@,
        body,
        file_name: None,
        file_size: None,
        file_mime: None,
        download_url: None,
        created_at,
    }
}

/// Adds what the room itself has to say.
pub fn add_system_message(state: &mut LinkState, body: String) -> (r: LinkMessage)
    requires
        old(state).next_id < u64::MAX,
    ensures
        r@ == system_message(old(state)@, body@, r.created_at),
        final(state)@ == old(state)@.with_message(r@),
        r.id@ == "msg"@.push('-') + decimal((old(state).next_id + 1) as nat),
        r.sender@ == "system"@,
        r.device_name@ == "system"@,
        r.kind@ == "system"@,
        r.body@ == body@,
        r.file_name is None && r.file_size is None,
        r.file_mime is None && r.download_url is None,
        exists|reading: Option<SinceEpoch>|
            is_reading(reading) && r.created_at == #[trigger] millis_of(reading),
        final(state).messages@ == old(state).messages@.push(r),
        final(state).files@ == old(state).files@,
        final(state).next_id == old(state).next_id + 1,
        old(state)@.wf() ==> final(state)@.wf(),
{
    add_message(state, "system", "system", "system", body, None, None, None, None)
}

/// The conversation without its messages.
pub open spec fn emptied(s: StateView) -> StateView {
    StateView { messages: Seq::empty(), ..s }
}

/// Empties a conversation, but for the message that says so. Files stay, and
/// identifiers are not given out again.
pub fn clear_messages(state: &mut LinkState) -> (r: Vec<LinkMessage>)
    requires
        old(state).next_id < u64::MAX,
    ensures
        r@.len() == 1,
        r@[0]@ == system_message(old(state)@, "Conversation cleared."@, r@[0].created_at),
        final(state)@ == emptied(old(state)@).with_message(r@[0]@),
        final(state)@.messages == message_views(r@),
        r@[0].id@ == "msg"@.push('-') + decimal((old(state).next_id + 1) as nat),
        r@[0].sender@ == "system"@,
        r@[0].device_name@ == "system"@,
        r@[0].kind@ == "system"@,
        r@[0].body@ == "Conversation cleared."@,
        r@[0].file_name is None && r@[0].file_size is None,
        r@[0].file_mime is None && r@[0].download_url is None,
        exists|reading: Option<SinceEpoch>|
            is_reading(reading) && r@[0].created_at == #[trigger] millis_of(reading),
        final(state).messages@ == r@,
        final(state).files@ == old(state).files@,
        final(state).next_id == old(state).next_id + 1,
        old(state)@.wf() ==> final(state)@.wf(),
{
    state.messages.clear();
    assert(state@ == emptied(old(state)@)) by {
        assert(state@.messages == Seq::<MessageView>::empty());
    }
    let mut out: Vec<LinkMessage> = Vec::new();
    let message: LinkMessage = add_system_message(state, "Conversation cleared.".to_owned());
    out.push(message);
    assert(state@.messages == message_views(out@));
    out
}

// ----------------------------------------------------------------- sent a file
/// A file on its way into a conversation: it has an identifier and a place, and
/// is not recorded yet.
#[derive(Debug)]
pub struct FilePlan {
    /// The identifier that was given out for it.
    pub file_id: String,
    /// The name that it is stored under, in the directory for incoming files.
    pub stored_name: String,
    /// Its own name.
    pub file_name: String,
    /// Its media type.
    pub mime: String,
    /// Its size in bytes.
    pub file_size: u64,
    /// The name of the device that it comes from.
    pub device_name: String,
}

/// A file on its way as a mathematical value.
pub struct PlanView {
    pub file_id: Seq<char>,
    pub stored_name: Seq<char>,
    pub file_name: Seq<char>,
    pub mime: Seq<char>,
    pub file_size: u64,
    pub device_name: Seq<char>,
}

impl View for FilePlan {
    type V = PlanView;

    open spec fn view(&self) -> PlanView {
        PlanView {
            file_id: self.file_id@,
            stored_name: self.stored_name@,
            file_name: self.file_name@,
            mime: self.mime@,
            file_size: self.file_size,
            device_name: self.device_name@,
        }
    }
}

/// The plan for the next file of a conversation.
pub open spec fn next_plan(
    s: StateView,
    file_name: Seq<char>,
    mime: Seq<char>,
    file_size: u64,
    device_name: Seq<char>,
) -> PlanView {
    let file_id = numbered("file"@, s.next_id + 1);
    PlanView {
        file_id,
        stored_name: file_id.push('-') + file_name,
        file_name,
        mime,
        file_size,
        device_name,
    }
}

/// The next message of a conversation, when a file is there to be had.
pub open spec fn file_message(
    s: StateView,
    plan: PlanView,
    verb: Seq<char>,
    created_at: u64,
) -> MessageView {
    MessageView {
        id: numbered("msg"@, s.next_id + 1),
        sender: "user"@,
        device_name: plan.device_name,
        kind: "file"@,
        body: verb.push(' ') + plan.file_name,
        file_name: Some(plan.file_name),
        file_size: Some(plan.file_size),
        file_mime: Some(plan.mime),
        download_url: Some("/api/download/"@ + plan.file_id),
        created_at,
    }
}

/// The record of a planned file.
pub open spec fn planned_file(plan: PlanView) -> FileView {
    FileView { stored_name: plan.stored_name, file_name: plan.file_name, mime: plan.mime }
}

/// The message that announces a file says of it what is recorded of it: its
/// name, its media type, its size to the last byte, and where it can be had.
/// What stands behind the last stroke of that address is the identifier that
/// the file is recorded under.
pub proof fn file_message_describes_the_file(
    s: StateView,
    plan: PlanView,
    verb: Seq<char>,
    created_at: u64,
)
    ensures
        ({
            let message = file_message(s, plan, verb, created_at);
            let after = s.with_file(plan.file_id, planned_file(plan)).with_message(message);
            &&& message.file_size == Some(plan.file_size)
            &&& message.file_name == Some(after.files[plan.file_id].file_name)
            &&& message.file_mime == Some(after.files[plan.file_id].mime)
            &&& message.device_name == plan.device_name
            &&& message.body.take(verb.len() as int) == verb
            &&& message.body.skip(verb.len() as int + 1) == plan.file_name
            &&& message.download_url matches Some(url) && url.len() == "/api/download/"@.len()
                + plan.file_id.len() && after.files.contains_key(
                url.skip("/api/download/"@.len() as int),
            ) && url.skip("/api/download/"@.len() as int) == plan.file_id
            &&& after.messages.last() == message
        }),
{
    let message = file_message(s, plan, verb, created_at);
    assert(message.body.take(verb.len() as int) =~= verb);
    assert(message.body.skip(verb.len() as int + 1) =~= plan.file_name);
    let url = message.download_url->0;
    assert(url.skip("/api/download/"@.len() as int) =~= plan.file_id);
}

/// The plan for a file keeps what it was made from: the name, the media type, the
/// size and the device; and its place begins with its identifier and ends with
/// its name.
pub proof fn plan_keeps_what_it_is_made_from(
    s: StateView,
    file_name: Seq<char>,
    mime: Seq<char>,
    file_size: u64,
    device_name: Seq<char>,
)
    ensures
        ({
            let plan = next_plan(s, file_name, mime, file_size, device_name);
            let n = plan.file_id.len() as int;
            &&& plan.file_name == file_name
            &&& plan.mime == mime
            &&& plan.file_size == file_size
            &&& plan.device_name == device_name
            &&& plan.stored_name.take(n) == plan.file_id
            &&& plan.stored_name[n] == '-'
            &&& plan.stored_name.skip(n + 1) == file_name
            &&& planned_file(plan).stored_name == plan.stored_name
            &&& planned_file(plan).file_name == file_name
            &&& planned_file(plan).mime == mime
        }),
{
    let plan = next_plan(s, file_name, mime, file_size, device_name);
    let n = plan.file_id.len() as int;
    assert(plan.stored_name.take(n) =~= plan.file_id);
    assert(plan.stored_name.skip(n + 1) =~= file_name);
}

/// The plan for the next file can be carried out: its identifier is given out,
/// its place is its own, and recording it keeps the conversation well formed.
pub proof fn planned_file_keeps_wf(
    s: StateView,
    file_name: Seq<char>,
    mime: Seq<char>,
    file_size: u64,
    device_name: Seq<char>,
)
    requires
        s.wf(),
        is_stored_name(file_name),
    ensures
        ({
            let plan = next_plan(s, file_name, mime, file_size, device_name);
            &&& is_issued("file"@, plan.file_id, s.with_id().next_id)
            &&& planned_file(plan).kept_as(plan.file_id)
            &&& s.with_id().with_file(plan.file_id, planned_file(plan)).wf()
        }),
{
    let plan = next_plan(s, file_name, mime, file_size, device_name);
    id_keeps_wf(s);
    assert(plan.file_id == numbered("file"@, s.next_id + 1));
    file_keeps_wf(s.with_id(), plan.file_id, planned_file(plan));
}

/// No two files of a conversation are kept in the same place.
pub proof fn files_have_their_own_places(s: StateView, a: Seq<char>, b: Seq<char>)
    requires
        s.wf(),
        s.files.contains_key(a),
        s.files.contains_key(b),
        s.files[a].stored_name == s.files[b].stored_name,
    ensures
        a == b,
{
    let m = choose|n: nat| 1 <= n <= s.next_id && a == #[trigger] numbered("file"@, n);
    let n = choose|n: nat| 1 <= n <= s.next_id && b == #[trigger] numbered("file"@, n);
    let place = s.files[a].stored_name;
    let from = "file"@.len() as int + 1;
    decimal_is_digits(m);
    decimal_is_digits(n);
    if a.len() < b.len() {
        assert(place[a.len() as int] == '-');
        assert(place[a.len() as int] == b[a.len() as int]);
        assert(b[a.len() as int] == decimal(n)[a.len() - from]);
    }
    if b.len() < a.len() {
        assert(place[b.len() as int] == '-');
        assert(place[b.len() as int] == a[b.len() as int]);
        assert(a[b.len() as int] == decimal(m)[b.len() - from]);
    }
    assert(a == place.take(a.len() as int));
    assert(b == place.take(b.len() as int));
}

/// Gives a file its identifier and its place.
pub fn reserve_file(
    state: &mut LinkState,
    file_name: String,
    mime: String,
    file_size: u64,
    device_name: String,
) -> (r: FilePlan)
    requires
        old(state).next_id < u64::MAX,
    ensures
        r@ == next_plan(old(state)@, file_name@, mime@, file_size, device_name@),
        r.file_id@ == "file"@.push('-') + decimal((old(state).next_id + 1) as nat),
        r.stored_name@ == r.file_id@.push('-') + file_name@,
        r.file_name@ == file_name@,
        r.mime@ == mime@,
        r.file_size == file_size,
        r.device_name@ == device_name@,
        final(state)@ == old(state)@.with_id(),
        final(state).next_id == old(state).next_id + 1,
        final(state).messages@ == old(state).messages@,
        final(state).files@ == old(state).files@,
        is_issued("file"@, r@.file_id, final(state)@.next_id),
        !is_issued("file"@, r@.file_id, old(state)@.next_id),
        old(state)@.wf() ==> final(state)@.wf(),
{
    let file_id: String = reserved_id(state, "file");
    proof {
        assert(file_id@ == numbered("file"@, state@.next_id));
        if is_issued("file"@, file_id@, old(state)@.next_id) {
            new_id_is_fresh("file"@, file_id@, old(state)@.next_id);
        }
    }
    let mut stored: String = file_id.clone();
    stored.push('-');
    let stored_name: String = join(stored.as_str(), file_name.as_str());
    FilePlan { file_id, stored_name, file_name, mime, file_size, device_name }
}

/// Records a planned file that has been stored, and says so in the
/// conversation.
pub fn record_file(state: &mut LinkState, plan: FilePlan, verb: &str) -> (r: LinkMessage)
    requires
        old(state).next_id < u64::MAX,
    ensures
        r@ == file_message(old(state)@, plan@, verb@, r.created_at),
        r.id@ == "msg"@.push('-') + decimal((old(state).next_id + 1) as nat),
        r.sender@ == "user"@,
        r.device_name@ == plan.device_name@,
        r.kind@ == "file"@,
        r.body@ == (verb@).push(' ') + plan.file_name@,
        r.file_name == Some(plan.file_name),
        r.file_size == Some(plan.file_size),
        r.file_mime == Some(plan.mime),
        r.download_url matches Some(url) && url@ == "/api/download/"@ + plan.file_id@,
        exists|reading: Option<SinceEpoch>|
            is_reading(reading) && r.created_at == #[trigger] millis_of(reading),
        final(state).messages@ == old(state).messages@.push(r),
        final(state).next_id == old(state).next_id + 1,
        final(state).files@ == old(state).files@.insert(
            plan.file_id@,
            (SharedFile {
                stored_name: plan.stored_name,
                file_name: plan.file_name,
                mime: plan.mime,
            }),
        ),
        final(state)@ == old(state)@.with_file(plan@.file_id, planned_file(plan@)).with_message(r@),
        old(state)@.wf() && is_issued("file"@, plan@.file_id, old(state)@.next_id) && planned_file(
            plan@,
        ).kept_as(plan@.file_id) ==> final(state)@.wf(),
{
    let download_url: String = join("/api/download/", plan.file_id.as_str());
    let mut head: String = verb.to_owned();
    head.push(' ');
    let body: String = join(head.as_str(), plan.file_name.as_str());
    let file = SharedFile {
        stored_name: plan.stored_name,
        file_name: plan.file_name.clone(),
        mime: plan.mime.clone(),
    };
    state.files.insert(plan.file_id, file);
    assert(state@ == old(state)@.with_file(plan@.file_id, planned_file(plan@))) by {
        assert(state@.files == old(state)@.files.insert(plan@.file_id, planned_file(plan@)));
    }
    proof {
        if old(state)@.wf() && is_issued("file"@, plan@.file_id, old(state)@.next_id)
            && planned_file(plan@).kept_as(plan@.file_id) {
            file_keeps_wf(old(state)@, plan@.file_id, planned_file(plan@));
        }
    }
    add_message(
        state,
        "user",
        plan.device_name.as_str(),
        "file",
        body,
        Some(plan.file_name),
        Some(plan.file_size),
        Some(plan.mime),
        Some(download_url),
    )
}

/// Records a file that another device has sent, and says so in the conversation.
pub fn record_upload(state: &mut LinkState, plan: FilePlan) -> (r: LinkMessage)
    requires
        old(state).next_id < u64::MAX,
    ensures
        r@ == file_message(old(state)@, plan@, "sent"@, r.created_at),
        r.id@ == "msg"@.push('-') + decimal((old(state).next_id + 1) as nat),
        r.sender@ == "user"@,
        r.device_name@ == plan.device_name@,
        r.kind@ == "file"@,
        r.body@ == ("sent"@).push(' ') + plan.file_name@,
        r.file_name == Some(plan.file_name),
        r.file_size == Some(plan.file_size),
        r.file_mime == Some(plan.mime),
        r.download_url matches Some(url) && url@ == "/api/download/"@ + plan.file_id@,
        exists|reading: Option<SinceEpoch>|
            is_reading(reading) && r.created_at == #[trigger] millis_of(reading),
        final(state).messages@ == old(state).messages@.push(r),
        final(state).next_id == old(state).next_id + 1,
        final(state).files@ == old(state).files@.insert(
            plan.file_id@,
            (SharedFile {
                stored_name: plan.stored_name,
                file_name: plan.file_name,
                mime: plan.mime,
            }),
        ),
        final(state)@ == old(state)@.with_file(plan@.file_id, planned_file(plan@)).with_message(r@),
        old(state)@.wf() && is_issued("file"@, plan@.file_id, old(state)@.next_id) && planned_file(
            plan@,
        ).kept_as(plan@.file_id) ==> final(state)@.wf(),
{
    record_file(state, plan, "sent")
}

/// Records a file that the host has shared, and says so in the conversation.
pub fn record_share(state: &mut LinkState, plan: FilePlan) -> (r: LinkMessage)
    requires
        old(state).next_id < u64::MAX,
    ensures
        r@ == file_message(old(state)@, plan@, "shared"@, r.created_at),
        r.id@ == "msg"@.push('-') + decimal((old(state).next_id + 1) as nat),
        r.sender@ == "user"@,
        r.device_name@ == plan.device_name@,
        r.kind@ == "file"@,
        r.body@ == ("shared"@).push(' ') + plan.file_name@,
        r.file_name == Some(plan.file_name),
        r.file_size == Some(plan.file_size),
        r.file_mime == Some(plan.mime),
        r.download_url matches Some(url) && url@ == "/api/download/"@ + plan.file_id@,
        exists|reading: Option<SinceEpoch>|
            is_reading(reading) && r.created_at == #[trigger] millis_of(reading),
        final(state).messages@ == old(state).messages@.push(r),
        final(state).next_id == old(state).next_id + 1,
        final(state).files@ == old(state).files@.insert(
            plan.file_id@,
            (SharedFile {
                stored_name: plan.stored_name,
                file_name: plan.file_name,
                mime: plan.mime,
            }),
        ),
        final(state)@ == old(state)@.with_file(plan@.file_id, planned_file(plan@)).with_message(r@),
        old(state)@.wf() && is_issued("file"@, plan@.file_id, old(state)@.next_id) && planned_file(
            plan@,
        ).kept_as(plan@.file_id) ==> final(state)@.wf(),
{
    record_file(state, plan, "shared")
}

/// Finds a file by its identifier.
pub fn find_file(state: &LinkState, file_id: &str) -> (r: Option<SharedFile>)
    ensures
        match r {
            Some(file) => state@.files.contains_key(file_id@) && file@ == state@.files[file_id@],
            None => !state@.files.contains_key(file_id@),
        },
        match r {
            Some(file) => state.files@.contains_key(file_id@) && file == state.files@[file_id@],
            None => !state.files@.contains_key(file_id@),
        },
{
    match state.files.get(file_id) {
        Some(file) => Some(file.clone()),
        None => None,
    }
}

} // verus!
