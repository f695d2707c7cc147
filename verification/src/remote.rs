//! Relayed rooms: everything that is sent through the relay is encrypted on
//! this device, under a key that is derived from the password of the room.
use crate::crypto::{
    aes_gcm_seal, auth_hash_of, decrypt_bytes, decrypted, derive_remote_key, encrypt_bytes, is_drawn,
    is_encrypted, join_auth_hash, pbkdf2_hmac_sha256, remote_key_of, sha256, KEY_SIZE, MAX_PLAINTEXT,
    NONCE_SIZE, TAG_SIZE,
};
use crate::encoding::{
    base64_bytes, base64_encode, base64_len, base64_round_trip, base64_text, hex_text, read_base64,
    text_strict, utf8_round_trip,
};
use crate::files::{local_file, local_or_error, LocalFileResult, PickedFile};
use crate::frame::{frame_file, frame_round_trip, framed, unframe_file, unframed};
use crate::naming::{
    chosen_mime, mime_is_short, mime_or_guess, sanitize_file_name, sanitized, sanitized_name_is_safe,
    MAX_GUESSED_MIME, MAX_NAME,
};
use vstd::prelude::*;
use vstd::utf8::{decode_utf8, decode_utf8_encode_utf8, encode_utf8, valid_utf8};

verus! {

// ------------------------------------------------------------------------- key
/// The key of the relayed room that this device is in, if it is in one.
#[derive(Clone, Copy, Debug)]
pub struct RemoteKey {
    /// The key.
    pub key: Option<[u8; KEY_SIZE]>,
}

impl View for RemoteKey {
    type V = Option<Seq<u8>>;

    open spec fn view(&self) -> Option<Seq<u8>> {
        match self.key {
            Some(key) => Some(key@),
            None => None,
        }
    }
}

impl RemoteKey {
    /// No key: a device starts outside of any relayed room.
    pub fn new() -> (r: Self)
        ensures
            r@ is None,
            r.key is None,
    {
        RemoteKey { key: None }
    }
}

/// What a device shows the relay to be let into a room.
#[derive(Debug)]
pub struct RemoteKeyResult {
    /// The hash that stands for the password.
    pub auth_hash: String,
}

/// Enters a relayed room. A password is required.
pub fn remote_set_key(slot: &mut RemoteKey, password: &str, room_code: &str) -> (r: Result<
    RemoteKeyResult,
    String,
>)
    ensures
        match r {
            Ok(result) => {
                &&& password@.len() > 0
                &&& final(slot)@ == Some(remote_key_of(password@, room_code@))
                &&& final(slot)@->0.len() == KEY_SIZE
                &&& final(slot).key matches Some(key) && key@ == pbkdf2_hmac_sha256(
                    encode_utf8(password@),
                    encode_utf8(room_code@),
                    210_000,
                    32,
                )
                &&& result.auth_hash@ == hex_text(
                    sha256(encode_utf8(room_code@).push(0) + encode_utf8(password@)),
                )
                &&& result.auth_hash@ == auth_hash_of(password@, room_code@)
                &&& result.auth_hash@.len() == 64
            },
            Err(e) => {
                &&& password@.len() == 0
                &&& final(slot)@ == old(slot)@
                &&& *final(slot) == *old(slot)
                &&& e@ == "password is required"@
            },
        },
{
    if password.is_empty() {
        return Err("password is required".to_owned());
    }
    let key: [u8; KEY_SIZE] = derive_remote_key(password, room_code);
    slot.key = Some(key);
    Ok(RemoteKeyResult { auth_hash: join_auth_hash(password, room_code) })
}

/// Leaves the relayed room.
pub fn remote_clear_key(slot: &mut RemoteKey)
    ensures
        final(slot)@ is None,
        final(slot).key is None,
{
    slot.key = None;
}

/// The key of the relayed room.
pub fn current_remote_key(slot: &RemoteKey) -> (r: Result<[u8; KEY_SIZE], String>)
    ensures
        match r {
            Ok(key) => slot@ == Some(key@) && slot.key == Some(key),
            Err(e) => slot@ is None && e@ == "no remote key set"@,
        },
{
    match slot.key {
        Some(key) => Ok(key),
        None => Err("no remote key set".to_owned()),
    }
}

// -------------------------------------------------------------------- payloads
/// Whether `payload` carries `plain` under `key`: it is the base64 form of an
/// encryption of it.
pub open spec fn is_payload(payload: Seq<char>, plain: Seq<u8>, key: Seq<u8>) -> bool {
    exists|data: Seq<u8>|
        #![trigger base64_text(data)]
        payload == base64_text(data) && is_encrypted(data, plain, key)
}

/// What a payload carries, to a device with the key in `slot`.
pub open spec fn carried(slot: Option<Seq<u8>>, payload: Seq<char>) -> Result<Seq<u8>, Seq<char>> {
    match slot {
        None => Err("no remote key set"@),
        Some(key) => match base64_bytes(payload) {
            None => Err("bad payload"@),
            Some(data) => decrypted(data, key),
        },
    }
}

/// The text that a payload carries.
pub open spec fn carried_text(slot: Option<Seq<u8>>, payload: Seq<char>) -> Result<
    Seq<char>,
    Seq<char>,
> {
    match carried(slot, payload) {
        Err(e) => Err(e),
        Ok(plain) => if valid_utf8(plain) {
            Ok(decode_utf8(plain))
        } else {
            Err("invalid utf8"@)
        },
    }
}

/// The name, the media type and the contents of the file that a payload
/// carries.
pub open spec fn carried_file(slot: Option<Seq<u8>>, payload: Seq<char>) -> Result<
    (Seq<char>, Seq<char>, Seq<u8>),
    Seq<char>,
> {
    match carried(slot, payload) {
        Err(e) => Err(e),
        Ok(plain) => match unframed(plain) {
            Some(file) => Ok(file),
            None => Err("corrupt file payload"@),
        },
    }
}

/// The view of a result that holds a text or an error text.
pub open spec fn text_or_error(r: Result<String, String>) -> Result<Seq<char>, Seq<char>> {
    match r {
        Ok(text) => Ok(text@),
        Err(e) => Err(e@),
    }
}

/// Puts `plain` into a payload.
fn seal_payload(key: &[u8; KEY_SIZE], plain: &[u8]) -> (r: Result<String, String>)
    requires
        base64_len(plain@.len() + NONCE_SIZE + TAG_SIZE) <= usize::MAX,
    ensures
        match r {
            Ok(payload) => {
                &&& plain@.len() <= MAX_PLAINTEXT
                &&& is_payload(payload@, plain@, key@)
                &&& base64_bytes(payload@) matches Some(data) && is_drawn(data.take(12)) && data.skip(12)
                    == aes_gcm_seal(key@, data.take(12), plain@)
                &&& carried(Some(key@), payload@) == Ok::<Seq<u8>, Seq<char>>(plain@)
            },
            Err(e) => plain@.len() > MAX_PLAINTEXT && e@ == "encrypt: aead::Error"@,
        },
{
    match encrypt_bytes(plain, key) {
        Ok(data) => {
            proof {
                base64_round_trip(data@);
            }
            Ok(base64_encode(data.as_slice()))
        },
        Err(e) => Err(e),
    }
}

/// Takes out of a payload what it carries. The contents are shorter than the
/// payload.
fn open_payload(slot: &RemoteKey, payload: &str) -> (r: Result<Vec<u8>, String>)
    ensures
        match r {
            Ok(plain) => {
                &&& carried(slot@, payload@) == Ok::<Seq<u8>, Seq<char>>(plain@)
                &&& base64_len(plain@.len() as int) <= usize::MAX
            },
            Err(e) => carried(slot@, payload@) == Err::<Seq<u8>, Seq<char>>(e@),
        },
{
    let key: [u8; KEY_SIZE] = match current_remote_key(slot) {
        Ok(key) => key,
        Err(e) => {
            return Err(e);
        },
    };
    match read_base64(payload) {
        Some(data) => decrypt_bytes(data.as_slice(), &key),
        None => Err("bad payload".to_owned()),
    }
}

// ------------------------------------------------------------------------ text
/// Encrypts a message for the relay. It opens to the same text for every device
/// with the same key.
pub fn remote_encrypt_text(slot: &RemoteKey, text: &str) -> (r: Result<String, String>)
    requires
        slot@ is Some ==> base64_len(encode_utf8(text@).len() + NONCE_SIZE + TAG_SIZE)
            <= usize::MAX,
    ensures
        match r {
            Ok(payload) => {
                &&& slot@ matches Some(key)
                &&& encode_utf8(text@).len() <= MAX_PLAINTEXT
                &&& is_payload(payload@, encode_utf8(text@), key)
                &&& slot.key matches Some(k) && k@ == key
                &&& base64_bytes(payload@) matches Some(data) && is_drawn(data.take(12)) && data.skip(12)
                    == aes_gcm_seal(key, data.take(12), encode_utf8(text@))
                &&& carried_text(slot@, payload@) == Ok::<Seq<char>, Seq<char>>(text@)
            },
            Err(e) => match slot@ {
                None => e@ == "no remote key set"@,
                Some(_) => {
                    &&& encode_utf8(text@).len() > MAX_PLAINTEXT
                    &&& e@ == "encrypt: aead::Error"@
                },
            },
        },
{
    match current_remote_key(slot) {
        Ok(key) => {
            proof {
                utf8_round_trip(text@);
            }
            seal_payload(&key, text.as_bytes())
        },
        Err(e) => Err(e),
    }
}

/// Decrypts a message that came through the relay.
pub fn remote_decrypt_text(slot: &RemoteKey, payload: &str) -> (r: Result<String, String>)
    ensures
        text_or_error(r) == carried_text(slot@, payload@),
        r matches Ok(text) ==> {
            &&& slot.key matches Some(key)
            &&& base64_bytes(payload@) matches Some(data)
            &&& decrypted(data, key@) == Ok::<Seq<u8>, Seq<char>>(encode_utf8(text@))
        },
{
    match open_payload(slot, payload) {
        Ok(plain) => match text_strict(plain) {
            Some(text) => {
                proof {
                    decode_utf8_encode_utf8(plain@);
                }
                Ok(text)
            },
            None => Err("invalid utf8".to_owned()),
        },
        Err(e) => Err(e),
    }
}

// ----------------------------------------------------------------------- files
/// A file that was encrypted for the relay.
#[derive(Debug)]
pub struct RemoteFileResult {
    /// What is sent.
    pub payload: String,
    /// The size of the file in bytes.
    pub file_size: u64,
}

/// What a payload says of the file that it carries.
#[derive(Debug)]
pub struct RemoteFileMeta {
    /// Its name.
    pub file_name: String,
    /// Its media type.
    pub file_mime: String,
    /// Its size in bytes.
    pub file_size: u64,
}

/// The length of the payload that carries a file, from the lengths of its name,
/// its media type and its contents.
pub open spec fn payload_len(name: nat, mime: nat, size: nat) -> int {
    base64_len(4 + name + mime + size + NONCE_SIZE + TAG_SIZE)
}

/// What is promised of a file that is encrypted for the relay: the payload
/// carries it, and any device with the same key gets it back, if its name and
/// media type are short enough to be framed.
pub open spec fn is_sent_file(
    r: Result<RemoteFileResult, String>,
    slot: Option<Seq<u8>>,
    name: Seq<char>,
    mime: Seq<char>,
    bytes: Seq<u8>,
) -> bool {
    match r {
        Ok(result) => {
            &&& slot matches Some(key)
            &&& framed(name, mime, bytes).len() <= MAX_PLAINTEXT
            &&& is_payload(result.payload@, framed(name, mime, bytes), key)
            &&& base64_bytes(result.payload@) matches Some(data) && is_drawn(data.take(12))
                && data.skip(12) == aes_gcm_seal(
                key,
                data.take(12),
                framed(name, mime, bytes),
            )
            &&& carried(slot, result.payload@) == Ok::<Seq<u8>, Seq<char>>(
                framed(name, mime, bytes),
            )
            &&& encode_utf8(name).len() < 65536 && encode_utf8(mime).len() < 65536 ==> carried_file(
                slot,
                result.payload@,
            ) == Ok::<(Seq<char>, Seq<char>, Seq<u8>), Seq<char>>((name, mime, bytes))
            &&& result.file_size == bytes.len() as u64
        },
        Err(e) => match slot {
            None => e@ == "no remote key set"@,
            Some(_) => {
                &&& framed(name, mime, bytes).len() > MAX_PLAINTEXT
                &&& e@ == "encrypt: aead::Error"@
            },
        },
    }
}

/// Encrypts a picked file with the contents `bytes` for the relay.
pub fn remote_encrypt_file(slot: &RemoteKey, file: &PickedFile, bytes: &[u8]) -> (r: Result<
    RemoteFileResult,
    String,
>)
    requires
        slot@ is Some ==> payload_len(
            encode_utf8(file.file_name@).len(),
            encode_utf8(file.mime@).len(),
            bytes@.len(),
        ) <= usize::MAX,
    ensures
        is_sent_file(r, slot@, file.file_name@, file.mime@, bytes@),
        r is Ok <==> slot.key is Some && framed(file.file_name@, file.mime@, bytes@).len()
            <= MAX_PLAINTEXT,
        r matches Ok(sent) ==> {
            &&& sent.file_size == bytes@.len()
            &&& slot.key is Some
            &&& base64_bytes(sent.payload@) matches Some(data)
            &&& decrypted(data, slot.key->0@) == Ok::<Seq<u8>, Seq<char>>(
                framed(file.file_name@, file.mime@, bytes@),
            )
        },
{
    let key: [u8; KEY_SIZE] = match current_remote_key(slot) {
        Ok(key) => key,
        Err(e) => {
            return Err(e);
        },
    };
    proof {
        if encode_utf8(file.file_name@).len() < 65536 && encode_utf8(file.mime@).len() < 65536 {
            frame_round_trip(file.file_name@, file.mime@, bytes@);
        }
    }
    let framed_bytes: Vec<u8> = frame_file(file.file_name.as_str(), file.mime.as_str(), bytes);
    match seal_payload(&key, framed_bytes.as_slice()) {
        Ok(payload) => Ok(RemoteFileResult { payload, file_size: bytes.len() as u64 }),
        Err(e) => Err(e),
    }
}

/// Encrypts a file whose contents are given in base64 for the relay.
pub fn remote_encrypt_bytes(
    slot: &RemoteKey,
    file_name: &str,
    mime: String,
    data_base64: &str,
) -> (r: Result<RemoteFileResult, String>)
    requires
        slot@ is Some ==> (base64_bytes(data_base64@) matches Some(bytes) ==> payload_len(
            4 * MAX_NAME as nat,
            encode_utf8(mime@).len() + MAX_GUESSED_MIME as nat,
            bytes.len(),
        ) <= usize::MAX),
    ensures
        match base64_bytes(data_base64@) {
            Some(bytes) => is_sent_file(
                r,
                slot@,
                sanitized(file_name@),
                chosen_mime(mime@, sanitized(file_name@)),
                bytes,
            ),
            None => r matches Err(e) && e@ == (if slot@ is None {
                "no remote key set"@
            } else {
                "bad data"@
            }),
        },
        r is Ok <==> slot.key is Some && (base64_bytes(data_base64@) matches Some(bytes) && framed(
            sanitized(file_name@),
            chosen_mime(mime@, sanitized(file_name@)),
            bytes,
        ).len() <= MAX_PLAINTEXT),
        r matches Ok(sent) ==> {
            &&& slot.key is Some
            &&& base64_bytes(data_base64@) matches Some(bytes)
            &&& sent.file_size == bytes.len()
            &&& base64_bytes(sent.payload@) matches Some(data)
            &&& decrypted(data, slot.key->0@) == Ok::<Seq<u8>, Seq<char>>(
                framed(sanitized(file_name@), chosen_mime(mime@, sanitized(file_name@)), bytes),
            )
        },
{
    match current_remote_key(slot) {
        Ok(_) => {},
        Err(e) => {
            return Err(e);
        },
    }
    let bytes: Vec<u8> = match read_base64(data_base64) {
        Some(bytes) => bytes,
        None => {
            return Err("bad data".to_owned());
        },
    };
    proof {
        sanitized_name_is_safe(file_name@);
        mime_is_short(sanitized(file_name@));
    }
    let file_name: String = sanitize_file_name(file_name);
    let mime: String = mime_or_guess(mime, file_name.as_str());
    let file = PickedFile { file_name, mime };
    remote_encrypt_file(slot, &file, bytes.as_slice())
}

/// What a payload says of the file that it carries.
pub fn remote_file_meta(slot: &RemoteKey, payload: &str) -> (r: Result<RemoteFileMeta, String>)
    ensures
        match r {
            Ok(meta) => {
                &&& carried_file(slot@, payload@) matches Ok((name, mime, bytes))
                &&& meta.file_name@ == name
                &&& meta.file_mime@ == mime
                &&& meta.file_size == bytes.len() as u64
            },
            Err(e) => carried_file(slot@, payload@) == Err::<
                (Seq<char>, Seq<char>, Seq<u8>),
                Seq<char>,
            >(e@),
        },
        r is Ok ==> {
            &&& slot.key matches Some(key)
            &&& base64_bytes(payload@) matches Some(data)
            &&& decrypted(data, key@) matches Ok(plain)
            &&& unframed(plain) matches Some((name, mime, bytes))
            &&& r->Ok_0.file_name@ == name
            &&& r->Ok_0.file_mime@ == mime
            &&& r->Ok_0.file_size == bytes.len()
        },
{
    match open_payload(slot, payload) {
        Ok(plain) => match unframe_file(plain.as_slice()) {
            Ok((name, mime, bytes)) => Ok(
                RemoteFileMeta { file_name: name, file_mime: mime, file_size: bytes.len() as u64 },
            ),
            Err(e) => Err(e),
        },
        Err(e) => Err(e),
    }
}

/// The contents of the file that a payload carries.
pub fn remote_decrypt_file(slot: &RemoteKey, payload: &str) -> (r: Result<Vec<u8>, String>)
    ensures
        match r {
            Ok(contents) => {
                &&& carried_file(slot@, payload@) matches Ok((_, _, bytes))
                &&& contents@ == bytes
            },
            Err(e) => carried_file(slot@, payload@) == Err::<
                (Seq<char>, Seq<char>, Seq<u8>),
                Seq<char>,
            >(e@),
        },
        r is Ok ==> {
            &&& slot.key matches Some(key)
            &&& base64_bytes(payload@) matches Some(data)
            &&& decrypted(data, key@) matches Ok(plain)
            &&& unframed(plain) matches Some((name, mime, bytes))
            &&& r->Ok_0@ == bytes
        },
{
    match open_payload(slot, payload) {
        Ok(plain) => match unframe_file(plain.as_slice()) {
            Ok((_, _, bytes)) => {
                let mut contents: Vec<u8> = Vec::new();
                contents.extend_from_slice(bytes);
                assert(contents@ == bytes@);
                Ok(contents)
            },
            Err(e) => Err(e),
        },
        Err(e) => Err(e),
    }
}

/// The file that a payload carries, in plain form.
pub fn remote_decrypt_base64(slot: &RemoteKey, payload: &str) -> (r: Result<
    LocalFileResult,
    String,
>)
    ensures
        local_or_error(r) == (match carried_file(slot@, payload@) {
            Ok((name, mime, bytes)) => Ok(local_file(name, mime, bytes)),
            Err(e) => Err(e),
        }),
        r matches Ok(file) ==> {
            &&& carried_file(slot@, payload@) matches Ok((name, mime, bytes))
            &&& file.file_name@ == name
            &&& file.file_mime@ == mime
            &&& base64_bytes(file.base64@) == Some(bytes)
        },
        r is Ok ==> {
            &&& slot.key matches Some(key)
            &&& base64_bytes(payload@) matches Some(data)
            &&& decrypted(data, key@) matches Ok(plain)
            &&& unframed(plain) matches Some((name, mime, bytes))
            &&& r->Ok_0.file_name@ == name
            &&& r->Ok_0.file_mime@ == mime
            &&& base64_bytes(r->Ok_0.base64@) == Some(bytes)
        },
{
    assert forall|b: Seq<u8>| base64_bytes(#[trigger] base64_text(b)) == Some(b) by {
        base64_round_trip(b);
    }
    match open_payload(slot, payload) {
        Ok(plain) => match unframe_file(plain.as_slice()) {
            Ok((name, mime, bytes)) => Ok(
                LocalFileResult { file_name: name, file_mime: mime, base64: base64_encode(bytes) },
            ),
            Err(e) => Err(e),
        },
        Err(e) => Err(e),
    }
}

/// A payload carries what its ciphertext opens to, and all of it.
pub proof fn payload_is_opened_whole(key: Seq<u8>, data: Seq<u8>, plain: Seq<u8>)
    requires
        decrypted(data, key) == Ok::<Seq<u8>, Seq<char>>(plain),
    ensures
        carried(Some(key), base64_text(data)) == Ok::<Seq<u8>, Seq<char>>(plain),
{
    base64_round_trip(data);
}

/// A text that is sent through the relay comes back whole, whatever its length.
pub proof fn relayed_text_comes_back(key: Seq<u8>, data: Seq<u8>, text: Seq<char>)
    requires
        decrypted(data, key) == Ok::<Seq<u8>, Seq<char>>(encode_utf8(text)),
    ensures
        carried_text(Some(key), base64_text(data)) == Ok::<Seq<char>, Seq<char>>(text),
{
    payload_is_opened_whole(key, data, encode_utf8(text));
    utf8_round_trip(text);
}

/// A file that is sent through the relay comes back with its name, its media type
/// and its whole contents, whatever their size; and what is shown of it decodes
/// to these contents.
pub proof fn relayed_file_comes_back(
    key: Seq<u8>,
    data: Seq<u8>,
    name: Seq<char>,
    mime: Seq<char>,
    bytes: Seq<u8>,
)
    requires
        encode_utf8(name).len() < 65536,
        encode_utf8(mime).len() < 65536,
        decrypted(data, key) == Ok::<Seq<u8>, Seq<char>>(framed(name, mime, bytes)),
    ensures
        carried_file(Some(key), base64_text(data)) == Ok::<
            (Seq<char>, Seq<char>, Seq<u8>),
            Seq<char>,
        >((name, mime, bytes)),
        base64_bytes(local_file(name, mime, bytes).base64) == Some(bytes),
{
    payload_is_opened_whole(key, data, framed(name, mime, bytes));
    frame_round_trip(name, mime, bytes);
    base64_round_trip(bytes);
}

/// Two devices that enter a room with the same password and room code read what
/// the other sends: a payload carries the same to both.
pub proof fn same_password_same_contents(
    password: Seq<char>,
    room_code: Seq<char>,
    a: Option<Seq<u8>>,
    b: Option<Seq<u8>>,
    payload: Seq<char>,
)
    requires
        a == Some(remote_key_of(password, room_code)),
        b == Some(remote_key_of(password, room_code)),
    ensures
        carried(a, payload) == carried(b, payload),
        carried_text(a, payload) == carried_text(b, payload),
        carried_file(a, payload) == carried_file(b, payload),
{
}

/// A device without a key learns nothing from any payload, and says so.
pub proof fn nothing_opens_without_a_key(payload: Seq<char>)
    ensures
        carried_text(None, payload) == Err::<Seq<char>, Seq<char>>("no remote key set"@),
        carried_file(None, payload) == Err::<(Seq<char>, Seq<char>, Seq<u8>), Seq<char>>(
            "no remote key set"@,
        ),
{
}

} // verus!
