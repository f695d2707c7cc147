//! Files of a hosted room: what the host shares, keeps encrypted and reads back,
//! and what a device does with a file that it has downloaded.
use crate::crypto::{
    aes_gcm_seal, decrypt_bytes, decrypted, encrypt_bytes, is_drawn, is_encrypted, sha256, KEY_SIZE,
    MAX_PLAINTEXT, NONCE_SIZE, TAG_SIZE,
};
use crate::encoding::{
    base64_bytes, base64_encode, base64_len, base64_round_trip, base64_text, hex_bytes, hex_decode,
    hex_round_trip, hex_text, read_base64,
};
use crate::messages::{
    file_message, find_file, is_issued, new_id_is_fresh, next_plan, planned_file, reserve_file, text_option,
    FilePlan, FileView, LinkState, PlanView, SharedFile, StateView,
};
use crate::naming::{
    chosen_mime, is_stored_name, mime_of, mime_or_guess, sanitize_file_name, sanitized,
    sanitized_name_is_safe, simple_mime,
};
use crate::room::{get_encryption_key, given_or, text_or, RoomState, RoomView};
use crate::text::decimal;
use vstd::prelude::*;
use vstd::utf8::encode_utf8;

verus! {

// ----------------------------------------------------------------- picked files
/// A file that was picked on this device, under the name it will be sent with.
#[derive(Debug)]
pub struct PickedFile {
    /// Its name.
    pub file_name: String,
    /// Its media type.
    pub mime: String,
}

/// The name of a file that was picked: that of its path, made safe.
pub open spec fn picked_name(name: Option<Seq<char>>) -> Seq<char> {
    sanitized(given_or(name, "file.bin"@))
}

/// Takes a path that was picked, by the last part of it. Only files are taken.
pub fn pick_file(is_file: bool, name: Option<String>) -> (r: Result<PickedFile, String>)
    ensures
        match r {
            Ok(file) => {
                &&& is_file
                &&& file.file_name@ == picked_name(text_option(name))
                &&& file.file_name@ == sanitized(
                    match name {
                        Some(name) => name@,
                        None => "file.bin"@,
                    },
                )
                &&& is_stored_name(file.file_name@)
                &&& file.mime@ == mime_of(file.file_name@)
            },
            Err(e) => !is_file && e@ == "selected path is not a file"@,
        },
{
    if !is_file {
        return Err("selected path is not a file".to_owned());
    }
    let own_name: String = text_or(&name, "file.bin");
    proof {
        sanitized_name_is_safe(own_name@);
    }
    let file_name: String = sanitize_file_name(own_name.as_str());
    let mime: String = simple_mime(file_name.as_str());
    Ok(PickedFile { file_name, mime })
}

/// A file in plain form, for the user interface.
#[derive(Debug)]
pub struct LocalFileResult {
    /// Its name.
    pub file_name: String,
    /// Its media type.
    pub file_mime: String,
    /// Its contents in base64.
    pub base64: String,
}

/// A file in plain form as a mathematical value.
pub struct LocalFileView {
    pub file_name: Seq<char>,
    pub file_mime: Seq<char>,
    pub base64: Seq<char>,
}

impl View for LocalFileResult {
    type V = LocalFileView;

    open spec fn view(&self) -> LocalFileView {
        LocalFileView {
            file_name: self.file_name@,
            file_mime: self.file_mime@,
            base64: self.base64@,
        }
    }
}

/// The view of a result that holds a file in plain form or an error text.
pub open spec fn local_or_error(r: Result<LocalFileResult, String>) -> Result<
    LocalFileView,
    Seq<char>,
> {
    match r {
        Ok(file) => Ok(file@),
        Err(e) => Err(e@),
    }
}

/// A file with the contents `bytes` in plain form.
pub open spec fn local_file(
    file_name: Seq<char>,
    file_mime: Seq<char>,
    bytes: Seq<u8>,
) -> LocalFileView {
    LocalFileView { file_name, file_mime, base64: base64_text(bytes) }
}

/// The plain form of a file holds its whole contents, whatever their size, under
/// its own name and media type.
pub proof fn plain_form_is_whole(file_name: Seq<char>, file_mime: Seq<char>, bytes: Seq<u8>)
    ensures
        base64_bytes(local_file(file_name, file_mime, bytes).base64) == Some(bytes),
        local_file(file_name, file_mime, bytes).file_name == file_name,
        local_file(file_name, file_mime, bytes).file_mime == file_mime,
{
    base64_round_trip(bytes);
}

/// A picked file with the contents `bytes` in plain form.
pub fn read_file_base64(file: PickedFile, bytes: &[u8]) -> (r: LocalFileResult)
    requires
        base64_len(bytes@.len() as int) <= usize::MAX,
    ensures
        r@ == local_file(file.file_name@, file.mime@, bytes@),
        r.file_name == file.file_name,
        r.file_mime == file.mime,
        base64_bytes(r.base64@) == Some(bytes@),
{
    proof {
        base64_round_trip(bytes@);
    }
    LocalFileResult {
        file_name: file.file_name,
        file_mime: file.mime,
        base64: base64_encode(bytes),
    }
}

// ---------------------------------------------------------------- shared files
/// Encrypts a file for keeping in the room.
pub fn seal_file(room: &RoomState, plaintext: &[u8]) -> (r: Result<Vec<u8>, String>)
    requires
        plaintext@.len() + NONCE_SIZE + TAG_SIZE <= usize::MAX,
    ensures
        match r {
            Ok(data) => {
                &&& plaintext@.len() <= MAX_PLAINTEXT
                &&& is_encrypted(data@, plaintext@, room@.key())
                &&& data@.len() == plaintext@.len() + NONCE_SIZE + TAG_SIZE
                &&& decrypted(data@, room@.key()) == Ok::<Seq<u8>, Seq<char>>(plaintext@)
                &&& is_drawn(data@.take(12))
                &&& data@.skip(12) == aes_gcm_seal(
                    sha256(encode_utf8(room.room_code@)),
                    data@.take(12),
                    plaintext@,
                )
            },
            Err(e) => plaintext@.len() > MAX_PLAINTEXT && e@ == "encrypt: aead::Error"@,
        },
{
    let key: [u8; KEY_SIZE] = get_encryption_key(room);
    encrypt_bytes(plaintext, &key)
}

/// Starts sharing a picked file: encrypts it, and gives it its identifier and
/// its place. What is returned beside the plan is to be stored there.
pub fn share_file(
    room: &RoomState,
    state: &mut LinkState,
    file: PickedFile,
    file_size: u64,
    plaintext: &[u8],
    device_name: String,
) -> (r: Result<(FilePlan, Vec<u8>), String>)
    requires
        plaintext@.len() + NONCE_SIZE + TAG_SIZE <= usize::MAX,
        plaintext@.len() <= MAX_PLAINTEXT ==> old(state).next_id < u64::MAX,
    ensures
        match r {
            Ok((plan, data)) => {
                &&& plaintext@.len() <= MAX_PLAINTEXT
                &&& plan@ == next_plan(
                    old(state)@,
                    file.file_name@,
                    file.mime@,
                    file_size,
                    device_name@,
                )
                &&& plan.file_name@ == file.file_name@
                &&& plan.mime@ == file.mime@
                &&& plan.file_size == file_size
                &&& plan.device_name@ == device_name@
                &&& plan.file_id@ == "file"@.push('-') + decimal((old(state).next_id + 1) as nat)
                &&& plan.stored_name@ == plan.file_id@.push('-') + plan.file_name@
                &&& final(state).next_id == old(state).next_id + 1
                &&& final(state).messages@ == old(state).messages@
                &&& final(state).files@ == old(state).files@
                &&& is_drawn(data@.take(12))
                &&& data@.skip(12) == aes_gcm_seal(
                    sha256(encode_utf8(room.room_code@)),
                    data@.take(12),
                    plaintext@,
                )
                &&& is_encrypted(data@, plaintext@, room@.key())
                &&& decrypted(data@, room@.key()) == Ok::<Seq<u8>, Seq<char>>(plaintext@)
                &&& data@.len() == plaintext@.len() + NONCE_SIZE + TAG_SIZE
                &&& is_stored_name(file.file_name@) ==> planned_file(plan@).kept_as(plan@.file_id)
                &&& is_issued("file"@, plan@.file_id, final(state)@.next_id)
                &&& final(state)@ == old(state)@.with_id()
            },
            Err(e) => {
                &&& plaintext@.len() > MAX_PLAINTEXT
                &&& e@ == "encrypt: aead::Error"@
                &&& final(state)@ == old(state)@
                &&& *final(state) == *old(state)
            },
        },
        old(state)@.wf() ==> final(state)@.wf(),
{
    match seal_file(room, plaintext) {
        Ok(data) => {
            let plan: FilePlan = reserve_file(
                state,
                file.file_name,
                file.mime,
                file_size,
                device_name,
            );
            Ok((plan, data))
        },
        Err(e) => Err(e),
    }
}

/// Starts sharing a file whose contents are given in base64.
pub fn share_file_bytes(
    room: &RoomState,
    state: &mut LinkState,
    file_name: &str,
    mime: String,
    data_base64: &str,
    device_name: String,
) -> (r: Result<(FilePlan, Vec<u8>), String>)
    requires
        base64_bytes(data_base64@) matches Some(bytes) ==> {
            &&& bytes.len() + NONCE_SIZE + TAG_SIZE <= usize::MAX
            &&& bytes.len() <= MAX_PLAINTEXT ==> old(state).next_id < u64::MAX
        },
    ensures
        match r {
            Ok((plan, data)) => {
                &&& base64_bytes(data_base64@) matches Some(bytes)
                &&& bytes.len() <= MAX_PLAINTEXT
                &&& plan@ == next_plan(
                    old(state)@,
                    sanitized(file_name@),
                    chosen_mime(mime@, sanitized(file_name@)),
                    bytes.len() as u64,
                    device_name@,
                )
                &&& plan.file_name@ == sanitized(file_name@)
                &&& plan.mime@ == chosen_mime(mime@, sanitized(file_name@))
                &&& plan.file_size == bytes.len()
                &&& plan.device_name@ == device_name@
                &&& plan.file_id@ == "file"@.push('-') + decimal((old(state).next_id + 1) as nat)
                &&& plan.stored_name@ == plan.file_id@.push('-') + plan.file_name@
                &&& final(state).next_id == old(state).next_id + 1
                &&& final(state).messages@ == old(state).messages@
                &&& final(state).files@ == old(state).files@
                &&& is_drawn(data@.take(12))
                &&& data@.skip(12) == aes_gcm_seal(
                    sha256(encode_utf8(room.room_code@)),
                    data@.take(12),
                    bytes,
                )
                &&& is_encrypted(data@, bytes, room@.key())
                &&& decrypted(data@, room@.key()) == Ok::<Seq<u8>, Seq<char>>(bytes)
                &&& data@.len() == bytes.len() + NONCE_SIZE + TAG_SIZE
                &&& planned_file(plan@).kept_as(plan@.file_id)
                &&& is_issued("file"@, plan@.file_id, final(state)@.next_id)
                &&& final(state)@ == old(state)@.with_id()
            },
            Err(e) => {
                &&& match base64_bytes(data_base64@) {
                    Some(bytes) => bytes.len() > MAX_PLAINTEXT && e@ == "encrypt: aead::Error"@,
                    None => e@ == "bad data"@,
                }
                &&& final(state)@ == old(state)@
                &&& *final(state) == *old(state)
            },
        },
        old(state)@.wf() ==> final(state)@.wf(),
{
    match read_base64(data_base64) {
        Some(bytes) => {
            proof {
                sanitized_name_is_safe(file_name@);
            }
            let file_name: String = sanitize_file_name(file_name);
            let mime: String = mime_or_guess(mime, file_name.as_str());
            let file_size: u64 = bytes.len() as u64;
            let file = PickedFile { file_name, mime };
            share_file(room, state, file, file_size, bytes.as_slice(), device_name)
        },
        None => Err("bad data".to_owned()),
    }
}

/// Looks up a file that the host keeps.
pub fn host_file(state: &LinkState, file_id: &str) -> (r: Result<SharedFile, String>)
    ensures
        match r {
            Ok(file) => state@.files.contains_key(file_id@) && file@ == state@.files[file_id@],
            Err(e) => !state@.files.contains_key(file_id@) && e@ == "file not found"@,
        },
        match r {
            Ok(file) => state.files@.contains_key(file_id@) && file == state.files@[file_id@],
            Err(_) => !state.files@.contains_key(file_id@),
        },
{
    match find_file(state, file_id) {
        Some(file) => Ok(file),
        None => Err("file not found".to_owned()),
    }
}

/// Decrypts the stored form `cipher` of a file that the host keeps.
pub fn host_file_bytes(room: &RoomState, cipher: &[u8]) -> (r: Result<Vec<u8>, String>)
    ensures
        match r {
            Ok(plain) => {
                &&& decrypted(cipher@, room@.key()) == Ok::<Seq<u8>, Seq<char>>(plain@)
                &&& decrypted(cipher@, sha256(encode_utf8(room.room_code@))) == Ok::<
                    Seq<u8>,
                    Seq<char>,
                >(plain@)
                &&& plain@.len() + NONCE_SIZE + TAG_SIZE == cipher@.len()
            },
            Err(e) => decrypted(cipher@, room@.key()) == Err::<Seq<u8>, Seq<char>>(e@),
        },
{
    let key: [u8; KEY_SIZE] = get_encryption_key(room);
    decrypt_bytes(cipher, &key)
}

/// The plain form of a file that the host keeps, from its stored form.
pub open spec fn host_opened(room: RoomView, shared: FileView, cipher: Seq<u8>) -> Result<
    LocalFileView,
    Seq<char>,
> {
    match decrypted(cipher, room.key()) {
        Ok(plain) => Ok(local_file(shared.file_name, shared.mime, plain)),
        Err(e) => Err(e),
    }
}

/// The plain form of a file that the host keeps, from its stored form.
pub fn host_file_base64(room: &RoomState, shared: &SharedFile, cipher: &[u8]) -> (r: Result<
    LocalFileResult,
    String,
>)
    requires
        base64_len(cipher@.len() as int) <= usize::MAX,
    ensures
        local_or_error(r) == host_opened(room@, shared@, cipher@),
        match r {
            Ok(file) => {
                &&& file.file_name == shared.file_name
                &&& file.file_mime == shared.mime
                &&& decrypted(cipher@, sha256(encode_utf8(room.room_code@))) matches Ok(plain)
                &&& base64_bytes(file.base64@) == Some(plain)
            },
            Err(e) => decrypted(cipher@, sha256(encode_utf8(room.room_code@))) == Err::<
                Seq<u8>,
                Seq<char>,
            >(e@),
        },
{
    assert forall|b: Seq<u8>| base64_bytes(#[trigger] base64_text(b)) == Some(b) by {
        base64_round_trip(b);
    }
    match host_file_bytes(room, cipher) {
        Ok(plain) => Ok(
            LocalFileResult {
                file_name: shared.file_name.clone(),
                file_mime: shared.mime.clone(),
                base64: base64_encode(plain.as_slice()),
            },
        ),
        Err(e) => Err(e),
    }
}

/// A file that was recorded in a conversation is found there, and what was
/// stored for it opens to what was shared, under the name and media type that
/// it was shared with.
pub proof fn shared_file_reads_back(
    room: RoomView,
    s: StateView,
    plan: PlanView,
    data: Seq<u8>,
    plain: Seq<u8>,
)
    requires
        decrypted(data, room.key()) == Ok::<Seq<u8>, Seq<char>>(plain),
    ensures
        ({
            let after = s.with_file(plan.file_id, planned_file(plan));
            &&& after.files.contains_key(plan.file_id)
            &&& after.files[plan.file_id].stored_name == plan.stored_name
            &&& host_opened(room, after.files[plan.file_id], data) == Ok::<
                LocalFileView,
                Seq<char>,
            >(local_file(plan.file_name, plan.mime, plain))
            &&& host_opened(room, after.files[plan.file_id], data) matches Ok(file)
                && base64_bytes(file.base64) == Some(plain) && file.file_name == plan.file_name
                && file.file_mime == plan.mime
        }),
{
    base64_round_trip(plain);
}

/// The size that a shared file is announced with is that of its contents: of what
/// its stored form decrypts to.
pub proof fn announced_size_is_that_of_the_contents(
    room: RoomView,
    s: StateView,
    plan: PlanView,
    data: Seq<u8>,
    plain: Seq<u8>,
    verb: Seq<char>,
    created_at: u64,
)
    requires
        decrypted(data, room.key()) == Ok::<Seq<u8>, Seq<char>>(plain),
        plan.file_size == plain.len(),
    ensures
        file_message(s, plan, verb, created_at).file_size matches Some(size) && size
            == plain.len(),
        host_opened(room, planned_file(plan), data) matches Ok(file) && (base64_bytes(file.base64)
            matches Some(bytes) && file_message(s, plan, verb, created_at).file_size == Some(
            bytes.len() as u64,
        )),
{
    base64_round_trip(plain);
}

/// A file that is shared takes the place of no other: its identifier is new,
/// and every file that was recorded stays as it is.
pub proof fn sharing_keeps_other_files(
    s: StateView,
    id: Seq<char>,
    file_name: Seq<char>,
    mime: Seq<char>,
    file_size: u64,
    device_name: Seq<char>,
)
    requires
        s.wf(),
        s.files.contains_key(id),
    ensures
        ({
            let plan = next_plan(s, file_name, mime, file_size, device_name);
            let after = s.with_id().with_file(plan.file_id, planned_file(plan));
            &&& plan.file_id != id
            &&& after.files.contains_key(id)
            &&& after.files[id] == s.files[id]
        }),
{
    new_id_is_fresh("file"@, id, s.next_id);
}

// ------------------------------------------------------------- downloaded files
/// What a download in base64 opens to under a key in hexadecimal.
pub open spec fn lan_opened(cipher_base64: Seq<char>, key_hex: Seq<char>) -> Result<
    Seq<u8>,
    Seq<char>,
> {
    match base64_bytes(cipher_base64) {
        None => Err("bad data"@),
        Some(cipher) => match hex_bytes(key_hex) {
            None => Err("bad key"@),
            Some(key) => if key.len() != KEY_SIZE {
                Err("bad key length"@)
            } else {
                decrypted(cipher, key)
            },
        },
    }
}

fn key_from(bytes: &Vec<u8>) -> (r: [u8; KEY_SIZE])
    requires
        bytes@.len() == KEY_SIZE,
    ensures
        r@ == bytes@,
{
    let mut key: [u8; KEY_SIZE] = [0u8; KEY_SIZE];
    let mut i: usize = 0;
    while i < KEY_SIZE
        invariant
            i <= KEY_SIZE,
            bytes@.len() == KEY_SIZE,
            forall|j: int| 0 <= j < i ==> key@[j] == #[trigger] bytes@[j],
        decreases KEY_SIZE - i,
    {
        key[i] = bytes[i];
        i = i + 1;
    }
    assert(key@ == bytes@);
    key
}

/// Decrypts a download in base64 under the key that came with it. The contents
/// are shorter than what was downloaded.
pub fn open_local_download(cipher_base64: &str, key_hex: &str) -> (r: Result<Vec<u8>, String>)
    ensures
        match r {
            Ok(plain) => {
                &&& lan_opened(cipher_base64@, key_hex@) == Ok::<Seq<u8>, Seq<char>>(plain@)
                &&& base64_bytes(cipher_base64@) matches Some(cipher) && (hex_bytes(key_hex@)
                    matches Some(key) && key.len() == 32 && decrypted(cipher, key) == Ok::<
                    Seq<u8>,
                    Seq<char>,
                >(plain@))
                &&& base64_len(plain@.len() as int) <= usize::MAX
            },
            Err(e) => lan_opened(cipher_base64@, key_hex@) == Err::<Seq<u8>, Seq<char>>(e@),
        },
{
    let cipher: Vec<u8> = match read_base64(cipher_base64) {
        Some(bytes) => bytes,
        None => {
            return Err("bad data".to_owned());
        },
    };
    let key_vec: Vec<u8> = match hex_decode(key_hex) {
        Ok(bytes) => bytes,
        Err(_) => {
            return Err("bad key".to_owned());
        },
    };
    if key_vec.len() != KEY_SIZE {
        return Err("bad key length".to_owned());
    }
    let key: [u8; KEY_SIZE] = key_from(&key_vec);
    decrypt_bytes(cipher.as_slice(), &key)
}

/// The plain form of a downloaded file, under the name `file_name` made safe.
pub fn lan_decrypt_base64(cipher_base64: &str, key_hex: &str, file_name: &str) -> (r: Result<
    LocalFileResult,
    String,
>)
    ensures
        local_or_error(r) == (match lan_opened(cipher_base64@, key_hex@) {
            Ok(plain) => Ok(
                local_file(sanitized(file_name@), mime_of(sanitized(file_name@)), plain),
            ),
            Err(e) => Err(e),
        }),
        match r {
            Ok(file) => {
                &&& lan_opened(cipher_base64@, key_hex@) matches Ok(plain)
                &&& base64_bytes(file.base64@) == Some(plain)
                &&& file.file_name@ == sanitized(file_name@)
                &&& file.file_mime@ == mime_of(file.file_name@)
            },
            Err(e) => lan_opened(cipher_base64@, key_hex@) == Err::<Seq<u8>, Seq<char>>(e@),
        },
{
    let plain: Vec<u8> = match open_local_download(cipher_base64, key_hex) {
        Ok(plain) => plain,
        Err(e) => {
            return Err(e);
        },
    };
    proof {
        base64_round_trip(plain@);
    }
    let name: String = sanitize_file_name(file_name);
    let mime: String = simple_mime(name.as_str());
    Ok(LocalFileResult { file_name: name, file_mime: mime, base64: base64_encode(plain.as_slice()) })
}

/// A download opens only where it is base64, the key is hexadecimal and has 32
/// bytes, and the ciphertext opens under it; what is wrong is said.
pub proof fn bad_download_is_refused(cipher_base64: Seq<char>, key_hex: Seq<char>)
    ensures
        base64_bytes(cipher_base64) is None ==> lan_opened(cipher_base64, key_hex) == Err::<
            Seq<u8>,
            Seq<char>,
        >("bad data"@),
        base64_bytes(cipher_base64) is Some && hex_bytes(key_hex) is None ==> lan_opened(
            cipher_base64,
            key_hex,
        ) == Err::<Seq<u8>, Seq<char>>("bad key"@),
        base64_bytes(cipher_base64) is Some && (hex_bytes(key_hex) matches Some(key) && key.len()
            != 32) ==> lan_opened(cipher_base64, key_hex) == Err::<Seq<u8>, Seq<char>>(
            "bad key length"@,
        ),
{
}

/// A device that downloads the stored form of a file opens it with the key in
/// hexadecimal, and gets what was shared.
pub proof fn download_opens(key: Seq<u8>, data: Seq<u8>, plain: Seq<u8>)
    requires
        key.len() == KEY_SIZE,
        decrypted(data, key) == Ok::<Seq<u8>, Seq<char>>(plain),
    ensures
        lan_opened(base64_text(data), hex_text(key)) == Ok::<Seq<u8>, Seq<char>>(plain),
{
    base64_round_trip(data);
    hex_round_trip(key);
}

} // verus!
