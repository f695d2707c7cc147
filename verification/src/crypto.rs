//! Keys, hashes and authenticated encryption.
//!
//! Content is encrypted with AES-256-GCM under a fresh random nonce, and is
//! stored and sent as the nonce followed by the ciphertext and its tag.
use crate::encoding::{hex_encode, hex_text, utf8_round_trip};
use aes_gcm::aead::{Aead, KeyInit};
use rand::Rng;
use sha2::Digest;
use vstd::prelude::*;
use vstd::utf8::{decode_utf8, encode_scalar, encode_utf8, valid_utf8};

verus! {

/// The length of a key in bytes.
pub const KEY_SIZE: usize = 32;

/// The length of a nonce in bytes.
pub const NONCE_SIZE: usize = 12;

/// The length of the authentication tag that ends a ciphertext, in bytes.
pub const TAG_SIZE: usize = 16;

/// The longest plaintext that is encrypted, in bytes.
pub const MAX_PLAINTEXT: u64 = 0x10_0000_0000;

/// How often the password is hashed to derive the key of a relayed room.
pub const PBKDF2_ROUNDS: u32 = 210_000;

/// The error of an authenticated cipher.
#[verifier::external_type_specification]
#[verifier::external_body]
pub struct ExAeadError(aes_gcm::Error);

/// The view of a result that holds bytes or an error text.
pub open spec fn bytes_or_error(r: Result<Vec<u8>, String>) -> Result<Seq<u8>, Seq<char>> {
    match r {
        Ok(bytes) => Ok(bytes@),
        Err(e) => Err(e@),
    }
}

// ----------------------------------------------------------------- randomness
/// `Rng::gen` on the thread's generator gives some byte. Which one is left to
/// chance.
#[verifier::external_body]
fn random_byte() -> (r: u8) {
    rand::thread_rng().gen()
}

/// `Rng::gen_range` on the thread's generator gives some number below `bound`.
/// It panics on an empty range.
#[verifier::external_body]
fn random_below(bound: usize) -> (r: usize)
    requires
        bound > 0,
    ensures
        r < bound,
{
    rand::thread_rng().gen_range(0..bound)
}

/// Whether `b` is a byte that the generator has given.
pub closed spec fn is_drawn_byte(b: u8) -> bool {
    call_ensures(random_byte, (), b)
}

/// Whether the generator has given all of `bytes`.
pub open spec fn is_drawn(bytes: Seq<u8>) -> bool {
    forall|i: int| 0 <= i < bytes.len() ==> is_drawn_byte(#[trigger] bytes[i])
}

/// Whether `n` is a number below `bound` that the generator has given.
pub closed spec fn is_drawn_below(bound: usize, n: usize) -> bool {
    n < bound && call_ensures(random_below, (bound,), n)
}

/// Draws a number below `bound`.
pub(crate) fn draw_below(bound: usize) -> (r: usize)
    requires
        bound > 0,
    ensures
        is_drawn_below(bound, r),
        r < bound,
{
    random_below(bound)
}

/// A token of 32 random bytes, in hexadecimal.
pub fn generate_secure_token() -> (r: String)
    ensures
        exists|bytes: Seq<u8>|
            bytes.len() == 32 && is_drawn(bytes) && r@ == #[trigger] hex_text(bytes),
        r@.len() == 64,
{
    let mut bytes: [u8; 32] = [0u8; 32];
    let mut i: usize = 0;
    while i < 32
        invariant
            i <= 32,
            forall|j: int| 0 <= j < i ==> is_drawn_byte(#[trigger] bytes@[j]),
        decreases 32 - i,
    {
        bytes[i] = random_byte();
        i = i + 1;
    }
    assert(is_drawn(bytes@));
    token_text(&bytes)
}

/// The token that stands for the bytes `bytes`.
pub fn token_text(bytes: &[u8; 32]) -> (r: String)
    ensures
        r@ == hex_text(bytes@),
{
    hex_encode(bytes)
}

// ------------------------------------------------------------ hashes and keys
/// The SHA-256 hash of `data`.
pub uninterp spec fn sha256(data: Seq<u8>) -> Seq<u8>;

/// `Sha256::digest` hashes a whole message to 32 bytes.
#[verifier::external_body]
fn sha256_digest(data: &[u8]) -> (r: [u8; 32])
    ensures
        r@ == sha256(data@),
{
    sha2::Sha256::digest(data).into()
}

/// The first `len` bytes of PBKDF2 with HMAC-SHA-256.
pub uninterp spec fn pbkdf2_hmac_sha256(
    password: Seq<u8>,
    salt: Seq<u8>,
    rounds: u32,
    len: nat,
) -> Seq<u8>;

/// `pbkdf2_hmac::<Sha256>` fills the key with the derived bytes.
#[verifier::external_body]
fn pbkdf2_key(password: &[u8], salt: &[u8], rounds: u32) -> (r: [u8; 32])
    ensures
        r@ == pbkdf2_hmac_sha256(password@, salt@, rounds, 32),
{
    let mut key = [0u8; 32];
    pbkdf2::pbkdf2_hmac::<sha2::Sha256>(password, salt, rounds, &mut key);
    key
}

/// The key that `token` stands for: its hash.
pub open spec fn key_of(token: Seq<char>) -> Seq<u8> {
    sha256(encode_utf8(token))
}

/// Derives the key that `token` stands for.
pub fn derive_key(token: &str) -> (r: [u8; KEY_SIZE])
    ensures
        r@ == key_of(token@),
        r@ == sha256(encode_utf8(token@)),
{
    sha256_digest(token.as_bytes())
}

/// The key of a relayed room: derived from the password, with the room code as
/// the salt.
pub open spec fn remote_key_of(password: Seq<char>, room_code: Seq<char>) -> Seq<u8> {
    pbkdf2_hmac_sha256(encode_utf8(password), encode_utf8(room_code), PBKDF2_ROUNDS, 32)
}

/// Derives the key of a relayed room.
pub fn derive_remote_key(password: &str, room_code: &str) -> (r: [u8; KEY_SIZE])
    ensures
        r@ == remote_key_of(password@, room_code@),
        r@ == pbkdf2_hmac_sha256(encode_utf8(password@), encode_utf8(room_code@), 210_000, 32),
{
    pbkdf2_key(password.as_bytes(), room_code.as_bytes(), PBKDF2_ROUNDS)
}

/// What is hashed to prove knowledge of a password: the room code, a zero byte
/// and the password.
pub open spec fn auth_message(password: Seq<char>, room_code: Seq<char>) -> Seq<u8> {
    encode_utf8(room_code).push(0) + encode_utf8(password)
}

/// What the relay is shown in place of the password.
pub open spec fn auth_hash_of(password: Seq<char>, room_code: Seq<char>) -> Seq<char> {
    hex_text(sha256(auth_message(password, room_code)))
}

/// The hash by which the relay admits to a room, without learning the password
/// or the key.
pub fn join_auth_hash(password: &str, room_code: &str) -> (r: String)
    ensures
        r@ == auth_hash_of(password@, room_code@),
        r@ == hex_text(sha256(encode_utf8(room_code@).push(0) + encode_utf8(password@))),
        r@.len() == 64,
{
    let mut message: Vec<u8> = Vec::new();
    message.extend_from_slice(room_code.as_bytes());
    message.push(0);
    message.extend_from_slice(password.as_bytes());
    assert(message@ == auth_message(password@, room_code@));
    let hash: [u8; 32] = sha256_digest(message.as_slice());
    hex_encode(&hash)
}

/// The key that a token stands for is bound to the whole token: it is the hash
/// of bytes from which the token can be read back, so that tokens that differ
/// anywhere are hashed from different bytes.
pub proof fn key_is_bound_to_token(token: Seq<char>, other: Seq<char>)
    ensures
        exists|hashed: Seq<u8>|
            valid_utf8(hashed) && decode_utf8(hashed) == token && key_of(token)
                == #[trigger] sha256(hashed),
        encode_utf8(token) == encode_utf8(other) ==> token == other,
{
    utf8_round_trip(token);
    utf8_round_trip(other);
    assert(key_of(token) == sha256(encode_utf8(token)));
}

/// The key of a relayed room is bound to the whole password and the whole room
/// code: it is derived, in 210000 rounds and at full length, from bytes from
/// which both can be read back.
pub proof fn remote_key_is_bound_to_password(password: Seq<char>, room_code: Seq<char>)
    ensures
        exists|secret: Seq<u8>, salt: Seq<u8>|
            {
                &&& valid_utf8(secret) && decode_utf8(secret) == password
                &&& valid_utf8(salt) && decode_utf8(salt) == room_code
                &&& remote_key_of(password, room_code) == #[trigger] pbkdf2_hmac_sha256(
                    secret,
                    salt,
                    210_000,
                    32,
                )
            },
{
    utf8_round_trip(password);
    utf8_round_trip(room_code);
    assert(remote_key_of(password, room_code) == pbkdf2_hmac_sha256(
        encode_utf8(password),
        encode_utf8(room_code),
        210_000,
        32,
    ));
}

/// Passwords or room codes that differ anywhere are derived from different
/// bytes: what goes into the derivation tells them apart.
pub proof fn remote_key_inputs_are_injective(
    password: Seq<char>,
    room_code: Seq<char>,
    other_password: Seq<char>,
    other_code: Seq<char>,
)
    requires
        encode_utf8(password) == encode_utf8(other_password),
        encode_utf8(room_code) == encode_utf8(other_code),
    ensures
        password == other_password,
        room_code == other_code,
        remote_key_of(password, room_code) == remote_key_of(other_password, other_code),
{
    utf8_round_trip(password);
    utf8_round_trip(room_code);
    utf8_round_trip(other_password);
    utf8_round_trip(other_code);
}

/// What the relay is shown is the hash, in full, of bytes that begin with the
/// room code, go on with a zero byte and end with the password.
pub proof fn auth_hash_is_bound_to_password(password: Seq<char>, room_code: Seq<char>)
    ensures
        exists|hashed: Seq<u8>|
            {
                let n = encode_utf8(room_code).len() as int;
                &&& hashed.len() > n
                &&& hashed.take(n) == encode_utf8(room_code)
                &&& hashed[n] == 0
                &&& valid_utf8(hashed.skip(n + 1))
                &&& decode_utf8(hashed.skip(n + 1)) == password
                &&& auth_hash_of(password, room_code) == hex_text(#[trigger] sha256(hashed))
            },
{
    let hashed = auth_message(password, room_code);
    let n = encode_utf8(room_code).len() as int;
    assert(hashed.take(n) == encode_utf8(room_code));
    assert(hashed.skip(n + 1) == encode_utf8(password));
    utf8_round_trip(password);
    assert(auth_hash_of(password, room_code) == hex_text(sha256(hashed)));
}

proof fn lemma_scalar_without_zero(c: char)
    requires
        c != '\0',
    ensures
        forall|i: int|
            0 <= i < encode_scalar(c as u32).len() ==> #[trigger] encode_scalar(c as u32)[i] != 0,
{
    let v = c as u32;
    assert(v <= 0x7f ==> (v & 0x7f) as u8 == v) by (bit_vector);
    assert(0x80u8 | (v & 0x3f) as u8 != 0) by (bit_vector);
    assert(0x80u8 | ((v >> 6) & 0x3f) as u8 != 0) by (bit_vector);
    assert(0x80u8 | ((v >> 12) & 0x3f) as u8 != 0) by (bit_vector);
    assert(0xc0u8 | ((v >> 6) & 0x1f) as u8 != 0) by (bit_vector);
    assert(0xe0u8 | ((v >> 12) & 0x0f) as u8 != 0) by (bit_vector);
    assert(0xf0u8 | ((v >> 18) & 0x7) as u8 != 0) by (bit_vector);
}

proof fn lemma_utf8_without_zero(text: Seq<char>)
    requires
        !text.contains('\0'),
    ensures
        forall|i: int| 0 <= i < encode_utf8(text).len() ==> #[trigger] encode_utf8(text)[i] != 0,
    decreases text.len(),
{
    if text.len() > 0 {
        let head = encode_scalar(text[0] as u32);
        let rest = text.drop_first();
        assert(text.contains(text[0]));
        assert forall|i: int| 0 <= i < rest.len() implies rest[i] != '\0' by {
            assert(text.contains(text[i + 1]));
        }
        lemma_scalar_without_zero(text[0]);
        lemma_utf8_without_zero(rest);
        assert(encode_utf8(text) == head + encode_utf8(rest));
    }
}

/// No two pairs of a password and a room code are shown to the relay as the hash
/// of the same bytes, as long as room codes hold no null character.
pub proof fn auth_message_is_injective(
    password: Seq<char>,
    room_code: Seq<char>,
    other_password: Seq<char>,
    other_code: Seq<char>,
)
    requires
        !room_code.contains('\0'),
        !other_code.contains('\0'),
        auth_message(password, room_code) == auth_message(other_password, other_code),
    ensures
        password == other_password,
        room_code == other_code,
{
    let message = auth_message(password, room_code);
    let a = encode_utf8(room_code);
    let b = encode_utf8(other_code);
    lemma_utf8_without_zero(room_code);
    lemma_utf8_without_zero(other_code);
    assert(message[a.len() as int] == 0);
    assert(message[b.len() as int] == 0);
    if a.len() < b.len() {
        assert(message[a.len() as int] == b[a.len() as int]);
    }
    if b.len() < a.len() {
        assert(message[b.len() as int] == a[b.len() as int]);
    }
    assert(a == message.take(a.len() as int));
    assert(b == message.take(b.len() as int));
    assert(encode_utf8(password) == message.skip(a.len() as int + 1));
    assert(encode_utf8(other_password) == message.skip(b.len() as int + 1));
    utf8_round_trip(room_code);
    utf8_round_trip(other_code);
    utf8_round_trip(password);
    utf8_round_trip(other_password);
}

// ----------------------------------------------------------------- encryption
/// The AES-256-GCM ciphertext of `plain`, with its tag at the end.
pub uninterp spec fn aes_gcm_seal(key: Seq<u8>, nonce: Seq<u8>, plain: Seq<u8>) -> Seq<u8>;

/// What AES-256-GCM makes of a ciphertext that ends in its tag: the plaintext
/// where the tag is right.
pub uninterp spec fn aes_gcm_open(key: Seq<u8>, nonce: Seq<u8>, sealed: Seq<u8>) -> Option<Seq<u8>>;

/// `Aes256Gcm::encrypt` fails exactly on plaintexts over the length limit.
/// Otherwise it gives a ciphertext one tag longer than the plaintext, which
/// opens under the same key and nonce to that plaintext.
#[verifier::external_body]
fn aes_gcm_encrypt(key: &[u8; 32], nonce: &[u8], plain: &[u8]) -> (r: Result<
    Vec<u8>,
    aes_gcm::Error,
>)
    requires
        nonce@.len() == NONCE_SIZE,
        plain@.len() + TAG_SIZE <= usize::MAX,
    ensures
        match r {
            Ok(sealed) => {
                &&& plain@.len() <= MAX_PLAINTEXT
                &&& sealed@ == aes_gcm_seal(key@, nonce@, plain@)
                &&& sealed@.len() == plain@.len() + TAG_SIZE
                &&& aes_gcm_open(key@, nonce@, sealed@) == Some(plain@)
            },
            Err(_) => plain@.len() > MAX_PLAINTEXT,
        },
{
    let cipher = aes_gcm::Aes256Gcm::new(aes_gcm::Key::<aes_gcm::Aes256Gcm>::from_slice(key));
    cipher.encrypt(aes_gcm::Nonce::from_slice(nonce), plain)
}

/// `Aes256Gcm::decrypt` gives the plaintext, one tag shorter than the
/// ciphertext, or fails. Nothing is said of when a ciphertext that was made
/// under another key or nonce, or was changed, fails to open.
#[verifier::external_body]
fn aes_gcm_decrypt(key: &[u8; 32], nonce: &[u8], sealed: &[u8]) -> (r: Result<
    Vec<u8>,
    aes_gcm::Error,
>)
    requires
        nonce@.len() == NONCE_SIZE,
    ensures
        match r {
            Ok(plain) => {
                &&& aes_gcm_open(key@, nonce@, sealed@) == Some(plain@)
                &&& plain@.len() + TAG_SIZE == sealed@.len()
            },
            Err(_) => aes_gcm_open(key@, nonce@, sealed@) is None,
        },
{
    let cipher = aes_gcm::Aes256Gcm::new(aes_gcm::Key::<aes_gcm::Aes256Gcm>::from_slice(key));
    cipher.decrypt(aes_gcm::Nonce::from_slice(nonce), sealed)
}

/// What encryption gives under a nonce: the nonce, then the ciphertext.
pub open spec fn encrypted(plain: Seq<u8>, key: Seq<u8>, nonce: Seq<u8>) -> Result<
    Seq<u8>,
    Seq<char>,
> {
    if plain.len() > MAX_PLAINTEXT {
        Err("encrypt: aead::Error"@)
    } else {
        Ok(nonce + aes_gcm_seal(key, nonce, plain))
    }
}

/// Whether `data` is what encryption gives under some nonce.
pub open spec fn is_encrypted(data: Seq<u8>, plain: Seq<u8>, key: Seq<u8>) -> bool {
    exists|nonce: Seq<u8>|
        nonce.len() == NONCE_SIZE && #[trigger] encrypted(plain, key, nonce) == Ok::<
            Seq<u8>,
            Seq<char>,
        >(data)
}

/// What decryption gives.
pub open spec fn decrypted(data: Seq<u8>, key: Seq<u8>) -> Result<Seq<u8>, Seq<char>> {
    if data.len() < NONCE_SIZE {
        Err("ciphertext too short"@)
    } else {
        match aes_gcm_open(key, data.take(NONCE_SIZE as int), data.skip(NONCE_SIZE as int)) {
            Some(plain) => Ok(plain),
            None => Err("decrypt failed (wrong password?)"@),
        }
    }
}

/// Encrypts `plaintext` under `key` and `nonce`.
pub fn encrypt_bytes_with_nonce(
    plaintext: &[u8],
    key: &[u8; KEY_SIZE],
    nonce: &[u8; NONCE_SIZE],
) -> (r: Result<Vec<u8>, String>)
    requires
        plaintext@.len() + NONCE_SIZE + TAG_SIZE <= usize::MAX,
    ensures
        bytes_or_error(r) == encrypted(plaintext@, key@, nonce@),
        r is Ok <==> plaintext@.len() <= MAX_PLAINTEXT,
        r matches Ok(data) ==> data@ == nonce@ + aes_gcm_seal(key@, nonce@, plaintext@),
        r matches Err(e) ==> e@ == "encrypt: aead::Error"@,
        r matches Ok(data) ==> data@.len() == plaintext@.len() + NONCE_SIZE + TAG_SIZE,
        r matches Ok(data) ==> decrypted(data@, key@) == Ok::<Seq<u8>, Seq<char>>(plaintext@),
{
    match aes_gcm_encrypt(key, nonce.as_slice(), plaintext) {
        Ok(sealed) => {
            let mut data: Vec<u8> = Vec::with_capacity(NONCE_SIZE + sealed.len());
            data.extend_from_slice(nonce.as_slice());
            data.extend_from_slice(sealed.as_slice());
            assert(data@ == nonce@ + sealed@);
            assert(data@.take(NONCE_SIZE as int) == nonce@);
            assert(data@.skip(NONCE_SIZE as int) == sealed@);
            Ok(data)
        },
        Err(_) => Err("encrypt: aead::Error".to_owned()),
    }
}

/// Encrypts `plaintext` under `key` and a fresh random nonce. What comes out
/// decrypts to `plaintext` under the same key.
pub fn encrypt_bytes(plaintext: &[u8], key: &[u8; KEY_SIZE]) -> (r: Result<Vec<u8>, String>)
    requires
        plaintext@.len() + NONCE_SIZE + TAG_SIZE <= usize::MAX,
    ensures
        match r {
            Ok(data) => {
                &&& plaintext@.len() <= MAX_PLAINTEXT
                &&& is_encrypted(data@, plaintext@, key@)
                &&& is_drawn(data@.take(12))
                &&& data@.skip(12) == aes_gcm_seal(key@, data@.take(12), plaintext@)
                &&& data@.len() == plaintext@.len() + NONCE_SIZE + TAG_SIZE
                &&& decrypted(data@, key@) == Ok::<Seq<u8>, Seq<char>>(plaintext@)
            },
            Err(e) => plaintext@.len() > MAX_PLAINTEXT && e@ == "encrypt: aead::Error"@,
        },
{
    let nonce: [u8; NONCE_SIZE] = random_nonce();
    assert(nonce@.len() == NONCE_SIZE);
    let data: Result<Vec<u8>, String> = encrypt_bytes_with_nonce(plaintext, key, &nonce);
    proof {
        if data is Ok {
            assert(data->Ok_0@.take(12) == nonce@);
            assert(data->Ok_0@.skip(12) == aes_gcm_seal(key@, nonce@, plaintext@));
        }
    }
    data
}

fn random_nonce() -> (r: [u8; NONCE_SIZE])
    ensures
        is_drawn(r@),
{
    let mut nonce: [u8; NONCE_SIZE] = [0u8; NONCE_SIZE];
    let mut i: usize = 0;
    while i < NONCE_SIZE
        invariant
            i <= NONCE_SIZE,
            forall|j: int| 0 <= j < i ==> is_drawn_byte(#[trigger] nonce@[j]),
        decreases NONCE_SIZE - i,
    {
        nonce[i] = random_byte();
        i = i + 1;
    }
    nonce
}

/// Decrypts what encryption under `key` gave.
pub fn decrypt_bytes(data: &[u8], key: &[u8; KEY_SIZE]) -> (r: Result<Vec<u8>, String>)
    ensures
        bytes_or_error(r) == decrypted(data@, key@),
        match r {
            Ok(plain) => {
                &&& data@.len() >= 12
                &&& aes_gcm_open(key@, data@.take(12), data@.skip(12)) == Some(plain@)
            },
            Err(e) => if data@.len() < 12 {
                e@ == "ciphertext too short"@
            } else {
                &&& aes_gcm_open(key@, data@.take(12), data@.skip(12)) is None
                &&& e@ == "decrypt failed (wrong password?)"@
            },
        },
        r matches Ok(plain) ==> plain@.len() + NONCE_SIZE + TAG_SIZE == data@.len(),
{
    if data.len() < NONCE_SIZE {
        return Err("ciphertext too short".to_owned());
    }
    let (nonce, sealed) = data.split_at(NONCE_SIZE);
    assert(nonce@ == data@.take(NONCE_SIZE as int));
    assert(sealed@ == data@.skip(NONCE_SIZE as int));
    match aes_gcm_decrypt(key, nonce, sealed) {
        Ok(plain) => Ok(plain),
        Err(_) => Err("decrypt failed (wrong password?)".to_owned()),
    }
}

/// Decryption opens exactly what the cipher opens: the first twelve bytes are
/// the nonce, and all that follows is the ciphertext with its tag.
pub proof fn decryption_is_whole(nonce: Seq<u8>, sealed: Seq<u8>, key: Seq<u8>)
    requires
        nonce.len() == 12,
    ensures
        decrypted(nonce + sealed, key) == (match aes_gcm_open(key, nonce, sealed) {
            Some(plain) => Ok::<Seq<u8>, Seq<char>>(plain),
            None => Err::<Seq<u8>, Seq<char>>("decrypt failed (wrong password?)"@),
        }),
{
    assert((nonce + sealed).take(12) == nonce);
    assert((nonce + sealed).skip(12) == sealed);
}

/// What encryption gives is the nonce and then the whole ciphertext, under which
/// nonce so ever, and it is one of the forms that encryption can give.
pub proof fn encryption_is_whole(plain: Seq<u8>, key: Seq<u8>, nonce: Seq<u8>)
    requires
        plain.len() <= MAX_PLAINTEXT,
        nonce.len() == 12,
    ensures
        encrypted(plain, key, nonce) == Ok::<Seq<u8>, Seq<char>>(
            nonce + aes_gcm_seal(key, nonce, plain),
        ),
        is_encrypted(nonce + aes_gcm_seal(key, nonce, plain), plain, key),
{
}

} // verus!
