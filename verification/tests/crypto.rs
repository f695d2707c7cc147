use sidewire::crypto::{
    decrypt_bytes, derive_key, derive_remote_key, encrypt_bytes, encrypt_bytes_with_nonce,
    generate_secure_token, join_auth_hash, token_text,
};

fn hex(bytes: &[u8]) -> String {
    bytes.iter().map(|b| format!("{:02x}", b)).collect()
}

#[test]
fn remote_key_is_deterministic_and_password_bound() {
    let a = derive_remote_key("hunter2", "SIDE-ABC123");
    let b = derive_remote_key("hunter2", "SIDE-ABC123");
    let c = derive_remote_key("wrong", "SIDE-ABC123");
    assert_eq!(a, b);
    assert_ne!(a, c);
}

#[test]
fn text_roundtrip_and_wrong_key_fails() {
    let key = derive_remote_key("pw", "SIDE-XYZ789");
    let ct = encrypt_bytes("hello world".as_bytes(), &key).unwrap();
    assert_eq!(decrypt_bytes(&ct, &key).unwrap(), b"hello world");
    let bad = derive_remote_key("nope", "SIDE-XYZ789");
    assert!(decrypt_bytes(&ct, &bad).is_err());
}

#[test]
fn auth_hash_differs_from_key_material() {
    let key = derive_remote_key("pw", "SIDE-CODE01");
    let auth = join_auth_hash("pw", "SIDE-CODE01");
    assert_ne!(auth, hex::encode(key));
    assert_eq!(auth, join_auth_hash("pw", "SIDE-CODE01"));
    assert_ne!(auth, join_auth_hash("pw2", "SIDE-CODE01"));
}

#[test]
fn room_key_is_the_hash_of_the_code() {
    assert_eq!(
        hex(&derive_key("abc")),
        "ba7816bf8f01cfea414140de5dae2223b00361a396177a9cb410ff61f20015ad"
    );
}

#[test]
fn remote_key_is_pbkdf2() {
    assert_eq!(hex(&derive_remote_key("hunter2", "SIDE-ABC123")), "a1692a85755c1f9850b47a1644242f49d1e072accfee6ce97fdbdc1f5baba51f");
}

#[test]
fn auth_hash_covers_code_and_password() {
    assert_eq!(join_auth_hash("pw", "SIDE-CODE01"), "1f17cc5734984b52ee9b99701a10958995e58734973f163bf6ce5a271572bcb5");
    assert_ne!(join_auth_hash("b", "a"), join_auth_hash("", "ab"));
    assert_eq!(join_auth_hash("", "").len(), 64);
}

#[test]
fn auth_hash_inputs_with_a_null_in_the_code_can_coincide() {
    assert_eq!(join_auth_hash("c", "a\0b"), join_auth_hash("b\0c", "a"));
}

#[test]
fn token_is_lower_case_hexadecimal() {
    let mut bytes = [0u8; 32];
    bytes[0] = 0xab;
    bytes[31] = 0x0f;
    let text = token_text(&bytes);
    assert_eq!(text, format!("ab{}0f", "00".repeat(30)));
}

#[test]
fn tokens_are_long_and_differ() {
    let a = generate_secure_token();
    let b = generate_secure_token();
    assert_eq!(a.len(), 64);
    assert!(a.chars().all(|c| c.is_ascii_digit() || ('a'..='f').contains(&c)));
    assert_ne!(a, b);
}

#[test]
fn encryption_is_nonce_then_aes_256_gcm() {
    let data = encrypt_bytes_with_nonce(&[0u8; 16], &[0u8; 32], &[0u8; 12]).unwrap();
    assert_eq!(
        hex(&data),
        "000000000000000000000000cea7403d4d606b6e074ec5d3baf39d18d0d1c8a799996bf0265b98b5d48ab919"
    );
    let empty = encrypt_bytes_with_nonce(&[], &[0u8; 32], &[0u8; 12]).unwrap();
    assert_eq!(hex(&empty), "000000000000000000000000530f8afbc74536b9a963b4f1c4cb738b");
}

#[test]
fn encryption_takes_a_fresh_nonce() {
    let a = encrypt_bytes(b"same", &[7u8; 32]).unwrap();
    let b = encrypt_bytes(b"same", &[7u8; 32]).unwrap();
    assert_eq!(a.len(), 4 + 12 + 16);
    assert_ne!(a[..12], b[..12]);
    assert_ne!(a, b);
}

#[test]
fn short_ciphertext_is_refused() {
    assert_eq!(decrypt_bytes(&[0u8; 11], &[0u8; 32]).unwrap_err(), "ciphertext too short");
    assert_eq!(
        decrypt_bytes(&[0u8; 12], &[0u8; 32]).unwrap_err(),
        "decrypt failed (wrong password?)"
    );
}

#[test]
fn changed_ciphertext_is_refused() {
    let mut data = encrypt_bytes(b"hello", &[1u8; 32]).unwrap();
    data[14] ^= 1;
    assert_eq!(
        decrypt_bytes(&data, &[1u8; 32]).unwrap_err(),
        "decrypt failed (wrong password?)"
    );
}
