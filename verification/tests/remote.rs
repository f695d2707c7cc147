use base64::engine::general_purpose::STANDARD;
use base64::Engine;
use sidewire::crypto::{derive_remote_key, encrypt_bytes};
use sidewire::files::pick_file;
use sidewire::remote::{
    current_remote_key, remote_clear_key, remote_decrypt_base64, remote_decrypt_file,
    remote_decrypt_text, remote_encrypt_bytes, remote_encrypt_file, remote_encrypt_text,
    remote_file_meta, remote_set_key, RemoteKey,
};

const KEY: [u8; 32] = [5; 32];

fn keyed() -> RemoteKey {
    RemoteKey { key: Some(KEY) }
}

fn sealed(plain: &[u8]) -> String {
    STANDARD.encode(encrypt_bytes(plain, &KEY).unwrap())
}

#[test]
fn entering_and_leaving_a_relayed_room() {
    let mut slot = RemoteKey { key: None };
    assert_eq!(current_remote_key(&slot).unwrap_err(), "no remote key set");
    let e = remote_set_key(&mut slot, "", "SIDE-CODE01").unwrap_err();
    assert_eq!(e, "password is required");
    assert!(slot.key.is_none());
    let r = remote_set_key(&mut slot, "pw", "SIDE-CODE01").unwrap();
    assert_eq!(
        r.auth_hash,
        "1f17cc5734984b52ee9b99701a10958995e58734973f163bf6ce5a271572bcb5"
    );
    assert_eq!(current_remote_key(&slot).unwrap(), derive_remote_key("pw", "SIDE-CODE01"));
    assert!(remote_set_key(&mut slot, "", "x").is_err());
    assert!(slot.key.is_some());
    remote_clear_key(&mut slot);
    assert!(slot.key.is_none());
}

#[test]
fn same_password_reads_the_same_text() {
    let mut a = RemoteKey { key: None };
    let mut b = RemoteKey { key: None };
    remote_set_key(&mut a, "pw", "R").unwrap();
    remote_set_key(&mut b, "pw", "R").unwrap();
    let payload = remote_encrypt_text(&a, "grüße 👋").unwrap();
    assert_eq!(remote_decrypt_text(&b, &payload).unwrap(), "grüße 👋");
}

#[test]
fn text_payload_is_base64_of_the_ciphertext() {
    let payload = remote_encrypt_text(&keyed(), "hi").unwrap();
    assert_eq!(STANDARD.decode(&payload).unwrap().len(), 2 + 28);
    assert_eq!(remote_decrypt_text(&keyed(), &payload).unwrap(), "hi");
}

#[test]
fn text_payloads_are_refused() {
    let none = RemoteKey { key: None };
    assert_eq!(remote_encrypt_text(&none, "x").unwrap_err(), "no remote key set");
    assert_eq!(remote_decrypt_text(&none, "!").unwrap_err(), "no remote key set");
    assert_eq!(remote_decrypt_text(&keyed(), "!").unwrap_err(), "bad payload");
    assert_eq!(remote_decrypt_text(&keyed(), "AAAA").unwrap_err(), "ciphertext too short");
    let other = RemoteKey { key: Some([6; 32]) };
    assert_eq!(
        remote_decrypt_text(&other, &sealed(b"x")).unwrap_err(),
        "decrypt failed (wrong password?)"
    );
    assert_eq!(remote_decrypt_text(&keyed(), &sealed(&[0xff])).unwrap_err(), "invalid utf8");
}

#[test]
fn relayed_file_arrives() {
    let f = pick_file(true, Some("a.json".to_string())).unwrap();
    let sent = remote_encrypt_file(&keyed(), &f, b"{}").unwrap();
    assert_eq!(sent.file_size, 2);
    let meta = remote_file_meta(&keyed(), &sent.payload).unwrap();
    assert_eq!(meta.file_name, "a.json");
    assert_eq!(meta.file_mime, "application/json");
    assert_eq!(meta.file_size, 2);
    assert_eq!(remote_decrypt_file(&keyed(), &sent.payload).unwrap(), b"{}");
    let local = remote_decrypt_base64(&keyed(), &sent.payload).unwrap();
    assert_eq!(local.file_name, "a.json");
    assert_eq!(local.file_mime, "application/json");
    assert_eq!(local.base64, "e30=");
}

#[test]
fn relayed_bytes_arrive() {
    let sent = remote_encrypt_bytes(&keyed(), "a|b.PDF", "\t".to_string(), "aGVsbG8=").unwrap();
    assert_eq!(sent.file_size, 5);
    let meta = remote_file_meta(&keyed(), &sent.payload).unwrap();
    assert_eq!(meta.file_name, "a_b.PDF");
    assert_eq!(meta.file_mime, "application/pdf");
    assert_eq!(remote_decrypt_file(&keyed(), &sent.payload).unwrap(), b"hello");
    let sent = remote_encrypt_bytes(&keyed(), "", "x/y".to_string(), "").unwrap();
    let meta = remote_file_meta(&keyed(), &sent.payload).unwrap();
    assert_eq!(meta.file_name, "file.bin");
    assert_eq!(meta.file_mime, "x/y");
    assert_eq!(meta.file_size, 0);
}

#[test]
fn media_type_too_long_to_frame_does_not_arrive() {
    let long = "m".repeat(65536);
    let sent = remote_encrypt_bytes(&keyed(), "a", long.clone(), "").unwrap();
    let meta = remote_file_meta(&keyed(), &sent.payload).unwrap();
    assert_ne!(meta.file_mime, long);
    assert_eq!(meta.file_size, 65536);
}

#[test]
fn file_payloads_are_refused() {
    let none = RemoteKey { key: None };
    let f = pick_file(true, None).unwrap();
    assert_eq!(remote_encrypt_file(&none, &f, b"").unwrap_err(), "no remote key set");
    let e = remote_encrypt_bytes(&none, "a", String::new(), "!").unwrap_err();
    assert_eq!(e, "no remote key set");
    let e = remote_encrypt_bytes(&keyed(), "a", String::new(), "!").unwrap_err();
    assert_eq!(e, "bad data");
    assert_eq!(remote_file_meta(&none, "!").unwrap_err(), "no remote key set");
    assert_eq!(remote_file_meta(&keyed(), "!").unwrap_err(), "bad payload");
    let torn = sealed(&[9, 0]);
    assert_eq!(remote_file_meta(&keyed(), &torn).unwrap_err(), "corrupt file payload");
    assert_eq!(remote_decrypt_file(&keyed(), &torn).unwrap_err(), "corrupt file payload");
    assert_eq!(remote_decrypt_base64(&keyed(), &torn).unwrap_err(), "corrupt file payload");
    assert_eq!(remote_decrypt_file(&keyed(), "!").unwrap_err(), "bad payload");
    assert_eq!(remote_decrypt_base64(&none, "!").unwrap_err(), "no remote key set");
}
