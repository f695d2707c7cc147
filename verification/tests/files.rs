use base64::engine::general_purpose::STANDARD;
use base64::Engine;
use sidewire::encoding::read_base64;
use sidewire::files::{
    host_file, host_file_base64, host_file_bytes, lan_decrypt_base64, open_local_download, pick_file,
    read_file_base64, seal_file, share_file, share_file_bytes,
};
use sidewire::messages::{record_share, LinkState};
use sidewire::room::RoomState;
use sidewire::startup::new_link_with_code;

fn start() -> (RoomState, LinkState) {
    let link = new_link_with_code("ABC234".to_string(), "host".to_string());
    (link.room, link.state)
}

#[test]
fn only_files_are_picked() {
    let e = pick_file(false, Some("a".to_string())).unwrap_err();
    assert_eq!(e, "selected path is not a file");
    let f = pick_file(true, Some("a:b.zip".to_string())).unwrap();
    assert_eq!(f.file_name, "a_b.zip");
    assert_eq!(f.mime, "application/zip");
    assert_eq!(pick_file(true, None).unwrap().file_name, "file.bin");
}

#[test]
fn picked_file_in_base64() {
    let f = pick_file(true, Some("a.png".to_string())).unwrap();
    let r = read_file_base64(f, &[0xfb, 0xff, 0xbf, 0x00]);
    assert_eq!(r.file_name, "a.png");
    assert_eq!(r.file_mime, "image/png");
    assert_eq!(r.base64, "+/+/AA==");
}

#[test]
fn base64_is_read_strictly() {
    for (text, bytes) in [("", ""), ("Zg==", "f"), ("Zm8=", "fo"), ("Zm9v", "foo")] {
        assert_eq!(read_base64(text).unwrap(), bytes.as_bytes());
    }
    for bad in ["Z", "Zg", "Zg=", "Zh==", "Zg==Zg==", "Zm9v\n", "-_==", "Z===", "====", "Zé=="] {
        assert!(read_base64(bad).is_none());
    }
}

#[test]
fn shared_file_is_read_back_by_the_host() {
    let (room, mut state) = start();
    let f = pick_file(true, Some("a.txt".to_string())).unwrap();
    let (plan, data) =
        share_file(&room, &mut state, f, 5, b"hello", "host".to_string()).unwrap();
    assert_eq!(plan.stored_name, "file-2-a.txt");
    assert_eq!(plan.file_size, 5);
    assert_eq!(data.len(), 5 + 28);
    let m = record_share(&mut state, plan);
    assert_eq!(m.body, "shared a.txt");
    let shared = host_file(&state, "file-2").unwrap();
    let r = host_file_base64(&room, &shared, &data).unwrap();
    assert_eq!(r.file_name, "a.txt");
    assert_eq!(r.file_mime, "text/plain; charset=utf-8");
    assert_eq!(r.base64, "aGVsbG8=");
    assert_eq!(host_file_bytes(&room, &data).unwrap(), b"hello");
}

#[test]
fn shared_bytes_are_decoded() {
    let (room, mut state) = start();
    let e = share_file_bytes(&room, &mut state, "a", String::new(), "!", "h".to_string());
    assert_eq!(e.unwrap_err(), "bad data");
    assert_eq!(state.next_id, 1);
    let (plan, data) =
        share_file_bytes(&room, &mut state, "a?.gif", " ".to_string(), "aGVsbG8=", "h".to_string())
            .unwrap();
    assert_eq!(plan.file_name, "a_.gif");
    assert_eq!(plan.mime, "image/gif");
    assert_eq!(plan.file_size, 5);
    assert_eq!(plan.device_name, "h");
    assert_eq!(host_file_bytes(&room, &data).unwrap(), b"hello");
    let (plan, _) =
        share_file_bytes(&room, &mut state, "a", "x/y".to_string(), "", "h".to_string()).unwrap();
    assert_eq!(plan.mime, "x/y");
    assert_eq!(plan.file_id, "file-3");
}

#[test]
fn host_refuses_what_it_does_not_keep() {
    let (room, state) = start();
    assert_eq!(host_file(&state, "file-1").unwrap_err(), "file not found");
    assert_eq!(host_file_bytes(&room, &[0; 3]).unwrap_err(), "ciphertext too short");
    let other = new_link_with_code("XYZ789".to_string(), "host".to_string()).room;
    let data = seal_file(&other, b"hello").unwrap();
    assert_eq!(host_file_bytes(&room, &data).unwrap_err(), "decrypt failed (wrong password?)");
}

#[test]
fn download_is_opened_with_the_key() {
    let (room, _) = start();
    let data = STANDARD.encode(seal_file(&room, b"hello").unwrap());
    let key = "8c640c4e71f90160b2b3615af86739e6b15ddc877ae79e18aada753565f756c4";
    assert_eq!(open_local_download(&data, key).unwrap(), b"hello");
    assert_eq!(open_local_download(&data, &key.to_uppercase()).unwrap(), b"hello");
    let r = lan_decrypt_base64(&data, key, "a/b.md").unwrap();
    assert_eq!(r.file_name, "a_b.md");
    assert_eq!(r.file_mime, "text/plain; charset=utf-8");
    assert_eq!(r.base64, "aGVsbG8=");
}

#[test]
fn download_with_a_bad_key_is_refused() {
    let (room, _) = start();
    let data = STANDARD.encode(seal_file(&room, b"hello").unwrap());
    let zero = "00".repeat(32);
    assert_eq!(open_local_download("?", &zero).unwrap_err(), "bad data");
    assert_eq!(open_local_download(&data, "0").unwrap_err(), "bad key");
    assert_eq!(open_local_download(&data, "0g").unwrap_err(), "bad key");
    assert_eq!(open_local_download(&data, "00").unwrap_err(), "bad key length");
    assert_eq!(
        open_local_download(&data, &zero).unwrap_err(),
        "decrypt failed (wrong password?)"
    );
    assert_eq!(lan_decrypt_base64("?", "0", "a").unwrap_err(), "bad data");
}
