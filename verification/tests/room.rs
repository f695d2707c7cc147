use base64::Engine;
use sidewire::api::{
    api_download_file, api_join_room, api_messages, api_send_message, api_upload_file, JoinReply,
    Refusal,
};
use sidewire::crypto::derive_key;
use sidewire::files::{open_local_download, seal_file};
use sidewire::messages::{record_upload, LinkState};
use sidewire::room::{
    connected_device_names, generate_room_code, get_encryption_key, is_authorized, register_device,
    register_device_with_token, room_code_of, room_info, text_or, ApiQuery, RoomState,
};
use sidewire::startup::new_link_with_code;

fn query() -> ApiQuery {
    ApiQuery { token: None, name: None, mime: None, device: None, password: None }
}

fn with_token(token: &str) -> ApiQuery {
    ApiQuery { token: Some(token.to_string()), ..query() }
}

fn start() -> (RoomState, LinkState) {
    let link = new_link_with_code("ABC234".to_string(), "host".to_string());
    (link.room, link.state)
}

fn join_as(room: &mut RoomState, state: &mut LinkState, device: &str) -> JoinReply {
    let q = ApiQuery { device: Some(device.to_string()), ..query() };
    api_join_room(room, state, &q).unwrap()
}

#[test]
fn room_codes_pick_from_the_alphabet() {
    assert_eq!(room_code_of(&vec![0, 7, 8, 23, 24, 31]), "AHJZ29");
    assert_eq!(room_code_of(&vec![]), "");
    let code = generate_room_code();
    assert_eq!(code.len(), 6);
    assert!(code.chars().all(|c| "ABCDEFGHJKLMNPQRSTUVWXYZ23456789".contains(c)));
    assert!((0..8).any(|_| generate_room_code() != code));
}

#[test]
fn only_registered_tokens_are_authorized() {
    let (mut room, _) = start();
    assert!(!is_authorized(&query(), &room));
    assert!(!is_authorized(&with_token(""), &room));
    let token = register_device(&mut room, "phone".to_string());
    assert_eq!(token.len(), 64);
    assert!(is_authorized(&with_token(&token), &room));
    assert!(!is_authorized(&with_token(&token[1..]), &room));
    let other = register_device(&mut room, "tablet".to_string());
    assert!(is_authorized(&with_token(&token), &room));
    assert!(is_authorized(&with_token(&other), &room));
}

#[test]
fn device_names_are_sorted_and_unique() {
    let (mut room, _) = start();
    assert_eq!(connected_device_names(&room), ["host"]);
    register_device_with_token(&mut room, "phone".to_string(), "t1".to_string());
    register_device_with_token(&mut room, "Laptop".to_string(), "t2".to_string());
    register_device_with_token(&mut room, "phone".to_string(), "t3".to_string());
    register_device_with_token(&mut room, "host".to_string(), "t4".to_string());
    assert_eq!(connected_device_names(&room), ["Laptop", "host", "phone"]);
    assert_eq!(room.tokens, ["t1", "t2", "t3", "t4"]);
}

#[test]
fn same_token_takes_the_later_name() {
    let (mut room, _) = start();
    register_device_with_token(&mut room, "a".to_string(), "t".to_string());
    register_device_with_token(&mut room, "b".to_string(), "t".to_string());
    assert_eq!(connected_device_names(&room), ["b", "host"]);
}

#[test]
fn token_without_a_name_is_passed_over() {
    let (mut room, _) = start();
    room.tokens.push("t".to_string());
    assert_eq!(connected_device_names(&room), ["host"]);
    assert!(is_authorized(&with_token("t"), &room));
}

#[test]
fn room_info_describes_the_room() {
    let (mut room, _) = start();
    let info = room_info(&room, 8765, "10.0.0.2".to_string(), true);
    assert_eq!(info.room_code, "ABC234");
    assert_eq!(info.device_name, "host");
    assert_eq!(info.devices, ["host"]);
    assert_eq!(info.port, 8765);
    assert_eq!(info.ip, "10.0.0.2");
    assert!(!info.has_password);
    assert!(info.hosting);
    room.password = "pw".to_string();
    let info = room_info(&room, 1, "x".to_string(), false);
    assert!(info.has_password);
    assert!(!info.hosting);
}

#[test]
fn room_key_comes_from_the_code() {
    let (room, _) = start();
    assert_eq!(get_encryption_key(&room), derive_key("ABC234"));
}

#[test]
fn missing_texts_are_replaced() {
    assert_eq!(text_or(&None, "x"), "x");
    assert_eq!(text_or(&Some(String::new()), "x"), "");
}

#[test]
fn refusals_have_a_status_and_a_reason() {
    assert_eq!(Refusal::WrongPassword.status(), 401);
    assert_eq!(Refusal::WrongPassword.reason(), "wrong password");
    assert_eq!(Refusal::InvalidToken.status(), 401);
    assert_eq!(Refusal::InvalidToken.reason(), "invalid token");
    assert_eq!(Refusal::EmptyMessage.status(), 400);
    assert_eq!(Refusal::EmptyMessage.reason(), "empty message");
    assert_eq!(Refusal::FileNotFound.status(), 404);
    assert_eq!(Refusal::FileNotFound.reason(), "file not found");
}

#[test]
fn joining_an_open_room() {
    let (mut room, mut state) = start();
    let reply = join_as(&mut room, &mut state, "phone");
    assert_eq!(
        reply.key_hex,
        "8c640c4e71f90160b2b3615af86739e6b15ddc877ae79e18aada753565f756c4"
    );
    assert_eq!(reply.message.body, "phone joined the room");
    assert_eq!(reply.message.id, "msg-2");
    assert_eq!(reply.message.sender, "system");
    assert_eq!(reply.message.device_name, "system");
    assert_eq!(reply.message.kind, "system");
    assert!(reply.message.file_name.is_none());
    assert_eq!(state.messages.len(), 2);
    assert!(is_authorized(&with_token(&reply.token), &room));
    assert_eq!(connected_device_names(&room), ["host", "phone"]);
    let unnamed = api_join_room(&mut room, &mut state, &query()).unwrap();
    assert_eq!(unnamed.message.body, "unknown joined the room");
}

#[test]
fn joining_needs_the_password() {
    let (mut room, mut state) = start();
    room.password = "pw".to_string();
    for password in [None, Some(String::new()), Some("PW".to_string())] {
        let q = ApiQuery { password, ..query() };
        assert_eq!(api_join_room(&mut room, &mut state, &q).unwrap_err(), Refusal::WrongPassword);
    }
    assert_eq!(state.messages.len(), 1);
    assert!(room.tokens.is_empty());
    let q = ApiQuery { password: Some("pw".to_string()), ..query() };
    assert!(api_join_room(&mut room, &mut state, &q).is_ok());
}

#[test]
fn any_password_opens_a_room_without_one() {
    let (mut room, mut state) = start();
    let q = ApiQuery { password: Some("x".to_string()), ..query() };
    assert!(api_join_room(&mut room, &mut state, &q).is_ok());
}

#[test]
fn messages_are_for_members() {
    let (mut room, mut state) = start();
    assert_eq!(api_messages(&room, &state, &query()).unwrap_err(), Refusal::InvalidToken);
    let reply = join_as(&mut room, &mut state, "phone");
    let messages = api_messages(&room, &state, &with_token(&reply.token)).unwrap();
    assert_eq!(messages.len(), 2);
    assert_eq!(messages[0].body, "Room ABC234 created. Share the code.");
    assert_eq!(messages[1].body, "phone joined the room");
}

#[test]
fn members_send_messages() {
    let (mut room, mut state) = start();
    assert_eq!(
        api_send_message(&room, &mut state, &query(), "hi").unwrap_err(),
        Refusal::InvalidToken
    );
    let reply = join_as(&mut room, &mut state, "phone");
    let q = with_token(&reply.token);
    assert_eq!(
        api_send_message(&room, &mut state, &q, " \n\t").unwrap_err(),
        Refusal::EmptyMessage
    );
    assert_eq!(state.messages.len(), 2);
    let m = api_send_message(&room, &mut state, &q, "  hi there\n").unwrap();
    assert_eq!(m.id, "msg-3");
    assert_eq!(m.sender, "user");
    assert_eq!(m.device_name, "unknown");
    assert_eq!(m.kind, "text");
    assert_eq!(m.body, "hi there");
    assert!(m.download_url.is_none());
    let named = ApiQuery { device: Some("phone".to_string()), ..q };
    assert_eq!(api_send_message(&room, &mut state, &named, "x").unwrap().device_name, "phone");
    assert_eq!(state.messages.len(), 4);
}

#[test]
fn uploads_get_a_name_and_a_place() {
    let (mut room, mut state) = start();
    assert_eq!(
        api_upload_file(&room, &mut state, &query(), 3).unwrap_err(),
        Refusal::InvalidToken
    );
    assert_eq!(state.next_id, 1);
    let reply = join_as(&mut room, &mut state, "phone");
    let plan = api_upload_file(&room, &mut state, &with_token(&reply.token), 3).unwrap();
    assert_eq!(plan.file_id, "file-3");
    assert_eq!(plan.stored_name, "file-3-upload.bin");
    assert_eq!(plan.file_name, "upload.bin");
    assert_eq!(plan.mime, "application/octet-stream");
    assert_eq!(plan.file_size, 3);
    assert_eq!(plan.device_name, "unknown");
    let q = ApiQuery {
        name: Some("a/b.PNG".to_string()),
        mime: Some(" ".to_string()),
        device: Some("phone".to_string()),
        ..with_token(&reply.token)
    };
    let plan = api_upload_file(&room, &mut state, &q, 9).unwrap();
    assert_eq!(plan.stored_name, "file-4-a_b.PNG");
    assert_eq!(plan.mime, "image/png");
    assert_eq!(plan.device_name, "phone");
    let q = ApiQuery { mime: Some("x/y".to_string()), ..q };
    assert_eq!(api_upload_file(&room, &mut state, &q, 9).unwrap().mime, "x/y");
}

#[test]
fn uploaded_file_can_be_downloaded_and_opened() {
    let (mut room, mut state) = start();
    let reply = join_as(&mut room, &mut state, "phone");
    let q = ApiQuery { name: Some("née.txt".to_string()), ..with_token(&reply.token) };
    let plan = api_upload_file(&room, &mut state, &q, 5).unwrap();
    let stored = seal_file(&room, b"hello").unwrap();
    let message = record_upload(&mut state, plan);
    assert_eq!(message.body, "sent née.txt");
    assert_eq!(message.kind, "file");
    assert_eq!(message.file_name.as_deref(), Some("née.txt"));
    assert_eq!(message.file_size, Some(5));
    assert_eq!(message.file_mime.as_deref(), Some("text/plain; charset=utf-8"));
    assert_eq!(message.download_url.as_deref(), Some("/api/download/file-3"));
    let d = api_download_file(&room, &state, &q, "file-3").unwrap();
    assert_eq!(d.stored_name, "file-3-née.txt");
    assert_eq!(d.content_type, "application/octet-stream");
    assert_eq!(d.content_disposition, "attachment; filename=\"née.txt.encrypted\"");
    assert_eq!(d.key_hex, reply.key_hex);
    assert_eq!(d.original_name, "née.txt");
    assert_eq!(d.original_mime, "text/plain; charset=utf-8");
    let sent = base64::engine::general_purpose::STANDARD.encode(&stored);
    assert_eq!(open_local_download(&sent, &d.key_hex).unwrap(), b"hello");
}

#[test]
fn downloads_are_refused() {
    let (mut room, mut state) = start();
    assert_eq!(
        api_download_file(&room, &state, &query(), "file-1").unwrap_err(),
        Refusal::InvalidToken
    );
    let reply = join_as(&mut room, &mut state, "phone");
    assert_eq!(
        api_download_file(&room, &state, &with_token(&reply.token), "file-1").unwrap_err(),
        Refusal::FileNotFound
    );
}

#[test]
fn header_values_that_cannot_be_sent_are_replaced() {
    let (mut room, mut state) = start();
    let reply = join_as(&mut room, &mut state, "phone");
    let q = ApiQuery { mime: Some("a\nb".to_string()), ..with_token(&reply.token) };
    let mut plan = api_upload_file(&room, &mut state, &q, 1).unwrap();
    plan.file_name = "a\u{7f}b".to_string();
    record_upload(&mut state, plan);
    let d = api_download_file(&room, &state, &q, "file-3").unwrap();
    assert_eq!(d.original_name, "file");
    assert_eq!(d.original_mime, "application/octet-stream");
    assert_eq!(d.content_disposition, "attachment; filename=\"a_b.encrypted\"");
    let q = ApiQuery { mime: Some("a\tb".to_string()), ..q };
    let plan = api_upload_file(&room, &mut state, &q, 1).unwrap();
    record_upload(&mut state, plan);
    assert_eq!(api_download_file(&room, &state, &q, "file-5").unwrap().original_mime, "a\tb");
}
