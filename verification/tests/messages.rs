use sidewire::clock::{now_millis, now_secs, reading_millis, reading_secs, SinceEpoch};
use sidewire::messages::{
    add_message, add_message_at, clear_messages, find_file, list_messages, record_share, reserve_file,
    reserved_id, send_text, LinkState,
};

#[test]
fn identifiers_count_up() {
    let mut state = LinkState::new();
    assert_eq!(reserved_id(&mut state, "msg"), "msg-1");
    assert_eq!(reserved_id(&mut state, "file"), "file-2");
    assert_eq!(reserved_id(&mut state, ""), "-3");
    assert_eq!(state.next_id, 3);
}

#[test]
fn added_message_is_listed() {
    let mut state = LinkState::new();
    let m = add_message_at(
        &mut state,
        "user",
        "phone",
        "text",
        "hi".to_string(),
        Some("n".to_string()),
        Some(4),
        Some("m".to_string()),
        Some("u".to_string()),
        99,
    );
    assert_eq!(m.id, "msg-1");
    assert_eq!(m.created_at, 99);
    let listed = list_messages(&state);
    assert_eq!(listed.len(), 1);
    assert_eq!(listed[0].id, "msg-1");
    assert_eq!(listed[0].sender, "user");
    assert_eq!(listed[0].device_name, "phone");
    assert_eq!(listed[0].kind, "text");
    assert_eq!(listed[0].body, "hi");
    assert_eq!(listed[0].file_name.as_deref(), Some("n"));
    assert_eq!(listed[0].file_size, Some(4));
    assert_eq!(listed[0].file_mime.as_deref(), Some("m"));
    assert_eq!(listed[0].download_url.as_deref(), Some("u"));
    assert_eq!(listed[0].created_at, 99);
}

#[test]
fn messages_carry_the_time() {
    let before = now_millis();
    let mut state = LinkState::new();
    let m = add_message(&mut state, "user", "d", "text", String::new(), None, None, None, None);
    assert!(before <= m.created_at && m.created_at <= now_millis());
    assert!(before > 1_600_000_000_000);
    assert!(now_secs() >= before / 1000);
}

#[test]
fn clock_readings() {
    assert_eq!(reading_millis(None), 0);
    assert_eq!(reading_secs(None), 0);
    let t = Some(SinceEpoch { secs: 12, nanos: 345_999_999 });
    assert_eq!(reading_millis(t), 12_345);
    assert_eq!(reading_secs(t), 12);
    let far = Some(SinceEpoch { secs: u64::MAX, nanos: 0 });
    assert_eq!(reading_millis(far), (u64::MAX as u128 * 1000) as u64);
}

#[test]
fn text_is_trimmed_and_must_not_be_empty() {
    let mut state = LinkState::new();
    assert_eq!(send_text(&mut state, " \t ", "pc").unwrap_err(), "message is empty");
    assert_eq!(state.next_id, 0);
    let m = send_text(&mut state, "\u{2003}hello \n", "pc").unwrap();
    assert_eq!(m.body, "hello");
    assert_eq!(m.sender, "user");
    assert_eq!(m.kind, "text");
    assert_eq!(m.device_name, "pc");
    assert_eq!(state.messages.len(), 1);
}

#[test]
fn clearing_keeps_files_and_numbers() {
    let mut state = LinkState::new();
    let plan = reserve_file(&mut state, "a".to_string(), "m".to_string(), 1, "d".to_string());
    record_share(&mut state, plan);
    let left = clear_messages(&mut state);
    assert_eq!(left.len(), 1);
    assert_eq!(left[0].body, "Conversation cleared.");
    assert_eq!(left[0].sender, "system");
    assert_eq!(left[0].id, "msg-3");
    assert_eq!(state.messages.len(), 1);
    assert_eq!(state.messages[0].id, "msg-3");
    assert!(find_file(&state, "file-1").is_some());
}

#[test]
fn recorded_files_are_found() {
    let mut state = LinkState::new();
    assert!(find_file(&state, "file-1").is_none());
    let a = reserve_file(&mut state, "a.txt".to_string(), "m".to_string(), 7, "pc".to_string());
    let b = reserve_file(&mut state, "a.txt".to_string(), "m".to_string(), 8, "pc".to_string());
    assert_ne!(a.stored_name, b.stored_name);
    assert!(find_file(&state, "file-1").is_none());
    let m = record_share(&mut state, b);
    assert_eq!(m.body, "shared a.txt");
    assert_eq!(m.id, "msg-3");
    assert_eq!(m.device_name, "pc");
    assert_eq!(m.download_url.as_deref(), Some("/api/download/file-2"));
    record_share(&mut state, a);
    assert_eq!(find_file(&state, "file-1").unwrap().stored_name, "file-1-a.txt");
    assert_eq!(find_file(&state, "file-2").unwrap().stored_name, "file-2-a.txt");
    assert_eq!(find_file(&state, "file-2").unwrap().mime, "m");
    assert!(find_file(&state, "file-3").is_none());
}
