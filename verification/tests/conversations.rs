use sidewire::clock::SinceEpoch;
use sidewire::conversations::{
    conversation_file_name, is_conversation_file, label_at, list_saved_conversations,
    save_conversation, save_conversation_at, SavedConversation,
};
use sidewire::messages::{send_text, LinkState};

fn saved(id: &str, saved_at: u64) -> Option<SavedConversation> {
    Some(SavedConversation {
        id: id.to_string(),
        label: String::new(),
        saved_at,
        messages: vec![],
    })
}

#[test]
fn labels_tell_day_and_time() {
    let at = |secs: u64| label_at(Some(SinceEpoch { secs, nanos: 0 }));
    assert_eq!(at(0), "Conversation - Day 0 at 00:00");
    assert_eq!(at(86_400 * 19_000 + 3_600 * 9 + 60 * 5 + 59), "Conversation - Day 19000 at 09:05");
    assert_eq!(at(86_399), "Conversation - Day 0 at 23:59");
    assert_eq!(label_at(None), "Conversation");
}

#[test]
fn saved_conversation_has_an_identifier_and_a_label() {
    let mut state = LinkState::new();
    send_text(&mut state, "hi", "pc").unwrap();
    let c = save_conversation_at(" Trip ", &state.messages, 17, 18, None);
    assert_eq!(c.id, "conv-17");
    assert_eq!(c.label, " Trip ");
    assert_eq!(c.saved_at, 18);
    assert_eq!(c.messages.len(), 1);
    assert_eq!(c.messages[0].body, "hi");
    let c = save_conversation_at(" \t", &state.messages, 17, 18, None);
    assert_eq!(c.label, "Conversation");
    let c = save_conversation("", &state.messages);
    assert!(c.id.starts_with("conv-1"));
    assert!(c.label.starts_with("Conversation - Day "));
    assert!(c.saved_at > 1_600_000_000_000);
}

#[test]
fn conversation_files_are_named_after_the_identifier() {
    assert_eq!(conversation_file_name("conv-17"), "conv-17.json");
    let a = save_conversation_at("a", &vec![], 1, 1, None);
    let b = save_conversation_at("a", &vec![], 11, 1, None);
    assert_ne!(conversation_file_name(&a.id), conversation_file_name(&b.id));
    assert!(is_conversation_file(&Some("json".to_string())));
    assert!(!is_conversation_file(&Some("JSON".to_string())));
    assert!(!is_conversation_file(&None));
}

#[test]
fn conversations_are_listed_newest_first() {
    let found = vec![saved("a", 2), None, saved("b", 5), saved("c", 2), saved("d", 9), saved("e", 5)];
    let ids: Vec<String> = list_saved_conversations(found).into_iter().map(|c| c.id).collect();
    assert_eq!(ids, ["d", "b", "e", "a", "c"]);
    assert!(list_saved_conversations(vec![None]).is_empty());
}
