use infini::chat::Chat;
use infini::llm::LLMAnswer;

#[test]
fn commit_appends_one_entry_to_both_logs() {
    let mut chat = Chat::new();
    chat.handle_answer(LLMAnswer::StartAnswer);
    chat.handle_answer(LLMAnswer::Answer("Hel".to_string()));
    chat.handle_answer(LLMAnswer::Answer("lo".to_string()));
    assert_eq!(chat.answer.plain_answer, "Hello");
    assert_eq!(chat.answer.formatted_answer, "\u{1f916}: Hello");
    assert!(chat.plain_chat.is_empty());

    chat.handle_answer(LLMAnswer::EndAnswer);
    assert_eq!(chat.plain_chat.len(), 1);
    assert_eq!(chat.formatted_chat.len(), 1);
    assert_eq!(chat.plain_chat[0], "\u{1f916}: Hello");
    assert_eq!(chat.formatted_chat[0], "\u{1f916}: Hello");
    assert_eq!(chat.answer.plain_answer, "");
    assert!(!chat.streaming);
}

#[test]
fn events_out_of_state_are_ignored() {
    let mut chat = Chat::new();
    // An answer or a terminal event while idle changes nothing.
    chat.handle_answer(LLMAnswer::Answer("stray".to_string()));
    chat.handle_answer(LLMAnswer::EndAnswer);
    assert!(chat.plain_chat.is_empty());
    assert_eq!(chat.answer.plain_answer, "");

    // A second opening event while streaming changes nothing.
    chat.handle_answer(LLMAnswer::StartAnswer);
    chat.handle_answer(LLMAnswer::Answer("kept".to_string()));
    chat.handle_answer(LLMAnswer::StartAnswer);
    assert_eq!(chat.answer.plain_answer, "kept");
}

#[test]
fn start_discards_waiting_placeholder() {
    let mut chat = Chat::new();
    chat.waiting = true;
    chat.handle_answer(LLMAnswer::StartAnswer);
    assert!(!chat.waiting);
    assert!(chat.streaming);
}

#[test]
fn rendering_recomputes_from_full_text() {
    let mut chat = Chat::new();
    chat.handle_answer(LLMAnswer::StartAnswer);
    chat.handle_answer(LLMAnswer::Answer("one ".to_string()));
    assert_eq!(chat.answer.formatted_answer, "\u{1f916}: one ");
    chat.handle_answer(LLMAnswer::Answer("two".to_string()));
    assert_eq!(chat.answer.formatted_answer, "\u{1f916}: one two");
}

#[test]
fn surface_error_keeps_logs_in_lock_step() {
    let mut chat = Chat::new();
    chat.surface_error("connection refused");
    assert_eq!(chat.plain_chat.len(), 1);
    assert_eq!(chat.formatted_chat.len(), 1);
    assert_eq!(chat.plain_chat[0], "\u{1f916}: connection refused");
    assert!(!chat.streaming);
}

#[test]
fn user_turns_enter_both_logs() {
    let mut chat = Chat::new();
    chat.push_user_turn("hello there");
    assert_eq!(chat.plain_chat.len(), 1);
    assert_eq!(chat.formatted_chat.len(), 1);
    assert_eq!(chat.plain_chat[0], "\u{1f464} : hello there\n");
    assert_eq!(chat.formatted_chat[0], "\u{1f464}: hello there\n");
}

#[test]
fn export_joins_the_plain_log_in_order() {
    let mut chat = Chat::new();
    chat.push_user_turn("hi");
    chat.handle_answer(LLMAnswer::StartAnswer);
    chat.handle_answer(LLMAnswer::Answer("yo".to_string()));
    chat.handle_answer(LLMAnswer::EndAnswer);
    let exported = chat.export_plain();
    assert_eq!(exported, "\u{1f464} : hi\n\u{1f916}: yo");
}
