use infini::app::{App, FocusedBlock, UiCommand, command_of_key};
use infini::cancel::CancellationFlag;
use infini::config::{ChatGPTConfig, KeyBindings};
use infini::events::{Event, EventQueue, Key, KeyInput, Notification, NotificationLevel};
use infini::explore::Input;
use infini::llm::{ChatGPT, LLM, LLMAnswer};
use infini::prompt::Mode;
use infini::spinner::Spinner;

fn provider() -> ChatGPT {
    ChatGPT::new(
        ChatGPTConfig {
            openai_api_key: Some("k".to_string()),
            model: "m".to_string(),
            url: "u".to_string(),
        },
        None,
    )
    .unwrap()
}

#[test]
fn submit_then_stream_then_commit() {
    let mut app = App::new();
    let mut llm = provider();

    assert!(!app.submit_user(&mut llm, "   \n\t "));
    assert!(llm.messages.is_empty());

    assert!(app.submit_user(&mut llm, "  hello\n"));
    assert_eq!(llm.messages.len(), 1);
    assert_eq!(llm.messages[0].role, "user");
    assert_eq!(llm.messages[0].content, "hello");
    assert!(app.spinner.active);
    assert!(app.chat.waiting);

    app.handle_llm_event(&mut llm, LLMAnswer::StartAnswer);
    assert!(!app.spinner.active);
    assert!(!app.chat.waiting);

    app.handle_llm_event(&mut llm, LLMAnswer::Answer("well hi".to_string()));
    app.handle_llm_event(&mut llm, LLMAnswer::EndAnswer);

    assert_eq!(llm.messages.len(), 2);
    assert_eq!(llm.messages[1].role, "assistant");
    assert_eq!(llm.messages[1].content, "well hi");
    assert_eq!(app.chat.plain_chat.len(), 2);
    assert_eq!(app.chat.plain_chat[1], "\u{1f916}: well hi");
    assert!(!app.terminate_response_signal.requested);
}

#[test]
fn new_chat_archives_and_clears() {
    let mut app = App::new();
    let mut llm = provider();
    app.submit_user(&mut llm, "one");
    app.handle_llm_event(&mut llm, LLMAnswer::StartAnswer);
    app.handle_llm_event(&mut llm, LLMAnswer::Answer("two".to_string()));
    app.handle_llm_event(&mut llm, LLMAnswer::EndAnswer);

    app.new_chat(&mut llm);
    assert!(llm.messages.is_empty());
    assert!(app.chat.plain_chat.is_empty());
    assert_eq!(app.history.len(), 1);
    assert_eq!(app.history[0].len(), 2);
}

#[test]
fn transport_error_becomes_a_synthetic_turn() {
    let mut app = App::new();
    let mut llm = provider();
    app.submit_user(&mut llm, "hi");
    // The request failed before any opening event was emitted.
    app.handle_transport_error("error sending request");
    assert!(!app.chat.streaming);
    assert!(!app.spinner.active);
    assert_eq!(app.chat.plain_chat.len(), 2);
    assert_eq!(app.chat.plain_chat[1], "\u{1f916}: error sending request");
    assert_eq!(app.chat.formatted_chat.len(), 2);
}

#[test]
fn tick_ages_and_drops_notifications() {
    let mut app = App::new();
    app.notifications.push(Notification::new("saved".to_string(), NotificationLevel::Info));
    app.notifications.push(Notification {
        message: "old".to_string(),
        level: NotificationLevel::Error,
        ttl: 0,
    });
    app.tick();
    assert_eq!(app.notifications.len(), 1);
    assert_eq!(app.notifications[0].message, "saved");
    assert_eq!(app.notifications[0].ttl, 4);
}

#[test]
fn tick_animates_only_an_active_spinner() {
    let mut app = App::new();
    app.tick();
    assert_eq!(app.spinner.index, 0);
    app.spinner.active = true;
    app.tick();
    assert_eq!(app.spinner.index, 1);
}

#[test]
fn spinner_cycles_through_its_glyphs() {
    let mut s = Spinner::new();
    assert_eq!(s.draw(), '\u{28f7}');
    for _ in 0..8 {
        s.update();
    }
    assert_eq!(s.index, 0);
    s.update();
    assert_eq!(s.draw(), '\u{28ef}');
}

#[test]
fn event_queue_is_first_in_first_out() {
    let mut q = EventQueue::new();
    assert!(q.next().is_none());
    q.send(Event::Tick);
    q.send(Event::LLMEvent(LLMAnswer::StartAnswer));
    q.send(Event::Resize(80, 24));
    assert_eq!(q.len(), 3);
    assert!(matches!(q.next(), Some(Event::Tick)));
    assert!(matches!(q.next(), Some(Event::LLMEvent(LLMAnswer::StartAnswer))));
    assert!(matches!(q.next(), Some(Event::Resize(80, 24))));
    assert!(q.next().is_none());
}

#[test]
fn cancellation_flag_lifecycle() {
    let mut f = CancellationFlag::new();
    assert!(!f.is_set());
    f.set();
    assert!(f.is_set());
    f.reset();
    assert!(!f.is_set());
    // Resetting an already clear flag is harmless.
    f.reset();
    assert!(!f.is_set());
}

#[test]
fn keys_map_to_their_commands() {
    let kb = KeyBindings::default();
    let plain = |c: char| KeyInput { code: Key::Char(c), ctrl: false };
    let ctrl = |c: char| KeyInput { code: Key::Char(c), ctrl: true };

    let at_prompt = FocusedBlock::Prompt;
    assert_eq!(
        command_of_key(plain('q'), &at_prompt, &Mode::Normal, Key::Null, &kb),
        UiCommand::Quit
    );
    assert_eq!(
        command_of_key(plain('q'), &at_prompt, &Mode::Insert, Key::Null, &kb),
        UiCommand::Pass
    );
    assert_eq!(
        command_of_key(ctrl('c'), &at_prompt, &Mode::Insert, Key::Null, &kb),
        UiCommand::Quit
    );
    assert_eq!(
        command_of_key(ctrl('t'), &at_prompt, &Mode::Insert, Key::Null, &kb),
        UiCommand::StopStream
    );
    assert_eq!(
        command_of_key(ctrl('n'), &at_prompt, &Mode::Normal, Key::Null, &kb),
        UiCommand::NewChat
    );
    assert_eq!(
        command_of_key(ctrl('s'), &at_prompt, &Mode::Normal, Key::Null, &kb),
        UiCommand::SaveChat
    );
    assert_eq!(
        command_of_key(plain('j'), &FocusedBlock::Chat, &Mode::Normal, Key::Null, &kb),
        UiCommand::ScrollDown
    );
    assert_eq!(
        command_of_key(plain('j'), &FocusedBlock::FileExplorer, &Mode::Normal, Key::Null, &kb),
        UiCommand::ExplorerInput
    );
    assert_eq!(
        command_of_key(plain('g'), &FocusedBlock::Chat, &Mode::Normal, Key::Char('g'), &kb),
        UiCommand::MoveToTop
    );
    assert_eq!(
        command_of_key(plain('g'), &FocusedBlock::Chat, &Mode::Normal, Key::Null, &kb),
        UiCommand::Pass
    );
    assert_eq!(
        command_of_key(plain('?'), &at_prompt, &Mode::Normal, Key::Null, &kb),
        UiCommand::ShowHelp
    );
    assert_eq!(
        command_of_key(ctrl('h'), &at_prompt, &Mode::Normal, Key::Null, &kb),
        UiCommand::ShowHistory
    );
    assert_eq!(
        command_of_key(
            KeyInput { code: Key::Esc, ctrl: false },
            &FocusedBlock::Help,
            &Mode::Normal,
            Key::Null,
            &kb,
        ),
        UiCommand::DismissPopup
    );
    assert_eq!(
        command_of_key(
            KeyInput { code: Key::Tab, ctrl: false },
            &at_prompt,
            &Mode::Normal,
            Key::Null,
            &kb,
        ),
        UiCommand::SwitchFocus
    );
}

#[test]
fn browser_keys_map_to_movements() {
    let plain = |code: Key| KeyInput { code, ctrl: false };
    assert_eq!(Input::from_key(plain(Key::Char('j'))), Input::Down);
    assert_eq!(Input::from_key(plain(Key::Up)), Input::Up);
    assert_eq!(Input::from_key(plain(Key::Backspace)), Input::Left);
    assert_eq!(Input::from_key(plain(Key::Enter)), Input::Right);
    assert_eq!(Input::from_key(plain(Key::Char('x'))), Input::NoOp);
}
