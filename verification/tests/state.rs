use kaku::app::{App, AppMode, FetchEvent, ModelFetch};
use kaku::attachment::{AttachmentOption, DirectoryFacts};
use kaku::context::TerminalContext;
use kaku::conversation::{
    persisted_messages, restore_messages, ConversationMeta, PersistedMessage,
};
use kaku::keys::{
    handle_key, handle_key_picker, handle_mouse, Action, KeyCode, KeyEvent, Modifiers, MouseEvent,
};
use kaku::message::{Message, MessageAttachment, Role};
use kaku::palette::{ChatPalette, Color};
use kaku::picker::{word_query, SlashCommand};
use kaku::prompt::{
    build_system_prompt, build_visible_snapshot_message, title_from_reply, title_request,
    ApiMessage, SYSTEM_PROMPT,
};
use kaku::stream::{Drained, StreamMsg};
use kaku::turn::Submitted;

fn color(n: u32) -> Color {
    Color { red: n, green: n, blue: n, alpha: n }
}

fn palette() -> ChatPalette {
    ChatPalette {
        bg: color(0),
        fg: color(1),
        accent: color(2),
        border: color(3),
        user_header: color(4),
        user_text: color(5),
        ai_text: color(6),
        dim_fg: color(7),
    }
}

fn context() -> TerminalContext {
    TerminalContext {
        cwd: "/tmp".to_string(),
        visible_lines: vec![],
        tab_snapshot: "snap".to_string(),
        selected_text: "sel".to_string(),
        colors: palette(),
    }
}

fn facts() -> DirectoryFacts {
    DirectoryFacts { is_dir: true, entries: Ok(vec![]), git: None, previews: vec![] }
}

fn app() -> App {
    let choices = vec!["m1".to_string(), "m2".to_string(), "m3".to_string()];
    App::new(
        context(),
        "m2".to_string(),
        choices,
        40,
        12,
        None,
        "id".to_string(),
        &vec![],
    )
}

fn typed(text: &str) -> App {
    let mut app = app();
    for c in text.chars() {
        press(&mut app, KeyCode::Char(c));
    }
    app
}

fn press(app: &mut App, key: KeyCode) -> Action {
    handle_key(&KeyEvent { key, modifiers: Modifiers::Plain }, app)
}

fn press_with(app: &mut App, key: KeyCode, modifiers: Modifiers) -> Action {
    handle_key(&KeyEvent { key, modifiers }, app)
}

fn kept(role: &str, content: &str) -> PersistedMessage {
    PersistedMessage { role: role.to_string(), content: content.to_string(), attachments: vec![] }
}

fn meta(id: &str) -> ConversationMeta {
    ConversationMeta {
        id: id.to_string(),
        summary: format!("about {}", id),
        updated_at: 0,
        message_count: 2,
    }
}

fn token(text: &str) -> StreamMsg {
    StreamMsg::Token(text.to_string())
}

// ─── Start ───────────────────────────────────────────────────────────────────

#[test]
fn curated_models_put_the_configured_one_first() {
    let app = app();
    assert_eq!(app.available_models, vec!["m2", "m1", "m3"]);
    assert_eq!(app.current_model(), "m2");
    assert!(matches!(app.model_fetch, ModelFetch::Loaded));
    assert!(!app.model_fetch_open);
}

#[test]
fn last_model_and_history_come_back() {
    let history = vec![kept("user", "q"), kept("assistant", "a")];
    let app = App::new(
        context(),
        "m1".to_string(),
        vec!["m1".to_string(), "m2".to_string()],
        40,
        12,
        Some("m2".to_string()),
        "id".to_string(),
        &history,
    );
    assert_eq!(app.current_model(), "m2");
    assert_eq!(app.messages.len(), 3);
    assert_eq!(app.messages[0].role, Role::User);
    assert!(app.messages[2].is_context && app.messages[2].content.is_empty());
}

#[test]
fn models_are_fetched_without_a_list() {
    let mut app = App::new(
        context(),
        "m1".to_string(),
        vec![],
        40,
        12,
        None,
        "id".to_string(),
        &vec![],
    );
    assert!(matches!(app.model_fetch, ModelFetch::Loading));
    assert!(!app.drain_model_fetch(FetchEvent::Pending, None));
    let list: Vec<String> = (0..40).map(|i| format!("m{}", i)).collect();
    assert!(app.drain_model_fetch(FetchEvent::Models(list), None));
    assert_eq!(app.available_models.len(), 30);
    assert_eq!(app.current_model(), "m1");
    assert!(!app.drain_model_fetch(FetchEvent::Disconnected, None));
}

#[test]
fn failed_fetches_are_told() {
    for (event, reason) in [
        (FetchEvent::Failed("boom".to_string()), "boom"),
        (FetchEvent::Disconnected, "fetch thread disconnected"),
    ] {
        let mut app = App::new(
            context(),
            "m1".to_string(),
            vec![],
            40,
            12,
            None,
            "id".to_string(),
            &vec![],
        );
        assert!(app.drain_model_fetch(event, None));
        assert!(matches!(&app.model_fetch, ModelFetch::Failed(e) if e == reason));
        let action = press_with(&mut app, KeyCode::Tab, Modifiers::Shift);
        assert!(matches!(action, Action::Flash));
        assert_eq!(app.model_status_flash, Some(format!("fetch failed: {}", reason)));
    }
}

// ─── Typing ──────────────────────────────────────────────────────────────────

#[test]
fn keys_edit_the_input() {
    let mut app = typed("añb");
    press(&mut app, KeyCode::LeftArrow);
    press(&mut app, KeyCode::Backspace);
    assert_eq!(app.input, "ab");
    assert_eq!(app.input_cursor, 1);
    press_with(&mut app, KeyCode::Char('X'), Modifiers::Shift);
    assert_eq!(app.input, "aXb");
    press_with(&mut app, KeyCode::Char('A'), Modifiers::Ctrl);
    assert_eq!(app.input_cursor, 0);
    press(&mut app, KeyCode::Backspace);
    assert_eq!(app.input, "aXb");
    press_with(&mut app, KeyCode::Char('E'), Modifiers::Ctrl);
    assert_eq!(app.input_cursor, 3);
    press(&mut app, KeyCode::RightArrow);
    assert_eq!(app.input_cursor, 3);
    press_with(&mut app, KeyCode::Char('U'), Modifiers::Ctrl);
    assert_eq!(app.input, "");
    assert_eq!(app.input_cursor, 0);
}

#[test]
fn deleting_undoes_typing() {
    let mut app = typed("xyz");
    press(&mut app, KeyCode::LeftArrow);
    press(&mut app, KeyCode::Char('é'));
    press(&mut app, KeyCode::Backspace);
    assert_eq!(app.input, "xyz");
    assert_eq!(app.input_cursor, 2);
}

#[test]
fn paste_drops_control_characters() {
    let mut app = typed("ab");
    press(&mut app, KeyCode::LeftArrow);
    assert!(app.paste("1\n2\u{7}3"));
    assert_eq!(app.input, "a123b");
    assert_eq!(app.input_cursor, 4);
    app.is_streaming = true;
    assert!(!app.paste("no"));
    assert_eq!(app.input, "a123b");
}

#[test]
fn streaming_holds_input_back() {
    let mut app = typed("hi");
    app.is_streaming = true;
    press(&mut app, KeyCode::Char('x'));
    assert_eq!(app.input, "hi");
    assert!(matches!(press(&mut app, KeyCode::Enter), Action::Continue));
    assert!(matches!(press(&mut app, KeyCode::Escape), Action::Quit));
}

#[test]
fn escape_and_control_c_quit() {
    let mut app = app();
    assert!(matches!(press(&mut app, KeyCode::Escape), Action::Quit));
    let action = press_with(&mut app, KeyCode::Char('C'), Modifiers::Ctrl);
    assert!(matches!(action, Action::Quit));
    assert!(matches!(press(&mut app, KeyCode::Other), Action::Continue));
}

#[test]
fn models_rotate() {
    let mut app = app();
    let mut seen = Vec::new();
    for _ in 0..3 {
        match press_with(&mut app, KeyCode::Tab, Modifiers::Shift) {
            Action::SaveModel(model) => seen.push(model),
            _ => panic!("expected a model"),
        }
    }
    assert_eq!(seen, vec!["m1", "m3", "m2"]);
    assert_eq!(app.model_index, 0);
}

#[test]
fn loading_models_flash() {
    let mut app = app();
    app.model_fetch = ModelFetch::Loading;
    let action = press_with(&mut app, KeyCode::Char('\t'), Modifiers::Shift);
    assert!(matches!(action, Action::Flash));
    assert_eq!(app.model_status_flash, Some("loading models…".to_string()));
    assert!(!app.expire_flash(1499));
    assert!(app.expire_flash(1500));
    assert_eq!(app.model_status_flash, None);
    assert!(!app.expire_flash(1500));
}

#[test]
fn waiting_time_depends_on_what_moves() {
    let mut app = app();
    assert_eq!(app.poll_timeout_millis(), 500);
    assert!(!app.redraws_when_idle());
    app.is_streaming = true;
    assert_eq!(app.poll_timeout_millis(), 30);
    assert!(app.redraws_when_idle());
    app.is_streaming = false;
    app.model_fetch = ModelFetch::Loading;
    assert_eq!(app.poll_timeout_millis(), 30);
    assert!(!app.redraws_when_idle());
}

// ─── Suggestions ─────────────────────────────────────────────────────────────

#[test]
fn word_at_the_cursor_is_found() {
    assert_eq!(word_query("a @cw b", 4, '@'), Some((2, 5, "@cw".to_string())));
    assert_eq!(word_query("a @cw b", 2, '@'), Some((2, 5, "@cw".to_string())));
    assert_eq!(word_query("a @cw b", 1, '@'), None);
    assert_eq!(word_query("a @cw b", 9, '@'), None);
    assert_eq!(word_query("  ", 1, '@'), None);
}

#[test]
fn attachments_are_suggested_by_prefix() {
    let app = typed("see @");
    assert_eq!(
        app.attachment_picker_options(),
        vec![AttachmentOption::Cwd, AttachmentOption::Tab, AttachmentOption::Selection]
    );
    assert_eq!(typed("@T").attachment_picker_options(), vec![AttachmentOption::Tab]);
    assert_eq!(typed("@@t").attachment_picker_options(), vec![AttachmentOption::Tab]);
    assert_eq!(typed("@x").attachment_picker_options(), vec![]);
    let mut app = typed("@s");
    assert_eq!(app.attachment_picker_options(), vec![AttachmentOption::Selection]);
    app.context.selected_text = "  ".to_string();
    assert_eq!(app.attachment_picker_options(), vec![]);
}

#[test]
fn commands_are_suggested_by_prefix() {
    assert_eq!(
        typed("/").slash_picker_options(),
        vec![SlashCommand::New, SlashCommand::Resume]
    );
    assert_eq!(typed("/R").slash_picker_options(), vec![SlashCommand::Resume]);
    assert_eq!(typed("/x").slash_picker_options(), vec![]);
    assert_eq!(typed("x").slash_picker_options(), vec![]);
}

#[test]
fn highlight_wraps_around() {
    let mut app = typed("@");
    press(&mut app, KeyCode::UpArrow);
    assert_eq!(app.attachment_picker_index, 2);
    press(&mut app, KeyCode::DownArrow);
    assert_eq!(app.attachment_picker_index, 0);
    press(&mut app, KeyCode::DownArrow);
    assert_eq!(app.attachment_picker_index, 1);
    let mut app = typed("/");
    assert!(app.move_slash_picker(-3));
    assert_eq!(app.attachment_picker_index, 1);
    assert!(!app.move_attachment_picker(1));
    assert_eq!(app.attachment_picker_index, 0);
}

#[test]
fn accepted_token_gets_a_space() {
    let mut app = typed("see @ta");
    assert!(matches!(press(&mut app, KeyCode::Tab), Action::Continue));
    assert_eq!(app.input, "see @tab ");
    assert_eq!(app.input_cursor, 9);
    let mut app = typed("@ta x");
    press_with(&mut app, KeyCode::Char('A'), Modifiers::Ctrl);
    assert!(matches!(press(&mut app, KeyCode::Enter), Action::Continue));
    assert_eq!(app.input, "@tab x");
    assert_eq!(app.input_cursor, 4);
}

#[test]
fn exact_token_does_not_hold_enter_back() {
    let mut app = typed("why @tab");
    assert!(matches!(press(&mut app, KeyCode::Enter), Action::Submit));
    assert_eq!(app.input, "why @tab");
}

#[test]
fn command_is_accepted_and_submitted() {
    let mut app = typed("/re");
    assert!(matches!(press(&mut app, KeyCode::Enter), Action::Submit));
    assert_eq!(app.input, "/resume");
    let submitted = app.submit(&facts());
    assert!(matches!(submitted, Submitted::Command(SlashCommand::Resume)));
    assert_eq!(app.input, "");
}

// ─── Sending ─────────────────────────────────────────────────────────────────

#[test]
fn message_is_sent() {
    let mut app = typed(" what @tab now ");
    assert!(!app.wants_directory());
    let turn = match app.submit(&facts()) {
        Submitted::Sent(turn) => turn,
        _ => panic!("expected a turn"),
    };
    assert_eq!(turn.model, "m2");
    assert_eq!(turn.cwd, "/tmp");
    assert!(app.is_streaming && app.stream_open);
    assert_eq!(app.input, "");
    assert_eq!(app.messages.last().unwrap().content, "what now");
    assert_eq!(turn.messages.len(), 2);
    assert!(matches!(&turn.messages[0], ApiMessage::System(_)));
    assert!(matches!(
        &turn.messages[1],
        ApiMessage::User(t) if t.starts_with("Attached context.") && t.ends_with("what now")
    ));
}

#[test]
fn rejected_message_stays_in_the_input() {
    let mut app = typed("@cwd");
    assert!(app.wants_directory());
    assert!(matches!(app.submit(&facts()), Submitted::Rejected));
    assert_eq!(app.input, "@cwd");
    assert!(!app.is_streaming);
    let note = app.messages.last().unwrap();
    assert_eq!(note.content, "Add a question after the attachment token.");
    assert!(note.is_context);
}

#[test]
fn empty_input_is_not_sent() {
    let mut app = typed("  ");
    assert!(matches!(app.submit(&facts()), Submitted::Nothing));
    assert_eq!(app.messages.len(), 0);
}

#[test]
fn history_is_limited_and_unfinished_answers_are_held_back() {
    let mut app = app();
    for i in 0..15 {
        app.push_message(Message::user_text(format!("q{}", i), vec![]));
        app.push_message(Message::text(Role::Assistant, format!("a{}", i), true, false));
        app.push_message(Message::tool_event("t".to_string(), String::new()));
    }
    app.push_note("note");
    app.push_message(Message::text(Role::Assistant, "half".to_string(), false, false));
    let sent = app.build_api_messages();
    // The system prompt, and twenty texts of which the last is not finished.
    assert_eq!(sent.len(), 20);
    assert!(matches!(&sent[1], ApiMessage::Assistant(t) if t == "a5"));
    assert!(matches!(&sent[19], ApiMessage::Assistant(t) if t == "a14"));
}

// ─── The stream ──────────────────────────────────────────────────────────────

fn sending() -> App {
    let mut app = typed("q");
    assert!(matches!(app.submit(&facts()), Submitted::Sent(_)));
    app
}

fn drain_all(app: &mut App) -> usize {
    let mut rounds = 0;
    loop {
        rounds += 1;
        if app.drain_tokens(vec![]).save {
            return rounds;
        }
        assert!(rounds < 1000);
    }
}

#[test]
fn answer_is_shown_piece_by_piece() {
    let mut app = sending();
    let first = app.drain_tokens(vec![StreamMsg::AssistantStart, token("he\u{301}llo")]);
    assert_eq!(first, Drained { changed: true, save: false });
    assert_eq!(app.messages.last().unwrap().content, "h");
    let second = app.drain_tokens(vec![]);
    assert!(second.changed);
    // A letter and its accent are one piece.
    assert_eq!(app.messages.last().unwrap().content, "he\u{301}");
    app.drain_tokens(vec![token("!"), StreamMsg::Done]);
    assert!(!app.stream_open && app.is_streaming);
    drain_all(&mut app);
    let answer = app.messages.last().unwrap();
    assert_eq!(answer.content, "he\u{301}llo!");
    assert!(answer.complete);
    assert!(!app.is_streaming);
}

#[test]
fn long_queues_drain_faster() {
    for (waiting, shown) in [(5, 1), (6, 3), (30, 3), (31, 6), (80, 6), (81, 12)] {
        let mut app = sending();
        app.drain_tokens(vec![StreamMsg::AssistantStart, token(&"x".repeat(waiting))]);
        assert_eq!(app.messages.last().unwrap().content.len(), shown);
        assert_eq!(app.grapheme_queue.len(), waiting - shown);
    }
}

#[test]
fn text_goes_behind_the_answer_and_not_the_tool() {
    let mut app = sending();
    app.drain_tokens(vec![
        StreamMsg::AssistantStart,
        token("abc"),
        StreamMsg::ToolStart { name: "fs_read".to_string(), args_preview: "p".to_string() },
    ]);
    app.drain_tokens(vec![StreamMsg::ToolDone { result_preview: "r".to_string() }, StreamMsg::Done]);
    drain_all(&mut app);
    assert_eq!(app.messages[1].content, "abc");
    assert!(app.messages[1].complete);
    assert_eq!(app.messages[2].content, "r");
    assert!(app.messages[2].complete && !app.messages[2].tool_failed);
}

#[test]
fn failed_tool_is_marked() {
    let mut app = sending();
    app.drain_tokens(vec![
        StreamMsg::ToolStart { name: "x".to_string(), args_preview: String::new() },
        StreamMsg::ToolFailed { error: "bad".to_string() },
    ]);
    let tool = app.messages.last().unwrap();
    assert!(tool.complete && tool.tool_failed);
    assert_eq!(tool.content, "bad");
}

#[test]
fn error_takes_the_place_of_an_open_answer() {
    let mut app = sending();
    app.drain_tokens(vec![StreamMsg::AssistantStart, token("ab")]);
    app.drain_tokens(vec![StreamMsg::Failed("gone".to_string())]);
    assert_eq!(app.messages.last().unwrap().content, "[error: gone]");
    assert_eq!(app.messages.len(), 2);
    assert!(!app.is_streaming);
}

#[test]
fn error_without_an_answer_is_a_new_message() {
    let mut app = sending();
    let drained = app.drain_tokens(vec![StreamMsg::Failed("gone".to_string())]);
    assert_eq!(drained, Drained { changed: true, save: true });
    assert_eq!(app.messages.len(), 2);
    assert_eq!(app.messages[1].content, "[error: gone]");
    assert_eq!(app.messages[1].role, Role::Assistant);
}

#[test]
fn approval_stops_draining() {
    let ask = StreamMsg::ApprovalRequired { summary: "delete: x".to_string() };
    assert!(ask.stops_draining());
    assert!(StreamMsg::Done.stops_draining());
    assert!(!token("x").stops_draining());
    let mut app = sending();
    app.drain_tokens(vec![ask]);
    assert_eq!(app.pending_approval, Some("delete: x".to_string()));
}

#[test]
fn every_key_answers_the_agent() {
    for (key, approved) in [
        (KeyCode::Enter, true),
        (KeyCode::Char('y'), true),
        (KeyCode::Char('Y'), true),
        (KeyCode::Char('n'), false),
        (KeyCode::Escape, false),
        (KeyCode::UpArrow, false),
    ] {
        let mut app = app();
        app.pending_approval = Some("x".to_string());
        match press(&mut app, key) {
            Action::Reply(r) => assert_eq!(r, approved),
            _ => panic!("expected a reply"),
        }
        assert_eq!(app.pending_approval, None);
    }
}

// ─── Conversations ───────────────────────────────────────────────────────────

#[test]
fn only_finished_texts_are_kept() {
    let mut app = app();
    app.welcome();
    app.push_message(Message::user_text(
        "q".to_string(),
        vec![MessageAttachment::new("tab", "@tab", "p".to_string())],
    ));
    app.push_message(Message::tool_event("t".to_string(), String::new()));
    app.push_message(Message::text(Role::Assistant, "a".to_string(), true, false));
    app.push_message(Message::text(Role::Assistant, "open".to_string(), false, false));
    let kept = app.collect_persisted_messages();
    let texts: Vec<(&str, &str)> =
        kept.iter().map(|m| (m.role.as_str(), m.content.as_str())).collect();
    assert_eq!(texts, vec![("user", "q"), ("assistant", "a")]);
    assert_eq!(kept[0].attachments[0].label, "@tab");
}

#[test]
fn saved_conversation_loads_as_it_was() {
    let history = vec![kept("user", "q"), kept("assistant", "a")];
    let again = persisted_messages(&restore_messages(&history));
    assert_eq!(again.len(), 2);
    for (a, b) in again.iter().zip(history.iter()) {
        assert_eq!(a.role, b.role);
        assert_eq!(a.content, b.content);
    }
    assert_eq!(restore_messages(&vec![]).len(), 0);
}

#[test]
fn nothing_is_archived_before_something_is_said() {
    let mut app = app();
    assert!(app.start_new_conversation().is_none());
    assert_eq!(
        app.messages.last().unwrap().content,
        "Nothing to archive yet. Start chatting first."
    );
}

#[test]
fn new_conversation_starts_empty() {
    let mut app = app();
    app.push_message(Message::user_text("q".to_string(), vec![]));
    let archive = app.start_new_conversation().expect("archive");
    assert_eq!(archive.id, "id");
    assert_eq!(archive.messages.len(), 1);
    app.finish_new_conversation(Some("next".to_string()));
    assert_eq!(app.active_id, "next");
    assert_eq!(app.messages.len(), 1);
    assert_eq!(
        app.messages[0].content,
        "Started a new conversation. Type /resume to browse previous ones."
    );
    assert!(app.collect_persisted_messages().is_empty());
    app.finish_new_conversation(None);
    assert_eq!(app.active_id, "next");
}

#[test]
fn active_conversation_is_not_offered() {
    let mut app = app();
    app.enter_resume_picker(&vec![meta("id")]);
    assert!(matches!(app.mode, AppMode::Chat));
    assert_eq!(
        app.messages.last().unwrap().content,
        "No other saved conversations. Use /new first to archive the current one."
    );
    app.enter_resume_picker(&vec![meta("a"), meta("id"), meta("b")]);
    match &app.mode {
        AppMode::ResumePicker { items, cursor } => {
            assert_eq!(*cursor, 0);
            let ids: Vec<&str> = items.iter().map(|m| m.id.as_str()).collect();
            assert_eq!(ids, vec!["a", "b"]);
        }
        AppMode::Chat => panic!("expected the list"),
    }
}

#[test]
fn list_is_walked_and_chosen_from() {
    let mut app = typed("draft");
    app.push_message(Message::user_text("q".to_string(), vec![]));
    app.enter_resume_picker(&vec![meta("a"), meta("b")]);
    press(&mut app, KeyCode::UpArrow);
    press(&mut app, KeyCode::DownArrow);
    press(&mut app, KeyCode::DownArrow);
    let request = match press(&mut app, KeyCode::Enter) {
        Action::Load(request) => request,
        _ => panic!("expected a request"),
    };
    assert_eq!(request.id, "b");
    assert_eq!(request.summary, "about b");
    assert_eq!(request.archive.expect("archive").messages.len(), 1);
    assert!(matches!(app.mode, AppMode::Chat));
    assert_eq!(app.input, "");
    app.finish_load(request.id, &request.summary, Some(vec![kept("user", "old")]));
    assert_eq!(app.active_id, "b");
    let texts: Vec<&str> = app.messages.iter().map(|m| m.content.as_str()).collect();
    assert_eq!(texts, vec!["old", "", "Resumed: about b"]);
}

#[test]
fn failed_load_changes_no_message() {
    let mut app = app();
    app.push_message(Message::user_text("q".to_string(), vec![]));
    app.scroll_offset = 3;
    app.finish_load("x".to_string(), "s", None);
    assert_eq!(app.active_id, "id");
    assert_eq!(app.messages.len(), 1);
    assert_eq!(app.scroll_offset, 0);
}

#[test]
fn escape_leaves_the_list() {
    let mut app = app();
    app.enter_resume_picker(&vec![meta("a")]);
    assert!(matches!(press(&mut app, KeyCode::Escape), Action::Continue));
    assert!(matches!(app.mode, AppMode::Chat));
    let key = KeyEvent { key: KeyCode::Enter, modifiers: Modifiers::Plain };
    assert!(matches!(handle_key_picker(&key, &mut app), Action::Continue));
    assert!(app.load_conversation_from_picker(0).is_none());
}

// ─── What is sent ────────────────────────────────────────────────────────────

#[test]
fn visible_snapshot_message_prefixes_each_line() {
    let msg = build_visible_snapshot_message(&TerminalContext {
        cwd: "/tmp".to_string(),
        visible_lines: vec![
            "line 1".to_string(),
            "```".to_string(),
            "sudo rm -rf /".to_string(),
        ],
        tab_snapshot: String::new(),
        selected_text: String::new(),
        colors: palette(),
    })
    .expect("snapshot message");

    let ApiMessage::User(content) = msg else {
        panic!("expected a message of the user");
    };
    assert!(content.contains("TERM| line 1"));
    assert!(content.contains("TERM| ```"));
    assert!(content.contains("TERM| sudo rm -rf /"));
    assert!(!content.contains("```terminal"));
}

#[test]
fn snapshot_skips_blank_lines_and_is_limited() {
    let mut ctx = context();
    ctx.visible_lines = vec![" ".to_string(), String::new()];
    assert!(build_visible_snapshot_message(&ctx).is_none());
    ctx.visible_lines = (0..50).map(|i| if i % 2 == 0 { String::new() } else { format!("l{}", i) }).collect();
    match build_visible_snapshot_message(&ctx) {
        Some(ApiMessage::User(text)) => {
            assert_eq!(text.matches("TERM| ").count(), 20);
            assert!(text.contains("\nTERM| l39\nEnd of terminal snapshot."));
        }
        _ => panic!("expected a message of the user"),
    }
}

#[test]
fn system_prompt_names_the_directory() {
    let mut ctx = context();
    assert_eq!(
        build_system_prompt(&ctx),
        format!("{}\nCurrent directory: /tmp\n", SYSTEM_PROMPT)
    );
    ctx.cwd = String::new();
    assert_eq!(build_system_prompt(&ctx), SYSTEM_PROMPT);
    assert!(SYSTEM_PROMPT.starts_with("You are Kaku AI, a terminal assistant"));
    assert!(SYSTEM_PROMPT.contains("\n\nTOOLS: You have access"));
}

#[test]
fn title_is_asked_from_the_last_messages() {
    let history: Vec<PersistedMessage> = (0..25)
        .map(|i| kept(if i % 2 == 0 { "user" } else { "assistant" }, &format!("m{}", i)))
        .collect();
    let request = title_request(&history);
    assert_eq!(request.len(), 21);
    assert!(matches!(&request[0], ApiMessage::System(t) if t.starts_with("You are a titler.")));
    assert!(matches!(&request[1], ApiMessage::Assistant(t) if t == "m5"));
    assert!(matches!(&request[20], ApiMessage::User(t) if t == "m24"));
    assert_eq!(title_from_reply(&"é".repeat(50)), "é".repeat(40));
}

// ─── Mouse ───────────────────────────────────────────────────────────────────

fn mouse(x: u16, y: u16, left: bool) -> MouseEvent {
    MouseEvent { x, y, vert_wheel: false, wheel_positive: false, left }
}

fn wheel(up: bool) -> MouseEvent {
    MouseEvent { x: 0, y: 0, vert_wheel: true, wheel_positive: up, left: false }
}

fn long_chat() -> App {
    let mut app = app();
    for i in 0..10 {
        app.push_message(Message::user_text(format!("message {}", i), vec![]));
    }
    app.rebuild_display_cache();
    app
}

#[test]
fn wheel_and_keys_scroll_within_limits() {
    let mut app = long_chat();
    assert_eq!(app.display_lines().len(), 30);
    assert_eq!(app.msg_area_height(), 8);
    handle_mouse(&wheel(true), &mut app);
    assert_eq!(app.scroll_offset, 2);
    press(&mut app, KeyCode::PageUp);
    assert_eq!(app.scroll_offset, 5);
    for _ in 0..10 {
        press(&mut app, KeyCode::UpArrow);
    }
    assert_eq!(app.scroll_offset, 22);
    assert_eq!(app.first_visible_line(), 0);
    handle_mouse(&wheel(false), &mut app);
    assert_eq!(app.scroll_offset, 20);
    for _ in 0..10 {
        press(&mut app, KeyCode::DownArrow);
    }
    assert_eq!(app.scroll_offset, 0);
    assert_eq!(app.first_visible_line(), 22);
}

#[test]
fn drag_selects_and_click_does_not() {
    let mut app = long_chat();
    handle_mouse(&mouse(3, 1, true), &mut app);
    handle_mouse(&mouse(3, 1, true), &mut app);
    assert_eq!(app.selection, None);
    handle_mouse(&mouse(5, 2, true), &mut app);
    assert_eq!(app.selection, Some((22, 3, 23, 5)));
    handle_mouse(&mouse(6, 3, true), &mut app);
    assert_eq!(app.selection, Some((22, 3, 24, 6)));
    handle_mouse(&mouse(6, 3, false), &mut app);
    assert!(!app.selecting);
    assert_eq!(app.selection, Some((22, 3, 24, 6)));
    handle_mouse(&mouse(1, 1, true), &mut app);
    handle_mouse(&mouse(1, 1, false), &mut app);
    assert_eq!(app.selection, None);
}

#[test]
fn drag_outside_the_messages_selects_nothing() {
    let mut app = long_chat();
    handle_mouse(&mouse(3, 0, true), &mut app);
    handle_mouse(&mouse(3, 4, true), &mut app);
    assert_eq!(app.selection, None);
    assert_eq!(app.drag_origin, None);
}

#[test]
fn resizing_asks_for_new_lines() {
    let mut app = long_chat();
    assert!(!app.display_lines_dirty);
    app.resize(80, 24);
    assert!(app.display_lines_dirty);
    assert_eq!(app.content_width(), 76);
    assert_eq!(app.msg_area_height(), 20);
}
