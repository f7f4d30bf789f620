use kaku::app::App;
use kaku::context::TerminalContext;
use kaku::conversation::ConversationMeta;
use kaku::display::{
    build_display_lines, emit_assistant_markdown, emit_user_lines, format_tool_suffix, BlockStyle,
    DisplayLine, ToolRef,
};
use kaku::frame::{cursor_column, meta_line, render};
use kaku::keys::{handle_key, Action, KeyCode, KeyEvent, Modifiers};
use kaku::markdown::{InlineSpan, InlineStyle};
use kaku::measure::{
    byte_pos_at_visual_col, chars_before_column, pad_from, pad_to_visual_width, truncate,
};
use kaku::message::{Message, MessageAttachment, Role};
use kaku::paint::{
    build_line_runs, emit_styled_line, inline_cell, paint_runs, MeasuredRun, Paint, StyledRun,
};
use kaku::palette::{CellStyle, ChatPalette, Color};
use kaku::selection::{cut_line, rendered_text, Selected};
use kaku::text::{char_to_byte_pos, decimal};

fn color(n: u32) -> Color {
    Color { red: n, green: n, blue: n, alpha: n }
}

fn palette() -> ChatPalette {
    ChatPalette {
        bg: color(0),
        fg: color(1),
        accent: color(2),
        border: color(3),
        user_header: color(4),
        user_text: color(5),
        ai_text: color(6),
        dim_fg: color(7),
    }
}

fn cell(fg: u32, bg: u32) -> CellStyle {
    CellStyle { foreground: color(fg), background: color(bg), bold: false, italic: false }
}

fn app(cols: usize, rows: usize) -> App {
    let context = TerminalContext {
        cwd: String::new(),
        visible_lines: vec![],
        tab_snapshot: String::new(),
        selected_text: String::new(),
        colors: palette(),
    };
    App::new(
        context,
        "m".to_string(),
        vec!["m".to_string(), "n".to_string()],
        cols,
        rows,
        None,
        "id".to_string(),
        &vec![],
    )
}

/// The screen that a frame draws, row by row. Every character takes one cell here.
fn screen(paints: &[Paint], rows: usize) -> Vec<String> {
    let mut out = vec![String::new(); rows];
    let mut row = 0;
    for p in paints {
        match p {
            Paint::MoveTo { row: r, .. } => row = *r,
            Paint::Text(t) if !t.starts_with('\u{1b}') => out[row].push_str(t),
            _ => {}
        }
    }
    out
}

fn text_of(line: &DisplayLine) -> String {
    rendered_text(line)
}

// ─── Measures ────────────────────────────────────────────────────────────────

#[test]
fn columns_count_wide_characters_twice() {
    assert_eq!(byte_pos_at_visual_col("a日b", 1), 1);
    assert_eq!(byte_pos_at_visual_col("a日b", 2), 4);
    assert_eq!(byte_pos_at_visual_col("a日b", 3), 4);
    assert_eq!(byte_pos_at_visual_col("a日b", 9), 5);
    assert_eq!(pad_to_visual_width("日", 4), "日  ");
    assert_eq!(pad_to_visual_width("abc", 2), "abc");
    assert_eq!(pad_from("x", 3, 5), "x  ");
    assert_eq!(truncate("日本語", 2), "日本");
    assert_eq!(chars_before_column(&vec![1, 2, 1], 2), 2);
}

#[test]
fn offsets_are_those_of_characters() {
    assert_eq!(char_to_byte_pos("aé日x", 0), 0);
    assert_eq!(char_to_byte_pos("aé日x", 2), 3);
    assert_eq!(char_to_byte_pos("aé日x", 3), 6);
    assert_eq!(char_to_byte_pos("aé日x", 9), 7);
    assert_eq!(decimal(0), "0");
    assert_eq!(decimal(10205), "10205");
}

// ─── Lines ───────────────────────────────────────────────────────────────────

#[test]
fn tools_stand_in_the_header_of_their_answer() {
    let tool = |name: &str, args: &str, complete: bool, failed: bool| ToolRef {
        name: name.to_string(),
        args: args.to_string(),
        complete,
        failed,
    };
    let suffix = format_tool_suffix(&vec![
        tool("fs_list", "/path", true, false),
        tool("shell", "", false, false),
        tool("x", "y", true, true),
    ]);
    assert_eq!(suffix, "  ✓ fs_list /path  ⚙ shell  ✗ x y");
    let mut messages = vec![Message::tool_event("ls".to_string(), "a".to_string())];
    let waiting = build_display_lines(&messages, 20);
    assert_eq!(waiting.len(), 1);
    assert_eq!(text_of(&waiting[0]), "  AI  ⚙ ls a");
    messages.push(Message::text(Role::Assistant, "done".to_string(), true, false));
    let lines: Vec<String> = build_display_lines(&messages, 20).iter().map(text_of).collect();
    assert_eq!(lines, vec!["  AI  ⚙ ls a", "  done", ""]);
}

#[test]
fn tools_never_stand_in_a_header_of_the_user() {
    let messages = vec![
        Message::tool_event("ls".to_string(), "a".to_string()),
        Message::user_text("next".to_string(), vec![]),
    ];
    let lines: Vec<String> = build_display_lines(&messages, 20).iter().map(text_of).collect();
    assert_eq!(lines[0], "  AI  ⚙ ls a");
    assert_eq!(lines[1], "  You");
    assert_eq!(lines[2], "  next");
}

#[test]
fn headers_show_every_tool_once() {
    let messages = vec![
        Message::tool_event("a".to_string(), String::new()),
        Message::tool_event("b".to_string(), String::new()),
        Message::text(Role::Assistant, "x".to_string(), true, false),
        Message::tool_event("c".to_string(), String::new()),
    ];
    let mut names = Vec::new();
    for line in build_display_lines(&messages, 20) {
        if let DisplayLine::Header { tools, .. } = line {
            names.extend(tools.into_iter().map(|t| t.name));
        }
    }
    assert_eq!(names, vec!["a", "b", "c"]);
}

#[test]
fn attachments_and_cursor_are_shown() {
    let messages = vec![
        Message::user_text(
            "q".to_string(),
            vec![
                MessageAttachment::new("cwd", "@cwd", String::new()),
                MessageAttachment::new("tab", "@tab", String::new()),
            ],
        ),
        Message::text(Role::Assistant, String::new(), false, false),
    ];
    let lines: Vec<String> = build_display_lines(&messages, 20).iter().map(text_of).collect();
    assert_eq!(lines, vec!["  Attached: @cwd @tab", "  You", "  q", "", "  AI", "  ▋", ""]);
}

#[test]
fn user_text_is_literal() {
    let mut lines = Vec::new();
    emit_user_lines(&mut lines, "**a**\n\nb", 20);
    let texts: Vec<String> = lines.iter().map(text_of).collect();
    assert_eq!(texts, vec!["  **a**", "  ", "  b"]);
}

#[test]
fn markdown_blocks_become_lines() {
    let mut lines = Vec::new();
    emit_assistant_markdown(&mut lines, "# H\n> quoted text\n- one two\n---\n\n```\nx\n```", 8);
    let texts: Vec<String> = lines.iter().map(text_of).collect();
    assert_eq!(
        texts,
        vec![
            "  H",
            "  │ quoted",
            "  │ text",
            "  • one ",
            "    two",
            "  ────────",
            "",
            "  x",
        ]
    );
    assert!(matches!(&lines[0], DisplayLine::Text { block: BlockStyle::Heading(1), .. }));
    assert!(matches!(&lines[7], DisplayLine::Text { segments, .. } if segments[0].style == InlineStyle::Code));
}

// ─── Looks ───────────────────────────────────────────────────────────────────

#[test]
fn palette_gives_each_cell_its_colors() {
    let pal = palette();
    assert_eq!(pal.accent_cell(), cell(2, 0));
    assert_eq!(pal.border_dim_cell(), cell(3, 0));
    assert_eq!(pal.plain_cell(), cell(1, 0));
    assert_eq!(pal.user_header_cell(), CellStyle { bold: true, ..cell(4, 0) });
    assert_eq!(pal.user_text_cell(), cell(5, 0));
    assert_eq!(pal.ai_header_cell(), CellStyle { bold: true, ..cell(2, 0) });
    assert_eq!(pal.ai_text_cell(), cell(6, 0));
    assert_eq!(pal.input_cell(), cell(7, 0));
    assert_eq!(pal.selection_cell(), cell(0, 1));
    assert_eq!(pal.picker_cursor_cell(), cell(0, 2));
}

#[test]
fn emphasis_adds_to_the_line() {
    let pal = palette();
    let italic = inline_cell(InlineStyle::Italic, BlockStyle::Normal, &pal);
    assert_eq!(italic, CellStyle { italic: true, ..cell(6, 0) });
    let heading = inline_cell(InlineStyle::Bold, BlockStyle::Heading(1), &pal);
    assert_eq!(heading, CellStyle { bold: true, ..cell(2, 0) });
    assert_eq!(inline_cell(InlineStyle::Code, BlockStyle::Heading(1), &pal), cell(7, 0));
    assert_eq!(inline_cell(InlineStyle::Plain, BlockStyle::Hr, &pal), cell(3, 0));
}

#[test]
fn runs_hold_the_text_of_the_line() {
    let line = DisplayLine::Text {
        segments: vec![
            InlineSpan { text: "a".to_string(), style: InlineStyle::Plain },
            InlineSpan { text: "b".to_string(), style: InlineStyle::Bold },
        ],
        role: Role::Assistant,
        block: BlockStyle::Quote,
    };
    let runs: Vec<StyledRun> = build_line_runs(&line, &palette());
    let joined: String = runs.iter().map(|r| r.text.as_str()).collect();
    assert_eq!(joined, "  │ ab");
    assert_eq!(joined, rendered_text(&line));
    assert_eq!(runs[1].style, cell(3, 0));
}

fn run(text: &str, width: usize) -> MeasuredRun {
    MeasuredRun {
        style: cell(5, 0),
        text: text.to_string(),
        width,
        char_widths: vec![1; text.chars().count()],
        cuts: (1..=text.chars().count()).map(|n| (n, n)).collect(),
    }
}

fn texts(paints: &[Paint]) -> Vec<String> {
    paints
        .iter()
        .filter_map(|p| match p {
            Paint::Text(t) => Some(t.clone()),
            _ => None,
        })
        .collect()
}

#[test]
fn rows_are_padded_and_cut() {
    let pal = palette();
    let mut out = Vec::new();
    paint_runs(&mut out, &vec![run("ab", 2), run("", 0), run("c", 1)], 5, 1, None, &pal);
    assert_eq!(texts(&out), vec!["ab", "c", "  "]);
    let mut out = Vec::new();
    paint_runs(&mut out, &vec![run("abc", 3), run("def", 3), run("g", 1)], 5, 1, None, &pal);
    assert_eq!(texts(&out), vec!["abc", "de"]);
}

fn drawn(text: &str, inner_w: usize) -> Vec<String> {
    let mut out = Vec::new();
    let runs = vec![StyledRun { style: cell(5, 0), text: text.to_string() }];
    emit_styled_line(&mut out, &runs, inner_w, None, &palette());
    texts(&out)
}

#[test]
fn wide_characters_do_not_overflow_a_row() {
    assert_eq!(drawn("日本", 4), vec!["日本"]);
    assert_eq!(drawn("日本", 3), vec!["日", " "]);
    assert_eq!(drawn("日本", 2), vec!["日"]);
    assert_eq!(drawn("日本", 1), vec!["", " "]);
    assert_eq!(drawn("a日本", 4), vec!["a日", " "]);
    assert_eq!(drawn("日本", 6), vec!["日本", "  "]);
    assert_eq!(drawn("e\u{301}x", 1), vec!["e\u{301}"]);
    // A cluster may be wider than its characters together, and is never cut apart.
    assert_eq!(drawn("❤\u{fe0f}❤\u{fe0f}", 4), vec!["❤\u{fe0f}❤\u{fe0f}"]);
    assert_eq!(drawn("❤\u{fe0f}❤\u{fe0f}", 3), vec!["❤\u{fe0f}", " "]);
    assert_eq!(drawn("❤\u{fe0f}", 1), vec!["", " "]);
    // What follows a run that was cut is not drawn into the column that is left.
    let pal = palette();
    let mut out = Vec::new();
    let wide = MeasuredRun {
        style: cell(5, 0),
        text: "日本".to_string(),
        width: 4,
        char_widths: vec![2, 2],
        cuts: vec![(1, 2), (2, 4)],
    };
    paint_runs(&mut out, &vec![wide, run("x", 1)], 3, 1, Some((0, 3)), &pal);
    assert_eq!(texts(&out), vec!["日", " "]);
}

#[test]
fn selection_changes_looks_only() {
    let pal = palette();
    let runs = vec![run("abc", 3), run("def", 3)];
    let mut plain = Vec::new();
    paint_runs(&mut plain, &runs, 8, 1, None, &pal);
    let mut selected = Vec::new();
    paint_runs(&mut selected, &runs, 8, 1, Some((1, 4)), &pal);
    assert_eq!(texts(&selected), vec!["a", "bc", "d", "ef", "  "]);
    assert_eq!(texts(&plain).concat(), texts(&selected).concat());
    let highlighted: Vec<bool> = selected
        .iter()
        .filter_map(|p| match p {
            Paint::Style(s) => Some(*s == pal.selection_cell()),
            _ => None,
        })
        .collect();
    assert_eq!(highlighted, vec![false, true, true, false, false]);
}

// ─── Selection ───────────────────────────────────────────────────────────────

fn chat_with(text: &str) -> App {
    let mut app = app(30, 12);
    app.push_message(Message::user_text(text.to_string(), vec![]));
    app.rebuild_display_cache();
    app
}

fn copied(app: &mut App) -> Action {
    handle_key(&KeyEvent { key: KeyCode::Char('c'), modifiers: Modifiers::Super }, app)
}

#[test]
fn selection_is_cut_by_columns() {
    let mut app = chat_with("hello\nworld");
    // Lines: header, two lines of text, a blank one. Text starts in column 3.
    app.selection = Some((1, 5, 2, 6));
    match copied(&mut app) {
        Action::Copy(text) => assert_eq!(text, "llo\nwor"),
        _ => panic!("expected text"),
    }
    assert!(app.selection.is_some());
    assert_eq!(app.extract_selection_text(), Some("llo\nwor".to_string()));
    // The other way round it is the same.
    app.selection = Some((2, 6, 1, 5));
    assert_eq!(app.extract_selection_text(), Some("llo\nwor".to_string()));
    // A key that does not copy dismisses it.
    handle_key(&KeyEvent { key: KeyCode::Char('x'), modifiers: Modifiers::Plain }, &mut app);
    assert_eq!(app.selection, None);
}

#[test]
fn selection_beyond_the_lines_is_empty() {
    let mut app = chat_with("x");
    app.selection = Some((9, 1, 10, 1));
    assert!(matches!(app.selected_text(), Selected::Nothing));
    assert!(matches!(copied(&mut app), Action::Continue));
    app.selection = None;
    assert!(matches!(app.selected_text(), Selected::Nothing));
}

#[test]
fn selection_that_lost_its_lines_may_cross() {
    let mut app = chat_with("hello");
    // The last line that is left is the one in which the selection starts.
    app.selection = Some((1, 6, 9, 2));
    app.cached_display_lines.truncate(2);
    assert!(matches!(app.selected_text(), Selected::Crossed));
    assert!(matches!(copied(&mut app), Action::CrossedSelection));
}

#[test]
fn line_is_cut_between_columns() {
    let widths = vec![1, 2, 1];
    assert_eq!(cut_line(" 日b", &widths, 0, 3), Some("日".to_string()));
    assert_eq!(cut_line("a日b", &widths, 1, 1), Some(String::new()));
    assert_eq!(cut_line("a日b", &widths, 3, 1), None);
}

// ─── Frames ──────────────────────────────────────────────────────────────────

#[test]
fn chat_frame_is_drawn() {
    let mut app = app(40, 9);
    app.push_message(Message::text(Role::Assistant, "hi".to_string(), true, false));
    app.rebuild_display_cache();
    let paints = render(&app);
    let rows = screen(&paints, 9);
    assert!(rows[0].starts_with("╭─ Kaku AI · m (1/2) · ⇧⇥ switch"));
    assert_eq!(rows[1], format!("│  AI{}│", " ".repeat(34)));
    assert_eq!(rows[2], format!("│  hi{}│", " ".repeat(34)));
    assert_eq!(rows[4], format!("│{}│", " ".repeat(38)));
    assert_eq!(rows[6], format!("├{}┤", "─".repeat(38)));
    assert_eq!(rows[7], format!("│  > {}│", " ".repeat(34)));
    assert_eq!(rows[8], format!("╰{}╯", "─".repeat(38)));
    assert!(matches!(paints.first(), Some(Paint::Text(t)) if t == "\u{1b}[?2026h"));
    assert!(matches!(paints.last(), Some(Paint::Text(t)) if t == "\u{1b}[?2026l"));
    assert!(matches!(paints[paints.len() - 2], Paint::ShowCursor(true)));
    assert!(matches!(paints[paints.len() - 3], Paint::MoveTo { col: 5, row: 7 }));
}

#[test]
fn cursor_is_shown_last_unless_the_agent_waits() {
    let mut app = app(30, 12);
    let frame = render(&app);
    assert!(matches!(frame[frame.len() - 2], Paint::ShowCursor(true)));
    app.pending_approval = Some("mkdir: x".to_string());
    let frame = render(&app);
    assert!(matches!(frame[frame.len() - 2], Paint::ShowCursor(false)));
}

#[test]
fn cursor_follows_wide_text() {
    let mut app = app(40, 9);
    app.paste("日本");
    let paints = render(&app);
    assert!(matches!(paints[paints.len() - 3], Paint::MoveTo { col: 9, row: 7 }));
    assert_eq!(cursor_column(4, 100, 40), 38);
    assert_eq!(cursor_column(4, 2, 1), 0);
}

#[test]
fn suggestions_take_the_place_of_the_separator() {
    let mut app = app(90, 9);
    app.paste("/n");
    let rows = screen(&render(&app), 9);
    assert!(rows[6].starts_with("│  ↑↓ navigate · Enter select   /new Start a new conversation"));
    app.input = "@".to_string();
    app.input_cursor = 1;
    let rows = screen(&render(&app), 9);
    assert!(rows[6].starts_with(
        "│  ↑↓ navigate · Tab select   @cwd folder summary  @tab terminal snapshot"
    ));
}

#[test]
fn approval_takes_the_place_of_the_input() {
    let mut app = app(50, 9);
    app.pending_approval = Some("delete: x".to_string());
    let paints = render(&app);
    let rows = screen(&paints, 9);
    assert_eq!(rows[7], format!("│  Allow: delete: x  [Enter=yes  n=no]{}│", " ".repeat(11)));
    assert!(matches!(paints[paints.len() - 2], Paint::ShowCursor(false)));
}

#[test]
fn status_and_wait_are_shown() {
    let mut app = app(60, 9);
    app.model_status_flash = Some("loading models…".to_string());
    app.is_streaming = true;
    let rows = screen(&render(&app), 9);
    assert!(rows[0].starts_with("╭─ Kaku AI · loading models… · ⇧⇥ switch · ESC exit ─"));
    assert!(rows[0].ends_with("─╮"));
    assert!(rows[7].starts_with("│  ⏳ "));
}

fn meta(summary: &str, updated_at: i64) -> ConversationMeta {
    ConversationMeta {
        id: "x".to_string(),
        summary: summary.to_string(),
        updated_at,
        message_count: 4,
    }
}

#[test]
fn list_of_conversations_is_drawn() {
    let mut app = app(60, 9);
    app.enter_resume_picker(&vec![meta("talk", 1_431_648_000), meta("…", i64::MAX)]);
    let paints = render(&app);
    let rows = screen(&paints, 9);
    assert!(rows[0].starts_with("╭─ Resume Conversation · 2 saved · ESC cancel ─"));
    assert!(rows[1].starts_with("│ 2015-05-15 00:00 talk (4 msgs) "));
    assert!(rows[2].starts_with("│ unknown (no summary yet) (4 msgs) "));
    assert_eq!(rows[3], format!("│{}│", " ".repeat(58)));
    assert!(rows[7].starts_with("│  ↑↓ select · Enter load · Esc cancel "));
    assert!(paints.iter().any(|p| matches!(p, Paint::Style(s) if *s == palette().picker_cursor_cell())));
}

#[test]
fn titles_are_cut_in_the_list() {
    let long = meta(&"t".repeat(40), 0);
    assert_eq!(
        meta_line(&long, &Some("now".to_string())),
        format!(" now {} (4 msgs)", "t".repeat(30))
    );
    assert_eq!(meta_line(&meta("", 0), &None), " unknown (no summary yet) (4 msgs)");
}

#[test]
fn tiny_panes_are_drawn() {
    for (cols, rows) in [(0, 0), (1, 1), (2, 3), (5, 5)] {
        let app = app(cols, rows);
        let paints = render(&app);
        assert!(paints.len() > 5);
    }
}
