//! The whole pane, as changes of the screen.

use crate::app::{App, AppMode, AppView, FetchView, ModeView, ModelFetch};
use crate::attachment::{option_description, option_label, AttachmentOption};
use crate::conversation::{ConversationMeta, MetaView};
use crate::display::{DisplayLine, LineView};
use crate::keys::visible_start;
use crate::measure::{column_width, column_width_spec, pad_to_visual_width, padded_spec, truncate};
use crate::paint::{
    build_line_runs, cursor_row, emit_styled_line, is_narrow, is_row, law_rows_show_their_text,
    law_selection_sees_what_is_drawn, lemma_row_added, lemma_row_of_one, lemma_row_of_parts,
    lemma_runs_text_push, lemma_styled_row_stays, lemma_styled_stays, line_runs, measured_spec,
    paint, paint_text, painted_text, runs_text, stays_in_row, styled, styled_row, text_in_row,
    Paint, PaintView, StyledRun, StyledView,
};
use crate::palette::{plain_style, CellStyle, ChatPalette};
use crate::picker::{
    attachment_suggestions, command_description, command_label, command_suggestions, SlashCommand,
};
use crate::selection::{content_column, in_order, line_text, ordered};
use crate::text::{
    decimal, decimal_spec, join_spec, prefix, repeat_char, repeat_spec, take_chars, take_spec, to_chars,
};
use vstd::prelude::*;

verus! {

// ─── Columns and rows ────────────────────────────────────────────────────────

/// What is left of `a` without `b`, and at least nothing.
pub open spec fn less(a: usize, b: usize) -> usize {
    if a > b {
        (a - b) as usize
    } else {
        0
    }
}

/// The columns between the borders.
pub open spec fn inner_width(app: AppView) -> usize {
    less(app.cols, 2)
}

/// Put the cursor at the start of a row.
pub open spec fn row_start(row: usize) -> Seq<PaintView> {
    seq![PaintView::MoveTo { col: 0, row }]
}

fn start_row(out: &mut Vec<Paint>, row: usize)
    ensures
        final(out).deep_view() == old(out).deep_view() + row_start(row),
{
    let ghost given = out.deep_view();
    paint(out, Paint::MoveTo { col: 0, row });
    assert(out.deep_view() =~= given + row_start(row));
}

/// A dim vertical border.
pub open spec fn side_border(pal: ChatPalette) -> Seq<PaintView> {
    styled(plain_style(pal.border, pal.bg), "│"@)
}

fn paint_side_border(out: &mut Vec<Paint>, pal: &ChatPalette)
    ensures
        final(out).deep_view() == old(out).deep_view() + side_border(*pal),
{
    paint_text(out, pal.border_dim_cell(), "│".to_string());
}

/// The start of a frame: the terminal holds it back until it is complete, the cursor is hidden,
/// and the screen is filled with the background color.
pub open spec fn frame_start(pal: ChatPalette) -> Seq<PaintView> {
    seq![
        PaintView::Text("\x1b[?2026h"@),
        PaintView::ShowCursor(false),
        PaintView::Style(plain_style(pal.fg, pal.bg)),
        PaintView::Clear(pal.bg),
    ]
}

fn start_frame(out: &mut Vec<Paint>, pal: &ChatPalette)
    ensures
        final(out).deep_view() == old(out).deep_view() + frame_start(*pal),
{
    let ghost given = out.deep_view();
    paint(out, Paint::Text("\x1b[?2026h".to_string()));
    paint(out, Paint::ShowCursor(false));
    paint(out, Paint::Style(pal.plain_cell()));
    paint(out, Paint::Clear(pal.bg));
    assert(out.deep_view() =~= given + frame_start(*pal));
}

/// The end of a frame: the terminal shows it.
pub open spec fn frame_end() -> Seq<PaintView> {
    seq![PaintView::Text("\x1b[?2026l"@)]
}

fn end_frame(out: &mut Vec<Paint>)
    ensures
        final(out).deep_view() == old(out).deep_view() + frame_end(),
{
    let ghost given = out.deep_view();
    paint(out, Paint::Text("\x1b[?2026l".to_string()));
    assert(out.deep_view() =~= given + frame_end());
}

/// The text of the top border with a title, in a pane of `cols` columns.
pub open spec fn top_line(title: Seq<char>, cols: usize) -> Seq<char> {
    let inner = less(cols, 2);
    let rest = if inner > title.len() + 2 {
        (inner - title.len() - 2) as nat
    } else {
        0
    };
    take_spec("╭─"@ + title + repeat_spec('─', rest) + "─╮"@, cols as nat)
}

/// The top border with a title.
pub open spec fn top_border(title: Seq<char>, cols: usize, pal: ChatPalette) -> Seq<PaintView> {
    row_start(0) + styled(plain_style(pal.accent, pal.bg), top_line(title, cols))
}

fn paint_top_border(out: &mut Vec<Paint>, title: &str, cols: usize, pal: &ChatPalette)
    ensures
        final(out).deep_view() == old(out).deep_view() + top_border(title@, cols, *pal),
{
    let ghost given = out.deep_view();
    let inner_w: usize = cols.saturating_sub(2);
    let title_width: usize = title.unicode_len();
    let border_fill: usize = inner_w.saturating_sub(title_width);
    let mut line: String = "╭─".to_string();
    line.append(title);
    line.append(repeat_char('─', border_fill.saturating_sub(2)).as_str());
    line.append("─╮");
    start_row(out, 0);
    paint_text(out, pal.accent_cell(), truncate(line.as_str(), cols));
    assert(out.deep_view() =~= given + top_border(title@, cols, *pal));
}

/// A rule between two corners.
pub open spec fn rule(left: Seq<char>, right: Seq<char>, width: usize) -> Seq<char> {
    left + repeat_spec('─', width as nat) + right
}

fn rule_text(left: &str, right: &str, width: usize) -> (r: String)
    ensures
        r@ == rule(left@, right@, width),
{
    let mut out: String = left.to_string();
    out.append(repeat_char('─', width).as_str());
    out.append(right);
    out
}

/// The separator between the message area and the input.
pub open spec fn separator_row(app: AppView) -> Seq<PaintView> {
    row_start(less(app.rows, 3)) + styled(
        plain_style(app.context.colors.border, app.context.colors.bg),
        rule("├"@, "┤"@, inner_width(app)),
    )
}

/// The bottom border.
pub open spec fn bottom_border(app: AppView) -> Seq<PaintView> {
    row_start(less(app.rows, 1)) + styled(
        plain_style(app.context.colors.accent, app.context.colors.bg),
        rule("╰"@, "╯"@, inner_width(app)),
    )
}

/// A row without text.
pub open spec fn empty_row(row: usize, inner_w: usize, pal: ChatPalette) -> Seq<PaintView> {
    row_start(row) + side_border(pal) + styled(
        plain_style(pal.fg, pal.bg),
        padded_spec(Seq::empty(), inner_w as nat),
    ) + side_border(pal)
}

fn paint_empty_row(out: &mut Vec<Paint>, row: usize, inner_w: usize, pal: &ChatPalette)
    ensures
        final(out).deep_view() == old(out).deep_view() + empty_row(row, inner_w, *pal),
{
    let ghost given = out.deep_view();
    start_row(out, row);
    paint_side_border(out, pal);
    proof {
        reveal_strlit("");
        assert(""@ =~= Seq::empty());
    }
    paint_text(out, pal.plain_cell(), pad_to_visual_width("", inner_w));
    paint_side_border(out, pal);
    assert(out.deep_view() =~= given + empty_row(row, inner_w, *pal));
}

/// `s` with spaces behind it up to `width` characters.
pub open spec fn char_padded(s: Seq<char>, width: nat) -> Seq<char> {
    if s.len() < width {
        s + repeat_spec(' ', (width - s.len()) as nat)
    } else {
        s
    }
}

fn pad_chars(s: String, width: usize) -> (r: String)
    ensures
        r@ == char_padded(s@, width as nat),
{
    let n: usize = s.as_str().unicode_len();
    let mut out: String = s;
    if n < width {
        out.append(repeat_char(' ', width - n).as_str());
    }
    out
}

// ─── Title ───────────────────────────────────────────────────────────────────

/// What the title says of the list of models.
pub open spec fn model_suffix(app: AppView) -> Seq<char> {
    match app.model_fetch {
        FetchView::Loading => " · loading…"@,
        FetchView::Failed(_) => " · (list failed)"@,
        FetchView::Loaded => if app.available_models.len() > 1 {
            " ("@ + decimal_spec((app.model_index + 1) as nat) + "/"@ + decimal_spec(
                app.available_models.len(),
            ) + ")"@
        } else {
            Seq::empty()
        },
    }
}

/// The title of the chat: a status for a short time, otherwise the model.
pub open spec fn chat_title(app: AppView) -> Seq<char> {
    let shown = match app.model_status_flash {
        Some(flash) => flash,
        None => app.current_model() + model_suffix(app),
    };
    " Kaku AI · "@ + shown + " · ⇧⇥ switch · ESC exit "@
}

fn title_text(app: &App) -> (r: String)
    requires
        app.deep_view().wf(),
    ensures
        r@ == chat_title(app.deep_view()),
{
    let mut title: String = " Kaku AI · ".to_string();
    match &app.model_status_flash {
        Some(flash) => {
            title.append(flash.as_str());
        },
        None => {
            let mut shown: String = app.current_model();
            assert(app.available_models.deep_view().len() == app.available_models@.len());
            match &app.model_fetch {
                ModelFetch::Loading => {
                    shown.append(" · loading…");
                },
                ModelFetch::Failed(_) => {
                    shown.append(" · (list failed)");
                },
                ModelFetch::Loaded => {
                    if app.available_models.len() > 1 {
                        let mut suffix: String = " (".to_string();
                        suffix.append(decimal((app.model_index + 1) as u64).as_str());
                        suffix.append("/");
                        suffix.append(decimal(app.available_models.len() as u64).as_str());
                        suffix.append(")");
                        shown.append(suffix.as_str());
                    }
                },
            }
            assert(shown@ =~= app.deep_view().current_model() + model_suffix(app.deep_view()));
            title.append(shown.as_str());
        },
    }
    title.append(" · ⇧⇥ switch · ESC exit ");
    title
}

// ─── Message area ────────────────────────────────────────────────────────────

/// The content columns of the line `i` that are selected.
pub open spec fn selected_range(app: AppView, i: int) -> Option<(usize, usize)> {
    match app.selection {
        Some(given) => {
            let (r0, c0, r1, c1) = ordered(given);
            if r0 <= i <= r1 {
                Some(
                    (
                        if i == r0 {
                            content_column(c0) as usize
                        } else {
                            0
                        },
                        if i == r1 {
                            content_column(c1) as usize
                        } else {
                            inner_width(app)
                        },
                    ),
                )
            } else {
                None
            }
        },
        None => None,
    }
}

fn range_for(app: &App, i: usize) -> (r: Option<(usize, usize)>)
    ensures
        r == selected_range(app.deep_view(), i as int),
{
    match app.selection {
        Some(given) => {
            let (r0, c0, r1, c1) = in_order(given);
            if r0 <= i && i <= r1 {
                let sc: usize = if i == r0 {
                    c0.saturating_sub(1)
                } else {
                    0
                };
                let ec: usize = if i == r1 {
                    c1.saturating_sub(1)
                } else {
                    app.cols.saturating_sub(2)
                };
                Some((sc, ec))
            } else {
                None
            }
        },
        None => None,
    }
}

/// How many lines are visible.
pub open spec fn visible_count(app: AppView) -> int {
    let left = app.cached_display_lines.len() - visible_start(app);
    if left < app.msg_area_height() {
        left
    } else {
        app.msg_area_height() as int
    }
}

/// The visible line `k`, counted from the first visible one.
pub open spec fn message_row(app: AppView, k: int) -> Seq<PaintView> {
    let pal = app.context.colors;
    let i = visible_start(app) + k;
    row_start((k + 1) as usize) + side_border(pal) + styled_row(
        line_runs(app.cached_display_lines[i], pal),
        inner_width(app) as nat,
        selected_range(app, i),
        pal,
    ) + side_border(pal)
}

/// The first `n` rows of the message area: visible lines, and empty rows behind them.
pub open spec fn message_rows(app: AppView, n: int) -> Seq<PaintView>
    decreases n,
{
    if n <= 0 {
        Seq::empty()
    } else {
        message_rows(app, n - 1) + if n - 1 < visible_count(app) {
            message_row(app, n - 1)
        } else {
            empty_row(n as usize, inner_width(app), app.context.colors)
        }
    }
}

fn paint_message_row(out: &mut Vec<Paint>, app: &App, first: usize, k: usize)
    requires
        first == visible_start(app.deep_view()),
        k < visible_count(app.deep_view()),
    ensures
        final(out).deep_view() == old(out).deep_view() + message_row(app.deep_view(), k as int),
{
    let ghost given = out.deep_view();
    let pal: &ChatPalette = &app.context.colors;
    let lines: &Vec<DisplayLine> = app.display_lines();
    proof {
        assert(lines.deep_view().len() == lines@.len());
        assert(lines@.len() == lines.len());
    }
    let i: usize = first + k;
    assert(lines.deep_view()[i as int] == lines@[i as int].deep_view());
    start_row(out, k + 1);
    paint_side_border(out, pal);
    let runs: Vec<StyledRun> = build_line_runs(&lines[i], pal);
    emit_styled_line(out, &runs, app.cols.saturating_sub(2), range_for(app, i), pal);
    paint_side_border(out, pal);
    assert(out.deep_view() =~= given + message_row(app.deep_view(), k as int));
}

fn paint_message_rows(out: &mut Vec<Paint>, app: &App)
    ensures
        final(out).deep_view() == old(out).deep_view() + message_rows(
            app.deep_view(),
            app.deep_view().msg_area_height() as int,
        ),
{
    let ghost given = out.deep_view();
    let ghost view = app.deep_view();
    let height: usize = app.msg_area_height();
    let first: usize = app.first_visible_line();
    proof {
        let lines = app.cached_display_lines;
        assert(lines.deep_view().len() == lines@.len());
        assert(lines@.len() == lines.len());
    }
    let left: usize = app.display_lines().len() - first;
    let count: usize = if left < height {
        left
    } else {
        height
    };
    let inner_w: usize = app.cols.saturating_sub(2);
    let mut k: usize = 0;
    assert(out.deep_view() =~= given + message_rows(view, 0));
    while k < height
        invariant
            k <= height,
            height == view.msg_area_height(),
            height < usize::MAX,
            view == app.deep_view(),
            first == visible_start(view),
            count == visible_count(view),
            inner_w == inner_width(view),
            out.deep_view() == given + message_rows(view, k as int),
        decreases height - k,
    {
        if k < count {
            paint_message_row(out, app, first, k);
        } else {
            paint_empty_row(out, k + 1, inner_w, &app.context.colors);
        }
        assert(out.deep_view() =~= given + message_rows(view, k + 1));
        k += 1;
    }
}

// ─── Suggestions ─────────────────────────────────────────────────────────────

/// The runs of the row of suggestions: a hint, and the entries with the highlighted one.
pub open spec fn suggestion_runs(
    hint: Seq<char>,
    entries: Seq<Seq<char>>,
    selected: int,
    n: int,
    pal: ChatPalette,
) -> Seq<StyledView>
    decreases n,
{
    let dim = plain_style(pal.dim_fg, pal.bg);
    if n <= 0 {
        seq![StyledView { style: dim, text: hint }]
    } else {
        let before = suggestion_runs(hint, entries, selected, n - 1, pal);
        let spaced = if n > 1 {
            before.push(StyledView { style: dim, text: "  "@ })
        } else {
            before
        };
        spaced.push(
            StyledView {
                style: if n - 1 == selected {
                    plain_style(pal.bg, pal.accent)
                } else {
                    plain_style(pal.ai_text, pal.bg)
                },
                text: entries[n - 1],
            },
        )
    }
}

/// The entries for suggested commands.
pub open spec fn command_entries(commands: Seq<SlashCommand>) -> Seq<Seq<char>> {
    Seq::new(
        commands.len(),
        |i: int| command_label(commands[i]) + " "@ + command_description(commands[i]),
    )
}

/// The entries for suggested attachments.
pub open spec fn option_entries(options: Seq<AttachmentOption>) -> Seq<Seq<char>> {
    Seq::new(
        options.len(),
        |i: int| option_label(options[i]) + " "@ + option_description(options[i]),
    )
}

/// The row of suggestions, in place of the separator.
pub open spec fn suggestion_row(app: AppView, hint: Seq<char>, entries: Seq<Seq<char>>) -> Seq<
    PaintView,
> {
    let pal = app.context.colors;
    let selected = crate::picker::min(app.attachment_picker_index as int, entries.len() - 1);
    row_start(less(app.rows, 3)) + side_border(pal) + styled_row(
        suggestion_runs(hint, entries, selected, entries.len() as int, pal),
        inner_width(app) as nat,
        None,
        pal,
    ) + side_border(pal)
}

/// The row between the message area and the input: suggestions where there are some, otherwise
/// the separator.
pub open spec fn middle_row(app: AppView) -> Seq<PaintView> {
    let commands = command_suggestions(app);
    let options = attachment_suggestions(app);
    if commands.len() > 0 {
        suggestion_row(app, "  ↑↓ navigate · Enter select   "@, command_entries(commands))
    } else if options.len() > 0 {
        suggestion_row(app, "  ↑↓ navigate · Tab select   "@, option_entries(options))
    } else {
        separator_row(app)
    }
}

fn push_styled(runs: &mut Vec<StyledRun>, style: CellStyle, text: String)
    ensures
        final(runs).deep_view() == old(runs).deep_view().push(StyledView { style, text: text@ }),
{
    let ghost before = runs.deep_view();
    let ghost view = StyledView { style, text: text@ };
    runs.push(StyledRun { style, text });
    assert(runs.deep_view() =~= before.push(view));
}

/// Draw the row of suggestions between its borders.
fn push_picker_row(out: &mut Vec<Paint>, app: &App, hint: &str, entries: &Vec<String>)
    requires
        entries.len() > 0,
    ensures
        final(out).deep_view() == old(out).deep_view() + suggestion_row(
            app.deep_view(),
            hint@,
            entries.deep_view(),
        ),
{
    let ghost given = out.deep_view();
    let ghost all = entries.deep_view();
    let pal: &ChatPalette = &app.context.colors;
    let last: usize = entries.len() - 1;
    let selected: usize = if app.attachment_picker_index < last {
        app.attachment_picker_index
    } else {
        last
    };
    assert(all.len() == entries@.len());
    let mut runs: Vec<StyledRun> = Vec::new();
    assert(runs.deep_view() =~= Seq::empty());
    push_styled(&mut runs, pal.input_cell(), hint.to_string());
    let mut i: usize = 0;
    assert(runs.deep_view() =~= suggestion_runs(hint@, all, selected as int, 0, *pal));
    while i < entries.len()
        invariant
            i <= entries.len(),
            all == entries.deep_view(),
            runs.deep_view() == suggestion_runs(hint@, all, selected as int, i as int, *pal),
        decreases entries.len() - i,
    {
        assert(all[i as int] == entries@[i as int]@);
        if i > 0 {
            push_styled(&mut runs, pal.input_cell(), "  ".to_string());
        }
        let style: CellStyle = if i == selected {
            pal.picker_cursor_cell()
        } else {
            pal.ai_text_cell()
        };
        push_styled(&mut runs, style, entries[i].clone());
        i += 1;
    }
    start_row(out, app.rows.saturating_sub(3));
    paint_side_border(out, pal);
    emit_styled_line(out, &runs, app.cols.saturating_sub(2), None, pal);
    paint_side_border(out, pal);
    assert(out.deep_view() =~= given + suggestion_row(app.deep_view(), hint@, all));
}

fn command_texts(commands: &Vec<SlashCommand>) -> (out: Vec<String>)
    ensures
        out.deep_view() == command_entries(commands@),
        out.len() == commands.len(),
{
    let mut out: Vec<String> = Vec::new();
    let mut i: usize = 0;
    while i < commands.len()
        invariant
            i <= commands.len(),
            out@.len() == i,
            forall|j: int| 0 <= j < i ==> (#[trigger] out@[j])@ == command_entries(commands@)[j],
        decreases commands.len() - i,
    {
        let mut text: String = commands[i].label().to_string();
        text.append(" ");
        text.append(commands[i].description());
        out.push(text);
        i += 1;
    }
    assert(out.deep_view() =~= command_entries(commands@));
    out
}

fn option_texts(options: &Vec<AttachmentOption>) -> (out: Vec<String>)
    ensures
        out.deep_view() == option_entries(options@),
        out.len() == options.len(),
{
    let mut out: Vec<String> = Vec::new();
    let mut i: usize = 0;
    while i < options.len()
        invariant
            i <= options.len(),
            out@.len() == i,
            forall|j: int| 0 <= j < i ==> (#[trigger] out@[j])@ == option_entries(options@)[j],
        decreases options.len() - i,
    {
        let mut text: String = options[i].label().to_string();
        text.append(" ");
        text.append(options[i].description());
        out.push(text);
        i += 1;
    }
    assert(out.deep_view() =~= option_entries(options@));
    out
}

fn paint_middle_row(out: &mut Vec<Paint>, app: &App)
    ensures
        final(out).deep_view() == old(out).deep_view() + middle_row(app.deep_view()),
{
    let commands: Vec<SlashCommand> = app.slash_picker_options();
    if commands.len() > 0 {
        push_picker_row(out, app, "  ↑↓ navigate · Enter select   ", &command_texts(&commands));
        return;
    }
    let options: Vec<AttachmentOption> = app.attachment_picker_options();
    if options.len() > 0 {
        push_picker_row(out, app, "  ↑↓ navigate · Tab select   ", &option_texts(&options));
        return;
    }
    paint_separator(out, app);
}

fn paint_separator(out: &mut Vec<Paint>, app: &App)
    ensures
        final(out).deep_view() == old(out).deep_view() + separator_row(app.deep_view()),
{
    let ghost given = out.deep_view();
    let inner_w: usize = app.cols.saturating_sub(2);
    start_row(out, app.rows.saturating_sub(3));
    paint_text(out, app.context.colors.border_dim_cell(), rule_text("├", "┤", inner_w));
    assert(out.deep_view() =~= given + separator_row(app.deep_view()));
}

fn paint_bottom_border(out: &mut Vec<Paint>, app: &App)
    ensures
        final(out).deep_view() == old(out).deep_view() + bottom_border(app.deep_view()),
{
    let ghost given = out.deep_view();
    let inner_w: usize = app.cols.saturating_sub(2);
    start_row(out, app.rows.saturating_sub(1));
    paint_text(out, app.context.colors.accent_cell(), rule_text("╰", "╯", inner_w));
    assert(out.deep_view() =~= given + bottom_border(app.deep_view()));
}

// ─── Input ───────────────────────────────────────────────────────────────────

/// What stands in front of the input.
pub open spec fn prompt_spec(app: AppView) -> Seq<char> {
    if app.is_streaming {
        "  ⏳ "@
    } else {
        "  > "@
    }
}

/// The input row: what the agent asks for, or what the user types.
pub open spec fn input_row(app: AppView) -> Seq<PaintView> {
    let pal = app.context.colors;
    let width = inner_width(app) as nat;
    row_start(less(app.rows, 2)) + side_border(pal) + match app.pending_approval {
        Some(summary) => styled(
            plain_style(pal.user_text, pal.bg),
            take_spec(
                padded_spec("  Allow: "@ + summary + "  [Enter=yes  n=no]"@, width),
                width,
            ),
        ),
        None => styled(
            plain_style(pal.dim_fg, pal.bg),
            take_spec(char_padded(prompt_spec(app) + app.input, width), width),
        ),
    } + side_border(pal)
}

/// The column of the cursor: behind the left border, the prompt and the text in front of it, and
/// never on the right border.
pub open spec fn cursor_column_spec(prompt_width: nat, text_width: nat, cols: usize) -> usize {
    let col = 1 + prompt_width + text_width;
    if col < less(cols, 2) {
        col as usize
    } else {
        less(cols, 2)
    }
}

/// The column of the cursor, the prompt and the text in front of the cursor having these widths.
pub fn cursor_column(prompt_width: usize, text_width: usize, cols: usize) -> (r: usize)
    ensures
        r == cursor_column_spec(prompt_width as nat, text_width as nat, cols),
{
    let max: usize = cols.saturating_sub(2);
    let col: usize = prompt_width.saturating_add(text_width).saturating_add(1);
    if col < max {
        col
    } else {
        max
    }
}

/// The cursor at the end of a frame: in the input, or hidden while the agent waits.
pub open spec fn cursor_paints(app: AppView) -> Seq<PaintView> {
    if app.pending_approval is Some {
        seq![PaintView::ShowCursor(false)]
    } else {
        seq![
            PaintView::MoveTo {
                col: cursor_column_spec(
                    column_width_spec(prompt_spec(app)),
                    column_width_spec(app.input.take(app.input_cursor as int)),
                    app.cols,
                ),
                row: less(app.rows, 2),
            },
            PaintView::ShowCursor(true),
        ]
    }
}

fn prompt_of(app: &App) -> (r: &'static str)
    ensures
        r@ == prompt_spec(app.deep_view()),
{
    if app.is_streaming {
        "  ⏳ "
    } else {
        "  > "
    }
}

fn paint_input_row(out: &mut Vec<Paint>, app: &App)
    ensures
        final(out).deep_view() == old(out).deep_view() + input_row(app.deep_view()),
{
    let ghost given = out.deep_view();
    let pal: &ChatPalette = &app.context.colors;
    let inner_w: usize = app.cols.saturating_sub(2);
    start_row(out, app.rows.saturating_sub(2));
    paint_side_border(out, pal);
    match &app.pending_approval {
        Some(summary) => {
            let mut text: String = "  Allow: ".to_string();
            text.append(summary.as_str());
            text.append("  [Enter=yes  n=no]");
            let padded: String = pad_to_visual_width(text.as_str(), inner_w);
            paint_text(out, pal.user_text_cell(), truncate(padded.as_str(), inner_w));
        },
        None => {
            let mut text: String = prompt_of(app).to_string();
            text.append(app.input.as_str());
            let padded: String = pad_chars(text, inner_w);
            paint_text(out, pal.input_cell(), truncate(padded.as_str(), inner_w));
        },
    }
    paint_side_border(out, pal);
    assert(out.deep_view() =~= given + input_row(app.deep_view()));
}

fn paint_cursor(out: &mut Vec<Paint>, app: &App)
    requires
        app.deep_view().wf(),
    ensures
        final(out).deep_view() == old(out).deep_view() + cursor_paints(app.deep_view()),
{
    let ghost given = out.deep_view();
    if app.pending_approval.is_some() {
        paint(out, Paint::ShowCursor(false));
    } else {
        let front: &str = prefix(app.input.as_str(), app.input_cursor);
        let col: usize = cursor_column(column_width(prompt_of(app)), column_width(front), app.cols);
        paint(out, Paint::MoveTo { col, row: app.rows.saturating_sub(2) });
        paint(out, Paint::ShowCursor(true));
    }
    assert(out.deep_view() =~= given + cursor_paints(app.deep_view()));
}

// ─── The chat ────────────────────────────────────────────────────────────────

/// The frame that shows the chat.
pub open spec fn chat_frame(app: AppView) -> Seq<PaintView> {
    frame_start(app.context.colors) + top_border(chat_title(app), app.cols, app.context.colors)
        + message_rows(app, app.msg_area_height() as int) + middle_row(app) + input_row(app)
        + bottom_border(app) + cursor_paints(app) + frame_end()
}

/// Draw the chat.
pub fn render_chat(app: &App) -> (out: Vec<Paint>)
    requires
        app.deep_view().wf(),
    ensures
        out.deep_view() == chat_frame(app.deep_view()),
{
    let pal: &ChatPalette = &app.context.colors;
    let mut out: Vec<Paint> = Vec::new();
    assert(out.deep_view() =~= Seq::empty());
    start_frame(&mut out, pal);
    assert(out.deep_view() =~= frame_start(*pal));
    paint_top_border(&mut out, title_text(app).as_str(), app.cols, pal);
    paint_message_rows(&mut out, app);
    paint_middle_row(&mut out, app);
    paint_input_row(&mut out, app);
    paint_bottom_border(&mut out, app);
    // The cursor comes last, so that it stands in the input and not on the border.
    paint_cursor(&mut out, app);
    end_frame(&mut out);
    out
}

// ─── The list of conversations ───────────────────────────────────────────────

/// How times are written: the day and the minute.
pub const TIME_FORMAT: &'static str = "%Y-%m-%d %H:%M";

/// The time that `chrono` writes, in a format, for a number of seconds since the Unix epoch.
pub uninterp spec fn time_text_spec(secs: i64, format: Seq<char>) -> Option<Seq<char>>;

/// `chrono::DateTime::from_timestamp`, with no nanoseconds, and `DateTime::format`: the time, in
/// UTC, of `secs` seconds since the Unix epoch, written in `format`. There is none where `chrono`
/// has no date for them. It depends on the number and the format alone. What the text is stays
/// unsaid. A format that `chrono` cannot read makes it panic, and is left out.
#[verifier::external_body]
pub(crate) fn time_text(secs: i64, format: &str) -> (r: Option<String>)
    requires
        format@ == TIME_FORMAT@,
    ensures
        r.deep_view() == time_text_spec(secs, format@),
{
    match chrono::DateTime::from_timestamp(secs, 0) {
        Some(time) => Some(time.format(format).to_string()),
        None => None,
    }
}

/// How many characters of a title are shown in the list.
pub const MAX_LISTED_TITLE: usize = 30;

/// Whether a title says something: one of nothing but dots stands for a title to come.
pub open spec fn is_titled(summary: Seq<char>) -> bool {
    exists|i: int| 0 <= i < summary.len() && #[trigger] summary[i] != '…'
}

/// The title as the list shows it.
pub open spec fn listed_title(summary: Seq<char>) -> Seq<char> {
    if is_titled(summary) {
        take_spec(summary, MAX_LISTED_TITLE as nat)
    } else {
        "(no summary yet)"@
    }
}

/// The text for a conversation in the list, `time` being that of its last change.
pub open spec fn meta_text(meta: MetaView, time: Option<Seq<char>>) -> Seq<char> {
    " "@ + match time {
        Some(t) => t,
        None => "unknown"@,
    } + " "@ + listed_title(meta.summary) + " ("@ + decimal_spec(meta.message_count as nat)
        + " msgs)"@
}

fn shown_title(summary: &str) -> (r: String)
    ensures
        r@ == listed_title(summary@),
{
    let chars: Vec<char> = to_chars(summary);
    let mut i: usize = 0;
    while i < chars.len()
        invariant
            i <= chars.len(),
            chars@ == summary@,
            forall|j: int| 0 <= j < i ==> chars@[j] == '…',
        decreases chars.len() - i,
    {
        if chars[i] != '…' {
            assert(summary@[i as int] != '…');
            return take_chars(summary, MAX_LISTED_TITLE);
        }
        i += 1;
    }
    "(no summary yet)".to_string()
}

/// The text for a conversation in the list, `time` being that of its last change.
pub fn meta_line(meta: &ConversationMeta, time: &Option<String>) -> (r: String)
    ensures
        r@ == meta_text(meta.deep_view(), time.deep_view()),
{
    let mut out: String = " ".to_string();
    match time {
        Some(t) => {
            out.append(t.as_str());
        },
        None => {
            out.append("unknown");
        },
    }
    out.append(" ");
    out.append(shown_title(meta.summary.as_str()).as_str());
    out.append(" (");
    out.append(decimal(meta.message_count as u64).as_str());
    out.append(" msgs)");
    out
}

/// A row of the list.
pub open spec fn list_row(app: AppView, items: Seq<MetaView>, cursor: usize, k: int) -> Seq<
    PaintView,
> {
    let pal = app.context.colors;
    let width = inner_width(app) as nat;
    if k < items.len() {
        row_start((k + 1) as usize) + side_border(pal) + styled(
            if k == cursor {
                plain_style(pal.bg, pal.accent)
            } else {
                plain_style(pal.fg, pal.bg)
            },
            take_spec(
                padded_spec(
                    meta_text(items[k], time_text_spec(items[k].updated_at, TIME_FORMAT@)),
                    width,
                ),
                width,
            ),
        ) + side_border(pal)
    } else {
        empty_row((k + 1) as usize, inner_width(app), pal)
    }
}

/// The first `n` rows of the list.
pub open spec fn list_rows(app: AppView, items: Seq<MetaView>, cursor: usize, n: int) -> Seq<
    PaintView,
>
    decreases n,
{
    if n <= 0 {
        Seq::empty()
    } else {
        list_rows(app, items, cursor, n - 1) + list_row(app, items, cursor, n - 1)
    }
}

/// The title of the list.
pub open spec fn list_title(items: Seq<MetaView>) -> Seq<char> {
    " Resume Conversation · "@ + decimal_spec(items.len()) + " saved · ESC cancel "@
}

/// The row that says which keys work.
pub open spec fn hint_row(app: AppView) -> Seq<PaintView> {
    let pal = app.context.colors;
    row_start(less(app.rows, 2)) + side_border(pal) + styled(
        plain_style(pal.dim_fg, pal.bg),
        padded_spec("  ↑↓ select · Enter load · Esc cancel"@, inner_width(app) as nat),
    ) + side_border(pal)
}

/// The frame that shows the list of conversations.
pub open spec fn picker_frame(app: AppView, items: Seq<MetaView>, cursor: usize) -> Seq<PaintView> {
    frame_start(app.context.colors) + top_border(list_title(items), app.cols, app.context.colors)
        + list_rows(app, items, cursor, app.msg_area_height() as int) + separator_row(app)
        + hint_row(app) + bottom_border(app) + frame_end()
}

fn paint_list_row(
    out: &mut Vec<Paint>,
    app: &App,
    items: &Vec<ConversationMeta>,
    cursor: usize,
    k: usize,
)
    requires
        k < usize::MAX,
    ensures
        final(out).deep_view() == old(out).deep_view() + list_row(
            app.deep_view(),
            items.deep_view(),
            cursor,
            k as int,
        ),
{
    let ghost given = out.deep_view();
    let pal: &ChatPalette = &app.context.colors;
    let inner_w: usize = app.cols.saturating_sub(2);
    assert(items.deep_view().len() == items@.len());
    if k < items.len() {
        let meta: &ConversationMeta = &items[k];
        assert(items.deep_view()[k as int] == meta.deep_view());
        start_row(out, k + 1);
        paint_side_border(out, pal);
        let text: String = meta_line(meta, &time_text(meta.updated_at, TIME_FORMAT));
        let padded: String = pad_to_visual_width(text.as_str(), inner_w);
        let style: CellStyle = if k == cursor {
            pal.picker_cursor_cell()
        } else {
            pal.plain_cell()
        };
        paint_text(out, style, truncate(padded.as_str(), inner_w));
        paint_side_border(out, pal);
        assert(out.deep_view() =~= given + list_row(
            app.deep_view(),
            items.deep_view(),
            cursor,
            k as int,
        ));
    } else {
        paint_empty_row(out, k + 1, inner_w, pal);
    }
}

fn paint_hint_row(out: &mut Vec<Paint>, app: &App)
    ensures
        final(out).deep_view() == old(out).deep_view() + hint_row(app.deep_view()),
{
    let ghost given = out.deep_view();
    let pal: &ChatPalette = &app.context.colors;
    let inner_w: usize = app.cols.saturating_sub(2);
    start_row(out, app.rows.saturating_sub(2));
    paint_side_border(out, pal);
    paint_text(
        out,
        pal.input_cell(),
        pad_to_visual_width("  ↑↓ select · Enter load · Esc cancel", inner_w),
    );
    paint_side_border(out, pal);
    assert(out.deep_view() =~= given + hint_row(app.deep_view()));
}

/// Draw the list of conversations.
pub fn render_picker(app: &App, items: &Vec<ConversationMeta>, cursor: usize) -> (out: Vec<Paint>)
    ensures
        out.deep_view() == picker_frame(app.deep_view(), items.deep_view(), cursor),
{
    let ghost view = app.deep_view();
    let ghost all = items.deep_view();
    let pal: &ChatPalette = &app.context.colors;
    let mut out: Vec<Paint> = Vec::new();
    assert(out.deep_view() =~= Seq::empty());
    start_frame(&mut out, pal);
    assert(out.deep_view() =~= frame_start(*pal));
    let mut title: String = " Resume Conversation · ".to_string();
    assert(all.len() == items@.len());
    title.append(decimal(items.len() as u64).as_str());
    title.append(" saved · ESC cancel ");
    paint_top_border(&mut out, title.as_str(), app.cols, pal);
    let ghost head = out.deep_view();
    let height: usize = app.msg_area_height();
    let mut k: usize = 0;
    assert(out.deep_view() =~= head + list_rows(view, all, cursor, 0));
    while k < height
        invariant
            k <= height,
            view == app.deep_view(),
            all == items.deep_view(),
            out.deep_view() == head + list_rows(view, all, cursor, k as int),
        decreases height - k,
    {
        paint_list_row(&mut out, app, items, cursor, k);
        assert(out.deep_view() =~= head + list_rows(view, all, cursor, k + 1));
        k += 1;
    }
    paint_separator(&mut out, app);
    paint_hint_row(&mut out, app);
    paint_bottom_border(&mut out, app);
    end_frame(&mut out);
    assert(out.deep_view() =~= picker_frame(view, all, cursor));
    out
}

/// The frame that shows a state.
pub open spec fn frame_spec(app: AppView) -> Seq<PaintView> {
    match app.mode {
        ModeView::Chat => chat_frame(app),
        ModeView::ResumePicker { items, cursor } => picker_frame(app, items, cursor),
    }
}

/// Draw the pane.
pub fn render(app: &App) -> (out: Vec<Paint>)
    requires
        app.deep_view().wf(),
    ensures
        out.deep_view() == frame_spec(app.deep_view()),
{
    match &app.mode {
        AppMode::Chat => render_chat(app),
        AppMode::ResumePicker { items, cursor } => render_picker(app, items, *cursor),
    }
}

// ─── Laws ────────────────────────────────────────────────────────────────────

/// Every frame is drawn at once: it starts by holding the terminal back with the cursor hidden,
/// and ends by letting it go. Just before that the chat shows the cursor, unless the agent waits
/// for an answer.
pub proof fn law_frames_are_atomic(app: AppView)
    ensures
        frame_spec(app).len() >= 5,
        frame_spec(app)[0] == PaintView::Text("\x1b[?2026h"@),
        frame_spec(app)[1] == PaintView::ShowCursor(false),
        frame_spec(app).last() == PaintView::Text("\x1b[?2026l"@),
        app.mode is Chat ==> frame_spec(app)[frame_spec(app).len() - 2] == PaintView::ShowCursor(
            app.pending_approval is None,
        ),
{
}

/// The cursor never stands outside the pane, nor on its right border.
pub proof fn law_cursor_within_pane(prompt_width: nat, text_width: nat, cols: usize)
    ensures
        cursor_column_spec(prompt_width, text_width, cols) <= less(cols, 2),
        cols > 2 ==> cursor_column_spec(prompt_width, text_width, cols) < cols - 1,
{
}

/// The text that a frame shows in a row.
pub open spec fn shown_in_row(app: AppView, row: usize) -> Seq<char> {
    text_in_row(frame_spec(app).drop_last(), row)
}

/// The row `k` of the message area.
spec fn area_row(app: AppView, k: int) -> Seq<PaintView> {
    if k < visible_count(app) {
        message_row(app, k)
    } else {
        empty_row((k + 1) as usize, inner_width(app), app.context.colors)
    }
}

proof fn lemma_side_border(pal: ChatPalette)
    ensures
        stays_in_row(side_border(pal)),
        painted_text(side_border(pal)) == "│"@,
{
    lemma_styled_stays(plain_style(pal.border, pal.bg), "│"@);
}

proof fn lemma_message_row(app: AppView, k: int)
    requires
        0 <= k < usize::MAX,
    ensures
        is_row(message_row(app, k), (k + 1) as usize),
        painted_text(message_row(app, k)) == "│"@ + painted_text(
            styled_row(
                line_runs(app.cached_display_lines[visible_start(app) + k], app.context.colors),
                inner_width(app) as nat,
                selected_range(app, visible_start(app) + k),
                app.context.colors,
            ),
        ) + "│"@,
{
    let pal = app.context.colors;
    let i = visible_start(app) + k;
    let runs = line_runs(app.cached_display_lines[i], pal);
    let width = inner_width(app) as nat;
    lemma_side_border(pal);
    lemma_styled_row_stays(runs, width, selected_range(app, i), pal);
    lemma_row_of_parts(
        (k + 1) as usize,
        side_border(pal),
        styled_row(runs, width, selected_range(app, i), pal),
        side_border(pal),
    );
}

proof fn lemma_text_row(row: usize, style: CellStyle, text: Seq<char>, pal: ChatPalette)
    ensures
        is_row(row_start(row) + side_border(pal) + styled(style, text) + side_border(pal), row),
        painted_text(row_start(row) + side_border(pal) + styled(style, text) + side_border(pal))
            == "│"@ + text + "│"@,
{
    lemma_side_border(pal);
    lemma_styled_stays(style, text);
    lemma_row_of_parts(row, side_border(pal), styled(style, text), side_border(pal));
}

proof fn lemma_area_row(app: AppView, k: int)
    requires
        0 <= k < usize::MAX,
    ensures
        is_row(area_row(app, k), (k + 1) as usize),
{
    if k < visible_count(app) {
        lemma_message_row(app, k);
    } else {
        let pal = app.context.colors;
        lemma_text_row(
            (k + 1) as usize,
            plain_style(pal.fg, pal.bg),
            padded_spec(Seq::empty(), inner_width(app) as nat),
            pal,
        );
    }
}

proof fn lemma_message_rows(front: Seq<PaintView>, app: AppView, n: int, row: usize)
    requires
        0 <= n < usize::MAX,
    ensures
        text_in_row(front + message_rows(app, n), row) == text_in_row(front, row) + (if 1 <= row
            <= n {
            painted_text(area_row(app, row - 1))
        } else {
            Seq::empty()
        }),
    decreases n,
{
    if n == 0 {
        assert(front + message_rows(app, n) =~= front);
        assert(text_in_row(front, row) + Seq::<char>::empty() =~= text_in_row(front, row));
    } else {
        lemma_message_rows(front, app, n - 1, row);
        lemma_area_row(app, n - 1);
        let before = front + message_rows(app, n - 1);
        assert(front + message_rows(app, n) =~= before + area_row(app, n - 1));
        lemma_row_added(before, area_row(app, n - 1), n as usize, row);
        let none = Seq::<char>::empty();
        assert(text_in_row(front, row) + none + none =~= text_in_row(front, row) + none);
        assert(text_in_row(front, row) + none =~= text_in_row(front, row));
        assert(text_in_row(before, row) + none =~= text_in_row(before, row));
    }
}

proof fn lemma_frame_start(pal: ChatPalette, row: usize)
    ensures
        text_in_row(frame_start(pal), row) == Seq::<char>::empty(),
{
    let start = frame_start(pal);
    assert(start.drop_last().drop_last().drop_last().drop_last() =~= Seq::empty());
    reveal_with_fuel(text_in_row, 5);
    reveal_with_fuel(cursor_row, 5);
    assert(text_in_row(start, row) =~= Seq::empty());
}

proof fn lemma_cursor_paints(front: Seq<PaintView>, app: AppView, row: usize)
    ensures
        text_in_row(front + cursor_paints(app), row) == text_in_row(front, row),
{
    let none = Seq::<char>::empty();
    let text = text_in_row(front, row);
    assert(text + none =~= text);
    let paints = cursor_paints(app);
    let all = front + paints;
    if paints.len() == 1 {
        assert(all.drop_last() =~= front);
        assert(all.last() == paints[0]);
    } else {
        assert(all.last() == paints[1]);
        assert(all.drop_last() =~= front.push(paints[0]));
        assert(front.push(paints[0]).drop_last() =~= front);
        assert(text_in_row(front.push(paints[0]), row) =~= text);
    }
    assert(text_in_row(all, row) =~= text);
}

proof fn lemma_top_border(title: Seq<char>, cols: usize, pal: ChatPalette)
    ensures
        is_row(top_border(title, cols, pal), 0),
        painted_text(top_border(title, cols, pal)) == top_line(title, cols),
{
    let style = plain_style(pal.accent, pal.bg);
    lemma_styled_stays(style, top_line(title, cols));
    lemma_row_of_one(0, styled(style, top_line(title, cols)));
}

proof fn lemma_bottom_border(app: AppView)
    ensures
        is_row(bottom_border(app), less(app.rows, 1)),
        painted_text(bottom_border(app)) == rule("╰"@, "╯"@, inner_width(app)),
        is_row(separator_row(app), less(app.rows, 3)),
        painted_text(separator_row(app)) == rule("├"@, "┤"@, inner_width(app)),
{
    let pal = app.context.colors;
    let bottom = styled(plain_style(pal.accent, pal.bg), rule("╰"@, "╯"@, inner_width(app)));
    let middle = styled(plain_style(pal.border, pal.bg), rule("├"@, "┤"@, inner_width(app)));
    lemma_styled_stays(plain_style(pal.accent, pal.bg), rule("╰"@, "╯"@, inner_width(app)));
    lemma_styled_stays(plain_style(pal.border, pal.bg), rule("├"@, "┤"@, inner_width(app)));
    lemma_row_of_one(less(app.rows, 1), bottom);
    lemma_row_of_one(less(app.rows, 3), middle);
}

proof fn lemma_suggestion_row(app: AppView, hint: Seq<char>, entries: Seq<Seq<char>>)
    ensures
        is_row(suggestion_row(app, hint, entries), less(app.rows, 3)),
        ({
            let pal = app.context.colors;
            let selected = crate::picker::min(
                app.attachment_picker_index as int,
                entries.len() - 1,
            );
            let runs = suggestion_runs(hint, entries, selected, entries.len() as int, pal);
            painted_text(suggestion_row(app, hint, entries)) == "│"@ + painted_text(
                styled_row(runs, inner_width(app) as nat, None, pal),
            ) + "│"@
        }),
{
    let pal = app.context.colors;
    let selected = crate::picker::min(app.attachment_picker_index as int, entries.len() - 1);
    let runs = suggestion_runs(hint, entries, selected, entries.len() as int, pal);
    let width = inner_width(app) as nat;
    lemma_side_border(pal);
    lemma_styled_row_stays(runs, width, None, pal);
    lemma_row_of_parts(
        less(app.rows, 3),
        side_border(pal),
        styled_row(runs, width, None, pal),
        side_border(pal),
    );
}

proof fn lemma_middle_row(app: AppView)
    ensures
        is_row(middle_row(app), less(app.rows, 3)),
{
    let commands = command_suggestions(app);
    let options = attachment_suggestions(app);
    lemma_bottom_border(app);
    lemma_suggestion_row(app, "  ↑↓ navigate · Enter select   "@, command_entries(commands));
    lemma_suggestion_row(app, "  ↑↓ navigate · Tab select   "@, option_entries(options));
}

proof fn lemma_input_row(app: AppView)
    ensures
        is_row(input_row(app), less(app.rows, 2)),
        app.pending_approval is None ==> painted_text(input_row(app)) == "│"@ + take_spec(
            char_padded(prompt_spec(app) + app.input, inner_width(app) as nat),
            inner_width(app) as nat,
        ) + "│"@,
        app.pending_approval matches Some(summary) ==> painted_text(input_row(app)) == "│"@
            + take_spec(
            padded_spec(
                "  Allow: "@ + summary + "  [Enter=yes  n=no]"@,
                inner_width(app) as nat,
            ),
            inner_width(app) as nat,
        ) + "│"@,
{
    let pal = app.context.colors;
    let width = inner_width(app) as nat;
    match app.pending_approval {
        Some(summary) => {
            let text = take_spec(
                padded_spec("  Allow: "@ + summary + "  [Enter=yes  n=no]"@, width),
                width,
            );
            lemma_text_row(less(app.rows, 2), plain_style(pal.user_text, pal.bg), text, pal);
        },
        None => {
            let text = take_spec(char_padded(prompt_spec(app) + app.input, width), width);
            lemma_text_row(less(app.rows, 2), plain_style(pal.dim_fg, pal.bg), text, pal);
        },
    }
}

/// The text of every row of the chat.
proof fn lemma_chat_rows(app: AppView, row: usize)
    requires
        app.mode is Chat,
        app.rows > 4,
        row < app.rows,
    ensures
        row == 0 ==> shown_in_row(app, row) == top_line(chat_title(app), app.cols),
        1 <= row <= app.rows - 4 ==> shown_in_row(app, row) == painted_text(
            area_row(app, row - 1),
        ),
        row == app.rows - 3 ==> shown_in_row(app, row) == painted_text(middle_row(app)),
        row == app.rows - 2 ==> shown_in_row(app, row) == painted_text(input_row(app)),
        row == app.rows - 1 ==> shown_in_row(app, row) == painted_text(bottom_border(app)),
{
    let pal = app.context.colors;
    let none = Seq::<char>::empty();
    let height = app.msg_area_height() as int;
    let a = frame_start(pal);
    let top = top_border(chat_title(app), app.cols, pal);
    let b = a + top;
    let c = b + message_rows(app, height);
    let d = c + middle_row(app);
    let e = d + input_row(app);
    let f = e + bottom_border(app);
    let g = f + cursor_paints(app);
    assert(frame_spec(app) =~= g + frame_end());
    assert(frame_spec(app).drop_last() =~= g);
    lemma_frame_start(pal, row);
    lemma_top_border(chat_title(app), app.cols, pal);
    lemma_row_added(a, top, 0, row);
    lemma_message_rows(b, app, height, row);
    lemma_middle_row(app);
    lemma_row_added(c, middle_row(app), (app.rows - 3) as usize, row);
    lemma_input_row(app);
    lemma_row_added(d, input_row(app), (app.rows - 2) as usize, row);
    lemma_bottom_border(app);
    lemma_row_added(e, bottom_border(app), (app.rows - 1) as usize, row);
    lemma_cursor_paints(f, app, row);
    let text = if row == 0 {
        painted_text(top)
    } else if row <= height {
        painted_text(area_row(app, row - 1))
    } else if row == app.rows - 3 {
        painted_text(middle_row(app))
    } else if row == app.rows - 2 {
        painted_text(input_row(app))
    } else {
        painted_text(bottom_border(app))
    };
    assert(none + text =~= text);
    assert(text + none =~= text);
    assert(none + none =~= none);
}

/// Whether every character of a line, as it is drawn, takes one column.
pub open spec fn is_narrow_drawn(line: LineView, pal: ChatPalette) -> bool {
    forall|i: int|
        0 <= i < line_runs(line, pal).len() ==> is_narrow(
            measured_spec(#[trigger] line_runs(line, pal)[i]),
        ) && measured_spec(line_runs(line, pal)[i]).wf()
}

/// The message area shows the newest lines, with as many further up in their place as have been
/// scrolled: its row `k` draws the line that stands `scroll_offset` and the height of the area in
/// front of the end, and `k` behind that. Where all lines fit, it draws the line `k`, and nothing
/// behind the last line. A line of narrow characters is drawn with its text, cut or filled up
/// with spaces to the width of the area.
pub proof fn law_message_area_shows_lines(app: AppView, k: int)
    requires
        app.mode is Chat,
        0 <= k < app.rows - 4,
        app.cols >= 2,
    ensures
        ({
            let pal = app.context.colors;
            let width = (app.cols - 2) as nat;
            let lines = app.cached_display_lines;
            let hidden = lines.len() - (app.rows - 4);
            let i = if hidden > app.scroll_offset {
                hidden - app.scroll_offset + k
            } else {
                k
            };
            let shown = shown_in_row(app, (k + 1) as usize);
            &&& hidden > 0 ==> i < lines.len()
            &&& i < lines.len() ==> shown == "│"@ + painted_text(
                styled_row(line_runs(lines[i], pal), width, selected_range(app, i), pal),
            ) + "│"@
            &&& i < lines.len() && is_narrow_drawn(lines[i], pal) && (selected_range(app, i) matches Some((sc, ec))
                ==> sc <= ec) ==> shown == "│"@ + (line_text(lines[i]) + repeat_spec(
                ' ',
                width,
            )).take(width as int) + "│"@
            &&& i >= lines.len() ==> shown == "│"@ + padded_spec(Seq::empty(), width) + "│"@
        }),
{
    let pal = app.context.colors;
    let width = (app.cols - 2) as nat;
    let lines = app.cached_display_lines;
    let hidden = lines.len() - (app.rows - 4);
    let i = if hidden > app.scroll_offset {
        hidden - app.scroll_offset + k
    } else {
        k
    };
    assert(app.msg_area_height() == app.rows - 4);
    assert(i == visible_start(app) + k);
    lemma_chat_rows(app, (k + 1) as usize);
    if i < lines.len() {
        lemma_message_row(app, k);
        if is_narrow_drawn(lines[i], pal) && (selected_range(app, i) matches Some((sc, ec)) ==> sc
            <= ec) {
            let runs = line_runs(lines[i], pal);
            assert forall|j: int| 0 <= j < runs.len() implies is_narrow(
                measured_spec(#[trigger] runs[j]),
            ) && measured_spec(runs[j]).wf() by {
                assert(is_narrow(measured_spec(line_runs(lines[i], pal)[j])));
            }
            law_rows_show_their_text(runs, width, selected_range(app, i), pal);
            law_selection_sees_what_is_drawn(lines[i], pal);
        }
    } else {
        lemma_text_row(
            (k + 1) as usize,
            plain_style(pal.fg, pal.bg),
            padded_spec(Seq::empty(), inner_width(app) as nat),
            pal,
        );
    }
}

/// Unscrolled, the last row of the message area shows the last line wherever the lines do not
/// all fit.
pub proof fn law_newest_line_is_shown(app: AppView)
    requires
        app.mode is Chat,
        app.rows > 4,
        app.cols >= 2,
        app.scroll_offset == 0,
        app.selection is None,
        app.cached_display_lines.len() >= app.rows - 4,
    ensures
        ({
            let pal = app.context.colors;
            let line = app.cached_display_lines.last();
            let width = (app.cols - 2) as nat;
            &&& shown_in_row(app, (app.rows - 4) as usize) == "│"@ + painted_text(
                styled_row(line_runs(line, pal), width, None, pal),
            ) + "│"@
            &&& is_narrow_drawn(line, pal) ==> shown_in_row(app, (app.rows - 4) as usize) == "│"@ + (
            line_text(line) + repeat_spec(' ', width)).take(width as int) + "│"@
        }),
{
    law_message_area_shows_lines(app, app.rows - 5);
}

/// Scrolling up by one line moves every line of the message area down by one row, as long as
/// there is a line further up.
pub proof fn law_scrolling_shifts_the_window(app: AppView, scrolled: AppView, k: int)
    requires
        app.mode is Chat,
        app.selection is None,
        app.cols >= 2,
        0 <= k < app.rows - 5,
        app.scroll_offset < app.cached_display_lines.len() - (app.rows - 4),
        scrolled.scroll_offset == app.scroll_offset + 1,
        scrolled == (AppView { scroll_offset: scrolled.scroll_offset, ..app }),
    ensures
        shown_in_row(scrolled, (k + 2) as usize) == shown_in_row(app, (k + 1) as usize),
{
    law_message_area_shows_lines(app, k);
    law_message_area_shows_lines(scrolled, k + 1);
}

/// The frame around the chat: the title with the model, or with a status for a short time, on
/// top; a rule in front of the input where nothing is suggested; and the bottom border.
pub proof fn law_borders_of_the_chat(app: AppView)
    requires
        app.mode is Chat,
        app.rows > 4,
        app.cols >= 2,
    ensures
        ({
            let models = app.available_models.len();
            let model = if app.model_index < models {
                app.available_models[app.model_index as int]
            } else {
                Seq::empty()
            };
            let status = match app.model_status_flash {
                Some(flash) => flash,
                None => match app.model_fetch {
                    FetchView::Loading => model + " · loading…"@,
                    FetchView::Failed(_) => model + " · (list failed)"@,
                    FetchView::Loaded => if models > 1 {
                        model + (" ("@ + decimal_spec((app.model_index + 1) as nat) + "/"@
                            + decimal_spec(models) + ")"@)
                    } else {
                        model
                    },
                },
            };
            let title = " Kaku AI · "@ + status + " · ⇧⇥ switch · ESC exit "@;
            &&& title.len() + 4 <= app.cols ==> shown_in_row(app, 0) == "╭─"@ + title + repeat_spec(
                '─',
                (app.cols - title.len() - 4) as nat,
            ) + "─╮"@
            &&& shown_in_row(app, 0).len() <= app.cols
        }),
        command_suggestions(app).len() == 0 && attachment_suggestions(app).len() == 0
            ==> shown_in_row(app, (app.rows - 3) as usize) == "├"@ + repeat_spec(
            '─',
            (app.cols - 2) as nat,
        ) + "┤"@,
        shown_in_row(app, (app.rows - 1) as usize) == "╰"@ + repeat_spec(
            '─',
            (app.cols - 2) as nat,
        ) + "╯"@,
{
    lemma_chat_rows(app, 0);
    lemma_chat_rows(app, (app.rows - 3) as usize);
    lemma_chat_rows(app, (app.rows - 1) as usize);
    lemma_bottom_border(app);
    reveal_strlit("╭─");
    reveal_strlit("─╮");
    assert("╭─"@.len() == 2 && "─╮"@.len() == 2);
    assert(app.current_model() + Seq::<char>::empty() =~= app.current_model());
}

/// Whether a row between its borders shows `text` as far as `width` characters go, and nothing
/// but spaces behind it.
pub open spec fn is_cut_to_row(shown: Seq<char>, text: Seq<char>, width: int) -> bool {
    exists|n: int, rest: Seq<char>|
        shown == #[trigger] ("│"@ + text.take(n) + rest) + "│"@ && (n == text.len() || n == width
            && width < text.len()) && forall|i: int| 0 <= i < rest.len() ==> rest[i] == ' '
}

proof fn lemma_cut_to_row(text: Seq<char>, width: int)
    requires
        width >= 0,
    ensures
        is_cut_to_row(
            "│"@ + take_spec(padded_spec(text, width as nat), width as nat) + "│"@,
            text,
            width,
        ),
{
    let n = if text.len() <= width {
        text.len() as int
    } else {
        width
    };
    let drawn = take_spec(padded_spec(text, width as nat), width as nat);
    let rest = drawn.skip(n);
    assert(drawn =~= text.take(n) + rest);
    assert("│"@ + drawn + "│"@ =~= ("│"@ + text.take(n) + rest) + "│"@);
}

/// The input row shows the prompt and what has been typed, cut or filled up with spaces to the
/// width of the row. While the agent waits for an answer it shows the question instead, cut
/// where the row ends.
pub proof fn law_input_row(app: AppView)
    requires
        app.mode is Chat,
        app.rows > 4,
        app.cols >= 2,
    ensures
        ({
            let width = app.cols - 2;
            let shown = shown_in_row(app, (app.rows - 2) as usize);
            match app.pending_approval {
                None => shown == "│"@ + ((if app.is_streaming {
                    "  ⏳ "@
                } else {
                    "  > "@
                }) + app.input + repeat_spec(' ', width as nat)).take(width) + "│"@,
                Some(summary) => is_cut_to_row(
                    shown,
                    "  Allow: "@ + summary + "  [Enter=yes  n=no]"@,
                    width,
                ),
            }
        }),
{
    let width = (app.cols - 2) as nat;
    lemma_chat_rows(app, (app.rows - 2) as usize);
    lemma_input_row(app);
    match app.pending_approval {
        None => {
            let typed = prompt_spec(app) + app.input;
            let drawn = take_spec(char_padded(typed, width), width);
            assert(drawn =~= (typed + repeat_spec(' ', width)).take(width as int));
            assert(shown_in_row(app, (app.rows - 2) as usize) == "│"@ + drawn + "│"@);
        },
        Some(summary) => {
            let question = "  Allow: "@ + summary + "  [Enter=yes  n=no]"@;
            lemma_cut_to_row(question, app.cols - 2);
        },
    }
}

proof fn lemma_suggestion_runs(
    hint: Seq<char>,
    entries: Seq<Seq<char>>,
    selected: int,
    n: int,
    pal: ChatPalette,
)
    requires
        0 <= n <= entries.len(),
    ensures
        runs_text(suggestion_runs(hint, entries, selected, n, pal)) == hint + join_spec(
            entries.take(n),
            "  "@,
        ),
        n > 0 ==> suggestion_runs(hint, entries, selected, n, pal).last() == (StyledView {
            style: if n - 1 == selected {
                plain_style(pal.bg, pal.accent)
            } else {
                plain_style(pal.ai_text, pal.bg)
            },
            text: entries[n - 1],
        }),
    decreases n,
{
    let dim = plain_style(pal.dim_fg, pal.bg);
    let none = Seq::<StyledView>::empty();
    if n == 0 {
        let run = StyledView { style: dim, text: hint };
        lemma_runs_text_push(none, run);
        assert(runs_text(none) =~= Seq::empty());
        assert(suggestion_runs(hint, entries, selected, n, pal) =~= none.push(run));
        assert(Seq::<char>::empty() + hint =~= hint + join_spec(entries.take(0), "  "@));
    } else {
        lemma_suggestion_runs(hint, entries, selected, n - 1, pal);
        let before = suggestion_runs(hint, entries, selected, n - 1, pal);
        let gap = StyledView { style: dim, text: "  "@ };
        let run = suggestion_runs(hint, entries, selected, n, pal).last();
        let joined = join_spec(entries.take(n - 1), "  "@);
        assert(entries.take(n).drop_last() =~= entries.take(n - 1));
        if n > 1 {
            lemma_runs_text_push(before, gap);
            lemma_runs_text_push(before.push(gap), run);
            assert(hint + joined + "  "@ + entries[n - 1] =~= hint + (joined + "  "@ + entries[n
                - 1]));
        } else {
            lemma_runs_text_push(before, run);
            assert(hint + joined + entries[0] =~= hint + entries[0]);
        }
    }
}

/// While there are suggestions, the row in front of the input shows how to choose one and all of
/// them in their order, each with its description: commands before attachments.
pub proof fn law_suggestions_are_shown(app: AppView)
    requires
        app.mode is Chat,
        app.rows > 4,
        app.cols >= 2,
        command_suggestions(app).len() > 0 || attachment_suggestions(app).len() > 0,
    ensures
        ({
            let commands = command_suggestions(app);
            let options = attachment_suggestions(app);
            let entries = if commands.len() > 0 {
                Seq::new(
                    commands.len(),
                    |i: int| command_label(commands[i]) + " "@ + command_description(commands[i]),
                )
            } else {
                Seq::new(
                    options.len(),
                    |i: int| option_label(options[i]) + " "@ + option_description(options[i]),
                )
            };
            let hint = if commands.len() > 0 {
                "  ↑↓ navigate · Enter select   "@
            } else {
                "  ↑↓ navigate · Tab select   "@
            };
            exists|runs: Seq<StyledView>|
                shown_in_row(app, (app.rows - 3) as usize) == "│"@ + painted_text(
                    #[trigger] styled_row(runs, (app.cols - 2) as nat, None, app.context.colors),
                ) + "│"@ && runs_text(runs) == hint + join_spec(entries, "  "@)
        }),
{
    let pal = app.context.colors;
    let commands = command_suggestions(app);
    let options = attachment_suggestions(app);
    lemma_chat_rows(app, (app.rows - 3) as usize);
    let entries = if commands.len() > 0 {
        command_entries(commands)
    } else {
        option_entries(options)
    };
    let hint = if commands.len() > 0 {
        "  ↑↓ navigate · Enter select   "@
    } else {
        "  ↑↓ navigate · Tab select   "@
    };
    let selected = crate::picker::min(app.attachment_picker_index as int, entries.len() - 1);
    let n = entries.len() as int;
    let runs = suggestion_runs(hint, entries, selected, n, pal);
    lemma_suggestion_row(app, hint, entries);
    lemma_suggestion_runs(hint, entries, selected, n, pal);
    assert(entries.take(n) =~= entries);
    assert(shown_in_row(app, (app.rows - 3) as usize) == "│"@ + painted_text(
        styled_row(runs, (app.cols - 2) as nat, None, pal),
    ) + "│"@);
}

proof fn lemma_list_row(app: AppView, items: Seq<MetaView>, cursor: usize, k: int)
    requires
        0 <= k < usize::MAX,
    ensures
        is_row(list_row(app, items, cursor, k), (k + 1) as usize),
        k < items.len() ==> painted_text(list_row(app, items, cursor, k)) == "│"@ + take_spec(
            padded_spec(
                meta_text(items[k], time_text_spec(items[k].updated_at, TIME_FORMAT@)),
                inner_width(app) as nat,
            ),
            inner_width(app) as nat,
        ) + "│"@,
        k >= items.len() ==> painted_text(list_row(app, items, cursor, k)) == "│"@ + padded_spec(
            Seq::empty(),
            inner_width(app) as nat,
        ) + "│"@,
{
    let pal = app.context.colors;
    let width = inner_width(app) as nat;
    let style = if k == cursor {
        plain_style(pal.bg, pal.accent)
    } else {
        plain_style(pal.fg, pal.bg)
    };
    if k < items.len() {
        let text = take_spec(
            padded_spec(
                meta_text(items[k], time_text_spec(items[k].updated_at, TIME_FORMAT@)),
                width,
            ),
            width,
        );
        lemma_text_row((k + 1) as usize, style, text, pal);
    } else {
        lemma_text_row(
            (k + 1) as usize,
            plain_style(pal.fg, pal.bg),
            padded_spec(Seq::empty(), width),
            pal,
        );
    }
}

proof fn lemma_list_rows(
    front: Seq<PaintView>,
    app: AppView,
    items: Seq<MetaView>,
    cursor: usize,
    n: int,
    row: usize,
)
    requires
        0 <= n < usize::MAX,
    ensures
        text_in_row(front + list_rows(app, items, cursor, n), row) == text_in_row(front, row) + (
        if 1 <= row <= n {
            painted_text(list_row(app, items, cursor, row - 1))
        } else {
            Seq::empty()
        }),
    decreases n,
{
    if n == 0 {
        assert(front + list_rows(app, items, cursor, n) =~= front);
        assert(text_in_row(front, row) + Seq::<char>::empty() =~= text_in_row(front, row));
    } else {
        lemma_list_rows(front, app, items, cursor, n - 1, row);
        lemma_list_row(app, items, cursor, n - 1);
        let before = front + list_rows(app, items, cursor, n - 1);
        let last = list_row(app, items, cursor, n - 1);
        assert(front + list_rows(app, items, cursor, n) =~= before + last);
        lemma_row_added(before, last, n as usize, row);
        let none = Seq::<char>::empty();
        assert(text_in_row(front, row) + none =~= text_in_row(front, row));
        assert(text_in_row(before, row) + none =~= text_in_row(before, row));
    }
}

/// The list of conversations shows in its row `k` the conversation `k`: when it was last
/// changed, its title and how many messages it has, cut where the row ends. The title on top
/// says how many there are, and the row for the input how to choose one.
pub proof fn law_list_shows_conversations(
    app: AppView,
    items: Seq<MetaView>,
    cursor: usize,
    k: int,
)
    requires
        app.mode == (ModeView::ResumePicker { items, cursor }),
        app.rows > 4,
        app.cols >= 2,
        0 <= k < app.rows - 4,
    ensures
        ({
            let width = app.cols - 2;
            let shown = shown_in_row(app, (k + 1) as usize);
            &&& k < items.len() ==> ({
                let item = items[k];
                let time = match time_text_spec(item.updated_at, TIME_FORMAT@) {
                    Some(t) => t,
                    None => "unknown"@,
                };
                let text = " "@ + time + " "@ + listed_title(item.summary) + " ("@ + decimal_spec(
                    item.message_count as nat,
                ) + " msgs)"@;
                is_cut_to_row(shown, text, width)
            })
            &&& k >= items.len() ==> shown == "│"@ + padded_spec(Seq::empty(), width as nat) + "│"@
        }),
        ({
            let title = " Resume Conversation · "@ + decimal_spec(items.len())
                + " saved · ESC cancel "@;
            title.len() + 4 <= app.cols ==> shown_in_row(app, 0) == "╭─"@ + title + repeat_spec(
                '─',
                (app.cols - title.len() - 4) as nat,
            ) + "─╮"@
        }),
        shown_in_row(app, (app.rows - 2) as usize) == "│"@ + padded_spec(
            "  ↑↓ select · Enter load · Esc cancel"@,
            (app.cols - 2) as nat,
        ) + "│"@,
{
    let width = (app.cols - 2) as nat;
    lemma_picker_rows(app, items, cursor, (k + 1) as usize);
    lemma_picker_rows(app, items, cursor, 0);
    lemma_picker_rows(app, items, cursor, (app.rows - 2) as usize);
    lemma_list_row(app, items, cursor, k);
    reveal_strlit("╭─");
    reveal_strlit("─╮");
    assert("╭─"@.len() == 2 && "─╮"@.len() == 2);
    if k < items.len() {
        let text = meta_text(items[k], time_text_spec(items[k].updated_at, TIME_FORMAT@));
        lemma_cut_to_row(text, app.cols - 2);
    }
}

/// The text of the rows of the list of conversations.
proof fn lemma_picker_rows(app: AppView, items: Seq<MetaView>, cursor: usize, row: usize)
    requires
        app.mode == (ModeView::ResumePicker { items, cursor }),
        app.rows > 4,
        row < app.rows,
    ensures
        row == 0 ==> shown_in_row(app, row) == top_line(list_title(items), app.cols),
        1 <= row <= app.rows - 4 ==> shown_in_row(app, row) == painted_text(
            list_row(app, items, cursor, row - 1),
        ),
        row == app.rows - 2 ==> shown_in_row(app, row) == "│"@ + padded_spec(
            "  ↑↓ select · Enter load · Esc cancel"@,
            inner_width(app) as nat,
        ) + "│"@,
{
    let pal = app.context.colors;
    let none = Seq::<char>::empty();
    let height = app.msg_area_height() as int;
    let a = frame_start(pal);
    let top = top_border(list_title(items), app.cols, pal);
    let b = a + top;
    let c = b + list_rows(app, items, cursor, height);
    let d = c + separator_row(app);
    let e = d + hint_row(app);
    let f = e + bottom_border(app);
    assert(frame_spec(app) =~= f + frame_end());
    assert(frame_spec(app).drop_last() =~= f);
    lemma_frame_start(pal, row);
    lemma_top_border(list_title(items), app.cols, pal);
    lemma_row_added(a, top, 0, row);
    lemma_list_rows(b, app, items, cursor, height, row);
    lemma_bottom_border(app);
    lemma_row_added(c, separator_row(app), (app.rows - 3) as usize, row);
    let hint = padded_spec("  ↑↓ select · Enter load · Esc cancel"@, inner_width(app) as nat);
    lemma_text_row(
        (app.rows - 2) as usize,
        plain_style(pal.dim_fg, pal.bg),
        hint,
        pal,
    );
    lemma_row_added(d, hint_row(app), (app.rows - 2) as usize, row);
    lemma_row_added(e, bottom_border(app), (app.rows - 1) as usize, row);
    let text = if row == 0 {
        painted_text(top)
    } else if row <= height {
        painted_text(list_row(app, items, cursor, row - 1))
    } else {
        painted_text(hint_row(app))
    };
    assert(none + text =~= text);
    assert(text + none =~= text);
    assert(none + none =~= none);
}

/// A conversation is listed under its summary, cut behind thirty characters, or as one without a
/// summary where that is empty or nothing but dots.
pub proof fn law_listed_title(summary: Seq<char>)
    ensures
        (exists|i: int| 0 <= i < summary.len() && #[trigger] summary[i] != '…') ==> listed_title(
            summary,
        ) == (if summary.len() <= 30 {
            summary
        } else {
            summary.take(30)
        }),
        (forall|i: int| 0 <= i < summary.len() ==> #[trigger] summary[i] == '…') ==> listed_title(
            summary,
        ) == "(no summary yet)"@,
{
}

/// Only the chosen conversation is highlighted.
pub proof fn law_cursor_is_highlighted(app: AppView, items: Seq<MetaView>, cursor: usize, k: int)
    requires
        0 <= k < items.len(),
        k < usize::MAX,
    ensures
        ({
            let pal = app.context.colors;
            let row = list_row(app, items, cursor, k);
            &&& row.len() == 7
            &&& row[3] == PaintView::Style(
                if k == cursor {
                    CellStyle {
                        foreground: pal.bg,
                        background: pal.accent,
                        bold: false,
                        italic: false,
                    }
                } else {
                    CellStyle {
                        foreground: pal.fg,
                        background: pal.bg,
                        bold: false,
                        italic: false,
                    }
                },
            )
        }),
{
}

/// The suggestion that would be accepted, and no other, is highlighted.
pub proof fn law_suggestion_is_highlighted(
    hint: Seq<char>,
    entries: Seq<Seq<char>>,
    selected: int,
    k: int,
    pal: ChatPalette,
)
    requires
        0 <= k < entries.len(),
    ensures
        ({
            let runs = suggestion_runs(hint, entries, selected, entries.len() as int, pal);
            let i = 1 + 2 * k;
            &&& i < runs.len()
            &&& runs[i].text == entries[k]
            &&& runs[i].style.background == (if k == selected {
                pal.accent
            } else {
                pal.bg
            })
            &&& runs[i].style.foreground == (if k == selected {
                pal.bg
            } else {
                pal.ai_text
            })
        }),
{
    lemma_suggestion_places(hint, entries, selected, entries.len() as int, k, pal);
}

proof fn lemma_suggestion_places(
    hint: Seq<char>,
    entries: Seq<Seq<char>>,
    selected: int,
    n: int,
    k: int,
    pal: ChatPalette,
)
    requires
        0 <= n <= entries.len(),
    ensures
        suggestion_runs(hint, entries, selected, n, pal).len() == (if n == 0 {
            1
        } else {
            2 * n
        }),
        0 <= k < n ==> suggestion_runs(hint, entries, selected, n, pal)[1 + 2 * k] == (StyledView {
            style: if k == selected {
                plain_style(pal.bg, pal.accent)
            } else {
                plain_style(pal.ai_text, pal.bg)
            },
            text: entries[k],
        }),
    decreases n,
{
    if n > 0 {
        lemma_suggestion_places(hint, entries, selected, n - 1, k, pal);
    }
}

/// Which columns of a line are highlighted: of the first line of a selection those from its start
/// on, of the last those up to its end, of the lines between all of them, and of no other line
/// any. In which direction the selection was drawn makes no difference.
pub proof fn law_highlighted_columns(
    app: AppView,
    r0: usize,
    c0: usize,
    r1: usize,
    c1: usize,
    i: int,
)
    requires
        app.selection == Some((r0, c0, r1, c1)) || app.selection == Some((r1, c1, r0, c0)),
        r0 < r1 || r0 == r1 && c0 <= c1,
        c0 >= 1,
        c1 >= 1,
        app.cols >= 2,
    ensures
        i < r0 || i > r1 ==> selected_range(app, i) is None,
        i == r0 && r0 < r1 ==> selected_range(app, i) == Some(
            ((c0 - 1) as usize, (app.cols - 2) as usize),
        ),
        i == r1 && r0 < r1 ==> selected_range(app, i) == Some((0usize, (c1 - 1) as usize)),
        r0 < i < r1 ==> selected_range(app, i) == Some((0usize, (app.cols - 2) as usize)),
        i == r0 && r0 == r1 ==> selected_range(app, i) == Some(
            ((c0 - 1) as usize, (c1 - 1) as usize),
        ),
{
}

/// Without a selection nothing is highlighted.
pub proof fn law_no_selection_no_highlight(app: AppView, i: int)
    requires
        app.selection is None,
    ensures
        selected_range(app, i) is None,
{
}

/// The cursor stands in the input row behind the prompt and what has been typed in front of it,
/// and at the right border where that is further.
pub proof fn law_cursor_follows_the_input(app: AppView)
    requires
        app.mode is Chat,
        app.pending_approval is None,
        app.rows >= 2,
        app.cols >= 2,
    ensures
        ({
            let frame = frame_spec(app);
            let prompt = if app.is_streaming {
                "  ⏳ "@
            } else {
                "  > "@
            };
            let col = 1 + column_width_spec(prompt) + column_width_spec(
                app.input.take(app.input_cursor as int),
            );
            &&& frame.len() >= 3
            &&& frame[frame.len() - 3] == (PaintView::MoveTo {
                col: (if col < app.cols - 2 {
                    col as int
                } else {
                    app.cols - 2
                }) as usize,
                row: (app.rows - 2) as usize,
            })
            &&& frame[frame.len() - 2] == PaintView::ShowCursor(true)
        }),
{
}

} // verus!
