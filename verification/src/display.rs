//! The conversation as lines of the message area.

use crate::markdown::{
    blocks_spec, parse_markdown_blocks, plain_spec, tokenize_inline, tokenize_spec, InlineSpan,
    InlineStyle, MdBlock, MdBlockView, SpanView,
};
use crate::measure::{column_width, column_width_spec};
use crate::message::{AttachmentView, Message, MessageAttachment, MessageView, Role};
use crate::text::{repeat_char, repeat_spec, split_on, split_spec};
use crate::wrap::{
    clusters_are_cut, copy_spans, law_ink_is_text, law_wrap_keeps_ink, lines_text, visible,
    wrap_segments, wrap_spec,
};
use vstd::prelude::*;

verus! {

// ─── Lines ───────────────────────────────────────────────────────────────────

/// A tool call shown in the header row of an answer.
pub struct ToolRef {
    pub name: String,
    pub args: String,
    pub complete: bool,
    pub failed: bool,
}

/// What a [`ToolRef`] holds.
#[verifier::ext_equal]
pub struct ToolRefView {
    pub name: Seq<char>,
    pub args: Seq<char>,
    pub complete: bool,
    pub failed: bool,
}

impl DeepView for ToolRef {
    type V = ToolRefView;

    open spec fn deep_view(&self) -> ToolRefView {
        ToolRefView {
            name: self.name@,
            args: self.args@,
            complete: self.complete,
            failed: self.failed,
        }
    }
}

/// What kind of line a wrapped line is. It controls the decoration of the line (indent, bullet,
/// rule), while the spans within it carry the emphasis of characters.
#[derive(Clone, Copy, PartialEq, Eq, Debug, Structural)]
pub enum BlockStyle {
    Normal,
    Heading(u8),
    Quote,
    Hr,
    Code,
    /// First wrapped line of a list item, which shows the marker; the others are
    /// `ListContinuation`, which keeps the indent.
    ListItem,
    ListContinuation,
}

/// A line of the message area.
pub enum DisplayLine {
    Header {
        role: Role,
        /// Tool calls shown in the header of an answer. There are none for the user.
        tools: Vec<ToolRef>,
    },
    AttachmentSummary { labels: Vec<String> },
    Text { segments: Vec<InlineSpan>, role: Role, block: BlockStyle },
    Blank,
}

/// What a [`DisplayLine`] holds.
#[verifier::ext_equal]
pub enum LineView {
    Header { role: Role, tools: Seq<ToolRefView> },
    AttachmentSummary { labels: Seq<Seq<char>> },
    Text { segments: Seq<SpanView>, role: Role, block: BlockStyle },
    Blank,
}

impl DeepView for DisplayLine {
    type V = LineView;

    open spec fn deep_view(&self) -> LineView {
        match self {
            DisplayLine::Header { role, tools } => LineView::Header {
                role: *role,
                tools: tools.deep_view(),
            },
            DisplayLine::AttachmentSummary { labels } => LineView::AttachmentSummary {
                labels: labels.deep_view(),
            },
            DisplayLine::Text { segments, role, block } => LineView::Text {
                segments: segments.deep_view(),
                role: *role,
                block: *block,
            },
            DisplayLine::Blank => LineView::Blank,
        }
    }
}

// ─── Tool calls ──────────────────────────────────────────────────────────────

/// The sign for the state of a tool call.
pub open spec fn tool_icon(tool: ToolRefView) -> Seq<char> {
    if !tool.complete {
        "⚙"@
    } else if tool.failed {
        "✗"@
    } else {
        "✓"@
    }
}

/// What the header row says of a tool call.
pub open spec fn tool_text(tool: ToolRefView) -> Seq<char> {
    let named = "  "@ + tool_icon(tool) + " "@ + tool.name;
    if tool.args.len() == 0 {
        named
    } else {
        named + " "@ + tool.args
    }
}

/// What the header row says of `tools`.
pub open spec fn tool_suffix(tools: Seq<ToolRefView>) -> Seq<char>
    decreases tools.len(),
{
    if tools.len() == 0 {
        Seq::empty()
    } else {
        tool_suffix(tools.drop_last()) + tool_text(tools.last())
    }
}

/// Format the tool calls behind the header of an answer, such as
/// `  ✓ fs_list /path  ⚙ shell`.
pub fn format_tool_suffix(tools: &Vec<ToolRef>) -> (out: String)
    ensures
        out@ == tool_suffix(tools.deep_view()),
{
    let ghost all = tools.deep_view();
    let mut out: String = String::new();
    let mut i: usize = 0;
    while i < tools.len()
        invariant
            i <= tools.len(),
            all == tools.deep_view(),
            out@ == tool_suffix(all.take(i as int)),
        decreases tools.len() - i,
    {
        let tool: &ToolRef = &tools[i];
        let ghost before = out@;
        let icon: &str = if !tool.complete {
            "⚙"
        } else if tool.failed {
            "✗"
        } else {
            "✓"
        };
        out.append("  ");
        out.append(icon);
        out.append(" ");
        out.append(tool.name.as_str());
        if !tool.args.as_str().is_empty() {
            out.append(" ");
            out.append(tool.args.as_str());
        }
        proof {
            assert(all[i as int] == tool.deep_view());
            assert(all.take(i + 1).drop_last() =~= all.take(i as int));
            assert(out@ =~= before + tool_text(all[i as int]));
        }
        i += 1;
    }
    assert(all.take(all.len() as int) =~= all);
    out
}

// ─── Text of the user ────────────────────────────────────────────────────────

/// The span of one text in one style.
pub open spec fn one_span(text: Seq<char>, style: InlineStyle) -> Seq<SpanView> {
    seq![SpanView { text, style }]
}

/// The line for a wrapped line of the user: it has at least one span, which may be empty.
pub open spec fn user_line(segments: Seq<SpanView>) -> LineView {
    LineView::Text {
        segments: if segments.len() == 0 {
            one_span(Seq::empty(), InlineStyle::Plain)
        } else {
            segments
        },
        role: Role::User,
        block: BlockStyle::Normal,
    }
}

/// The lines for one line that the user typed.
pub open spec fn user_line_spec(raw: Seq<char>, width: nat) -> Seq<LineView> {
    let wrapped = wrap_spec(one_span(raw, InlineStyle::Plain), width);
    Seq::new(wrapped.len(), |i: int| user_line(wrapped[i]))
}

/// The lines for what the user typed. Markdown is not read in it.
pub open spec fn user_lines_spec(raw_lines: Seq<Seq<char>>, width: nat) -> Seq<LineView>
    decreases raw_lines.len(),
{
    if raw_lines.len() == 0 {
        Seq::empty()
    } else {
        user_lines_spec(raw_lines.drop_last(), width) + user_line_spec(raw_lines.last(), width)
    }
}

fn span_of(text: String, style: InlineStyle) -> (r: Vec<InlineSpan>)
    ensures
        r.deep_view() == one_span(text@, style),
{
    let mut v: Vec<InlineSpan> = Vec::new();
    let ghost given = text@;
    v.push(InlineSpan { text, style });
    assert(v.deep_view() =~= one_span(given, style));
    v
}

/// Append the lines for what the user typed. There is no markdown in it: the user sees it
/// literally.
pub fn emit_user_lines(out: &mut Vec<DisplayLine>, content: &str, width: usize)
    ensures
        final(out).deep_view() == old(out).deep_view() + user_lines_spec(
            split_spec(content@, '\n'),
            width as nat,
        ),
{
    let raw_lines: Vec<String> = split_on(content, '\n');
    let ghost all = raw_lines.deep_view();
    let ghost given = out.deep_view();
    let mut i: usize = 0;
    assert(out.deep_view() =~= given + user_lines_spec(all.take(0), width as nat));
    while i < raw_lines.len()
        invariant
            i <= raw_lines.len(),
            all == raw_lines.deep_view(),
            out.deep_view() == given + user_lines_spec(all.take(i as int), width as nat),
        decreases raw_lines.len() - i,
    {
        let spans: Vec<InlineSpan> = span_of(raw_lines[i].clone(), InlineStyle::Plain);
        let wrapped: Vec<Vec<InlineSpan>> = wrap_segments(&spans, width);
        let ghost lines = wrapped.deep_view();
        let ghost shown = out.deep_view();
        let ghost added = user_line_spec(all[i as int], width as nat);
        proof {
            assert(all[i as int] == raw_lines@[i as int]@);
            assert(all.take(i + 1).drop_last() =~= all.take(i as int));
        }
        let mut j: usize = 0;
        assert(out.deep_view() =~= shown + added.take(0));
        while j < wrapped.len()
            invariant
                j <= wrapped.len(),
                lines == wrapped.deep_view(),
                added.len() == lines.len(),
                forall|k: int| 0 <= k < lines.len() ==> #[trigger] added[k] == user_line(lines[k]),
                out.deep_view() == shown + added.take(j as int),
            decreases wrapped.len() - j,
        {
            assert(lines[j as int] == wrapped@[j as int].deep_view());
            assert(lines[j as int].len() == wrapped@[j as int]@.len());
            let segments: Vec<InlineSpan> = if wrapped[j].len() == 0 {
                span_of(String::new(), InlineStyle::Plain)
            } else {
                copy_spans(&wrapped[j])
            };
            let ghost before = out.deep_view();
            let line: DisplayLine = DisplayLine::Text {
                segments,
                role: Role::User,
                block: BlockStyle::Normal,
            };
            let ghost view = line.deep_view();
            out.push(line);
            proof {
                assert(view == user_line(lines[j as int]));
                assert(out.deep_view() =~= before.push(view));
                assert(out.deep_view() =~= shown + added.take(j + 1));
            }
            j += 1;
        }
        proof {
            assert(added.take(added.len() as int) =~= added);
            assert(out.deep_view() =~= given + user_lines_spec(all.take(i + 1), width as nat));
        }
        i += 1;
    }
    assert(all.take(all.len() as int) =~= all);
}

// ─── Text of an answer ───────────────────────────────────────────────────────

/// A wrapped line of an answer.
pub open spec fn answer_line(segments: Seq<SpanView>, block: BlockStyle) -> LineView {
    LineView::Text { segments, role: Role::Assistant, block }
}

/// The wrapped lines of a block.
pub open spec fn answer_lines(wrapped: Seq<Seq<SpanView>>, block: BlockStyle) -> Seq<LineView> {
    Seq::new(wrapped.len(), |i: int| answer_line(wrapped[i], block))
}

/// The wrapped lines of a list item: the first has the marker in front.
pub open spec fn item_lines(wrapped: Seq<Seq<SpanView>>, marker: Seq<char>) -> Seq<LineView> {
    Seq::new(
        wrapped.len(),
        |i: int|
            if i == 0 {
                answer_line(
                    one_span(marker, InlineStyle::Plain) + wrapped[0],
                    BlockStyle::ListItem,
                )
            } else {
                answer_line(wrapped[i], BlockStyle::ListContinuation)
            },
    )
}

/// What is left of `width` columns behind `used` ones, and at least one.
pub open spec fn remaining_width(width: nat, used: nat) -> nat {
    if width > used {
        (width - used) as nat
    } else {
        1
    }
}

/// The lines of a block. A quote leaves two columns for its bar, a list item those of its marker.
pub open spec fn block_lines(block: MdBlockView, width: nat) -> Seq<LineView> {
    match block {
        MdBlockView::Blank => seq![LineView::Blank],
        MdBlockView::Hr => seq![
            answer_line(one_span(repeat_spec('─', width), InlineStyle::Plain), BlockStyle::Hr),
        ],
        MdBlockView::Paragraph(text) => answer_lines(
            wrap_spec(tokenize_spec(text), width),
            BlockStyle::Normal,
        ),
        MdBlockView::Heading { level, text } => answer_lines(
            wrap_spec(tokenize_spec(text), width),
            BlockStyle::Heading(level),
        ),
        MdBlockView::Quote(text) => answer_lines(
            wrap_spec(tokenize_spec(text), remaining_width(width, 2)),
            BlockStyle::Quote,
        ),
        MdBlockView::ListItem { marker, text } => item_lines(
            wrap_spec(tokenize_spec(text), remaining_width(width, column_width_spec(marker))),
            marker,
        ),
        MdBlockView::CodeLine(text) => answer_lines(
            wrap_spec(one_span(text, InlineStyle::Code), width),
            BlockStyle::Code,
        ),
    }
}

/// The lines of `blocks`.
pub open spec fn blocks_lines(blocks: Seq<MdBlockView>, width: nat) -> Seq<LineView>
    decreases blocks.len(),
{
    if blocks.len() == 0 {
        Seq::empty()
    } else {
        blocks_lines(blocks.drop_last(), width) + block_lines(blocks.last(), width)
    }
}

/// The lines of an answer.
pub open spec fn markdown_lines(content: Seq<char>, width: nat) -> Seq<LineView> {
    blocks_lines(blocks_spec(split_spec(content, '\n')), width)
}

fn width_left(width: usize, used: usize) -> (r: usize)
    ensures
        r == remaining_width(width as nat, used as nat),
{
    if width > used {
        width - used
    } else {
        1
    }
}

fn push_answer_lines(
    out: &mut Vec<DisplayLine>,
    wrapped: &Vec<Vec<InlineSpan>>,
    block: BlockStyle,
)
    ensures
        final(out).deep_view() == old(out).deep_view() + answer_lines(wrapped.deep_view(), block),
{
    let ghost given = out.deep_view();
    let ghost lines = wrapped.deep_view();
    let ghost added = answer_lines(lines, block);
    let mut j: usize = 0;
    assert(out.deep_view() =~= given + added.take(0));
    while j < wrapped.len()
        invariant
            j <= wrapped.len(),
            lines == wrapped.deep_view(),
            added == answer_lines(lines, block),
            out.deep_view() == given + added.take(j as int),
        decreases wrapped.len() - j,
    {
        assert(lines[j as int] == wrapped@[j as int].deep_view());
        let ghost before = out.deep_view();
        let line: DisplayLine = DisplayLine::Text {
            segments: copy_spans(&wrapped[j]),
            role: Role::Assistant,
            block,
        };
        let ghost view = line.deep_view();
        out.push(line);
        proof {
            assert(view == added[j as int]);
            assert(out.deep_view() =~= before.push(view));
            assert(out.deep_view() =~= given + added.take(j + 1));
        }
        j += 1;
    }
    assert(added.take(added.len() as int) =~= added);
}

fn push_item_lines(
    out: &mut Vec<DisplayLine>,
    wrapped: &Vec<Vec<InlineSpan>>,
    marker: &String,
)
    ensures
        final(out).deep_view() == old(out).deep_view() + item_lines(wrapped.deep_view(), marker@),
{
    let ghost given = out.deep_view();
    let ghost lines = wrapped.deep_view();
    let ghost added = item_lines(lines, marker@);
    let mut j: usize = 0;
    assert(out.deep_view() =~= given + added.take(0));
    while j < wrapped.len()
        invariant
            j <= wrapped.len(),
            lines == wrapped.deep_view(),
            added == item_lines(lines, marker@),
            out.deep_view() == given + added.take(j as int),
        decreases wrapped.len() - j,
    {
        assert(lines[j as int] == wrapped@[j as int].deep_view());
        let ghost before = out.deep_view();
        let mut segments: Vec<InlineSpan> = copy_spans(&wrapped[j]);
        let line: DisplayLine = if j == 0 {
            let mut first: Vec<InlineSpan> = span_of(marker.clone(), InlineStyle::Plain);
            let ghost a = first.deep_view();
            let ghost b = segments.deep_view();
            first.append(&mut segments);
            assert(first.deep_view() =~= a + b);
            DisplayLine::Text {
                segments: first,
                role: Role::Assistant,
                block: BlockStyle::ListItem,
            }
        } else {
            DisplayLine::Text {
                segments,
                role: Role::Assistant,
                block: BlockStyle::ListContinuation,
            }
        };
        let ghost view = line.deep_view();
        out.push(line);
        proof {
            assert(view == added[j as int]);
            assert(out.deep_view() =~= before.push(view));
            assert(out.deep_view() =~= given + added.take(j + 1));
        }
        j += 1;
    }
    assert(added.take(added.len() as int) =~= added);
}

fn push_block(out: &mut Vec<DisplayLine>, block: &MdBlock, width: usize)
    ensures
        final(out).deep_view() == old(out).deep_view() + block_lines(
            block.deep_view(),
            width as nat,
        ),
{
    let ghost given = out.deep_view();
    match block {
        MdBlock::Blank => {
            out.push(DisplayLine::Blank);
            assert(out.deep_view() =~= given + seq![LineView::Blank]);
        },
        MdBlock::Hr => {
            let line: DisplayLine = DisplayLine::Text {
                segments: span_of(repeat_char('─', width), InlineStyle::Plain),
                role: Role::Assistant,
                block: BlockStyle::Hr,
            };
            let ghost view = line.deep_view();
            out.push(line);
            assert(out.deep_view() =~= given + seq![view]);
        },
        MdBlock::Paragraph(text) => {
            let wrapped: Vec<Vec<InlineSpan>> = wrap_segments(
                &tokenize_inline(text.as_str()),
                width,
            );
            push_answer_lines(out, &wrapped, BlockStyle::Normal);
        },
        MdBlock::Heading { level, text } => {
            let wrapped: Vec<Vec<InlineSpan>> = wrap_segments(
                &tokenize_inline(text.as_str()),
                width,
            );
            push_answer_lines(out, &wrapped, BlockStyle::Heading(*level));
        },
        MdBlock::Quote(text) => {
            let wrapped: Vec<Vec<InlineSpan>> = wrap_segments(
                &tokenize_inline(text.as_str()),
                width_left(width, 2),
            );
            push_answer_lines(out, &wrapped, BlockStyle::Quote);
        },
        MdBlock::ListItem { marker, text } => {
            let avail: usize = width_left(width, column_width(marker.as_str()));
            let wrapped: Vec<Vec<InlineSpan>> = wrap_segments(
                &tokenize_inline(text.as_str()),
                avail,
            );
            push_item_lines(out, &wrapped, marker);
        },
        MdBlock::CodeLine(text) => {
            // A code line is never read for emphasis: the whole line is one span.
            let wrapped: Vec<Vec<InlineSpan>> = wrap_segments(
                &span_of(text.clone(), InlineStyle::Code),
                width,
            );
            push_answer_lines(out, &wrapped, BlockStyle::Code);
        },
    }
}

/// Append the lines of an answer. Each block becomes one or more lines; a list item has its
/// marker on the first of them only.
pub fn emit_assistant_markdown(out: &mut Vec<DisplayLine>, content: &str, width: usize)
    ensures
        final(out).deep_view() == old(out).deep_view() + markdown_lines(content@, width as nat),
{
    let blocks: Vec<MdBlock> = parse_markdown_blocks(content);
    let ghost all = blocks.deep_view();
    let ghost given = out.deep_view();
    let mut i: usize = 0;
    assert(out.deep_view() =~= given + blocks_lines(all.take(0), width as nat));
    while i < blocks.len()
        invariant
            i <= blocks.len(),
            all == blocks.deep_view(),
            out.deep_view() == given + blocks_lines(all.take(i as int), width as nat),
        decreases blocks.len() - i,
    {
        push_block(out, &blocks[i], width);
        proof {
            assert(all[i as int] == blocks@[i as int].deep_view());
            assert(all.take(i + 1).drop_last() =~= all.take(i as int));
            assert(out.deep_view() =~= given + blocks_lines(all.take(i + 1), width as nat));
        }
        i += 1;
    }
    assert(all.take(all.len() as int) =~= all);
}

// ─── The conversation ────────────────────────────────────────────────────────

/// What a header shows of a tool call.
pub open spec fn tool_ref(message: MessageView) -> ToolRefView {
    ToolRefView {
        name: match message.tool_name {
            Some(name) => name,
            None => Seq::empty(),
        },
        args: match message.tool_args {
            Some(args) => args,
            None => Seq::empty(),
        },
        complete: message.complete,
        failed: message.tool_failed,
    }
}

/// The labels of `attachments`.
pub open spec fn labels_of(attachments: Seq<AttachmentView>) -> Seq<Seq<char>> {
    Seq::new(attachments.len(), |i: int| attachments[i].label)
}

/// The text that is shown of a message: a block cursor while nothing has arrived.
pub open spec fn shown_content(message: MessageView) -> Seq<char> {
    if message.content.len() == 0 && !message.complete {
        "▋"@
    } else {
        message.content
    }
}

/// The lines of a text, with the tool calls that led to it in the header of an answer.
pub open spec fn message_lines(
    message: MessageView,
    pending: Seq<ToolRefView>,
    width: nat,
) -> Seq<LineView> {
    match message.role {
        Role::User => {
            let flushed = if pending.len() > 0 {
                seq![LineView::Header { role: Role::Assistant, tools: pending }]
            } else {
                Seq::empty()
            };
            let attached = if message.attachments.len() > 0 {
                seq![LineView::AttachmentSummary { labels: labels_of(message.attachments) }]
            } else {
                Seq::empty()
            };
            flushed + attached + seq![LineView::Header { role: Role::User, tools: Seq::empty() }]
                + user_lines_spec(split_spec(shown_content(message), '\n'), width)
                + seq![LineView::Blank]
        },
        Role::Assistant => seq![LineView::Header { role: Role::Assistant, tools: pending }]
            + markdown_lines(shown_content(message), width) + seq![LineView::Blank],
    }
}

/// The lines of `messages`, and the tool calls for which no text has come yet.
pub open spec fn conversation_lines(messages: Seq<MessageView>, width: nat) -> (
    Seq<LineView>,
    Seq<ToolRefView>,
)
    decreases messages.len(),
{
    if messages.len() == 0 {
        (Seq::empty(), Seq::empty())
    } else {
        let (lines, pending) = conversation_lines(messages.drop_last(), width);
        let message = messages.last();
        if message.is_tool() {
            (lines, pending.push(tool_ref(message)))
        } else {
            (lines + message_lines(message, pending, width), Seq::empty())
        }
    }
}

/// All lines of the message area. Tool calls still without a text have a header row of their own.
pub open spec fn display_spec(messages: Seq<MessageView>, width: nat) -> Seq<LineView> {
    let (lines, pending) = conversation_lines(messages, width);
    if pending.len() > 0 {
        lines.push(LineView::Header { role: Role::Assistant, tools: pending })
    } else {
        lines
    }
}

fn text_or_empty(text: &Option<String>) -> (r: String)
    ensures
        r@ == (match text {
            Some(t) => t@,
            None => Seq::<char>::empty(),
        }),
{
    match text {
        Some(t) => t.clone(),
        None => String::new(),
    }
}

fn labels(attachments: &Vec<MessageAttachment>) -> (out: Vec<String>)
    ensures
        out.deep_view() == labels_of(attachments.deep_view()),
{
    let mut out: Vec<String> = Vec::new();
    let mut i: usize = 0;
    while i < attachments.len()
        invariant
            i <= attachments.len(),
            out@.len() == i,
            forall|j: int| 0 <= j < i ==> (#[trigger] out@[j])@ == attachments@[j].label@,
        decreases attachments.len() - i,
    {
        out.push(attachments[i].label.clone());
        i += 1;
    }
    assert(out.deep_view() =~= labels_of(attachments.deep_view()));
    out
}

fn push_line(out: &mut Vec<DisplayLine>, line: DisplayLine)
    ensures
        final(out).deep_view() == old(out).deep_view() + seq![line.deep_view()],
{
    let ghost given = out.deep_view();
    let ghost view = line.deep_view();
    out.push(line);
    assert(out.deep_view() =~= given + seq![view]);
}

fn push_message(out: &mut Vec<DisplayLine>, message: &Message, pending: Vec<ToolRef>, width: usize)
    ensures
        final(out).deep_view() == old(out).deep_view() + message_lines(
            message.deep_view(),
            pending.deep_view(),
            width as nat,
        ),
{
    let ghost given = out.deep_view();
    let ghost tools = pending.deep_view();
    assert(tools.len() == pending@.len());
    assert(message.deep_view().attachments.len() == message.attachments@.len());
    let content: String = if message.content.as_str().is_empty() && !message.complete {
        "▋".to_string()
    } else {
        message.content.clone()
    };
    match message.role {
        Role::User => {
            if pending.len() > 0 {
                push_line(out, DisplayLine::Header { role: Role::Assistant, tools: pending });
            }
            if message.attachments.len() > 0 {
                push_line(
                    out,
                    DisplayLine::AttachmentSummary { labels: labels(&message.attachments) },
                );
            }
            let none: Vec<ToolRef> = Vec::new();
            assert(none.deep_view() =~= Seq::empty());
            push_line(out, DisplayLine::Header { role: Role::User, tools: none });
            emit_user_lines(out, content.as_str(), width);
        },
        Role::Assistant => {
            push_line(out, DisplayLine::Header { role: Role::Assistant, tools: pending });
            emit_assistant_markdown(out, content.as_str(), width);
        },
    }
    push_line(out, DisplayLine::Blank);
    assert(out.deep_view() =~= given + message_lines(message.deep_view(), tools, width as nat));
}

/// All lines of the message area, `width` columns wide. Tool calls are gathered until the text
/// that they led to, and stand in its header row.
pub fn build_display_lines(messages: &Vec<Message>, width: usize) -> (out: Vec<DisplayLine>)
    ensures
        out.deep_view() == display_spec(messages.deep_view(), width as nat),
{
    let ghost all = messages.deep_view();
    let mut lines: Vec<DisplayLine> = Vec::new();
    let mut pending: Vec<ToolRef> = Vec::new();
    let mut i: usize = 0;
    proof {
        assert(lines.deep_view() =~= Seq::empty());
        assert(pending.deep_view() =~= Seq::empty());
    }
    while i < messages.len()
        invariant
            i <= messages.len(),
            all == messages.deep_view(),
            (lines.deep_view(), pending.deep_view()) == conversation_lines(
                all.take(i as int),
                width as nat,
            ),
        decreases messages.len() - i,
    {
        let message: &Message = &messages[i];
        proof {
            assert(all[i as int] == message.deep_view());
            assert(all.take(i + 1).drop_last() =~= all.take(i as int));
        }
        if message.is_tool() {
            let ghost before = pending.deep_view();
            let tool: ToolRef = ToolRef {
                name: text_or_empty(&message.tool_name),
                args: text_or_empty(&message.tool_args),
                complete: message.complete,
                failed: message.tool_failed,
            };
            let ghost view = tool.deep_view();
            pending.push(tool);
            proof {
                assert(view == tool_ref(all[i as int]));
                assert(pending.deep_view() =~= before.push(view));
            }
        } else {
            let mut taken: Vec<ToolRef> = Vec::new();
            std::mem::swap(&mut taken, &mut pending);
            assert(pending.deep_view() =~= Seq::empty());
            push_message(&mut lines, message, taken, width);
        }
        i += 1;
    }
    assert(all.take(all.len() as int) =~= all);
    assert(pending.deep_view().len() == pending@.len());
    if pending.len() > 0 {
        let ghost shown = lines.deep_view();
        let header: DisplayLine = DisplayLine::Header { role: Role::Assistant, tools: pending };
        let ghost view = header.deep_view();
        lines.push(header);
        assert(lines.deep_view() =~= shown.push(view));
    }
    lines
}

// ─── Laws ────────────────────────────────────────────────────────────────────

/// A new text adds lines behind those of the texts in front of it, and changes none of them.
pub proof fn law_text_adds_lines(messages: Seq<MessageView>, message: MessageView, width: nat)
    requires
        !message.is_tool(),
    ensures
        conversation_lines(messages.push(message), width).0 == conversation_lines(
            messages,
            width,
        ).0 + message_lines(message, conversation_lines(messages, width).1, width),
        display_spec(messages.push(message), width) == conversation_lines(
            messages.push(message),
            width,
        ).0,
{
    assert(messages.push(message).drop_last() =~= messages);
}

/// No tool call is lost: those that wait for a text stand, in order, in the header of the answer
/// that follows them, and until it comes in the last line.
pub proof fn law_tools_are_shown(messages: Seq<MessageView>, answer: MessageView, width: nat)
    requires
        !answer.is_tool(),
        answer.role == Role::Assistant,
    ensures
        ({
            let (lines, pending) = conversation_lines(messages, width);
            let header = LineView::Header { role: Role::Assistant, tools: pending };
            &&& pending.len() > 0 ==> display_spec(messages, width) == lines.push(header)
            &&& display_spec(messages.push(answer), width)[lines.len() as int] == header
        }),
{
    let (lines, pending) = conversation_lines(messages, width);
    law_text_adds_lines(messages, answer, width);
    assert(message_lines(answer, pending, width)[0] == (LineView::Header {
        role: Role::Assistant,
        tools: pending,
    }));
}

/// Whether a line is no header of the user with tool calls in it.
pub open spec fn is_clean(line: LineView) -> bool {
    line matches LineView::Header { role, tools } ==> role == Role::Assistant || tools.len() == 0
}

/// Whether all lines are so.
pub open spec fn all_clean(lines: Seq<LineView>) -> bool {
    forall|i: int| 0 <= i < lines.len() ==> is_clean(#[trigger] lines[i])
}

proof fn lemma_clean_concat(a: Seq<LineView>, b: Seq<LineView>)
    requires
        all_clean(a),
        all_clean(b),
    ensures
        all_clean(a + b),
{
    assert forall|i: int| 0 <= i < (a + b).len() implies is_clean(#[trigger] (a + b)[i]) by {
        if i < a.len() {
            assert(is_clean(a[i]));
        } else {
            assert(is_clean(b[i - a.len()]));
        }
    }
}

proof fn lemma_user_lines_clean(raw_lines: Seq<Seq<char>>, width: nat)
    ensures
        all_clean(user_lines_spec(raw_lines, width)),
    decreases raw_lines.len(),
{
    if raw_lines.len() > 0 {
        lemma_user_lines_clean(raw_lines.drop_last(), width);
        lemma_clean_concat(
            user_lines_spec(raw_lines.drop_last(), width),
            user_line_spec(raw_lines.last(), width),
        );
    }
}

proof fn lemma_blocks_clean(blocks: Seq<MdBlockView>, width: nat)
    ensures
        all_clean(blocks_lines(blocks, width)),
    decreases blocks.len(),
{
    if blocks.len() > 0 {
        lemma_blocks_clean(blocks.drop_last(), width);
        lemma_clean_concat(
            blocks_lines(blocks.drop_last(), width),
            block_lines(blocks.last(), width),
        );
    }
}

proof fn lemma_message_clean(message: MessageView, pending: Seq<ToolRefView>, width: nat)
    ensures
        all_clean(message_lines(message, pending, width)),
{
    let blank = seq![LineView::Blank];
    match message.role {
        Role::User => {
            let text = user_lines_spec(split_spec(shown_content(message), '\n'), width);
            lemma_user_lines_clean(split_spec(shown_content(message), '\n'), width);
            let flushed = if pending.len() > 0 {
                seq![LineView::Header { role: Role::Assistant, tools: pending }]
            } else {
                Seq::empty()
            };
            let attached = if message.attachments.len() > 0 {
                seq![LineView::AttachmentSummary { labels: labels_of(message.attachments) }]
            } else {
                Seq::empty()
            };
            let header = seq![LineView::Header { role: Role::User, tools: Seq::empty() }];
            lemma_clean_concat(flushed, attached);
            lemma_clean_concat(flushed + attached, header);
            lemma_clean_concat(flushed + attached + header, text);
            lemma_clean_concat(flushed + attached + header + text, blank);
        },
        Role::Assistant => {
            let header = seq![LineView::Header { role: Role::Assistant, tools: pending }];
            let text = markdown_lines(shown_content(message), width);
            lemma_blocks_clean(blocks_spec(split_spec(shown_content(message), '\n')), width);
            lemma_clean_concat(header, text);
            lemma_clean_concat(header + text, blank);
        },
    }
}

proof fn lemma_conversation_clean(messages: Seq<MessageView>, width: nat)
    ensures
        all_clean(conversation_lines(messages, width).0),
    decreases messages.len(),
{
    if messages.len() > 0 {
        let front = messages.drop_last();
        lemma_conversation_clean(front, width);
        let (lines, pending) = conversation_lines(front, width);
        lemma_message_clean(messages.last(), pending, width);
        lemma_clean_concat(lines, message_lines(messages.last(), pending, width));
    }
}

/// Tool calls are never shown in a header of the user.
pub proof fn law_user_headers_have_no_tools(messages: Seq<MessageView>, width: nat, i: int)
    requires
        0 <= i < display_spec(messages, width).len(),
    ensures
        display_spec(messages, width)[i] matches LineView::Header { role: Role::User, tools }
            ==> tools.len() == 0,
{
    lemma_conversation_clean(messages, width);
    let (lines, pending) = conversation_lines(messages, width);
    if i < lines.len() {
        assert(is_clean(lines[i]));
        assert(display_spec(messages, width)[i] == lines[i]);
    }
}

/// The tool calls in the headers of `lines`, in their order.
pub open spec fn header_tools(lines: Seq<LineView>) -> Seq<ToolRefView>
    decreases lines.len(),
{
    if lines.len() == 0 {
        Seq::empty()
    } else {
        header_tools(lines.drop_last()) + match lines.last() {
            LineView::Header { tools, .. } => tools,
            _ => Seq::empty(),
        }
    }
}

/// The tool calls among `messages`, in their order.
pub open spec fn tools_of(messages: Seq<MessageView>) -> Seq<ToolRefView>
    decreases messages.len(),
{
    if messages.len() == 0 {
        Seq::empty()
    } else if messages.last().is_tool() {
        tools_of(messages.drop_last()).push(tool_ref(messages.last()))
    } else {
        tools_of(messages.drop_last())
    }
}

proof fn lemma_header_tools_concat(a: Seq<LineView>, b: Seq<LineView>)
    ensures
        header_tools(a + b) == header_tools(a) + header_tools(b),
    decreases b.len(),
{
    if b.len() == 0 {
        assert(a + b =~= a);
        assert(header_tools(a) + header_tools(b) =~= header_tools(a));
    } else {
        assert((a + b).drop_last() =~= a + b.drop_last());
        lemma_header_tools_concat(a, b.drop_last());
        assert(header_tools(a + b) =~= header_tools(a) + header_tools(b));
    }
}

proof fn lemma_one_line_tools(line: LineView)
    ensures
        header_tools(seq![line]) == (match line {
            LineView::Header { tools, .. } => tools,
            _ => Seq::empty(),
        }),
{
    assert(seq![line].drop_last() =~= Seq::<LineView>::empty());
    reveal_with_fuel(header_tools, 2);
    assert(header_tools(seq![line]) =~= (match line {
        LineView::Header { tools, .. } => tools,
        _ => Seq::empty(),
    }));
}

proof fn lemma_no_header_no_tools(lines: Seq<LineView>)
    requires
        forall|i: int| 0 <= i < lines.len() ==> !(#[trigger] lines[i] is Header),
    ensures
        header_tools(lines) == Seq::<ToolRefView>::empty(),
    decreases lines.len(),
{
    if lines.len() > 0 {
        assert forall|i: int| 0 <= i < lines.drop_last().len() implies !(
        #[trigger] lines.drop_last()[i] is Header) by {
            assert(!(lines[i] is Header));
        }
        lemma_no_header_no_tools(lines.drop_last());
        assert(!(lines[lines.len() - 1] is Header));
        assert(header_tools(lines) =~= Seq::<ToolRefView>::empty());
    }
}

proof fn lemma_user_lines_tools(raw_lines: Seq<Seq<char>>, width: nat)
    ensures
        header_tools(user_lines_spec(raw_lines, width)) == Seq::<ToolRefView>::empty(),
    decreases raw_lines.len(),
{
    if raw_lines.len() > 0 {
        let front = user_lines_spec(raw_lines.drop_last(), width);
        let last = user_line_spec(raw_lines.last(), width);
        lemma_user_lines_tools(raw_lines.drop_last(), width);
        lemma_no_header_no_tools(last);
        lemma_header_tools_concat(front, last);
        assert(header_tools(front + last) =~= Seq::<ToolRefView>::empty());
    }
}

proof fn lemma_blocks_tools(blocks: Seq<MdBlockView>, width: nat)
    ensures
        header_tools(blocks_lines(blocks, width)) == Seq::<ToolRefView>::empty(),
    decreases blocks.len(),
{
    if blocks.len() > 0 {
        let front = blocks_lines(blocks.drop_last(), width);
        let last = block_lines(blocks.last(), width);
        lemma_blocks_tools(blocks.drop_last(), width);
        lemma_no_header_no_tools(last);
        lemma_header_tools_concat(front, last);
        assert(header_tools(front + last) =~= Seq::<ToolRefView>::empty());
    }
}

proof fn lemma_message_tools(message: MessageView, pending: Seq<ToolRefView>, width: nat)
    ensures
        header_tools(message_lines(message, pending, width)) == pending,
{
    let blank = seq![LineView::Blank];
    lemma_one_line_tools(LineView::Blank);
    match message.role {
        Role::User => {
            let text = user_lines_spec(split_spec(shown_content(message), '\n'), width);
            lemma_user_lines_tools(split_spec(shown_content(message), '\n'), width);
            let asked = LineView::Header { role: Role::Assistant, tools: pending };
            let flushed = if pending.len() > 0 {
                seq![asked]
            } else {
                Seq::empty()
            };
            let summary = LineView::AttachmentSummary { labels: labels_of(message.attachments) };
            let attached = if message.attachments.len() > 0 {
                seq![summary]
            } else {
                Seq::empty()
            };
            let you = LineView::Header { role: Role::User, tools: Seq::empty() };
            lemma_one_line_tools(asked);
            lemma_one_line_tools(summary);
            lemma_one_line_tools(you);
            lemma_header_tools_concat(flushed, attached);
            lemma_header_tools_concat(flushed + attached, seq![you]);
            lemma_header_tools_concat(flushed + attached + seq![you], text);
            lemma_header_tools_concat(flushed + attached + seq![you] + text, blank);
        },
        Role::Assistant => {
            let header = LineView::Header { role: Role::Assistant, tools: pending };
            let text = markdown_lines(shown_content(message), width);
            lemma_blocks_tools(blocks_spec(split_spec(shown_content(message), '\n')), width);
            lemma_one_line_tools(header);
            lemma_header_tools_concat(seq![header], text);
            lemma_header_tools_concat(seq![header] + text, blank);
        },
    }
    assert(header_tools(message_lines(message, pending, width)) =~= pending);
}

proof fn lemma_conversation_tools(messages: Seq<MessageView>, width: nat)
    ensures
        ({
            let (lines, pending) = conversation_lines(messages, width);
            header_tools(lines) + pending == tools_of(messages)
        }),
    decreases messages.len(),
{
    let (lines, pending) = conversation_lines(messages, width);
    if messages.len() > 0 {
        let (before, waiting) = conversation_lines(messages.drop_last(), width);
        lemma_conversation_tools(messages.drop_last(), width);
        if !messages.last().is_tool() {
            lemma_message_tools(messages.last(), waiting, width);
            lemma_header_tools_concat(before, message_lines(messages.last(), waiting, width));
        }
    }
    assert(header_tools(lines) + pending =~= tools_of(messages));
}

/// The headers together show exactly the tool calls of the conversation, each once and in their
/// order.
pub proof fn law_headers_hold_all_tools(messages: Seq<MessageView>, width: nat)
    ensures
        header_tools(display_spec(messages, width)) == tools_of(messages),
{
    lemma_conversation_tools(messages, width);
    let (lines, pending) = conversation_lines(messages, width);
    if pending.len() > 0 {
        let header = LineView::Header { role: Role::Assistant, tools: pending };
        assert(lines.push(header).drop_last() =~= lines);
    }
    assert(header_tools(display_spec(messages, width)) =~= tools_of(messages));
}

/// How a tool call is shown: a sign for its state, its name, and its arguments where it has some.
pub proof fn law_tool_calls_are_named(tool: ToolRefView)
    ensures
        !tool.complete ==> tool_text(tool) == "  "@ + "⚙"@ + " "@ + tool.name + (if tool.args.len()
            == 0 {
            Seq::empty()
        } else {
            " "@ + tool.args
        }),
        tool.complete && tool.failed ==> tool_text(tool) == "  "@ + "✗"@ + " "@ + tool.name + (
        if tool.args.len() == 0 {
            Seq::empty()
        } else {
            " "@ + tool.args
        }),
        tool.complete && !tool.failed ==> tool_text(tool) == "  "@ + "✓"@ + " "@ + tool.name + (
        if tool.args.len() == 0 {
            Seq::empty()
        } else {
            " "@ + tool.args
        }),
{
    let named = "  "@ + tool_icon(tool) + " "@ + tool.name;
    assert(named + Seq::<char>::empty() =~= named);
    assert(named + " "@ + tool.args =~= named + (" "@ + tool.args));
}

/// The calls of a header stand behind one another, in the order in which they were made.
pub proof fn law_tool_calls_in_order(tools: Seq<ToolRefView>, tool: ToolRefView)
    ensures
        tool_suffix(tools.push(tool)) == tool_suffix(tools) + tool_text(tool),
        tool_suffix(Seq::empty()).len() == 0,
{
    assert(tools.push(tool).drop_last() =~= tools);
}

/// What a header tells of a tool call is what its message holds.
pub proof fn law_tool_refs(message: MessageView)
    ensures
        ({
            let tool = tool_ref(message);
            &&& message.tool_name matches Some(name) ==> tool.name == name
            &&& message.tool_args matches Some(args) ==> tool.args == args
            &&& message.tool_args is None ==> tool.args.len() == 0
            &&& tool.complete == message.complete
            &&& tool.failed == message.tool_failed
        }),
{
}

/// How a message is laid out: in front of what the user said stand the labels of what is attached
/// and a header; in front of an answer a header with the tool calls that led to it. The text
/// follows, and an empty line. While nothing has arrived, a block stands for the text.
pub proof fn law_layout_of_messages(message: MessageView, pending: Seq<ToolRefView>, width: nat)
    ensures
        ({
            let lines = message_lines(message, pending, width);
            let text = if message.content.len() == 0 && !message.complete {
                "▋"@
            } else {
                message.content
            };
            let user = message.role == Role::User;
            let flushed = if user && pending.len() > 0 {
                1int
            } else {
                0int
            };
            let attached = if user && message.attachments.len() > 0 {
                1int
            } else {
                0int
            };
            let at = flushed + attached;
            &&& lines.len() >= at + 2
            &&& lines.last() is Blank
            &&& flushed == 1 ==> lines[0] == (LineView::Header {
                role: Role::Assistant,
                tools: pending,
            })
            &&& attached == 1 ==> (lines[flushed] matches LineView::AttachmentSummary { labels }
                && labels.len() == message.attachments.len() && forall|i: int|
                0 <= i < labels.len() ==> #[trigger] labels[i] == message.attachments[i].label)
            &&& lines[at] == (LineView::Header {
                role: message.role,
                tools: if user {
                    Seq::empty()
                } else {
                    pending
                },
            })
            &&& lines.subrange(at + 1, lines.len() - 1) == (if user {
                user_lines_spec(split_spec(text, '\n'), width)
            } else {
                blocks_lines(blocks_spec(split_spec(text, '\n')), width)
            })
        }),
{
    let lines = message_lines(message, pending, width);
    let user = message.role == Role::User;
    let flushed = if user && pending.len() > 0 {
        1int
    } else {
        0int
    };
    let attached = if user && message.attachments.len() > 0 {
        1int
    } else {
        0int
    };
    let at = flushed + attached;
    let text = shown_content(message);
    if user {
        assert(lines.subrange(at + 1, lines.len() - 1) =~= user_lines_spec(
            split_spec(text, '\n'),
            width,
        ));
    } else {
        assert(lines.subrange(1, lines.len() - 1) =~= markdown_lines(text, width));
    }
}

/// The spans of lines of text.
pub open spec fn text_of_lines(lines: Seq<LineView>) -> Seq<Seq<SpanView>> {
    Seq::new(
        lines.len(),
        |i: int|
            match lines[i] {
                LineView::Text { segments, .. } => segments,
                _ => Seq::empty(),
            },
    )
}

/// What the user typed is shown as it is: no visible character of a line is lost, moved or read
/// as markdown, and every wrapped line is one of the user's.
pub proof fn law_typed_lines_are_shown(raw: Seq<char>, width: nat)
    requires
        width > 0,
        clusters_are_cut(SpanView { text: raw, style: InlineStyle::Plain }),
    ensures
        ({
            let lines = user_line_spec(raw, width);
            &&& forall|i: int|
                0 <= i < lines.len() ==> (#[trigger] lines[i] matches LineView::Text {
                    role,
                    block,
                    ..
                } && role == Role::User && block == BlockStyle::Normal)
            &&& visible(lines_text(text_of_lines(lines))) == visible(raw)
        }),
{
    let segments = one_span(raw, InlineStyle::Plain);
    let wrapped = wrap_spec(segments, width);
    let lines = user_line_spec(raw, width);
    assert(segments[0] == (SpanView { text: raw, style: InlineStyle::Plain }));
    law_wrap_keeps_ink(segments, width);
    law_ink_is_text(wrapped, segments);
    assert(segments.drop_last() =~= Seq::empty());
    reveal_with_fuel(plain_spec, 2);
    assert(plain_spec(segments) =~= raw);
    lemma_same_text(text_of_lines(lines), wrapped);
}

proof fn lemma_same_text(a: Seq<Seq<SpanView>>, b: Seq<Seq<SpanView>>)
    requires
        a.len() == b.len(),
        forall|i: int| 0 <= i < a.len() ==> plain_spec(#[trigger] a[i]) == plain_spec(b[i]),
    ensures
        lines_text(a) == lines_text(b),
    decreases a.len(),
{
    if a.len() > 0 {
        let x = a.drop_last();
        let y = b.drop_last();
        assert forall|i: int| 0 <= i < x.len() implies plain_spec(#[trigger] x[i]) == plain_spec(
            y[i],
        ) by {
            assert(plain_spec(a[i]) == plain_spec(b[i]));
        }
        lemma_same_text(x, y);
        assert(plain_spec(a[a.len() - 1]) == plain_spec(b[a.len() - 1]));
    }
}

/// The text of an answer is shown: the lines of a paragraph, a heading or a quote hold its text
/// without the markers, those of a line of code hold it as it is, each in its own kind of line,
/// and none of its visible characters is lost or moved.
pub proof fn law_blocks_are_shown(text: Seq<char>, level: u8, width: nat)
    requires
        width > 2,
        forall|i: int|
            0 <= i < tokenize_spec(text).len() ==> clusters_are_cut(
                #[trigger] tokenize_spec(text)[i],
            ),
        clusters_are_cut(SpanView { text, style: InlineStyle::Code }),
    ensures
        shows_text(
            block_lines(MdBlockView::Paragraph(text), width),
            plain_spec(tokenize_spec(text)),
            BlockStyle::Normal,
        ),
        shows_text(
            block_lines(MdBlockView::Heading { level, text }, width),
            plain_spec(tokenize_spec(text)),
            BlockStyle::Heading(level),
        ),
        shows_text(
            block_lines(MdBlockView::Quote(text), width),
            plain_spec(tokenize_spec(text)),
            BlockStyle::Quote,
        ),
        shows_text(
            block_lines(MdBlockView::CodeLine(text), width),
            text,
            BlockStyle::Code,
        ),
        block_lines(MdBlockView::Blank, width) == seq![LineView::Blank],
        ({
            let rule = block_lines(MdBlockView::Hr, width);
            rule.len() == 1 && shows_text(rule, repeat_spec('─', width), BlockStyle::Hr)
        }),
{
    let spans = tokenize_spec(text);
    let code = one_span(text, InlineStyle::Code);
    assert(code[0] == (SpanView { text, style: InlineStyle::Code }));
    lemma_answer_lines(spans, width, BlockStyle::Normal);
    lemma_answer_lines(spans, width, BlockStyle::Heading(level));
    lemma_answer_lines(spans, (width - 2) as nat, BlockStyle::Quote);
    lemma_answer_lines(code, width, BlockStyle::Code);
    assert(code.drop_last() =~= Seq::empty());
    reveal_with_fuel(plain_spec, 2);
    reveal_with_fuel(lines_text, 2);
    assert(plain_spec(code) =~= text);
    let rule = block_lines(MdBlockView::Hr, width);
    let dashes = one_span(repeat_spec('─', width), InlineStyle::Plain);
    assert(dashes.drop_last() =~= Seq::empty());
    assert(plain_spec(dashes) =~= repeat_spec('─', width));
    let spans_of_rule = text_of_lines(rule);
    assert(spans_of_rule.drop_last() =~= Seq::empty());
    assert(lines_text(spans_of_rule) =~= repeat_spec('─', width));
}

/// Whether lines of an answer are of one kind and hold the visible characters of a text.
pub open spec fn shows_text(lines: Seq<LineView>, text: Seq<char>, kind: BlockStyle) -> bool {
    &&& forall|i: int|
        0 <= i < lines.len() ==> (#[trigger] lines[i] matches LineView::Text { role, block, .. }
            && role == Role::Assistant && block == kind)
    &&& visible(lines_text(text_of_lines(lines))) == visible(text)
}

proof fn lemma_answer_lines(spans: Seq<SpanView>, width: nat, kind: BlockStyle)
    requires
        width > 0,
        forall|i: int| 0 <= i < spans.len() ==> clusters_are_cut(#[trigger] spans[i]),
    ensures
        shows_text(answer_lines(wrap_spec(spans, width), kind), plain_spec(spans), kind),
{
    let wrapped = wrap_spec(spans, width);
    let lines = answer_lines(wrapped, kind);
    law_wrap_keeps_ink(spans, width);
    law_ink_is_text(wrapped, spans);
    assert(text_of_lines(lines) =~= wrapped);
}

/// An item of a list shows its marker in front of its first line only; the lines behind it are
/// its continuation, and all of them leave room for the marker.
pub proof fn law_list_items_are_shown(marker: Seq<char>, text: Seq<char>, width: nat)
    requires
        width > column_width_spec(marker),
        forall|i: int|
            0 <= i < tokenize_spec(text).len() ==> clusters_are_cut(
                #[trigger] tokenize_spec(text)[i],
            ),
    ensures
        ({
            let lines = block_lines(MdBlockView::ListItem { marker, text }, width);
            let wrapped = wrap_spec(
                tokenize_spec(text),
                (width - column_width_spec(marker)) as nat,
            );
            &&& lines.len() == wrapped.len() && lines.len() >= 1
            &&& lines[0] matches LineView::Text { segments, role, block } && role == Role::Assistant
                && block == BlockStyle::ListItem && plain_spec(segments) == marker + plain_spec(
                wrapped[0],
            )
            &&& forall|i: int|
                1 <= i < lines.len() ==> #[trigger] lines[i] == (LineView::Text {
                    segments: wrapped[i],
                    role: Role::Assistant,
                    block: BlockStyle::ListContinuation,
                })
            &&& visible(lines_text(wrapped)) == visible(plain_spec(tokenize_spec(text)))
        }),
{
    let spans = tokenize_spec(text);
    let room = (width - column_width_spec(marker)) as nat;
    let wrapped = wrap_spec(spans, room);
    law_wrap_keeps_ink(spans, room);
    law_ink_is_text(wrapped, spans);
    let head = one_span(marker, InlineStyle::Plain);
    lemma_plain_concat(head, wrapped[0]);
    assert(head.drop_last() =~= Seq::empty());
    reveal_with_fuel(plain_spec, 2);
    assert(plain_spec(head) =~= marker);
}

proof fn lemma_plain_concat(a: Seq<SpanView>, b: Seq<SpanView>)
    ensures
        plain_spec(a + b) == plain_spec(a) + plain_spec(b),
    decreases b.len(),
{
    if b.len() == 0 {
        assert(a + b =~= a);
        assert(plain_spec(a) + plain_spec(b) =~= plain_spec(a));
    } else {
        lemma_plain_concat(a, b.drop_last());
        assert((a + b).drop_last() =~= a + b.drop_last());
        assert(plain_spec(a) + plain_spec(b.drop_last()) + b.last().text =~= plain_spec(a) + (
        plain_spec(b.drop_last()) + b.last().text));
    }
}

/// The blocks of an answer, and the lines that the user typed, are shown one below the other in
/// their order.
pub proof fn law_blocks_in_order(
    blocks: Seq<MdBlockView>,
    block: MdBlockView,
    raw_lines: Seq<Seq<char>>,
    raw: Seq<char>,
    width: nat,
)
    ensures
        blocks_lines(blocks.push(block), width) == blocks_lines(blocks, width) + block_lines(
            block,
            width,
        ),
        user_lines_spec(raw_lines.push(raw), width) == user_lines_spec(raw_lines, width)
            + user_line_spec(raw, width),
        blocks_lines(Seq::empty(), width).len() == 0,
        user_lines_spec(Seq::empty(), width).len() == 0,
{
    assert(blocks.push(block).drop_last() =~= blocks);
    assert(raw_lines.push(raw).drop_last() =~= raw_lines);
}

} // verus!
