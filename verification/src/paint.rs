//! Styled rows: how the text of a row is laid out, cut, padded and highlighted.

use crate::display::{
    format_tool_suffix, tool_suffix, BlockStyle, DisplayLine, LineView,
};
use crate::markdown::{plain_spec, InlineStyle};
use crate::measure::{
    as_nat_pairs, as_nats, char_widths, char_widths_spec, chars_before_column, cluster_cuts,
    column_width, column_width_spec, cuts_everywhere, cuts_spec, fitting_cut, index_in_widths,
    is_printable_ascii, last_fitting_cut, law_cut_everywhere, law_index_in_ones,
    law_index_in_widths, law_last_fitting_cut,
};
use crate::message::Role;
use crate::palette::{bold_style, plain_style, CellStyle, ChatPalette, Color};
use crate::selection::line_text;
use crate::text::{concat_spec, from_chars, join, join_spec, repeat_char, repeat_spec, to_chars};
use vstd::prelude::*;

verus! {

// ─── Changes of the screen ───────────────────────────────────────────────────

/// A change of the screen.
pub enum Paint {
    /// Write text at the cursor.
    Text(String),
    /// What follows is written in this style.
    Style(CellStyle),
    /// Put the cursor somewhere.
    MoveTo { col: usize, row: usize },
    /// Show the cursor, or hide it.
    ShowCursor(bool),
    /// Fill the screen with a color.
    Clear(Color),
}

/// What a [`Paint`] holds.
#[verifier::ext_equal]
pub enum PaintView {
    Text(Seq<char>),
    Style(CellStyle),
    MoveTo { col: usize, row: usize },
    ShowCursor(bool),
    Clear(Color),
}

impl DeepView for Paint {
    type V = PaintView;

    open spec fn deep_view(&self) -> PaintView {
        match self {
            Paint::Text(t) => PaintView::Text(t@),
            Paint::Style(s) => PaintView::Style(*s),
            Paint::MoveTo { col, row } => PaintView::MoveTo { col: *col, row: *row },
            Paint::ShowCursor(shown) => PaintView::ShowCursor(*shown),
            Paint::Clear(c) => PaintView::Clear(*c),
        }
    }
}

/// Append a change.
pub fn paint(out: &mut Vec<Paint>, change: Paint)
    ensures
        final(out).deep_view() == old(out).deep_view().push(change.deep_view()),
{
    let ghost before = out.deep_view();
    let ghost view = change.deep_view();
    out.push(change);
    assert(out.deep_view() =~= before.push(view));
}

/// Text in a style.
pub open spec fn styled(style: CellStyle, text: Seq<char>) -> Seq<PaintView> {
    seq![PaintView::Style(style), PaintView::Text(text)]
}

/// Append text in a style.
pub fn paint_text(out: &mut Vec<Paint>, style: CellStyle, text: String)
    ensures
        final(out).deep_view() == old(out).deep_view() + styled(style, text@),
{
    let ghost before = out.deep_view();
    let ghost given = text@;
    paint(out, Paint::Style(style));
    paint(out, Paint::Text(text));
    assert(out.deep_view() =~= before + styled(style, given));
}

// ─── The runs of a line ──────────────────────────────────────────────────────

/// A stretch of text in one style.
pub struct StyledRun {
    pub style: CellStyle,
    pub text: String,
}

/// What a [`StyledRun`] holds.
#[verifier::ext_equal]
pub struct StyledView {
    pub style: CellStyle,
    pub text: Seq<char>,
}

impl DeepView for StyledRun {
    type V = StyledView;

    open spec fn deep_view(&self) -> StyledView {
        StyledView { style: self.style, text: self.text@ }
    }
}

/// The look of a span within an answer. The kind of the line gives its base; emphasis adds to it.
pub open spec fn inline_style(style: InlineStyle, block: BlockStyle, pal: ChatPalette) -> CellStyle {
    let base = match block {
        BlockStyle::Heading(_) => bold_style(pal.accent, pal.bg),
        BlockStyle::Quote => plain_style(pal.dim_fg, pal.bg),
        BlockStyle::Hr => plain_style(pal.border, pal.bg),
        BlockStyle::Code => plain_style(pal.dim_fg, pal.bg),
        _ => plain_style(pal.ai_text, pal.bg),
    };
    match style {
        InlineStyle::Plain => base,
        InlineStyle::Bold => CellStyle { bold: true, ..base },
        InlineStyle::Italic => CellStyle { italic: true, ..base },
        InlineStyle::Code => plain_style(pal.dim_fg, pal.bg),
    }
}

/// The look of a span within an answer.
pub fn inline_cell(style: InlineStyle, block: BlockStyle, pal: &ChatPalette) -> (r: CellStyle)
    ensures
        r == inline_style(style, block, *pal),
{
    let mut base: CellStyle = match block {
        BlockStyle::Heading(_) => pal.ai_header_cell(),
        BlockStyle::Quote => pal.input_cell(),
        BlockStyle::Hr => pal.border_dim_cell(),
        BlockStyle::Code => pal.input_cell(),
        _ => pal.ai_text_cell(),
    };
    match style {
        InlineStyle::Plain => base,
        InlineStyle::Bold => {
            base.bold = true;
            base
        },
        InlineStyle::Italic => {
            base.italic = true;
            base
        },
        InlineStyle::Code => pal.input_cell(),
    }
}

/// What stands in front of the text of an answer: a bar for a quote, otherwise an indent.
pub open spec fn lead_runs(block: BlockStyle, pal: ChatPalette) -> Seq<StyledView> {
    match block {
        BlockStyle::Quote => seq![
            StyledView { style: plain_style(pal.fg, pal.bg), text: "  "@ },
            StyledView { style: plain_style(pal.border, pal.bg), text: "│ "@ },
        ],
        BlockStyle::ListContinuation => seq![
            StyledView { style: inline_style(InlineStyle::Plain, block, pal), text: "    "@ },
        ],
        _ => seq![StyledView { style: inline_style(InlineStyle::Plain, block, pal), text: "  "@ }],
    }
}

/// The runs of a line, from left to right.
pub open spec fn line_runs(line: LineView, pal: ChatPalette) -> Seq<StyledView> {
    match line {
        LineView::Header { role: Role::User, .. } => seq![
            StyledView { style: bold_style(pal.user_header, pal.bg), text: "  You"@ },
        ],
        LineView::Header { role: Role::Assistant, tools } => {
            let head = seq![StyledView { style: bold_style(pal.accent, pal.bg), text: "  AI"@ }];
            if tools.len() > 0 {
                head.push(
                    StyledView {
                        style: plain_style(pal.dim_fg, pal.bg),
                        text: tool_suffix(tools),
                    },
                )
            } else {
                head
            }
        },
        LineView::AttachmentSummary { labels } => seq![
            StyledView { style: plain_style(pal.dim_fg, pal.bg), text: "  Attached: "@ },
            StyledView {
                style: bold_style(pal.accent, pal.bg),
                text: join_spec(labels, " "@),
            },
        ],
        LineView::Text { segments, role: Role::User, .. } => seq![
            StyledView { style: plain_style(pal.user_text, pal.bg), text: "  "@ },
        ] + Seq::new(
            segments.len(),
            |i: int|
                StyledView {
                    style: plain_style(pal.user_text, pal.bg),
                    text: segments[i].text,
                },
        ),
        LineView::Text { segments, role: Role::Assistant, block } => lead_runs(block, pal)
            + Seq::new(
            segments.len(),
            |i: int|
                StyledView {
                    style: inline_style(segments[i].style, block, pal),
                    text: segments[i].text,
                },
        ),
        LineView::Blank => Seq::empty(),
    }
}

fn push_run(runs: &mut Vec<StyledRun>, style: CellStyle, text: String)
    ensures
        final(runs).deep_view() == old(runs).deep_view().push(StyledView { style, text: text@ }),
{
    let ghost before = runs.deep_view();
    let ghost view = StyledView { style, text: text@ };
    runs.push(StyledRun { style, text });
    assert(runs.deep_view() =~= before.push(view));
}

/// The runs of a line, from left to right. They hold the indent and the decoration of the line;
/// the marker of a list item is part of its first span already.
pub fn build_line_runs(line: &DisplayLine, pal: &ChatPalette) -> (runs: Vec<StyledRun>)
    ensures
        runs.deep_view() == line_runs(line.deep_view(), *pal),
{
    let mut runs: Vec<StyledRun> = Vec::new();
    assert(runs.deep_view() =~= Seq::empty());
    match line {
        DisplayLine::Header { role, tools } => match role {
            Role::User => {
                push_run(&mut runs, pal.user_header_cell(), "  You".to_string());
            },
            Role::Assistant => {
                assert(tools.deep_view().len() == tools@.len());
                push_run(&mut runs, pal.ai_header_cell(), "  AI".to_string());
                if tools.len() > 0 {
                    push_run(&mut runs, pal.input_cell(), format_tool_suffix(tools));
                }
            },
        },
        DisplayLine::AttachmentSummary { labels } => {
            push_run(&mut runs, pal.input_cell(), "  Attached: ".to_string());
            push_run(&mut runs, pal.ai_header_cell(), join(labels, " "));
        },
        DisplayLine::Text { segments, role, block } => {
            let ghost all = segments.deep_view();
            let user: bool = *role == Role::User;
            if user {
                push_run(&mut runs, pal.user_text_cell(), "  ".to_string());
            } else {
                match *block {
                    BlockStyle::Quote => {
                        push_run(&mut runs, pal.plain_cell(), "  ".to_string());
                        push_run(&mut runs, pal.border_dim_cell(), "│ ".to_string());
                    },
                    BlockStyle::ListContinuation => {
                        let style: CellStyle = inline_cell(InlineStyle::Plain, *block, pal);
                        push_run(&mut runs, style, "    ".to_string());
                    },
                    _ => {
                        let style: CellStyle = inline_cell(InlineStyle::Plain, *block, pal);
                        push_run(&mut runs, style, "  ".to_string());
                    },
                }
            }
            let ghost head = runs.deep_view();
            let mut i: usize = 0;
            let ghost added = Seq::new(
                all.len(),
                |i: int|
                    StyledView {
                        style: if user {
                            plain_style(pal.user_text, pal.bg)
                        } else {
                            inline_style(all[i].style, *block, *pal)
                        },
                        text: all[i].text,
                    },
            );
            assert(runs.deep_view() =~= head + added.take(0));
            while i < segments.len()
                invariant
                    i <= segments.len(),
                    all == segments.deep_view(),
                    added == Seq::new(
                        all.len(),
                        |i: int|
                            StyledView {
                                style: if user {
                                    plain_style(pal.user_text, pal.bg)
                                } else {
                                    inline_style(all[i].style, *block, *pal)
                                },
                                text: all[i].text,
                            },
                    ),
                    runs.deep_view() == head + added.take(i as int),
                decreases segments.len() - i,
            {
                assert(all[i as int] == segments@[i as int].deep_view());
                let style: CellStyle = if user {
                    pal.user_text_cell()
                } else {
                    inline_cell(segments[i].style, *block, pal)
                };
                push_run(&mut runs, style, segments[i].text.clone());
                assert(runs.deep_view() =~= head + added.take(i + 1));
                i += 1;
            }
            proof {
                assert(added.take(added.len() as int) =~= added);
                assert(runs.deep_view() =~= line_runs(line.deep_view(), *pal));
            }
        },
        DisplayLine::Blank => {},
    }
    assert(runs.deep_view() =~= line_runs(line.deep_view(), *pal));
    runs
}

// ─── Layout ──────────────────────────────────────────────────────────────────

/// A run with the columns that it takes, and those that each of its characters takes by itself.
pub struct MeasuredRun {
    pub style: CellStyle,
    pub text: String,
    pub width: usize,
    pub char_widths: Vec<usize>,
    /// Where the run can be cut: how many characters stand in front of each place, and the columns
    /// that they take together.
    pub cuts: Vec<(usize, usize)>,
}

/// What a [`MeasuredRun`] holds.
#[verifier::ext_equal]
pub struct MeasuredView {
    pub style: CellStyle,
    pub text: Seq<char>,
    pub width: nat,
    pub char_widths: Seq<nat>,
    pub cuts: Seq<(nat, nat)>,
}

impl DeepView for MeasuredRun {
    type V = MeasuredView;

    open spec fn deep_view(&self) -> MeasuredView {
        MeasuredView {
            style: self.style,
            text: self.text@,
            width: self.width as nat,
            char_widths: as_nats(self.char_widths@),
            cuts: as_nat_pairs(self.cuts@),
        }
    }
}

impl MeasuredView {
    /// There is a width for each character, and no place to cut lies behind the text.
    pub open spec fn wf(self) -> bool {
        &&& self.char_widths.len() == self.text.len()
        &&& forall|i: int|
            0 <= i < self.cuts.len() ==> (#[trigger] self.cuts[i]).0 <= self.text.len()
    }
}

/// A run with its measures.
pub open spec fn measured_spec(run: StyledView) -> MeasuredView {
    MeasuredView {
        style: run.style,
        text: run.text,
        width: column_width_spec(run.text),
        char_widths: char_widths_spec(run.text),
        cuts: cuts_spec(run.text),
    }
}

/// Runs with their measures.
pub open spec fn measured_runs(runs: Seq<StyledView>) -> Seq<MeasuredView> {
    Seq::new(runs.len(), |i: int| measured_spec(runs[i]))
}

/// Runs with their measures.
pub fn measure_runs(runs: &Vec<StyledRun>) -> (out: Vec<MeasuredRun>)
    ensures
        out.deep_view() == measured_runs(runs.deep_view()),
        forall|i: int| 0 <= i < out@.len() ==> (#[trigger] out@[i]).deep_view().wf(),
        forall|i: int|
            0 <= i < out@.len() && is_printable_ascii(runs@[i].text@) ==> is_narrow(
                (#[trigger] out@[i]).deep_view(),
            ),
{
    let mut out: Vec<MeasuredRun> = Vec::new();
    let mut i: usize = 0;
    while i < runs.len()
        invariant
            i <= runs.len(),
            out@.len() == i,
            forall|j: int|
                0 <= j < i ==> (#[trigger] out@[j]).deep_view() == measured_spec(
                    runs@[j].deep_view(),
                ) && out@[j].deep_view().wf(),
            forall|j: int|
                0 <= j < i && is_printable_ascii(runs@[j].text@) ==> is_narrow(
                    (#[trigger] out@[j]).deep_view(),
                ),
        decreases runs.len() - i,
    {
        let run: MeasuredRun = MeasuredRun {
            style: runs[i].style,
            text: runs[i].text.clone(),
            width: column_width(runs[i].text.as_str()),
            char_widths: char_widths(runs[i].text.as_str()),
            cuts: cluster_cuts(runs[i].text.as_str()),
        };
        proof {
            let view = run.deep_view();
            assert forall|k: int| 0 <= k < view.cuts.len() implies (#[trigger] view.cuts[k]).0
                <= view.text.len() by {
                assert(view.cuts[k].0 == run.cuts@[k].0);
            }
            assert(view.wf());
        }
        out.push(run);
        i += 1;
    }
    assert(out.deep_view() =~= measured_runs(runs.deep_view()));
    out
}

/// Whether every character of a run takes one column, and the run can be cut behind each.
pub open spec fn is_narrow(run: MeasuredView) -> bool {
    run.width == run.text.len() && run.cuts == cuts_everywhere(run.text.len())
}

/// A stretch of a row, from the column `start` up to `end`.
pub struct Piece {
    pub style: CellStyle,
    pub text: String,
    pub char_widths: Vec<usize>,
    pub start: usize,
    pub end: usize,
}

/// What a [`Piece`] holds.
#[verifier::ext_equal]
pub struct PieceView {
    pub style: CellStyle,
    pub text: Seq<char>,
    pub char_widths: Seq<nat>,
    pub start: nat,
    pub end: nat,
}

impl DeepView for Piece {
    type V = PieceView;

    open spec fn deep_view(&self) -> PieceView {
        PieceView {
            style: self.style,
            text: self.text@,
            char_widths: as_nats(self.char_widths@),
            start: self.start as nat,
            end: self.end as nat,
        }
    }
}

/// The columns that the first `n` runs take. A run without text takes none.
pub open spec fn columns_before(runs: Seq<MeasuredView>, n: int) -> nat
    decreases n,
{
    if n <= 0 {
        0
    } else if runs[n - 1].text.len() == 0 {
        columns_before(runs, n - 1)
    } else {
        columns_before(runs, n - 1) + runs[n - 1].width
    }
}

/// The piece of a run that starts in the column `start` of a row of `inner_w` columns. A run that
/// does not fit is cut at the last place in front of which it does: what would reach beyond the
/// row is cut off with all that follows it.
pub open spec fn piece_spec(run: MeasuredView, start: nat, inner_w: nat) -> PieceView {
    if start + run.width <= inner_w {
        PieceView {
            style: run.style,
            text: run.text,
            char_widths: run.char_widths,
            start,
            end: start + run.width,
        }
    } else {
        let (keep, columns) = last_fitting_cut(run.cuts, (inner_w - start) as nat);
        PieceView {
            style: run.style,
            text: run.text.take(keep as int),
            char_widths: run.char_widths.take(keep as int),
            start,
            end: start + columns,
        }
    }
}

/// The pieces of the first `n` runs, in a row of `inner_w` columns.
pub open spec fn pieces_spec(runs: Seq<MeasuredView>, n: int, inner_w: nat) -> Seq<PieceView>
    decreases n,
{
    if n <= 0 {
        Seq::empty()
    } else {
        let before = pieces_spec(runs, n - 1, inner_w);
        let start = columns_before(runs, n - 1);
        if runs[n - 1].text.len() == 0 || start >= inner_w {
            before
        } else {
            before.push(piece_spec(runs[n - 1], start, inner_w))
        }
    }
}

/// The column in which some pieces end.
pub open spec fn pieces_end(pieces: Seq<PieceView>) -> nat {
    if pieces.len() == 0 {
        0
    } else {
        pieces.last().end
    }
}

/// The spaces from the column `start` to the end of a row.
pub open spec fn padding_spec(
    start: nat,
    inner_w: nat,
    space_width: nat,
    pal: ChatPalette,
) -> PieceView {
    let n = (inner_w - start) as nat;
    PieceView {
        style: plain_style(pal.fg, pal.bg),
        text: repeat_spec(' ', n),
        char_widths: Seq::new(n, |i: int| space_width),
        start,
        end: inner_w,
    }
}

/// All pieces of a row: those of its runs, and spaces up to its end. A space takes `space_width`
/// columns.
pub open spec fn row_pieces(
    runs: Seq<MeasuredView>,
    inner_w: nat,
    space_width: nat,
    pal: ChatPalette,
) -> Seq<PieceView> {
    let pieces = pieces_spec(runs, runs.len() as int, inner_w);
    let end = pieces_end(pieces);
    if end < inner_w {
        pieces.push(padding_spec(end, inner_w, space_width, pal))
    } else {
        pieces
    }
}

/// The changes that draw a piece. Where columns of it are selected, they have the look of a
/// selection.
pub open spec fn piece_paints(
    p: PieceView,
    sel: Option<(usize, usize)>,
    pal: ChatPalette,
) -> Seq<PaintView> {
    match sel {
        Some((sc, ec)) => if sc < p.end && ec > p.start {
            let from = if sc > p.start {
                (sc - p.start) as nat
            } else {
                0
            };
            let to = if ec < p.end {
                (ec - p.start) as nat
            } else {
                (p.end - p.start) as nat
            };
            let i = index_in_widths(p.char_widths, from);
            let j = index_in_widths(p.char_widths, to);
            let before = if i > 0 {
                styled(p.style, p.text.take(i))
            } else {
                Seq::empty()
            };
            let within = if j > i {
                styled(plain_style(pal.bg, pal.fg), p.text.subrange(i, j))
            } else {
                Seq::empty()
            };
            let behind = if j < p.text.len() {
                styled(p.style, p.text.skip(j))
            } else {
                Seq::empty()
            };
            before + within + behind
        } else {
            styled(p.style, p.text)
        },
        None => styled(p.style, p.text),
    }
}

/// The changes that draw the first `n` pieces.
pub open spec fn pieces_paints(
    pieces: Seq<PieceView>,
    n: int,
    sel: Option<(usize, usize)>,
    pal: ChatPalette,
) -> Seq<PaintView>
    decreases n,
{
    if n <= 0 {
        Seq::empty()
    } else {
        pieces_paints(pieces, n - 1, sel, pal) + piece_paints(pieces[n - 1], sel, pal)
    }
}

/// The changes that draw a row of `inner_w` columns, whose columns `sel` are selected.
pub open spec fn row_paints(
    runs: Seq<MeasuredView>,
    inner_w: nat,
    space_width: nat,
    sel: Option<(usize, usize)>,
    pal: ChatPalette,
) -> Seq<PaintView> {
    let pieces = row_pieces(runs, inner_w, space_width, pal);
    pieces_paints(pieces, pieces.len() as int, sel, pal)
}

/// The changes that draw a row of text.
pub open spec fn styled_row(
    runs: Seq<StyledView>,
    inner_w: nat,
    sel: Option<(usize, usize)>,
    pal: ChatPalette,
) -> Seq<PaintView> {
    row_paints(measured_runs(runs), inner_w, column_width_spec(seq![' ']), sel, pal)
}

fn first_widths(widths: &Vec<usize>, n: usize) -> (out: Vec<usize>)
    requires
        n <= widths.len(),
    ensures
        out@ == widths@.take(n as int),
{
    let mut out: Vec<usize> = Vec::new();
    let mut i: usize = 0;
    while i < n
        invariant
            i <= n <= widths.len(),
            out@ == widths@.take(i as int),
        decreases n - i,
    {
        out.push(widths[i]);
        i += 1;
    }
    out
}

fn cut_run(run: &MeasuredRun, start: usize, inner_w: usize) -> (r: Piece)
    requires
        run.deep_view().wf(),
        start < inner_w,
    ensures
        r.deep_view() == piece_spec(run.deep_view(), start as nat, inner_w as nat),
        r.char_widths@.len() == r.text@.len(),
        r.start <= r.end,
{
    assert(as_nats(run.char_widths@).len() == run.char_widths@.len());
    if run.width <= inner_w - start {
        let n: usize = run.char_widths.len();
        let widths: Vec<usize> = first_widths(&run.char_widths, n);
        assert(widths@ =~= run.char_widths@);
        Piece {
            style: run.style,
            text: run.text.clone(),
            char_widths: widths,
            start,
            end: start + run.width,
        }
    } else {
        let (keep, columns): (usize, usize) = fitting_cut(&run.cuts, inner_w - start);
        proof {
            if keep > 0 {
                let k = run.cuts@.index_of((keep, columns));
                assert(run.deep_view().cuts[k].0 == keep);
            }
        }
        let chars: Vec<char> = to_chars(run.text.as_str());
        let widths: Vec<usize> = first_widths(&run.char_widths, keep);
        proof {
            assert(as_nats(widths@) =~= as_nats(run.char_widths@).take(keep as int));
            assert(chars@.subrange(0, keep as int) =~= chars@.take(keep as int));
        }
        Piece {
            style: run.style,
            text: from_chars(&chars, 0, keep),
            char_widths: widths,
            start,
            end: start + columns,
        }
    }
}

fn repeat_width(width: usize, n: usize) -> (out: Vec<usize>)
    ensures
        out@.len() == n,
        as_nats(out@) == Seq::new(n as nat, |i: int| width as nat),
{
    let mut out: Vec<usize> = Vec::new();
    let mut i: usize = 0;
    while i < n
        invariant
            i <= n,
            out@.len() == i,
            forall|j: int| 0 <= j < i ==> out@[j] == width,
        decreases n - i,
    {
        out.push(width);
        i += 1;
    }
    assert(as_nats(out@) =~= Seq::new(n as nat, |i: int| width as nat));
    out
}

fn paint_piece(
    out: &mut Vec<Paint>,
    p: &Piece,
    sel: Option<(usize, usize)>,
    pal: &ChatPalette,
)
    requires
        p.char_widths@.len() == p.text@.len(),
        p.start <= p.end,
    ensures
        final(out).deep_view() == old(out).deep_view() + piece_paints(p.deep_view(), sel, *pal),
{
    let ghost given = out.deep_view();
    let ghost view = p.deep_view();
    assert(view.char_widths.len() == p.char_widths@.len());
    match sel {
        Some((sc, ec)) => {
            if sc < p.end && ec > p.start {
                let from: usize = sc.saturating_sub(p.start);
                let to: usize = if ec < p.end {
                    ec - p.start
                } else {
                    p.end - p.start
                };
                let i: usize = chars_before_column(&p.char_widths, from);
                let j: usize = chars_before_column(&p.char_widths, to);
                let chars: Vec<char> = to_chars(p.text.as_str());
                let len: usize = chars.len();
                proof {
                    assert(chars@.subrange(0, i as int) =~= chars@.take(i as int));
                    assert(chars@.subrange(j as int, len as int) =~= chars@.skip(j as int));
                }
                if i > 0 {
                    paint_text(out, p.style, from_chars(&chars, 0, i));
                }
                if j > i {
                    paint_text(out, pal.selection_cell(), from_chars(&chars, i, j));
                }
                if j < len {
                    paint_text(out, p.style, from_chars(&chars, j, len));
                }
                assert(out.deep_view() =~= given + piece_paints(view, sel, *pal));
                return;
            }
        },
        None => {},
    }
    paint_text(out, p.style, p.text.clone());
}

/// Draw a row of `inner_w` columns from runs with their measures: what overflows the row is cut
/// off, spaces fill it up (the column too that is left where a wide character was cut off), and
/// the columns `sel` are highlighted. A space takes `space_width` columns.
pub fn paint_runs(
    out: &mut Vec<Paint>,
    runs: &Vec<MeasuredRun>,
    inner_w: usize,
    space_width: usize,
    sel: Option<(usize, usize)>,
    pal: &ChatPalette,
)
    requires
        forall|i: int| 0 <= i < runs.len() ==> (#[trigger] runs@[i]).deep_view().wf(),
    ensures
        final(out).deep_view() == old(out).deep_view() + row_paints(
            runs.deep_view(),
            inner_w as nat,
            space_width as nat,
            sel,
            *pal,
        ),
{
    let ghost given = out.deep_view();
    let ghost all = runs.deep_view();
    let mut col: usize = 0;
    let mut end: usize = 0;
    let mut i: usize = 0;
    let ghost mut shown = pieces_spec(all, 0, inner_w as nat);
    assert(out.deep_view() =~= given + pieces_paints(shown, 0, sel, *pal));
    while i < runs.len()
        invariant
            i <= runs.len(),
            all == runs.deep_view(),
            forall|i: int| 0 <= i < runs.len() ==> (#[trigger] runs@[i]).deep_view().wf(),
            shown == pieces_spec(all, i as int, inner_w as nat),
            out.deep_view() == given + pieces_paints(shown, shown.len() as int, sel, *pal),
            col == columns_before(all, i as int) || (col >= inner_w && columns_before(
                all,
                i as int,
            ) >= inner_w),
            end == pieces_end(shown),
        decreases runs.len() - i,
    {
        let run: &MeasuredRun = &runs[i];
        assert(all[i as int] == run.deep_view());
        if !run.text.as_str().is_empty() {
            if col < inner_w {
                let p: Piece = cut_run(run, col, inner_w);
                paint_piece(out, &p, sel, pal);
                proof {
                    let next = pieces_spec(all, i + 1, inner_w as nat);
                    assert(next == shown.push(p.deep_view()));
                    lemma_pieces_paints_push(shown, p.deep_view(), sel, *pal);
                    assert(out.deep_view() =~= given + pieces_paints(
                        next,
                        next.len() as int,
                        sel,
                        *pal,
                    ));
                    shown = next;
                }
                end = p.end;
                col = if run.width <= inner_w - col {
                    col + run.width
                } else {
                    inner_w
                };
            }
        }
        i += 1;
    }
    if end < inner_w {
        let n: usize = inner_w - end;
        let p: Piece = Piece {
            style: pal.plain_cell(),
            text: repeat_char(' ', n),
            char_widths: repeat_width(space_width, n),
            start: end,
            end: inner_w,
        };
        paint_piece(out, &p, sel, pal);
        proof {
            lemma_pieces_paints_push(shown, p.deep_view(), sel, *pal);
            assert(p.deep_view() =~= padding_spec(
                end as nat,
                inner_w as nat,
                space_width as nat,
                *pal,
            ));
            let next = shown.push(p.deep_view());
            assert(out.deep_view() =~= given + pieces_paints(next, next.len() as int, sel, *pal));
        }
    }
}

proof fn lemma_pieces_paints_prefix(
    a: Seq<PieceView>,
    b: Seq<PieceView>,
    n: int,
    sel: Option<(usize, usize)>,
    pal: ChatPalette,
)
    requires
        n <= a.len(),
        n <= b.len(),
        forall|i: int| 0 <= i < n ==> a[i] == b[i],
    ensures
        pieces_paints(a, n, sel, pal) == pieces_paints(b, n, sel, pal),
    decreases n,
{
    if n > 0 {
        lemma_pieces_paints_prefix(a, b, n - 1, sel, pal);
    }
}

proof fn lemma_pieces_paints_push(
    pieces: Seq<PieceView>,
    p: PieceView,
    sel: Option<(usize, usize)>,
    pal: ChatPalette,
)
    ensures
        pieces_paints(pieces.push(p), pieces.len() as int + 1, sel, pal) == pieces_paints(
            pieces,
            pieces.len() as int,
            sel,
            pal,
        ) + piece_paints(p, sel, pal),
{
    lemma_pieces_paints_prefix(pieces.push(p), pieces, pieces.len() as int, sel, pal);
}

/// Draw one row of text: pad it to `inner_w` columns, highlight what is selected, and cut off what
/// overflows.
pub fn emit_styled_line(
    out: &mut Vec<Paint>,
    runs: &Vec<StyledRun>,
    inner_w: usize,
    sel: Option<(usize, usize)>,
    pal: &ChatPalette,
)
    ensures
        final(out).deep_view() == old(out).deep_view() + styled_row(
            runs.deep_view(),
            inner_w as nat,
            sel,
            *pal,
        ),
        // The row is filled exactly.
        sel is None && spaces_are_narrow() ==> painted_columns(final(out).deep_view())
            == painted_columns(old(out).deep_view()) + inner_w,
        all_printable(runs.deep_view()) && (sel matches Some((sc, ec)) ==> sc <= ec)
            ==> painted_text(final(out).deep_view()).len() == painted_text(
            old(out).deep_view(),
        ).len() + inner_w,
{
    let ghost given = out.deep_view();
    let measured: Vec<MeasuredRun> = measure_runs(runs);
    proof {
        reveal_strlit(" ");
        assert(" "@ =~= seq![' ']);
        assert(measured.deep_view().len() == measured@.len());
    }
    let space_width: usize = column_width(" ");
    paint_runs(out, &measured, inner_w, space_width, sel, pal);
    proof {
        let all = measured_runs(runs.deep_view());
        let row = styled_row(runs.deep_view(), inner_w as nat, sel, *pal);
        if sel is None && spaces_are_narrow() {
            law_rows_are_filled(runs.deep_view(), inner_w as nat, space_width as nat, *pal);
            lemma_painted_columns_concat(given, row);
        }
        if all_printable(runs.deep_view()) && (sel matches Some((sc, ec)) ==> sc <= ec) {
            assert forall|i: int| 0 <= i < all.len() implies is_narrow(#[trigger] all[i])
                && all[i].wf() by {
                assert(all[i] == measured@[i].deep_view());
                assert(is_printable_ascii(runs.deep_view()[i].text));
                assert(runs.deep_view()[i].text == runs@[i].text@);
            }
            law_narrow_rows_are_filled(all, inner_w as nat, space_width as nat, sel, *pal);
            lemma_painted_concat(given, row);
        }
    }
}

// ─── Laws ────────────────────────────────────────────────────────────────────

/// The text of some runs.
pub open spec fn runs_text(runs: Seq<StyledView>) -> Seq<char> {
    concat_spec(Seq::new(runs.len(), |i: int| runs[i].text))
}

pub proof fn lemma_runs_text_push(runs: Seq<StyledView>, run: StyledView)
    ensures
        runs_text(runs.push(run)) == runs_text(runs) + run.text,
{
    let texts = Seq::new(runs.push(run).len(), |i: int| runs.push(run)[i].text);
    assert(texts.drop_last() =~= Seq::new(runs.len(), |i: int| runs[i].text));
}

proof fn lemma_runs_text_spans(
    head: Seq<StyledView>,
    segments: Seq<crate::markdown::SpanView>,
    styles: Seq<CellStyle>,
)
    requires
        styles.len() == segments.len(),
    ensures
        runs_text(
            head + Seq::new(
                segments.len(),
                |i: int| StyledView { style: styles[i], text: segments[i].text },
            ),
        ) == runs_text(head) + plain_spec(segments),
    decreases segments.len(),
{
    let tail = Seq::new(
        segments.len(),
        |i: int| StyledView { style: styles[i], text: segments[i].text },
    );
    if segments.len() == 0 {
        assert(head + tail =~= head);
        assert(runs_text(head) + plain_spec(segments) =~= runs_text(head));
    } else {
        let front = segments.drop_last();
        let front_styles = styles.drop_last();
        let front_tail = Seq::new(
            front.len(),
            |i: int| StyledView { style: front_styles[i], text: front[i].text },
        );
        lemma_runs_text_spans(head, front, front_styles);
        assert(head + tail =~= (head + front_tail).push(tail.last()));
        lemma_runs_text_push(head + front_tail, tail.last());
        assert(runs_text(head + tail) =~= runs_text(head) + plain_spec(segments));
    }
}

/// What is selected is what is drawn: the runs of a line, one behind the other, are the text from
/// which a selection is cut.
pub proof fn law_selection_sees_what_is_drawn(line: LineView, pal: ChatPalette)
    ensures
        runs_text(line_runs(line, pal)) == line_text(line),
{
    let runs = line_runs(line, pal);
    let none = Seq::<StyledView>::empty();
    assert(Seq::new(none.len(), |i: int| none[i].text) =~= Seq::<Seq<char>>::empty());
    assert(runs_text(none) =~= Seq::<char>::empty());
    match line {
        LineView::Header { role: Role::User, .. } => {
            lemma_runs_text_push(none, runs[0]);
            assert(none.push(runs[0]) =~= runs);
            assert(runs_text(runs) =~= line_text(line));
        },
        LineView::Header { role: Role::Assistant, tools } => {
            lemma_runs_text_push(none, runs[0]);
            let head = none.push(runs[0]);
            if tools.len() > 0 {
                lemma_runs_text_push(head, runs[1]);
                assert(head.push(runs[1]) =~= runs);
            } else {
                assert(head =~= runs);
            }
            assert(runs_text(runs) =~= line_text(line));
        },
        LineView::AttachmentSummary { labels } => {
            lemma_runs_text_push(none, runs[0]);
            lemma_runs_text_push(none.push(runs[0]), runs[1]);
            assert(none.push(runs[0]).push(runs[1]) =~= runs);
            assert(runs_text(runs) =~= line_text(line));
        },
        LineView::Text { segments, role: Role::User, block } => {
            let head = seq![
                StyledView { style: plain_style(pal.user_text, pal.bg), text: "  "@ },
            ];
            let styles = Seq::new(segments.len(), |i: int| plain_style(pal.user_text, pal.bg));
            lemma_runs_text_push(none, head[0]);
            assert(none.push(head[0]) =~= head);
            lemma_runs_text_spans(head, segments, styles);
            assert(runs =~= head + Seq::new(
                segments.len(),
                |i: int| StyledView { style: styles[i], text: segments[i].text },
            ));
            assert(runs_text(head) =~= "  "@);
        },
        LineView::Text { segments, role: Role::Assistant, block } => {
            let head = lead_runs(block, pal);
            let styles = Seq::new(
                segments.len(),
                |i: int| inline_style(segments[i].style, block, pal),
            );
            lemma_runs_text_push(none, head[0]);
            if block == BlockStyle::Quote {
                lemma_runs_text_push(none.push(head[0]), head[1]);
                assert(none.push(head[0]).push(head[1]) =~= head);
                reveal_strlit("  ");
                reveal_strlit("│ ");
                reveal_strlit("  │ ");
                assert("  "@ + "│ "@ =~= "  │ "@);
            } else {
                assert(none.push(head[0]) =~= head);
            }
            lemma_runs_text_spans(head, segments, styles);
            assert(runs =~= head + Seq::new(
                segments.len(),
                |i: int| StyledView { style: styles[i], text: segments[i].text },
            ));
            assert(runs_text(head) =~= crate::selection::indent_spec(Role::Assistant, block));
        },
        LineView::Blank => {
            assert(runs =~= none);
        },
    }
}

/// The text that changes write.
pub open spec fn painted_text(paints: Seq<PaintView>) -> Seq<char>
    decreases paints.len(),
{
    if paints.len() == 0 {
        Seq::empty()
    } else {
        painted_text(paints.drop_last()) + match paints.last() {
            PaintView::Text(t) => t,
            _ => Seq::empty(),
        }
    }
}

proof fn lemma_painted_concat(a: Seq<PaintView>, b: Seq<PaintView>)
    ensures
        painted_text(a + b) == painted_text(a) + painted_text(b),
    decreases b.len(),
{
    if b.len() == 0 {
        assert(a + b =~= a);
        assert(painted_text(a) + painted_text(b) =~= painted_text(a));
    } else {
        assert((a + b).drop_last() =~= a + b.drop_last());
        lemma_painted_concat(a, b.drop_last());
        assert(painted_text(a + b) =~= painted_text(a) + painted_text(b));
    }
}

proof fn lemma_painted_styled(style: CellStyle, text: Seq<char>)
    ensures
        painted_text(styled(style, text)) == text,
{
    let s = styled(style, text);
    assert(s.drop_last() =~= seq![PaintView::Style(style)]);
    assert(s.drop_last().drop_last() =~= Seq::<PaintView>::empty());
    assert(painted_text(s.drop_last().drop_last()) =~= Seq::<char>::empty());
    assert(painted_text(s.drop_last()) =~= Seq::<char>::empty());
    assert(painted_text(s) =~= text);
}

proof fn lemma_piece_text(p: PieceView, sc: usize, ec: usize, pal: ChatPalette)
    requires
        sc <= ec,
        p.char_widths.len() == p.text.len(),
        p.start <= p.end,
    ensures
        painted_text(piece_paints(p, Some((sc, ec)), pal)) == p.text,
        painted_text(piece_paints(p, None, pal)) == p.text,
{
    lemma_painted_styled(p.style, p.text);
    if sc < p.end && ec > p.start {
        let from = if sc > p.start {
            (sc - p.start) as nat
        } else {
            0
        };
        let to = if ec < p.end {
            (ec - p.start) as nat
        } else {
            (p.end - p.start) as nat
        };
        law_index_in_widths(p.char_widths, from, to);
        let i = index_in_widths(p.char_widths, from);
        let j = index_in_widths(p.char_widths, to);
        let highlight = plain_style(pal.bg, pal.fg);
        let before = if i > 0 {
            styled(p.style, p.text.take(i))
        } else {
            Seq::empty()
        };
        let within = if j > i {
            styled(highlight, p.text.subrange(i, j))
        } else {
            Seq::empty()
        };
        let behind = if j < p.text.len() {
            styled(p.style, p.text.skip(j))
        } else {
            Seq::empty()
        };
        lemma_painted_styled(p.style, p.text.take(i));
        lemma_painted_styled(highlight, p.text.subrange(i, j));
        lemma_painted_styled(p.style, p.text.skip(j));
        lemma_painted_concat(before, within);
        lemma_painted_concat(before + within, behind);
        assert(painted_text(Seq::<PaintView>::empty()) =~= Seq::<char>::empty());
        assert(painted_text(before) =~= p.text.take(i));
        assert(painted_text(within) =~= p.text.subrange(i, j));
        assert(painted_text(behind) =~= p.text.skip(j));
        assert(p.text.take(i) + p.text.subrange(i, j) + p.text.skip(j) =~= p.text);
    }
}

proof fn lemma_pieces_wf(runs: Seq<MeasuredView>, n: int, inner_w: nat)
    requires
        n <= runs.len(),
        forall|i: int| 0 <= i < runs.len() ==> (#[trigger] runs[i]).wf(),
    ensures
        forall|i: int|
            0 <= i < pieces_spec(runs, n, inner_w).len() ==> is_piece(
                #[trigger] pieces_spec(runs, n, inner_w)[i],
            ),
    decreases n,
{
    if n > 0 {
        lemma_pieces_wf(runs, n - 1, inner_w);
        let start = columns_before(runs, n - 1);
        assert(runs[n - 1].wf());
        if runs[n - 1].text.len() > 0 && start < inner_w {
            law_last_fitting_cut(runs[n - 1].cuts, (inner_w - start) as nat);
            assert(is_piece(piece_spec(runs[n - 1], start, inner_w)));
        }
        let before = pieces_spec(runs, n - 1, inner_w);
        let pieces = pieces_spec(runs, n, inner_w);
        assert forall|i: int| 0 <= i < pieces.len() implies is_piece(#[trigger] pieces[i]) by {
            if i < before.len() {
                assert(pieces[i] == before[i]);
            }
        }
    }
}

/// What holds of every piece: there is a width for each character, and it does not end in front of
/// its start.
pub open spec fn is_piece(p: PieceView) -> bool {
    p.char_widths.len() == p.text.len() && p.start <= p.end
}

proof fn lemma_pieces_text(
    pieces: Seq<PieceView>,
    n: int,
    sc: usize,
    ec: usize,
    pal: ChatPalette,
)
    requires
        0 <= n <= pieces.len(),
        sc <= ec,
        forall|i: int| 0 <= i < pieces.len() ==> is_piece(#[trigger] pieces[i]),
    ensures
        painted_text(pieces_paints(pieces, n, Some((sc, ec)), pal)) == painted_text(
            pieces_paints(pieces, n, None, pal),
        ),
    decreases n,
{
    if n > 0 {
        lemma_pieces_text(pieces, n - 1, sc, ec, pal);
        assert(is_piece(pieces[n - 1]));
        lemma_piece_text(pieces[n - 1], sc, ec, pal);
        lemma_painted_concat(
            pieces_paints(pieces, n - 1, Some((sc, ec)), pal),
            piece_paints(pieces[n - 1], Some((sc, ec)), pal),
        );
        lemma_painted_concat(
            pieces_paints(pieces, n - 1, None, pal),
            piece_paints(pieces[n - 1], None, pal),
        );
    }
}

/// Selecting changes the look of a row and never its text.
pub proof fn law_selection_changes_looks_only(
    runs: Seq<MeasuredView>,
    inner_w: nat,
    space_width: nat,
    sc: usize,
    ec: usize,
    pal: ChatPalette,
)
    requires
        sc <= ec,
        forall|i: int| 0 <= i < runs.len() ==> (#[trigger] runs[i]).wf(),
    ensures
        painted_text(row_paints(runs, inner_w, space_width, Some((sc, ec)), pal)) == painted_text(
            row_paints(runs, inner_w, space_width, None, pal),
        ),
{
    let pieces = row_pieces(runs, inner_w, space_width, pal);
    lemma_pieces_wf(runs, runs.len() as int, inner_w);
    let laid = pieces_spec(runs, runs.len() as int, inner_w);
    assert forall|i: int| 0 <= i < pieces.len() implies is_piece(#[trigger] pieces[i]) by {
        if i < laid.len() {
            assert(is_piece(laid[i]));
        }
    }
    lemma_pieces_text(pieces, pieces.len() as int, sc, ec, pal);
}

/// The columns that changes write, each text measured as a whole.
pub open spec fn painted_columns(paints: Seq<PaintView>) -> nat
    decreases paints.len(),
{
    if paints.len() == 0 {
        0
    } else {
        painted_columns(paints.drop_last()) + match paints.last() {
            PaintView::Text(t) => column_width_spec(t),
            _ => 0,
        }
    }
}

proof fn lemma_painted_columns_concat(a: Seq<PaintView>, b: Seq<PaintView>)
    ensures
        painted_columns(a + b) == painted_columns(a) + painted_columns(b),
    decreases b.len(),
{
    if b.len() == 0 {
        assert(a + b =~= a);
    } else {
        assert((a + b).drop_last() =~= a + b.drop_last());
        lemma_painted_columns_concat(a, b.drop_last());
    }
}

proof fn lemma_columns_styled(style: CellStyle, text: Seq<char>)
    ensures
        painted_columns(styled(style, text)) == column_width_spec(text),
{
    let s = styled(style, text);
    assert(s.drop_last() =~= seq![PaintView::Style(style)]);
    assert(s.drop_last().drop_last() =~= Seq::<PaintView>::empty());
    reveal_with_fuel(painted_columns, 3);
}

/// Whether spaces take as many columns as there are spaces.
pub open spec fn spaces_are_narrow() -> bool {
    forall|n: nat| column_width_spec(#[trigger] repeat_spec(' ', n)) == n
}

/// Whether a piece takes the columns from its start to its end: its text measured as a whole, or
/// one for each space.
pub open spec fn takes_its_columns(p: PieceView) -> bool {
    ||| p.end == p.start + column_width_spec(p.text)
    ||| p.text == repeat_spec(' ', p.text.len()) && p.end == p.start + p.text.len()
}

/// Whether pieces lie side by side from the first column on.
pub open spec fn side_by_side(pieces: Seq<PieceView>) -> bool {
    forall|i: int|
        0 <= i < pieces.len() ==> (#[trigger] pieces[i]).start == (if i == 0 {
            0
        } else {
            pieces[i - 1].end
        })
}

proof fn lemma_pieces_lie(runs: Seq<StyledView>, n: int, inner_w: nat)
    requires
        0 <= n <= runs.len(),
    ensures
        ({
            let pieces = pieces_spec(measured_runs(runs), n, inner_w);
            &&& side_by_side(pieces)
            &&& pieces_end(pieces) <= inner_w
            &&& columns_before(measured_runs(runs), n) < inner_w ==> pieces_end(pieces)
                == columns_before(measured_runs(runs), n)
            &&& forall|i: int| 0 <= i < pieces.len() ==> takes_its_columns(#[trigger] pieces[i])
        }),
    decreases n,
{
    if n > 0 {
        lemma_pieces_lie(runs, n - 1, inner_w);
        let all = measured_runs(runs);
        let run = all[n - 1];
        let before = pieces_spec(all, n - 1, inner_w);
        let start = columns_before(all, n - 1);
        if run.text.len() > 0 && start < inner_w {
            let p = piece_spec(run, start, inner_w);
            let pieces = before.push(p);
            law_last_fitting_cut(run.cuts, (inner_w - start) as nat);
            if start + run.width > inner_w && p.text.len() == 0 {
                assert(p.text =~= repeat_spec(' ', 0));
            }
            assert(takes_its_columns(p));
            assert forall|i: int| 0 <= i < pieces.len() implies takes_its_columns(
                #[trigger] pieces[i],
            ) && pieces[i].start == (if i == 0 {
                0
            } else {
                pieces[i - 1].end
            }) by {
                if i < before.len() {
                    assert(takes_its_columns(before[i]));
                    assert(before[i].start == pieces[i].start);
                }
            }
        }
    }
}

proof fn lemma_columns_of_pieces(pieces: Seq<PieceView>, pal: ChatPalette)
    requires
        side_by_side(pieces),
        forall|i: int| 0 <= i < pieces.len() ==> takes_its_columns(#[trigger] pieces[i]),
        spaces_are_narrow(),
    ensures
        painted_columns(pieces_paints(pieces, pieces.len() as int, None, pal)) == pieces_end(pieces),
    decreases pieces.len(),
{
    if pieces.len() > 0 {
        let front = pieces.drop_last();
        let p = pieces.last();
        assert forall|i: int| 0 <= i < front.len() implies takes_its_columns(#[trigger] front[i])
            && front[i].start == (if i == 0 {
            0
        } else {
            front[i - 1].end
        }) by {
            assert(takes_its_columns(pieces[i]));
            assert(pieces[i].start == front[i].start);
        }
        lemma_columns_of_pieces(front, pal);
        assert(front.push(p) =~= pieces);
        lemma_pieces_paints_push(front, p, None, pal);
        lemma_columns_styled(p.style, p.text);
        lemma_painted_columns_concat(
            pieces_paints(front, front.len() as int, None, pal),
            piece_paints(p, None, pal),
        );
        assert(takes_its_columns(pieces[pieces.len() - 1]));
        assert(pieces[pieces.len() - 1].start == pieces_end(front));
    }
}

/// A row is filled exactly, whatever characters it holds: its pieces lie side by side, each takes
/// its columns, and the last one ends where the row does. So what is written takes as many columns
/// as the row has, where spaces take one each.
pub proof fn law_rows_are_filled(
    runs: Seq<StyledView>,
    inner_w: nat,
    space_width: nat,
    pal: ChatPalette,
)
    ensures
        ({
            let pieces = row_pieces(measured_runs(runs), inner_w, space_width, pal);
            &&& side_by_side(pieces)
            &&& forall|i: int| 0 <= i < pieces.len() ==> takes_its_columns(#[trigger] pieces[i])
            &&& pieces_end(pieces) == inner_w
        }),
        spaces_are_narrow() ==> painted_columns(
            row_paints(measured_runs(runs), inner_w, space_width, None, pal),
        ) == inner_w,
{
    let all = measured_runs(runs);
    let laid = pieces_spec(all, runs.len() as int, inner_w);
    let pieces = row_pieces(all, inner_w, space_width, pal);
    lemma_pieces_lie(runs, runs.len() as int, inner_w);
    if pieces_end(laid) < inner_w {
        let p = padding_spec(pieces_end(laid), inner_w, space_width, pal);
        assert(p.text.len() == (inner_w - pieces_end(laid)) as nat);
        assert(takes_its_columns(p));
        assert(pieces == laid.push(p));
    }
    assert forall|i: int| 0 <= i < pieces.len() implies takes_its_columns(#[trigger] pieces[i])
        && pieces[i].start == (if i == 0 {
        0
    } else {
        pieces[i - 1].end
    }) by {
        if i < laid.len() {
            assert(takes_its_columns(laid[i]));
            assert(laid[i].start == pieces[i].start);
        }
    }
    if spaces_are_narrow() {
        lemma_columns_of_pieces(pieces, pal);
    }
}

proof fn lemma_narrow_pieces(runs: Seq<MeasuredView>, n: int, inner_w: nat, pal: ChatPalette)
    requires
        0 <= n <= runs.len(),
        forall|i: int| 0 <= i < runs.len() ==> is_narrow(#[trigger] runs[i]),
    ensures
        ({
            let pieces = pieces_spec(runs, n, inner_w);
            let used = columns_before(runs, n);
            let painted = painted_text(pieces_paints(pieces, pieces.len() as int, None, pal));
            &&& painted.len() == pieces_end(pieces)
            &&& pieces_end(pieces) == (if used < inner_w {
                used
            } else {
                inner_w
            })
        }),
    decreases n,
{
    if n > 0 {
        lemma_narrow_pieces(runs, n - 1, inner_w, pal);
        let run = runs[n - 1];
        assert(is_narrow(run));
        let before = pieces_spec(runs, n - 1, inner_w);
        let start = columns_before(runs, n - 1);
        if run.text.len() > 0 && start < inner_w {
            let p = piece_spec(run, start, inner_w);
            law_cut_everywhere(run.text.len(), (inner_w - start) as nat);
            lemma_pieces_paints_push(before, p, None, pal);
            lemma_painted_styled(p.style, p.text);
            lemma_painted_concat(
                pieces_paints(before, before.len() as int, None, pal),
                piece_paints(p, None, pal),
            );
        }
    }
}

/// Where every character takes one column, a row holds as many characters as it has columns,
/// whatever is selected.
pub proof fn law_narrow_rows_are_filled(
    runs: Seq<MeasuredView>,
    inner_w: nat,
    space_width: nat,
    sel: Option<(usize, usize)>,
    pal: ChatPalette,
)
    requires
        forall|i: int| 0 <= i < runs.len() ==> is_narrow(#[trigger] runs[i]) && runs[i].wf(),
        sel matches Some((sc, ec)) ==> sc <= ec,
    ensures
        painted_text(row_paints(runs, inner_w, space_width, sel, pal)).len() == inner_w,
{
    let n = runs.len() as int;
    lemma_narrow_pieces(runs, n, inner_w, pal);
    let pieces = pieces_spec(runs, n, inner_w);
    let end = pieces_end(pieces);
    if end < inner_w {
        let p = padding_spec(end, inner_w, space_width, pal);
        lemma_pieces_paints_push(pieces, p, None, pal);
        lemma_painted_styled(p.style, p.text);
        lemma_painted_concat(
            pieces_paints(pieces, pieces.len() as int, None, pal),
            piece_paints(p, None, pal),
        );
    }
    match sel {
        Some((sc, ec)) => {
            law_selection_changes_looks_only(runs, inner_w, space_width, sc, ec, pal);
        },
        None => {},
    }
}

/// Whether some runs hold nothing but printable ASCII characters.
pub open spec fn all_printable(runs: Seq<StyledView>) -> bool {
    forall|i: int| 0 <= i < runs.len() ==> is_printable_ascii((#[trigger] runs[i]).text)
}

// ─── What a frame shows ──────────────────────────────────────────────────────

/// The row of the cursor behind some changes of the screen.
pub open spec fn cursor_row(paints: Seq<PaintView>) -> Option<usize>
    decreases paints.len(),
{
    if paints.len() == 0 {
        None
    } else {
        match paints.last() {
            PaintView::MoveTo { row, .. } => Some(row),
            _ => cursor_row(paints.drop_last()),
        }
    }
}

/// The text that changes of the screen write into a row.
pub open spec fn text_in_row(paints: Seq<PaintView>, row: usize) -> Seq<char>
    decreases paints.len(),
{
    if paints.len() == 0 {
        Seq::empty()
    } else {
        text_in_row(paints.drop_last(), row) + match paints.last() {
            PaintView::Text(t) => if cursor_row(paints.drop_last()) == Some(row) {
                t
            } else {
                Seq::empty()
            },
            _ => Seq::empty(),
        }
    }
}

/// Whether some changes of the screen leave the cursor in its row.
pub open spec fn stays_in_row(paints: Seq<PaintView>) -> bool {
    forall|i: int| 0 <= i < paints.len() ==> !(#[trigger] paints[i] is MoveTo)
}

/// Whether some changes of the screen put the cursor at the start of a row and leave it there.
pub open spec fn is_row(paints: Seq<PaintView>, row: usize) -> bool {
    &&& paints.len() > 0
    &&& paints[0] == (PaintView::MoveTo { col: 0, row })
    &&& stays_in_row(paints.drop_first())
}

/// What stays in the row adds its text to that row, and to no other.
pub proof fn lemma_text_added(a: Seq<PaintView>, b: Seq<PaintView>, row: usize)
    requires
        stays_in_row(b),
    ensures
        cursor_row(a + b) == cursor_row(a),
        text_in_row(a + b, row) == text_in_row(a, row) + (if cursor_row(a) == Some(row) {
            painted_text(b)
        } else {
            Seq::empty()
        }),
    decreases b.len(),
{
    if b.len() == 0 {
        assert(a + b =~= a);
        assert(text_in_row(a, row) + Seq::<char>::empty() =~= text_in_row(a, row));
    } else {
        let front = b.drop_last();
        assert((a + b).drop_last() =~= a + front);
        assert(!(b[b.len() - 1] is MoveTo));
        assert forall|i: int| 0 <= i < front.len() implies !(#[trigger] front[i] is MoveTo) by {
            assert(!(b[i] is MoveTo));
        }
        lemma_text_added(a, front, row);
        let added = match b.last() {
            PaintView::Text(t) => t,
            _ => Seq::empty(),
        };
        assert(text_in_row(a, row) + painted_text(front) + added =~= text_in_row(a, row) + (
        painted_text(front) + added));
        assert(text_in_row(a, row) + Seq::<char>::empty() + Seq::<char>::empty() =~= text_in_row(
            a,
            row,
        ) + Seq::<char>::empty());
    }
}

/// A row adds its text to the row that it is for, and to no other.
pub proof fn lemma_row_added(a: Seq<PaintView>, b: Seq<PaintView>, at: usize, row: usize)
    requires
        is_row(b, at),
    ensures
        cursor_row(a + b) == Some(at),
        text_in_row(a + b, row) == text_in_row(a, row) + (if at == row {
            painted_text(b)
        } else {
            Seq::empty()
        }),
{
    let move_to = b[0];
    let rest = b.drop_first();
    let moved = a.push(move_to);
    assert(a + b =~= moved + rest);
    assert(moved.drop_last() =~= a);
    lemma_text_added(moved, rest, row);
    assert(text_in_row(moved, row) =~= text_in_row(a, row));
    assert(b =~= seq![move_to] + rest);
    lemma_painted_concat(seq![move_to], rest);
    assert(seq![move_to].drop_last() =~= Seq::empty());
    reveal_with_fuel(painted_text, 2);
    assert(painted_text(seq![move_to]) =~= Seq::empty());
    assert(Seq::<char>::empty() + painted_text(rest) =~= painted_text(rest));
}

/// A row of three parts, each of which stays in its row.
pub proof fn lemma_row_of_parts(
    at: usize,
    a: Seq<PaintView>,
    b: Seq<PaintView>,
    c: Seq<PaintView>,
)
    requires
        stays_in_row(a),
        stays_in_row(b),
        stays_in_row(c),
    ensures
        is_row(seq![PaintView::MoveTo { col: 0, row: at }] + a + b + c, at),
        painted_text(seq![PaintView::MoveTo { col: 0, row: at }] + a + b + c) == painted_text(a)
            + painted_text(b) + painted_text(c),
{
    let start = seq![PaintView::MoveTo { col: 0, row: at }];
    let whole = start + a + b + c;
    let rest = whole.drop_first();
    assert forall|i: int| 0 <= i < rest.len() implies !(#[trigger] rest[i] is MoveTo) by {
        if i < a.len() {
            assert(rest[i] == a[i]);
        } else if i < a.len() + b.len() {
            assert(rest[i] == b[i - a.len()]);
        } else {
            assert(rest[i] == c[i - a.len() - b.len()]);
        }
    }
    lemma_painted_concat(start + a + b, c);
    lemma_painted_concat(start + a, b);
    lemma_painted_concat(start, a);
    assert(start.drop_last() =~= Seq::empty());
    reveal_with_fuel(painted_text, 2);
    assert(painted_text(start) =~= Seq::empty());
    assert(Seq::<char>::empty() + painted_text(a) =~= painted_text(a));
}

/// A row of one part that stays in its row.
pub proof fn lemma_row_of_one(at: usize, a: Seq<PaintView>)
    requires
        stays_in_row(a),
    ensures
        is_row(seq![PaintView::MoveTo { col: 0, row: at }] + a, at),
        painted_text(seq![PaintView::MoveTo { col: 0, row: at }] + a) == painted_text(a),
{
    let none = Seq::<PaintView>::empty();
    lemma_row_of_parts(at, a, none, none);
    let start = seq![PaintView::MoveTo { col: 0, row: at }];
    assert(start + a + none + none =~= start + a);
    assert(painted_text(a) + painted_text(none) + painted_text(none) =~= painted_text(a));
}

/// Text in a style stays in its row.
pub proof fn lemma_styled_stays(style: CellStyle, text: Seq<char>)
    ensures
        stays_in_row(styled(style, text)),
        painted_text(styled(style, text)) == text,
{
    lemma_painted_styled(style, text);
}

proof fn lemma_pieces_stay(
    pieces: Seq<PieceView>,
    n: int,
    sel: Option<(usize, usize)>,
    pal: ChatPalette,
)
    ensures
        stays_in_row(pieces_paints(pieces, n, sel, pal)),
    decreases n,
{
    if n > 0 {
        lemma_pieces_stay(pieces, n - 1, sel, pal);
        let before = pieces_paints(pieces, n - 1, sel, pal);
        let last = piece_paints(pieces[n - 1], sel, pal);
        assert(stays_in_row(last));
        let all = pieces_paints(pieces, n, sel, pal);
        assert forall|i: int| 0 <= i < all.len() implies !(#[trigger] all[i] is MoveTo) by {
            if i < before.len() {
                assert(all[i] == before[i]);
            } else {
                assert(all[i] == last[i - before.len()]);
            }
        }
    }
}

/// The runs of a row stay in that row.
pub proof fn lemma_styled_row_stays(
    runs: Seq<StyledView>,
    inner_w: nat,
    sel: Option<(usize, usize)>,
    pal: ChatPalette,
)
    ensures
        stays_in_row(styled_row(runs, inner_w, sel, pal)),
{
    let pieces = row_pieces(measured_runs(runs), inner_w, column_width_spec(seq![' ']), pal);
    lemma_pieces_stay(pieces, pieces.len() as int, sel, pal);
}

proof fn lemma_narrow_text(runs: Seq<StyledView>, n: int, inner_w: nat, pal: ChatPalette)
    requires
        0 <= n <= runs.len(),
        forall|i: int| 0 <= i < runs.len() ==> is_narrow(measured_spec(#[trigger] runs[i])),
    ensures
        ({
            let pieces = pieces_spec(measured_runs(runs), n, inner_w);
            let text = runs_text(runs.take(n));
            let painted = painted_text(pieces_paints(pieces, pieces.len() as int, None, pal));
            &&& text.len() == columns_before(measured_runs(runs), n)
            &&& painted == (if text.len() <= inner_w {
                text
            } else {
                text.take(inner_w as int)
            })
        }),
    decreases n,
{
    let all = measured_runs(runs);
    if n == 0 {
        assert(runs_text(runs.take(0)) =~= Seq::empty());
    } else {
        lemma_narrow_text(runs, n - 1, inner_w, pal);
        let run = runs[n - 1];
        assert(is_narrow(measured_spec(run)));
        assert(all[n - 1] == measured_spec(run));
        let shorter = runs_text(runs.take(n - 1));
        let text = runs_text(runs.take(n));
        assert(runs.take(n - 1).push(run) =~= runs.take(n));
        lemma_runs_text_push(runs.take(n - 1), run);
        assert(text == shorter + run.text);
        let before = pieces_spec(all, n - 1, inner_w);
        let start = columns_before(all, n - 1);
        if run.text.len() == 0 {
            assert(shorter + run.text =~= shorter);
        } else if start >= inner_w {
            assert(text.take(inner_w as int) =~= shorter.take(inner_w as int));
            if shorter.len() == inner_w {
                assert(shorter.take(inner_w as int) =~= shorter);
            }
        } else {
            let p = piece_spec(all[n - 1], start, inner_w);
            law_cut_everywhere(run.text.len(), (inner_w - start) as nat);
            lemma_pieces_paints_push(before, p, None, pal);
            lemma_painted_styled(p.style, p.text);
            lemma_painted_concat(
                pieces_paints(before, before.len() as int, None, pal),
                piece_paints(p, None, pal),
            );
            if start + run.text.len() > inner_w {
                assert(p.text =~= run.text.take(inner_w - start));
                assert(text.take(inner_w as int) =~= shorter + p.text);
            }
        }
    }
}

/// A row shows its text: where every character takes one column, the row is the text of its
/// runs, cut where the row ends, with spaces behind it up to there.
pub proof fn law_rows_show_their_text(
    runs: Seq<StyledView>,
    inner_w: nat,
    sel: Option<(usize, usize)>,
    pal: ChatPalette,
)
    requires
        forall|i: int|
            0 <= i < runs.len() ==> is_narrow(measured_spec(#[trigger] runs[i])) && measured_spec(
                runs[i],
            ).wf(),
        sel matches Some((sc, ec)) ==> sc <= ec,
    ensures
        painted_text(styled_row(runs, inner_w, sel, pal)) == (runs_text(runs) + repeat_spec(
            ' ',
            inner_w,
        )).take(inner_w as int),
{
    let n = runs.len() as int;
    let all = measured_runs(runs);
    let space_width = column_width_spec(seq![' ']);
    lemma_narrow_text(runs, n, inner_w, pal);
    assert(runs.take(n) =~= runs);
    assert forall|i: int| 0 <= i < all.len() implies is_narrow(#[trigger] all[i]) && all[i].wf() by {
        assert(is_narrow(measured_spec(runs[i])));
    }
    lemma_narrow_pieces(all, n, inner_w, pal);
    let text = runs_text(runs);
    let pieces = pieces_spec(all, n, inner_w);
    let end = pieces_end(pieces);
    let whole = (text + repeat_spec(' ', inner_w)).take(inner_w as int);
    if end < inner_w {
        let p = padding_spec(end, inner_w, space_width, pal);
        lemma_pieces_paints_push(pieces, p, None, pal);
        lemma_painted_styled(p.style, p.text);
        lemma_painted_concat(
            pieces_paints(pieces, pieces.len() as int, None, pal),
            piece_paints(p, None, pal),
        );
        assert(text + p.text =~= whole);
    } else if text.len() > inner_w {
        assert(text.take(inner_w as int) =~= whole);
    } else {
        assert(text =~= whole);
    }
    match sel {
        Some((sc, ec)) => {
            law_selection_changes_looks_only(all, inner_w, space_width, sc, ec, pal);
        },
        None => {},
    }
}

proof fn lemma_short_text(runs: Seq<StyledView>, n: int, inner_w: nat, pal: ChatPalette)
    requires
        0 <= n <= runs.len(),
        columns_before(measured_runs(runs), n) <= inner_w,
        forall|i: int|
            0 <= i < runs.len() && (#[trigger] runs[i]).text.len() > 0 ==> column_width_spec(
                runs[i].text,
            ) > 0,
    ensures
        ({
            let pieces = pieces_spec(measured_runs(runs), n, inner_w);
            &&& painted_text(pieces_paints(pieces, pieces.len() as int, None, pal)) == runs_text(
                runs.take(n),
            )
            &&& pieces_end(pieces) == columns_before(measured_runs(runs), n)
        }),
    decreases n,
{
    let all = measured_runs(runs);
    if n == 0 {
        assert(runs_text(runs.take(0)) =~= Seq::empty());
    } else {
        let run = runs[n - 1];
        assert(all[n - 1] == measured_spec(run));
        lemma_short_text(runs, n - 1, inner_w, pal);
        assert(runs.take(n - 1).push(run) =~= runs.take(n));
        lemma_runs_text_push(runs.take(n - 1), run);
        let before = pieces_spec(all, n - 1, inner_w);
        if run.text.len() == 0 {
            assert(runs_text(runs.take(n - 1)) + run.text =~= runs_text(runs.take(n - 1)));
        } else {
            let p = piece_spec(all[n - 1], columns_before(all, n - 1), inner_w);
            lemma_pieces_paints_push(before, p, None, pal);
            lemma_painted_styled(p.style, p.text);
            lemma_painted_concat(
                pieces_paints(before, before.len() as int, None, pal),
                piece_paints(p, None, pal),
            );
        }
    }
}

/// A row whose runs fit shows all of their text, however many columns its characters take, with
/// spaces behind it for the columns that are left.
pub proof fn law_rows_that_fit_are_whole(runs: Seq<StyledView>, inner_w: nat, pal: ChatPalette)
    requires
        columns_before(measured_runs(runs), runs.len() as int) <= inner_w,
        forall|i: int|
            0 <= i < runs.len() && (#[trigger] runs[i]).text.len() > 0 ==> column_width_spec(
                runs[i].text,
            ) > 0,
    ensures
        painted_text(styled_row(runs, inner_w, None, pal)) == runs_text(runs) + repeat_spec(
            ' ',
            (inner_w - columns_before(measured_runs(runs), runs.len() as int)) as nat,
        ),
{
    let n = runs.len() as int;
    let all = measured_runs(runs);
    lemma_short_text(runs, n, inner_w, pal);
    assert(runs.take(n) =~= runs);
    let pieces = pieces_spec(all, n, inner_w);
    let end = pieces_end(pieces);
    if end < inner_w {
        let p = padding_spec(end, inner_w, column_width_spec(seq![' ']), pal);
        lemma_pieces_paints_push(pieces, p, None, pal);
        lemma_painted_styled(p.style, p.text);
        lemma_painted_concat(
            pieces_paints(pieces, pieces.len() as int, None, pal),
            piece_paints(p, None, pal),
        );
    } else {
        assert(runs_text(runs) + repeat_spec(' ', 0) =~= runs_text(runs));
    }
}

/// How the text of an answer looks: a heading is bold in the accent color, a quote and code are
/// dim, a rule has the color of the borders, anything else that of the text. Bold and italic add
/// to that, and inline code is dim everywhere.
pub proof fn law_looks_of_text(style: InlineStyle, block: BlockStyle, pal: ChatPalette)
    ensures
        ({
            let look = inline_style(style, block, pal);
            &&& look.background == pal.bg
            &&& style == InlineStyle::Code ==> look.foreground == pal.dim_fg && !look.bold
                && !look.italic
            &&& style != InlineStyle::Code ==> look.foreground == (match block {
                BlockStyle::Heading(_) => pal.accent,
                BlockStyle::Quote => pal.dim_fg,
                BlockStyle::Code => pal.dim_fg,
                BlockStyle::Hr => pal.border,
                _ => pal.ai_text,
            }) && look.bold == (block is Heading || style == InlineStyle::Bold) && look.italic == (
            style == InlineStyle::Italic)
        }),
{
}

/// In which color a line is drawn: the header and the text of the user in the user's colors, the
/// header of an answer in the accent color and bold, its tool calls and the word in front of the
/// attached labels dim.
pub proof fn law_colors_of_lines(line: LineView, pal: ChatPalette)
    ensures
        ({
            let runs = line_runs(line, pal);
            match line {
                LineView::Header { role: Role::User, .. } => runs.len() == 1 && runs[0].style.bold
                    && runs[0].style.foreground == pal.user_header,
                LineView::Header { role: Role::Assistant, tools } => runs[0].style.bold
                    && runs[0].style.foreground == pal.accent && runs.len() == (if tools.len() > 0 {
                    2int
                } else {
                    1int
                }) && (tools.len() > 0 ==> runs[1].style.foreground == pal.dim_fg
                    && !runs[1].style.bold),
                LineView::AttachmentSummary { .. } => runs.len() == 2 && runs[0].style.foreground
                    == pal.dim_fg && runs[1].style.foreground == pal.accent && runs[1].style.bold,
                LineView::Text { segments, role: Role::User, .. } => runs.len() == segments.len()
                    + 1 && forall|i: int|
                    0 <= i < runs.len() ==> (#[trigger] runs[i]).style.foreground == pal.user_text
                        && !runs[i].style.bold && !runs[i].style.italic,
                LineView::Text { segments, role: Role::Assistant, block } => runs.len() >= segments.len()
                    && forall|i: int|
                    0 <= i < segments.len() ==> (#[trigger] runs[runs.len() - segments.len()
                        + i]).style == inline_style(segments[i].style, block, pal),
                LineView::Blank => runs.len() == 0,
            }
        }),
{
}

// ─── What is highlighted ─────────────────────────────────────────────────────

/// The style in which text is written behind some changes of the screen.
pub open spec fn style_behind(paints: Seq<PaintView>) -> Option<CellStyle>
    decreases paints.len(),
{
    if paints.len() == 0 {
        None
    } else {
        match paints.last() {
            PaintView::Style(s) => Some(s),
            _ => style_behind(paints.drop_last()),
        }
    }
}

/// The text that changes of the screen write in a style.
pub open spec fn text_in_look(paints: Seq<PaintView>, style: CellStyle) -> Seq<char>
    decreases paints.len(),
{
    if paints.len() == 0 {
        Seq::empty()
    } else {
        text_in_look(paints.drop_last(), style) + match paints.last() {
            PaintView::Text(t) => if style_behind(paints.drop_last()) == Some(style) {
                t
            } else {
                Seq::empty()
            },
            _ => Seq::empty(),
        }
    }
}

proof fn lemma_look_of_styled(a: Seq<PaintView>, style: CellStyle, text: Seq<char>, look: CellStyle)
    ensures
        text_in_look(a + styled(style, text), look) == text_in_look(a, look) + (if style == look {
            text
        } else {
            Seq::empty()
        }),
{
    let whole = a + styled(style, text);
    let set = a.push(PaintView::Style(style));
    assert(whole.drop_last() =~= set);
    assert(set.drop_last() =~= a);
    assert(whole.last() == PaintView::Text(text));
    assert(set.last() == PaintView::Style(style));
    assert(style_behind(set) == Some(style));
    assert(text_in_look(set, look) =~= text_in_look(a, look));
}

/// A piece in which every character takes one column.
pub open spec fn is_even_piece(p: PieceView) -> bool {
    &&& p.char_widths.len() == p.text.len()
    &&& p.end == p.start + p.text.len()
    &&& forall|i: int| 0 <= i < p.char_widths.len() ==> #[trigger] p.char_widths[i] == 1
}

/// The part of a piece that lies within the columns `sc` to `ec`.
pub open spec fn within_columns(p: PieceView, sc: int, ec: int) -> Seq<char> {
    let from = if sc > p.start {
        if sc < p.end {
            sc - p.start
        } else {
            p.text.len() as int
        }
    } else {
        0
    };
    let to = if ec < p.end {
        if ec > p.start {
            ec - p.start
        } else {
            0
        }
    } else {
        p.text.len() as int
    };
    if from < to {
        p.text.subrange(from, to)
    } else {
        Seq::empty()
    }
}

proof fn lemma_look_of_piece(
    a: Seq<PaintView>,
    p: PieceView,
    sc: usize,
    ec: usize,
    pal: ChatPalette,
)
    requires
        is_even_piece(p),
        p.style != plain_style(pal.bg, pal.fg),
    ensures
        text_in_look(a + piece_paints(p, Some((sc, ec)), pal), plain_style(pal.bg, pal.fg))
            == text_in_look(a, plain_style(pal.bg, pal.fg)) + within_columns(
            p,
            sc as int,
            ec as int,
        ),
{
    let look = plain_style(pal.bg, pal.fg);
    let none = Seq::<char>::empty();
    let nothing = Seq::<PaintView>::empty();
    let text = text_in_look(a, look);
    assert(text + none =~= text);
    if sc < p.end && ec > p.start {
        let from = if sc > p.start {
            (sc - p.start) as nat
        } else {
            0
        };
        let to = if ec < p.end {
            (ec - p.start) as nat
        } else {
            (p.end - p.start) as nat
        };
        law_index_in_ones(p.char_widths, from);
        law_index_in_ones(p.char_widths, to);
        let i = from as int;
        let j = to as int;
        let before = if i > 0 {
            styled(p.style, p.text.take(i))
        } else {
            nothing
        };
        let within = if j > i {
            styled(look, p.text.subrange(i, j))
        } else {
            nothing
        };
        let behind = if j < p.text.len() {
            styled(p.style, p.text.skip(j))
        } else {
            nothing
        };
        assert(piece_paints(p, Some((sc, ec)), pal) == before + within + behind);
        lemma_look_of_styled(a, p.style, p.text.take(i), look);
        assert(a + nothing =~= a);
        let b = a + before;
        assert(text_in_look(b, look) == text);
        lemma_look_of_styled(b, look, p.text.subrange(i, j), look);
        assert(b + nothing =~= b);
        let c = b + within;
        lemma_look_of_styled(c, p.style, p.text.skip(j), look);
        assert(c + nothing =~= c);
        assert(a + (before + within + behind) =~= c + behind);
        assert(text_in_look(c, look) + none =~= text_in_look(c, look));
    } else {
        lemma_look_of_styled(a, p.style, p.text, look);
    }
}

proof fn lemma_look_of_pieces(
    pieces: Seq<PieceView>,
    n: int,
    sc: usize,
    ec: usize,
    pal: ChatPalette,
)
    requires
        0 <= n <= pieces.len(),
        sc <= ec,
        side_by_side(pieces),
        forall|i: int|
            0 <= i < pieces.len() ==> is_even_piece(#[trigger] pieces[i]) && pieces[i].style
                != plain_style(pal.bg, pal.fg),
    ensures
        ({
            let end = if n == 0 {
                0
            } else {
                pieces[n - 1].end as int
            };
            let shown = painted_text(pieces_paints(pieces, n, None, pal));
            &&& shown.len() == end
            &&& text_in_look(
                pieces_paints(pieces, n, Some((sc, ec)), pal),
                plain_style(pal.bg, pal.fg),
            ) == shown.subrange(held(sc as int, end), held(ec as int, end))
        }),
    decreases n,
{
    if n == 0 {
        assert(Seq::<char>::empty().subrange(0, 0) =~= Seq::empty());
    } else {
        lemma_look_of_pieces(pieces, n - 1, sc, ec, pal);
        let p = pieces[n - 1];
        assert(is_even_piece(p));
        lemma_look_of_piece(
            pieces_paints(pieces, n - 1, Some((sc, ec)), pal),
            p,
            sc,
            ec,
            pal,
        );
        lemma_painted_concat(
            pieces_paints(pieces, n - 1, None, pal),
            piece_paints(p, None, pal),
        );
        lemma_painted_styled(p.style, p.text);
        let before = painted_text(pieces_paints(pieces, n - 1, None, pal));
        assert(painted_text(pieces_paints(pieces, n, None, pal)) == before + p.text);
        assert(before.len() == p.start);
        lemma_window(before, p, sc as int, ec as int);
    }
}

/// The smaller of a column and a limit.
pub open spec fn held(column: int, limit: int) -> int {
    if column < limit {
        column
    } else {
        limit
    }
}

proof fn lemma_window(before: Seq<char>, p: PieceView, sc: int, ec: int)
    requires
        before.len() == p.start,
        p.end == p.start + p.text.len(),
        0 <= sc <= ec,
    ensures
        before.subrange(held(sc, p.start as int), held(ec, p.start as int)) + within_columns(
            p,
            sc,
            ec,
        ) == (before + p.text).subrange(held(sc, p.end as int), held(ec, p.end as int)),
{
    let start = p.start as int;
    let end = p.end as int;
    let shown = before + p.text;
    let left = before.subrange(held(sc, start), held(ec, start));
    let right = within_columns(p, sc, ec);
    let whole = shown.subrange(held(sc, end), held(ec, end));
    if ec <= start {
        assert(right =~= Seq::empty());
        assert(left + right =~= whole);
    } else if sc >= end {
        assert(right =~= Seq::empty());
        assert(left + right =~= whole);
    } else if sc >= start {
        assert(left =~= Seq::empty());
        assert(left + right =~= whole);
    } else {
        assert(left + right =~= whole);
    }
}

/// The highlight covers what is selected and nothing else: where every character takes one
/// column, the text that is drawn in the exchanged colors is that of the columns `sc` to `ec` of
/// the row.
pub proof fn law_highlight_covers_the_selection(
    runs: Seq<MeasuredView>,
    inner_w: nat,
    sc: usize,
    ec: usize,
    pal: ChatPalette,
)
    requires
        sc <= ec,
        pal.bg != pal.fg,
        forall|i: int|
            0 <= i < runs.len() ==> is_narrow(#[trigger] runs[i]) && runs[i].wf() && runs[i].style
                != plain_style(pal.bg, pal.fg),
        forall|i: int, k: int|
            0 <= i < runs.len() && 0 <= k < runs[i].char_widths.len()
                ==> #[trigger] runs[i].char_widths[k] == 1,
    ensures
        ({
            let shown = painted_text(row_paints(runs, inner_w, 1, None, pal));
            text_in_look(
                row_paints(runs, inner_w, 1, Some((sc, ec)), pal),
                plain_style(pal.bg, pal.fg),
            ) == shown.subrange(held(sc as int, inner_w as int), held(ec as int, inner_w as int))
        }),
{
    let n = runs.len() as int;
    lemma_even_pieces(runs, n, inner_w, pal);
    let laid = pieces_spec(runs, n, inner_w);
    let pieces = row_pieces(runs, inner_w, 1, pal);
    lemma_narrow_pieces(runs, n, inner_w, pal);
    let end = pieces_end(laid);
    if end < inner_w {
        let p = padding_spec(end, inner_w, 1, pal);
        assert(is_even_piece(p));
        assert(p.style != plain_style(pal.bg, pal.fg));
    }
    assert forall|i: int| 0 <= i < pieces.len() implies is_even_piece(#[trigger] pieces[i])
        && pieces[i].style != plain_style(pal.bg, pal.fg) && pieces[i].start == (if i == 0 {
        0
    } else {
        pieces[i - 1].end
    }) by {
        if i < laid.len() {
            assert(pieces[i] == laid[i]);
            assert(is_even_piece(laid[i]));
        }
        if i > 0 {
            assert(pieces[i - 1] == laid[i - 1]);
        }
    }
    lemma_look_of_pieces(pieces, pieces.len() as int, sc, ec, pal);
    if pieces.len() > 0 {
        assert(pieces[pieces.len() - 1].end == inner_w);
    }
}

proof fn lemma_even_pieces(runs: Seq<MeasuredView>, n: int, inner_w: nat, pal: ChatPalette)
    requires
        0 <= n <= runs.len(),
        forall|i: int|
            0 <= i < runs.len() ==> is_narrow(#[trigger] runs[i]) && runs[i].wf() && runs[i].style
                != plain_style(pal.bg, pal.fg),
        forall|i: int, k: int|
            0 <= i < runs.len() && 0 <= k < runs[i].char_widths.len()
                ==> #[trigger] runs[i].char_widths[k] == 1,
    ensures
        ({
            let pieces = pieces_spec(runs, n, inner_w);
            &&& side_by_side(pieces)
            &&& columns_before(runs, n) < inner_w ==> pieces_end(pieces) == columns_before(runs, n)
            &&& forall|i: int|
                0 <= i < pieces.len() ==> is_even_piece(#[trigger] pieces[i]) && pieces[i].style
                    != plain_style(pal.bg, pal.fg)
        }),
    decreases n,
{
    if n > 0 {
        lemma_even_pieces(runs, n - 1, inner_w, pal);
        let run = runs[n - 1];
        assert(is_narrow(run) && run.wf());
        let before = pieces_spec(runs, n - 1, inner_w);
        let pieces = pieces_spec(runs, n, inner_w);
        let start = columns_before(runs, n - 1);
        if run.text.len() > 0 && start < inner_w {
            let p = piece_spec(run, start, inner_w);
            law_cut_everywhere(run.text.len(), (inner_w - start) as nat);
            assert forall|k: int| 0 <= k < p.char_widths.len() implies #[trigger] p.char_widths[k]
                == 1 by {
                assert(p.char_widths[k] == runs[n - 1].char_widths[k]);
            }
            assert(is_even_piece(p));
            assert forall|i: int| 0 <= i < pieces.len() implies is_even_piece(#[trigger] pieces[i])
                && pieces[i].style != plain_style(pal.bg, pal.fg) && pieces[i].start == (if i == 0 {
                0
            } else {
                pieces[i - 1].end
            }) by {
                if i < before.len() {
                    assert(pieces[i] == before[i]);
                    assert(is_even_piece(before[i]));
                }
                if i > 0 {
                    assert(pieces[i - 1] == before[i - 1]);
                }
            }
        }
    }
}

} // verus!
