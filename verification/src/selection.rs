//! The text that is selected in the message area.

use crate::app::{App, AppView};
use crate::display::{
    format_tool_suffix, tool_suffix, BlockStyle, DisplayLine, LineView, ToolRefView,
};
use crate::markdown::{plain_spec, segments_to_plain, SpanView};
use crate::measure::{
    as_nats, char_widths, char_widths_spec, chars_before_column, column_width, column_width_spec,
    index_in_widths, law_index_in_ones, law_index_in_widths,
};
use crate::message::Role;
use crate::text::{
    from_chars, join, join_spec, strip_leading, strip_leading_spec, to_chars,
};
use vstd::prelude::*;

verus! {

/// Two positions, each a row and a column, in reading order.
pub open spec fn ordered(s: (usize, usize, usize, usize)) -> (usize, usize, usize, usize) {
    let (r0, c0, r1, c1) = s;
    if r0 > r1 || (r0 == r1 && c0 > c1) {
        (r1, c1, r0, c0)
    } else {
        (r0, c0, r1, c1)
    }
}

/// Two positions in reading order.
pub fn in_order(s: (usize, usize, usize, usize)) -> (r: (usize, usize, usize, usize))
    ensures
        r == ordered(s),
{
    let (r0, c0, r1, c1) = s;
    if r0 > r1 || (r0 == r1 && c0 > c1) {
        (r1, c1, r0, c0)
    } else {
        (r0, c0, r1, c1)
    }
}

/// The content column of a terminal column: the left border takes the first.
pub open spec fn content_column(c: usize) -> nat {
    if c > 0 {
        (c - 1) as nat
    } else {
        0
    }
}

/// The indent of a line of text.
pub open spec fn indent_spec(role: Role, block: BlockStyle) -> Seq<char> {
    match (role, block) {
        (Role::Assistant, BlockStyle::Quote) => "  │ "@,
        (Role::Assistant, BlockStyle::ListContinuation) => "    "@,
        _ => "  "@,
    }
}

/// A line as it stands between the borders, without padding.
pub open spec fn line_text(line: LineView) -> Seq<char> {
    match line {
        LineView::Header { role: Role::User, .. } => "  You"@,
        LineView::Header { role: Role::Assistant, tools } => "  AI"@ + tool_suffix(tools),
        LineView::AttachmentSummary { labels } => "  Attached: "@ + join_spec(labels, " "@),
        LineView::Text { segments, role, block } => indent_spec(role, block) + plain_spec(segments),
        LineView::Blank => Seq::empty(),
    }
}

/// A line as it stands between the borders, without padding.
pub fn rendered_text(line: &DisplayLine) -> (r: String)
    ensures
        r@ == line_text(line.deep_view()),
{
    match line {
        DisplayLine::Header { role, tools } => match role {
            Role::User => "  You".to_string(),
            Role::Assistant => {
                let mut s: String = "  AI".to_string();
                s.append(format_tool_suffix(tools).as_str());
                s
            },
        },
        DisplayLine::AttachmentSummary { labels } => {
            let mut s: String = "  Attached: ".to_string();
            s.append(join(labels, " ").as_str());
            s
        },
        DisplayLine::Text { segments, role, block } => {
            let indent: &str = match (*role, *block) {
                (Role::Assistant, BlockStyle::Quote) => "  │ ",
                (Role::Assistant, BlockStyle::ListContinuation) => "    ",
                _ => "  ",
            };
            let mut s: String = indent.to_string();
            s.append(segments_to_plain(segments).as_str());
            s
        },
        DisplayLine::Blank => String::new(),
    }
}

// ─── One line ────────────────────────────────────────────────────────────────

/// The part of a line between two content columns, without the spaces in front of it, `widths`
/// being the widths of its characters. There is none where the second column stands in front of
/// the first.
pub open spec fn cut_spec(line: Seq<char>, widths: Seq<nat>, from: nat, to: nat) -> Option<
    Seq<char>,
> {
    let start = index_in_widths(widths, from);
    let end = index_in_widths(widths, to);
    if start <= end {
        Some(strip_leading_spec(line.subrange(start, end), ' '))
    } else {
        None
    }
}

/// The part of a line between two content columns, `widths` being the widths of its characters.
pub fn cut_line(line: &str, widths: &Vec<usize>, from: usize, to: usize) -> (r: Option<String>)
    requires
        widths@.len() == line@.len(),
    ensures
        r.deep_view() == cut_spec(line@, as_nats(widths@), from as nat, to as nat),
{
    let start: usize = chars_before_column(widths, from);
    let end: usize = chars_before_column(widths, to);
    if start <= end {
        let chars: Vec<char> = to_chars(line);
        let slice: String = from_chars(&chars, start, end);
        Some(strip_leading(slice.as_str(), ' ').to_string())
    } else {
        None
    }
}

/// Between a column and one that is not in front of it there is always a part of the line.
pub proof fn law_ordered_columns_cut(line: Seq<char>, widths: Seq<nat>, from: nat, to: nat)
    requires
        from <= to,
    ensures
        cut_spec(line, widths, from, to) is Some,
{
    law_index_in_widths(widths, from, to);
}

/// The content columns between which a line is selected: the selection bounds its first and its
/// last line, and the lines between are selected whole.
pub open spec fn selected_columns(
    i: int,
    s: (usize, usize, usize, usize),
    last: int,
    total_width: nat,
) -> (nat, nat) {
    (
        if i == s.0 {
            content_column(s.1)
        } else {
            0
        },
        if i == last {
            content_column(s.3)
        } else {
            total_width
        },
    )
}

/// The selected part of the line `i`, the selection ending in the line `last`.
pub open spec fn selected_line(
    lines: Seq<LineView>,
    s: (usize, usize, usize, usize),
    i: int,
    last: int,
) -> Option<Seq<char>> {
    let text = line_text(lines[i]);
    let (from, to) = selected_columns(i, s, last, column_width_spec(text));
    cut_spec(text, char_widths_spec(text), from, to)
}

// ─── The selection ───────────────────────────────────────────────────────────

/// The last line of a selection: there may be fewer lines by now.
pub open spec fn last_row(lines: Seq<LineView>, s: (usize, usize, usize, usize)) -> int {
    if s.2 < lines.len() {
        s.2 as int
    } else {
        lines.len() - 1
    }
}

/// Whether every line from the first of the selection up to `i` has a selected part.
pub open spec fn all_cut(lines: Seq<LineView>, s: (usize, usize, usize, usize), i: int) -> bool {
    forall|j: int|
        s.0 <= j < i ==> (#[trigger] selected_line(lines, s, j, last_row(lines, s))) is Some
}

/// The selected text of the lines in front of `i`: each line but the last of the selection ends
/// with a line break.
pub open spec fn selected_before(
    lines: Seq<LineView>,
    s: (usize, usize, usize, usize),
    i: int,
) -> Seq<char>
    decreases i - s.0,
{
    if i <= s.0 {
        Seq::empty()
    } else {
        let last = last_row(lines, s);
        let part = selected_line(lines, s, i - 1, last)->Some_0;
        let text = selected_before(lines, s, i - 1) + part;
        if i - 1 < last {
            text.push('\n')
        } else {
            text
        }
    }
}

/// What is selected.
pub enum Selected {
    /// Nothing, or nothing that is still there.
    Nothing,
    Text(String),
    /// In some line the selection would end in front of its start.
    Crossed,
}

/// What a [`Selected`] holds.
#[verifier::ext_equal]
pub enum SelectedView {
    Nothing,
    Text(Seq<char>),
    Crossed,
}

impl DeepView for Selected {
    type V = SelectedView;

    open spec fn deep_view(&self) -> SelectedView {
        match self {
            Selected::Nothing => SelectedView::Nothing,
            Selected::Text(t) => SelectedView::Text(t@),
            Selected::Crossed => SelectedView::Crossed,
        }
    }
}

/// What is selected in a state.
pub open spec fn selected_spec(app: AppView) -> SelectedView {
    match app.selection {
        None => SelectedView::Nothing,
        Some(given) => {
            let s = ordered(given);
            let lines = app.cached_display_lines;
            if s.0 >= lines.len() {
                SelectedView::Nothing
            } else {
                let end = last_row(lines, s) + 1;
                if all_cut(lines, s, end) {
                    SelectedView::Text(selected_before(lines, s, end))
                } else {
                    SelectedView::Crossed
                }
            }
        },
    }
}

impl App {
    /// What is selected.
    pub fn selected_text(&self) -> (r: Selected)
        ensures
            r.deep_view() == selected_spec(self.deep_view()),
    {
        let s: (usize, usize, usize, usize) = match self.selection {
            Some(given) => in_order(given),
            None => {
                return Selected::Nothing;
            },
        };
        let lines: &Vec<DisplayLine> = self.display_lines();
        let ghost view = lines.deep_view();
        assert(view.len() == lines@.len());
        let (r0, c0, r1, c1) = s;
        if r0 >= lines.len() {
            return Selected::Nothing;
        }
        let last: usize = if r1 < lines.len() {
            r1
        } else {
            lines.len() - 1
        };
        let mut result: String = String::new();
        let mut i: usize = r0;
        while i <= last
            invariant
                s == (r0, c0, r1, c1),
                r0 <= i <= last + 1,
                last < lines.len(),
                view == lines.deep_view(),
                last == last_row(view, s),
                self.deep_view().selection matches Some(given) && ordered(given) == s,
                view == self.deep_view().cached_display_lines,
                r0 < view.len(),
                all_cut(view, s, i as int),
                result@ == selected_before(view, s, i as int),
            decreases last + 1 - i,
        {
            assert(view[i as int] == lines@[i as int].deep_view());
            let rendered: String = rendered_text(&lines[i]);
            let total_w: usize = column_width(rendered.as_str());
            let from: usize = if i == r0 {
                c0.saturating_sub(1)
            } else {
                0
            };
            let to: usize = if i == last {
                c1.saturating_sub(1)
            } else {
                total_w
            };
            let widths: Vec<usize> = char_widths(rendered.as_str());
            assert(as_nats(widths@).len() == rendered@.len());
            match cut_line(rendered.as_str(), &widths, from, to) {
                Some(part) => {
                    assert(selected_line(view, s, i as int, last as int) == Some(part@));
                    result.append(part.as_str());
                },
                None => {
                    assert(selected_line(view, s, i as int, last as int) is None);
                    return Selected::Crossed;
                },
            }
            if i < last {
                result.push('\n');
            }
            i += 1;
        }
        Selected::Text(result)
    }

    /// The text covered by the selection, if any. In no line may it end in front of its start.
    pub fn extract_selection_text(&self) -> (r: Option<String>)
        requires
            !(selected_spec(self.deep_view()) is Crossed),
        ensures
            r.deep_view() == (match selected_spec(self.deep_view()) {
                SelectedView::Text(t) => Some(t),
                _ => None,
            }),
    {
        match self.selected_text() {
            Selected::Text(t) => Some(t),
            _ => None,
        }
    }
}

/// A selection within one line that is still there never ends in front of its start.
pub proof fn law_selection_in_one_line(app: AppView, row: usize, a: usize, b: usize)
    requires
        app.selection == Some((row, a, row, b)),
        row < app.cached_display_lines.len(),
    ensures
        selected_spec(app) is Text,
{
    let s = ordered((row, a, row, b));
    let lines = app.cached_display_lines;
    let text = line_text(lines[row as int]);
    law_ordered_columns_cut(
        text,
        char_widths_spec(text),
        content_column(s.1),
        content_column(s.3),
    );
    assert forall|j: int| s.0 <= j < last_row(lines, s) + 1 implies (#[trigger] selected_line(
        lines,
        s,
        j,
        last_row(lines, s),
    )) is Some by {
        assert(j == row);
    }
    assert(all_cut(lines, s, last_row(lines, s) + 1));
}

/// Whether every character of a line takes one column.
pub open spec fn is_narrow_line(text: Seq<char>) -> bool {
    &&& column_width_spec(text) == text.len()
    &&& char_widths_spec(text).len() == text.len()
    &&& forall|i: int| 0 <= i < text.len() ==> #[trigger] char_widths_spec(text)[i] == 1
}

/// A selection of lines that are still there never ends in front of its start, where every
/// character takes one column.
pub proof fn law_selection_of_narrow_lines(app: AppView, given: (usize, usize, usize, usize))
    requires
        app.selection == Some(given),
        ordered(given).2 < app.cached_display_lines.len(),
        forall|i: int|
            0 <= i < app.cached_display_lines.len() ==> is_narrow_line(
                line_text(#[trigger] app.cached_display_lines[i]),
            ),
    ensures
        selected_spec(app) is Text,
{
    let s = ordered(given);
    let lines = app.cached_display_lines;
    assert forall|j: int| s.0 <= j < last_row(lines, s) + 1 implies (#[trigger] selected_line(
        lines,
        s,
        j,
        last_row(lines, s),
    )) is Some by {
        let text = line_text(lines[j]);
        let widths = char_widths_spec(text);
        let (from, to) = selected_columns(j, s, last_row(lines, s), column_width_spec(text));
        assert(is_narrow_line(text));
        law_index_in_ones(widths, from);
        law_index_in_ones(widths, to);
    }
    assert(all_cut(lines, s, last_row(lines, s) + 1));
}

/// The columns of a selection cut its two ends only: a line between them is taken alike whatever
/// the columns are, the first line whatever the last column is, and the last line whatever the
/// first column is.
pub proof fn law_columns_cut_the_ends_only(
    lines: Seq<LineView>,
    r0: usize,
    r1: usize,
    s: (usize, usize),
    t: (usize, usize),
    i: int,
)
    requires
        r0 < r1 < lines.len(),
        r0 <= i <= r1,
    ensures
        r0 < i < r1 || i == r0 && s.0 == t.0 || i == r1 && s.1 == t.1 ==> selected_line(
            lines,
            (r0, s.0, r1, s.1),
            i,
            r1 as int,
        ) == selected_line(lines, (r0, t.0, r1, t.1), i, r1 as int),
        r0 < i < r1 ==> ({
            let text = line_text(lines[i]);
            selected_line(lines, (r0, s.0, r1, s.1), i, r1 as int) == cut_spec(
                text,
                char_widths_spec(text),
                0,
                column_width_spec(text),
            )
        }),
{
}

proof fn lemma_selected_is_joined(
    lines: Seq<LineView>,
    s: (usize, usize, usize, usize),
    parts: Seq<Seq<char>>,
    i: int,
)
    requires
        s.0 < i <= last_row(lines, s) + 1,
        parts.len() == last_row(lines, s) + 1 - s.0,
        forall|k: int|
            0 <= k < parts.len() ==> selected_line(lines, s, s.0 + k, last_row(lines, s)) == Some(
                #[trigger] parts[k],
            ),
    ensures
        selected_before(lines, s, i) == (if i <= last_row(lines, s) {
            join_spec(parts.take(i - s.0), "\n"@).push('\n')
        } else {
            join_spec(parts.take(i - s.0), "\n"@)
        }),
    decreases i - s.0,
{
    let n = i - s.0;
    assert(selected_line(lines, s, s.0 + (n - 1), last_row(lines, s)) == Some(parts[n - 1]));
    reveal_strlit("\n");
    assert("\n"@ =~= seq!['\n']);
    if n == 1 {
        assert(selected_before(lines, s, i - 1) =~= Seq::empty());
        assert(parts.take(1)[0] == parts[0]);
        assert(Seq::<char>::empty() + parts[0] =~= parts[0]);
    } else {
        lemma_selected_is_joined(lines, s, parts, i - 1);
        assert(parts.take(n).drop_last() =~= parts.take(n - 1));
        let head = join_spec(parts.take(n - 1), "\n"@);
        assert(head.push('\n') + parts[n - 1] =~= head + "\n"@ + parts[n - 1]);
    }
}

/// What is copied of lines in which every character takes one column: the first line from the
/// start of the selection on, every line between as a whole, the last line up to the end of the
/// selection, each without its leading spaces and with a line break between any two. In which
/// direction the selection was drawn makes no difference.
pub proof fn law_copied_lines(app: AppView, r0: usize, c0: usize, r1: usize, c1: usize)
    requires
        app.selection == Some((r0, c0, r1, c1)) || app.selection == Some((r1, c1, r0, c0)),
        r0 < r1 < app.cached_display_lines.len(),
        forall|i: int|
            r0 <= i <= r1 ==> is_narrow_line(line_text(#[trigger] app.cached_display_lines[i])),
        1 <= c0 <= line_text(app.cached_display_lines[r0 as int]).len() + 1,
        1 <= c1 <= line_text(app.cached_display_lines[r1 as int]).len() + 1,
    ensures
        ({
            let text = |i: int| line_text(app.cached_display_lines[i]);
            let parts = Seq::new(
                (r1 - r0 + 1) as nat,
                |k: int|
                    if k == 0 {
                        strip_leading_spec(text(r0 as int).skip(c0 - 1), ' ')
                    } else if k == r1 - r0 {
                        strip_leading_spec(text(r1 as int).take(c1 - 1), ' ')
                    } else {
                        strip_leading_spec(text(r0 + k), ' ')
                    },
            );
            selected_spec(app) == SelectedView::Text(join_spec(parts, "\n"@))
        }),
{
    let lines = app.cached_display_lines;
    let text = |i: int| line_text(app.cached_display_lines[i]);
    let parts = Seq::new(
        (r1 - r0 + 1) as nat,
        |k: int|
            if k == 0 {
                strip_leading_spec(text(r0 as int).skip(c0 - 1), ' ')
            } else if k == r1 - r0 {
                strip_leading_spec(text(r1 as int).take(c1 - 1), ' ')
            } else {
                strip_leading_spec(text(r0 + k), ' ')
            },
    );
    let s = ordered(app.selection.unwrap());
    assert(s == (r0, c0, r1, c1));
    assert(last_row(lines, s) == r1);
    assert forall|k: int| 0 <= k < parts.len() implies selected_line(
        lines,
        s,
        s.0 + k,
        last_row(lines, s),
    ) == Some(#[trigger] parts[k]) by {
        let t = line_text(lines[r0 + k]);
        let widths = char_widths_spec(t);
        assert(is_narrow_line(t));
        law_index_in_ones(widths, content_column(c0));
        law_index_in_ones(widths, content_column(c1));
        law_index_in_ones(widths, 0);
        law_index_in_ones(widths, t.len());
        assert(t.subrange(0, t.len() as int) =~= t);
        if k == 0 {
            assert(t.subrange(c0 - 1, t.len() as int) =~= t.skip(c0 - 1));
        } else if k == r1 - r0 {
            assert(t.subrange(0, c1 - 1) =~= t.take(c1 - 1));
        }
    }
    assert forall|j: int| s.0 <= j < last_row(lines, s) + 1 implies (#[trigger] selected_line(
        lines,
        s,
        j,
        last_row(lines, s),
    )) is Some by {
        assert(selected_line(lines, s, s.0 + (j - s.0), last_row(lines, s)) == Some(
            parts[j - s.0],
        ));
    }
    assert(all_cut(lines, s, last_row(lines, s) + 1));
    lemma_selected_is_joined(lines, s, parts, last_row(lines, s) + 1);
    assert(parts.take(parts.len() as int) =~= parts);
}

/// What is copied of one line in which every character takes one column: the columns from the
/// left end of the selection up to its right end, without the leading spaces.
pub proof fn law_copied_columns(app: AppView, row: usize, a: usize, b: usize)
    requires
        app.selection == Some((row, a, row, b)) || app.selection == Some((row, b, row, a)),
        row < app.cached_display_lines.len(),
        is_narrow_line(line_text(app.cached_display_lines[row as int])),
        1 <= a <= b <= line_text(app.cached_display_lines[row as int]).len() + 1,
    ensures
        selected_spec(app) == SelectedView::Text(
            strip_leading_spec(
                line_text(app.cached_display_lines[row as int]).subrange(a - 1, b - 1),
                ' ',
            ),
        ),
{
    let lines = app.cached_display_lines;
    let s = ordered(app.selection.unwrap());
    let t = line_text(lines[row as int]);
    let widths = char_widths_spec(t);
    law_index_in_ones(widths, content_column(a));
    law_index_in_ones(widths, content_column(b));
    law_selection_in_one_line(app, row, app.selection.unwrap().1, app.selection.unwrap().3);
    let part = strip_leading_spec(t.subrange(a - 1, b - 1), ' ');
    assert(selected_line(lines, s, row as int, row as int) == Some(part));
    assert(selected_before(lines, s, row as int) =~= Seq::empty());
    assert(Seq::<char>::empty() + part =~= part);
}

/// What a line reads as: its indent and its text, with the marker and the bar of a quote; a
/// header names who speaks.
pub proof fn law_line_reads(segments: Seq<SpanView>, role: Role, block: BlockStyle, labels: Seq<
    Seq<char>,
>, tools: Seq<ToolRefView>)
    ensures
        line_text(LineView::Text { segments, role, block }) == (if role == Role::Assistant && block
            == BlockStyle::Quote {
            "  │ "@
        } else if role == Role::Assistant && block == BlockStyle::ListContinuation {
            "    "@
        } else {
            "  "@
        }) + plain_spec(segments),
        line_text(LineView::Header { role: Role::User, tools }) == "  You"@,
        line_text(LineView::Header { role: Role::Assistant, tools: Seq::empty() }) == "  AI"@,
        line_text(LineView::Header { role: Role::Assistant, tools }).take(4) == "  AI"@,
        line_text(LineView::AttachmentSummary { labels }) == "  Attached: "@ + join_spec(
            labels,
            " "@,
        ),
        line_text(LineView::Blank).len() == 0,
{
    reveal_strlit("  AI");
    assert("  AI"@.len() == 4);
    assert(line_text(LineView::Header { role: Role::Assistant, tools }).take(4) =~= "  AI"@);
    assert(tool_suffix(Seq::empty()) =~= Seq::empty());
    assert("  AI"@ + Seq::<char>::empty() =~= "  AI"@);
}

/// A selection that goes on behind the last line ends with that line; one that starts behind it,
/// or none, copies nothing.
pub proof fn law_selection_is_clipped(app: AppView, r0: usize, c0: usize, r1: usize, c1: usize)
    requires
        app.selection == Some((r0, c0, r1, c1)),
        r0 < r1,
        app.cached_display_lines.len() <= usize::MAX,
    ensures
        r0 >= app.cached_display_lines.len() ==> selected_spec(app) is Nothing,
        r0 + 1 < app.cached_display_lines.len() <= r1 ==> selected_spec(app) == selected_spec(
            AppView {
                selection: Some((r0, c0, (app.cached_display_lines.len() - 1) as usize, c1)),
                ..app
            },
        ),
        selected_spec(AppView { selection: None, ..app }) is Nothing,
{
    let lines = app.cached_display_lines;
    if r0 + 1 < lines.len() <= r1 {
        let s = (r0, c0, r1, c1);
        let t = (r0, c0, (lines.len() - 1) as usize, c1);
        assert(last_row(lines, s) == last_row(lines, t));
        assert forall|j: int| selected_line(lines, s, j, last_row(lines, s)) == #[trigger] selected_line(
            lines,
            t,
            j,
            last_row(lines, t),
        ) by {}
        let end = last_row(lines, s) + 1;
        assert(all_cut(lines, s, end) <==> all_cut(lines, t, end)) by {
            if all_cut(lines, s, end) {
                assert forall|j: int| t.0 <= j < end implies (#[trigger] selected_line(
                    lines,
                    t,
                    j,
                    last_row(lines, t),
                )) is Some by {
                    assert(selected_line(lines, s, j, last_row(lines, s)) is Some);
                }
            }
            if all_cut(lines, t, end) {
                assert forall|j: int| s.0 <= j < end implies (#[trigger] selected_line(
                    lines,
                    s,
                    j,
                    last_row(lines, s),
                )) is Some by {
                    assert(selected_line(lines, t, j, last_row(lines, t)) is Some);
                }
            }
        }
        lemma_same_selection(lines, s, t, end);
    }
}

proof fn lemma_same_selection(
    lines: Seq<LineView>,
    s: (usize, usize, usize, usize),
    t: (usize, usize, usize, usize),
    i: int,
)
    requires
        s.0 == t.0,
        last_row(lines, s) == last_row(lines, t),
        s.1 == t.1,
        s.3 == t.3,
    ensures
        selected_before(lines, s, i) == selected_before(lines, t, i),
    decreases i - s.0,
{
    if i > s.0 {
        lemma_same_selection(lines, s, t, i - 1);
    }
}

} // verus!
