//! Word-wrapping of styled spans.

use crate::markdown::{
    law_merge_push, merge_push, merge_spec, plain_spec, styled_chars, text_in_style, InlineSpan,
    InlineStyle, SpanView,
};
use crate::measure::{
    column_width, column_width_spec, graphemes, graphemes_spec, is_printable_ascii, single_chars,
};
use crate::text::{concat_spec, to_chars};
use vstd::prelude::*;

verus! {

// ─── Runs of graphemes ───────────────────────────────────────────────────────

/// Whether `c` is a space or a tab.
pub open spec fn is_blank_char(c: char) -> bool {
    c == ' ' || c == '\t'
}

/// Whether `s` holds nothing but spaces and tabs.
pub open spec fn is_blank_spec(s: Seq<char>) -> bool {
    forall|i: int| 0 <= i < s.len() ==> is_blank_char(#[trigger] s[i])
}

fn is_blank(s: &str) -> (r: bool)
    ensures
        r == is_blank_spec(s@),
{
    let chars: Vec<char> = to_chars(s);
    let mut i: usize = 0;
    while i < chars.len()
        invariant
            i <= chars.len(),
            chars@ == s@,
            forall|j: int| 0 <= j < i ==> is_blank_char(#[trigger] s@[j]),
        decreases chars.len() - i,
    {
        if chars[i] != ' ' && chars[i] != '\t' {
            assert(!is_blank_char(s@[i as int]));
            return false;
        }
        i += 1;
    }
    true
}

/// Neighbouring graphemes that are all blank, or all not blank.
pub struct Run {
    pub text: String,
    pub blank: bool,
}

/// What a [`Run`] holds.
#[verifier::ext_equal]
pub struct RunView {
    pub text: Seq<char>,
    pub blank: bool,
}

impl DeepView for Run {
    type V = RunView;

    open spec fn deep_view(&self) -> RunView {
        RunView { text: self.text@, blank: self.blank }
    }
}

/// The longest runs of `graphemes`.
pub open spec fn runs_spec(graphemes: Seq<Seq<char>>) -> Seq<RunView>
    decreases graphemes.len(),
{
    if graphemes.len() == 0 {
        Seq::empty()
    } else {
        let before = runs_spec(graphemes.drop_last());
        let g = graphemes.last();
        if before.len() > 0 && before.last().blank == is_blank_spec(g) {
            before.drop_last().push(
                RunView { text: before.last().text + g, blank: is_blank_spec(g) },
            )
        } else {
            before.push(RunView { text: g, blank: is_blank_spec(g) })
        }
    }
}

/// The longest runs of `clusters`.
pub fn group_runs(clusters: &Vec<String>) -> (out: Vec<Run>)
    ensures
        out.deep_view() == runs_spec(clusters.deep_view()),
{
    let mut out: Vec<Run> = Vec::new();
    let mut i: usize = 0;
    assert(out.deep_view() =~= Seq::empty());
    while i < clusters.len()
        invariant
            i <= clusters.len(),
            out.deep_view() == runs_spec(clusters.deep_view().take(i as int)),
        decreases clusters.len() - i,
    {
        let ghost longer = clusters.deep_view().take(i + 1);
        let ghost before = out.deep_view();
        assert(longer.drop_last() =~= clusters.deep_view().take(i as int));
        let g: &str = clusters[i].as_str();
        assert(longer.last() == g@);
        let blank: bool = is_blank(g);
        let n: usize = out.len();
        if n > 0 && out[n - 1].blank == blank {
            assert(before.last() == out@[n - 1].deep_view());
            let mut last: Run = out.pop().unwrap();
            last.text.append(g);
            assert(out.deep_view() =~= before.drop_last());
            let ghost shorter = out.deep_view();
            out.push(last);
            assert(out.deep_view() =~= shorter.push(last.deep_view()));
        } else {
            if n > 0 {
                assert(before.last() == out@[n - 1].deep_view());
            }
            let run: Run = Run { text: g.to_string(), blank };
            out.push(run);
            assert(out.deep_view() =~= before.push(run.deep_view()));
        }
        i += 1;
    }
    assert(clusters.deep_view().take(clusters.len() as int) =~= clusters.deep_view());
    out
}

/// The text of `runs`.
pub open spec fn runs_text(runs: Seq<RunView>) -> Seq<char>
    decreases runs.len(),
{
    if runs.len() == 0 {
        Seq::empty()
    } else {
        runs_text(runs.drop_last()) + runs.last().text
    }
}

/// Grouping keeps the text, no run is empty, a run that is marked blank holds only blanks, and
/// neighbouring runs differ in the mark.
pub proof fn law_runs(graphemes: Seq<Seq<char>>)
    requires
        forall|i: int| 0 <= i < graphemes.len() ==> (#[trigger] graphemes[i]).len() > 0,
    ensures
        runs_text(runs_spec(graphemes)) == concat_spec(graphemes),
        forall|i: int|
            0 <= i < runs_spec(graphemes).len() ==> (#[trigger] runs_spec(graphemes)[i]).text.len()
                > 0,
        forall|i: int|
            0 <= i < runs_spec(graphemes).len() && (#[trigger] runs_spec(graphemes)[i]).blank
                ==> is_blank_spec(runs_spec(graphemes)[i].text),
        forall|i: int, j: int|
            0 <= i && j == i + 1 && j < runs_spec(graphemes).len() ==> (
            #[trigger] runs_spec(graphemes)[i]).blank != (#[trigger] runs_spec(
                graphemes,
            )[j]).blank,
    decreases graphemes.len(),
{
    if graphemes.len() > 0 {
        let shorter = graphemes.drop_last();
        assert forall|i: int| 0 <= i < shorter.len() implies (#[trigger] shorter[i]).len() > 0 by {
            assert(shorter[i] == graphemes[i]);
        }
        law_runs(shorter);
        let before = runs_spec(shorter);
        let g = graphemes.last();
        let after = runs_spec(graphemes);
        assert(g == graphemes[graphemes.len() - 1]);
        if before.len() > 0 && before.last().blank == is_blank_spec(g) {
            assert(after.drop_last() =~= before.drop_last());
            assert(runs_text(after) =~= runs_text(before) + g);
            assert(before.last() == before[before.len() - 1]);
            let joined = before.last().text + g;
            if is_blank_spec(g) {
                assert forall|i: int| 0 <= i < joined.len() implies is_blank_char(
                    #[trigger] joined[i],
                ) by {
                    if i < before.last().text.len() {
                        assert(is_blank_char(before.last().text[i]));
                    } else {
                        assert(is_blank_char(g[i - before.last().text.len()]));
                    }
                }
            }
        } else {
            assert(after.drop_last() =~= before);
            if before.len() > 0 {
                assert(before.last() == before[before.len() - 1]);
            }
        }
        assert forall|i: int| 0 <= i < after.len() implies (#[trigger] after[i]).text.len() > 0
            && (after[i].blank ==> is_blank_spec(after[i].text)) by {
            if i < after.len() - 1 {
                assert(after[i] == before[i]);
            }
        }
        assert forall|i: int, j: int| 0 <= i && j == i + 1 && j < after.len() implies (
        #[trigger] after[i]).blank != (#[trigger] after[j]).blank by {
            assert(after[i] == before[i]);
            if j < before.len() {
                assert(before[i].blank != before[j].blank);
                assert(after[j].blank == before[j].blank);
            }
        }
    }
}

// ─── Tokens ──────────────────────────────────────────────────────────────────

/// The unit of wrapping: a run of one span, with the columns that it takes.
pub struct WrapToken {
    pub text: String,
    pub style: InlineStyle,
    pub width: usize,
    pub blank: bool,
}

/// What a [`WrapToken`] holds.
#[verifier::ext_equal]
pub struct TokenView {
    pub text: Seq<char>,
    pub style: InlineStyle,
    pub width: nat,
    pub blank: bool,
}

impl DeepView for WrapToken {
    type V = TokenView;

    open spec fn deep_view(&self) -> TokenView {
        TokenView {
            text: self.text@,
            style: self.style,
            width: self.width as nat,
            blank: self.blank,
        }
    }
}

/// The token for a run of a span in the style `style`.
pub open spec fn token_of(run: RunView, style: InlineStyle) -> TokenView {
    TokenView { text: run.text, style, width: column_width_spec(run.text), blank: run.blank }
}

/// The tokens of one span.
pub open spec fn span_tokens(span: SpanView) -> Seq<TokenView> {
    let runs = runs_spec(graphemes_spec(span.text));
    Seq::new(runs.len(), |i: int| token_of(runs[i], span.style))
}

/// The tokens of `segments`.
pub open spec fn tokens_spec(segments: Seq<SpanView>) -> Seq<TokenView>
    decreases segments.len(),
{
    if segments.len() == 0 {
        Seq::empty()
    } else {
        tokens_spec(segments.drop_last()) + span_tokens(segments.last())
    }
}

// ─── Layout ──────────────────────────────────────────────────────────────────

/// The columns that `tokens` take.
pub open spec fn total_width(tokens: Seq<TokenView>) -> nat
    decreases tokens.len(),
{
    if tokens.len() == 0 {
        0
    } else {
        total_width(tokens.drop_last()) + tokens.last().width
    }
}

/// The lines that are full, and the line that is being filled.
#[verifier::ext_equal]
pub struct LayoutView {
    pub lines: Seq<Seq<TokenView>>,
    pub current: Seq<TokenView>,
}

/// The layout with one more token. Blank tokens do not open a line; a token that does not fit
/// behind others starts the next line.
pub open spec fn place_spec(state: LayoutView, token: TokenView, width: nat) -> LayoutView {
    let used = total_width(state.current);
    if used == 0 && token.blank {
        state
    } else if used + token.width > width && state.current.len() > 0 {
        LayoutView {
            lines: state.lines.push(state.current),
            current: if token.blank {
                Seq::empty()
            } else {
                seq![token]
            },
        }
    } else {
        LayoutView { lines: state.lines, current: state.current.push(token) }
    }
}

/// The layout of `tokens` in lines of `width` columns.
pub open spec fn layout_spec(tokens: Seq<TokenView>, width: nat) -> LayoutView
    decreases tokens.len(),
{
    if tokens.len() == 0 {
        LayoutView { lines: Seq::empty(), current: Seq::empty() }
    } else {
        place_spec(layout_spec(tokens.drop_last(), width), tokens.last(), width)
    }
}

/// The lines of tokens: at least one, which may be empty.
pub open spec fn token_lines(tokens: Seq<TokenView>, width: nat) -> Seq<Seq<TokenView>> {
    let state = layout_spec(tokens, width);
    let all = if state.current.len() > 0 {
        state.lines.push(state.current)
    } else {
        state.lines
    };
    if all.len() == 0 {
        seq![Seq::<TokenView>::empty()]
    } else {
        all
    }
}

/// The spans of a line of tokens.
pub open spec fn line_spans(tokens: Seq<TokenView>) -> Seq<SpanView>
    decreases tokens.len(),
{
    if tokens.len() == 0 {
        Seq::empty()
    } else {
        merge_spec(
            line_spans(tokens.drop_last()),
            SpanView { text: tokens.last().text, style: tokens.last().style },
        )
    }
}

/// The spans of lines of tokens.
pub open spec fn lines_spans(lines: Seq<Seq<TokenView>>) -> Seq<Seq<SpanView>> {
    Seq::new(lines.len(), |i: int| line_spans(lines[i]))
}

/// The wrapped lines of `segments`; a width of zero asks for no wrapping.
pub open spec fn wrap_spec(segments: Seq<SpanView>, width: nat) -> Seq<Seq<SpanView>> {
    if width == 0 {
        seq![segments]
    } else {
        lines_spans(token_lines(tokens_spec(segments), width))
    }
}

/// Whether no token is empty.
pub open spec fn no_empty_token(tokens: Seq<TokenView>) -> bool {
    forall|i: int| 0 <= i < tokens.len() ==> (#[trigger] tokens[i]).text.len() > 0
}

/// Lay out `tokens` in lines of `width` columns.
pub fn layout_tokens(tokens: &Vec<WrapToken>, width: usize) -> (out: Vec<Vec<InlineSpan>>)
    requires
        no_empty_token(tokens.deep_view()),
    ensures
        out.deep_view() == lines_spans(token_lines(tokens.deep_view(), width as nat)),
{
    let ghost all = tokens.deep_view();
    let mut lines: Vec<Vec<InlineSpan>> = Vec::new();
    let mut current: Vec<InlineSpan> = Vec::new();
    let mut used: usize = 0;
    let mut i: usize = 0;
    let ghost mut state = layout_spec(all.take(0), width as nat);
    assert(lines.deep_view() =~= lines_spans(state.lines));
    assert(current.deep_view() =~= line_spans(state.current));
    while i < tokens.len()
        invariant
            i <= tokens.len(),
            all == tokens.deep_view(),
            no_empty_token(all),
            state == layout_spec(all.take(i as int), width as nat),
            no_empty_token(state.current),
            lines.deep_view() == lines_spans(state.lines),
            current.deep_view() == line_spans(state.current),
            used == total_width(state.current),
        decreases tokens.len() - i,
    {
        let ghost before = state;
        let ghost token = all[i as int];
        proof {
            assert(all.take(i + 1).drop_last() =~= all.take(i as int));
            state = place_spec(before, token, width as nat);
            assert(before.current.push(token).drop_last() =~= before.current);
            assert(Seq::<TokenView>::empty().push(token).drop_last() =~= Seq::empty());
            assert(seq![token].drop_last() =~= Seq::empty());
            if before.current.len() > 0 {
                assert(before.current.last() == before.current[before.current.len() - 1]);
                assert(line_spans(before.current).len() > 0);
            }
            reveal_with_fuel(total_width, 2);
            reveal_with_fuel(line_spans, 2);
        }
        let blank: bool = tokens[i].blank;
        let w: usize = tokens[i].width;
        assert(current.deep_view().len() == current@.len());
        if used == 0 && blank {
            i += 1;
            continue ;
        }
        if (used > width || w > width - used) && current.len() > 0 {
            let mut full: Vec<InlineSpan> = Vec::new();
            std::mem::swap(&mut full, &mut current);
            let ghost shown = lines.deep_view();
            let ghost line = full.deep_view();
            lines.push(full);
            proof {
                assert(lines.deep_view() =~= shown.push(line));
                assert(lines.deep_view() =~= lines_spans(state.lines));
                assert(current.deep_view() =~= Seq::empty());
            }
            used = 0;
            if blank {
                i += 1;
                continue ;
            }
        }
        let span: InlineSpan = InlineSpan { text: tokens[i].text.clone(), style: tokens[i].style };
        merge_push(&mut current, span);
        used += w;
        i += 1;
    }
    assert(all.take(all.len() as int) =~= all);
    assert(current.deep_view().len() == current@.len());
    if current.len() > 0 {
        let ghost shown = lines.deep_view();
        let ghost line = current.deep_view();
        lines.push(current);
        assert(lines.deep_view() =~= shown.push(line));
        assert(lines.deep_view() =~= lines_spans(token_lines(all, width as nat)));
    } else {
        proof {
            if state.current.len() > 0 {
                assert(state.current.last() == state.current[state.current.len() - 1]);
                assert(line_spans(state.current).len() > 0);
            }
        }
    }
    assert(lines.deep_view().len() == lines@.len());
    if lines.len() == 0 {
        let none: Vec<InlineSpan> = Vec::new();
        assert(none.deep_view() =~= Seq::empty());
        lines.push(none);
        assert(lines.deep_view() =~= seq![Seq::<SpanView>::empty()]);
        assert(lines.deep_view() =~= lines_spans(token_lines(all, width as nat)));
    }
    lines
}

/// The tokens of one span, measured.
fn measure_span(span: &InlineSpan) -> (out: Vec<WrapToken>)
    ensures
        out.deep_view() == span_tokens(span.deep_view()),
        no_empty_token(out.deep_view()),
        concat_spec(graphemes_spec(span.text@)) == span.text@,
        forall|i: int|
            0 <= i < graphemes_spec(span.text@).len() ==> (#[trigger] graphemes_spec(
                span.text@,
            )[i]).len() > 0,
        is_printable_ascii(span.text@) ==> all_narrow(out.deep_view()),
{
    let clusters: Vec<String> = graphemes(span.text.as_str());
    let runs: Vec<Run> = group_runs(&clusters);
    proof {
        assert forall|i: int| 0 <= i < clusters.deep_view().len() implies (
        #[trigger] clusters.deep_view()[i]).len() > 0 by {
            assert(clusters.deep_view()[i] == clusters@[i]@);
        }
        law_runs(clusters.deep_view());
        if is_printable_ascii(span.text@) {
            lemma_runs_of_single_chars(span.text@);
        }
    }
    let mut out: Vec<WrapToken> = Vec::new();
    let mut i: usize = 0;
    while i < runs.len()
        invariant
            i <= runs.len(),
            out@.len() == i,
            is_printable_ascii(span.text@) ==> forall|j: int|
                0 <= j < runs.deep_view().len() ==> is_even(#[trigger] runs.deep_view()[j]),
            is_printable_ascii(span.text@) ==> forall|j: int|
                0 <= j < i ==> is_narrow((#[trigger] out@[j]).deep_view()),
            forall|j: int|
                0 <= j < i ==> (#[trigger] out@[j]).deep_view() == token_of(
                    runs.deep_view()[j],
                    span.style,
                ),
        decreases runs.len() - i,
    {
        let text: String = runs[i].text.clone();
        let width: usize = column_width(text.as_str());
        assert(runs.deep_view()[i as int] == runs@[i as int].deep_view());
        out.push(WrapToken { text, style: span.style, width, blank: runs[i].blank });
        i += 1;
    }
    proof {
        assert(out.deep_view() =~= span_tokens(span.deep_view()));
        if is_printable_ascii(span.text@) {
            assert forall|j: int| 0 <= j < out.deep_view().len() implies is_narrow(
                #[trigger] out.deep_view()[j],
            ) by {
                assert(out.deep_view()[j] == out@[j].deep_view());
            }
        }
    }
    out
}

/// A copy of `segments`.
pub(crate) fn copy_spans(segments: &Vec<InlineSpan>) -> (out: Vec<InlineSpan>)
    ensures
        out.deep_view() == segments.deep_view(),
{
    let mut out: Vec<InlineSpan> = Vec::new();
    let mut i: usize = 0;
    while i < segments.len()
        invariant
            i <= segments.len(),
            out@.len() == i,
            forall|j: int| 0 <= j < i ==> (#[trigger] out@[j]).deep_view() == segments@[j].deep_view(),
        decreases segments.len() - i,
    {
        out.push(segments[i].clone());
        i += 1;
    }
    assert(out.deep_view() =~= segments.deep_view());
    out
}

/// Word-wrap a list of styled spans into one or more lines. Span boundaries stay: a wrapped line
/// holds a part of the spans, cut at blanks where possible. A single token that exceeds `width`
/// stays on its own line, which it overflows.
///
/// No character but spaces and tabs is lost, and each keeps its style. No span is empty, and lines
/// of printable ASCII characters fit the width and start with no space.
pub fn wrap_segments(segments: &Vec<InlineSpan>, width: usize) -> (out: Vec<Vec<InlineSpan>>)
    ensures
        out.deep_view() == wrap_spec(segments.deep_view(), width as nat),
        out.len() > 0,
        ink(lines_chars(out.deep_view())) == ink(styled_chars(segments.deep_view())),
        visible(lines_text(out.deep_view())) == visible(plain_spec(segments.deep_view())),
        width > 0 ==> no_empty_span(out.deep_view()),
        width > 0 && all_printable(segments.deep_view()) ==> forall|i: int|
            0 <= i < out.deep_view().len() ==> is_tidy(
                #[trigger] out.deep_view()[i],
                width as nat,
            ),
{
    let ghost all = segments.deep_view();
    if width == 0 {
        let copy: Vec<InlineSpan> = copy_spans(segments);
        let mut out: Vec<Vec<InlineSpan>> = Vec::new();
        out.push(copy);
        assert(out.deep_view() =~= seq![all]);
        assert(seq![all].drop_last() =~= Seq::empty());
        assert(lines_chars(seq![all]) =~= styled_chars(all)) by {
            reveal_with_fuel(lines_chars, 2);
        }
        proof {
            law_ink_is_text(out.deep_view(), all);
        }
        return out;
    }
    let mut tokens: Vec<WrapToken> = Vec::new();
    let mut i: usize = 0;
    assert(tokens.deep_view() =~= Seq::empty());
    while i < segments.len()
        invariant
            i <= segments.len(),
            all == segments.deep_view(),
            tokens.deep_view() == tokens_spec(all.take(i as int)),
            no_empty_token(tokens.deep_view()),
            forall|j: int| 0 <= j < i ==> clusters_are_cut(#[trigger] all[j]),
            all_printable(all) ==> all_narrow(tokens.deep_view()),
        decreases segments.len() - i,
    {
        let mut more: Vec<WrapToken> = measure_span(&segments[i]);
        let ghost before = tokens.deep_view();
        let ghost added = more.deep_view();
        proof {
            assert(all[i as int] == segments@[i as int].deep_view());
            assert(clusters_are_cut(all[i as int]));
            assert(all.take(i + 1).drop_last() =~= all.take(i as int));
        }
        tokens.append(&mut more);
        proof {
            assert(tokens.deep_view() =~= before + added);
            if all_printable(all) {
                assert(is_printable_ascii(all[i as int].text));
                assert forall|j: int| 0 <= j < tokens.deep_view().len() implies is_narrow(
                    #[trigger] tokens.deep_view()[j],
                ) by {
                    if j < before.len() {
                        assert(is_narrow(before[j]));
                    } else {
                        assert(is_narrow(added[j - before.len()]));
                    }
                }
            }
        }
        i += 1;
    }
    assert(all.take(all.len() as int) =~= all);
    let out: Vec<Vec<InlineSpan>> = layout_tokens(&tokens, width);
    proof {
        law_wrap_keeps_ink(all, width as nat);
        law_ink_is_text(out.deep_view(), all);
        law_no_wrapped_span_is_empty(tokens.deep_view(), width as nat);
        if all_printable(all) {
            law_narrow_lines_are_tidy(tokens.deep_view(), width as nat);
        }
        assert(out.deep_view().len() == out@.len());
    }
    out
}

// ─── Laws ────────────────────────────────────────────────────────────────────

/// `s` without spaces and tabs.
pub open spec fn ink(s: Seq<(char, InlineStyle)>) -> Seq<(char, InlineStyle)> {
    s.filter(|c: (char, InlineStyle)| !is_blank_char(c.0))
}

/// The characters of `lines`, one line behind the other, each with its style.
pub open spec fn lines_chars(lines: Seq<Seq<SpanView>>) -> Seq<(char, InlineStyle)>
    decreases lines.len(),
{
    if lines.len() == 0 {
        Seq::empty()
    } else {
        lines_chars(lines.drop_last()) + styled_chars(lines.last())
    }
}

/// A text without spaces and tabs.
pub open spec fn visible(s: Seq<char>) -> Seq<char> {
    s.filter(|c: char| !is_blank_char(c))
}

/// The text of `lines`, one behind the other.
pub open spec fn lines_text(lines: Seq<Seq<SpanView>>) -> Seq<char>
    decreases lines.len(),
{
    if lines.len() == 0 {
        Seq::empty()
    } else {
        lines_text(lines.drop_last()) + plain_spec(lines.last())
    }
}

/// The characters of `s`, without their styles.
pub open spec fn letters(s: Seq<(char, InlineStyle)>) -> Seq<char> {
    Seq::new(s.len(), |i: int| s[i].0)
}

proof fn lemma_letters_of_ink(s: Seq<(char, InlineStyle)>)
    ensures
        letters(ink(s)) == visible(letters(s)),
    decreases s.len(),
{
    reveal(Seq::filter);
    if s.len() > 0 {
        lemma_letters_of_ink(s.drop_last());
        assert(letters(s).drop_last() =~= letters(s.drop_last()));
        assert(letters(ink(s)) =~= visible(letters(s)));
    } else {
        assert(letters(ink(s)) =~= visible(letters(s)));
    }
}

proof fn lemma_letters_of_spans(spans: Seq<SpanView>)
    ensures
        letters(styled_chars(spans)) == plain_spec(spans),
    decreases spans.len(),
{
    if spans.len() > 0 {
        lemma_letters_of_spans(spans.drop_last());
    }
    assert(letters(styled_chars(spans)) =~= plain_spec(spans));
}

proof fn lemma_letters_of_lines(lines: Seq<Seq<SpanView>>)
    ensures
        letters(lines_chars(lines)) == lines_text(lines),
    decreases lines.len(),
{
    if lines.len() > 0 {
        lemma_letters_of_lines(lines.drop_last());
        lemma_letters_of_spans(lines.last());
    }
    assert(letters(lines_chars(lines)) =~= lines_text(lines));
}

/// Lines that hold the visible characters of some spans in their styles hold their visible text.
pub proof fn law_ink_is_text(lines: Seq<Seq<SpanView>>, segments: Seq<SpanView>)
    requires
        ink(lines_chars(lines)) == ink(styled_chars(segments)),
    ensures
        visible(lines_text(lines)) == visible(plain_spec(segments)),
{
    lemma_letters_of_ink(lines_chars(lines));
    lemma_letters_of_ink(styled_chars(segments));
    lemma_letters_of_lines(lines);
    lemma_letters_of_spans(segments);
}

/// Whether the graphemes of a span are its text, cut into pieces that are not empty.
pub open spec fn clusters_are_cut(span: SpanView) -> bool {
    &&& concat_spec(graphemes_spec(span.text)) == span.text
    &&& forall|i: int|
        0 <= i < graphemes_spec(span.text).len() ==> (#[trigger] graphemes_spec(
            span.text,
        )[i]).len() > 0
}

/// The characters of `tokens`, each with its style.
pub open spec fn tokens_chars(tokens: Seq<TokenView>) -> Seq<(char, InlineStyle)>
    decreases tokens.len(),
{
    if tokens.len() == 0 {
        Seq::empty()
    } else {
        tokens_chars(tokens.drop_last()) + text_in_style(tokens.last().text, tokens.last().style)
    }
}

/// The characters of lines of tokens, each with its style.
pub open spec fn token_lines_chars(lines: Seq<Seq<TokenView>>) -> Seq<(char, InlineStyle)>
    decreases lines.len(),
{
    if lines.len() == 0 {
        Seq::empty()
    } else {
        token_lines_chars(lines.drop_last()) + tokens_chars(lines.last())
    }
}

proof fn lemma_ink_concat(a: Seq<(char, InlineStyle)>, b: Seq<(char, InlineStyle)>)
    ensures
        ink(a + b) == ink(a) + ink(b),
{
    Seq::filter_distributes_over_add(a, b, |c: (char, InlineStyle)| !is_blank_char(c.0));
}

proof fn lemma_ink_of_blank(s: Seq<char>, style: InlineStyle)
    requires
        is_blank_spec(s),
    ensures
        ink(text_in_style(s, style)) == Seq::<(char, InlineStyle)>::empty(),
    decreases s.len(),
{
    reveal(Seq::filter);
    if s.len() > 0 {
        assert forall|i: int| 0 <= i < s.drop_last().len() implies is_blank_char(
            #[trigger] s.drop_last()[i],
        ) by {
            assert(is_blank_char(s[i]));
        }
        lemma_ink_of_blank(s.drop_last(), style);
        assert(is_blank_char(s[s.len() - 1]));
        assert(text_in_style(s, style).drop_last() =~= text_in_style(s.drop_last(), style));
    }
}

proof fn lemma_tokens_chars_concat(a: Seq<TokenView>, b: Seq<TokenView>)
    ensures
        tokens_chars(a + b) == tokens_chars(a) + tokens_chars(b),
    decreases b.len(),
{
    if b.len() == 0 {
        assert(a + b =~= a);
        assert(tokens_chars(a) + tokens_chars(b) =~= tokens_chars(a));
    } else {
        assert((a + b).drop_last() =~= a + b.drop_last());
        lemma_tokens_chars_concat(a, b.drop_last());
        assert(tokens_chars(a + b) =~= tokens_chars(a) + tokens_chars(b));
    }
}

proof fn lemma_runs_text(runs: Seq<RunView>, style: InlineStyle)
    ensures
        tokens_chars(Seq::new(runs.len(), |i: int| token_of(runs[i], style))) == text_in_style(
            runs_text(runs),
            style,
        ),
    decreases runs.len(),
{
    let tokens = Seq::new(runs.len(), |i: int| token_of(runs[i], style));
    if runs.len() > 0 {
        let shorter = runs.drop_last();
        lemma_runs_text(shorter, style);
        assert(tokens.drop_last() =~= Seq::new(
            shorter.len(),
            |i: int| token_of(shorter[i], style),
        ));
        assert(tokens_chars(tokens) =~= text_in_style(runs_text(runs), style));
    } else {
        assert(tokens_chars(tokens) =~= text_in_style(runs_text(runs), style));
    }
}

/// Whether every token that is marked blank holds only blanks.
pub open spec fn blanks_are_blank(tokens: Seq<TokenView>) -> bool {
    forall|i: int|
        0 <= i < tokens.len() && (#[trigger] tokens[i]).blank ==> is_blank_spec(tokens[i].text)
}

/// Measuring keeps the text of the spans and its styles, token by token, and marks blank only what
/// is blank.
pub proof fn law_tokens_keep_text(segments: Seq<SpanView>)
    requires
        forall|i: int| 0 <= i < segments.len() ==> clusters_are_cut(#[trigger] segments[i]),
    ensures
        tokens_chars(tokens_spec(segments)) == styled_chars(segments),
        blanks_are_blank(tokens_spec(segments)),
        no_empty_token(tokens_spec(segments)),
    decreases segments.len(),
{
    if segments.len() > 0 {
        let shorter = segments.drop_last();
        let span = segments.last();
        assert forall|i: int| 0 <= i < shorter.len() implies clusters_are_cut(
            #[trigger] shorter[i],
        ) by {
            assert(clusters_are_cut(segments[i]));
        }
        law_tokens_keep_text(shorter);
        assert(clusters_are_cut(segments[segments.len() - 1]));
        let runs = runs_spec(graphemes_spec(span.text));
        law_runs(graphemes_spec(span.text));
        lemma_runs_text(runs, span.style);
        lemma_tokens_chars_concat(tokens_spec(shorter), span_tokens(span));
        let all = tokens_spec(segments);
        let n = tokens_spec(shorter).len();
        assert forall|i: int| 0 <= i < all.len() implies (#[trigger] all[i]).text.len() > 0 && (
        all[i].blank ==> is_blank_spec(all[i].text)) by {
            if i < n {
                assert(all[i] == tokens_spec(shorter)[i]);
            } else {
                assert(all[i] == token_of(runs[i - n], span.style));
            }
        }
    }
}

proof fn lemma_layout_ink(tokens: Seq<TokenView>, width: nat)
    requires
        blanks_are_blank(tokens),
    ensures
        ({
            let state = layout_spec(tokens, width);
            ink(token_lines_chars(state.lines) + tokens_chars(state.current)) == ink(
                tokens_chars(tokens),
            )
        }),
    decreases tokens.len(),
{
    let state = layout_spec(tokens, width);
    if tokens.len() == 0 {
        assert(token_lines_chars(state.lines) + tokens_chars(state.current) =~= Seq::empty());
    } else {
        let shorter = tokens.drop_last();
        let token = tokens.last();
        assert forall|i: int| 0 <= i < shorter.len() && (#[trigger] shorter[i]).blank implies
            is_blank_spec(shorter[i].text) by {
            assert(tokens[i].blank);
        }
        lemma_layout_ink(shorter, width);
        let before = layout_spec(shorter, width);
        let added = text_in_style(token.text, token.style);
        let shown = token_lines_chars(before.lines) + tokens_chars(before.current);
        lemma_ink_concat(shown, added);
        lemma_ink_concat(tokens_chars(shorter), added);
        if token.blank {
            assert(tokens[tokens.len() - 1].blank);
            lemma_ink_of_blank(token.text, token.style);
        }
        let used = total_width(before.current);
        if used == 0 && token.blank {
            assert(ink(tokens_chars(shorter)) + ink(added) =~= ink(tokens_chars(shorter)));
        } else if used + token.width > width && before.current.len() > 0 {
            assert(state.lines.drop_last() =~= before.lines);
            if token.blank {
                assert(token_lines_chars(state.lines) + tokens_chars(state.current) =~= shown);
                assert(ink(tokens_chars(shorter)) + ink(added) =~= ink(tokens_chars(shorter)));
            } else {
                assert(seq![token].drop_last() =~= Seq::empty());
                reveal_with_fuel(tokens_chars, 2);
                assert(tokens_chars(seq![token]) =~= added);
                assert(token_lines_chars(state.lines) + tokens_chars(state.current) =~= shown
                    + added);
            }
        } else {
            assert(state.current.drop_last() =~= before.current);
            assert(token_lines_chars(state.lines) + tokens_chars(state.current) =~= shown
                + added);
        }
    }
}

proof fn lemma_line_spans_chars(tokens: Seq<TokenView>)
    ensures
        styled_chars(line_spans(tokens)) == tokens_chars(tokens),
    decreases tokens.len(),
{
    if tokens.len() > 0 {
        lemma_line_spans_chars(tokens.drop_last());
        law_merge_push(
            line_spans(tokens.drop_last()),
            SpanView { text: tokens.last().text, style: tokens.last().style },
        );
    }
}

proof fn lemma_lines_spans_chars(lines: Seq<Seq<TokenView>>)
    ensures
        lines_chars(lines_spans(lines)) == token_lines_chars(lines),
    decreases lines.len(),
{
    if lines.len() > 0 {
        assert(lines_spans(lines).drop_last() =~= lines_spans(lines.drop_last()));
        lemma_lines_spans_chars(lines.drop_last());
        lemma_line_spans_chars(lines.last());
    }
}

/// Wrapping loses no visible character, keeps their order and leaves each in its style: without
/// spaces and tabs, the lines hold the characters of the spans with their styles.
pub proof fn law_wrap_keeps_ink(segments: Seq<SpanView>, width: nat)
    requires
        width > 0,
        forall|i: int| 0 <= i < segments.len() ==> clusters_are_cut(#[trigger] segments[i]),
    ensures
        ink(lines_chars(wrap_spec(segments, width))) == ink(styled_chars(segments)),
{
    let tokens = tokens_spec(segments);
    let state = layout_spec(tokens, width);
    let lines = token_lines(tokens, width);
    law_tokens_keep_text(segments);
    lemma_layout_ink(tokens, width);
    lemma_lines_spans_chars(lines);
    if state.current.len() > 0 {
        assert(lines.drop_last() =~= state.lines);
    } else {
        assert(token_lines_chars(state.lines) + tokens_chars(state.current) =~= token_lines_chars(
            state.lines,
        ));
        if state.lines.len() == 0 {
            assert(lines.drop_last() =~= Seq::empty());
            reveal_with_fuel(token_lines_chars, 2);
            assert(token_lines_chars(lines) =~= Seq::empty());
        }
    }
}

/// Whether a line of tokens fits: it takes at most `width` columns, or is one token.
pub open spec fn line_fits(line: Seq<TokenView>, width: nat) -> bool {
    total_width(line) <= width || line.len() <= 1
}

proof fn lemma_layout_fits(tokens: Seq<TokenView>, width: nat)
    ensures
        forall|i: int|
            0 <= i < layout_spec(tokens, width).lines.len() ==> line_fits(
                #[trigger] layout_spec(tokens, width).lines[i],
                width,
            ),
        line_fits(layout_spec(tokens, width).current, width),
    decreases tokens.len(),
{
    if tokens.len() > 0 {
        let shorter = tokens.drop_last();
        let token = tokens.last();
        lemma_layout_fits(shorter, width);
        let before = layout_spec(shorter, width);
        let state = layout_spec(tokens, width);
        assert forall|i: int| 0 <= i < state.lines.len() implies line_fits(
            #[trigger] state.lines[i],
            width,
        ) by {
            if i < before.lines.len() {
                assert(state.lines[i] == before.lines[i]);
            }
        }
        assert(before.current.push(token).drop_last() =~= before.current);
    }
}

/// Every wrapped line takes at most `width` columns, token by token, or is a single token.
pub proof fn law_wrapped_lines_fit(tokens: Seq<TokenView>, width: nat)
    ensures
        forall|i: int|
            0 <= i < token_lines(tokens, width).len() ==> line_fits(
                #[trigger] token_lines(tokens, width)[i],
                width,
            ),
{
    lemma_layout_fits(tokens, width);
    let state = layout_spec(tokens, width);
    let lines = token_lines(tokens, width);
    assert forall|i: int| 0 <= i < lines.len() implies line_fits(#[trigger] lines[i], width) by {
        if i < state.lines.len() {
            assert(lines[i] == state.lines[i]);
        }
    }
}

proof fn lemma_layout_fronts(tokens: Seq<TokenView>, width: nat)
    ensures
        forall|i: int|
            0 <= i < layout_spec(tokens, width).lines.len() ==> (#[trigger] layout_spec(
                tokens,
                width,
            ).lines[i]).len() > 0 && !layout_spec(tokens, width).lines[i][0].blank,
        layout_spec(tokens, width).current.len() > 0 ==> !layout_spec(
            tokens,
            width,
        ).current[0].blank,
    decreases tokens.len(),
{
    if tokens.len() > 0 {
        let shorter = tokens.drop_last();
        lemma_layout_fronts(shorter, width);
        let before = layout_spec(shorter, width);
        let state = layout_spec(tokens, width);
        assert forall|i: int| 0 <= i < state.lines.len() implies (#[trigger] state.lines[i]).len()
            > 0 && !state.lines[i][0].blank by {
            if i < before.lines.len() {
                assert(state.lines[i] == before.lines[i]);
            }
        }
    }
}

/// No wrapped line starts with a blank.
pub proof fn law_wrapped_lines_start_with_ink(tokens: Seq<TokenView>, width: nat)
    ensures
        forall|i: int|
            0 <= i < token_lines(tokens, width).len() && (#[trigger] token_lines(
                tokens,
                width,
            )[i]).len() > 0 ==> !token_lines(tokens, width)[i][0].blank,
{
    lemma_layout_fronts(tokens, width);
    let state = layout_spec(tokens, width);
    let lines = token_lines(tokens, width);
    assert forall|i: int| 0 <= i < lines.len() && (#[trigger] lines[i]).len() > 0 implies
        !lines[i][0].blank by {
        if i < state.lines.len() {
            assert(lines[i] == state.lines[i]);
        }
    }
}

// ─── Lines of narrow text ────────────────────────────────────────────────────

/// Whether some spans hold nothing but printable ASCII characters.
pub open spec fn all_printable(segments: Seq<SpanView>) -> bool {
    forall|i: int| 0 <= i < segments.len() ==> is_printable_ascii((#[trigger] segments[i]).text)
}

/// Whether a run holds printable ASCII characters: all of them spaces where it is marked blank,
/// and none where it is not.
pub open spec fn is_even(run: RunView) -> bool {
    &&& is_printable_ascii(run.text)
    &&& forall|i: int| 0 <= i < run.text.len() ==> (#[trigger] run.text[i] == ' ') == run.blank
}

/// Whether every character of a token takes one column, all of them being spaces where it is
/// marked blank, and none where it is not.
pub open spec fn is_narrow(token: TokenView) -> bool {
    &&& token.width == token.text.len()
    &&& forall|i: int|
        0 <= i < token.text.len() ==> (#[trigger] token.text[i] == ' ') == token.blank
}

/// Whether all tokens are so.
pub open spec fn all_narrow(tokens: Seq<TokenView>) -> bool {
    forall|i: int| 0 <= i < tokens.len() ==> is_narrow(#[trigger] tokens[i])
}

/// Whether no span of some lines is empty.
pub open spec fn no_empty_span(lines: Seq<Seq<SpanView>>) -> bool {
    forall|i: int, j: int|
        0 <= i < lines.len() && 0 <= j < lines[i].len() ==> (#[trigger] lines[i][j]).text.len() > 0
}

/// Whether a line has at most `width` characters or is one span without a space, and starts with
/// no space.
pub open spec fn is_tidy(line: Seq<SpanView>, width: nat) -> bool {
    let text = plain_spec(line);
    &&& text.len() <= width || (line.len() == 1 && !text.contains(' '))
    &&& text.len() > 0 ==> text[0] != ' '
}

proof fn lemma_runs_of_single_chars(s: Seq<char>)
    requires
        is_printable_ascii(s),
    ensures
        forall|i: int|
            0 <= i < runs_spec(single_chars(s)).len() ==> is_even(
                #[trigger] runs_spec(single_chars(s))[i],
            ),
    decreases s.len(),
{
    if s.len() > 0 {
        let shorter = s.drop_last();
        assert forall|i: int| 0 <= i < shorter.len() implies ' ' <= #[trigger] shorter[i]
            && shorter[i] <= '~' by {
            assert(' ' <= s[i]);
        }
        lemma_runs_of_single_chars(shorter);
        assert(single_chars(s).drop_last() =~= single_chars(shorter));
        let before = runs_spec(single_chars(shorter));
        let after = runs_spec(single_chars(s));
        let g = single_chars(s).last();
        assert(' ' <= s[s.len() - 1] && s[s.len() - 1] <= '~');
        assert(g =~= seq![s[s.len() - 1]]);
        assert(is_blank_spec(g) == (g[0] == ' ')) by {
            if is_blank_spec(g) {
                assert(is_blank_char(g[0]));
            }
        }
        assert forall|i: int| 0 <= i < after.len() implies is_even(#[trigger] after[i]) by {
            if i < after.len() - 1 {
                assert(after[i] == before[i]);
            } else if before.len() > 0 && before.last().blank == is_blank_spec(g) {
                let last = before[before.len() - 1];
                assert(is_even(last));
                assert forall|j: int| 0 <= j < after[i].text.len() implies (
                #[trigger] after[i].text[j] == ' ') == after[i].blank && ' ' <= after[i].text[j]
                    && after[i].text[j] <= '~' by {
                    if j < last.text.len() {
                        assert(after[i].text[j] == last.text[j]);
                    }
                }
            }
        }
    }
}

/// What holds of all tokens holds of those in the lines.
proof fn lemma_layout_holds(tokens: Seq<TokenView>, width: nat)
    ensures
        no_empty_token(tokens) ==> no_empty_token(layout_spec(tokens, width).current) && forall|
            i: int,
        |
            0 <= i < layout_spec(tokens, width).lines.len() ==> no_empty_token(
                #[trigger] layout_spec(tokens, width).lines[i],
            ),
        all_narrow(tokens) ==> all_narrow(layout_spec(tokens, width).current) && forall|i: int|
            0 <= i < layout_spec(tokens, width).lines.len() ==> all_narrow(
                #[trigger] layout_spec(tokens, width).lines[i],
            ),
    decreases tokens.len(),
{
    if tokens.len() > 0 {
        let shorter = tokens.drop_last();
        let token = tokens.last();
        assert(token == tokens[tokens.len() - 1]);
        lemma_layout_holds(shorter, width);
        let before = layout_spec(shorter, width);
        let state = layout_spec(tokens, width);
        if no_empty_token(tokens) {
            assert forall|i: int| 0 <= i < shorter.len() implies (#[trigger] shorter[i]).text.len()
                > 0 by {
                assert(tokens[i].text.len() > 0);
            }
            assert forall|i: int| 0 <= i < state.lines.len() implies no_empty_token(
                #[trigger] state.lines[i],
            ) by {
                if i < before.lines.len() {
                    assert(state.lines[i] == before.lines[i]);
                }
            }
        }
        if all_narrow(tokens) {
            assert forall|i: int| 0 <= i < shorter.len() implies is_narrow(#[trigger] shorter[i]) by {
                assert(is_narrow(tokens[i]));
            }
            assert forall|i: int| 0 <= i < state.lines.len() implies all_narrow(
                #[trigger] state.lines[i],
            ) by {
                if i < before.lines.len() {
                    assert(state.lines[i] == before.lines[i]);
                }
            }
        }
    }
}

proof fn lemma_token_lines_hold(tokens: Seq<TokenView>, width: nat, i: int)
    requires
        0 <= i < token_lines(tokens, width).len(),
    ensures
        no_empty_token(tokens) ==> no_empty_token(token_lines(tokens, width)[i]),
        all_narrow(tokens) ==> all_narrow(token_lines(tokens, width)[i]),
{
    lemma_layout_holds(tokens, width);
    let state = layout_spec(tokens, width);
    if i < state.lines.len() {
        assert(token_lines(tokens, width)[i] == state.lines[i]);
    }
}

proof fn lemma_spans_of_line(line: Seq<TokenView>)
    requires
        no_empty_token(line),
    ensures
        forall|j: int| 0 <= j < line_spans(line).len() ==> (#[trigger] line_spans(line)[j]).text.len()
            > 0,
        line.len() > 0 ==> plain_spec(line_spans(line)).len() > 0 && plain_spec(line_spans(line))[0]
            == line[0].text[0],
        all_narrow(line) ==> plain_spec(line_spans(line)).len() == total_width(line),
        line.len() == 1 ==> line_spans(line) == seq![
            SpanView { text: line[0].text, style: line[0].style },
        ] && plain_spec(line_spans(line)) == line[0].text,
    decreases line.len(),
{
    if line.len() > 0 {
        let front = line.drop_last();
        let span = SpanView { text: line.last().text, style: line.last().style };
        assert forall|i: int| 0 <= i < front.len() implies (#[trigger] front[i]).text.len() > 0 by {
            assert(line[i].text.len() > 0);
        }
        lemma_spans_of_line(front);
        law_merge_push(line_spans(front), span);
        assert(line[line.len() - 1].text.len() > 0);
        if all_narrow(line) {
            assert forall|i: int| 0 <= i < front.len() implies is_narrow(#[trigger] front[i]) by {
                assert(is_narrow(line[i]));
            }
            assert(is_narrow(line[line.len() - 1]));
        }
        if line.len() == 1 {
            assert(line_spans(front) =~= Seq::empty());
            assert(line_spans(line) =~= seq![span]);
            assert(plain_spec(line_spans(line)) =~= line[0].text);
        } else {
            assert(front[0] == line[0]);
        }
    }
}

/// No span of a wrapped line is empty.
pub proof fn law_no_wrapped_span_is_empty(tokens: Seq<TokenView>, width: nat)
    requires
        no_empty_token(tokens),
    ensures
        no_empty_span(lines_spans(token_lines(tokens, width))),
{
    let lines = token_lines(tokens, width);
    let out = lines_spans(lines);
    assert forall|i: int, j: int| 0 <= i < out.len() && 0 <= j < out[i].len() implies (
    #[trigger] out[i][j]).text.len() > 0 by {
        lemma_token_lines_hold(tokens, width, i);
        lemma_spans_of_line(lines[i]);
        assert(out[i] == line_spans(lines[i]));
    }
}

/// Where every character takes one column, a wrapped line has at most `width` characters or is one
/// word, and starts with no space.
pub proof fn law_narrow_lines_are_tidy(tokens: Seq<TokenView>, width: nat)
    requires
        no_empty_token(tokens),
        all_narrow(tokens),
    ensures
        forall|i: int|
            0 <= i < lines_spans(token_lines(tokens, width)).len() ==> is_tidy(
                #[trigger] lines_spans(token_lines(tokens, width))[i],
                width,
            ),
{
    let lines = token_lines(tokens, width);
    let out = lines_spans(lines);
    law_wrapped_lines_fit(tokens, width);
    law_wrapped_lines_start_with_ink(tokens, width);
    assert forall|i: int| 0 <= i < out.len() implies is_tidy(#[trigger] out[i], width) by {
        let line = lines[i];
        lemma_token_lines_hold(tokens, width, i);
        lemma_spans_of_line(line);
        assert(out[i] == line_spans(line));
        assert(line_fits(line, width));
        if line.len() > 0 {
            assert(is_narrow(line[0]));
            assert(!line[0].blank);
            assert(line[0].text.len() > 0);
            assert(line[0].text[0] != ' ');
            if line.len() == 1 {
                let text = plain_spec(out[i]);
                if text.contains(' ') {
                    let k = text.index_of(' ');
                    assert(line[0].text[k] == ' ');
                }
            }
        }
    }
}

/// Lines are filled from left to right: a line ends only where the next token does not fit behind
/// it, a visible token always stands at the end of the line that is being filled, and a token
/// that fits behind others stays with them, blanks between words as they are.
pub proof fn law_lines_end_only_when_full(tokens: Seq<TokenView>, token: TokenView, width: nat)
    ensures
        ({
            let before = layout_spec(tokens, width);
            let after = layout_spec(tokens.push(token), width);
            let used = total_width(before.current);
            &&& after.lines.len() == before.lines.len() || after.lines == before.lines.push(
                before.current,
            )
            &&& after.lines.len() > before.lines.len() ==> used + token.width > width
            &&& after.lines.len() == before.lines.len() ==> after.lines == before.lines
            &&& !token.blank ==> after.current.len() > 0 && after.current.last() == token
            &&& used > 0 && used + token.width <= width ==> after.current == before.current.push(
                token,
            )
            &&& used > 0 && used + token.width > width ==> after.lines.len() == before.lines.len()
                + 1 && after.current.len() <= 1
            &&& used == 0 && token.blank ==> after == before
        }),
{
    assert(tokens.push(token).drop_last() =~= tokens);
    let before = layout_spec(tokens, width);
    if before.current.len() == 0 {
        assert(total_width(before.current) == 0);
    }
}

proof fn lemma_one_line(tokens: Seq<TokenView>, width: nat)
    requires
        tokens.len() > 0,
        !tokens[0].blank,
        tokens[0].width > 0,
        total_width(tokens) <= width,
    ensures
        layout_spec(tokens, width) == (LayoutView { lines: Seq::empty(), current: tokens }),
    decreases tokens.len(),
{
    let front = tokens.drop_last();
    if front.len() == 0 {
        reveal_with_fuel(total_width, 2);
        assert(layout_spec(front, width) == (LayoutView {
            lines: Seq::empty(),
            current: Seq::empty(),
        }));
        assert(Seq::<TokenView>::empty().push(tokens.last()) =~= tokens);
    } else {
        lemma_one_line(front, width);
        lemma_first_counts(front);
        assert(front.push(tokens.last()) =~= tokens);
    }
}

proof fn lemma_first_counts(tokens: Seq<TokenView>)
    requires
        tokens.len() > 0,
        tokens[0].width > 0,
    ensures
        total_width(tokens) > 0,
    decreases tokens.len(),
{
    if tokens.len() > 1 {
        lemma_first_counts(tokens.drop_last());
    }
}

/// Text that starts with something visible and fits into one line is that line: nothing of it
/// changes, neither the spaces between its words nor the looks of a character.
pub proof fn law_short_text_stays_as_it_is(segments: Seq<SpanView>, width: nat)
    requires
        width > 0,
        forall|i: int| 0 <= i < segments.len() ==> clusters_are_cut(#[trigger] segments[i]),
        tokens_spec(segments).len() > 0,
        !tokens_spec(segments)[0].blank,
        tokens_spec(segments)[0].width > 0,
        total_width(tokens_spec(segments)) <= width,
    ensures
        wrap_spec(segments, width).len() == 1,
        styled_chars(wrap_spec(segments, width)[0]) == styled_chars(segments),
        plain_spec(wrap_spec(segments, width)[0]) == plain_spec(segments),
{
    let tokens = tokens_spec(segments);
    lemma_one_line(tokens, width);
    assert(Seq::<Seq<TokenView>>::empty().push(tokens) =~= seq![tokens]);
    assert(token_lines(tokens, width) =~= seq![tokens]);
    law_tokens_keep_text(segments);
    lemma_line_spans_chars(tokens);
    lemma_letters_of_spans(segments);
    lemma_letters_of_spans(wrap_spec(segments, width)[0]);
}

} // verus!
