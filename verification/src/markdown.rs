//! The subset of markdown that a chat answer uses: one block per source line, and styled spans
//! within a line.

use crate::text::{
    contains_char, find, find_char, find_char_spec, find_spec, from_chars, is_ascii_digit,
    is_ascii_digit_spec, is_blank, is_white_space_spec, law_split_concat,
    law_trim_start_keeps_the_rest, law_trim_takes_white_space, lemma_find_char_from,
    lemma_find_from, lemma_trim_end_prefix, lemma_trim_start, occurs_at, prefix, repeat_spec,
    split_on, split_spec, starts_with, str_eq, strip_prefix, strip_prefix_spec, suffix, to_chars,
    trim_end, trim_end_spec, trim_start, trim_start_spec,
};
use vstd::prelude::*;

verus! {

// ─── Inline spans ────────────────────────────────────────────────────────────

/// Inline text style.
///
/// Only the four styles that a narrow terminal panel renders cleanly. Strikethrough becomes plain
/// text (the content stays, the markers go); a link keeps its visible label and drops the URL.
#[derive(Clone, Copy, PartialEq, Eq, Debug, Structural)]
pub enum InlineStyle {
    Plain,
    Bold,
    Italic,
    Code,
}

/// A run of text in one style.
#[derive(Debug)]
pub struct InlineSpan {
    pub text: String,
    pub style: InlineStyle,
}

/// What an [`InlineSpan`] holds.
#[verifier::ext_equal]
pub struct SpanView {
    pub text: Seq<char>,
    pub style: InlineStyle,
}

impl DeepView for InlineSpan {
    type V = SpanView;

    open spec fn deep_view(&self) -> SpanView {
        SpanView { text: self.text@, style: self.style }
    }
}

impl Clone for InlineSpan {
    fn clone(&self) -> (r: InlineSpan)
        ensures
            r.deep_view() == self.deep_view(),
    {
        InlineSpan { text: self.text.clone(), style: self.style }
    }
}

/// `spans` with `span` behind them: an empty span changes nothing, and one in the style of the
/// last span is merged into it.
pub open spec fn merge_spec(spans: Seq<SpanView>, span: SpanView) -> Seq<SpanView> {
    if span.text.len() == 0 {
        spans
    } else if spans.len() > 0 && spans.last().style == span.style {
        spans.drop_last().push(
            SpanView { text: spans.last().text + span.text, style: span.style },
        )
    } else {
        spans.push(span)
    }
}

/// Append `span` to `out`, merging it with the last span where the styles match.
pub fn merge_push(out: &mut Vec<InlineSpan>, span: InlineSpan)
    ensures
        final(out).deep_view() == merge_spec(old(out).deep_view(), span.deep_view()),
{
    let ghost before = out.deep_view();
    if span.text.as_str().is_empty() {
        return ;
    }
    let n: usize = out.len();
    if n > 0 {
        if out[n - 1].style == span.style {
            let ghost given = span.deep_view();
            assert(before.last() == out@[n - 1].deep_view());
            let mut last: InlineSpan = out.pop().unwrap();
            last.text.append(span.text.as_str());
            assert(out.deep_view() =~= before.drop_last());
            let ghost shorter = out.deep_view();
            out.push(last);
            assert(out.deep_view() =~= shorter.push(last.deep_view()));
            assert(out.deep_view() =~= merge_spec(before, given));
            return ;
        }
        assert(before.last() == out@[n - 1].deep_view());
    }
    let ghost given = span.deep_view();
    out.push(span);
    assert(out.deep_view() =~= before.push(given));
}

/// `(inner, rest)` where `s` is `delim`, `inner`, `delim` and `rest`, with the closing delimiter
/// the first one, and `inner` neither empty nor over several lines.
pub open spec fn match_paired_spec(s: Seq<char>, delim: Seq<char>) -> Option<
    (Seq<char>, Seq<char>),
> {
    match strip_prefix_spec(s, delim) {
        None => None,
        Some(after_open) => match find_spec(after_open, delim) {
            None => None,
            Some(close) => if close == 0 || after_open.take(close).contains('\n') {
                None
            } else {
                Some((after_open.take(close), after_open.skip(close + delim.len())))
            },
        },
    }
}

/// If `s` starts with `delim`, find the matching closing `delim` on the same line and return
/// `(inner, rest_after)`. There is none for empty content or where the closer is missing.
pub fn match_paired<'a>(s: &'a str, delim: &str) -> (r: Option<(&'a str, &'a str)>)
    ensures
        match r {
            Some((inner, rest)) => match_paired_spec(s@, delim@) == Some((inner@, rest@)),
            None => match_paired_spec(s@, delim@) is None,
        },
{
    match strip_prefix(s, delim) {
        None => None,
        Some(after_open) => match find(after_open, delim) {
            None => None,
            Some(close) => {
                if close == 0 {
                    return None;
                }
                let inner: &'a str = prefix(after_open, close);
                if contains_char(inner, '\n') {
                    return None;
                }
                Some((inner, suffix(after_open, close + delim.unicode_len())))
            },
        },
    }
}

/// The first index from `i` on at which `delim` stands alone, pairs of it being skipped.
pub open spec fn lone_delim_from(s: Seq<char>, delim: char, i: int) -> Option<int>
    decreases s.len() - i,
{
    if i < 0 || i >= s.len() {
        None
    } else if s[i] != delim {
        lone_delim_from(s, delim, i + 1)
    } else if i + 1 < s.len() && s[i + 1] == delim {
        lone_delim_from(s, delim, i + 2)
    } else {
        Some(i)
    }
}

/// `(inner, rest)` where `s` is `delim`, `inner`, `delim` and `rest`, with the closing delimiter
/// the first that is not one of a pair, and `inner` neither empty nor over several lines.
pub open spec fn match_single_italic_spec(s: Seq<char>, delim: char) -> Option<
    (Seq<char>, Seq<char>),
> {
    if s.len() == 0 || s[0] != delim {
        None
    } else {
        let after_open = s.drop_first();
        match lone_delim_from(after_open, delim, 0) {
            None => None,
            Some(close) => if close == 0 || after_open.take(close).contains('\n') {
                None
            } else {
                Some((after_open.take(close), after_open.skip(close + 1)))
            },
        }
    }
}

/// Match `*italic*` where the closing `*` is not immediately followed by another `*` (that would
/// be a bold opener).
pub fn match_single_italic(s: &str, delim: char) -> (r: Option<(&str, &str)>)
    ensures
        match r {
            Some((inner, rest)) => match_single_italic_spec(s@, delim) == Some((inner@, rest@)),
            None => match_single_italic_spec(s@, delim) is None,
        },
{
    let chars: Vec<char> = to_chars(s);
    if chars.len() == 0 || chars[0] != delim {
        return None;
    }
    let after_open: &str = suffix(s, 1);
    let ghost rest = after_open@;
    assert(rest =~= s@.drop_first());
    let mut i: usize = 1;
    while i < chars.len()
        invariant
            1 <= i <= chars.len(),
            chars@ == s@,
            s@.len() > 0,
            s@[0] == delim,
            after_open@ == rest,
            rest == s@.drop_first(),
            lone_delim_from(rest, delim, 0) == lone_delim_from(rest, delim, i - 1),
        decreases chars.len() - i,
    {
        if chars[i] != delim {
            i += 1;
        } else if i + 1 < chars.len() && chars[i + 1] == delim {
            i += 2;
        } else {
            if i == 1 {
                return None;
            }
            let inner: &str = prefix(after_open, i - 1);
            if contains_char(inner, '\n') {
                return None;
            }
            return Some((inner, suffix(after_open, i)));
        }
    }
    None
}

/// `(label, rest)` where `s` is `[`, `label`, `](`, a URL, `)` and `rest`, with the label free of
/// brackets and nothing of it over several lines.
pub open spec fn match_link_spec(s: Seq<char>) -> Option<(Seq<char>, Seq<char>)> {
    if s.len() == 0 || s[0] != '[' {
        None
    } else {
        let after_open = s.drop_first();
        match find_char_spec(after_open, ']') {
            None => None,
            Some(close_label) => {
                let label = after_open.take(close_label);
                let after_label = after_open.skip(close_label + 1);
                if label.contains('\n') || label.contains('[') || after_label.len() == 0
                    || after_label[0] != '(' {
                    None
                } else {
                    let after_paren = after_label.drop_first();
                    match find_char_spec(after_paren, ')') {
                        None => None,
                        Some(close_paren) => if after_paren.take(close_paren).contains('\n') {
                            None
                        } else {
                            Some((label, after_paren.skip(close_paren + 1)))
                        },
                    }
                }
            },
        }
    }
}

/// Whether `s` starts with the character `c`.
fn starts_with_char(s: &str, c: char) -> (r: bool)
    ensures
        r == (s@.len() > 0 && s@[0] == c),
{
    !s.is_empty() && s.get_char(0) == c
}

/// Match `[label](url)`, returning `(label, rest_after)`. Nested brackets and content over
/// several lines are rejected.
pub fn match_link(s: &str) -> (r: Option<(&str, &str)>)
    ensures
        match r {
            Some((label, rest)) => match_link_spec(s@) == Some((label@, rest@)),
            None => match_link_spec(s@) is None,
        },
{
    if !starts_with_char(s, '[') {
        return None;
    }
    let after_open: &str = suffix(s, 1);
    assert(after_open@ =~= s@.drop_first());
    match find_char(after_open, ']') {
        None => None,
        Some(close_label) => {
            let label: &str = prefix(after_open, close_label);
            if contains_char(label, '\n') || contains_char(label, '[') {
                return None;
            }
            let after_label: &str = suffix(after_open, close_label + 1);
            if !starts_with_char(after_label, '(') {
                return None;
            }
            let after_paren: &str = suffix(after_label, 1);
            assert(after_paren@ =~= after_label@.drop_first());
            match find_char(after_paren, ')') {
                None => None,
                Some(close_paren) => {
                    if contains_char(prefix(after_paren, close_paren), '\n') {
                        return None;
                    }
                    Some((label, suffix(after_paren, close_paren + 1)))
                },
            }
        },
    }
}

/// What the front of a line is: its visible text, the style of that text, and the rest of the
/// line.
#[verifier::ext_equal]
pub struct InlineStep {
    pub text: Seq<char>,
    pub style: InlineStyle,
    pub rest: Seq<char>,
}

/// Whether a single star at the front of `s` may open emphasis: it is not one of a pair, and
/// neither a space nor a tab follows it.
pub open spec fn opens_italic(s: Seq<char>) -> bool {
    &&& s.len() > 0
    &&& s[0] == '*'
    &&& !(s.len() > 1 && (s[1] == '*' || s[1] == ' ' || s[1] == '\t'))
}

pub open spec fn step_of(found: Option<(Seq<char>, Seq<char>)>, style: InlineStyle) -> Option<
    InlineStep,
> {
    match found {
        Some((text, rest)) => Some(InlineStep { text, style, rest }),
        None => None,
    }
}

/// The first element at the front of a line that is not empty. The markers are tried in a fixed
/// order; where none matches, the element is the first character.
pub open spec fn inline_step(s: Seq<char>) -> InlineStep {
    if match_paired_spec(s, "**"@) is Some {
        step_of(match_paired_spec(s, "**"@), InlineStyle::Bold).unwrap()
    } else if match_paired_spec(s, "__"@) is Some {
        step_of(match_paired_spec(s, "__"@), InlineStyle::Bold).unwrap()
    } else if match_paired_spec(s, "`"@) is Some {
        step_of(match_paired_spec(s, "`"@), InlineStyle::Code).unwrap()
    } else if match_paired_spec(s, "~~"@) is Some {
        step_of(match_paired_spec(s, "~~"@), InlineStyle::Plain).unwrap()
    } else if opens_italic(s) && match_single_italic_spec(s, '*') is Some {
        step_of(match_single_italic_spec(s, '*'), InlineStyle::Italic).unwrap()
    } else if match_link_spec(s) is Some {
        step_of(match_link_spec(s), InlineStyle::Plain).unwrap()
    } else {
        InlineStep { text: seq![s[0]], style: InlineStyle::Plain, rest: s.drop_first() }
    }
}

/// The spans of `s` behind the spans `out`.
pub open spec fn tokenize_onto(s: Seq<char>, out: Seq<SpanView>) -> Seq<SpanView>
    decreases s.len(),
{
    if s.len() == 0 {
        out
    } else {
        let step = inline_step(s);
        proof {
            lemma_inline_step(s);
        }
        tokenize_onto(step.rest, merge_spec(out, SpanView { text: step.text, style: step.style }))
    }
}

/// The spans of one line.
pub open spec fn tokenize_spec(s: Seq<char>) -> Seq<SpanView> {
    tokenize_onto(s, Seq::empty())
}

/// Whether `part` is `whole` with some characters left out.
pub open spec fn is_subsequence(part: Seq<char>, whole: Seq<char>) -> bool
    decreases whole.len(),
{
    if part.len() == 0 {
        true
    } else if whole.len() == 0 {
        false
    } else if part.last() == whole.last() {
        is_subsequence(part.drop_last(), whole.drop_last())
    } else {
        is_subsequence(part, whole.drop_last())
    }
}

/// The shape of an element: the line is some markers, the visible text, some more, and the rest.
pub open spec fn step_shape(s: Seq<char>, step: InlineStep) -> bool {
    exists|open: Seq<char>, close: Seq<char>|
        s == #[trigger] (open + step.text + close) + step.rest && (open + step.text + close).len()
            > 0
}

proof fn lemma_match_paired_shape(s: Seq<char>, delim: Seq<char>)
    requires
        match_paired_spec(s, delim) is Some,
    ensures
        ({
            let (inner, rest) = match_paired_spec(s, delim).unwrap();
            s == delim + inner + delim + rest && inner.len() > 0
        }),
{
    let after_open = s.skip(delim.len() as int);
    lemma_find_from(after_open, delim, 0);
    let close = find_spec(after_open, delim).unwrap();
    assert(after_open.subrange(close, close + delim.len()) == delim);
    assert(s.subrange(0, delim.len() as int) == delim);
    assert forall|i: int| 0 <= i < delim.len() implies #[trigger] delim[i] == after_open[close
        + i] by {
        assert(after_open.subrange(close, close + delim.len())[i] == after_open[close + i]);
    }
    assert(s =~= delim + after_open.take(close) + delim + after_open.skip(close + delim.len()));
}

proof fn lemma_lone_delim(s: Seq<char>, delim: char, i: int)
    requires
        0 <= i,
    ensures
        lone_delim_from(s, delim, i) matches Some(k) ==> i <= k < s.len() && s[k] == delim,
    decreases s.len() - i,
{
    if i < s.len() {
        if s[i] != delim {
            lemma_lone_delim(s, delim, i + 1);
        } else if i + 1 < s.len() && s[i + 1] == delim {
            lemma_lone_delim(s, delim, i + 2);
        }
    }
}

proof fn lemma_step_shape(
    s: Seq<char>,
    step: InlineStep,
    open: Seq<char>,
    close: Seq<char>,
)
    requires
        s =~= (open + step.text + close) + step.rest,
        (open + step.text + close).len() > 0,
    ensures
        step_shape(s, step),
        step.rest.len() < s.len(),
{
}

proof fn lemma_link_shape(s: Seq<char>, step: InlineStep)
    requires
        step_of(match_link_spec(s), InlineStyle::Plain) == Some(step),
    ensures
        step_shape(s, step),
        step.rest.len() < s.len(),
{
    let after_open = s.drop_first();
    lemma_find_char_from(after_open, ']', 0);
    let close_label = find_char_spec(after_open, ']').unwrap();
    let after_label = after_open.skip(close_label + 1);
    let after_paren = after_label.drop_first();
    lemma_find_char_from(after_paren, ')', 0);
    let close_paren = find_char_spec(after_paren, ')').unwrap();
    let tail = seq![']', '('] + after_paren.take(close_paren) + seq![')'];
    assert(after_paren =~= after_paren.take(close_paren) + seq![')'] + step.rest);
    assert(after_label =~= seq!['('] + after_paren);
    assert(after_open =~= step.text + seq![']'] + after_label);
    assert(s =~= seq!['['] + after_open);
    assert(s =~= (seq!['['] + step.text + tail) + step.rest);
    lemma_step_shape(s, step, seq!['['], tail);
}

/// Every element of a line takes at least one character, and its visible text stands in the
/// line.
pub proof fn lemma_inline_step(s: Seq<char>)
    requires
        s.len() > 0,
    ensures
        inline_step(s).rest.len() < s.len(),
        step_shape(s, inline_step(s)),
{
    let step = inline_step(s);
    if match_paired_spec(s, "**"@) is Some {
        lemma_match_paired_shape(s, "**"@);
        lemma_step_shape(s, step, "**"@, "**"@);
    } else if match_paired_spec(s, "__"@) is Some {
        lemma_match_paired_shape(s, "__"@);
        lemma_step_shape(s, step, "__"@, "__"@);
    } else if match_paired_spec(s, "`"@) is Some {
        lemma_match_paired_shape(s, "`"@);
        lemma_step_shape(s, step, "`"@, "`"@);
    } else if match_paired_spec(s, "~~"@) is Some {
        lemma_match_paired_shape(s, "~~"@);
        lemma_step_shape(s, step, "~~"@, "~~"@);
    } else if opens_italic(s) && match_single_italic_spec(s, '*') is Some {
        lemma_lone_delim(s.drop_first(), '*', 0);
        lemma_step_shape(s, step, seq!['*'], seq!['*']);
    } else if match_link_spec(s) is Some {
        lemma_link_shape(s, step);
    } else {
        lemma_step_shape(s, step, Seq::empty(), Seq::empty());
    }
}

/// Walk a single line and split it into styled spans. Pairs are matched greedily from left to
/// right; an opener without a closer is literal text.
pub fn tokenize_inline(text: &str) -> (out: Vec<InlineSpan>)
    ensures
        out.deep_view() == tokenize_spec(text@),
{
    let mut out: Vec<InlineSpan> = Vec::new();
    let mut rest: &str = text;
    assert(out.deep_view() =~= Seq::empty());
    while !rest.is_empty()
        invariant
            tokenize_spec(text@) == tokenize_onto(rest@, out.deep_view()),
        decreases rest@.len(),
    {
        let ghost whole = rest@;
        let ghost before = out.deep_view();
        proof {
            lemma_inline_step(whole);
        }
        let (piece, style, after) = front_element(rest);
        let span: InlineSpan = InlineSpan { text: piece, style };
        merge_push(&mut out, span);
        rest = after;
    }
    out
}

/// The element at the front of a line: its visible text, its style, and the rest of the line.
fn front_element<'a>(rest: &'a str) -> (r: (String, InlineStyle, &'a str))
    requires
        rest@.len() > 0,
    ensures
        inline_step(rest@) == (InlineStep { text: r.0@, style: r.1, rest: r.2@ }),
{
    match match_paired(rest, "**") {
        Some((inner, after)) => {
            return (inner.to_string(), InlineStyle::Bold, after);
        },
        None => {},
    }
    match match_paired(rest, "__") {
        Some((inner, after)) => {
            return (inner.to_string(), InlineStyle::Bold, after);
        },
        None => {},
    }
    match match_paired(rest, "`") {
        Some((inner, after)) => {
            return (inner.to_string(), InlineStyle::Code, after);
        },
        None => {},
    }
    match match_paired(rest, "~~") {
        Some((inner, after)) => {
            return (inner.to_string(), InlineStyle::Plain, after);
        },
        None => {},
    }
    // A star before white space is usually a stray one, no emphasis.
    if rest.get_char(0) == '*' && !starts_with_char(suffix(rest, 1), '*') && !starts_with_char(
        suffix(rest, 1),
        ' ',
    ) && !starts_with_char(suffix(rest, 1), '\t') {
        match match_single_italic(rest, '*') {
            Some((inner, after)) => {
                return (inner.to_string(), InlineStyle::Italic, after);
            },
            None => {},
        }
    }
    match match_link(rest) {
        Some((label, after)) => {
            return (label.to_string(), InlineStyle::Plain, after);
        },
        None => {},
    }
    let mut one: String = String::new();
    one.push(rest.get_char(0));
    assert(one@ =~= seq![rest@[0]]);
    let after: &'a str = suffix(rest, 1);
    assert(after@ =~= rest@.drop_first());
    (one, InlineStyle::Plain, after)
}

/// The text of `spans`, without the styles.
pub open spec fn plain_spec(spans: Seq<SpanView>) -> Seq<char>
    decreases spans.len(),
{
    if spans.len() == 0 {
        Seq::empty()
    } else {
        plain_spec(spans.drop_last()) + spans.last().text
    }
}

/// The characters of a text, each with its style.
pub open spec fn text_in_style(text: Seq<char>, style: InlineStyle) -> Seq<(char, InlineStyle)> {
    Seq::new(text.len(), |i: int| (text[i], style))
}

/// The characters of `spans`, each with its style.
pub open spec fn styled_chars(spans: Seq<SpanView>) -> Seq<(char, InlineStyle)>
    decreases spans.len(),
{
    if spans.len() == 0 {
        Seq::empty()
    } else {
        styled_chars(spans.drop_last()) + text_in_style(spans.last().text, spans.last().style)
    }
}

/// The text of `segments`, without the styles.
pub fn segments_to_plain(segments: &Vec<InlineSpan>) -> (out: String)
    ensures
        out@ == plain_spec(segments.deep_view()),
{
    let mut out: String = String::new();
    let mut i: usize = 0;
    while i < segments.len()
        invariant
            i <= segments.len(),
            out@ == plain_spec(segments.deep_view().take(i as int)),
        decreases segments.len() - i,
    {
        out.append(segments[i].text.as_str());
        proof {
            let all = segments.deep_view();
            assert(all.take(i + 1).drop_last() =~= all.take(i as int));
        }
        i += 1;
    }
    proof {
        assert(segments.deep_view().take(segments.len() as int) =~= segments.deep_view());
    }
    out
}

// ─── Laws of the inline spans ────────────────────────────────────────────────

/// Spans without gaps: none is empty, and no two neighbours have one style.
pub open spec fn well_merged(spans: Seq<SpanView>) -> bool {
    &&& forall|i: int| 0 <= i < spans.len() ==> (#[trigger] spans[i]).text.len() > 0
    &&& forall|i: int, j: int|
        0 <= i && j == i + 1 && j < spans.len() ==> (#[trigger] spans[i]).style != (
        #[trigger] spans[j]).style
}

/// Appending a span keeps the spans well merged, and adds exactly its text, in its style.
pub proof fn law_merge_push(spans: Seq<SpanView>, span: SpanView)
    ensures
        plain_spec(merge_spec(spans, span)) == plain_spec(spans) + span.text,
        styled_chars(merge_spec(spans, span)) == styled_chars(spans) + text_in_style(
            span.text,
            span.style,
        ),
        well_merged(spans) ==> well_merged(merge_spec(spans, span)),
{
    let merged = merge_spec(spans, span);
    if span.text.len() == 0 {
        assert(plain_spec(spans) + span.text =~= plain_spec(spans));
        assert(styled_chars(spans) + text_in_style(span.text, span.style) =~= styled_chars(spans));
    } else if spans.len() > 0 && spans.last().style == span.style {
        assert(merged.drop_last() =~= spans.drop_last());
        assert(plain_spec(merged) =~= plain_spec(spans) + span.text);
        assert(styled_chars(merged) =~= styled_chars(spans) + text_in_style(span.text, span.style));
        if well_merged(spans) {
            assert forall|i: int, j: int| 0 <= i && j == i + 1 && j < merged.len() implies (
            #[trigger] merged[i]).style != (#[trigger] merged[j]).style by {
                assert(spans[i].style != spans[j].style);
            }
        }
    } else {
        assert(merged.drop_last() =~= spans);
        if well_merged(spans) {
            assert forall|i: int, j: int| 0 <= i && j == i + 1 && j < merged.len() implies (
            #[trigger] merged[i]).style != (#[trigger] merged[j]).style by {
                assert(merged[i] == spans[i]);
                if j < spans.len() {
                    assert(spans[i].style != spans[j].style);
                }
            }
        }
    }
}

proof fn lemma_subsequence_drop_last(part: Seq<char>, whole: Seq<char>)
    requires
        is_subsequence(part, whole),
        part.len() > 0,
    ensures
        is_subsequence(part.drop_last(), whole),
    decreases whole.len(), 0int,
{
    if part.last() == whole.last() {
        lemma_subsequence_push(part.drop_last(), whole.drop_last(), whole.last());
        assert(whole.drop_last().push(whole.last()) =~= whole);
    } else {
        lemma_subsequence_drop_last(part, whole.drop_last());
        lemma_subsequence_push(part.drop_last(), whole.drop_last(), whole.last());
        assert(whole.drop_last().push(whole.last()) =~= whole);
    }
}

proof fn lemma_subsequence_push(part: Seq<char>, whole: Seq<char>, c: char)
    requires
        is_subsequence(part, whole),
    ensures
        is_subsequence(part, whole.push(c)),
    decreases whole.len(), 1int,
{
    assert(whole.push(c).drop_last() =~= whole);
    if part.len() > 0 && part.last() == c {
        lemma_subsequence_drop_last(part, whole);
    }
}

proof fn lemma_subsequence_concat(a: Seq<char>, x: Seq<char>, b: Seq<char>, y: Seq<char>)
    requires
        is_subsequence(a, x),
        is_subsequence(b, y),
    ensures
        is_subsequence(a + b, x + y),
    decreases y.len(),
{
    if y.len() == 0 {
        assert(a + b =~= a);
        assert(x + y =~= x);
    } else {
        assert((x + y).drop_last() =~= x + y.drop_last());
        if b.len() == 0 {
            lemma_subsequence_concat(a, x, b, y.drop_last());
            lemma_subsequence_push(a + b, x + y.drop_last(), y.last());
            assert((x + y.drop_last()).push(y.last()) =~= x + y);
        } else if b.last() == y.last() {
            lemma_subsequence_concat(a, x, b.drop_last(), y.drop_last());
            assert((a + b).drop_last() =~= a + b.drop_last());
        } else {
            lemma_subsequence_concat(a, x, b, y.drop_last());
            assert((a + b).last() == b.last());
        }
    }
}

proof fn lemma_subsequence_of_itself(s: Seq<char>)
    ensures
        is_subsequence(s, s),
    decreases s.len(),
{
    if s.len() > 0 {
        lemma_subsequence_of_itself(s.drop_last());
    }
}

proof fn lemma_tokenize_onto(s: Seq<char>, out: Seq<SpanView>, seen: Seq<char>)
    requires
        is_subsequence(plain_spec(out), seen),
        well_merged(out),
    ensures
        is_subsequence(plain_spec(tokenize_onto(s, out)), seen + s),
        well_merged(tokenize_onto(s, out)),
    decreases s.len(),
{
    if s.len() == 0 {
        assert(seen + s =~= seen);
    } else {
        lemma_inline_step(s);
        let step = inline_step(s);
        let span = SpanView { text: step.text, style: step.style };
        let (open, close) = choose|open: Seq<char>, close: Seq<char>|
            s == #[trigger] (open + step.text + close) + step.rest && (open + step.text
                + close).len() > 0;
        law_merge_push(out, span);
        let none = Seq::<char>::empty();
        lemma_subsequence_concat(plain_spec(out), seen, none, open);
        lemma_subsequence_of_itself(step.text);
        lemma_subsequence_concat(plain_spec(out) + none, seen + open, step.text, step.text);
        lemma_subsequence_concat(
            plain_spec(out) + none + step.text,
            seen + open + step.text,
            none,
            close,
        );
        assert(plain_spec(out) + none + step.text + none =~= plain_spec(out) + step.text);
        let seen2 = seen + open + step.text + close;
        lemma_tokenize_onto(step.rest, merge_spec(out, span), seen2);
        assert(seen2 + step.rest =~= seen + s);
    }
}

/// Tokenizing invents nothing and reorders nothing: the text of the spans is the line with some
/// characters (the markers and the URLs) left out. The spans are well merged.
pub proof fn law_tokenize_keeps_text(s: Seq<char>)
    ensures
        is_subsequence(plain_spec(tokenize_spec(s)), s),
        well_merged(tokenize_spec(s)),
{
    lemma_tokenize_onto(s, Seq::empty(), Seq::empty());
    assert(Seq::<char>::empty() + s =~= s);
}

/// Whether `c` can start a marker.
pub open spec fn is_marker(c: char) -> bool {
    c == '*' || c == '_' || c == '`' || c == '~' || c == '['
}

proof fn lemma_no_marker_step(s: Seq<char>)
    requires
        s.len() > 0,
        !is_marker(s[0]),
    ensures
        inline_step(s) == (InlineStep {
            text: seq![s[0]],
            style: InlineStyle::Plain,
            rest: s.drop_first(),
        }),
{
    reveal_strlit("**");
    reveal_strlit("__");
    reveal_strlit("`");
    reveal_strlit("~~");
    lemma_other_front(s, "**"@);
    lemma_other_front(s, "__"@);
    lemma_other_front(s, "`"@);
    lemma_other_front(s, "~~"@);
}

proof fn lemma_other_front(s: Seq<char>, delim: Seq<char>)
    requires
        s.len() > 0,
        delim.len() > 0,
        s[0] != delim[0],
    ensures
        match_paired_spec(s, delim) is None,
{
    if occurs_at(s, delim, 0) {
        assert(s.subrange(0, delim.len() as int)[0] == s[0]);
    }
}

proof fn lemma_no_marker(s: Seq<char>, out: Seq<SpanView>)
    requires
        forall|i: int| 0 <= i < s.len() ==> !is_marker(#[trigger] s[i]),
    ensures
        tokenize_onto(s, out) == merge_spec(out, SpanView { text: s, style: InlineStyle::Plain }),
    decreases s.len(),
{
    if s.len() > 0 {
        lemma_no_marker_step(s);
        lemma_inline_step(s);
        let one = SpanView { text: seq![s[0]], style: InlineStyle::Plain };
        let tail = SpanView { text: s.drop_first(), style: InlineStyle::Plain };
        let all = SpanView { text: s, style: InlineStyle::Plain };
        lemma_no_marker(s.drop_first(), merge_spec(out, one));
        let once = merge_spec(out, one);
        if s.len() == 1 {
            assert(seq![s[0]] =~= s);
        } else {
            assert(once.last().style == InlineStyle::Plain);
            if out.len() > 0 && out.last().style == InlineStyle::Plain {
                assert(once.drop_last() =~= out.drop_last());
                assert(out.last().text + seq![s[0]] + s.drop_first() =~= out.last().text + s);
            } else {
                assert(once.drop_last() =~= out);
                assert(seq![s[0]] + s.drop_first() =~= s);
            }
            assert(merge_spec(once, tail) =~= merge_spec(out, all));
        }
    }
}

/// A line without any marker is one plain span of the very same text.
pub proof fn law_no_marker_is_literal(s: Seq<char>)
    requires
        forall|i: int| 0 <= i < s.len() ==> !is_marker(#[trigger] s[i]),
    ensures
        tokenize_spec(s) == if s.len() == 0 {
            Seq::empty()
        } else {
            seq![SpanView { text: s, style: InlineStyle::Plain }]
        },
{
    lemma_no_marker(s, Seq::empty());
}

// ─── Blocks ──────────────────────────────────────────────────────────────────

/// A block of markdown: what one source line is.
#[derive(Debug)]
pub enum MdBlock {
    Blank,
    Paragraph(String),
    Heading { level: u8, text: String },
    Quote(String),
    ListItem { marker: String, text: String },
    CodeLine(String),
    Hr,
}

/// What an [`MdBlock`] holds.
#[verifier::ext_equal]
pub enum MdBlockView {
    Blank,
    Paragraph(Seq<char>),
    Heading { level: u8, text: Seq<char> },
    Quote(Seq<char>),
    ListItem { marker: Seq<char>, text: Seq<char> },
    CodeLine(Seq<char>),
    Hr,
}

impl DeepView for MdBlock {
    type V = MdBlockView;

    open spec fn deep_view(&self) -> MdBlockView {
        match self {
            MdBlock::Blank => MdBlockView::Blank,
            MdBlock::Paragraph(text) => MdBlockView::Paragraph(text@),
            MdBlock::Heading { level, text } => MdBlockView::Heading { level: *level, text: text@ },
            MdBlock::Quote(text) => MdBlockView::Quote(text@),
            MdBlock::ListItem { marker, text } => MdBlockView::ListItem {
                marker: marker@,
                text: text@,
            },
            MdBlock::CodeLine(text) => MdBlockView::CodeLine(text@),
            MdBlock::Hr => MdBlockView::Hr,
        }
    }
}

/// Whether `s` starts with `level` number signs and a space.
pub open spec fn has_heading_prefix(s: Seq<char>, level: int) -> bool {
    &&& s.len() > level
    &&& s[level] == ' '
    &&& forall|i: int| 0 <= i < level ==> s[i] == '#'
}

/// The level of an ATX heading, one to four, and its text. Five and more number signs count as
/// four.
pub open spec fn heading_spec(s: Seq<char>) -> Option<(u8, Seq<char>)> {
    if has_heading_prefix(s, 4) {
        Some((4u8, s.skip(5)))
    } else if has_heading_prefix(s, 3) {
        Some((3u8, s.skip(4)))
    } else if has_heading_prefix(s, 2) {
        Some((2u8, s.skip(3)))
    } else if has_heading_prefix(s, 1) {
        Some((1u8, s.skip(2)))
    } else if exists|n: int| n >= 5 && #[trigger] has_heading_prefix(s, n) {
        let n = choose|n: int| n >= 5 && #[trigger] has_heading_prefix(s, n);
        Some((4u8, s.skip(n + 1)))
    } else {
        None
    }
}

proof fn lemma_one_heading_prefix(s: Seq<char>, n: int, m: int)
    requires
        n >= 1,
        m >= 1,
        has_heading_prefix(s, n),
        has_heading_prefix(s, m),
    ensures
        n == m,
{
    if n < m {
        assert(s[n] == '#');
    } else if m < n {
        assert(s[m] == '#');
    }
}

/// A line of `n` number signs, a space and text is a heading of that text: of the level `n`, and
/// of the fourth where there are more than four.
pub proof fn law_heading_levels(s: Seq<char>, n: int)
    requires
        n >= 1,
        has_heading_prefix(s, n),
    ensures
        n <= 4 ==> heading_spec(s) == Some((n as u8, s.skip(n + 1))),
        n >= 5 ==> heading_spec(s) == Some((4u8, s.skip(n + 1))),
{
    assert forall|m: int| m >= 1 && #[trigger] has_heading_prefix(s, m) implies m == n by {
        lemma_one_heading_prefix(s, n, m);
    }
}

/// The level of a heading and its text.
pub fn parse_heading_prefix(s: &str) -> (r: Option<(u8, &str)>)
    ensures
        match r {
            Some((level, text)) => heading_spec(s@) == Some((level, text@)),
            None => heading_spec(s@) is None,
        },
{
    let chars: Vec<char> = to_chars(s);
    let mut pounds: usize = 0;
    while pounds < chars.len() && chars[pounds] == '#'
        invariant
            pounds <= chars.len(),
            chars@ == s@,
            forall|i: int| 0 <= i < pounds ==> s@[i] == '#',
        decreases chars.len() - pounds,
    {
        pounds += 1;
    }
    if 1 <= pounds && pounds < chars.len() && chars[pounds] == ' ' {
        proof {
            assert(has_heading_prefix(s@, pounds as int));
            law_heading_levels(s@, pounds as int);
        }
        let level: u8 = if pounds < 4 {
            pounds as u8
        } else {
            4
        };
        Some((level, suffix(s, pounds + 1)))
    } else {
        assert forall|k: int| 1 <= k implies !#[trigger] has_heading_prefix(s@, k) by {
            if has_heading_prefix(s@, k) {
                if k < pounds {
                    assert(s@[k] == '#');
                } else if k > pounds {
                    assert(s@[pounds as int] == '#');
                }
            }
        }
        None
    }
}

/// How many decimal digits stand at the front of `s`.
pub open spec fn leading_digits(s: Seq<char>) -> int
    decreases s.len(),
{
    if s.len() > 0 && is_ascii_digit_spec(s[0]) {
        1 + leading_digits(s.drop_first())
    } else {
        0
    }
}

proof fn lemma_leading_digits(s: Seq<char>, n: int)
    requires
        0 <= n <= s.len(),
        forall|i: int| 0 <= i < n ==> is_ascii_digit_spec(s[i]),
        n < s.len() ==> !is_ascii_digit_spec(s[n]),
    ensures
        leading_digits(s) == n,
    decreases n,
{
    if n > 0 {
        assert(is_ascii_digit_spec(s[0]));
        lemma_leading_digits(s.drop_first(), n - 1);
    }
}

/// The number (one to three digits) in front of `. `, and the text behind it.
pub open spec fn numbered_spec(s: Seq<char>) -> Option<(Seq<char>, Seq<char>)> {
    let end = leading_digits(s);
    if 1 <= end <= 3 && end + 1 < s.len() && s[end] == '.' && s[end + 1] == ' ' {
        Some((s.take(end), s.skip(end + 2)))
    } else {
        None
    }
}

/// The number of an ordered list item, and its text.
pub fn split_numbered_list(s: &str) -> (r: Option<(String, &str)>)
    ensures
        match r {
            Some((num, text)) => numbered_spec(s@) == Some((num@, text@)),
            None => numbered_spec(s@) is None,
        },
{
    let chars: Vec<char> = to_chars(s);
    let mut end: usize = 0;
    while end < chars.len() && is_ascii_digit(chars[end])
        invariant
            end <= chars.len(),
            chars@ == s@,
            forall|i: int| 0 <= i < end ==> is_ascii_digit_spec(s@[i]),
        decreases chars.len() - end,
    {
        end += 1;
    }
    proof {
        lemma_leading_digits(s@, end as int);
    }
    if end == 0 || end > 3 || chars.len() - end < 2 || chars[end] != '.' || chars[end + 1] != ' ' {
        return None;
    }
    let num: String = from_chars(&chars, 0, end);
    assert(num@ =~= s@.take(end as int));
    Some((num, suffix(s, end + 2)))
}

/// Whether `s` is three or more of the character `c`, and nothing else.
pub open spec fn is_rule_of(s: Seq<char>, c: char) -> bool {
    s.len() >= 3 && forall|i: int| 0 <= i < s.len() ==> s[i] == c
}

/// Whether `s` is a horizontal rule.
pub open spec fn is_rule_spec(s: Seq<char>) -> bool {
    is_rule_of(s, '-') || is_rule_of(s, '*') || is_rule_of(s, '_')
}

fn all_chars_are(chars: &Vec<char>, c: char) -> (r: bool)
    ensures
        r == (forall|i: int| 0 <= i < chars@.len() ==> chars@[i] == c),
{
    let mut i: usize = 0;
    while i < chars.len()
        invariant
            i <= chars.len(),
            forall|j: int| 0 <= j < i ==> chars@[j] == c,
        decreases chars.len() - i,
    {
        if chars[i] != c {
            return false;
        }
        i += 1;
    }
    true
}

fn is_rule(s: &str) -> (r: bool)
    ensures
        r == is_rule_spec(s@),
{
    let chars: Vec<char> = to_chars(s);
    chars.len() >= 3 && (all_chars_are(&chars, '-') || all_chars_are(&chars, '*')
        || all_chars_are(&chars, '_'))
}

/// Whether the line opens or closes a code fence.
pub open spec fn is_fence_spec(line: Seq<char>) -> bool {
    occurs_at(trim_start_spec(line), "```"@, 0) || occurs_at(trim_start_spec(line), "~~~"@, 0)
}

/// The text of an unordered list item.
pub open spec fn bullet_spec(s: Seq<char>) -> Option<Seq<char>> {
    if occurs_at(s, "- "@, 0) || occurs_at(s, "* "@, 0) || occurs_at(s, "+ "@, 0) {
        Some(s.skip(2))
    } else {
        None
    }
}

/// The block that a line outside a code fence is.
pub open spec fn block_spec(line: Seq<char>) -> MdBlockView {
    let s = trim_start_spec(line);
    if s.len() == 0 {
        MdBlockView::Blank
    } else if is_rule_spec(trim_end_spec(s)) {
        MdBlockView::Hr
    } else if heading_spec(s) is Some {
        let (level, text) = heading_spec(s).unwrap();
        MdBlockView::Heading { level, text }
    } else if occurs_at(s, "> "@, 0) {
        MdBlockView::Quote(s.skip(2))
    } else if s == seq!['>'] {
        MdBlockView::Quote(Seq::empty())
    } else if bullet_spec(s) is Some {
        MdBlockView::ListItem { marker: "• "@, text: bullet_spec(s).unwrap() }
    } else if numbered_spec(s) is Some {
        let (num, text) = numbered_spec(s).unwrap();
        MdBlockView::ListItem { marker: num + ". "@, text }
    } else {
        MdBlockView::Paragraph(s)
    }
}

/// Whether a code fence is open behind `lines`.
pub open spec fn fence_open(lines: Seq<Seq<char>>) -> bool
    decreases lines.len(),
{
    if lines.len() == 0 {
        false
    } else {
        fence_open(lines.drop_last()) != is_fence_spec(lines.last())
    }
}

/// The blocks of `lines`: one for each line that is no fence.
pub open spec fn blocks_spec(lines: Seq<Seq<char>>) -> Seq<MdBlockView>
    decreases lines.len(),
{
    if lines.len() == 0 {
        Seq::empty()
    } else {
        let before = blocks_spec(lines.drop_last());
        if is_fence_spec(lines.last()) {
            before
        } else if fence_open(lines.drop_last()) {
            before.push(MdBlockView::CodeLine(lines.last()))
        } else {
            before.push(block_spec(lines.last()))
        }
    }
}

/// The block of a line outside a code fence.
fn parse_block(line: &str) -> (r: MdBlock)
    ensures
        r.deep_view() == block_spec(line@),
{
    proof {
        reveal_strlit("> ");
        reveal_strlit(">");
        reveal_strlit("- ");
        reveal_strlit("* ");
        reveal_strlit("+ ");
        assert(">"@ =~= seq!['>']);
    }
    let s: &str = trim_start(line);
    if s.is_empty() {
        return MdBlock::Blank;
    }
    if is_rule(trim_end(s)) {
        return MdBlock::Hr;
    }
    match parse_heading_prefix(s) {
        Some((level, text)) => {
            return MdBlock::Heading { level, text: text.to_string() };
        },
        None => {},
    }
    match strip_prefix(s, "> ") {
        Some(rest) => {
            return MdBlock::Quote(rest.to_string());
        },
        None => {},
    }
    if str_eq(s, ">") {
        return MdBlock::Quote(String::new());
    }
    if starts_with(s, "- ") || starts_with(s, "* ") || starts_with(s, "+ ") {
        return MdBlock::ListItem { marker: "• ".to_string(), text: suffix(s, 2).to_string() };
    }
    match split_numbered_list(s) {
        Some((num, rest)) => {
            let mut marker: String = num;
            marker.append(". ");
            return MdBlock::ListItem { marker, text: rest.to_string() };
        },
        None => {},
    }
    MdBlock::Paragraph(s.to_string())
}

/// Split markdown source into one block per source line. Consecutive lines are not merged into
/// paragraphs, so that a stream of text shows line by line and hard breaks stay.
pub fn parse_markdown_blocks(content: &str) -> (out: Vec<MdBlock>)
    ensures
        out.deep_view() == blocks_spec(split_spec(content@, '\n')),
{
    let lines: Vec<String> = split_on(content, '\n');
    let mut out: Vec<MdBlock> = Vec::new();
    let mut in_fence: bool = false;
    let mut i: usize = 0;
    assert(out.deep_view() =~= Seq::empty());
    while i < lines.len()
        invariant
            i <= lines.len(),
            out.deep_view() == blocks_spec(lines.deep_view().take(i as int)),
            in_fence == fence_open(lines.deep_view().take(i as int)),
        decreases lines.len() - i,
    {
        let ghost shorter = lines.deep_view().take(i as int);
        let ghost longer = lines.deep_view().take(i + 1);
        let ghost before = out.deep_view();
        assert(longer.drop_last() =~= shorter);
        let line: &str = lines[i].as_str();
        assert(longer.last() == line@);
        let start: &str = trim_start(line);
        if starts_with(start, "```") || starts_with(start, "~~~") {
            in_fence = !in_fence;
        } else {
            let block: MdBlock = if in_fence {
                MdBlock::CodeLine(line.to_string())
            } else {
                parse_block(line)
            };
            let ghost added = block.deep_view();
            out.push(block);
            assert(out.deep_view() =~= before.push(added));
        }
        i += 1;
    }
    proof {
        assert(lines.deep_view().take(lines.len() as int) =~= lines.deep_view());
    }
    out
}

// ─── Laws of the blocks ──────────────────────────────────────────────────────

/// How many of `lines` are no fence.
pub open spec fn content_lines(lines: Seq<Seq<char>>) -> nat
    decreases lines.len(),
{
    if lines.len() == 0 {
        0
    } else {
        content_lines(lines.drop_last()) + if is_fence_spec(lines.last()) {
            0nat
        } else {
            1nat
        }
    }
}

/// There is one block for each source line that is no fence, and more source never changes the
/// blocks of the lines in front of it.
pub proof fn law_one_block_per_line(lines: Seq<Seq<char>>, more: Seq<Seq<char>>)
    ensures
        blocks_spec(lines).len() == content_lines(lines),
        blocks_spec(lines).is_prefix_of(blocks_spec(lines + more)),
    decreases lines.len() + more.len(),
{
    if more.len() > 0 {
        law_one_block_per_line(lines, more.drop_last());
        assert((lines + more).drop_last() =~= lines + more.drop_last());
    } else {
        assert(lines + more =~= lines);
        if lines.len() > 0 {
            law_one_block_per_line(lines.drop_last(), more);
        }
    }
}

proof fn lemma_blocks_of_two(a: Seq<Seq<char>>, b: Seq<Seq<char>>)
    requires
        !fence_open(a),
    ensures
        blocks_spec(a + b) == blocks_spec(a) + blocks_spec(b),
        fence_open(a + b) == fence_open(b),
    decreases b.len(),
{
    if b.len() == 0 {
        assert(a + b =~= a);
        assert(blocks_spec(a) + blocks_spec(b) =~= blocks_spec(a));
    } else {
        lemma_blocks_of_two(a, b.drop_last());
        assert((a + b).drop_last() =~= a + b.drop_last());
        assert(blocks_spec(a + b) =~= blocks_spec(a) + blocks_spec(b));
    }
}

/// The blocks of two texts with a line break between them are those of the one and then those of
/// the other, where every fence of the first is closed.
pub proof fn law_blocks_of_two_texts(a: Seq<char>, b: Seq<char>)
    requires
        !fence_open(split_spec(a, '\n')),
    ensures
        blocks_spec(split_spec(a.push('\n') + b, '\n')) == blocks_spec(split_spec(a, '\n'))
            + blocks_spec(split_spec(b, '\n')),
{
    law_split_concat(a, '\n', b);
    lemma_blocks_of_two(split_spec(a, '\n'), split_spec(b, '\n'));
}

/// Every line within a fence is a code line, with nothing of it changed.
pub proof fn law_fenced_lines_are_code(lines: Seq<Seq<char>>, line: Seq<char>)
    requires
        fence_open(lines),
        !is_fence_spec(line),
    ensures
        blocks_spec(lines.push(line)) == blocks_spec(lines).push(MdBlockView::CodeLine(line)),
        fence_open(lines.push(line)),
{
    assert(lines.push(line).drop_last() =~= lines);
}

/// A line that starts with something other than a rule, seen from its first character.
proof fn lemma_no_rule(s: Seq<char>)
    requires
        s.len() > 0,
        s[0] != '-' && s[0] != '*' && s[0] != '_' || s.len() >= 2 && s[0] != s[1],
    ensures
        !is_rule_spec(trim_end_spec(s)),
{
    lemma_trim_end_prefix(s);
    let t = trim_end_spec(s);
    if t.len() >= 3 {
        assert(t[0] == s[0] && t[1] == s[1]);
    }
}

proof fn lemma_no_heading(s: Seq<char>)
    requires
        s.len() > 0,
        s[0] != '#',
    ensures
        heading_spec(s) is None,
{
    assert forall|n: int| n >= 1 implies !#[trigger] has_heading_prefix(s, n) by {}
}

/// `pat` of two characters stands at the front of `s`.
proof fn lemma_two_in_front(s: Seq<char>, pat: Seq<char>)
    requires
        pat.len() == 2,
    ensures
        occurs_at(s, pat, 0) <==> s.len() >= 2 && s[0] == pat[0] && s[1] == pat[1],
{
    if s.len() >= 2 {
        assert(s.subrange(0, 2)[0] == s[0] && s.subrange(0, 2)[1] == s[1]);
        if s[0] == pat[0] && s[1] == pat[1] {
            assert(s.subrange(0, 2) =~= pat);
        }
    }
}

/// A line of one to three digits, a full stop, a space and some text, behind any white space, is
/// an item of a numbered list: its marker is the number with the full stop and the space, and its
/// text is what stands behind them. Put together again they are the line without its leading
/// white space.
pub proof fn law_numbered_items(indent: Seq<char>, digits: Seq<char>, text: Seq<char>)
    requires
        is_blank(indent),
        1 <= digits.len() <= 3,
        forall|i: int| 0 <= i < digits.len() ==> is_ascii_digit_spec(#[trigger] digits[i]),
    ensures
        block_spec(indent + (digits + ". "@ + text)) == (MdBlockView::ListItem {
            marker: digits + ". "@,
            text,
        }),
{
    reveal_strlit(". ");
    reveal_strlit("> ");
    reveal_strlit("- ");
    reveal_strlit("* ");
    reveal_strlit("+ ");
    assert(". "@.len() == 2 && ". "@[0] == '.' && ". "@[1] == ' ');
    let s = digits + ". "@ + text;
    let n = digits.len() as int;
    assert(is_ascii_digit_spec(digits[0]));
    assert(s[0] == digits[0]);
    lemma_behind_indent(indent, s);
    lemma_no_rule(s);
    lemma_no_heading(s);
    lemma_two_in_front(s, "> "@);
    lemma_two_in_front(s, "- "@);
    lemma_two_in_front(s, "* "@);
    lemma_two_in_front(s, "+ "@);
    assert forall|i: int| 0 <= i < n implies is_ascii_digit_spec(s[i]) by {
        assert(is_ascii_digit_spec(digits[i]));
    }
    assert(s[n] == '.' && s[n + 1] == ' ');
    lemma_leading_digits(s, n);
    assert(s.take(n) =~= digits);
    assert(s.skip(n + 2) =~= text);
}

/// What stands behind the white space at the start of a line.
proof fn lemma_behind_indent(indent: Seq<char>, s: Seq<char>)
    requires
        is_blank(indent),
        s.len() > 0,
        !is_white_space_spec(s[0]),
    ensures
        trim_start_spec(indent + s) == s,
{
    let whole = indent + s;
    assert forall|j: int| 0 <= j < indent.len() implies is_white_space_spec(whole[j]) by {
        assert(is_white_space_spec(indent[j]));
    }
    lemma_trim_start(whole, indent.len() as int);
    assert(whole.skip(indent.len() as int) =~= s);
}

/// A line of `-`, `*` or `+`, a space and some text, behind any white space, is an item of a list
/// with that text and a dot for its marker.
pub proof fn law_bullet_items(indent: Seq<char>, bullet: char, text: Seq<char>)
    requires
        is_blank(indent),
        bullet == '-' || bullet == '*' || bullet == '+',
    ensures
        block_spec(indent + (seq![bullet, ' '] + text)) == (MdBlockView::ListItem {
            marker: "• "@,
            text,
        }),
{
    reveal_strlit("> ");
    reveal_strlit("- ");
    reveal_strlit("* ");
    reveal_strlit("+ ");
    let s = seq![bullet, ' '] + text;
    assert(s[0] == bullet && s[1] == ' ');
    lemma_behind_indent(indent, s);
    lemma_no_rule(s);
    lemma_no_heading(s);
    lemma_two_in_front(s, "> "@);
    lemma_two_in_front(s, "- "@);
    lemma_two_in_front(s, "* "@);
    lemma_two_in_front(s, "+ "@);
    assert(s.skip(2) =~= text);
}

/// A line of `>`, a space and some text, behind any white space, quotes that text. A `>` alone
/// quotes an empty line.
pub proof fn law_quoted_lines(indent: Seq<char>, text: Seq<char>)
    requires
        is_blank(indent),
    ensures
        block_spec(indent + (seq!['>', ' '] + text)) == MdBlockView::Quote(text),
        block_spec(indent + seq!['>']) == MdBlockView::Quote(Seq::empty()),
{
    reveal_strlit("> ");
    let s = seq!['>', ' '] + text;
    assert(s[0] == '>' && s[1] == ' ');
    lemma_behind_indent(indent, s);
    lemma_no_rule(s);
    lemma_no_heading(s);
    lemma_two_in_front(s, "> "@);
    assert(s.skip(2) =~= text);
    let one = seq!['>'];
    lemma_behind_indent(indent, one);
    lemma_no_rule(one);
    lemma_no_heading(one);
    lemma_two_in_front(one, "> "@);
}

/// A line of some `#` signs, a space and some text, behind any white space, is a heading of that
/// text; its level is the number of signs, and four where there are more.
pub proof fn law_heading_lines(indent: Seq<char>, n: nat, text: Seq<char>)
    requires
        is_blank(indent),
        n >= 1,
    ensures
        block_spec(indent + (repeat_spec('#', n) + seq![' '] + text)) == (MdBlockView::Heading {
            level: if n <= 4 {
                n as u8
            } else {
                4u8
            },
            text,
        }),
{
    let s = repeat_spec('#', n) + seq![' '] + text;
    assert(s[0] == '#');
    lemma_behind_indent(indent, s);
    lemma_no_rule(s);
    assert(has_heading_prefix(s, n as int));
    law_heading_levels(s, n as int);
    assert(s.skip(n as int + 1) =~= text);
}

/// A line of at least three times the same of `-`, `*` and `_`, between any white space, is a
/// rule.
pub proof fn law_rules(indent: Seq<char>, c: char, n: nat, back: Seq<char>)
    requires
        is_blank(indent),
        is_blank(back),
        c == '-' || c == '*' || c == '_',
        n >= 3,
    ensures
        block_spec(indent + repeat_spec(c, n) + back) == MdBlockView::Hr,
{
    let s = repeat_spec(c, n);
    law_trim_takes_white_space(indent, s, back);
    law_trim_takes_white_space(Seq::empty(), s, back);
    assert(Seq::<char>::empty() + s + back =~= s + back);
    assert(Seq::<char>::empty() + s =~= s);
    assert(is_rule_of(trim_end_spec(s + back), c));
}

/// Every block of a line outside fences shows the text of that line: a paragraph all of it behind
/// the leading white space, a blank line has none, and no block is made of a line that another
/// kind of block starts.
pub proof fn law_other_lines_are_paragraphs(line: Seq<char>)
    ensures
        is_blank(line) <==> block_spec(line) == MdBlockView::Blank,
        block_spec(line) matches MdBlockView::Paragraph(text) ==> exists|indent: Seq<char>|
            is_blank(indent) && line == #[trigger] (indent + text),
        !(block_spec(line) is CodeLine),
        ({
            let s = trim_start_spec(line);
            let plain = s.len() > 0 && s[0] != '-' && s[0] != '*' && s[0] != '_' && s[0] != '#'
                && s[0] != '>' && s[0] != '+' && !is_ascii_digit_spec(s[0]);
            plain ==> block_spec(line) == MdBlockView::Paragraph(s)
        }),
{
    law_trim_start_keeps_the_rest(line);
    let s = trim_start_spec(line);
    let indent = choose|indent: Seq<char>|
        is_blank(indent) && line == #[trigger] (indent + trim_start_spec(line));
    if block_spec(line) is Paragraph {
        assert(line == indent + block_spec(line)->Paragraph_0);
    }
    reveal_strlit("> ");
    reveal_strlit("- ");
    reveal_strlit("* ");
    reveal_strlit("+ ");
    lemma_two_in_front(s, "> "@);
    lemma_two_in_front(s, "- "@);
    lemma_two_in_front(s, "* "@);
    lemma_two_in_front(s, "+ "@);
    if s.len() > 0 && s[0] != '-' && s[0] != '*' && s[0] != '_' && s[0] != '#' {
        lemma_no_rule(s);
        lemma_no_heading(s);
    }
}

/// A line is a fence exactly where three backticks or three tildes stand behind its leading white
/// space. It is no block, and what follows it is code where nothing was before, and no code where
/// it was.
pub proof fn law_fences(lines: Seq<Seq<char>>, line: Seq<char>)
    ensures
        ({
            let s = trim_start_spec(line);
            let fence = s.len() >= 3 && (s[0] == '`' && s[1] == '`' && s[2] == '`' || s[0] == '~'
                && s[1] == '~' && s[2] == '~');
            &&& fence ==> blocks_spec(lines.push(line)) == blocks_spec(lines) && fence_open(
                lines.push(line),
            ) == !fence_open(lines)
            &&& !fence ==> blocks_spec(lines.push(line)).len() == blocks_spec(lines).len() + 1
                && fence_open(lines.push(line)) == fence_open(lines)
            &&& !fence && !fence_open(lines) ==> blocks_spec(lines.push(line)) == blocks_spec(
                lines,
            ).push(block_spec(line))
            &&& !fence && fence_open(lines) ==> blocks_spec(lines.push(line)) == blocks_spec(
                lines,
            ).push(MdBlockView::CodeLine(line))
        }),
        blocks_spec(Seq::empty()).len() == 0,
        !fence_open(Seq::empty()),
{
    assert(lines.push(line).drop_last() =~= lines);
    let s = trim_start_spec(line);
    reveal_strlit("```");
    reveal_strlit("~~~");
    if s.len() >= 3 {
        let front = s.subrange(0, 3);
        assert(front[0] == s[0] && front[1] == s[1] && front[2] == s[2]);
        if s[0] == '`' && s[1] == '`' && s[2] == '`' {
            assert(front =~= "```"@);
        }
        if s[0] == '~' && s[1] == '~' && s[2] == '~' {
            assert(front =~= "~~~"@);
        }
    }
}

proof fn lemma_find_behind(text: Seq<char>, delim: Seq<char>, rest: Seq<char>)
    requires
        delim.len() > 0,
        forall|i: int| 0 <= i < text.len() ==> #[trigger] text[i] != delim[0],
    ensures
        find_spec(text + delim + rest, delim) == Some(text.len() as int),
{
    let s = text + delim + rest;
    let n = text.len() as int;
    lemma_find_from(s, delim, 0);
    assert(s.subrange(n, n + delim.len()) =~= delim);
    assert(occurs_at(s, delim, n));
    let k = find_spec(s, delim).unwrap();
    if k < n {
        assert(s.subrange(k, k + delim.len())[0] == s[k]);
        assert(s[k] == text[k]);
    }
}

proof fn lemma_paired(delim: Seq<char>, text: Seq<char>, rest: Seq<char>)
    requires
        delim.len() > 0,
        text.len() > 0,
        !text.contains('\n'),
        forall|i: int| 0 <= i < text.len() ==> #[trigger] text[i] != delim[0],
    ensures
        match_paired_spec(delim + text + delim + rest, delim) == Some((text, rest)),
{
    let s = delim + text + delim + rest;
    let n = delim.len() as int;
    assert(s.subrange(0, n) =~= delim);
    assert(s.skip(n) =~= text + delim + rest);
    lemma_find_behind(text, delim, rest);
    let after = text + delim + rest;
    assert(after.take(text.len() as int) =~= text);
    assert(after.skip(text.len() + n) =~= rest);
}

/// Text between a pair of markers is shown without them: `**` and `__` make it bold, a backtick
/// makes it code, `*` makes it italic, and `~~` leaves it plain. The line goes on behind the
/// closing marker.
pub proof fn law_marked_text(text: Seq<char>, rest: Seq<char>)
    requires
        text.len() > 0,
        forall|i: int| 0 <= i < text.len() ==> !is_marker(#[trigger] text[i]) && text[i] != '\n',
    ensures
        inline_step("**"@ + text + "**"@ + rest) == (InlineStep {
            text,
            style: InlineStyle::Bold,
            rest,
        }),
        inline_step("__"@ + text + "__"@ + rest) == (InlineStep {
            text,
            style: InlineStyle::Bold,
            rest,
        }),
        inline_step("`"@ + text + "`"@ + rest) == (InlineStep {
            text,
            style: InlineStyle::Code,
            rest,
        }),
        inline_step("~~"@ + text + "~~"@ + rest) == (InlineStep {
            text,
            style: InlineStyle::Plain,
            rest,
        }),
        text[0] != ' ' && text[0] != '\t' && (rest.len() == 0 || rest[0] != '*') ==> inline_step(
            seq!['*'] + text + seq!['*'] + rest,
        ) == (InlineStep { text, style: InlineStyle::Italic, rest }),
{
    reveal_strlit("**");
    reveal_strlit("__");
    reveal_strlit("`");
    reveal_strlit("~~");
    assert("**"@.len() == 2 && "**"@[0] == '*' && "**"@[1] == '*');
    assert("__"@.len() == 2 && "__"@[0] == '_');
    assert("`"@.len() == 1 && "`"@[0] == '`');
    assert("~~"@.len() == 2 && "~~"@[0] == '~');
    assert(!text.contains('\n')) by {
        if text.contains('\n') {
            let i = choose|i: int| 0 <= i < text.len() && text[i] == '\n';
            assert(!is_marker(text[i]));
        }
    }
    assert(!is_marker(text[0]));
    assert forall|i: int| 0 <= i < text.len() implies #[trigger] text[i] != '*' && text[i] != '_'
        && text[i] != '`' && text[i] != '~' by {
        assert(!is_marker(text[i]));
    }
    lemma_paired("**"@, text, rest);
    lemma_paired("__"@, text, rest);
    lemma_paired("`"@, text, rest);
    lemma_paired("~~"@, text, rest);
    let under = "__"@ + text + "__"@ + rest;
    lemma_other_front(under, "**"@);
    let code = "`"@ + text + "`"@ + rest;
    lemma_other_front(code, "**"@);
    lemma_other_front(code, "__"@);
    let struck = "~~"@ + text + "~~"@ + rest;
    lemma_other_front(struck, "**"@);
    lemma_other_front(struck, "__"@);
    lemma_other_front(struck, "`"@);
    if text[0] != ' ' && text[0] != '\t' && (rest.len() == 0 || rest[0] != '*') {
        let s = seq!['*'] + text + seq!['*'] + rest;
        assert(s[0] == '*' && s[1] == text[0]);
        if occurs_at(s, "**"@, 0) {
            assert(s.subrange(0, 2)[1] == s[1]);
        }
        lemma_other_front(s, "__"@);
        lemma_other_front(s, "`"@);
        lemma_other_front(s, "~~"@);
        let after = text + seq!['*'] + rest;
        assert(s.drop_first() =~= after);
        let n = text.len() as int;
        lemma_lone_behind(after, '*', 0, n);
        assert(after.take(n) =~= text);
        assert(after.skip(n + 1) =~= rest);
    }
}

proof fn lemma_lone_behind(s: Seq<char>, delim: char, i: int, n: int)
    requires
        0 <= i <= n < s.len(),
        forall|j: int| i <= j < n ==> #[trigger] s[j] != delim,
        s[n] == delim,
        n + 1 < s.len() ==> s[n + 1] != delim,
    ensures
        lone_delim_from(s, delim, i) == Some(n),
    decreases n - i,
{
    if i < n {
        assert(s[i] != delim);
        lemma_lone_behind(s, delim, i + 1, n);
    }
}

/// A link is shown by its label alone, as plain text.
pub proof fn law_links(label: Seq<char>, url: Seq<char>, rest: Seq<char>)
    requires
        forall|i: int|
            0 <= i < label.len() ==> #[trigger] label[i] != ']' && label[i] != '[' && label[i]
                != '\n',
        forall|i: int| 0 <= i < url.len() ==> #[trigger] url[i] != ')' && url[i] != '\n',
    ensures
        inline_step(seq!['['] + label + seq![']', '('] + url + seq![')'] + rest) == (InlineStep {
            text: label,
            style: InlineStyle::Plain,
            rest,
        }),
{
    reveal_strlit("**");
    reveal_strlit("__");
    reveal_strlit("`");
    reveal_strlit("~~");
    let s = seq!['['] + label + seq![']', '('] + url + seq![')'] + rest;
    lemma_other_front(s, "**"@);
    lemma_other_front(s, "__"@);
    lemma_other_front(s, "`"@);
    lemma_other_front(s, "~~"@);
    let after_open = label + seq![']', '('] + url + seq![')'] + rest;
    assert(s.drop_first() =~= after_open);
    let n = label.len() as int;
    lemma_find_char_from(after_open, ']', 0);
    assert(after_open[n] == ']');
    let k = find_char_spec(after_open, ']').unwrap();
    if k < n {
        assert(after_open[k] == label[k]);
    }
    assert(k == n);
    assert(after_open.take(n) =~= label);
    let after_label = after_open.skip(n + 1);
    assert(after_label[0] == '(');
    let after_paren = url + seq![')'] + rest;
    assert(after_label.drop_first() =~= after_paren);
    let m = url.len() as int;
    lemma_find_char_from(after_paren, ')', 0);
    assert(after_paren[m] == ')');
    let j = find_char_spec(after_paren, ')').unwrap();
    if j < m {
        assert(after_paren[j] == url[j]);
    }
    assert(j == m);
    assert(after_paren.take(m) =~= url);
    assert(after_paren.skip(m + 1) =~= rest);
    if label.contains('\n') {
        let i = choose|i: int| 0 <= i < label.len() && label[i] == '\n';
        assert(label[i] != '\n');
    }
    if label.contains('[') {
        let i = choose|i: int| 0 <= i < label.len() && label[i] == '[';
        assert(label[i] != '[');
    }
    if url.contains('\n') {
        let i = choose|i: int| 0 <= i < url.len() && url[i] == '\n';
        assert(url[i] != '\n');
    }
}

/// A line is read from left to right: the spans of a line are the first element of the line and
/// then those of its rest, merged where two neighbours look alike.
pub proof fn law_tokens_from_left_to_right(s: Seq<char>, out: Seq<SpanView>)
    requires
        s.len() > 0,
    ensures
        ({
            let step = inline_step(s);
            tokenize_onto(s, out) == tokenize_onto(
                step.rest,
                merge_spec(out, SpanView { text: step.text, style: step.style }),
            )
        }),
        tokenize_onto(Seq::empty(), out) == out,
{
    lemma_inline_step(s);
}

/// Plain text, some bold text and plain text again are three spans.
pub proof fn law_bold_within_text(before: Seq<char>, bold: Seq<char>, behind: Seq<char>)
    requires
        before.len() > 0,
        bold.len() > 0,
        behind.len() > 0,
        forall|i: int| 0 <= i < before.len() ==> !is_marker(#[trigger] before[i]),
        forall|i: int| 0 <= i < bold.len() ==> !is_marker(#[trigger] bold[i]) && bold[i] != '\n',
        forall|i: int| 0 <= i < behind.len() ==> !is_marker(#[trigger] behind[i]),
    ensures
        tokenize_spec(before + ("**"@ + bold + "**"@ + behind)) == seq![
            SpanView { text: before, style: InlineStyle::Plain },
            SpanView { text: bold, style: InlineStyle::Bold },
            SpanView { text: behind, style: InlineStyle::Plain },
        ],
{
    let none = Seq::<SpanView>::empty();
    let marked = "**"@ + bold + "**"@ + behind;
    let a = SpanView { text: before, style: InlineStyle::Plain };
    let b = SpanView { text: bold, style: InlineStyle::Bold };
    let c = SpanView { text: behind, style: InlineStyle::Plain };
    lemma_plain_front(before, marked, none);
    law_marked_text(bold, behind);
    reveal_strlit("**");
    law_tokens_from_left_to_right(marked, none.push(a));
    lemma_no_marker(behind, none.push(a).push(b));
    assert(merge_spec(none, a) =~= none.push(a));
    assert(merge_spec(none.push(a), b) =~= none.push(a).push(b));
    assert(merge_spec(none.push(a).push(b), c) =~= seq![a, b, c]);
}

proof fn lemma_plain_front(s: Seq<char>, rest: Seq<char>, out: Seq<SpanView>)
    requires
        forall|i: int| 0 <= i < s.len() ==> !is_marker(#[trigger] s[i]),
    ensures
        tokenize_onto(s + rest, out) == tokenize_onto(
            rest,
            merge_spec(out, SpanView { text: s, style: InlineStyle::Plain }),
        ),
    decreases s.len(),
{
    let all = SpanView { text: s, style: InlineStyle::Plain };
    if s.len() == 0 {
        assert(s + rest =~= rest);
    } else {
        let whole = s + rest;
        assert(whole[0] == s[0]);
        assert(!is_marker(s[0]));
        lemma_no_marker_step(whole);
        lemma_inline_step(whole);
        let tail = s.drop_first();
        assert(whole.drop_first() =~= tail + rest);
        let one = SpanView { text: seq![s[0]], style: InlineStyle::Plain };
        let more = SpanView { text: tail, style: InlineStyle::Plain };
        let once = merge_spec(out, one);
        assert forall|i: int| 0 <= i < tail.len() implies !is_marker(#[trigger] tail[i]) by {
            assert(!is_marker(s[i + 1]));
        }
        lemma_plain_front(tail, rest, once);
        if s.len() == 1 {
            assert(seq![s[0]] =~= s);
        } else if out.len() > 0 && out.last().style == InlineStyle::Plain {
            assert(once.drop_last() =~= out.drop_last());
            assert(out.last().text + seq![s[0]] + tail =~= out.last().text + s);
            assert(merge_spec(once, more) =~= merge_spec(out, all));
        } else {
            assert(once.drop_last() =~= out);
            assert(seq![s[0]] + tail =~= s);
            assert(merge_spec(once, more) =~= merge_spec(out, all));
        }
    }
}

} // verus!
