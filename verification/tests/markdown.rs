use kaku::markdown::{
    match_link, match_paired, match_single_italic, merge_push, parse_heading_prefix,
    parse_markdown_blocks, segments_to_plain, split_numbered_list, tokenize_inline, InlineSpan,
    InlineStyle, MdBlock,
};
use kaku::wrap::{group_runs, layout_tokens, wrap_segments, WrapToken};

fn span(text: &str, style: InlineStyle) -> InlineSpan {
    InlineSpan { text: text.to_string(), style }
}

fn plain(text: &str) -> InlineSpan {
    span(text, InlineStyle::Plain)
}

fn bold(text: &str) -> InlineSpan {
    span(text, InlineStyle::Bold)
}

fn italic(text: &str) -> InlineSpan {
    span(text, InlineStyle::Italic)
}

fn code(text: &str) -> InlineSpan {
    span(text, InlineStyle::Code)
}

fn assert_spans(got: Vec<InlineSpan>, want: Vec<InlineSpan>) {
    assert_eq!(got.len(), want.len(), "span count mismatch: {:?} vs {:?}", got, want);
    for (g, w) in got.iter().zip(want.iter()) {
        assert_eq!(g.style, w.style, "style mismatch: {:?} vs {:?}", g, w);
        assert_eq!(g.text, w.text, "text mismatch: {:?} vs {:?}", g, w);
    }
}

#[test]
fn inline_bold_basic() {
    assert_spans(
        tokenize_inline("hello **world** end"),
        vec![plain("hello "), bold("world"), plain(" end")],
    );
}

#[test]
fn inline_bold_underscores() {
    assert_spans(tokenize_inline("__ok__"), vec![bold("ok")]);
}

#[test]
fn inline_italic_single_star() {
    assert_spans(
        tokenize_inline("an *emph* word"),
        vec![plain("an "), italic("emph"), plain(" word")],
    );
}

#[test]
fn inline_italic_ignores_leading_space() {
    // A star in front of a space stays plain.
    let out = tokenize_inline("a * b * c");
    let joined: String = out.iter().map(|s| s.text.as_str()).collect();
    assert_eq!(joined, "a * b * c");
    assert!(out.iter().all(|s| s.style == InlineStyle::Plain));
}

#[test]
fn inline_code_span() {
    assert_spans(
        tokenize_inline("run `ls -la` now"),
        vec![plain("run "), code("ls -la"), plain(" now")],
    );
}

#[test]
fn inline_strike_strips_markers() {
    assert_spans(tokenize_inline("~~gone~~"), vec![plain("gone")]);
}

#[test]
fn inline_link_keeps_label() {
    assert_spans(tokenize_inline("see [docs](http://x)"), vec![plain("see docs")]);
}

#[test]
fn inline_unclosed_bold_is_literal() {
    assert_spans(tokenize_inline("start **open"), vec![plain("start **open")]);
}

#[test]
fn inline_preserves_snake_case() {
    // Words with underscores inside must not become italic.
    assert_spans(tokenize_inline("call my_var here"), vec![plain("call my_var here")]);
}

#[test]
fn block_heading_levels() {
    let blocks = parse_markdown_blocks("# Top\n## Mid\n### Low\n#### Tiny");
    let levels: Vec<u8> = blocks
        .iter()
        .filter_map(|b| match b {
            MdBlock::Heading { level, .. } => Some(*level),
            _ => None,
        })
        .collect();
    assert_eq!(levels, vec![1, 2, 3, 4]);
}

#[test]
fn block_fenced_code_captures_inner() {
    let blocks = parse_markdown_blocks("```rust\nfn main() {}\n```");
    let code_lines: Vec<&str> = blocks
        .iter()
        .filter_map(|b| match b {
            MdBlock::CodeLine(s) => Some(s.as_str()),
            _ => None,
        })
        .collect();
    assert_eq!(code_lines, vec!["fn main() {}"]);
}

#[test]
fn block_hr_variants() {
    let blocks = parse_markdown_blocks("---\n***\n___");
    let hr_count = blocks.iter().filter(|b| matches!(b, MdBlock::Hr)).count();
    assert_eq!(hr_count, 3);
}

#[test]
fn block_list_markers_normalized() {
    let blocks = parse_markdown_blocks("- one\n* two\n+ three\n1. four");
    let markers: Vec<String> = blocks
        .iter()
        .filter_map(|b| match b {
            MdBlock::ListItem { marker, .. } => Some(marker.clone()),
            _ => None,
        })
        .collect();
    assert_eq!(markers, vec!["• ", "• ", "• ", "1. "]);
}

#[test]
fn wrap_preserves_styles_across_lines() {
    let segs = vec![plain("hello "), bold("bold word"), plain(" after text")];
    let wrapped = wrap_segments(&segs, 10);
    assert!(wrapped.len() > 1);
    // The bold span survives somewhere in the output.
    let has_bold = wrapped.iter().flatten().any(|s| s.style == InlineStyle::Bold);
    assert!(has_bold, "bold span lost during wrap: {:?}", wrapped);
}

#[test]
fn wrapped_characters_keep_their_styles() {
    let mut wrapped = wrap_segments(&vec![plain("aa "), bold("bb cc")], 5);
    assert_eq!(wrapped.len(), 2);
    assert_spans(wrapped.remove(0), vec![plain("aa "), bold("bb")]);
    assert_spans(wrapped.remove(0), vec![bold("cc")]);
}

#[test]
fn wrapped_lines_are_tidy() {
    let wrapped = wrap_segments(&vec![plain("  ab  "), bold("incomprehensible"), plain(" c d")], 5);
    let lines: Vec<String> = wrapped.iter().map(|l| line(l)).collect();
    assert_eq!(lines, vec!["ab  ", "incomprehensible", "c d"]);
    assert!(wrapped.iter().flatten().all(|s| !s.text.is_empty()));
}

#[test]
fn blocks_of_two_texts_stand_one_behind_the_other() {
    let both = parse_markdown_blocks("# a\n```\nx\n```\n- b");
    let first = parse_markdown_blocks("# a\n```\nx\n```");
    let second = parse_markdown_blocks("- b");
    assert_eq!(both.len(), first.len() + second.len());
    assert!(matches!(&both[1], MdBlock::CodeLine(t) if t == "x"));
    assert!(matches!(&both[2], MdBlock::ListItem { text, .. } if text == "b"));
}

#[test]
fn wrap_width_zero_returns_input() {
    let segs = vec![plain("anything")];
    let wrapped = wrap_segments(&segs, 0);
    assert_eq!(wrapped.len(), 1);
}

#[test]
fn segments_to_plain_roundtrip() {
    let segs = tokenize_inline("**a** *b* `c`");
    assert_eq!(segments_to_plain(&segs), "a b c");
}

#[test]
fn spans_of_one_style_merge() {
    let mut out = vec![plain("a")];
    merge_push(&mut out, plain("b"));
    merge_push(&mut out, plain(""));
    merge_push(&mut out, bold("c"));
    assert_spans(out, vec![plain("ab"), bold("c")]);
}

#[test]
fn pairs_need_content_and_a_closer() {
    assert_eq!(match_paired("**a**b", "**"), Some(("a", "b")));
    assert_eq!(match_paired("****", "**"), None);
    assert_eq!(match_paired("**a", "**"), None);
    assert_eq!(match_paired("x**a**", "**"), None);
    assert_eq!(match_paired("`a\nb`", "`"), None);
}

#[test]
fn italic_passes_over_double_stars() {
    assert_eq!(match_single_italic("*a**b*c", '*'), Some(("a**b", "c")));
    assert_eq!(match_single_italic("*a**", '*'), None);
    assert_eq!(match_single_italic("*", '*'), None);
    assert_eq!(match_single_italic("a*", '*'), None);
}

#[test]
fn links_have_a_label_and_a_target() {
    assert_eq!(match_link("[a](b)c"), Some(("a", "c")));
    assert_eq!(match_link("[](b)"), Some(("", "")));
    assert_eq!(match_link("[a[b](c)"), None);
    assert_eq!(match_link("[a] (b)"), None);
    assert_eq!(match_link("[a](b"), None);
}

#[test]
fn headings_and_numbers_have_prefixes() {
    assert_eq!(parse_heading_prefix("### x"), Some((3, "x")));
    assert_eq!(parse_heading_prefix("#### x"), Some((4, "x")));
    assert_eq!(parse_heading_prefix("##### x"), Some((4, "x")));
    assert_eq!(parse_heading_prefix("######## # x"), Some((4, "# x")));
    assert_eq!(parse_heading_prefix("#####"), None);
    assert_eq!(parse_heading_prefix("#####x"), None);
    assert_eq!(parse_heading_prefix(" x"), None);
    assert_eq!(parse_heading_prefix("#x"), None);
    assert_eq!(split_numbered_list("12. x"), Some(("12".to_string(), "x")));
    assert_eq!(split_numbered_list("1234. x"), None);
    assert_eq!(split_numbered_list(". x"), None);
    assert_eq!(split_numbered_list("12"), None);
    assert_eq!(split_numbered_list("1.x"), None);
}

#[test]
fn deep_headings_collapse_to_the_fourth_level() {
    let blocks = parse_markdown_blocks("##### Five\n###### Six");
    assert_eq!(blocks.len(), 2);
    assert!(matches!(&blocks[0], MdBlock::Heading { level: 4, text } if text == "Five"));
    assert!(matches!(&blocks[1], MdBlock::Heading { level: 4, text } if text == "Six"));
}

#[test]
fn every_line_is_one_block() {
    let blocks = parse_markdown_blocks("a\n\n> q\n>\n~~~\n# no heading\n~~~\n  - item");
    assert_eq!(blocks.len(), 6);
    assert!(matches!(&blocks[0], MdBlock::Paragraph(t) if t == "a"));
    assert!(matches!(&blocks[1], MdBlock::Blank));
    assert!(matches!(&blocks[2], MdBlock::Quote(t) if t == "q"));
    assert!(matches!(&blocks[3], MdBlock::Quote(t) if t.is_empty()));
    assert!(matches!(&blocks[4], MdBlock::CodeLine(t) if t == "# no heading"));
    assert!(matches!(&blocks[5], MdBlock::ListItem { text, .. } if text == "item"));
}

#[test]
fn text_without_markers_is_kept() {
    let out = tokenize_inline("größer als 0 — ja");
    assert_spans(out, vec![plain("größer als 0 — ja")]);
}

fn line(spans: &[InlineSpan]) -> String {
    spans.iter().map(|s| s.text.as_str()).collect()
}

#[test]
fn wrapped_lines_fit_and_keep_the_words() {
    let wrapped = wrap_segments(&vec![plain("one two  three four")], 9);
    let lines: Vec<String> = wrapped.iter().map(|l| line(l)).collect();
    assert_eq!(lines, vec!["one two  ", "three ", "four"]);
}

#[test]
fn wide_characters_count_twice() {
    let wrapped = wrap_segments(&vec![plain("日本 語")], 4);
    let lines: Vec<String> = wrapped.iter().map(|l| line(l)).collect();
    assert_eq!(lines, vec!["日本", "語"]);
}

#[test]
fn clusters_stay_together() {
    // A letter with a combining accent is one cluster of one column.
    let wrapped = wrap_segments(&vec![plain("e\u{301}e\u{301} x")], 2);
    let lines: Vec<String> = wrapped.iter().map(|l| line(l)).collect();
    assert_eq!(lines, vec!["e\u{301}e\u{301}", "x"]);
}

#[test]
fn empty_text_wraps_to_one_empty_line() {
    let wrapped = wrap_segments(&vec![plain("   ")], 5);
    assert_eq!(wrapped.len(), 1);
    assert!(wrapped[0].is_empty());
}

#[test]
fn runs_alternate_between_ink_and_blanks() {
    let clusters: Vec<String> = ["a", "b", " ", "\t", "c"].iter().map(|s| s.to_string()).collect();
    let runs = group_runs(&clusters);
    let texts: Vec<(&str, bool)> = runs.iter().map(|r| (r.text.as_str(), r.blank)).collect();
    assert_eq!(texts, vec![("ab", false), (" \t", true), ("c", false)]);
}

#[test]
fn layout_goes_by_the_given_widths() {
    let token = |text: &str, width: usize, blank: bool| WrapToken {
        text: text.to_string(),
        style: InlineStyle::Plain,
        width,
        blank,
    };
    let tokens = vec![token("aa", 2, false), token(" ", 1, true), token("b", 5, false)];
    let lines: Vec<String> = layout_tokens(&tokens, 6).iter().map(|l| line(l)).collect();
    assert_eq!(lines, vec!["aa ", "b"]);
}
