use lasr::config::{Style, Theme};
use lasr::finder::{Finder, MatchRange, RegexParams};
use lasr::subst::{push_lines, FileSubstitution, Line, Span, Substitution, Text, TextSubstitution};
use lasr::walker::walk_file;

fn bytes(s: &str) -> Vec<u8> {
    s.as_bytes().to_vec()
}

fn span(s: &str, style: Style) -> Span {
    Span { content: bytes(s), style }
}

fn line(spans: Vec<Span>) -> Line {
    Line { spans }
}

fn text(lines: Vec<Line>) -> Text {
    Text { lines }
}

fn sub(start: usize, end: usize, replacement: &str) -> Substitution {
    Substitution { range: MatchRange { start, end }, replacement: bytes(replacement) }
}

#[test]
fn test_push_lines() {
    let mut t = Text::new();
    let style = Theme::default().base;

    push_lines(&bytes("foo bar"), &mut t, style);
    assert_eq!(t, text(vec![line(vec![span("foo bar", style)])]));

    push_lines(&bytes("biz baz\nbuz"), &mut t, style);
    assert_eq!(
        t,
        text(vec![
            line(vec![span("foo bar", style), span("biz baz", style)]),
            line(vec![span("buz", style)]),
        ])
    );

    push_lines(&bytes("one two\nthree four\nfive six"), &mut t, style);
    assert_eq!(
        t,
        text(vec![
            line(vec![span("foo bar", style), span("biz baz", style)]),
            line(vec![span("buz", style), span("one two", style)]),
            line(vec![span("three four", style)]),
            line(vec![span("five six", style)]),
        ])
    );
}

#[test]
fn test_line_substitution_to_text_find() {
    let theme = Theme::default();
    assert_eq!(
        TextSubstitution {
            start_line: 1,
            line_count: 1,
            text: bytes("foo bar baz"),
            matches: vec![sub(4, 7, "")],
        }
        .to_text(&theme),
        text(vec![line(vec![
            span("foo ", theme.base),
            span("bar", theme.find),
            span(" baz", theme.base),
        ])])
    );
}

#[test]
fn test_line_substitution_to_text_replace() {
    let theme = Theme::default();
    assert_eq!(
        TextSubstitution {
            start_line: 1,
            line_count: 1,
            text: bytes("foo bar baz"),
            matches: vec![sub(4, 7, "test")],
        }
        .to_text(&theme),
        text(vec![line(vec![
            span("foo ", theme.base),
            span("test", theme.replace),
            span(" baz", theme.base),
        ])])
    );
}

#[test]
fn test_line_substitution_to_text_multiline() {
    // the rendering spans the lines that the multi-line match covers
    let theme = Theme::default();
    assert_eq!(
        TextSubstitution {
            start_line: 1,
            line_count: 2,
            text: bytes("foo bar baz\nbiz baz buz"),
            matches: vec![sub(8, 15, "")],
        }
        .to_text(&theme),
        text(vec![
            line(vec![span("foo bar ", theme.base), span("baz", theme.find)]),
            line(vec![span("biz", theme.find), span(" baz buz", theme.base)]),
        ])
    );
}

#[test]
fn test_line_substitution_to_text_multiline_split_on_newline() {
    // a range that ends exactly on a line feed
    let theme = Theme::default();
    assert_eq!(
        TextSubstitution {
            start_line: 1,
            line_count: 2,
            text: bytes("foo\nbar"),
            matches: vec![sub(0, 3, ""), sub(4, 7, "")],
        }
        .to_text(&theme),
        text(vec![
            line(vec![span("foo", theme.find), span("", theme.base)]),
            line(vec![span("bar", theme.find)]),
        ])
    );
}

#[test]
fn previews_follow_the_replacement_string() {
    let finder = Finder::new("line", &RegexParams { ignore_case: false, multi_line: false })
        .unwrap();
    let doc = bytes("This is line one.\nThis is line two.\n");
    let fm = walk_file(&finder, &"file1.txt".to_string(), &doc).unwrap();
    let mut fs = FileSubstitution::new(fm, &finder, &bytes("replacement"));
    assert_eq!(fs.path, "file1.txt");
    assert_eq!(fs.subs.len(), 2);
    assert_eq!(fs.subs[0].start_line, 1);
    assert_eq!(fs.subs[0].text, bytes("This is line one.\n"));
    assert_eq!(fs.subs[0].matches.len(), 1);
    // the preview rewrites only the matched sub-text
    assert_eq!(fs.subs[0].matches[0].replacement, bytes("replacement"));

    // editing the replacement recomputes previews from the cache alone
    fs.update_replacement(&finder, &bytes("king ${0}"));
    assert_eq!(fs.subs[0].matches[0].replacement, bytes("king line"));
    assert_eq!(fs.subs[0].text, bytes("This is line one.\n"));

    // an empty replacement yields empty previews, which render as finds
    fs.update_replacement(&finder, &bytes(""));
    assert_eq!(fs.subs[0].matches[0].replacement, bytes(""));
}

#[test]
fn line_counts_sum_over_a_file() {
    let finder = Finder::new("b", &RegexParams { ignore_case: false, multi_line: false })
        .unwrap();
    let doc = bytes("a b\nc b\nb d\n");
    let fm = walk_file(&finder, &"f.txt".to_string(), &doc).unwrap();
    let fs = FileSubstitution::new(fm, &finder, &bytes(""));
    assert_eq!(fs.subs.len(), 3);
    assert_eq!(fs.subs[0].line_count, 1);
    assert_eq!(fs.line_count(), 3);
}
