use lasr::finder::{is_ast_pattern, Finder, RegexParams};
use lasr::walker::walk_file;

fn bytes(s: &str) -> Vec<u8> {
    s.as_bytes().to_vec()
}

fn params() -> RegexParams {
    RegexParams { ignore_case: false, multi_line: false }
}

#[test]
fn test_is_ast_pattern() {
    assert!(is_ast_pattern("let $X ="));
    assert!(is_ast_pattern("fn($$$ARGS)"));
    assert!(!is_ast_pattern("^foo$"));
    assert!(!is_ast_pattern("foo"));
    assert!(!is_ast_pattern("foo.*"));
    assert!(!is_ast_pattern("foo(.*)"));
}

#[test]
fn test_ast_replace() {
    let finder = Finder::new(
        "$FN($$$ARGS)",
        &RegexParams { ignore_case: true, multi_line: true },
    )
    .unwrap();
    let src = "\
def thing(x, y):
    print(x + y)


thing(3, 5)
";
    let actual = finder
        .replace("example.py", &bytes(src), &bytes("$FN($$$ARGS, 5)"))
        .unwrap();

    let expected = "\
def thing(x, y):
    print(x + y, 5)


thing(3, 5, 5)
";
    assert_eq!(bytes(expected), actual);
}

#[test]
fn classification_valid_regex_is_regex() {
    let f = Finder::new("foo.*", &params()).unwrap();
    assert!(matches!(f, Finder::Regex(_)));
}

#[test]
fn classification_invalid_regex_is_none() {
    assert!(Finder::new("foo(", &params()).is_none());
}

#[test]
fn classification_structural_takes_precedence() {
    // also a valid regular expression, but the placeholder wins
    let f = Finder::new("let $X =", &params()).unwrap();
    assert!(matches!(f, Finder::Ast(_)));
    let g = Finder::new("fn($$$ARGS)", &params()).unwrap();
    assert!(matches!(g, Finder::Ast(_)));
}

#[test]
fn find_reports_lines_and_ranges() {
    let finder = Finder::new("line", &params()).unwrap();
    let doc = bytes("This is line one.\nThis is line two.\nThis is line three.\nLine four.\n");
    let found = finder.find("file1.txt", &doc);
    assert_eq!(found.len(), 3);
    assert_eq!(found[0].number, 1);
    assert_eq!(found[0].text, bytes("This is line one.\n"));
    assert_eq!(found[0].ranges.len(), 1);
    assert_eq!(found[0].ranges[0].start, 8);
    assert_eq!(found[0].ranges[0].end, 12);
    assert_eq!(found[1].number, 2);
    assert_eq!(found[1].text, bytes("This is line two.\n"));
    assert_eq!(found[2].number, 3);
    assert_eq!(found[2].text, bytes("This is line three.\n"));
}

#[test]
fn walk_file_emits_nothing_without_matches() {
    let finder = Finder::new("line", &params()).unwrap();
    let doc = bytes("nothing to see here\nnor here\n");
    assert!(walk_file(&finder, &"quiet.txt".to_string(), &doc).is_none());
}

#[test]
fn walk_file_emits_all_matches() {
    let finder = Finder::new("line", &params()).unwrap();
    let doc = bytes("The first line.\nThe second line.\nThe third line.\n");
    let fm = walk_file(&finder, &"file2.txt".to_string(), &doc).unwrap();
    assert_eq!(fm.path, "file2.txt");
    assert_eq!(fm.lines.len(), 3);
    assert_eq!(fm.lines[0].number, 1);
    assert_eq!(fm.lines[0].text, bytes("The first line.\n"));
    assert_eq!(fm.lines[1].number, 2);
    assert_eq!(fm.lines[2].number, 3);
}

#[test]
fn ignore_case_matches_are_a_superset() {
    let doc = bytes("The first line.\nthen more\nTHE END\nnothing\n");
    let sensitive = Finder::new("the", &params()).unwrap();
    let insensitive = Finder::new(
        "the",
        &RegexParams { ignore_case: true, multi_line: false },
    )
    .unwrap();
    let low = sensitive.find("mixed.txt", &doc);
    let high = insensitive.find("mixed.txt", &doc);
    assert!(low.len() <= high.len());
    for m in &low {
        assert!(high.iter().any(|h| h.number == m.number));
    }
    let low_numbers: Vec<u64> = low.iter().map(|m| m.number).collect();
    let high_numbers: Vec<u64> = high.iter().map(|m| m.number).collect();
    assert_eq!(low_numbers, vec![2]);
    assert_eq!(high_numbers, vec![1, 2, 3]);
}

#[test]
fn multi_line_match_spans_full_lines() {
    let finder = Finder::new(
        "\\w+\\n\\w+",
        &RegexParams { ignore_case: false, multi_line: true },
    )
    .unwrap();
    let doc = bytes("one\ntwo\nthree\n");
    let found = finder.find("multi.txt", &doc);
    assert_eq!(found.len(), 1);
    assert_eq!(found[0].number, 1);
    assert_eq!(found[0].text, bytes("one\ntwo\n"));
    assert_eq!(found[0].ranges.len(), 1);
    assert_eq!(found[0].ranges[0].start, 0);
    assert_eq!(found[0].ranges[0].end, 7);
}

#[test]
fn replace_rewrites_every_match() {
    let finder = Finder::new("line", &params()).unwrap();
    let doc = bytes("This is line one.\nThis is line two.\nThis is line three.\nLine four.\n");
    let out = finder
        .replace("file1.txt", &doc, &bytes("replacement"))
        .unwrap();
    assert_eq!(
        out,
        bytes(
            "This is replacement one.\nThis is replacement two.\nThis is replacement three.\nLine four.\n"
        )
    );
}

#[test]
fn replace_expands_capture_references() {
    let finder = Finder::new("This is", &params()).unwrap();
    let doc = bytes("This is line one.\n");
    let out = finder.replace("file1.txt", &doc, &bytes("${0}n't")).unwrap();
    assert_eq!(out, bytes("This isn't line one.\n"));
}

#[test]
fn replace_without_matches_keeps_the_document() {
    let finder = Finder::new("absent", &params()).unwrap();
    let doc = bytes("The first line.\n");
    let out = finder.replace("file2.txt", &doc, &bytes("x")).unwrap();
    assert_eq!(out, doc);
}

#[test]
fn ast_find_uses_the_inferred_language() {
    let finder = Finder::new("$FN($$$ARGS)", &params()).unwrap();
    let doc = bytes("def thing(x, y):\n    print(x + y)\n\n\nthing(3, 5)\n");
    let found = finder.find("main.py", &doc);
    assert_eq!(found.len(), 2);
    // line numbers are 1-based throughout the library
    assert_eq!(found[0].number, 2);
    assert_eq!(found[0].text, bytes("print(x + y)"));
    assert_eq!(found[1].number, 5);
    assert_eq!(found[1].text, bytes("thing(3, 5)"));
}

#[test]
fn ast_pattern_invalid_for_one_language_skips_only_that_file() {
    // a valid pattern for rust but not for python
    let finder = Finder::new("fn $FN", &params()).unwrap();
    let py = bytes("def thing(x, y):\n    print(x + y)\n\n\nthing(3, 5)\n");
    assert!(finder.find("main.py", &py).is_empty());
    let rs = bytes("fn thing(x: u64, y: u64) {\n    println!(\"{x} {y}\");\n}\n\nfn main() {\n    thing(3, 5);\n}\n");
    let found = finder.find("main.rs", &rs);
    assert_eq!(found.len(), 2);
    assert_eq!(found[0].number, 1);
    assert_eq!(
        found[0].text,
        bytes("fn thing(x: u64, y: u64) {\n    println!(\"{x} {y}\");\n}")
    );
    assert_eq!(found[1].number, 5);
    assert_eq!(found[1].text, bytes("fn main() {\n    thing(3, 5);\n}"));
}

#[test]
fn ast_file_without_language_is_skipped() {
    let finder = Finder::new("$FN($$$ARGS)", &params()).unwrap();
    let doc = bytes("thing(3, 5)\n");
    assert!(finder.find("notes.qqq", &doc).is_empty());
    assert!(finder.replace("notes.qqq", &doc, &bytes("x")).is_none());
}

#[test]
fn binary_documents_are_skipped() {
    let finder = Finder::new("line", &params()).unwrap();
    let mut doc = bytes("a line\n");
    doc.push(0);
    assert!(finder.find("bin.dat", &doc).is_empty());
}
