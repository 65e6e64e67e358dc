use lasr::config::Config;
use lasr::finder::{FileMatch, LineMatch, MatchRange};
use lasr::keys::{Key, KeyCode, Modifiers};
use lasr::session::{CommitOutcome, SearchState, Session, State};
use lasr::walker::walk_file;

fn bytes(s: &str) -> Vec<u8> {
    s.as_bytes().to_vec()
}

fn new_session() -> Session {
    Session::new(
        vec!["testdata".to_string()],
        Vec::new(),
        Config::default(),
        false,
        false,
    )
}

fn ctrl(c: char) -> Key {
    Key::char(
        c,
        Modifiers { control: true, alt: false, shift: false },
    )
}

/// Types text into whichever input has focus; returns whether the last
/// keystroke asked for a restart.
fn type_text(s: &mut Session, text: &str) -> bool {
    let mut restart = false;
    for c in text.chars() {
        let out = s.handle_key_event(Key::char(c, Modifiers::empty()));
        assert!(matches!(out.state, State::Continue));
        restart = out.restart;
    }
    restart
}

#[test]
fn a_session_without_roots_searches_the_current_directory() {
    let s = Session::new(Vec::new(), Vec::new(), Config::default(), false, false);
    assert_eq!(s.paths, vec![".".to_string()]);
    assert_eq!(s.generation, 0);
    assert!(s.editing_pattern);
}

#[test]
fn typing_a_pattern_starts_a_search() {
    let mut s = new_session();
    assert!(matches!(s.state, SearchState::Idle));
    let g0 = s.generation;
    let restart = type_text(&mut s, "line");
    assert!(restart);
    assert!(matches!(s.state, SearchState::Searching));
    assert!(s.generation > g0);
    assert!(s.finder.is_some());
}

#[test]
fn an_empty_pattern_pauses_searching() {
    let mut s = new_session();
    type_text(&mut s, "x");
    assert!(matches!(s.state, SearchState::Searching));
    let out = s.handle_key_event(Key::new(KeyCode::Backspace, Modifiers::empty()));
    assert!(!out.restart);
    assert!(matches!(s.state, SearchState::Idle));
    assert!(s.finder.is_none());
}

#[test]
fn an_invalid_pattern_pauses_searching() {
    let mut s = new_session();
    type_text(&mut s, "fo");
    let out = s.handle_key_event(Key::char('(', Modifiers::empty()));
    assert!(!out.restart);
    assert!(matches!(s.state, SearchState::Idle));
    assert!(s.finder.is_none());
    assert!(s.subs.is_empty());
}

#[test]
fn findings_of_the_current_generation_are_cached() {
    let mut s = new_session();
    type_text(&mut s, "line");
    let g = s.generation;
    let finder = s.finder.clone().unwrap();
    let doc = bytes("The first line.\nThe second line.\n");
    let fm = walk_file(&finder, &"file2.txt".to_string(), &doc).unwrap();
    assert!(s.on_finding(g, fm));
    assert_eq!(s.subs.len(), 1);
    assert_eq!(s.subs[0].path, "file2.txt");
    assert_eq!(s.subs[0].subs.len(), 2);
}

#[test]
fn superseded_findings_are_never_delivered() {
    let mut s = new_session();
    type_text(&mut s, "line");
    let g1 = s.generation;
    let finder = s.finder.clone().unwrap();
    let doc = bytes("The first line.\n");
    let fm1 = walk_file(&finder, &"file2.txt".to_string(), &doc).unwrap();
    assert!(s.on_finding(g1, fm1));
    assert_eq!(s.subs.len(), 1);

    // a new pattern arrives before the first walk completes
    type_text(&mut s, "s");
    assert!(s.generation > g1);
    assert!(s.subs.is_empty());

    // a result of the old walk arrives late: rejected, nothing changes
    let fm_late = walk_file(&finder, &"file2.txt".to_string(), &doc).unwrap();
    assert!(!s.on_finding(g1, fm_late));
    assert!(s.subs.is_empty());

    // results of the current walk (now for the pattern with the extra
    // character) are accepted
    let g2 = s.generation;
    let finder2 = s.finder.clone().unwrap();
    let doc2 = bytes("Many lines here.\n");
    let fm2 = walk_file(&finder2, &"file3.txt".to_string(), &doc2).unwrap();
    assert!(s.on_finding(g2, fm2));
    assert_eq!(s.subs.len(), 1);
}

#[test]
fn malformed_findings_are_rejected() {
    let mut s = new_session();
    type_text(&mut s, "line");
    let g = s.generation;
    let empty = FileMatch { path: "x".to_string(), lines: Vec::new() };
    assert!(!s.on_finding(g, empty));
    let bad_range = FileMatch {
        path: "x".to_string(),
        lines: vec![LineMatch {
            number: 1,
            text: bytes("ab"),
            ranges: vec![MatchRange { start: 1, end: 5 }],
        }],
    };
    assert!(!s.on_finding(g, bad_range));
    assert!(s.subs.is_empty());
}

#[test]
fn toggling_ignore_case_restarts_the_search() {
    let mut s = new_session();
    type_text(&mut s, "the");
    let g1 = s.generation;
    assert!(!s.ignore_case);
    let out = s.handle_key_event(ctrl('s'));
    assert!(matches!(out.state, State::Continue));
    assert!(out.restart);
    assert!(s.ignore_case);
    assert!(s.generation > g1);
    assert!(s.subs.is_empty());
}

#[test]
fn tab_switches_focus_and_replacement_edits_previews() {
    let mut s = new_session();
    type_text(&mut s, "line");
    let g = s.generation;
    let finder = s.finder.clone().unwrap();
    let doc = bytes("This is line one.\n");
    let fm = walk_file(&finder, &"file1.txt".to_string(), &doc).unwrap();
    assert!(s.on_finding(g, fm));

    let out = s.handle_key_event(Key::new(KeyCode::Tab, Modifiers::empty()));
    assert!(matches!(out.state, State::Continue));
    assert!(!s.editing_pattern);

    let restart = type_text(&mut s, "replacement");
    assert!(!restart);
    assert_eq!(s.generation, g, "editing the replacement must not restart");
    assert_eq!(s.subs.len(), 1);
    assert_eq!(s.subs[0].subs[0].matches[0].replacement, bytes("replacement"));
}

#[test]
fn exit_and_confirm_are_reported() {
    let mut s = new_session();
    let out = s.handle_key_event(Key::new(KeyCode::Esc, Modifiers::empty()));
    assert!(matches!(out.state, State::Exit));
    let out = s.handle_key_event(Key::new(KeyCode::Enter, Modifiers::empty()));
    assert!(matches!(out.state, State::Confirm));
}

#[test]
fn scrolling_stays_within_the_cache() {
    let mut s = new_session();
    type_text(&mut s, "line");
    let g = s.generation;
    let finder = s.finder.clone().unwrap();
    let doc = bytes("a line\n");
    for name in ["a.txt", "b.txt", "c.txt"] {
        let fm = walk_file(&finder, &name.to_string(), &doc).unwrap();
        assert!(s.on_finding(g, fm));
    }
    assert_eq!(s.scroll, 0);
    s.handle_key_event(ctrl('n'));
    s.handle_key_event(ctrl('n'));
    assert_eq!(s.scroll, 2);
    s.handle_key_event(ctrl('n'));
    assert_eq!(s.scroll, 2, "scrolling stops at the last result");
    s.handle_key_event(ctrl('p'));
    assert_eq!(s.scroll, 1);
    s.handle_key_event(ctrl('g'));
    assert_eq!(s.scroll, 0);
    s.handle_key_event(ctrl('p'));
    assert_eq!(s.scroll, 0);
}

#[test]
fn draining_and_completion_follow_the_state_machine() {
    let mut s = new_session();
    type_text(&mut s, "line");
    let g = s.generation;
    assert!(matches!(s.state, SearchState::Searching));
    s.begin_drain();
    assert!(matches!(s.state, SearchState::Draining));
    // a completion note for the drained walk no longer applies
    s.on_search_complete(g);
    assert!(matches!(s.state, SearchState::Draining));

    let mut s2 = new_session();
    type_text(&mut s2, "line");
    let g2 = s2.generation;
    s2.on_search_complete(g2.wrapping_sub(1));
    assert!(matches!(s2.state, SearchState::Searching), "stale completion is ignored");
    s2.on_search_complete(g2);
    assert!(matches!(s2.state, SearchState::Completed));
}

#[test]
fn need_more_respects_the_buffer_and_scroll() {
    let mut s = new_session();
    type_text(&mut s, "line");
    let g = s.generation;
    let finder = s.finder.clone().unwrap();
    let doc = bytes("a line\n");
    assert!(s.need_more(1));
    for name in ["a.txt", "b.txt", "c.txt", "d.txt"] {
        let fm = walk_file(&finder, &name.to_string(), &doc).unwrap();
        assert!(s.on_finding(g, fm));
    }
    // four cached, one visible plus a buffer of three: enough
    assert!(!s.need_more(1));
    assert!(s.need_more(2));
    s.handle_key_event(ctrl('n'));
    assert!(s.need_more(1), "scrolling down needs one more buffered result");
}

#[test]
fn commit_outcomes_count_partial_success() {
    let mut o = CommitOutcome::new();
    o.record(true);
    o.record(false);
    o.record(true);
    assert_eq!(o.succeeded, 2);
    assert_eq!(o.failed, 1);
    assert!(!o.all_succeeded());
    let mut o2 = CommitOutcome::new();
    o2.record(true);
    assert!(o2.all_succeeded());
}
