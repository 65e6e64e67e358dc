use lasr::config::Config;
use lasr::input::LineInput;
use lasr::keys::{Key, KeyCode, KeyMap, Modifiers};

fn ctrl(c: char) -> Key {
    Key::char(
        c,
        Modifiers { control: true, alt: false, shift: false },
    )
}

fn plain_char(c: char) -> Key {
    Key::char(c, Modifiers::empty())
}

fn plain(code: KeyCode) -> Key {
    Key::new(code, Modifiers::empty())
}

fn keys() -> KeyMap {
    Config::default().keys
}

fn input(li: &mut LineInput, s: &str) {
    let config = Config::default();
    for c in s.chars() {
        let result = li
            .handle_key_event(plain_char(c), &config.keys)
            .unwrap()
            .to_string();
        assert_eq!(result, li.pattern());
    }
}

#[test]
fn test_input() {
    let mut app = LineInput::default();
    let config = Config::default();

    assert_eq!(app.pattern(), "");
    assert_eq!(app.cursor_pos(), 0);

    input(&mut app, "abc");
    assert_eq!(app.pattern(), "abc");
    assert_eq!(app.cursor_pos(), 3);

    assert_eq!(
        app.handle_key_event(plain(KeyCode::Backspace), &config.keys),
        Some("ab".to_string())
    );
    assert_eq!(app.pattern(), "ab");
    assert_eq!(app.cursor_pos(), 2);

    assert_eq!(
        app.handle_key_event(plain(KeyCode::Backspace), &config.keys),
        Some("a".to_string())
    );
    assert_eq!(app.pattern(), "a");
    assert_eq!(app.cursor_pos(), 1);

    assert_eq!(
        app.handle_key_event(plain(KeyCode::Backspace), &config.keys),
        Some("".to_string())
    );
    assert_eq!(app.pattern(), "");
    assert_eq!(app.cursor_pos(), 0);

    assert_eq!(
        app.handle_key_event(plain(KeyCode::Backspace), &config.keys),
        None
    );
    assert_eq!(app.pattern(), "");
    assert_eq!(app.cursor_pos(), 0);

    assert_eq!(app.handle_key_event(ctrl('a'), &config.keys), None);
    assert_eq!(app.pattern(), "");
    assert_eq!(app.cursor_pos(), 0);
}

#[test]
fn test_delete_word() {
    let mut app = LineInput::default();
    let config = Config::default();

    input(&mut app, "abc def ghi");
    assert_eq!(app.pattern(), "abc def ghi");
    assert_eq!(app.cursor_pos(), 11);

    assert_eq!(
        app.handle_key_event(ctrl('w'), &config.keys),
        Some("abc def ".to_string())
    );
    assert_eq!(app.pattern(), "abc def ");
    assert_eq!(app.cursor_pos(), 8);

    assert_eq!(
        app.handle_key_event(ctrl('w'), &config.keys),
        Some("abc ".to_string())
    );
    assert_eq!(app.pattern(), "abc ");
    assert_eq!(app.cursor_pos(), 4);

    input(&mut app, "    ");
    assert_eq!(app.pattern(), "abc     ");
    assert_eq!(app.cursor_pos(), 8);

    assert_eq!(
        app.handle_key_event(ctrl('w'), &config.keys),
        Some("".to_string())
    );
    assert_eq!(app.pattern(), "");
    assert_eq!(app.cursor_pos(), 0);

    assert_eq!(app.handle_key_event(ctrl('w'), &config.keys), None);
    assert_eq!(app.pattern(), "");
    assert_eq!(app.cursor_pos(), 0);
}

#[test]
fn test_cursor_movement() {
    let mut app = LineInput::default();
    let config = Config::default();

    input(&mut app, "abc def ghi");
    assert_eq!(app.pattern(), "abc def ghi");
    assert_eq!(app.cursor_pos(), 11);

    assert_eq!(
        app.handle_key_event(plain(KeyCode::Left), &config.keys),
        None
    );
    assert_eq!(app.cursor_pos(), 10);

    for _ in 0..4 {
        assert_eq!(
            app.handle_key_event(plain(KeyCode::Left), &config.keys),
            None
        );
    }
    assert_eq!(app.cursor_pos(), 6);

    for _ in 0..8 {
        assert_eq!(
            app.handle_key_event(plain(KeyCode::Left), &config.keys),
            None
        );
    }
    assert_eq!(app.cursor_pos(), 0);

    for _ in 0..8 {
        assert_eq!(
            app.handle_key_event(plain(KeyCode::Right), &config.keys),
            None
        );
    }
    assert_eq!(app.cursor_pos(), 8);

    for _ in 0..8 {
        assert_eq!(
            app.handle_key_event(plain(KeyCode::Right), &config.keys),
            None
        );
    }
    assert_eq!(app.cursor_pos(), 11);
}

#[test]
fn test_cursor_input() {
    let mut app = LineInput::default();
    let config = Config::default();

    input(&mut app, "abc def ghi");
    assert_eq!(app.pattern(), "abc def ghi");
    assert_eq!(app.cursor_pos(), 11);

    for _ in 0..4 {
        assert_eq!(
            app.handle_key_event(plain(KeyCode::Left), &config.keys),
            None
        );
    }
    assert_eq!(app.cursor_pos(), 7);

    input(&mut app, "bar");
    assert_eq!(app.pattern(), "abc defbar ghi");
    assert_eq!(app.cursor_pos(), 10);

    assert_eq!(
        app.handle_key_event(ctrl('w'), &config.keys),
        Some("abc  ghi".to_string())
    );
    assert_eq!(app.pattern(), "abc  ghi");
    assert_eq!(app.cursor_pos(), 4);

    assert_eq!(
        app.handle_key_event(ctrl('w'), &config.keys),
        Some(" ghi".to_string())
    );
    assert_eq!(app.pattern(), " ghi");
    assert_eq!(app.cursor_pos(), 0);
}

#[test]
fn test_cursor_home() {
    let mut app = LineInput::default();
    let config = Config::default();

    input(&mut app, "hello world");
    assert_eq!(app.cursor_pos(), 11);

    // control-a moves home
    assert_eq!(app.handle_key_event(ctrl('a'), &config.keys), None);
    assert_eq!(app.cursor_pos(), 0);

    // move the cursor away from home
    assert_eq!(
        app.handle_key_event(plain(KeyCode::Right), &config.keys),
        None
    );
    assert_eq!(app.cursor_pos(), 1);

    // the home key
    assert_eq!(
        app.handle_key_event(plain(KeyCode::Home), &config.keys),
        None
    );
    assert_eq!(app.cursor_pos(), 0);
}

#[test]
fn test_cursor_end() {
    let mut app = LineInput::default();
    let config = Config::default();

    input(&mut app, "hello world");
    // move the cursor to the start
    assert_eq!(app.handle_key_event(ctrl('a'), &config.keys), None);
    assert_eq!(app.cursor_pos(), 0);

    // control-e moves to the end
    assert_eq!(app.handle_key_event(ctrl('e'), &config.keys), None);
    assert_eq!(app.cursor_pos(), 11);

    // move the cursor away from the end
    assert_eq!(
        app.handle_key_event(plain(KeyCode::Left), &config.keys),
        None
    );
    assert_eq!(app.cursor_pos(), 10);

    // the end key
    assert_eq!(
        app.handle_key_event(plain(KeyCode::End), &config.keys),
        None
    );
    assert_eq!(app.cursor_pos(), 11);
}

#[test]
fn test_delete_char() {
    let mut app = LineInput::default();
    let config = Config::default();

    input(&mut app, "hello");
    // move the cursor to position 2
    for _ in 0..3 {
        assert_eq!(
            app.handle_key_event(plain(KeyCode::Left), &config.keys),
            None
        );
    }
    assert_eq!(app.cursor_pos(), 2);

    // control-d deletes the character at the cursor
    assert_eq!(
        app.handle_key_event(ctrl('d'), &config.keys),
        Some("helo".to_string())
    );
    assert_eq!(app.pattern(), "helo");
    assert_eq!(app.cursor_pos(), 2);

    // at the end of the string it does nothing
    assert_eq!(
        app.handle_key_event(plain(KeyCode::End), &config.keys),
        None
    );
    assert_eq!(app.handle_key_event(ctrl('d'), &config.keys), None);
    assert_eq!(app.pattern(), "helo");
}

#[test]
fn test_delete_to_end_of_line() {
    let mut app = LineInput::default();
    let config = Config::default();

    input(&mut app, "hello world");
    // move the cursor to position 5
    for _ in 0..6 {
        assert_eq!(
            app.handle_key_event(plain(KeyCode::Left), &config.keys),
            None
        );
    }
    assert_eq!(app.cursor_pos(), 5);

    // control-k deletes to the end
    assert_eq!(
        app.handle_key_event(ctrl('k'), &config.keys),
        Some("hello".to_string())
    );
    assert_eq!(app.pattern(), "hello");
    assert_eq!(app.cursor_pos(), 5);

    // at the end of the string it does nothing
    assert_eq!(app.handle_key_event(ctrl('k'), &config.keys), None);
    assert_eq!(app.pattern(), "hello");
}

#[test]
fn test_delete_line() {
    let mut app = LineInput::default();
    let config = Config::default();

    input(&mut app, "hello world");
    // move the cursor to the middle
    for _ in 0..5 {
        assert_eq!(
            app.handle_key_event(plain(KeyCode::Left), &config.keys),
            None
        );
    }
    assert_eq!(app.cursor_pos(), 6);

    // control-u deletes the entire line
    assert_eq!(
        app.handle_key_event(ctrl('u'), &config.keys),
        Some("".to_string())
    );
    assert_eq!(app.pattern(), "");
    assert_eq!(app.cursor_pos(), 0);

    // on an empty line it does nothing
    assert_eq!(app.handle_key_event(ctrl('u'), &config.keys), None);
    assert_eq!(app.pattern(), "");
    assert_eq!(app.cursor_pos(), 0);
}

#[test]
fn test_delete_char_backward() {
    let mut app = LineInput::default();
    let config = Config::default();

    input(&mut app, "hello");
    assert_eq!(app.cursor_pos(), 5);

    // control-h behaves as backspace
    assert_eq!(
        app.handle_key_event(ctrl('h'), &config.keys),
        Some("hell".to_string())
    );
    assert_eq!(app.pattern(), "hell");
    assert_eq!(app.cursor_pos(), 4);

    // at the start it does nothing
    assert_eq!(
        app.handle_key_event(plain(KeyCode::Home), &config.keys),
        None
    );
    assert_eq!(app.handle_key_event(ctrl('h'), &config.keys), None);
    assert_eq!(app.pattern(), "hell");
    assert_eq!(app.cursor_pos(), 0);
}

#[test]
fn size_counts_the_buffer_plus_borders() {
    let mut app = LineInput::default();
    assert_eq!(app.size(), 2);
    input(&mut app, "hello");
    assert_eq!(app.size(), 7);
}

#[test]
fn shift_only_characters_are_inserted() {
    let mut app = LineInput::default();
    let km = keys();
    let shifted = Key::char(
        'A',
        Modifiers { control: false, alt: false, shift: true },
    );
    assert_eq!(app.handle_key_event(shifted, &km), Some("A".to_string()));
    assert_eq!(app.pattern(), "A");
    let alted = Key::char(
        'x',
        Modifiers { control: false, alt: true, shift: false },
    );
    assert_eq!(app.handle_key_event(alted, &km), None);
    assert_eq!(app.pattern(), "A");
}
