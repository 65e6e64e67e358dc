use lasr::config::{merge_bindings, Config};
use lasr::keys::{Action, Key, KeyCode, KeyMap, Modifiers};

fn m(control: bool, alt: bool) -> Modifiers {
    Modifiers { control, alt, shift: false }
}

#[test]
fn test_key_from_string() {
    assert_eq!(
        Some(Key::char('x', Modifiers::empty())),
        Key::from_name("x"),
    );

    assert_eq!(Some(Key::char('y', m(true, false))), Key::from_name("c-y"));

    assert_eq!(Some(Key::char('z', m(false, true))), Key::from_name("a-z"));

    assert_eq!(Some(Key::char('a', m(true, true))), Key::from_name("c-a-a"));

    assert!(Key::from_name("x-a-a").is_none());
}

#[test]
fn key_names_parse_case_insensitively() {
    assert_eq!(
        Key::from_name("C-A-LEFT"),
        Some(Key::new(KeyCode::Left, m(true, true)))
    );
    assert_eq!(
        Key::from_name("Tab"),
        Some(Key::new(KeyCode::Tab, Modifiers::empty()))
    );
    assert_eq!(
        Key::from_name("X"),
        Some(Key::char('x', Modifiers::empty()))
    );
}

#[test]
fn function_keys_parse_and_print() {
    assert_eq!(
        Key::from_name("f12"),
        Some(Key::new(KeyCode::F(12), Modifiers::empty()))
    );
    assert_eq!(
        Key::from_name("f255"),
        Some(Key::new(KeyCode::F(255), Modifiers::empty()))
    );
    assert!(Key::from_name("f256").is_none());
    assert!(Key::from_name("f").is_some()); // a single character key
    assert_eq!(
        Key::from_name("f"),
        Some(Key::char('f', Modifiers::empty()))
    );
    assert_eq!(Key::new(KeyCode::F(12), Modifiers::empty()).name(), "f12");
    assert_eq!(Key::new(KeyCode::F(7), m(true, false)).name(), "c-f7");
    assert_eq!(Key::new(KeyCode::F(107), Modifiers::empty()).name(), "f107");
    // the F-key number must open the whole name, so a modified F-key name
    // does not parse back
    assert!(Key::from_name("c-f7").is_none());
}

#[test]
fn unknown_names_are_rejected() {
    assert!(Key::from_name("").is_none());
    assert!(Key::from_name("c-").is_none());
    assert!(Key::from_name("-x").is_none());
    assert!(Key::from_name("pgup").is_none());
}

#[test]
fn names_round_trip() {
    let samples = vec![
        Key::new(KeyCode::Tab, Modifiers::empty()),
        Key::new(KeyCode::Esc, Modifiers::empty()),
        Key::new(KeyCode::Left, m(true, false)),
        Key::new(KeyCode::PageDown, m(false, true)),
        Key::new(KeyCode::F(3), Modifiers::empty()),
        Key::char('q', Modifiers::empty()),
        Key::char('w', m(true, false)),
    ];
    for k in samples {
        assert_eq!(Key::from_name(&k.name()), Some(k));
    }
}

#[test]
fn user_bindings_override_the_defaults() {
    let user = KeyMap(vec![(Key::char('q', Modifiers::empty()), Action::Exit)]);
    let merged = merge_bindings(user, Config::default().keys);
    assert_eq!(
        merged.get(&Key::char('q', Modifiers::empty())),
        Some(Action::Exit)
    );
    // an unbound key keeps its default binding
    assert_eq!(
        Key::from_name("c-w").and_then(|k| merged.get(&k)),
        Some(Action::DeleteWord)
    );
}

#[test]
fn printed_characters_are_lower_case() {
    assert_eq!(Key::char('X', Modifiers::empty()).name(), "x");
    assert_eq!(Key::char('x', m(true, true)).name(), "c-a-x");
}
