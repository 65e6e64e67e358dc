//! Configuration: theme styles and key bindings.
//!
//! The styles are plain values consumed by the preview renderer; the key map
//! is an association list with the default bindings below, which a loaded
//! configuration may extend or override. Reading a configuration file and
//! its format live outside the library; they hand over plain values.

use crate::keys::{Action, Key, KeyCode, KeyMap, Modifiers};
use vstd::prelude::*;

verus! {

/// A terminal color.
#[derive(Debug, Clone, Copy, PartialEq, Eq)]
pub enum Color {
    Reset,
    Black,
    Red,
    Green,
    Yellow,
    Blue,
    Magenta,
    Cyan,
    White,
    Indexed(u8),
    Rgb(u8, u8, u8),
}

/// Style attributes added to a span.
#[derive(Debug, Clone, Copy, PartialEq, Eq)]
pub struct Modifier {
    pub bold: bool,
    pub italic: bool,
    pub underlined: bool,
    pub crossed_out: bool,
}

impl Modifier {
    pub open spec fn spec_empty() -> Modifier {
        Modifier { bold: false, italic: false, underlined: false, crossed_out: false }
    }

    pub fn empty() -> (r: Modifier)
        ensures
            r == Modifier::spec_empty(),
    {
        Modifier { bold: false, italic: false, underlined: false, crossed_out: false }
    }
}

/// How a span is drawn: an optional foreground color plus attributes.
#[derive(Debug, Clone, Copy, PartialEq, Eq)]
pub struct Style {
    pub fg: Option<Color>,
    pub add_modifier: Modifier,
}

/// The three styles of the preview: untouched text, matched text, and
/// replacement text.
#[derive(Debug, Clone, Copy, PartialEq, Eq)]
pub struct Theme {
    pub base: Style,
    pub find: Style,
    pub replace: Style,
}

impl Theme {
    /// Untouched text in the terminal's own color; matches struck through in
    /// red; replacements bold in green.
    pub open spec fn spec_default() -> Theme {
        Theme {
            base: Style { fg: Some(Color::Reset), add_modifier: Modifier::spec_empty() },
            find: Style {
                fg: Some(Color::Red),
                add_modifier: Modifier {
                    bold: false,
                    italic: false,
                    underlined: false,
                    crossed_out: true,
                },
            },
            replace: Style {
                fg: Some(Color::Green),
                add_modifier: Modifier {
                    bold: true,
                    italic: false,
                    underlined: false,
                    crossed_out: false,
                },
            },
        }
    }
}

impl Default for Theme {
    fn default() -> (r: Theme)
        ensures
            r == Theme::spec_default(),
    {
        Theme {
            base: Style { fg: Some(Color::Reset), add_modifier: Modifier::empty() },
            find: Style {
                fg: Some(Color::Red),
                add_modifier: Modifier {
                    bold: false,
                    italic: false,
                    underlined: false,
                    crossed_out: true,
                },
            },
            replace: Style {
                fg: Some(Color::Green),
                add_modifier: Modifier {
                    bold: true,
                    italic: false,
                    underlined: false,
                    crossed_out: false,
                },
            },
        }
    }
}

/// The whole configuration: theme, key bindings, input behavior and the
/// walker's thread count (0 means one thread per core).
#[derive(Debug, Clone, PartialEq, Eq)]
pub struct Config {
    pub theme: Theme,
    pub keys: KeyMap,
    pub auto_pairs: bool,
    pub threads: usize,
}

/// A key with no modifiers.
pub open spec fn plain(code: KeyCode) -> Key {
    Key { code, modifiers: Modifiers::spec_empty() }
}

/// A control-chord on a character.
pub open spec fn ctrl(c: char) -> Key {
    Key {
        code: KeyCode::Char(c),
        modifiers: Modifiers { control: true, alt: false, shift: false },
    }
}

/// The default key bindings.
pub open spec fn default_bindings() -> Seq<(Key, Action)> {
    seq![
        (plain(KeyCode::Enter), Action::Confirm),
        (plain(KeyCode::Esc), Action::Exit),
        (ctrl('c'), Action::Exit),
        (plain(KeyCode::Tab), Action::ToggleSearchReplace),
        (ctrl('s'), Action::ToggleIgnoreCase),
        (ctrl('l'), Action::ToggleMultiLine),
        (plain(KeyCode::Left), Action::CursorLeft),
        (ctrl('b'), Action::CursorLeft),
        (plain(KeyCode::Right), Action::CursorRight),
        (ctrl('f'), Action::CursorRight),
        (plain(KeyCode::Home), Action::CursorHome),
        (ctrl('a'), Action::CursorHome),
        (plain(KeyCode::End), Action::CursorEnd),
        (ctrl('e'), Action::CursorEnd),
        (plain(KeyCode::Backspace), Action::DeleteCharBackward),
        (ctrl('h'), Action::DeleteCharBackward),
        (ctrl('d'), Action::DeleteChar),
        (ctrl('w'), Action::DeleteWord),
        (ctrl('k'), Action::DeleteToEndOfLine),
        (ctrl('u'), Action::DeleteLine),
        (ctrl('n'), Action::ScrollDown),
        (ctrl('p'), Action::ScrollUp),
        (ctrl('g'), Action::ScrollTop),
    ]
}

/// Builds the default key map.
pub fn default_key_map() -> (r: KeyMap)
    ensures
        r.0@ == default_bindings(),
{
    let mut m = KeyMap(Vec::new());
    let ctrl_m = Modifiers { control: true, alt: false, shift: false };
    m.push(Key::new(KeyCode::Enter, Modifiers::empty()), Action::Confirm);
    m.push(Key::new(KeyCode::Esc, Modifiers::empty()), Action::Exit);
    m.push(Key::char('c', ctrl_m), Action::Exit);
    m.push(Key::new(KeyCode::Tab, Modifiers::empty()), Action::ToggleSearchReplace);
    m.push(Key::char('s', ctrl_m), Action::ToggleIgnoreCase);
    m.push(Key::char('l', ctrl_m), Action::ToggleMultiLine);
    m.push(Key::new(KeyCode::Left, Modifiers::empty()), Action::CursorLeft);
    m.push(Key::char('b', ctrl_m), Action::CursorLeft);
    m.push(Key::new(KeyCode::Right, Modifiers::empty()), Action::CursorRight);
    m.push(Key::char('f', ctrl_m), Action::CursorRight);
    m.push(Key::new(KeyCode::Home, Modifiers::empty()), Action::CursorHome);
    m.push(Key::char('a', ctrl_m), Action::CursorHome);
    m.push(Key::new(KeyCode::End, Modifiers::empty()), Action::CursorEnd);
    m.push(Key::char('e', ctrl_m), Action::CursorEnd);
    m.push(Key::new(KeyCode::Backspace, Modifiers::empty()), Action::DeleteCharBackward);
    m.push(Key::char('h', ctrl_m), Action::DeleteCharBackward);
    m.push(Key::char('d', ctrl_m), Action::DeleteChar);
    m.push(Key::char('w', ctrl_m), Action::DeleteWord);
    m.push(Key::char('k', ctrl_m), Action::DeleteToEndOfLine);
    m.push(Key::char('u', ctrl_m), Action::DeleteLine);
    m.push(Key::char('n', ctrl_m), Action::ScrollDown);
    m.push(Key::char('p', ctrl_m), Action::ScrollUp);
    m.push(Key::char('g', ctrl_m), Action::ScrollTop);
    proof {
        assert(m.0@ =~= default_bindings());
    }
    m
}

/// Joins user bindings with fallback bindings. The user's come first, and
/// the first binding for a key wins, so a user binding overrides a fallback
/// for the same key while every unbound key keeps its fallback
/// ([`crate::keys::lemma_lookup_concat`] states that law of the lookup).
pub fn merge_bindings(user: KeyMap, fallback: KeyMap) -> (r: KeyMap)
    ensures
        r.0@ == user.0@ + fallback.0@,
{
    let mut merged = user.0;
    let mut rest = fallback.0;
    merged.append(&mut rest);
    KeyMap(merged)
}

impl Default for Config {
    /// The default theme and bindings, automatic pairing on, and one walker
    /// thread per core.
    fn default() -> (r: Config)
        ensures
            r.theme == Theme::spec_default(),
            r.keys.0@ == default_bindings(),
            r.auto_pairs == true,
            r.threads == 0,
    {
        Config {
            theme: Theme::default(),
            keys: default_key_map(),
            auto_pairs: true,
            threads: 0,
        }
    }
}

} // verus!
