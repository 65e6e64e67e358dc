//! The single-line editor behind the pattern and replacement fields.
//!
//! The buffer is a sequence of characters with a cursor; positions and
//! lengths are measured in characters throughout, one convention for every
//! operation. A key press either moves the cursor, edits the
//! buffer, or is ignored; an edit hands the caller the new pattern so it can
//! restart the search.

use crate::keys::{spec_lookup, Action, Key, KeyCode, KeyMap};
use crate::text;
use vstd::prelude::*;

verus! {

/// The mathematical value of a [`LineInput`]: its characters and cursor.
pub ghost struct InputV {
    pub pattern: Seq<char>,
    pub cursor: int,
}

/// A line buffer plus cursor position.
#[derive(Debug, Clone, PartialEq, Eq)]
pub struct LineInput {
    pattern: Vec<char>,
    cursor_pos: usize,
}

impl View for LineInput {
    type V = InputV;

    closed spec fn view(&self) -> InputV {
        InputV { pattern: self.pattern@, cursor: self.cursor_pos as int }
    }
}

/// ASCII whitespace, as word-deletion sees it.
pub open spec fn is_space(c: char) -> bool {
    c == ' ' || c == '\t' || c == '\n' || c == '\r'
}

/// `s` with its trailing whitespace removed.
pub open spec fn trim_end(s: Seq<char>) -> Seq<char>
    decreases s.len(),
{
    if s.len() > 0 && is_space(s.last()) {
        trim_end(s.drop_last())
    } else {
        s
    }
}

/// The index of the last whitespace character of `s`, or `-1`.
pub open spec fn last_space(s: Seq<char>) -> int
    decreases s.len(),
{
    if s.len() == 0 {
        -1
    } else if is_space(s.last()) {
        s.len() - 1
    } else {
        last_space(s.drop_last())
    }
}

proof fn lemma_last_space_bounds(s: Seq<char>)
    ensures
        -1 <= last_space(s) < s.len(),
        last_space(s) >= 0 ==> is_space(s[last_space(s)]),
        forall|j: int| last_space(s) < j < s.len() ==> !is_space(#[trigger] s[j]),
    decreases s.len(),
{
    if s.len() > 0 && !is_space(s.last()) {
        lemma_last_space_bounds(s.drop_last());
        assert(forall|j: int| 0 <= j < s.len() - 1 ==> s.drop_last()[j] == s[j]);
    }
}

proof fn lemma_last_space_at(s: Seq<char>, x: int)
    requires
        0 <= x < s.len(),
        is_space(s[x]),
        forall|j: int| x < j < s.len() ==> !is_space(#[trigger] s[j]),
    ensures
        last_space(s) == x,
    decreases s.len(),
{
    if is_space(s.last()) {
        if x < s.len() - 1 {
            assert(!is_space(s[s.len() - 1]));
        }
    } else {
        assert(x < s.len() - 1);
        assert(forall|j: int| 0 <= j < s.len() - 1 ==> s.drop_last()[j] == s[j]);
        lemma_last_space_at(s.drop_last(), x);
    }
}

proof fn lemma_trim_end_at(s: Seq<char>, t: int)
    requires
        0 <= t <= s.len(),
        forall|j: int| t <= j < s.len() ==> is_space(#[trigger] s[j]),
        t > 0 ==> !is_space(s[t - 1]),
    ensures
        trim_end(s) == s.subrange(0, t),
    decreases s.len(),
{
    if s.len() > 0 && is_space(s.last()) {
        assert(t < s.len()) by {
            if t == s.len() {
                assert(!is_space(s[t - 1]));
            }
        }
        assert(forall|j: int| 0 <= j < s.len() - 1 ==> s.drop_last()[j] == s[j]);
        lemma_trim_end_at(s.drop_last(), t);
        assert(s.drop_last().subrange(0, t) =~= s.subrange(0, t));
    } else {
        assert(t == s.len()) by {
            if t < s.len() {
                assert(is_space(s[s.len() - 1]));
            }
        }
        assert(s.subrange(0, t) =~= s);
    }
}

/// What one key press does to the buffer: the new state, and whether the
/// pattern changed. An unbound key falls back to character input; a bound
/// key that neither moves nor edits is ignored.
pub open spec fn input_step(v: InputV, key: Key, map: Seq<(Key, Action)>) -> (InputV, bool) {
    let len = v.pattern.len() as int;
    match spec_lookup(map, key) {
        Some(Action::CursorLeft) => (
            InputV {
                pattern: v.pattern,
                cursor: if v.cursor > 0 {
                    v.cursor - 1
                } else {
                    0
                },
            },
            false,
        ),
        Some(Action::CursorRight) => (
            InputV {
                pattern: v.pattern,
                cursor: if v.cursor < len {
                    v.cursor + 1
                } else {
                    len
                },
            },
            false,
        ),
        Some(Action::CursorHome) => (InputV { pattern: v.pattern, cursor: 0 }, false),
        Some(Action::CursorEnd) => (InputV { pattern: v.pattern, cursor: len }, false),
        Some(Action::DeleteChar) => if v.cursor >= len {
            (v, false)
        } else {
            (InputV { pattern: v.pattern.remove(v.cursor), cursor: v.cursor }, true)
        },
        Some(Action::DeleteCharBackward) => if v.cursor == 0 {
            (v, false)
        } else {
            (InputV { pattern: v.pattern.remove(v.cursor - 1), cursor: v.cursor - 1 }, true)
        },
        Some(Action::DeleteWord) => if v.cursor == 0 {
            (v, false)
        } else {
            let s = v.pattern.subrange(0, v.cursor);
            let rest = v.pattern.skip(v.cursor);
            let i = last_space(trim_end(s));
            if i >= 0 {
                (InputV { pattern: s.subrange(0, i + 1) + rest, cursor: i + 1 }, true)
            } else {
                (InputV { pattern: rest, cursor: 0 }, true)
            }
        },
        Some(Action::DeleteToEndOfLine) => if v.cursor >= len {
            (v, false)
        } else {
            (InputV { pattern: v.pattern.subrange(0, v.cursor), cursor: v.cursor }, true)
        },
        Some(Action::DeleteLine) => if len == 0 {
            (v, false)
        } else {
            (InputV { pattern: Seq::empty(), cursor: 0 }, true)
        },
        _ => {
            match key.code {
                KeyCode::Char(c) => if !key.modifiers.control && !key.modifiers.alt {
                    (
                        InputV { pattern: v.pattern.insert(v.cursor, c), cursor: v.cursor + 1 },
                        true,
                    )
                } else {
                    (v, false)
                },
                _ => (v, false),
            }
        },
    }
}

impl LineInput {
    /// The cursor never passes the end of the buffer.
    pub open spec fn wf(&self) -> bool {
        self@.cursor <= self@.pattern.len()
    }

    /// An empty buffer with the cursor at its start.
    pub fn new() -> (r: LineInput)
        ensures
            r@.pattern == Seq::<char>::empty(),
            r@.cursor == 0,
            r.wf(),
    {
        LineInput { pattern: Vec::new(), cursor_pos: 0 }
    }

    /// The cursor's position, for placing the terminal cursor; saturates at
    /// the widest displayable column.
    pub fn cursor_pos(&self) -> (r: u16)
        ensures
            r as int == if self@.cursor <= u16::MAX as int {
                self@.cursor
            } else {
                u16::MAX as int
            },
    {
        if self.cursor_pos <= u16::MAX as usize {
            self.cursor_pos as u16
        } else {
            u16::MAX
        }
    }

    /// The buffer's contents.
    pub fn pattern(&self) -> (r: String)
        ensures
            r@ == self@.pattern,
    {
        text::chars_to_string(&self.pattern)
    }

    /// The width the field needs: the buffer plus its two border columns;
    /// saturates at the widest displayable column.
    pub fn size(&self) -> (r: u16)
        ensures
            r as int == if self@.pattern.len() + 2 <= u16::MAX as int {
                self@.pattern.len() + 2int
            } else {
                u16::MAX as int
            },
    {
        let n = self.pattern.len();
        if n <= (u16::MAX - 2) as usize {
            (n as u16) + 2
        } else {
            u16::MAX
        }
    }

    /// Applies one key press. Returns the new pattern when it changed, so
    /// the caller can restart its search; `None` when only the cursor moved
    /// or nothing happened.
    pub fn handle_key_event(&mut self, key: Key, key_map: &KeyMap) -> (r: Option<String>)
        requires
            old(self).wf(),
        ensures
            final(self)@ == input_step(old(self)@, key, key_map.0@).0,
            (r is Some) == input_step(old(self)@, key, key_map.0@).1,
            r matches Some(p) ==> p@ == final(self)@.pattern,
            final(self).wf(),
    {
        let len = self.pattern.len();
        let act = key_map.get(&key);
        match act {
            Some(Action::CursorLeft) => {
                if self.cursor_pos > 0 {
                    self.cursor_pos = self.cursor_pos - 1;
                }
                None
            },
            Some(Action::CursorRight) => {
                if self.cursor_pos < len {
                    self.cursor_pos = self.cursor_pos + 1;
                } else {
                    self.cursor_pos = len;
                }
                None
            },
            Some(Action::CursorHome) => {
                self.cursor_pos = 0;
                None
            },
            Some(Action::CursorEnd) => {
                self.cursor_pos = len;
                None
            },
            Some(Action::DeleteChar) => {
                if self.cursor_pos >= len {
                    return None;
                }
                self.pattern.remove(self.cursor_pos);
                Some(text::chars_to_string(&self.pattern))
            },
            Some(Action::DeleteCharBackward) => {
                if self.cursor_pos == 0 {
                    return None;
                }
                self.cursor_pos = self.cursor_pos - 1;
                self.pattern.remove(self.cursor_pos);
                Some(text::chars_to_string(&self.pattern))
            },
            Some(Action::DeleteWord) => {
                if self.cursor_pos == 0 {
                    return None;
                }
                let cursor = self.cursor_pos;
                let ghost s = self.pattern@.subrange(0, cursor as int);
                // step back over trailing whitespace, then to past the last
                // whitespace before the word
                let mut tend: usize = cursor;
                while tend > 0
                    invariant
                        tend <= cursor <= self.pattern@.len(),
                        s == self.pattern@.subrange(0, cursor as int),
                        forall|j: int| tend <= j < cursor ==> is_space(#[trigger] s[j]),
                    ensures
                        tend <= cursor <= self.pattern@.len(),
                        s == self.pattern@.subrange(0, cursor as int),
                        forall|j: int| tend <= j < cursor ==> is_space(#[trigger] s[j]),
                        tend > 0 ==> !is_space(s[tend - 1]),
                    decreases tend,
                {
                    if !is_space_exec(self.pattern[tend - 1]) {
                        proof {
                            assert(s[tend - 1] == self.pattern@[tend - 1]);
                        }
                        break ;
                    }
                    proof {
                        assert(s[tend - 1] == self.pattern@[tend - 1]);
                    }
                    tend = tend - 1;
                }
                proof {
                    lemma_trim_end_at(s, tend as int);
                    lemma_last_space_bounds(trim_end(s));
                }
                let ghost t = trim_end(s);
                let mut w: usize = tend;
                while w > 0
                    invariant
                        w <= tend <= cursor <= self.pattern@.len(),
                        s == self.pattern@.subrange(0, cursor as int),
                        t == trim_end(s),
                        t == s.subrange(0, tend as int),
                        forall|j: int| w <= j < tend ==> !is_space(#[trigger] t[j]),
                    ensures
                        w <= tend <= cursor <= self.pattern@.len(),
                        s == self.pattern@.subrange(0, cursor as int),
                        t == trim_end(s),
                        t == s.subrange(0, tend as int),
                        forall|j: int| w <= j < tend ==> !is_space(#[trigger] t[j]),
                        w > 0 ==> is_space(t[w - 1]),
                    decreases w,
                {
                    proof {
                        assert(t[w - 1] == s[w - 1]);
                        assert(s[w - 1] == self.pattern@[w - 1]);
                    }
                    if is_space_exec(self.pattern[w - 1]) {
                        break ;
                    }
                    w = w - 1;
                }
                proof {
                    if w > 0 {
                        lemma_last_space_at(t, w - 1);
                    } else {
                        lemma_last_space_bounds(t);
                        if last_space(t) >= 0 {
                            assert(!is_space(t[last_space(t)]));
                        }
                    }
                }
                // keep the first w characters and everything from the cursor on
                let plen = self.pattern.len();
                let mut np: Vec<char> = Vec::new();
                let mut j: usize = 0;
                while j < w
                    invariant
                        j <= w <= plen == self.pattern@.len(),
                        w <= cursor <= plen,
                        np@ =~= self.pattern@.subrange(0, j as int),
                    decreases w - j,
                {
                    np.push(self.pattern[j]);
                    proof {
                        assert(np@ =~= self.pattern@.subrange(0, j + 1));
                    }
                    j = j + 1;
                }
                let mut j2: usize = cursor;
                while j2 < plen
                    invariant
                        w <= cursor <= j2 <= plen == self.pattern@.len(),
                        np@ =~= self.pattern@.subrange(0, w as int) + self.pattern@.subrange(
                            cursor as int,
                            j2 as int,
                        ),
                    decreases plen - j2,
                {
                    np.push(self.pattern[j2]);
                    proof {
                        assert(np@ =~= self.pattern@.subrange(0, w as int)
                            + self.pattern@.subrange(cursor as int, j2 + 1));
                    }
                    j2 = j2 + 1;
                }
                proof {
                    assert(self.pattern@.subrange(cursor as int, plen as int)
                        =~= self.pattern@.skip(cursor as int));
                    if w > 0 {
                        assert(s.subrange(0, w as int) =~= self.pattern@.subrange(0, w as int));
                    } else {
                        assert(np@ =~= self.pattern@.skip(cursor as int));
                    }
                }
                self.pattern = np;
                self.cursor_pos = w;
                proof {
                    let step = input_step(old(self)@, key, key_map.0@);
                    if w > 0 {
                        assert(step.0.pattern =~= s.subrange(0, w as int) + old(
                            self,
                        )@.pattern.skip(cursor as int));
                    }
                    assert(final(self)@ == step.0);
                }
                Some(text::chars_to_string(&self.pattern))
            },
            Some(Action::DeleteToEndOfLine) => {
                if self.cursor_pos >= len {
                    return None;
                }
                self.pattern.truncate(self.cursor_pos);
                proof {
                    assert(self.pattern@ =~= old(self)@.pattern.subrange(
                        0,
                        old(self)@.cursor,
                    ));
                }
                Some(text::chars_to_string(&self.pattern))
            },
            Some(Action::DeleteLine) => {
                if len == 0 {
                    return None;
                }
                self.pattern.clear();
                self.cursor_pos = 0;
                Some(text::chars_to_string(&self.pattern))
            },
            _ => {
                match key.code {
                    KeyCode::Char(c) => {
                        if !key.modifiers.control && !key.modifiers.alt {
                            self.pattern.insert(self.cursor_pos, c);
                            let nl = self.pattern.len();
                            proof {
                                assert(self.cursor_pos < nl);
                            }
                            self.cursor_pos = self.cursor_pos + 1;
                            Some(text::chars_to_string(&self.pattern))
                        } else {
                            None
                        }
                    },
                    _ => None,
                }
            },
        }
    }
}

/// ASCII whitespace, as word-deletion sees it.
fn is_space_exec(c: char) -> (r: bool)
    ensures
        r == is_space(c),
{
    c == ' ' || c == '\t' || c == '\n' || c == '\r'
}

impl Default for LineInput {
    /// An empty buffer with the cursor at its start.
    fn default() -> (r: LineInput)
        ensures
            r@.pattern == Seq::<char>::empty(),
            r@.cursor == 0,
            r.wf(),
    {
        LineInput::new()
    }
}

} // verus!
