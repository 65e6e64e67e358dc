//! Keys, actions and key bindings.
//!
//! A key is modelled as a plain value: a key code plus modifier flags. Key
//! names are parsed from strings of the form `c-a-x` (ASCII-insensitively),
//! and printed back in the canonical order `c-` then `a-` then the code's
//! name. A key map is an association list from keys to actions; the first
//! binding for a key wins.

use crate::text;
use vstd::prelude::*;
use vstd::string::StrSliceExecFns;
use vstd::string::StringExecFns;

verus! {

/// What a key press asks of the application.
#[derive(Debug, Clone, Copy, PartialEq, Eq, Structural)]
pub enum Action {
    Noop,
    Exit,
    Confirm,
    ToggleSearchReplace,
    ToggleIgnoreCase,
    ToggleMultiLine,
    CursorLeft,
    CursorRight,
    CursorHome,
    CursorEnd,
    DeleteChar,
    DeleteCharBackward,
    DeleteWord,
    DeleteToEndOfLine,
    DeleteLine,
    ScrollDown,
    ScrollUp,
    ScrollTop,
}

/// A key's code. `Null` stands for any key the model does not name; it can
/// be looked up but has no name of its own.
#[derive(Debug, Clone, Copy, PartialEq, Eq, Structural)]
pub enum KeyCode {
    Backspace,
    Enter,
    Left,
    Right,
    Up,
    Down,
    Home,
    End,
    PageUp,
    PageDown,
    Tab,
    BackTab,
    Delete,
    Insert,
    Esc,
    F(u8),
    Char(char),
    Null,
}

/// Modifier flags held with a key press.
#[derive(Debug, Clone, Copy, PartialEq, Eq, Structural)]
pub struct Modifiers {
    pub control: bool,
    pub alt: bool,
    pub shift: bool,
}

impl Modifiers {
    pub open spec fn spec_empty() -> Modifiers {
        Modifiers { control: false, alt: false, shift: false }
    }

    pub fn empty() -> (r: Modifiers)
        ensures
            r == Modifiers::spec_empty(),
    {
        Modifiers { control: false, alt: false, shift: false }
    }
}

/// A key press: its code and its modifiers.
#[derive(Debug, Clone, Copy, PartialEq, Eq, Structural)]
pub struct Key {
    pub code: KeyCode,
    pub modifiers: Modifiers,
}

impl Key {
    pub fn new(code: KeyCode, modifiers: Modifiers) -> (r: Key)
        ensures
            r == (Key { code, modifiers }),
    {
        Key { code, modifiers }
    }

    pub fn char(c: char, modifiers: Modifiers) -> (r: Key)
        ensures
            r == (Key { code: KeyCode::Char(c), modifiers }),
    {
        Key { code: KeyCode::Char(c), modifiers }
    }
}

/// `c` with an ASCII capital letter folded to lower case.
pub open spec fn ascii_lower(c: char) -> char {
    if 65 <= c as u32 <= 90 {
        (c as u32 + 32) as char
    } else {
        c
    }
}

/// `s` with every ASCII capital letter folded to lower case.
pub open spec fn spec_lower(s: Seq<char>) -> Seq<char> {
    s.map_values(|c: char| ascii_lower(c))
}

/// `s` with ASCII capitals folded to lower case.
pub fn lower_chars(v: &Vec<char>) -> (r: Vec<char>)
    ensures
        r@ == spec_lower(v@),
{
    let n = v.len();
    let mut r: Vec<char> = Vec::new();
    let mut i: usize = 0;
    while i < n
        invariant
            i <= n == v@.len(),
            r@ =~= spec_lower(v@).subrange(0, i as int),
        decreases n - i,
    {
        let c = v[i];
        let u = c as u32;
        if 65 <= u && u <= 90 {
            let b = (u as u8) + 32;
            r.push(b as char);
        } else {
            r.push(c);
        }
        proof {
            assert(r@ =~= spec_lower(v@).subrange(0, i + 1));
        }
        i = i + 1;
    }
    proof {
        assert(spec_lower(v@).subrange(0, n as int) =~= spec_lower(v@));
    }
    r
}

/// The index of the last `-` of `s`, or `-1` if there is none.
pub open spec fn last_dash(s: Seq<char>) -> int
    decreases s.len(),
{
    if s.len() == 0 {
        -1
    } else if s.last() == '-' {
        s.len() - 1
    } else {
        last_dash(s.drop_last())
    }
}

pub proof fn lemma_last_dash_bounds(s: Seq<char>)
    ensures
        -1 <= last_dash(s) < s.len(),
        last_dash(s) >= 0 ==> s[last_dash(s)] == '-',
        forall|j: int| last_dash(s) < j < s.len() ==> s[j] != '-',
    decreases s.len(),
{
    if s.len() > 0 && s.last() != '-' {
        lemma_last_dash_bounds(s.drop_last());
        assert(forall|j: int| 0 <= j < s.len() - 1 ==> s.drop_last()[j] == s[j]);
    }
}

/// The index of the first `-` of `s`, or `s.len()` if there is none.
pub open spec fn first_dash(s: Seq<char>) -> int
    decreases s.len(),
{
    if s.len() == 0 {
        0
    } else if s[0] == '-' {
        0
    } else {
        1 + first_dash(s.drop_first())
    }
}

pub proof fn lemma_first_dash_bounds(s: Seq<char>)
    ensures
        0 <= first_dash(s) <= s.len(),
        forall|j: int| 0 <= j < first_dash(s) ==> s[j] != '-',
        first_dash(s) < s.len() ==> s[first_dash(s)] == '-',
    decreases s.len(),
{
    if s.len() == 0 {
    } else if s[0] == '-' {
    } else {
        lemma_first_dash_bounds(s.drop_first());
        assert forall|j: int| 0 <= j < first_dash(s) implies s[j] != '-' by {
            if j > 0 {
                assert(s.drop_first()[j - 1] == s[j]);
            }
        }
        if first_dash(s) < s.len() {
            assert(s.drop_first()[first_dash(s) - 1] == s[first_dash(s)]);
        }
    }
}

/// One modifier name: `c` is control, `a` is alt.
pub open spec fn mod_one(s: Seq<char>) -> Option<Modifiers> {
    if s.len() == 1 && s[0] == 'c' {
        Some(Modifiers { control: true, alt: false, shift: false })
    } else if s.len() == 1 && s[0] == 'a' {
        Some(Modifiers { control: false, alt: true, shift: false })
    } else {
        None
    }
}

pub open spec fn mods_union(a: Modifiers, b: Modifiers) -> Modifiers {
    Modifiers { control: a.control || b.control, alt: a.alt || b.alt, shift: a.shift || b.shift }
}

/// A dash-separated list of modifier names, or `None` when any part is
/// unknown.
pub open spec fn mods_of(s: Seq<char>) -> Option<Modifiers>
    decreases s.len(),
    via mods_of_decreases
{
    let f = first_dash(s);
    let head = mod_one(s.subrange(0, f));
    if f == s.len() {
        head
    } else {
        match (head, mods_of(s.skip(f + 1))) {
            (Some(a), Some(b)) => Some(mods_union(a, b)),
            _ => None,
        }
    }
}

#[via_fn]
proof fn mods_of_decreases(s: Seq<char>) {
    lemma_first_dash_bounds(s);
}

/// The key code a name denotes, if it is one of the named keys.
pub open spec fn named_code(s: Seq<char>) -> Option<KeyCode> {
    if s == "backspace"@ {
        Some(KeyCode::Backspace)
    } else if s == "enter"@ {
        Some(KeyCode::Enter)
    } else if s == "left"@ {
        Some(KeyCode::Left)
    } else if s == "right"@ {
        Some(KeyCode::Right)
    } else if s == "up"@ {
        Some(KeyCode::Up)
    } else if s == "down"@ {
        Some(KeyCode::Down)
    } else if s == "home"@ {
        Some(KeyCode::Home)
    } else if s == "end"@ {
        Some(KeyCode::End)
    } else if s == "pageup"@ {
        Some(KeyCode::PageUp)
    } else if s == "pagedown"@ {
        Some(KeyCode::PageDown)
    } else if s == "tab"@ {
        Some(KeyCode::Tab)
    } else if s == "backtab"@ {
        Some(KeyCode::BackTab)
    } else if s == "delete"@ {
        Some(KeyCode::Delete)
    } else if s == "insert"@ {
        Some(KeyCode::Insert)
    } else if s == "esc"@ {
        Some(KeyCode::Esc)
    } else {
        None
    }
}

pub open spec fn is_digit(c: char) -> bool {
    48 <= c as u32 <= 57
}

pub open spec fn all_digits(s: Seq<char>) -> bool {
    forall|i: int| 0 <= i < s.len() ==> is_digit(#[trigger] s[i])
}

/// The decimal value of a digit string.
pub open spec fn digits_val(s: Seq<char>) -> int
    decreases s.len(),
{
    if s.len() == 0 {
        0
    } else {
        digits_val(s.drop_last()) * 10 + (s.last() as u32 - 48)
    }
}

proof fn lemma_digits_val_nonneg(s: Seq<char>)
    requires
        all_digits(s),
    ensures
        digits_val(s) >= 0,
    decreases s.len(),
{
    if s.len() > 0 {
        assert(all_digits(s.drop_last())) by {
            assert(forall|i: int| 0 <= i < s.len() - 1 ==> s.drop_last()[i] == s[i]);
        }
        lemma_digits_val_nonneg(s.drop_last());
    }
}

proof fn lemma_digits_val_prefix_le(s: Seq<char>, k: int)
    requires
        all_digits(s),
        0 <= k <= s.len(),
    ensures
        digits_val(s.subrange(0, k)) <= digits_val(s),
    decreases s.len() - k,
{
    if k < s.len() {
        lemma_digits_val_prefix_le(s, k + 1);
        let p = s.subrange(0, k);
        let q = s.subrange(0, k + 1);
        assert(q.drop_last() =~= p);
        assert(all_digits(p)) by {
            assert(forall|i: int| 0 <= i < k ==> p[i] == s[i]);
        }
        lemma_digits_val_nonneg(p);
        assert(q.last() == s[k]);
        assert(is_digit(s[k]));
        assert(digits_val(q) == digits_val(p) * 10 + (s[k] as u32 - 48));
        assert(digits_val(p) * 10 >= digits_val(p));
    } else {
        assert(s.subrange(0, k) =~= s);
    }
}

/// A decimal `u8`: an optional `+`, then at least one digit, with a value
/// that fits; the form that the standard numeric parser accepts.
pub open spec fn parse_u8_chars(s: Seq<char>) -> Option<u8> {
    let t = if s.len() > 0 && s[0] == '+' {
        s.drop_first()
    } else {
        s
    };
    if t.len() > 0 && all_digits(t) && digits_val(t) <= 255 {
        Some(digits_val(t) as u8)
    } else {
        None
    }
}

/// Parses `v[start..end]` as a decimal `u8`.
fn parse_u8(v: &Vec<char>, start: usize, end: usize) -> (r: Option<u8>)
    requires
        start <= end <= v@.len(),
    ensures
        r == parse_u8_chars(v@.subrange(start as int, end as int)),
{
    let ghost s = v@.subrange(start as int, end as int);
    let mut i: usize = start;
    if start < end && v[start] == '+' {
        proof {
            assert(s[0] == v@[start as int]);
        }
        i = start + 1;
    }
    let ghost t = v@.subrange(i as int, end as int);
    proof {
        if start < end {
            assert(s[0] == v@[start as int]);
        }
        if s.len() > 0 && s[0] == '+' {
            assert(t =~= s.drop_first());
        } else {
            assert(t =~= s);
        }
    }
    if i == end {
        return None;
    }
    let mut val: u32 = 0;
    let mut j: usize = i;
    while j < end
        invariant
            start <= i <= j <= end <= v@.len(),
            s == v@.subrange(start as int, end as int),
            t == v@.subrange(i as int, end as int),
            t == if s.len() > 0 && s[0] == '+' {
                s.drop_first()
            } else {
                s
            },
            t.len() > 0,
            val as int == digits_val(v@.subrange(i as int, j as int)),
            all_digits(v@.subrange(i as int, j as int)),
            val <= 255,
        decreases end - j,
    {
        let c = v[j];
        let u = c as u32;
        let ghost pre = v@.subrange(i as int, j as int);
        let ghost pre1 = v@.subrange(i as int, j + 1);
        proof {
            assert(pre1.drop_last() =~= pre);
            assert(pre1.last() == v@[j as int]);
            assert(forall|x: int| 0 <= x < pre.len() ==> pre[x] == pre1[x]);
            assert(t[j - i] == v@[j as int]);
        }
        if !(48 <= u && u <= 57) {
            proof {
                assert(!is_digit(t[j - i]));
            }
            return None;
        }
        val = val * 10 + (u - 48);
        proof {
            assert(all_digits(pre1));
        }
        if val > 255 {
            proof {
                assert(digits_val(pre1) > 255);
                if all_digits(t) {
                    assert(pre1 =~= t.subrange(0, j + 1 - i));
                    lemma_digits_val_prefix_le(t, j + 1 - i);
                }
            }
            return None;
        }
        j = j + 1;
    }
    proof {
        assert(v@.subrange(i as int, end as int) =~= t);
        lemma_digits_val_nonneg(t);
    }
    Some(val as u8)
}

/// The key code denoted by `code` (the part after the last dash of the
/// lower-cased name `whole`): a named key, a single ASCII character, or an
/// F-key written `f` plus a number at the start of the whole name.
pub open spec fn code_of(whole: Seq<char>, code: Seq<char>) -> Option<KeyCode> {
    if (named_code(code) is Some) {
        named_code(code)
    } else if code.len() == 1 && (code[0] as u32) < 128 {
        Some(KeyCode::Char(code[0]))
    } else if whole.len() > 0 && whole[0] == 'f' && (parse_u8_chars(whole.skip(1)) is Some) {
        Some(KeyCode::F(parse_u8_chars(whole.skip(1))->0))
    } else {
        None
    }
}

/// A key name, already lower-cased: the part after the last dash names the
/// code, the parts before it name modifiers.
pub open spec fn parse_key(s: Seq<char>) -> Option<Key> {
    let d = last_dash(s);
    if d >= 0 {
        match (mods_of(s.subrange(0, d)), code_of(s, s.skip(d + 1))) {
            (Some(m), Some(c)) => Some(Key { code: c, modifiers: m }),
            _ => None,
        }
    } else {
        match code_of(s, s) {
            Some(c) => Some(Key { code: c, modifiers: Modifiers::spec_empty() }),
            None => None,
        }
    }
}

/// Whether `v[start..end]` equals the characters of `lit`.
fn chars_eq(v: &Vec<char>, start: usize, end: usize, lit: &str) -> (r: bool)
    requires
        start <= end <= v@.len(),
    ensures
        r == (v@.subrange(start as int, end as int) == lit@),
{
    let m = lit.unicode_len();
    if end - start != m {
        proof {
            assert(v@.subrange(start as int, end as int).len() != lit@.len());
        }
        return false;
    }
    let mut j: usize = 0;
    while j < m
        invariant
            j <= m == lit@.len(),
            start <= end <= v@.len(),
            end - start == m,
            forall|x: int|
                0 <= x < j ==> v@.subrange(start as int, end as int)[x] == lit@[x],
        decreases m - j,
    {
        if v[start + j] != lit.get_char(j) {
            proof {
                assert(v@.subrange(start as int, end as int)[j as int] != lit@[j as int]);
            }
            return false;
        }
        j = j + 1;
    }
    proof {
        assert(v@.subrange(start as int, end as int) =~= lit@);
    }
    true
}

/// Looks up `v[start..end]` among the named keys.
fn named_code_exec(v: &Vec<char>, start: usize, end: usize) -> (r: Option<KeyCode>)
    requires
        start <= end <= v@.len(),
    ensures
        r == named_code(v@.subrange(start as int, end as int)),
{
    if chars_eq(v, start, end, "backspace") {
        Some(KeyCode::Backspace)
    } else if chars_eq(v, start, end, "enter") {
        Some(KeyCode::Enter)
    } else if chars_eq(v, start, end, "left") {
        Some(KeyCode::Left)
    } else if chars_eq(v, start, end, "right") {
        Some(KeyCode::Right)
    } else if chars_eq(v, start, end, "up") {
        Some(KeyCode::Up)
    } else if chars_eq(v, start, end, "down") {
        Some(KeyCode::Down)
    } else if chars_eq(v, start, end, "home") {
        Some(KeyCode::Home)
    } else if chars_eq(v, start, end, "end") {
        Some(KeyCode::End)
    } else if chars_eq(v, start, end, "pageup") {
        Some(KeyCode::PageUp)
    } else if chars_eq(v, start, end, "pagedown") {
        Some(KeyCode::PageDown)
    } else if chars_eq(v, start, end, "tab") {
        Some(KeyCode::Tab)
    } else if chars_eq(v, start, end, "backtab") {
        Some(KeyCode::BackTab)
    } else if chars_eq(v, start, end, "delete") {
        Some(KeyCode::Delete)
    } else if chars_eq(v, start, end, "insert") {
        Some(KeyCode::Insert)
    } else if chars_eq(v, start, end, "esc") {
        Some(KeyCode::Esc)
    } else {
        None
    }
}

/// The index of the first `-` of `v[start..end]`, or `end` if there is
/// none.
fn find_dash(v: &Vec<char>, start: usize, end: usize) -> (r: usize)
    requires
        start <= end <= v@.len(),
    ensures
        start <= r <= end,
        r - start == first_dash(v@.subrange(start as int, end as int)),
{
    let ghost s = v@.subrange(start as int, end as int);
    let mut f: usize = start;
    proof {
        assert(s.skip(0) =~= s);
    }
    while f < end
        invariant
            start <= f <= end <= v@.len(),
            s == v@.subrange(start as int, end as int),
            first_dash(s) == (f - start) + first_dash(s.skip(f - start)),
        decreases end - f,
    {
        if v[f] == '-' {
            proof {
                assert(s.skip(f - start)[0] == v@[f as int]);
                lemma_first_dash_bounds(s);
            }
            return f;
        }
        proof {
            assert(s.skip(f - start)[0] == v@[f as int]);
            assert(s.skip(f - start).drop_first() =~= s.skip(f - start + 1));
        }
        f = f + 1;
    }
    proof {
        assert(s.skip(f - start).len() == 0);
        lemma_first_dash_bounds(s);
    }
    f
}

/// Parses the dash-separated modifier names in `v[start..end]`.
fn parse_mods(v: &Vec<char>, start: usize, end: usize) -> (r: Option<Modifiers>)
    requires
        start <= end <= v@.len(),
    ensures
        r == mods_of(v@.subrange(start as int, end as int)),
    decreases end - start,
{
    let ghost s = v@.subrange(start as int, end as int);
    let f = find_dash(v, start, end);
    proof {
        lemma_first_dash_bounds(s);
    }
    let head: Option<Modifiers> = if f - start == 1 && v[start] == 'c' {
        Some(Modifiers { control: true, alt: false, shift: false })
    } else if f - start == 1 && v[start] == 'a' {
        Some(Modifiers { control: false, alt: true, shift: false })
    } else {
        None
    };
    proof {
        let part = s.subrange(0, f - start);
        assert(part =~= v@.subrange(start as int, f as int));
        if f - start == 1 {
            assert(part[0] == v@[start as int]);
        }
        assert(head == mod_one(s.subrange(0, f - start)));
    }
    if f == end {
        return head;
    }
    let rest = parse_mods(v, f + 1, end);
    proof {
        assert(s.skip(f - start + 1) =~= v@.subrange(f + 1, end as int));
    }
    match (head, rest) {
        (Some(a), Some(b)) => Some(
            Modifiers {
                control: a.control || b.control,
                alt: a.alt || b.alt,
                shift: a.shift || b.shift,
            },
        ),
        _ => None,
    }
}

proof fn lemma_last_dash_at(s: Seq<char>, x: int)
    requires
        0 <= x < s.len(),
        s[x] == '-',
        forall|j: int| x < j < s.len() ==> s[j] != '-',
    ensures
        last_dash(s) == x,
    decreases s.len(),
{
    if s.last() == '-' {
        if x < s.len() - 1 {
            assert(s[s.len() - 1] != '-');
        }
    } else {
        assert(x < s.len() - 1);
        assert(forall|j: int| 0 <= j < s.len() - 1 ==> s.drop_last()[j] == s[j]);
        lemma_last_dash_at(s.drop_last(), x);
    }
}

/// One past the index of the last `-` of `v`, or `0` if there is none.
fn rfind_dash(v: &Vec<char>) -> (q: usize)
    ensures
        q == last_dash(v@) + 1,
        q <= v@.len(),
{
    let n = v.len();
    let mut q: usize = n;
    while q > 0
        invariant
            q <= n == v@.len(),
            forall|j: int| q <= j < n ==> v@[j] != '-',
        decreases q,
    {
        if v[q - 1] == '-' {
            proof {
                lemma_last_dash_at(v@, q - 1);
            }
            return q;
        }
        q = q - 1;
    }
    proof {
        lemma_last_dash_bounds(v@);
        if last_dash(v@) >= 0 {
            assert(v@[last_dash(v@)] == '-');
        }
    }
    q
}

impl Key {
    /// Parses a key name such as `tab`, `c-x` or `c-a-left`,
    /// ASCII-case-insensitively. `None` when a modifier or the key code is
    /// unknown.
    pub fn from_name(s: &str) -> (r: Option<Key>)
        ensures
            r == parse_key(spec_lower(s@)),
    {
        let cs = text::str_to_chars(s);
        let low = lower_chars(&cs);
        let ghost ls = spec_lower(s@);
        proof {
            assert(low@ == ls);
        }
        let n = low.len();
        let q = rfind_dash(&low);
        if q > 0 {
            let d = q - 1;
            let mods = parse_mods(&low, 0, d);
            let code = code_exec(&low, d + 1, n);
            proof {
                assert(low@.subrange(0, d as int) =~= ls.subrange(0, d as int));
                assert(low@.subrange(d + 1, n as int) =~= ls.skip(d + 1));
            }
            match (mods, code) {
                (Some(m), Some(c)) => Some(Key { code: c, modifiers: m }),
                _ => None,
            }
        } else {
            let code = code_exec(&low, 0, n);
            proof {
                assert(low@.subrange(0, n as int) =~= ls);
            }
            match code {
                Some(c) => Some(Key { code: c, modifiers: Modifiers::empty() }),
                None => None,
            }
        }
    }
}

/// Resolves the code part `v[start..end]` of the whole lower-cased name `v`.
fn code_exec(v: &Vec<char>, start: usize, end: usize) -> (r: Option<KeyCode>)
    requires
        start <= end <= v@.len(),
        end == v@.len(),
    ensures
        r == code_of(v@, v@.subrange(start as int, end as int)),
{
    let named = named_code_exec(v, start, end);
    if let Some(c) = named {
        return Some(c);
    }
    if end - start == 1 {
        let c = v[start];
        if (c as u32) < 128 {
            proof {
                assert(v@.subrange(start as int, end as int)[0] == v@[start as int]);
            }
            return Some(KeyCode::Char(c));
        }
    }
    let n = v.len();
    if n > 0 && v[0] == 'f' {
        proof {
            assert(v@.skip(1) =~= v@.subrange(1, n as int));
        }
        match parse_u8(v, 1, n) {
            Some(f) => {
                return Some(KeyCode::F(f));
            },
            None => {
                return None;
            },
        }
    }
    None
}

/// The decimal digits of `n`.
pub open spec fn dec_digits(n: int) -> Seq<char>
    decreases n,
{
    if n < 10 {
        seq![(48 + if n >= 0 {
            n
        } else {
            0
        }) as char]
    } else {
        dec_digits(n / 10).push((48 + n % 10) as char)
    }
}

/// The canonical name of a key code.
pub open spec fn code_name(c: KeyCode) -> Seq<char> {
    match c {
        KeyCode::Backspace => "backspace"@,
        KeyCode::Enter => "enter"@,
        KeyCode::Left => "left"@,
        KeyCode::Right => "right"@,
        KeyCode::Up => "up"@,
        KeyCode::Down => "down"@,
        KeyCode::Home => "home"@,
        KeyCode::End => "end"@,
        KeyCode::PageUp => "pageup"@,
        KeyCode::PageDown => "pagedown"@,
        KeyCode::Tab => "tab"@,
        KeyCode::BackTab => "backtab"@,
        KeyCode::Delete => "delete"@,
        KeyCode::Insert => "insert"@,
        KeyCode::Esc => "esc"@,
        KeyCode::F(n) => "f"@ + dec_digits(n as int),
        KeyCode::Char(ch) => seq![ascii_lower(ch)],
        KeyCode::Null => Seq::empty(),
    }
}

/// The canonical name of a key: `c-`, then `a-`, then the code's name.
pub open spec fn key_name(k: Key) -> Seq<char> {
    (if k.modifiers.control {
        "c-"@
    } else {
        Seq::empty()
    }) + (if k.modifiers.alt {
        "a-"@
    } else {
        Seq::empty()
    }) + code_name(k.code)
}

impl Key {
    /// The canonical printed name of this key, for display.
    pub fn name(&self) -> (r: String)
        requires
            !(self.code is Null),
        ensures
            r@ == key_name(*self),
    {
        let mut s = String::new();
        if self.modifiers.control {
            s.append("c-");
        }
        if self.modifiers.alt {
            s.append("a-");
        }
        let ghost prefix = s@;
        match self.code {
            KeyCode::Backspace => s.append("backspace"),
            KeyCode::Enter => s.append("enter"),
            KeyCode::Left => s.append("left"),
            KeyCode::Right => s.append("right"),
            KeyCode::Up => s.append("up"),
            KeyCode::Down => s.append("down"),
            KeyCode::Home => s.append("home"),
            KeyCode::End => s.append("end"),
            KeyCode::PageUp => s.append("pageup"),
            KeyCode::PageDown => s.append("pagedown"),
            KeyCode::Tab => s.append("tab"),
            KeyCode::BackTab => s.append("backtab"),
            KeyCode::Delete => s.append("delete"),
            KeyCode::Insert => s.append("insert"),
            KeyCode::Esc => s.append("esc"),
            KeyCode::F(n) => {
                s.append("f");
                push_decimal(&mut s, n);
            },
            KeyCode::Char(ch) => {
                let u = ch as u32;
                if 65 <= u && u <= 90 {
                    let b = (u as u8) + 32;
                    push_char_seq(&mut s, b as char);
                } else {
                    push_char_seq(&mut s, ch);
                }
            },
            KeyCode::Null => {},
        }
        proof {
            assert(s@ =~= key_name(*self));
        }
        s
    }
}

/// Appends one character.
fn push_char_seq(s: &mut String, c: char)
    ensures
        final(s)@ == old(s)@ + seq![c],
{
    text::push_char(s, c);
    proof {
        assert(final(s)@ =~= old(s)@ + seq![c]);
    }
}

/// Appends the decimal digits of `n`.
fn push_decimal(s: &mut String, n: u8)
    ensures
        final(s)@ == old(s)@ + dec_digits(n as int),
{
    if n >= 100 {
        let d0 = n / 100;
        let d1 = (n / 10) % 10;
        let d2 = n % 10;
        push_char_seq(s, (48 + d0) as char);
        push_char_seq(s, (48 + d1) as char);
        push_char_seq(s, (48 + d2) as char);
        proof {
            assert((n as int / 10) / 10 == n as int / 100) by (nonlinear_arith);
            assert((n as int / 10) >= 10);
            assert(n as int / 100 < 10);
            assert(dec_digits(n as int / 100) == seq![(48 + n as int / 100) as char]);
            assert(dec_digits(n as int / 10) == dec_digits((n as int / 10) / 10).push(
                (48 + (n as int / 10) % 10) as char,
            ));
            assert(dec_digits(n as int / 10) =~= seq![(48 + d0) as char, (48 + d1) as char]);
            assert(dec_digits(n as int) == dec_digits(n as int / 10).push(
                (48 + n as int % 10) as char,
            ));
            assert(dec_digits(n as int) =~= seq![
                (48 + d0) as char,
                (48 + d1) as char,
                (48 + d2) as char,
            ]);
            assert(final(s)@ =~= old(s)@ + dec_digits(n as int));
        }
    } else if n >= 10 {
        let d0 = n / 10;
        let d1 = n % 10;
        push_char_seq(s, (48 + d0) as char);
        push_char_seq(s, (48 + d1) as char);
        proof {
            assert(n as int / 10 < 10);
            assert(dec_digits(n as int / 10) == seq![(48 + n as int / 10) as char]);
            assert(dec_digits(n as int) == dec_digits(n as int / 10).push(
                (48 + n as int % 10) as char,
            ));
            assert(dec_digits(n as int) =~= seq![(48 + d0) as char, (48 + d1) as char]);
            assert(final(s)@ =~= old(s)@ + dec_digits(n as int));
        }
    } else {
        push_char_seq(s, (48 + n) as char);
        proof {
            assert(dec_digits(n as int) =~= seq![(48 + n) as char]);
            assert(final(s)@ =~= old(s)@ + dec_digits(n as int));
        }
    }
}

/// The action bound to a key, by the first matching binding.
pub open spec fn spec_lookup(m: Seq<(Key, Action)>, k: Key) -> Option<Action>
    decreases m.len(),
{
    if m.len() == 0 {
        None
    } else if m[0].0 == k {
        Some(m[0].1)
    } else {
        spec_lookup(m.drop_first(), k)
    }
}

/// Looking a key up in one list of bindings followed by another finds the
/// first list's binding whenever it has one, and falls back to the second
/// list otherwise: earlier bindings override later ones.
pub proof fn lemma_lookup_concat(a: Seq<(Key, Action)>, b: Seq<(Key, Action)>, k: Key)
    ensures
        spec_lookup(a + b, k) == match spec_lookup(a, k) {
            Some(x) => Some(x),
            None => spec_lookup(b, k),
        },
    decreases a.len(),
{
    if a.len() == 0 {
        assert(a + b =~= b);
    } else {
        assert((a + b)[0] == a[0]);
        assert((a + b).drop_first() =~= a.drop_first() + b);
        lemma_lookup_concat(a.drop_first(), b, k);
    }
}

/// An association list from keys to actions; the first binding for a key
/// wins.
#[derive(Debug, Clone, PartialEq, Eq)]
pub struct KeyMap(pub Vec<(Key, Action)>);

impl KeyMap {
    /// The action bound to `k`, if any.
    pub fn get(&self, k: &Key) -> (r: Option<Action>)
        ensures
            r == spec_lookup(self.0@, *k),
    {
        let n = self.0.len();
        let mut i: usize = 0;
        proof {
            assert(self.0@.skip(0) =~= self.0@);
        }
        while i < n
            invariant
                i <= n == self.0@.len(),
                spec_lookup(self.0@, *k) == spec_lookup(self.0@.skip(i as int), *k),
            decreases n - i,
        {
            let ghost tail = self.0@.skip(i as int);
            proof {
                assert(tail[0] == self.0@[i as int]);
                assert(tail.drop_first() =~= self.0@.skip(i + 1));
            }
            if self.0[i].0 == *k {
                return Some(self.0[i].1);
            }
            i = i + 1;
        }
        proof {
            assert(self.0@.skip(n as int) =~= Seq::<(Key, Action)>::empty());
        }
        None
    }

    /// Adds a binding at the end; an existing binding for the same key keeps
    /// priority.
    pub fn push(&mut self, k: Key, a: Action)
        ensures
            final(self).0@ == old(self).0@.push((k, a)),
    {
        self.0.push((k, a));
    }
}

} // verus!
