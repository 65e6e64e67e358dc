//! The finder: one contract over two matching strategies.
//!
//! A pattern string is classified by its syntax alone: if it holds a
//! structural placeholder (a `$` followed by a capitalized metavariable
//! name, or a `$$$` wildcard-arguments token), matching is structural and
//! never falls back to the regular-expression engine; otherwise the pattern
//! is compiled as a regular expression, and a pattern that fails to compile
//! yields no finder at all — an expected state while the user types, not an
//! error.
//!
//! Documents are byte vectors. A match is reported per line: its 1-based
//! line number, the matched text (which may span several lines), and the
//! byte ranges within that text that are the actual match.

use crate::engines;
use crate::text;
use vstd::prelude::*;
use vstd::string::StrSliceExecFns;

verus! {

/// A half-open byte range within a matched text.
#[derive(Debug, Clone, Copy, PartialEq, Eq)]
pub struct MatchRange {
    pub start: usize,
    pub end: usize,
}

impl View for MatchRange {
    type V = (int, int);

    open spec fn view(&self) -> (int, int) {
        (self.start as int, self.end as int)
    }
}

/// The mathematical value of a [`LineMatch`].
pub ghost struct LineMatchV {
    pub number: int,
    pub text: Seq<u8>,
    pub ranges: Seq<(int, int)>,
}

/// One matched unit of text: a 1-based line number, the matched text (with
/// its trailing line feed where the document has one), and the sub-ranges
/// within that text that matched.
#[derive(Debug, Clone, PartialEq, Eq)]
pub struct LineMatch {
    pub number: u64,
    pub text: Vec<u8>,
    pub ranges: Vec<MatchRange>,
}

impl View for LineMatch {
    type V = LineMatchV;

    open spec fn view(&self) -> LineMatchV {
        LineMatchV {
            number: self.number as int,
            text: self.text@,
            ranges: self.ranges@.map_values(|m: MatchRange| m@),
        }
    }
}

/// Every sub-range lies within the bounds of the associated text, and the
/// sub-ranges come in document order without overlap.
pub open spec fn line_match_wf(m: LineMatchV) -> bool {
    &&& forall|k: int|
        0 <= k < m.ranges.len() ==> 0 <= (#[trigger] m.ranges[k]).0 <= m.ranges[k].1
            <= m.text.len()
    &&& forall|k: int|
        0 <= k < m.ranges.len() - 1 ==> (#[trigger] m.ranges[k]).1 <= m.ranges[k + 1].0
}

/// The mathematical value of a [`FileMatch`].
pub ghost struct FileMatchV {
    pub path: Seq<char>,
    pub lines: Seq<LineMatchV>,
}

/// A path plus its matches in document order. One is only ever produced for
/// a file with at least one matching line.
#[derive(Debug, Clone, PartialEq, Eq)]
pub struct FileMatch {
    pub path: String,
    pub lines: Vec<LineMatch>,
}

impl View for FileMatch {
    type V = FileMatchV;

    open spec fn view(&self) -> FileMatchV {
        FileMatchV { path: self.path@, lines: self.lines@.map_values(|l: LineMatch| l@) }
    }
}

/// A file match holds at least one line, and every line is well formed.
pub open spec fn file_match_wf(f: FileMatchV) -> bool {
    &&& f.lines.len() > 0
    &&& forall|k: int| 0 <= k < f.lines.len() ==> line_match_wf(#[trigger] f.lines[k])
}

/// Options of the regular-expression strategy.
#[derive(Debug, Clone, Copy, PartialEq, Eq)]
pub struct RegexParams {
    pub ignore_case: bool,
    pub multi_line: bool,
}

/// Whether `c` may start a metavariable name: a capital letter or an
/// underscore.
pub open spec fn is_meta_start(c: char) -> bool {
    (65 <= c as u32 <= 90) || c as u32 == 95
}

/// A pattern is structural when it holds `$` followed by a capitalized
/// metavariable name, or the `$$$` wildcard-arguments token.
pub open spec fn spec_is_ast_pattern(p: Seq<char>) -> bool {
    (exists|i: int| 0 <= i && i + 1 < p.len() && (#[trigger] p[i]) == '$' && is_meta_start(
        p[i + 1],
    )) || (exists|i: int|
        0 <= i && i + 2 < p.len() && (#[trigger] p[i]) == '$' && p[i + 1] == '$' && p[i + 2] == '$')
}

/// Classifies a pattern: true means structural, false means it should be
/// tried as a regular expression.
pub fn is_ast_pattern(pattern: &str) -> (r: bool)
    ensures
        r == spec_is_ast_pattern(pattern@),
{
    let n = pattern.unicode_len();
    if n < 2 {
        return false;
    }
    let mut i: usize = 0;
    while i + 1 < n
        invariant
            n == pattern@.len(),
            i + 1 <= n,
            forall|j: int|
                0 <= j < i ==> !((#[trigger] pattern@[j]) == '$' && is_meta_start(
                    pattern@[j + 1],
                )),
            forall|j: int|
                0 <= j < i ==> !(j + 2 < n && (#[trigger] pattern@[j]) == '$' && pattern@[j + 1]
                    == '$' && pattern@[j + 2] == '$'),
        decreases n - i,
    {
        let c = pattern.get_char(i);
        if c == '$' {
            let d = pattern.get_char(i + 1);
            let du = d as u32;
            if (65 <= du && du <= 90) || du == 95 {
                return true;
            }
            if d == '$' && i + 2 < n {
                let e = pattern.get_char(i + 2);
                if e == '$' {
                    return true;
                }
            }
        }
        i = i + 1;
    }
    false
}

/// A document with a NUL byte is treated as binary and yields no matches.
pub open spec fn has_nul(doc: Seq<u8>) -> bool {
    exists|i: int| 0 <= i < doc.len() && doc[i] == 0
}

/// Whether the document holds a NUL byte.
pub fn contains_nul(doc: &Vec<u8>) -> (r: bool)
    ensures
        r == has_nul(doc@),
{
    let len = doc.len();
    let mut i: usize = 0;
    while i < len
        invariant
            i <= len == doc@.len(),
            forall|j: int| 0 <= j < i ==> doc@[j] != 0,
        decreases len - i,
    {
        if doc[i] == 0 {
            return true;
        }
        i = i + 1;
    }
    false
}

/// The per-line matches of a compiled pattern over `lines`, numbering the
/// first line `base`: a line with at least one match range becomes one
/// match, lines without any are left out.
pub open spec fn regex_line_hits(p: Seq<char>, ic: bool, lines: Seq<Seq<u8>>, base: int) -> Seq<
    LineMatchV,
>
    decreases lines.len(),
{
    if lines.len() == 0 {
        seq![]
    } else {
        let rest = regex_line_hits(p, ic, lines.drop_first(), base + 1);
        let rs = engines::regex_ranges(p, ic, lines[0]);
        if rs.len() > 0 {
            seq![LineMatchV { number: base, text: lines[0], ranges: rs }] + rest
        } else {
            rest
        }
    }
}

/// The start of the line containing position `p`: the nearest position at or
/// before `p` that follows a line feed or starts the document.
pub open spec fn line_start_of(doc: Seq<u8>, p: int) -> int
    decreases p,
{
    if p <= 0 {
        0
    } else if doc[p - 1] == text::NL {
        p
    } else {
        line_start_of(doc, p - 1)
    }
}

/// One past the end of the line containing position `a`: just after the
/// first line feed at or after `a`, or the end of the document.
pub open spec fn line_end_of(doc: Seq<u8>, a: int) -> int {
    let q = a + text::first_newline(doc.skip(a));
    if q < doc.len() {
        q + 1
    } else {
        doc.len() as int
    }
}

/// An empty match just past the final line is attached to no line and is
/// dropped; every other match is kept.
pub open spec fn ml_keep(doc: Seq<u8>, m: (int, int)) -> bool {
    !(m.0 == m.1 && m.0 == doc.len())
}

/// The line match produced by one multi-line regex match `m`: its text runs
/// from the start of the line holding the match's first byte to the end of
/// the line holding its last, and the single sub-range is the match itself,
/// relative to that text.
pub open spec fn ml_hit(doc: Seq<u8>, m: (int, int)) -> LineMatchV {
    let ls = line_start_of(doc, m.0);
    let le = line_end_of(
        doc,
        if m.1 > m.0 {
            m.1 - 1
        } else {
            m.0
        },
    );
    LineMatchV {
        number: text::newline_count(doc.subrange(0, ls)) + 1int,
        text: doc.subrange(ls, le),
        ranges: seq![(m.0 - ls, m.1 - ls)],
    }
}

/// The line matches produced by a sequence of multi-line regex matches.
pub open spec fn ml_hits(doc: Seq<u8>, ms: Seq<(int, int)>) -> Seq<LineMatchV>
    decreases ms.len(),
{
    if ms.len() == 0 {
        seq![]
    } else {
        let rest = ml_hits(doc, ms.drop_first());
        if ml_keep(doc, ms[0]) {
            seq![ml_hit(doc, ms[0])] + rest
        } else {
            rest
        }
    }
}

/// The line match produced by one structural hit: 1-based number (saturating),
/// the hit's text, and one sub-range covering the whole text.
pub open spec fn ast_hit(h: (int, Seq<u8>)) -> LineMatchV {
    LineMatchV {
        number: if h.0 + 1 <= u64::MAX {
            h.0 + 1
        } else {
            u64::MAX as int
        },
        text: h.1,
        ranges: seq![(0, h.1.len() as int)],
    }
}

/// The line matches produced by a sequence of structural hits.
pub open spec fn ast_hits(hs: Seq<(int, Seq<u8>)>) -> Seq<LineMatchV> {
    hs.map_values(|h: (int, Seq<u8>)| ast_hit(h))
}

/// The start of the line containing position `p`.
fn line_start(doc: &Vec<u8>, p: usize) -> (r: usize)
    requires
        p <= doc@.len(),
    ensures
        r == line_start_of(doc@, p as int),
        r <= p,
{
    let mut q: usize = p;
    while q > 0
        invariant
            q <= p <= doc@.len(),
            line_start_of(doc@, p as int) == line_start_of(doc@, q as int),
        decreases q,
    {
        if doc[q - 1] == text::NL {
            return q;
        }
        q = q - 1;
    }
    q
}

/// Counts the line feeds among the first `upto` bytes.
fn count_newlines(doc: &Vec<u8>, upto: usize) -> (r: usize)
    requires
        upto <= doc@.len(),
    ensures
        r as nat == text::newline_count(doc@.subrange(0, upto as int)),
        r <= upto,
{
    let mut i: usize = 0;
    let mut n: usize = 0;
    while i < upto
        invariant
            i <= upto <= doc@.len(),
            n as nat == text::newline_count(doc@.subrange(0, i as int)),
            n <= i,
        decreases upto - i,
    {
        proof {
            assert(doc@.subrange(0, i + 1).drop_last() =~= doc@.subrange(0, i as int));
        }
        if doc[i] == text::NL {
            n = n + 1;
        }
        i = i + 1;
    }
    n
}

/// Copies a byte vector.
fn copy_bytes(v: &Vec<u8>) -> (r: Vec<u8>)
    ensures
        r@ == v@,
{
    let r = text::subvec(v, 0, v.len());
    proof {
        assert(v@.subrange(0, v@.len() as int) =~= v@);
    }
    r
}

/// Per-line matching: every line with at least one match of the compiled
/// pattern becomes one [`LineMatch`], numbered from 1.
fn find_single_line(pattern: &str, ignore_case: bool, doc: &Vec<u8>) -> (r: Vec<LineMatch>)
    requires
        engines::regex_valid(pattern@, ignore_case),
    ensures
        r@.map_values(|l: LineMatch| l@) == regex_line_hits(
            pattern@,
            ignore_case,
            text::split_lines(doc@),
            1,
        ),
        forall|k: int| 0 <= k < r@.len() ==> line_match_wf(#[trigger] r@[k]@),
{
    let lines = text::split_lines_vec(doc);
    let ghost all = text::split_lines(doc@);
    let nlines = lines.len();
    let mut out: Vec<LineMatch> = Vec::new();
    let mut i: usize = 0;
    proof {
        assert(all.skip(0) =~= all);
        assert(out@.map_values(|l: LineMatch| l@) =~= Seq::<LineMatchV>::empty());
    }
    while i < nlines
        invariant
            engines::regex_valid(pattern@, ignore_case),
            i <= nlines == lines@.len(),
            lines@.map_values(|l: Vec<u8>| l@) == all,
            regex_line_hits(pattern@, ignore_case, all, 1) =~= out@.map_values(|l: LineMatch| l@)
                + regex_line_hits(pattern@, ignore_case, all.skip(i as int), i + 1),
            forall|k: int| 0 <= k < out@.len() ==> line_match_wf(#[trigger] out@[k]@),
        decreases nlines - i,
    {
        let ghost rest = all.skip(i as int);
        proof {
            assert(rest[0] == all[i as int]);
            assert(all[i as int] == lines@[i as int]@);
            assert(rest.drop_first() =~= all.skip(i + 1));
        }
        let rs = engines::regex_find(pattern, ignore_case, &lines[i]).unwrap();
        if rs.len() > 0 {
            let m = LineMatch { number: (i as u64) + 1, text: copy_bytes(&lines[i]), ranges: rs };
            proof {
                assert(m@ == LineMatchV {
                    number: i + 1,
                    text: all[i as int],
                    ranges: engines::regex_ranges(pattern@, ignore_case, all[i as int]),
                });
            }
            out.push(m);
            proof {
                assert(out@.map_values(|l: LineMatch| l@) =~= out@.map_values(
                    |l: LineMatch| l@,
                ).drop_last() + seq![m@]);
            }
        }
        i = i + 1;
    }
    proof {
        assert(all.skip(nlines as int) =~= Seq::<Seq<u8>>::empty());
        assert(regex_line_hits(pattern@, ignore_case, all, 1) =~= out@.map_values(
            |l: LineMatch| l@,
        ));
    }
    out
}

/// Whole-document matching: each match of the compiled pattern becomes one
/// [`LineMatch`] spanning the full lines the match touches.
fn find_multi_line(pattern: &str, ignore_case: bool, doc: &Vec<u8>) -> (r: Vec<LineMatch>)
    requires
        engines::regex_valid(pattern@, ignore_case),
    ensures
        r@.map_values(|l: LineMatch| l@) == ml_hits(
            doc@,
            engines::regex_ranges(pattern@, ignore_case, doc@),
        ),
        forall|k: int| 0 <= k < r@.len() ==> line_match_wf(#[trigger] r@[k]@),
{
    let ms = engines::regex_find(pattern, ignore_case, doc).unwrap();
    let ghost rs = engines::regex_ranges(pattern@, ignore_case, doc@);
    let len = doc.len();
    let nms = ms.len();
    let mut out: Vec<LineMatch> = Vec::new();
    let mut k: usize = 0;
    proof {
        assert(rs.skip(0) =~= rs);
        assert(out@.map_values(|l: LineMatch| l@) =~= Seq::<LineMatchV>::empty());
    }
    while k < nms
        invariant
            k <= nms == ms@.len(),
            len == doc@.len(),
            ms@.map_values(|m: MatchRange| m@) == rs,
            forall|j: int| 0 <= j < rs.len() ==> 0 <= (#[trigger] rs[j]).0 <= rs[j].1 <= len,
            ml_hits(doc@, rs) =~= out@.map_values(|l: LineMatch| l@) + ml_hits(
                doc@,
                rs.skip(k as int),
            ),
            forall|j: int| 0 <= j < out@.len() ==> line_match_wf(#[trigger] out@[j]@),
        decreases nms - k,
    {
        let ghost tail = rs.skip(k as int);
        proof {
            assert(tail[0] == rs[k as int]);
            assert(rs[k as int] == ms@[k as int]@);
            assert(tail.drop_first() =~= rs.skip(k + 1));
        }
        let s = ms[k].start;
        let e = ms[k].end;
        if !(s == e && s == len) {
            let a = if e > s {
                e - 1
            } else {
                s
            };
            let ls = line_start(doc, s);
            let nl = text::find_newline(doc, a);
            let le = if nl < len {
                nl + 1
            } else {
                len
            };
            let t = text::subvec(doc, ls, le);
            let cnt = count_newlines(doc, ls);
            let number = (cnt as u64) + 1;
            let mut ranges: Vec<MatchRange> = Vec::new();
            ranges.push(MatchRange { start: s - ls, end: e - ls });
            let m = LineMatch { number, text: t, ranges };
            proof {
                assert(m@.ranges =~= seq![(s - ls, e - ls as int)]);
                assert(m@ == ml_hit(doc@, rs[k as int]));
                assert(line_match_wf(m@));
            }
            out.push(m);
            proof {
                assert(out@.map_values(|l: LineMatch| l@) =~= out@.map_values(
                    |l: LineMatch| l@,
                ).drop_last() + seq![m@]);
            }
        }
        k = k + 1;
    }
    proof {
        assert(rs.skip(nms as int) =~= Seq::<(int, int)>::empty());
        assert(ml_hits(doc@, rs) =~= out@.map_values(|l: LineMatch| l@));
    }
    out
}

/// Structural matching: each hit of the structural engine becomes one
/// [`LineMatch`] with a single sub-range covering its whole text.
fn find_ast(pattern: &str, path: &str, doc: &Vec<u8>) -> (r: Vec<LineMatch>)
    ensures
        r@.map_values(|l: LineMatch| l@) == ast_hits(engines::ast_found(pattern@, path@, doc@)),
        forall|k: int| 0 <= k < r@.len() ==> line_match_wf(#[trigger] r@[k]@),
{
    let hits = engines::ast_find(pattern, path, doc);
    let ghost hs = engines::ast_found(pattern@, path@, doc@);
    let nhits = hits.len();
    let mut out: Vec<LineMatch> = Vec::new();
    let mut k: usize = 0;
    while k < nhits
        invariant
            k <= nhits == hits@.len(),
            hits@.map_values(|h: (u64, Vec<u8>)| (h.0 as int, h.1@)) == hs,
            out@.map_values(|l: LineMatch| l@) =~= ast_hits(hs).subrange(0, k as int),
            forall|j: int| 0 <= j < out@.len() ==> line_match_wf(#[trigger] out@[j]@),
        decreases nhits - k,
    {
        proof {
            assert(hs[k as int] == (hits@[k as int].0 as int, hits@[k as int].1@));
            assert(ast_hits(hs)[k as int] == ast_hit(hs[k as int]));
        }
        let n = hits[k].0;
        let t = copy_bytes(&hits[k].1);
        let number = if n < u64::MAX {
            n + 1
        } else {
            u64::MAX
        };
        let mut ranges: Vec<MatchRange> = Vec::new();
        ranges.push(MatchRange { start: 0, end: t.len() });
        let m = LineMatch { number, text: t, ranges };
        proof {
            assert(m@.ranges =~= seq![(0int, hs[k as int].1.len() as int)]);
            assert(m@ == ast_hit(hs[k as int]));
        }
        let ghost old_views = out@.map_values(|l: LineMatch| l@);
        out.push(m);
        proof {
            assert(out@.map_values(|l: LineMatch| l@) =~= old_views + seq![m@]);
            assert(ast_hits(hs).subrange(0, k + 1) =~= ast_hits(hs).subrange(0, k as int) + seq![
                ast_hit(hs[k as int]),
            ]);
        }
        k = k + 1;
    }
    proof {
        assert(ast_hits(hs).subrange(0, nhits as int) =~= ast_hits(hs));
    }
    out
}

/// The regular-expression strategy: a pattern that is known to compile under
/// its options.
#[derive(Debug, Clone, PartialEq, Eq)]
pub struct RegexFinder {
    pub pattern: String,
    pub params: RegexParams,
}

impl RegexFinder {
    /// Computes `text` with every match of the compiled pattern replaced,
    /// expanding `$`-references to capture groups.
    pub fn replace(&self, text: &Vec<u8>, replacement: &Vec<u8>) -> (r: Vec<u8>)
        requires
            engines::regex_valid(self.pattern@, self.params.ignore_case),
        ensures
            r@ == engines::regex_rewrite(
                self.pattern@,
                self.params.ignore_case,
                text@,
                replacement@,
            ),
    {
        engines::regex_replace(self.pattern.as_str(), self.params.ignore_case, text, replacement)
            .unwrap()
    }
}

/// The structural strategy: the pattern is held as written; per file it is
/// compiled for the language inferred from the file's extension, and files
/// for which that fails are skipped.
#[derive(Debug, Clone, PartialEq, Eq)]
pub struct AstFinder {
    pub pattern: String,
}

impl AstFinder {
    pub fn new(pattern: String) -> (r: AstFinder)
        ensures
            r.pattern == pattern,
    {
        AstFinder { pattern }
    }
}

/// The finder: either strategy behind one interface. Immutable once
/// constructed; a new pattern requires a new finder.
#[derive(Debug, Clone, PartialEq, Eq)]
pub enum Finder {
    Regex(RegexFinder),
    Ast(AstFinder),
}

impl Finder {
    /// A regex finder's pattern is known to compile; a structural finder is
    /// always well formed.
    pub open spec fn wf(&self) -> bool {
        match self {
            Finder::Regex(f) => engines::regex_valid(f.pattern@, f.params.ignore_case),
            Finder::Ast(_) => true,
        }
    }

    /// Builds a finder for `pattern`, or `None` when the pattern is neither
    /// structural nor a valid regular expression. A structural-looking
    /// pattern is always structural, never tried as a regular expression.
    pub fn new(pattern: &str, params: &RegexParams) -> (r: Option<Finder>)
        ensures
            spec_is_ast_pattern(pattern@) ==> (r matches Some(f) && f matches Finder::Ast(a)
                && a.pattern@ == pattern@),
            !spec_is_ast_pattern(pattern@) && engines::regex_valid(pattern@, params.ignore_case)
                ==> (r matches Some(f) && f matches Finder::Regex(g) && g.pattern@ == pattern@
                && g.params == *params),
            !spec_is_ast_pattern(pattern@) && !engines::regex_valid(pattern@, params.ignore_case)
                ==> r is None,
            r matches Some(f) ==> f.wf(),
    {
        if is_ast_pattern(pattern) {
            return Some(Finder::Ast(AstFinder { pattern: pattern.to_owned() }));
        }
        if engines::regex_compiles(pattern, params.ignore_case) {
            Some(Finder::Regex(RegexFinder { pattern: pattern.to_owned(), params: *params }))
        } else {
            None
        }
    }

    /// The matches this finder reports for the document `doc` at `path`: per
    /// line for the regular-expression strategy (whole-document when its
    /// multi-line option is on, and none at all for a binary document), and
    /// per structural hit for the structural strategy.
    pub open spec fn found(&self, path: Seq<char>, doc: Seq<u8>) -> Seq<LineMatchV> {
        match self {
            Finder::Regex(f) => if has_nul(doc) {
                seq![]
            } else if f.params.multi_line {
                ml_hits(doc, engines::regex_ranges(f.pattern@, f.params.ignore_case, doc))
            } else {
                regex_line_hits(f.pattern@, f.params.ignore_case, text::split_lines(doc), 1)
            },
            Finder::Ast(f) => ast_hits(engines::ast_found(f.pattern@, path, doc)),
        }
    }

    /// Finds all matches in the document `doc` belonging to `path`. An
    /// unsupported or binary document yields the empty sequence, never an
    /// error.
    pub fn find(&self, path: &str, doc: &Vec<u8>) -> (r: Vec<LineMatch>)
        requires
            self.wf(),
        ensures
            r@.map_values(|l: LineMatch| l@) == self.found(path@, doc@),
            forall|k: int| 0 <= k < r@.len() ==> line_match_wf(#[trigger] r@[k]@),
    {
        match self {
            Finder::Regex(f) => {
                if contains_nul(doc) {
                    let r: Vec<LineMatch> = Vec::new();
                    proof {
                        assert(r@.map_values(|l: LineMatch| l@) =~= self.found(path@, doc@));
                    }
                    r
                } else if f.params.multi_line {
                    find_multi_line(f.pattern.as_str(), f.params.ignore_case, doc)
                } else {
                    find_single_line(f.pattern.as_str(), f.params.ignore_case, doc)
                }
            },
            Finder::Ast(f) => find_ast(f.pattern.as_str(), path, doc),
        }
    }

    /// The rewritten document this finder computes for `doc` at `path` with
    /// the given replacement, or `None` where the strategy cannot rewrite
    /// that document (for the structural strategy: no inferable language, an
    /// invalid pattern for it, or edits that fail the run-time check).
    pub open spec fn rewritten(&self, path: Seq<char>, doc: Seq<u8>, replacement: Seq<u8>) -> Option<
        Seq<u8>,
    > {
        match self {
            Finder::Regex(f) => Some(
                engines::regex_rewrite(f.pattern@, f.params.ignore_case, doc, replacement),
            ),
            Finder::Ast(f) => match engines::ast_edits(f.pattern@, path, doc, replacement) {
                Some(es) => if edits_wf(doc, 0, es) {
                    Some(spliced(doc, 0, es))
                } else {
                    None
                },
                None => None,
            },
        }
    }

    /// Computes the document with every match replaced. Success is owed for
    /// the regular-expression strategy; the structural strategy returns
    /// `None` exactly where its engine yields no usable edits for this
    /// document.
    pub fn replace(&self, path: &str, doc: &Vec<u8>, replacement: &Vec<u8>) -> (r: Option<Vec<u8>>)
        requires
            self.wf(),
        ensures
            match self.rewritten(path@, doc@, replacement@) {
                Some(d) => r matches Some(v) && v@ == d,
                None => r is None,
            },
    {
        match self {
            Finder::Regex(f) => Some(f.replace(doc, replacement)),
            Finder::Ast(f) => {
                match engines::ast_collect_edits(f.pattern.as_str(), path, doc, replacement) {
                    Some(edits) => {
                        if check_edits(doc, &edits) {
                            Some(apply_edits(doc, &edits))
                        } else {
                            None
                        }
                    },
                    None => None,
                }
            },
        }
    }
}

/// Checks at run time that the structural engine's edits can be applied:
/// each within the document, ascending and non-overlapping.
#[verifier::rlimit(30)]
fn check_edits(doc: &Vec<u8>, edits: &Vec<(usize, usize, Vec<u8>)>) -> (r: bool)
    ensures
        r == edits_wf(
            doc@,
            0,
            edits@.map_values(|e: (usize, usize, Vec<u8>)| (e.0 as int, e.1 as int, e.2@)),
        ),
{
    let ghost es = edits@.map_values(|e: (usize, usize, Vec<u8>)| (e.0 as int, e.1 as int, e.2@));
    let n = edits.len();
    let dlen = doc.len();
    let mut k: usize = 0;
    while k < n
        invariant
            k <= n == edits@.len(),
            dlen == doc@.len(),
            es == edits@.map_values(|e: (usize, usize, Vec<u8>)| (e.0 as int, e.1 as int, e.2@)),
            forall|j: int| 0 <= j < k ==> (#[trigger] es[j]).0 + es[j].1 <= dlen,
            forall|j: int| 0 <= j < k - 1 ==> (#[trigger] es[j]).0 + es[j].1 <= es[j + 1].0,
        decreases n - k,
    {
        proof {
            assert(es[k as int] == (edits@[k as int].0 as int, edits@[k as int].1 as int, edits@[
                k as int].2@));
            if k > 0 {
                assert(es[k - 1] == (edits@[k - 1].0 as int, edits@[k - 1].1 as int, edits@[k
                    - 1].2@));
            }
        }
        let pos = edits[k].0;
        let del = edits[k].1;
        if !(pos <= dlen && del <= dlen - pos) {
            proof {
                assert(es[k as int].0 + es[k as int].1 > dlen);
            }
            return false;
        }
        if k > 0 {
            let prev_end = edits[k - 1].0 + edits[k - 1].1;
            if prev_end > pos {
                proof {
                    assert((#[trigger] es[k - 1]).0 + es[k - 1].1 > es[k as int].0);
                }
                return false;
            }
        }
        k = k + 1;
    }
    true
}

/// The well-formedness the structural engine guarantees of its edits:
/// every edit lies within the document, and the edits are ascending and
/// non-overlapping, counting from `from`.
pub open spec fn edits_wf(doc: Seq<u8>, from: int, es: Seq<(int, int, Seq<u8>)>) -> bool {
    &&& forall|k: int| 0 <= k < es.len() ==> 0 <= (#[trigger] es[k]).0 && es[k].0 + es[k].1
        <= doc.len()
    &&& forall|k: int| 0 <= k < es.len() - 1 ==> (#[trigger] es[k]).0 + es[k].1 <= es[k + 1].0
    &&& (es.len() > 0 ==> from <= es[0].0)
    &&& 0 <= from <= doc.len()
}

/// The document from `from` on, with each edit's span replaced by its
/// insertion: the bytes between edits are kept, each edited span is dropped
/// and its inserted text stands in its place.
pub open spec fn spliced(doc: Seq<u8>, from: int, es: Seq<(int, int, Seq<u8>)>) -> Seq<u8>
    decreases es.len(),
{
    if es.len() == 0 {
        doc.skip(from)
    } else {
        doc.subrange(from, es[0].0) + es[0].2 + spliced(doc, es[0].0 + es[0].1, es.drop_first())
    }
}

/// Applies the structural engine's edits to `doc` in one pass. The edits
/// arrive in ascending document order with non-overlapping spans, so the
/// result is assembled front to back and no edit invalidates the offsets of
/// another.
fn apply_edits(doc: &Vec<u8>, edits: &Vec<(usize, usize, Vec<u8>)>) -> (r: Vec<u8>)
    requires
        edits_wf(doc@, 0, edits@.map_values(|e: (usize, usize, Vec<u8>)| (e.0 as int, e.1 as int, e.2@))),
    ensures
        r@ == spliced(doc@, 0, edits@.map_values(|e: (usize, usize, Vec<u8>)| (e.0 as int, e.1 as int, e.2@))),
{
    let ghost es = edits@.map_values(|e: (usize, usize, Vec<u8>)| (e.0 as int, e.1 as int, e.2@));
    let nedits = edits.len();
    let dlen = doc.len();
    let mut out: Vec<u8> = Vec::new();
    let mut from: usize = 0;
    let mut k: usize = 0;
    proof {
        assert(es.skip(0) =~= es);
    }
    while k < nedits
        invariant
            k <= nedits == edits@.len(),
            dlen == doc@.len(),
            es == edits@.map_values(|e: (usize, usize, Vec<u8>)| (e.0 as int, e.1 as int, e.2@)),
            edits_wf(doc@, from as int, es.skip(k as int)),
            spliced(doc@, 0, es) =~= out@ + spliced(doc@, from as int, es.skip(k as int)),
        decreases nedits - k,
    {
        let ghost tail = es.skip(k as int);
        proof {
            assert(tail[0] == es[k as int]);
            assert(es[k as int] == (edits@[k as int].0 as int, edits@[k as int].1 as int, edits@[k as int].2@));
            assert(tail.drop_first() =~= es.skip(k + 1));
            assert(forall|j: int| 0 <= j < tail.drop_first().len() ==> tail.drop_first()[j]
                == tail[j + 1]);
        }
        let pos = edits[k].0;
        let del = edits[k].1;
        proof {
            assert(pos + del <= dlen);
        }
        let mut keep = text::subvec(doc, from, pos);
        out.append(&mut keep);
        let mut ins = copy_bytes(&edits[k].2);
        out.append(&mut ins);
        from = pos + del;
        k = k + 1;
        proof {
            assert(edits_wf(doc@, from as int, es.skip(k as int)));
        }
    }
    let mut rest = text::subvec(doc, from, doc.len());
    proof {
        assert(es.skip(nedits as int) =~= Seq::<(int, int, Seq<u8>)>::empty());
        assert(doc@.subrange(from as int, doc@.len() as int) =~= doc@.skip(from as int));
    }
    out.append(&mut rest);
    proof {
        assert(out@ =~= spliced(doc@, 0, es));
    }
    out
}

} // verus!
