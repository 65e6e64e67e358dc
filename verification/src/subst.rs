//! The substitution model: live replacement previews.
//!
//! Every matched line becomes a [`TextSubstitution`]: its text, and per
//! sub-range the replacement computed by applying the finder's replace
//! semantics to just that sub-text — the same semantics commit uses, so the
//! preview is lossless. Editing the replacement string recomputes the
//! previews from the cached text alone; no file is re-read and no search is
//! re-run.
//!
//! Rendering splits the cached text and the previews on line boundaries into
//! styled spans; that splitting is a pure function over the text and is
//! verified here, independently of the search engine.

use crate::config::{Style, Theme};
use crate::finder::{line_match_wf, FileMatch, Finder, LineMatch, LineMatchV, MatchRange};
use crate::text;
use vstd::prelude::*;

verus! {

/// The mathematical value of a [`Span`].
pub ghost struct SpanV {
    pub content: Seq<u8>,
    pub style: Style,
}

/// A run of bytes drawn in one style.
#[derive(Debug, Clone, PartialEq, Eq)]
pub struct Span {
    pub content: Vec<u8>,
    pub style: Style,
}

impl View for Span {
    type V = SpanV;

    open spec fn view(&self) -> SpanV {
        SpanV { content: self.content@, style: self.style }
    }
}

/// One rendered line: its spans in order.
#[derive(Debug, Clone, PartialEq, Eq)]
pub struct Line {
    pub spans: Vec<Span>,
}

impl View for Line {
    type V = Seq<SpanV>;

    open spec fn view(&self) -> Seq<SpanV> {
        self.spans@.map_values(|s: Span| s@)
    }
}

/// Rendered text: its lines in order.
#[derive(Debug, Clone, PartialEq, Eq)]
pub struct Text {
    pub lines: Vec<Line>,
}

/// Appending a span extends the last line, or opens the first.
pub open spec fn append_span(t: Seq<Seq<SpanV>>, sp: SpanV) -> Seq<Seq<SpanV>> {
    if t.len() == 0 {
        seq![seq![sp]]
    } else {
        t.update(t.len() - 1, t.last().push(sp))
    }
}

/// Appending a line opens a new, empty line.
pub open spec fn append_line(t: Seq<Seq<SpanV>>) -> Seq<Seq<SpanV>> {
    t.push(seq![])
}

impl View for Text {
    type V = Seq<Seq<SpanV>>;

    open spec fn view(&self) -> Seq<Seq<SpanV>> {
        self.lines@.map_values(|l: Line| l@)
    }
}

impl Text {
    /// Rendered text with no lines at all.
    pub fn new() -> (r: Text)
        ensures
            r@ == Seq::<Seq<SpanV>>::empty(),
    {
        let r = Text { lines: Vec::new() };
        proof {
            assert(r@ =~= Seq::<Seq<SpanV>>::empty());
        }
        r
    }

    /// Adds a span to the last line, opening the first line if none exists.
    pub fn push_span(&mut self, sp: Span)
        ensures
            final(self)@ == append_span(old(self)@, sp@),
    {
        let ghost spv = sp@;
        match self.lines.pop() {
            None => {
                let mut spans: Vec<Span> = Vec::new();
                spans.push(sp);
                self.lines.push(Line { spans });
                proof {
                    assert(self@ =~~= append_span(old(self)@, spv));
                }
            },
            Some(mut l) => {
                l.spans.push(sp);
                self.lines.push(l);
                proof {
                    assert(self@ =~~= append_span(old(self)@, spv));
                }
            },
        }
    }

    /// Opens a new, empty line.
    pub fn push_line(&mut self)
        ensures
            final(self)@ == append_line(old(self)@),
    {
        self.lines.push(Line { spans: Vec::new() });
        proof {
            assert(self@ =~~= append_line(old(self)@));
        }
    }
}

/// A line's text without its trailing line feed.
pub open spec fn strip_nl(l: Seq<u8>) -> Seq<u8> {
    if l.len() > 0 && l.last() == text::NL {
        l.drop_last()
    } else {
        l
    }
}

/// The text of each line of `s`, without the line feeds.
pub open spec fn segs_of(s: Seq<u8>) -> Seq<Seq<u8>> {
    text::split_lines(s).map_values(|l: Seq<u8>| strip_nl(l))
}

/// Pushing segments: the first continues the current line, each further one
/// starts a new line.
pub open spec fn push_segs(
    t: Seq<Seq<SpanV>>,
    segs: Seq<Seq<u8>>,
    style: Style,
    first: bool,
) -> Seq<Seq<SpanV>>
    decreases segs.len(),
{
    if segs.len() == 0 {
        t
    } else {
        let base = if first {
            t
        } else {
            append_line(t)
        };
        push_segs(append_span(base, SpanV { content: segs[0], style }), segs.drop_first(), style, false)
    }
}

/// What pushing the multi-line string `s` onto rendered text produces: its
/// first line continues the current line, each further line starts a new
/// one, and a trailing line feed leaves a fresh, empty line open.
pub open spec fn push_lines_spec(t: Seq<Seq<SpanV>>, s: Seq<u8>, style: Style) -> Seq<
    Seq<SpanV>,
> {
    let t1 = push_segs(t, segs_of(s), style, true);
    if s.len() > 0 && s.last() == text::NL {
        append_line(t1)
    } else {
        t1
    }
}

/// Pushes the multi-line string `s` onto `out`, one span per line in the
/// given style.
pub fn push_lines(s: &Vec<u8>, out: &mut Text, style: Style)
    ensures
        final(out)@ == push_lines_spec(old(out)@, s@, style),
{
    let lines = text::split_lines_vec(s);
    let ghost segs = segs_of(s@);
    let n = lines.len();
    let mut k: usize = 0;
    proof {
        assert(segs.skip(0) =~= segs);
    }
    while k < n
        invariant
            k <= n == lines@.len(),
            lines@.map_values(|l: Vec<u8>| l@) == text::split_lines(s@),
            segs == segs_of(s@),
            push_segs(old(out)@, segs, style, true) == push_segs(
                out@,
                segs.skip(k as int),
                style,
                k == 0,
            ),
        decreases n - k,
    {
        let ghost tail = segs.skip(k as int);
        proof {
            assert(tail[0] == segs[k as int]);
            assert(segs[k as int] == strip_nl(lines@[k as int]@));
            assert(tail.drop_first() =~= segs.skip(k + 1));
        }
        let mut seg = crate::text::subvec(&lines[k], 0, lines[k].len());
        proof {
            assert(seg@ =~= lines@[k as int]@);
        }
        if seg.len() > 0 && seg[seg.len() - 1] == text::NL {
            seg.pop();
            proof {
                assert(seg@ =~= strip_nl(lines@[k as int]@));
            }
        }
        proof {
            assert(seg@ == segs[k as int]);
        }
        if k > 0 {
            out.push_line();
        }
        out.push_span(Span { content: seg, style });
        k = k + 1;
    }
    proof {
        assert(segs.skip(n as int) =~= Seq::<Seq<u8>>::empty());
    }
    let slen = s.len();
    if slen > 0 && s[slen - 1] == text::NL {
        out.push_line();
    }
}

/// The mathematical value of a [`Substitution`].
pub ghost struct SubstitutionV {
    pub range: (int, int),
    pub replacement: Seq<u8>,
}

/// One sub-range of a matched text together with its computed replacement
/// preview; an empty preview renders the original sub-text instead.
#[derive(Debug, Clone, PartialEq, Eq)]
pub struct Substitution {
    pub range: MatchRange,
    pub replacement: Vec<u8>,
}

impl View for Substitution {
    type V = SubstitutionV;

    open spec fn view(&self) -> SubstitutionV {
        SubstitutionV { range: self.range@, replacement: self.replacement@ }
    }
}

/// The mathematical value of a [`TextSubstitution`].
pub ghost struct TextSubstitutionV {
    pub start_line: int,
    pub line_count: int,
    pub text: Seq<u8>,
    pub matches: Seq<SubstitutionV>,
}

/// One matched line with its replacement previews: the 1-based first line
/// number, how many display lines the text spans, the matched text, and the
/// previews per sub-range.
#[derive(Debug, Clone, PartialEq, Eq)]
pub struct TextSubstitution {
    pub start_line: u64,
    pub line_count: u16,
    pub text: Vec<u8>,
    pub matches: Vec<Substitution>,
}

impl View for TextSubstitution {
    type V = TextSubstitutionV;

    open spec fn view(&self) -> TextSubstitutionV {
        TextSubstitutionV {
            start_line: self.start_line as int,
            line_count: self.line_count as int,
            text: self.text@,
            matches: self.matches@.map_values(|m: Substitution| m@),
        }
    }
}

/// Ranges lie within the text, in document order without overlap.
pub open spec fn text_sub_wf(v: TextSubstitutionV) -> bool {
    &&& forall|k: int|
        0 <= k < v.matches.len() ==> 0 <= (#[trigger] v.matches[k]).range.0
            <= v.matches[k].range.1 <= v.text.len()
    &&& forall|k: int|
        0 <= k < v.matches.len() - 1 ==> (#[trigger] v.matches[k]).range.1 <= v.matches[k
            + 1].range.0
}

/// The preview for one sub-text: the finder's rewrite of just that text, or
/// nothing where the finder cannot rewrite it.
pub open spec fn preview_of(
    finder: Finder,
    path: Seq<char>,
    subtext: Seq<u8>,
    replacement: Seq<u8>,
) -> Seq<u8> {
    match finder.rewritten(path, subtext, replacement) {
        Some(d) => d,
        None => seq![],
    }
}

/// The previews of all of a line match's sub-ranges.
pub open spec fn subs_of(
    finder: Finder,
    path: Seq<char>,
    line: LineMatchV,
    replacement: Seq<u8>,
) -> Seq<SubstitutionV> {
    line.ranges.map_values(
        |r: (int, int)|
            SubstitutionV {
                range: r,
                replacement: preview_of(finder, path, line.text.subrange(r.0, r.1), replacement),
            },
    )
}

/// The substitution derived from one line match under the current
/// replacement string.
pub open spec fn text_sub_of(
    finder: Finder,
    path: Seq<char>,
    line: LineMatchV,
    replacement: Seq<u8>,
) -> TextSubstitutionV {
    TextSubstitutionV {
        start_line: line.number,
        line_count: if text::line_count(line.text) <= u16::MAX as nat {
            text::line_count(line.text) as int
        } else {
            u16::MAX as int
        },
        text: line.text,
        matches: subs_of(finder, path, line, replacement),
    }
}

/// Computes the preview of one sub-text.
fn preview(finder: &Finder, path: &String, subtext: &Vec<u8>, replacement: &Vec<u8>) -> (r: Vec<
    u8,
>)
    requires
        finder.wf(),
    ensures
        r@ == preview_of(*finder, path@, subtext@, replacement@),
{
    match finder.replace(path.as_str(), subtext, replacement) {
        Some(d) => d,
        None => Vec::new(),
    }
}

impl TextSubstitution {
    /// Derives the substitution for one matched line, computing a preview
    /// for each of its sub-ranges.
    pub fn new(line: LineMatch, finder: &Finder, path: &String, replacement: &Vec<u8>) -> (r:
        TextSubstitution)
        requires
            finder.wf(),
            line_match_wf(line@),
        ensures
            r@ == text_sub_of(*finder, path@, line@, replacement@),
            text_sub_wf(r@),
    {
        let ghost lv = line@;
        let nr = line.ranges.len();
        let mut matches: Vec<Substitution> = Vec::new();
        let mut k: usize = 0;
        while k < nr
            invariant
                finder.wf(),
                line_match_wf(lv),
                k <= nr == line.ranges@.len(),
                lv == line@,
                matches@.map_values(|m: Substitution| m@) =~= subs_of(
                    *finder,
                    path@,
                    lv,
                    replacement@,
                ).subrange(0, k as int),
            decreases nr - k,
        {
            let ghost target = subs_of(*finder, path@, lv, replacement@);
            proof {
                assert(lv.ranges[k as int] == line.ranges@[k as int]@);
                assert(target[k as int] == SubstitutionV {
                    range: lv.ranges[k as int],
                    replacement: preview_of(
                        *finder,
                        path@,
                        lv.text.subrange(lv.ranges[k as int].0, lv.ranges[k as int].1),
                        replacement@,
                    ),
                });
            }
            let range = line.ranges[k];
            let subtext = text::subvec(&line.text, range.start, range.end);
            let rep = preview(finder, path, &subtext, replacement);
            let ghost old_views = matches@.map_values(|m: Substitution| m@);
            matches.push(Substitution { range, replacement: rep });
            proof {
                assert(matches@.map_values(|m: Substitution| m@) =~= old_views + seq![
                    target[k as int],
                ]);
                assert(matches@.map_values(|m: Substitution| m@) =~= target.subrange(0, k + 1));
            }
            k = k + 1;
        }
        proof {
            assert(subs_of(*finder, path@, lv, replacement@).subrange(0, nr as int) =~= subs_of(
                *finder,
                path@,
                lv,
                replacement@,
            ));
        }
        let line_count = text::count_lines_u16(&line.text);
        let r = TextSubstitution { start_line: line.number, line_count, text: line.text, matches };
        proof {
            assert(r@ == text_sub_of(*finder, path@, lv, replacement@));
        }
        r
    }

    /// Recomputes every preview from the cached text under a new replacement
    /// string; the text and the ranges stay as they are, and no file is
    /// re-read.
    pub fn update_replacement(&mut self, finder: &Finder, path: &String, replacement: &Vec<u8>)
        requires
            finder.wf(),
            text_sub_wf(old(self)@),
        ensures
            final(self)@.start_line == old(self)@.start_line,
            final(self)@.line_count == old(self)@.line_count,
            final(self)@.text == old(self)@.text,
            final(self)@.matches.len() == old(self)@.matches.len(),
            forall|k: int|
                0 <= k < old(self)@.matches.len() ==> (#[trigger] final(self)@.matches[k]).range
                    == old(self)@.matches[k].range,
            forall|k: int|
                0 <= k < old(self)@.matches.len() ==> (#[trigger] final(self)@.matches[k]).replacement
                    == preview_of(
                    *finder,
                    path@,
                    old(self)@.text.subrange(
                        old(self)@.matches[k].range.0,
                        old(self)@.matches[k].range.1,
                    ),
                    replacement@,
                ),
            text_sub_wf(final(self)@),
    {
        let nr = self.matches.len();
        let mut updated: Vec<Substitution> = Vec::new();
        let mut k: usize = 0;
        while k < nr
            invariant
                finder.wf(),
                text_sub_wf(old(self)@),
                *self == *old(self),
                k <= nr == self.matches@.len(),
                updated@.len() == k,
                forall|j: int|
                    0 <= j < k ==> (#[trigger] updated@[j]@).range == old(self)@.matches[j].range,
                forall|j: int|
                    0 <= j < k ==> (#[trigger] updated@[j]@).replacement == preview_of(
                        *finder,
                        path@,
                        old(self)@.text.subrange(
                            old(self)@.matches[j].range.0,
                            old(self)@.matches[j].range.1,
                        ),
                        replacement@,
                    ),
            decreases nr - k,
        {
            proof {
                assert(old(self)@.matches[k as int] == self.matches@[k as int]@);
            }
            let range = self.matches[k].range;
            let subtext = text::subvec(&self.text, range.start, range.end);
            let rep = preview(finder, path, &subtext, replacement);
            updated.push(Substitution { range, replacement: rep });
            k = k + 1;
        }
        self.matches = updated;
    }
}

/// The mathematical value of a [`FileSubstitution`].
pub ghost struct FileSubstitutionV {
    pub path: Seq<char>,
    pub subs: Seq<TextSubstitutionV>,
}

/// All the substitutions of one matched file.
#[derive(Debug, Clone, PartialEq, Eq)]
pub struct FileSubstitution {
    pub path: String,
    pub subs: Vec<TextSubstitution>,
}

impl View for FileSubstitution {
    type V = FileSubstitutionV;

    open spec fn view(&self) -> FileSubstitutionV {
        FileSubstitutionV {
            path: self.path@,
            subs: self.subs@.map_values(|s: TextSubstitution| s@),
        }
    }
}

/// Every substitution of the file is well formed.
pub open spec fn file_sub_wf(v: FileSubstitutionV) -> bool {
    forall|k: int| 0 <= k < v.subs.len() ==> text_sub_wf(#[trigger] v.subs[k])
}

/// The sum of the display line counts, most recent line last.
pub open spec fn sum_line_counts(subs: Seq<TextSubstitutionV>) -> int
    decreases subs.len(),
{
    if subs.len() == 0 {
        0
    } else {
        sum_line_counts(subs.drop_last()) + subs.last().line_count
    }
}

impl FileSubstitution {
    /// Derives the substitutions for every matched line of one file.
    pub fn new(file: FileMatch, finder: &Finder, replacement: &Vec<u8>) -> (r: FileSubstitution)
        requires
            finder.wf(),
            forall|k: int| 0 <= k < file@.lines.len() ==> line_match_wf(#[trigger] file@.lines[k]),
        ensures
            r@.path == file@.path,
            r@.subs =~= file@.lines.map_values(
                |l: LineMatchV| text_sub_of(*finder, file@.path, l, replacement@),
            ),
            file_sub_wf(r@),
    {
        let ghost fv = file@;
        let path = file.path;
        let lines = file.lines;
        let n = lines.len();
        let mut subs: Vec<TextSubstitution> = Vec::new();
        let mut k: usize = 0;
        while k < n
            invariant
                finder.wf(),
                k <= n == lines@.len(),
                path@ == fv.path,
                lines@.map_values(|l: LineMatch| l@) == fv.lines,
                forall|j: int| 0 <= j < fv.lines.len() ==> line_match_wf(#[trigger] fv.lines[j]),
                subs@.map_values(|s: TextSubstitution| s@) =~= fv.lines.subrange(
                    0,
                    k as int,
                ).map_values(|l: LineMatchV| text_sub_of(*finder, fv.path, l, replacement@)),
                forall|j: int|
                    0 <= j < subs@.len() ==> text_sub_wf(#[trigger] subs@[j]@),
            decreases n - k,
        {
            proof {
                assert(fv.lines[k as int] == lines@[k as int]@);
            }
            let lm = copy_line_match(&lines, k);
            let ts = TextSubstitution::new(lm, finder, &path, replacement);
            let ghost old_views = subs@.map_values(|s: TextSubstitution| s@);
            subs.push(ts);
            proof {
                assert(subs@.map_values(|s: TextSubstitution| s@) =~= old_views + seq![ts@]);
                assert(fv.lines.subrange(0, k + 1).map_values(
                    |l: LineMatchV| text_sub_of(*finder, fv.path, l, replacement@),
                ) =~= fv.lines.subrange(0, k as int).map_values(
                    |l: LineMatchV| text_sub_of(*finder, fv.path, l, replacement@),
                ) + seq![text_sub_of(*finder, fv.path, fv.lines[k as int], replacement@)]);
            }
            k = k + 1;
        }
        proof {
            assert(fv.lines.subrange(0, n as int) =~= fv.lines);
        }
        FileSubstitution { path, subs }
    }

    /// Recomputes every preview of this file under a new replacement string.
    pub fn update_replacement(&mut self, finder: &Finder, replacement: &Vec<u8>)
        requires
            finder.wf(),
            file_sub_wf(old(self)@),
        ensures
            final(self)@.path == old(self)@.path,
            final(self)@.subs.len() == old(self)@.subs.len(),
            forall|k: int|
                0 <= k < old(self)@.subs.len() ==> {
                    let o = old(self)@.subs[k];
                    let f = #[trigger] final(self)@.subs[k];
                    &&& f.start_line == o.start_line
                    &&& f.line_count == o.line_count
                    &&& f.text == o.text
                    &&& f.matches.len() == o.matches.len()
                    &&& forall|j: int|
                        0 <= j < o.matches.len() ==> (#[trigger] f.matches[j]).range
                            == o.matches[j].range
                    &&& forall|j: int|
                        0 <= j < o.matches.len() ==> (#[trigger] f.matches[j]).replacement
                            == preview_of(
                            *finder,
                            old(self)@.path,
                            o.text.subrange(o.matches[j].range.0, o.matches[j].range.1),
                            replacement@,
                        )
                },
            file_sub_wf(final(self)@),
    {
        let n = self.subs.len();
        let mut k: usize = 0;
        let path = self.path.clone();
        proof {
            assert(path@ == old(self)@.path);
            assert(forall|j: int|
                0 <= j < n ==> text_sub_wf((#[trigger] self.subs@[j])@)) by {
                assert(forall|j: int|
                    0 <= j < n ==> (#[trigger] self.subs@[j])@ == old(self)@.subs[j]);
            }
        }
        while k < n
            invariant
                finder.wf(),
                k <= n == self.subs@.len(),
                n == old(self)@.subs.len(),
                path@ == old(self)@.path,
                self.path@ == old(self)@.path,
                forall|j: int|
                    k <= j < n ==> #[trigger] self.subs@[j] == old(self).subs@[j],
                forall|j: int| k <= j < n ==> text_sub_wf(#[trigger] self.subs@[j]@),
                forall|j: int|
                    0 <= j < k ==> {
                        let o = old(self)@.subs[j];
                        let f = (#[trigger] self.subs@[j])@;
                        &&& f.start_line == o.start_line
                        &&& f.line_count == o.line_count
                        &&& f.text == o.text
                        &&& f.matches.len() == o.matches.len()
                        &&& text_sub_wf(f)
                        &&& forall|i: int|
                            0 <= i < o.matches.len() ==> (#[trigger] f.matches[i]).range
                                == o.matches[i].range
                        &&& forall|i: int|
                            0 <= i < o.matches.len() ==> (#[trigger] f.matches[i]).replacement
                                == preview_of(
                                *finder,
                                old(self)@.path,
                                o.text.subrange(o.matches[i].range.0, o.matches[i].range.1),
                                replacement@,
                            )
                    },
        decreases n - k,
        {
            proof {
                assert(old(self)@.subs[k as int] == old(self).subs@[k as int]@);
            }
            let ghost before = self.subs@;
            let mut ts = self.subs.remove(k);
            ts.update_replacement(finder, &path, replacement);
            self.subs.insert(k, ts);
            proof {
                assert(self.subs@ =~= before.update(k as int, ts));
            }
            k = k + 1;
        }
    }

    /// How many display lines this file's substitutions take together;
    /// saturates at the tallest displayable height.
    pub fn line_count(&self) -> (r: u16)
        ensures
            r as int == if sum_line_counts(self@.subs) <= u16::MAX as int {
                sum_line_counts(self@.subs)
            } else {
                u16::MAX as int
            },
    {
        let n = self.subs.len();
        let mut total: u16 = 0;
        let mut saturated = false;
        let mut k: usize = 0;
        while k < n
            invariant
                k <= n == self.subs@.len(),
                !saturated ==> total as int == sum_line_counts(
                    self@.subs.subrange(0, k as int),
                ),
                saturated ==> total == u16::MAX && sum_line_counts(
                    self@.subs.subrange(0, k as int),
                ) > u16::MAX as int,
            decreases n - k,
        {
            proof {
                assert(self@.subs.subrange(0, k + 1).drop_last() =~= self@.subs.subrange(
                    0,
                    k as int,
                ));
                assert(self@.subs.subrange(0, k + 1).last() == self@.subs[k as int]);
                assert(self@.subs[k as int] == self.subs@[k as int]@);
            }
            let c = self.subs[k].line_count;
            if !saturated {
                if total as u32 + c as u32 <= u16::MAX as u32 {
                    total = total + c;
                } else {
                    total = u16::MAX;
                    saturated = true;
                }
            }
            k = k + 1;
        }
        proof {
            assert(self@.subs.subrange(0, n as int) =~= self@.subs);
        }
        total
    }
}

/// Copies the `k`-th line match out of a vector.
fn copy_line_match(lines: &Vec<LineMatch>, k: usize) -> (r: LineMatch)
    requires
        k < lines@.len(),
    ensures
        r@ == lines@[k as int]@,
{
    let number = lines[k].number;
    let t = text::subvec(&lines[k].text, 0, lines[k].text.len());
    proof {
        assert(t@ =~= lines@[k as int].text@);
    }
    let nr = lines[k].ranges.len();
    let mut ranges: Vec<MatchRange> = Vec::new();
    let mut j: usize = 0;
    while j < nr
        invariant
            j <= nr == lines@[k as int].ranges@.len(),
            k < lines@.len(),
            ranges@ =~= lines@[k as int].ranges@.subrange(0, j as int),
        decreases nr - j,
    {
        ranges.push(lines[k].ranges[j]);
        proof {
            assert(ranges@ =~= lines@[k as int].ranges@.subrange(0, j + 1));
        }
        j = j + 1;
    }
    proof {
        assert(ranges@ =~= lines@[k as int].ranges@);
    }
    let r = LineMatch { number, text: t, ranges };
    proof {
        assert(r@ == lines@[k as int]@);
    }
    r
}

/// Rendering the matches of one substitution, left to right: the text
/// between matches in the base style, each match as its preview in the
/// replace style — or, when the preview is empty, as the original sub-text
/// in the find style. Returns the rendered text and the end of the last
/// rendered range.
pub open spec fn render_matches(
    t: Seq<Seq<SpanV>>,
    body: Seq<u8>,
    ms: Seq<SubstitutionV>,
    last_end: int,
    theme: Theme,
) -> (Seq<Seq<SpanV>>, int)
    decreases ms.len(),
{
    if ms.len() == 0 {
        (t, last_end)
    } else {
        let m = ms[0];
        let t1 = if last_end < m.range.0 {
            push_lines_spec(t, body.subrange(last_end, m.range.0), theme.base)
        } else {
            t
        };
        let t2 = if m.replacement.len() == 0 {
            push_lines_spec(t1, body.subrange(m.range.0, m.range.1), theme.find)
        } else {
            push_lines_spec(t1, m.replacement, theme.replace)
        };
        render_matches(t2, body, ms.drop_first(), m.range.1, theme)
    }
}

/// The full rendering of one substitution: its matches, then the tail of
/// the text after the last match, in the base style.
pub open spec fn to_text_spec(v: TextSubstitutionV, theme: Theme) -> Seq<Seq<SpanV>> {
    let (t, last_end) = render_matches(Seq::empty(), v.text, v.matches, 0, theme);
    if last_end < v.text.len() {
        push_lines_spec(t, v.text.skip(last_end), theme.base)
    } else {
        t
    }
}

impl TextSubstitution {
    /// Renders this substitution for display: untouched text in the base
    /// style, matched sub-texts struck as finds or shown as their previews,
    /// split on line boundaries.
    pub fn to_text(&self, theme: &Theme) -> (r: Text)
        requires
            text_sub_wf(self@),
        ensures
            r@ == to_text_spec(self@, *theme),
    {
        let mut out = Text::new();
        let nm = self.matches.len();
        let mut last_end: usize = 0;
        let mut k: usize = 0;
        let ghost all = self@.matches;
        proof {
            assert(all.skip(0) =~= all);
        }
        while k < nm
            invariant
                text_sub_wf(self@),
                k <= nm == self.matches@.len(),
                all == self@.matches,
                last_end <= self@.text.len(),
                k > 0 ==> last_end == all[k - 1].range.1,
                k == 0 ==> last_end == 0,
                render_matches(Seq::empty(), self@.text, all, 0, *theme) == render_matches(
                    out@,
                    self@.text,
                    all.skip(k as int),
                    last_end as int,
                    *theme,
                ),
            decreases nm - k,
        {
            let ghost tail = all.skip(k as int);
            proof {
                assert(tail[0] == all[k as int]);
                assert(all[k as int] == self.matches@[k as int]@);
                assert(tail.drop_first() =~= all.skip(k + 1));
            }
            let m_start = self.matches[k].range.start;
            let m_end = self.matches[k].range.end;
            if last_end < m_start {
                let before = text::subvec(&self.text, last_end, m_start);
                push_lines(&before, &mut out, theme.base);
            }
            if self.matches[k].replacement.len() == 0 {
                let shown = text::subvec(&self.text, m_start, m_end);
                push_lines(&shown, &mut out, theme.find);
            } else {
                let rep = text::subvec(
                    &self.matches[k].replacement,
                    0,
                    self.matches[k].replacement.len(),
                );
                proof {
                    assert(rep@ =~= all[k as int].replacement);
                }
                push_lines(&rep, &mut out, theme.replace);
            }
            last_end = m_end;
            k = k + 1;
        }
        proof {
            assert(all.skip(nm as int) =~= Seq::<SubstitutionV>::empty());
        }
        let tlen = self.text.len();
        if last_end < tlen {
            let rest = text::subvec(&self.text, last_end, tlen);
            proof {
                assert(rest@ =~= self@.text.skip(last_end as int));
            }
            push_lines(&rest, &mut out, theme.base);
        }
        out
    }
}

} // verus!
