//! Trusted boundary to the two matching engines.
//!
//! The regular-expression engine is the `regex` crate (its byte-oriented
//! API, so match offsets are byte offsets into the document). The structural
//! engine is `ast-grep`, keyed by a language inferred from the file
//! extension. Each outside result that is a pure function of the arguments
//! is given a name (an uninterpreted spec function); the verified code then
//! reasons over those names.

use crate::finder::MatchRange;
use ast_grep_core::language::Language;
use ast_grep_language::LanguageExt;
use vstd::prelude::*;

verus! {

/// Whether `pattern` compiles as a regular expression under the given case
/// option.
pub uninterp spec fn regex_valid(pattern: Seq<char>, ignore_case: bool) -> bool;

/// The successive non-overlapping match ranges (byte offsets, end
/// exclusive) that the compiled pattern finds in `text`.
pub uninterp spec fn regex_ranges(pattern: Seq<char>, ignore_case: bool, text: Seq<u8>) -> Seq<
    (int, int),
>;

/// `text` with every match of the compiled pattern replaced by
/// `replacement`, with `$`-references expanded from the match's capture
/// groups.
pub uninterp spec fn regex_rewrite(
    pattern: Seq<char>,
    ignore_case: bool,
    text: Seq<u8>,
    replacement: Seq<u8>,
) -> Seq<u8>;

/// Relies on regex::bytes::RegexBuilder::build: compiling depends on the
/// pattern and its options alone.
#[verifier::external_body]
pub(crate) fn regex_compiles(pattern: &str, ignore_case: bool) -> (r: bool)
    ensures
        r == regex_valid(pattern@, ignore_case),
{
    regex::bytes::RegexBuilder::new(pattern).case_insensitive(ignore_case).build().is_ok()
}

/// Relies on regex::bytes::Regex::find_iter: it yields successive
/// non-overlapping matches, in order, whose offsets are valid indices into
/// the haystack.
#[verifier::external_body]
pub(crate) fn regex_find(pattern: &str, ignore_case: bool, text: &Vec<u8>) -> (r: Option<Vec<MatchRange>>)
    ensures
        r is Some <==> regex_valid(pattern@, ignore_case),
        r is Some ==> r->0@.map_values(|m: MatchRange| m@) == regex_ranges(
            pattern@,
            ignore_case,
            text@,
        ),
        r is Some ==> {
            let rs = regex_ranges(pattern@, ignore_case, text@);
            &&& forall|k: int| 0 <= k < rs.len() ==> 0 <= (#[trigger] rs[k]).0 <= rs[k].1
                <= text@.len()
            &&& forall|k: int| 0 <= k < rs.len() - 1 ==> (#[trigger] rs[k]).1 <= rs[k + 1].0
        },
{
    let re = match regex::bytes::RegexBuilder::new(pattern).case_insensitive(ignore_case).build() {
        Ok(re) => re,
        Err(_) => return None,
    };
    Some(re.find_iter(text).map(|m| MatchRange { start: m.start(), end: m.end() }).collect())
}

/// Relies on regex::bytes::Regex::replace_all: the result depends on the
/// pattern, its options, the haystack and the replacement alone, and a
/// haystack without matches is returned unchanged.
#[verifier::external_body]
pub(crate) fn regex_replace(pattern: &str, ignore_case: bool, text: &Vec<u8>, replacement: &Vec<u8>) -> (r:
    Option<Vec<u8>>)
    ensures
        r is Some <==> regex_valid(pattern@, ignore_case),
        r is Some ==> r->0@ == regex_rewrite(pattern@, ignore_case, text@, replacement@),
        r is Some && regex_ranges(pattern@, ignore_case, text@).len() == 0 ==> r->0@ == text@,
{
    let re = match regex::bytes::RegexBuilder::new(pattern).case_insensitive(ignore_case).build() {
        Ok(re) => re,
        Err(_) => return None,
    };
    Some(re.replace_all(text, replacement.as_slice()).into_owned())
}

/// The structural matches of `pattern` in the document `doc` that belongs to
/// `path`: per match, its 0-based start line and its text. Empty when the
/// path has no inferable language, when the pattern is invalid for that
/// language, or when the document is not UTF-8 — those files are skipped,
/// not errored.
pub uninterp spec fn ast_found(pattern: Seq<char>, path: Seq<char>, doc: Seq<u8>) -> Seq<
    (int, Seq<u8>),
>;

/// The structural edits that replacing `pattern` by `replacement` makes in
/// `doc`: per edit, its byte position, the length of the replaced span, and
/// the inserted bytes. `None` when the language cannot be inferred, the
/// pattern is invalid for it, or the document or replacement is not UTF-8.
pub uninterp spec fn ast_edits(
    pattern: Seq<char>,
    path: Seq<char>,
    doc: Seq<u8>,
    replacement: Seq<u8>,
) -> Option<Seq<(int, int, Seq<u8>)>>;

/// Relies on ast_grep_language::SupportLang::from_path,
/// ast_grep_core::Pattern::try_new, LanguageExt::ast_grep and
/// Node::find_all: parsing and matching depend on the pattern, the path's
/// extension and the document alone; a match's start line and text come from
/// its node's position in the source.
#[verifier::external_body]
pub(crate) fn ast_find(pattern: &str, path: &str, doc: &Vec<u8>) -> (r: Vec<(u64, Vec<u8>)>)
    ensures
        r@.map_values(|h: (u64, Vec<u8>)| (h.0 as int, h.1@)) == ast_found(pattern@, path@, doc@),
{
    let Ok(src) = std::str::from_utf8(doc) else { return vec![] };
    let Some(lang) = ast_grep_language::SupportLang::from_path(std::path::Path::new(path)) else {
        return vec![]
    };
    let Ok(pat) = ast_grep_core::Pattern::try_new(pattern, lang) else { return vec![] };
    let root = lang.ast_grep(src);
    root.root().find_all(pat).map(
        |m| (m.start_pos().line() as u64, m.text().as_bytes().to_vec()),
    ).collect()
}

/// Relies on ast_grep_language::SupportLang::from_path,
/// ast_grep_core::Pattern::try_new, LanguageExt::ast_grep and
/// Node::replace_all: the produced edits depend on the arguments alone. (The
/// engine yields them from disjoint matched nodes in document order; the
/// caller re-checks that at run time rather than trusting it.)
#[verifier::external_body]
pub(crate) fn ast_collect_edits(pattern: &str, path: &str, doc: &Vec<u8>, replacement: &Vec<u8>) -> (r:
    Option<Vec<(usize, usize, Vec<u8>)>>)
    ensures
        r is Some <==> ast_edits(pattern@, path@, doc@, replacement@) is Some,
        r is Some ==> r->0@.map_values(|e: (usize, usize, Vec<u8>)| (e.0 as int, e.1 as int, e.2@))
            == ast_edits(pattern@, path@, doc@, replacement@)->0,
{
    let src = std::str::from_utf8(doc).ok()?;
    let rep = std::str::from_utf8(replacement).ok()?;
    let lang = ast_grep_language::SupportLang::from_path(std::path::Path::new(path))?;
    let pat = ast_grep_core::Pattern::try_new(pattern, lang).ok()?;
    let root = lang.ast_grep(src);
    let edits = root.root().replace_all(&pat, rep);
    Some(edits.into_iter().map(|e| (e.position, e.deleted_length, e.inserted_text)).collect())
}

} // verus!
