//! Byte-level text utilities: newline scanning, line splitting and slicing.
//!
//! A document is a `Vec<u8>`; a line break is the byte `0x0a`. The functions
//! here are shared by the finder (per-line matching) and the substitution
//! model (splitting preview text on line boundaries).

use vstd::prelude::*;
use vstd::string::StrSliceExecFns;

verus! {

/// Relies on String::push: it appends the given character to the end of the
/// string.
#[verifier::external_body]
pub(crate) fn push_char(s: &mut String, c: char)
    ensures
        final(s)@ == old(s)@.push(c),
{
    s.push(c);
}

/// The characters of a string slice, as a vector.
pub fn str_to_chars(s: &str) -> (r: Vec<char>)
    ensures
        r@ == s@,
{
    let n = s.unicode_len();
    let mut r: Vec<char> = Vec::new();
    let mut i: usize = 0;
    while i < n
        invariant
            i <= n == s@.len(),
            r@ =~= s@.subrange(0, i as int),
        decreases n - i,
    {
        r.push(s.get_char(i));
        proof {
            assert(r@ =~= s@.subrange(0, i + 1));
        }
        i = i + 1;
    }
    proof {
        assert(s@.subrange(0, n as int) =~= s@);
    }
    r
}

/// A string holding exactly the given characters.
pub fn chars_to_string(v: &Vec<char>) -> (r: String)
    ensures
        r@ == v@,
{
    let n = v.len();
    let mut r = String::new();
    let mut i: usize = 0;
    while i < n
        invariant
            i <= n == v@.len(),
            r@ =~= v@.subrange(0, i as int),
        decreases n - i,
    {
        push_char(&mut r, v[i]);
        proof {
            assert(r@ =~= v@.subrange(0, i + 1));
        }
        i = i + 1;
    }
    proof {
        assert(v@.subrange(0, n as int) =~= v@);
    }
    r
}

/// The line feed byte.
pub const NL: u8 = 10;

/// How many line feed bytes `s` holds.
pub open spec fn newline_count(s: Seq<u8>) -> nat
    decreases s.len(),
{
    if s.len() == 0 {
        0
    } else {
        newline_count(s.drop_last()) + if s.last() == NL {
            1nat
        } else {
            0nat
        }
    }
}

/// The number of lines of `s`, counted as the interface displays them: an
/// empty document has no lines, and a final line without a trailing line
/// feed still counts.
pub open spec fn line_count(s: Seq<u8>) -> nat {
    if s.len() == 0 {
        0
    } else if s.last() == NL {
        newline_count(s)
    } else {
        newline_count(s) + 1
    }
}

/// The index of the first line feed of `s`, or `s.len()` if there is none.
pub open spec fn first_newline(s: Seq<u8>) -> int
    decreases s.len(),
{
    if s.len() == 0 {
        0
    } else if s[0] == NL {
        0
    } else {
        1 + first_newline(s.drop_first())
    }
}

pub proof fn lemma_first_newline_bounds(s: Seq<u8>)
    ensures
        0 <= first_newline(s) <= s.len(),
        forall|j: int| 0 <= j < first_newline(s) ==> s[j] != NL,
        first_newline(s) < s.len() ==> s[first_newline(s)] == NL,
    decreases s.len(),
{
    if s.len() == 0 {
    } else if s[0] == NL {
    } else {
        lemma_first_newline_bounds(s.drop_first());
        assert(forall|j: int| 0 <= j < first_newline(s.drop_first()) ==> s.drop_first()[j] != NL);
        assert forall|j: int| 0 <= j < first_newline(s) implies s[j] != NL by {
            if j > 0 {
                assert(s.drop_first()[j - 1] == s[j]);
            }
        }
        if first_newline(s) < s.len() {
            assert(s.drop_first()[first_newline(s) - 1] == s[first_newline(s)]);
        }
    }
}

/// The lines of `s`, each keeping its trailing line feed; the final line may
/// lack one. Concatenated in order, the lines give back `s`.
pub open spec fn split_lines(s: Seq<u8>) -> Seq<Seq<u8>>
    decreases s.len(),
    via split_lines_decreases
{
    if s.len() == 0 {
        seq![]
    } else {
        let i = first_newline(s);
        if i == s.len() {
            seq![s]
        } else {
            seq![s.subrange(0, i + 1)] + split_lines(s.subrange(i + 1, s.len() as int))
        }
    }
}

#[via_fn]
proof fn split_lines_decreases(s: Seq<u8>) {
    lemma_first_newline_bounds(s);
}

/// Copies `v[start..end]` into a fresh vector.
pub fn subvec(v: &Vec<u8>, start: usize, end: usize) -> (r: Vec<u8>)
    requires
        start <= end <= v@.len(),
    ensures
        r@ == v@.subrange(start as int, end as int),
{
    let mut r: Vec<u8> = Vec::new();
    let mut i: usize = start;
    while i < end
        invariant
            start <= i <= end <= v@.len(),
            r@ == v@.subrange(start as int, i as int),
        decreases end - i,
    {
        r.push(v[i]);
        i = i + 1;
        assert(r@ =~= v@.subrange(start as int, i as int));
    }
    r
}

/// The index of the first line feed of `v` at or after `from`, or `v.len()`
/// if there is none.
pub fn find_newline(v: &Vec<u8>, from: usize) -> (r: usize)
    requires
        from <= v@.len(),
    ensures
        from <= r <= v@.len(),
        r - from == first_newline(v@.skip(from as int)),
        forall|j: int| from <= j < r ==> v@[j] != NL,
        r < v@.len() ==> v@[r as int] == NL,
{
    let len = v.len();
    let mut i: usize = from;
    while i < len
        invariant
            from <= i <= len == v@.len(),
            first_newline(v@.skip(from as int)) == (i - from) + first_newline(
                v@.skip(i as int),
            ),
            forall|j: int| from <= j < i ==> v@[j] != NL,
        decreases len - i,
    {
        if v[i] == NL {
            proof {
                assert(v@.skip(i as int)[0] == NL);
            }
            proof {
                lemma_first_newline_bounds(v@.skip(from as int));
            }
            return i;
        }
        proof {
            assert(v@.skip(i as int)[0] != NL);
            assert(v@.skip(i as int).drop_first() =~= v@.skip(i + 1));
        }
        i = i + 1;
    }
    proof {
        assert(v@.skip(i as int).len() == 0);
        lemma_first_newline_bounds(v@.skip(from as int));
    }
    i
}

/// Splits a document into its lines, each keeping its trailing line feed.
pub fn split_lines_vec(doc: &Vec<u8>) -> (r: Vec<Vec<u8>>)
    ensures
        r@.map_values(|l: Vec<u8>| l@) == split_lines(doc@),
{
    let len = doc.len();
    let mut r: Vec<Vec<u8>> = Vec::new();
    let mut pos: usize = 0;
    proof {
        assert(doc@.skip(0) =~= doc@);
        assert(r@.map_values(|l: Vec<u8>| l@) =~= Seq::<Seq<u8>>::empty());
    }
    while pos < len
        invariant
            pos <= len == doc@.len(),
            split_lines(doc@) =~= r@.map_values(|l: Vec<u8>| l@) + split_lines(
                doc@.skip(pos as int),
            ),
        decreases len - pos,
    {
        let ghost rest = doc@.skip(pos as int);
        let nl = find_newline(doc, pos);
        let stop = if nl < len {
            nl + 1
        } else {
            len
        };
        let line = subvec(doc, pos, stop);
        proof {
            lemma_first_newline_bounds(rest);
            assert(rest.len() > 0);
            let i = first_newline(rest);
            assert(i == nl - pos);
            if nl < len {
                assert(split_lines(rest) == seq![rest.subrange(0, i + 1)] + split_lines(
                    rest.subrange(i + 1, rest.len() as int),
                ));
                assert(rest.subrange(0, i + 1) =~= doc@.subrange(pos as int, stop as int));
                assert(rest.subrange(i + 1, rest.len() as int) =~= doc@.skip(stop as int));
            } else {
                assert(i == rest.len());
                assert(split_lines(rest) == seq![rest]);
                assert(rest =~= doc@.subrange(pos as int, stop as int));
            }
        }
        r.push(line);
        proof {
            assert(r@.map_values(|l: Vec<u8>| l@) =~= r@.map_values(|l: Vec<u8>| l@).drop_last()
                + seq![doc@.subrange(pos as int, stop as int)]);
            if nl >= len {
                assert(split_lines(doc@.skip(stop as int)) =~= Seq::<Seq<u8>>::empty());
            }
        }
        pos = stop;
    }
    proof {
        assert(split_lines(doc@.skip(pos as int)) =~= Seq::<Seq<u8>>::empty());
        assert(r@.map_values(|l: Vec<u8>| l@) =~= split_lines(doc@));
    }
    r
}

/// Counts the lines of `s` as `line_count` does, saturating at `u16::MAX`
/// so the result can size a display row.
pub fn count_lines_u16(s: &Vec<u8>) -> (r: u16)
    ensures
        r as nat == if line_count(s@) <= u16::MAX as nat {
            line_count(s@)
        } else {
            u16::MAX as nat
        },
{
    let len = s.len();
    let mut i: usize = 0;
    let mut n: u16 = 0;
    let mut saturated = false;
    while i < len
        invariant
            i <= len == s@.len(),
            !saturated ==> n as nat == newline_count(s@.subrange(0, i as int)),
            saturated ==> n == u16::MAX && newline_count(s@.subrange(0, i as int))
                >= u16::MAX as nat,
        decreases len - i,
    {
        proof {
            assert(s@.subrange(0, i + 1).drop_last() =~= s@.subrange(0, i as int));
        }
        if s[i] == NL {
            if n < u16::MAX {
                n = n + 1;
            } else {
                saturated = true;
            }
        }
        i = i + 1;
    }
    proof {
        assert(s@.subrange(0, len as int) =~= s@);
    }
    if len == 0 {
        return 0;
    }
    if s[len - 1] == NL {
        n
    } else {
        if n < u16::MAX && !saturated {
            n + 1
        } else {
            u16::MAX
        }
    }
}

} // verus!
