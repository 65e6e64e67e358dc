//! The per-file step of the walk.
//!
//! The walk itself — enumerating files under the root paths, honoring
//! ignore rules and type filters — happens outside the library; for every
//! regular file it reads, it hands the finder the path and the document and
//! sends the result, if there is one, down the results channel. The decision
//! of whether a file produces a result, and what it holds, is here.

use crate::finder::{file_match_wf, FileMatch, FileMatchV, Finder};
use vstd::prelude::*;

verus! {

/// What a search runs over: the root paths, the names of the selected file
/// types, and the walker's thread count (0 means one thread per core).
#[derive(Debug, Clone, PartialEq, Eq)]
pub struct SearchParams {
    pub paths: Vec<String>,
    pub types: Vec<String>,
    pub threads: usize,
}

/// Applies the finder to one file's contents. A file with no matching lines
/// yields `None`: no [`FileMatch`] is ever produced for it. A file with
/// matches yields them all, in document order.
pub fn walk_file(finder: &Finder, path: &String, doc: &Vec<u8>) -> (r: Option<FileMatch>)
    requires
        finder.wf(),
    ensures
        (r is Some) <==> finder.found(path@, doc@).len() > 0,
        r matches Some(fm) ==> fm@ == (FileMatchV {
            path: path@,
            lines: finder.found(path@, doc@),
        }),
        r matches Some(fm) ==> file_match_wf(fm@),
{
    let lines = finder.find(path.as_str(), doc);
    if lines.len() == 0 {
        proof {
            assert(finder.found(path@, doc@).len() == 0);
        }
        None
    } else {
        let fm = FileMatch { path: path.clone(), lines };
        proof {
            assert(fm@.lines == finder.found(path@, doc@));
        }
        Some(fm)
    }
}

} // verus!
