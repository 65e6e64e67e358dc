//! A live find-and-replace engine over a file tree.
//!
//! The library is the verified core of an interactive search/replace tool:
//! pattern classification (regular expression vs. structural), matching over
//! in-memory documents, a restartable search session with generation-based
//! supersession, a substitution model for live previews, and the computation
//! of the rewritten documents for commit. File and terminal I/O live outside
//! the library and hand it plain values.
//!
//! Documents are byte vectors; match offsets are byte offsets. Line numbers
//! are 1-based throughout.

pub mod config;
pub mod engines;
pub mod finder;
pub mod input;
pub mod keys;
pub mod session;
pub mod subst;
pub mod text;
pub mod walker;
