//! The search session and the application core.
//!
//! A session owns the restart protocol. Every accepted pattern edit bumps a
//! generation counter; the walk started for a pattern carries that
//! generation, and a result is accepted only while its generation is
//! current. Starting a new pattern therefore supersedes the old walk
//! wholesale: its buffered results are rejected on arrival, never shown and
//! never committed. Outside the library, the generation is realized as the
//! identity of the results channel — dropping the old receiver stops the
//! old walk.
//!
//! The session also holds the application core: the two input lines, the
//! options, the scroll position, and the cached substitutions. Key presses
//! are dispatched here; the caller runs the event loop, the walk and all
//! file I/O, and hands events in as plain values.

use crate::config::Config;
use crate::engines;
use crate::finder::{file_match_wf, spec_is_ast_pattern, FileMatch, FileMatchV, Finder, RegexParams};
use crate::input::{input_step, LineInput};
use crate::keys::{spec_lookup, Action, Key};
use crate::subst::{file_sub_wf, text_sub_of, FileSubstitution};
use vstd::prelude::*;
use vstd::string::StrSliceExecFns;
use vstd::string::StringExecFns;
use vstd::utf8::encode_utf8;

verus! {

/// How many off-screen results to keep buffered so scrolling is instant.
pub const SEARCH_BUFFER: usize = 3;

/// Where the session stands: no valid pattern, a walk running, a commit
/// draining the walk's remainder, or the walk finished.
#[derive(Debug, Clone, Copy, PartialEq, Eq, Structural)]
pub enum SearchState {
    Idle,
    Searching,
    Draining,
    Completed,
}

/// What the caller should do after a key press.
#[derive(Debug, Clone, Copy, PartialEq, Eq, Structural)]
pub enum State {
    Continue,
    Exit,
    Confirm,
}

/// The outcome of a key press: what to do next, and whether a new walk must
/// be started for the current generation.
#[derive(Debug, Clone, Copy, PartialEq, Eq, Structural)]
pub struct KeyOutcome {
    pub state: State,
    pub restart: bool,
}

/// The application core: session state plus everything the interface edits.
#[derive(Debug)]
pub struct Session {
    pub paths: Vec<String>,
    pub types: Vec<String>,
    pub config: Config,
    pub subs: Vec<FileSubstitution>,
    pub pattern_input: LineInput,
    pub replacement_input: LineInput,
    pub editing_pattern: bool,
    pub finder: Option<Finder>,
    pub ignore_case: bool,
    pub multi_line: bool,
    pub scroll: usize,
    pub generation: u64,
    pub state: SearchState,
}

/// The replacement string as the engines consume it.
pub open spec fn replacement_bytes(s: Session) -> Seq<u8> {
    encode_utf8(s.replacement_input@.pattern)
}

impl Session {
    /// The finder compiles, the cached substitutions are well formed, the
    /// inputs are well formed, and the scroll stays within the cache.
    pub open spec fn wf(&self) -> bool {
        &&& match self.finder {
            Some(f) => f.wf(),
            None => true,
        }
        &&& forall|k: int| 0 <= k < self.subs@.len() ==> file_sub_wf((#[trigger] self.subs@[k])@)
        &&& self.pattern_input.wf()
        &&& self.replacement_input.wf()
        &&& self.scroll <= self.subs@.len()
    }

    /// A fresh session over the given roots (the current directory when none
    /// are given), awaiting its first pattern.
    pub fn new(
        paths: Vec<String>,
        types: Vec<String>,
        config: Config,
        ignore_case: bool,
        multi_line: bool,
    ) -> (r: Session)
        ensures
            paths@.len() > 0 ==> r.paths == paths,
            paths@.len() == 0 ==> r.paths@.len() == 1 && r.paths@[0]@ == "."@,
            r.types == types,
            r.config == config,
            r.subs@.len() == 0,
            r.pattern_input@.pattern.len() == 0,
            r.replacement_input@.pattern.len() == 0,
            r.editing_pattern == true,
            r.finder is None,
            r.ignore_case == ignore_case,
            r.multi_line == multi_line,
            r.scroll == 0,
            r.generation == 0,
            r.state is Idle,
            r.wf(),
    {
        let paths = if paths.len() == 0 {
            let mut p: Vec<String> = Vec::new();
            p.push(String::from_str("."));
            p
        } else {
            paths
        };
        Session {
            paths,
            types,
            config,
            subs: Vec::new(),
            pattern_input: LineInput::new(),
            replacement_input: LineInput::new(),
            editing_pattern: true,
            finder: None,
            ignore_case,
            multi_line,
            scroll: 0,
            generation: 0,
            state: SearchState::Idle,
        }
    }
}

/// The relation between a session and itself after a pattern edit was
/// accepted: the cache is cleared, the generation advances (superseding any
/// walk in flight), and the finder is rebuilt from the pattern — structural
/// when the pattern holds placeholder syntax, compiled as a regular
/// expression otherwise. An empty pattern, like one that fails to compile,
/// yields no finder: the search pauses, awaiting the next valid pattern,
/// and no error surfaces. `restart` says a new walk starts.
pub open spec fn pattern_updated(pre: Session, post: Session, restart: bool) -> bool {
    let p = pre.pattern_input@.pattern;
    &&& post.generation == pre.generation + 1
    &&& post.subs@.len() == 0
    &&& post.scroll == 0
    &&& post.paths == pre.paths
    &&& post.types == pre.types
    &&& post.config == pre.config
    &&& post.pattern_input == pre.pattern_input
    &&& post.replacement_input == pre.replacement_input
    &&& post.editing_pattern == pre.editing_pattern
    &&& post.ignore_case == pre.ignore_case
    &&& post.multi_line == pre.multi_line
    &&& (p.len() == 0 ==> post.finder is None)
    &&& (p.len() > 0 && spec_is_ast_pattern(p) ==> (post.finder matches Some(f)
        && f matches Finder::Ast(a) && a.pattern@ == p))
    &&& (p.len() > 0 && !spec_is_ast_pattern(p) && engines::regex_valid(p, pre.ignore_case)
        ==> (post.finder matches Some(f) && f matches Finder::Regex(g) && g.pattern@ == p
        && g.params == (RegexParams {
        ignore_case: pre.ignore_case,
        multi_line: pre.multi_line,
    })))
    &&& (p.len() > 0 && !spec_is_ast_pattern(p) && !engines::regex_valid(p, pre.ignore_case)
        ==> post.finder is None)
    &&& restart == (post.finder is Some)
    &&& (restart ==> post.state is Searching)
    &&& (!restart ==> post.state is Idle)
}

/// The relation between a session and itself after the replacement string
/// changed: with a finder present, every cached preview is recomputed from
/// the cached text under the new replacement; nothing else moves, no file is
/// re-read, and no search is re-run.
pub open spec fn previews_updated(pre: Session, post: Session) -> bool {
    &&& post.paths == pre.paths
    &&& post.types == pre.types
    &&& post.config == pre.config
    &&& post.pattern_input == pre.pattern_input
    &&& post.replacement_input == pre.replacement_input
    &&& post.editing_pattern == pre.editing_pattern
    &&& post.finder == pre.finder
    &&& post.ignore_case == pre.ignore_case
    &&& post.multi_line == pre.multi_line
    &&& post.scroll == pre.scroll
    &&& post.generation == pre.generation
    &&& post.state == pre.state
    &&& (pre.finder is None ==> post.subs == pre.subs)
    &&& (pre.finder matches Some(f) ==> {
        &&& post.subs@.len() == pre.subs@.len()
        &&& forall|k: int|
            0 <= k < pre.subs@.len() ==> {
                let o = (#[trigger] pre.subs@[k])@;
                let n = post.subs@[k]@;
                &&& n.path == o.path
                &&& n.subs.len() == o.subs.len()
                &&& forall|j: int|
                    0 <= j < o.subs.len() ==> {
                        let os = o.subs[j];
                        let ns = (#[trigger] n.subs[j]);
                        &&& ns.start_line == os.start_line
                        &&& ns.line_count == os.line_count
                        &&& ns.text == os.text
                        &&& ns.matches.len() == os.matches.len()
                        &&& forall|i: int|
                            0 <= i < os.matches.len() ==> (#[trigger] ns.matches[i]).range
                                == os.matches[i].range
                        &&& forall|i: int|
                            0 <= i < os.matches.len() ==> (#[trigger] ns.matches[i]).replacement
                                == crate::subst::preview_of(
                                f,
                                o.path,
                                os.text.subrange(os.matches[i].range.0, os.matches[i].range.1),
                                replacement_bytes(post),
                            )
                    }
            }
    })
}

/// Whether a result tagged with `generation` is accepted by the session as
/// it stands: only a well-formed result of the current generation, while a
/// finder exists.
pub open spec fn accepts(s: Session, generation: u64, fm: FileMatchV) -> bool {
    &&& generation == s.generation
    &&& s.finder is Some
    &&& file_match_wf(fm)
}

/// Supersession: once a session's generation has passed a walk's generation,
/// no result of that walk is accepted any more, whatever it holds.
pub proof fn lemma_supersession(s: Session, generation: u64, fm: FileMatchV)
    requires
        generation < s.generation,
    ensures
        !accepts(s, generation, fm),
{
}

/// Supersession across a pattern edit: the moment a new pattern is accepted,
/// the session's generation passes every generation handed out before, so no
/// result of a walk started for an earlier pattern — even one still in
/// flight — is ever delivered after the edit.
pub proof fn lemma_supersession_after_update(
    pre: Session,
    post: Session,
    restart: bool,
    generation: u64,
    fm: FileMatchV,
)
    requires
        pattern_updated(pre, post, restart),
        generation <= pre.generation,
    ensures
        !accepts(post, generation, fm),
{
}

impl Session {
    /// Rebuilds the finder from the pattern as typed, clearing the cache and
    /// superseding any walk in flight. Returns whether a new walk starts:
    /// an invalid pattern pauses searching instead, an expected state while
    /// the user types and never an error.
    pub fn update_pattern(&mut self) -> (restart: bool)
        requires
            old(self).wf(),
            old(self).generation < u64::MAX,
        ensures
            pattern_updated(*old(self), *final(self), restart),
            final(self).wf(),
    {
        let pattern = self.pattern_input.pattern();
        let params = RegexParams { ignore_case: self.ignore_case, multi_line: self.multi_line };
        let finder = if pattern.as_str().unicode_len() == 0 {
            None
        } else {
            Finder::new(pattern.as_str(), &params)
        };
        self.generation = self.generation + 1;
        self.subs = Vec::new();
        self.scroll = 0;
        let restart = finder.is_some();
        self.state = if restart {
            SearchState::Searching
        } else {
            SearchState::Idle
        };
        self.finder = finder;
        restart
    }

    /// Recomputes every cached preview under the replacement string as
    /// typed; without a finder there is nothing to recompute.
    pub fn update_replacement(&mut self)
        requires
            old(self).wf(),
        ensures
            previews_updated(*old(self), *final(self)),
            final(self).wf(),
    {
        if self.finder.is_none() {
            return ;
        }
        let ghost finder = old(self).finder->0;
        let rep_string = self.replacement_input.pattern();
        let replacement = rep_string.as_str().as_bytes_vec();
        let n = self.subs.len();
        let mut k: usize = 0;
        while k < n
            invariant
                old(self).wf(),
                old(self).finder is Some,
                finder == old(self).finder->0,
                finder.wf(),
                *self == (Session { subs: self.subs, ..*old(self) }),
                replacement@ == replacement_bytes(*old(self)),
                k <= n == self.subs@.len(),
                n == old(self).subs@.len(),
                forall|j: int| k <= j < n ==> #[trigger] self.subs@[j] == old(self).subs@[j],
                forall|j: int| k <= j < n ==> file_sub_wf((#[trigger] self.subs@[j])@),
                forall|j: int|
                    0 <= j < k ==> {
                        let o = (#[trigger] old(self).subs@[j])@;
                        let nv = self.subs@[j]@;
                        &&& nv.path == o.path
                        &&& nv.subs.len() == o.subs.len()
                        &&& file_sub_wf(nv)
                        &&& forall|x: int|
                            0 <= x < o.subs.len() ==> {
                                let os = o.subs[x];
                                let ns = (#[trigger] nv.subs[x]);
                                &&& ns.start_line == os.start_line
                                &&& ns.line_count == os.line_count
                                &&& ns.text == os.text
                                &&& ns.matches.len() == os.matches.len()
                                &&& forall|i: int|
                                    0 <= i < os.matches.len() ==> (#[trigger] ns.matches[i]).range
                                        == os.matches[i].range
                                &&& forall|i: int|
                                    0 <= i < os.matches.len() ==> (
                                    #[trigger] ns.matches[i]).replacement
                                        == crate::subst::preview_of(
                                        finder,
                                        o.path,
                                        os.text.subrange(
                                            os.matches[i].range.0,
                                            os.matches[i].range.1,
                                        ),
                                        replacement@,
                                    )
                            }
                    },
            decreases n - k,
        {
            let ghost before = self.subs@;
            let mut fs = self.subs.remove(k);
            match &self.finder {
                Some(f) => {
                    fs.update_replacement(f, &replacement);
                },
                None => {
                    proof {
                        assert(false);
                    }
                },
            }
            self.subs.insert(k, fs);
            proof {
                assert(self.subs@ =~= before.update(k as int, fs));
            }
            k = k + 1;
        }
        proof {
            assert forall|j: int| 0 <= j < self.subs@.len() implies file_sub_wf(
                (#[trigger] self.subs@[j])@,
            ) by {
                // name the element as it stood before the loop, so the
                // loop's conclusion applies to it
                let o = old(self).subs@[j];
                assert(0 <= j < old(self).subs@.len());
            }
        }
    }

    /// Takes one result of the walk tagged `generation`. A result of a
    /// superseded generation, one arriving without a finder, or a malformed
    /// one is rejected and leaves the session exactly as it was; an accepted
    /// result is cached with its previews computed.
    pub fn on_finding(&mut self, generation: u64, finding: FileMatch) -> (accepted: bool)
        requires
            old(self).wf(),
        ensures
            accepted == accepts(*old(self), generation, finding@),
            !accepted ==> *final(self) == *old(self),
            accepted ==> {
                &&& final(self).subs@.len() == old(self).subs@.len() + 1
                &&& forall|k: int|
                    0 <= k < old(self).subs@.len() ==> #[trigger] final(self).subs@[k]
                        == old(self).subs@[k]
                &&& final(self).subs@.last()@.path == finding@.path
                &&& final(self).subs@.last()@.subs =~= finding@.lines.map_values(
                    |l: crate::finder::LineMatchV|
                        text_sub_of(
                            old(self).finder->0,
                            finding@.path,
                            l,
                            replacement_bytes(*old(self)),
                        ),
                )
                &&& final(self).paths == old(self).paths
                &&& final(self).generation == old(self).generation
                &&& final(self).finder == old(self).finder
                &&& final(self).state == old(self).state
                &&& final(self).scroll == old(self).scroll
                &&& final(self).pattern_input == old(self).pattern_input
                &&& final(self).replacement_input == old(self).replacement_input
            },
            final(self).wf(),
    {
        if generation != self.generation {
            return false;
        }
        if !check_file_match(&finding) {
            return false;
        }
        match &self.finder {
            None => false,
            Some(f) => {
                let rep_string = self.replacement_input.pattern();
                let replacement = rep_string.as_str().as_bytes_vec();
                let fs = FileSubstitution::new(finding, f, &replacement);
                self.subs.push(fs);
                true
            },
        }
    }

    /// Notes that the walk of the given generation finished on its own: its
    /// channel closed with nothing left. A stale completion is ignored.
    pub fn on_search_complete(&mut self, generation: u64)
        requires
            old(self).wf(),
        ensures
            generation == old(self).generation && old(self).state is Searching ==> *final(self)
                == (Session { state: SearchState::Completed, ..*old(self) }),
            !(generation == old(self).generation && old(self).state is Searching)
                ==> *final(self) == *old(self),
            final(self).wf(),
    {
        if generation == self.generation {
            if let SearchState::Searching = self.state {
                self.state = SearchState::Completed;
            }
        }
    }

    /// Begins a commit: a running walk is drained to completion before any
    /// file is rewritten, so no matching file is missed.
    pub fn begin_drain(&mut self)
        requires
            old(self).wf(),
        ensures
            old(self).state is Searching ==> *final(self) == (Session {
                state: SearchState::Draining,
                ..*old(self)
            }),
            !(old(self).state is Searching) ==> *final(self) == *old(self),
            final(self).wf(),
    {
        if let SearchState::Searching = self.state {
            self.state = SearchState::Draining;
        }
    }

    /// Dispatches one key press: application actions (exit, confirm, the
    /// toggles, scrolling) are handled here; anything else goes to whichever
    /// input line has focus, and an edit of the pattern or the replacement
    /// restarts the search or recomputes the previews.
    pub fn handle_key_event(&mut self, key: Key) -> (r: KeyOutcome)
        requires
            old(self).wf(),
            old(self).generation < u64::MAX,
        ensures
            final(self).wf(),
            ({
                let act = spec_lookup(old(self).config.keys.0@, key);
                let len = old(self).subs@.len() as int;
                &&& (act == Some(Action::Exit) ==> *final(self) == *old(self) && r == (KeyOutcome {
                    state: State::Exit,
                    restart: false,
                }))
                &&& (act == Some(Action::Confirm) ==> *final(self) == *old(self) && r
                    == (KeyOutcome { state: State::Confirm, restart: false }))
                &&& (act == Some(Action::ToggleSearchReplace) ==> *final(self) == (Session {
                    editing_pattern: !old(self).editing_pattern,
                    ..*old(self)
                }) && r == (KeyOutcome { state: State::Continue, restart: false }))
                &&& (act == Some(Action::ToggleIgnoreCase) ==> r.state is Continue
                    && pattern_updated(
                    Session { ignore_case: !old(self).ignore_case, ..*old(self) },
                    *final(self),
                    r.restart,
                ))
                &&& (act == Some(Action::ToggleMultiLine) ==> r.state is Continue
                    && pattern_updated(
                    Session { multi_line: !old(self).multi_line, ..*old(self) },
                    *final(self),
                    r.restart,
                ))
                &&& (act == Some(Action::ScrollDown) ==> *final(self) == (Session {
                    scroll: if len > 0 && old(self).scroll < len - 1 {
                        (old(self).scroll + 1) as usize
                    } else {
                        old(self).scroll
                    },
                    ..*old(self)
                }) && r == (KeyOutcome { state: State::Continue, restart: false }))
                &&& (act == Some(Action::ScrollUp) ==> *final(self) == (Session {
                    scroll: if old(self).scroll > 0 {
                        (old(self).scroll - 1) as usize
                    } else {
                        0
                    },
                    ..*old(self)
                }) && r == (KeyOutcome { state: State::Continue, restart: false }))
                &&& (act == Some(Action::ScrollTop) ==> *final(self) == (Session {
                    scroll: 0,
                    ..*old(self)
                }) && r == (KeyOutcome { state: State::Continue, restart: false }))
                &&& (!(act == Some(Action::Exit) || act == Some(Action::Confirm) || act == Some(
                    Action::ToggleSearchReplace,
                ) || act == Some(Action::ToggleIgnoreCase) || act == Some(Action::ToggleMultiLine)
                    || act == Some(Action::ScrollDown) || act == Some(Action::ScrollUp) || act
                    == Some(Action::ScrollTop)) ==> {
                    &&& r.state is Continue
                    &&& (old(self).editing_pattern ==> {
                        let step = input_step(old(self).pattern_input@, key, old(
                            self,
                        ).config.keys.0@);
                        &&& final(self).pattern_input@ == step.0
                        &&& (step.1 ==> pattern_updated(
                            Session { pattern_input: final(self).pattern_input, ..*old(self) },
                            *final(self),
                            r.restart,
                        ))
                        &&& (!step.1 ==> *final(self) == (Session {
                            pattern_input: final(self).pattern_input,
                            ..*old(self)
                        }) && !r.restart)
                    })
                    &&& (!old(self).editing_pattern ==> {
                        let step = input_step(old(self).replacement_input@, key, old(
                            self,
                        ).config.keys.0@);
                        &&& final(self).replacement_input@ == step.0
                        &&& !r.restart
                        &&& (step.1 ==> previews_updated(
                            Session {
                                replacement_input: final(self).replacement_input,
                                ..*old(self)
                            },
                            *final(self),
                        ))
                        &&& (!step.1 ==> *final(self) == (Session {
                            replacement_input: final(self).replacement_input,
                            ..*old(self)
                        }))
                    })
                })
            }),
    {
        let act = self.config.keys.get(&key);
        match act {
            Some(Action::Exit) => {
                return KeyOutcome { state: State::Exit, restart: false };
            },
            Some(Action::Confirm) => {
                return KeyOutcome { state: State::Confirm, restart: false };
            },
            Some(Action::ToggleSearchReplace) => {
                self.editing_pattern = !self.editing_pattern;
                return KeyOutcome { state: State::Continue, restart: false };
            },
            Some(Action::ToggleIgnoreCase) => {
                self.ignore_case = !self.ignore_case;
                let restart = self.update_pattern();
                return KeyOutcome { state: State::Continue, restart };
            },
            Some(Action::ToggleMultiLine) => {
                self.multi_line = !self.multi_line;
                let restart = self.update_pattern();
                return KeyOutcome { state: State::Continue, restart };
            },
            Some(Action::ScrollDown) => {
                let len = self.subs.len();
                if len > 0 && self.scroll < len - 1 {
                    self.scroll = self.scroll + 1;
                }
                return KeyOutcome { state: State::Continue, restart: false };
            },
            Some(Action::ScrollUp) => {
                if self.scroll > 0 {
                    self.scroll = self.scroll - 1;
                }
                return KeyOutcome { state: State::Continue, restart: false };
            },
            Some(Action::ScrollTop) => {
                self.scroll = 0;
                return KeyOutcome { state: State::Continue, restart: false };
            },
            _ => {},
        }
        if self.editing_pattern {
            let changed = self.pattern_input.handle_key_event(key, &self.config.keys);
            match changed {
                Some(_) => {
                    let restart = self.update_pattern();
                    KeyOutcome { state: State::Continue, restart }
                },
                None => KeyOutcome { state: State::Continue, restart: false },
            }
        } else {
            let changed = self.replacement_input.handle_key_event(key, &self.config.keys);
            match changed {
                Some(_) => {
                    self.update_replacement();
                    KeyOutcome { state: State::Continue, restart: false }
                },
                None => KeyOutcome { state: State::Continue, restart: false },
            }
        }
    }

    /// Whether the caller should pull more results: the cache holds fewer
    /// files than are visible plus the scroll offset and a small buffer.
    pub fn need_more(&self, visible: usize) -> (r: bool)
        ensures
            r == (self.subs@.len() < visible + SEARCH_BUFFER + self.scroll),
    {
        let n = self.subs.len();
        if n < SEARCH_BUFFER {
            return true;
        }
        if n - SEARCH_BUFFER < visible {
            return true;
        }
        n - SEARCH_BUFFER - visible < self.scroll
    }
}

/// The terminal outcome of a commit: how many files were rewritten and how
/// many failed. A commit attempts every file; one file's failure never
/// prevents the rest, so partial success is a valid outcome and is reported
/// as such, never silently swallowed.
#[derive(Debug, Clone, Copy, PartialEq, Eq, Structural)]
pub struct CommitOutcome {
    pub succeeded: u64,
    pub failed: u64,
}

impl CommitOutcome {
    pub fn new() -> (r: CommitOutcome)
        ensures
            r.succeeded == 0 && r.failed == 0,
    {
        CommitOutcome { succeeded: 0, failed: 0 }
    }

    /// Records one file's outcome.
    pub fn record(&mut self, ok: bool)
        requires
            old(self).succeeded < u64::MAX,
            old(self).failed < u64::MAX,
        ensures
            ok ==> *final(self) == (CommitOutcome {
                succeeded: (old(self).succeeded + 1) as u64,
                ..*old(self)
            }),
            !ok ==> *final(self) == (CommitOutcome {
                failed: (old(self).failed + 1) as u64,
                ..*old(self)
            }),
    {
        if ok {
            self.succeeded = self.succeeded + 1;
        } else {
            self.failed = self.failed + 1;
        }
    }

    /// Whether every attempted file was rewritten.
    pub fn all_succeeded(&self) -> (r: bool)
        ensures
            r == (self.failed == 0),
    {
        self.failed == 0
    }
}

/// Checks at run time that a result is well formed: at least one line, every
/// sub-range within its text, in order without overlap. Results cross the
/// walk's channel, so the session re-validates them on receipt.
fn check_file_match(fm: &FileMatch) -> (r: bool)
    ensures
        r == file_match_wf(fm@),
{
    let n = fm.lines.len();
    if n == 0 {
        return false;
    }
    let mut k: usize = 0;
    while k < n
        invariant
            0 < n == fm.lines@.len(),
            k <= n,
            forall|j: int|
                0 <= j < k ==> crate::finder::line_match_wf((#[trigger] fm.lines@[j])@),
        decreases n - k,
    {
        proof {
            assert(fm@.lines[k as int] == fm.lines@[k as int]@);
        }
        let nr = fm.lines[k].ranges.len();
        let tlen = fm.lines[k].text.len();
        let mut j: usize = 0;
        while j < nr
            invariant
                k < n == fm.lines@.len(),
                j <= nr == fm.lines@[k as int].ranges@.len(),
                tlen == fm.lines@[k as int].text@.len(),
                forall|x: int|
                    0 <= x < j ==> 0 <= ((#[trigger] fm.lines@[k as int]@.ranges[x])).0
                        <= fm.lines@[k as int]@.ranges[x].1 <= tlen,
                forall|x: int|
                    0 <= x < j - 1 ==> ((#[trigger] fm.lines@[k as int]@.ranges[x])).1
                        <= fm.lines@[k as int]@.ranges[x + 1].0,
            decreases nr - j,
        {
            proof {
                assert(fm@.lines[k as int] == fm.lines@[k as int]@);
                assert(fm.lines@[k as int]@.ranges[j as int] == fm.lines@[k as int].ranges@[
                    j as int]@);
                if j > 0 {
                    assert(fm.lines@[k as int]@.ranges[j - 1] == fm.lines@[k as int].ranges@[j
                        - 1]@);
                }
            }
            let m = fm.lines[k].ranges[j];
            if !(m.start <= m.end && m.end <= tlen) {
                proof {
                    assert(!crate::finder::line_match_wf(fm.lines@[k as int]@));
                    assert(!file_match_wf(fm@));
                }
                return false;
            }
            if j > 0 {
                let prev = fm.lines[k].ranges[j - 1];
                if prev.end > m.start {
                    proof {
                        assert(!crate::finder::line_match_wf(fm.lines@[k as int]@));
                        assert(!file_match_wf(fm@));
                    }
                    return false;
                }
            }
            j = j + 1;
        }
        proof {
            assert(crate::finder::line_match_wf(fm.lines@[k as int]@));
        }
        k = k + 1;
    }
    proof {
        assert(forall|j: int|
            0 <= j < fm@.lines.len() ==> #[trigger] fm@.lines[j] == fm.lines@[j]@);
    }
    true
}

} // verus!
