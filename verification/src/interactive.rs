//! Interactive search: key handling, navigation over matches and the
//! conversion of interactive arguments into a search configuration.
use vstd::prelude::*;

use crate::boundary::{HyphenMode, WordBoundaryMode};
use crate::cache::ChangeDetectionStrategy;
use crate::config::{EncodingMode, SearchConfig};
use crate::matcher::PatternDefinition;
use crate::paths::{forward_slashes, relative_to, same_path, same_path_spec, strip_prefix, to_forward_slashes};
use crate::text::{chars_of, copy_string, copy_strings, split_chars, split_on, string_from_chars, text_eq, views};

verus! {

/// Actions available during interactive search.
#[derive(Debug, Clone, Copy, PartialEq, Eq, Structural)]
pub enum PromptAction {
    Next,
    Previous,
    SkipFile,
    SkipAll,
    Quit,
    Editor,
    Unknown,
}

/// The keys the interactive search reacts to.
#[derive(Debug, Clone, Copy, PartialEq, Eq, Structural)]
pub enum KeyCode {
    Enter,
    Up,
    Down,
    Left,
    Right,
    Esc,
    Char(char),
    Other,
}

/// A key press: the key and whether Control was held.
#[derive(Debug, Clone, Copy, PartialEq, Eq, Structural)]
pub struct KeyEvent {
    pub code: KeyCode,
    pub control: bool,
}

/// The action a key press stands for.
pub open spec fn key_action(e: KeyEvent) -> PromptAction {
    match e.code {
        KeyCode::Enter | KeyCode::Down | KeyCode::Right => PromptAction::Next,
        KeyCode::Up | KeyCode::Left => PromptAction::Previous,
        KeyCode::Char(c) => if c == 'n' || c == 'N' {
            PromptAction::Next
        } else if c == 'p' || c == 'P' {
            PromptAction::Previous
        } else if c == 'f' || c == 'F' {
            PromptAction::SkipFile
        } else if c == 'a' || c == 'A' {
            PromptAction::SkipAll
        } else if c == 'q' || c == 'Q' {
            PromptAction::Quit
        } else if c == 'e' || c == 'E' {
            PromptAction::Editor
        } else if c == 'c' && e.control {
            PromptAction::Quit
        } else {
            PromptAction::Unknown
        },
        KeyCode::Esc => PromptAction::Quit,
        KeyCode::Other => PromptAction::Unknown,
    }
}

/// Converts a key event to a prompt action (see [`key_action`]).
pub fn convert_key_event(event: &KeyEvent) -> (a: PromptAction)
    ensures
        a == key_action(*event),
{
    match event.code {
        KeyCode::Enter | KeyCode::Down | KeyCode::Right => PromptAction::Next,
        KeyCode::Up | KeyCode::Left => PromptAction::Previous,
        KeyCode::Char(c) => {
            if c == 'n' || c == 'N' {
                PromptAction::Next
            } else if c == 'p' || c == 'P' {
                PromptAction::Previous
            } else if c == 'f' || c == 'F' {
                PromptAction::SkipFile
            } else if c == 'a' || c == 'A' {
                PromptAction::SkipAll
            } else if c == 'q' || c == 'Q' {
                PromptAction::Quit
            } else if c == 'e' || c == 'E' {
                PromptAction::Editor
            } else if c == 'c' && event.control {
                PromptAction::Quit
            } else {
                PromptAction::Unknown
            }
        },
        KeyCode::Esc => PromptAction::Quit,
        KeyCode::Other => PromptAction::Unknown,
    }
}

/// Statistics for the interactive search session.
#[derive(Debug, Clone, Copy, PartialEq, Eq, Structural)]
pub struct InteractiveStats {
    pub matches_visited: usize,
    pub matches_skipped: usize,
    pub files_skipped: usize,
    pub total_matches: usize,
}

impl Default for InteractiveStats {
    fn default() -> (s: Self)
        ensures
            s == (InteractiveStats {
                matches_visited: 0,
                matches_skipped: 0,
                files_skipped: 0,
                total_matches: 0,
            }),
    {
        InteractiveStats { matches_visited: 0, matches_skipped: 0, files_skipped: 0, total_matches: 0 }
    }
}

/// `s` without leading `/` characters.
pub open spec fn trim_leading_slashes(s: Seq<char>) -> Seq<char>
    decreases s.len(),
{
    if s.len() > 0 && s[0] == '/' {
        trim_leading_slashes(s.drop_first())
    } else {
        s
    }
}

/// The path shown for a file: the full path in verbose mode, otherwise the
/// path relative to the workspace root when it lies under it; always with
/// forward slashes.
pub open spec fn short_path_spec(path: Seq<char>, root: Seq<char>, verbose: bool) -> Seq<char> {
    if verbose {
        forward_slashes(path)
    } else {
        match relative_to(path, root) {
            Some(rel) => trim_leading_slashes(forward_slashes(rel)),
            None => forward_slashes(path),
        }
    }
}

/// The path shown for a file (see [`short_path_spec`]).
pub fn short_path(path: &str, workspace_root: &str, verbose: bool) -> (r: String)
    ensures
        r@ == short_path_spec(path@, workspace_root@, verbose),
{
    if verbose {
        return to_forward_slashes(path);
    }
    match strip_prefix(path, workspace_root) {
        Some(rel) => {
            let f = to_forward_slashes(rel.as_str());
            let cs = chars_of(f.as_str());
            let mut i: usize = 0;
            assert(cs@.skip(0) =~= cs@);
            while i < cs.len() && cs[i] == '/'
                invariant
                    0 <= i <= cs@.len(),
                    trim_leading_slashes(cs@) == trim_leading_slashes(cs@.skip(i as int)),
                decreases cs@.len() - i,
            {
                assert(cs@.skip(i as int).drop_first() =~= cs@.skip(i + 1));
                i = i + 1;
            }
            let n = cs.len();
            let r = crate::text::string_from_range(&cs, i, n);
            assert(cs@.subrange(i as int, n as int) =~= cs@.skip(i as int));
            r
        },
        None => to_forward_slashes(path),
    }
}

// ---------------------------------------------------------------------------
// Navigation
// ---------------------------------------------------------------------------
/// What the interactive loop does after an action.
#[derive(Debug, Clone, Copy, PartialEq, Eq, Structural)]
pub enum LoopStep {
    /// Show the current match and wait for the next key.
    Continue,
    /// Open the current match in the editor, then continue.
    Edit,
    /// Leave the loop.
    Stop,
}

/// Navigation state over the matches of an interactive session.
#[derive(Debug)]
pub struct Navigator {
    files: Vec<String>,
    current: usize,
    visited: Vec<bool>,
    stats: InteractiveStats,
}

/// The number of `true` flags.
pub open spec fn count_true(s: Seq<bool>) -> int
    decreases s.len(),
{
    if s.len() == 0 {
        0
    } else {
        count_true(s.drop_last()) + if s.last() {
            1int
        } else {
            0
        }
    }
}

/// The first offset `j` in `[from, n)` at which the match `(start + j) % n`
/// lies in another file than the match `start`.
pub open spec fn other_file_offset(files: Seq<Seq<char>>, start: int, from: int) -> Option<int>
    decreases files.len() - from,
{
    if from < 1 || from >= files.len() {
        None
    } else if !same_path_spec(files[(start + from) % (files.len() as int)], files[start]) {
        Some(from)
    } else {
        other_file_offset(files, start, from + 1)
    }
}

/// The flags after marking every match in the same file as `start` that
/// was not visited: the marked flags and how many were marked.
pub open spec fn mark_file(files: Seq<Seq<char>>, visited: Seq<bool>, start: int) -> Seq<bool> {
    Seq::new(visited.len(), |i: int| visited[i] || same_path_spec(files[i], files[start]))
}

impl Navigator {
    /// The file of each match.
    pub closed spec fn files(&self) -> Seq<Seq<char>> {
        views(self.files@)
    }

    /// The index of the current match.
    pub closed spec fn current(&self) -> int {
        self.current as int
    }

    /// Which matches were visited or skipped.
    pub closed spec fn visited(&self) -> Seq<bool> {
        self.visited@
    }

    /// The session statistics.
    pub closed spec fn stats(&self) -> InteractiveStats {
        self.stats
    }

    /// The current match is a match, there is a flag per match, and every
    /// flag set was counted once as visited or skipped.
    #[verifier::type_invariant]
    closed spec fn well_formed(self) -> bool {
        &&& self.current < self.files@.len()
        &&& self.visited@.len() == self.files@.len()
        &&& self.stats.matches_visited + self.stats.matches_skipped == count_true(self.visited@)
        &&& self.stats.total_matches == self.files@.len()
    }

    /// Starts a session over the matches whose files are `files`, at the
    /// first match, with nothing visited; `None` when there is no match.
    pub fn new(files: Vec<String>) -> (r: Option<Self>)
        ensures
            r is Some <==> files@.len() > 0,
            r matches Some(n) ==> n.files() == views(files@) && n.current() == 0 && n.visited()
                == Seq::new(files@.len(), |i: int| false) && n.stats() == (InteractiveStats {
                matches_visited: 0,
                matches_skipped: 0,
                files_skipped: 0,
                total_matches: files@.len() as usize,
            }),
    {
        if files.len() == 0 {
            return None;
        }
        let n = files.len();
        let mut visited: Vec<bool> = Vec::new();
        let mut i: usize = 0;
        while i < n
            invariant
                0 <= i <= n,
                visited@ == Seq::new(i as nat, |k: int| false),
            decreases n - i,
        {
            visited.push(false);
            assert(visited@ =~= Seq::new((i + 1) as nat, |k: int| false));
            i = i + 1;
        }
        proof {
            lemma_count_false(visited@);
        }
        Some(
            Navigator {
                files,
                current: 0,
                visited,
                stats: InteractiveStats {
                    matches_visited: 0,
                    matches_skipped: 0,
                    files_skipped: 0,
                    total_matches: n,
                },
            },
        )
    }

    /// A session over a single match in an unnamed file, at that match,
    /// with nothing visited: a stand-in while a session is taken apart.
    fn placeholder() -> (n: Self)
        ensures
            n.files() == seq![Seq::<char>::empty()],
            n.current() == 0,
            n.visited() == seq![false],
            n.stats() == (InteractiveStats {
                matches_visited: 0,
                matches_skipped: 0,
                files_skipped: 0,
                total_matches: 1,
            }),
    {
        let mut files: Vec<String> = Vec::new();
        files.push(String::new());
        let mut visited: Vec<bool> = Vec::new();
        visited.push(false);
        proof {
            lemma_count_false(visited@);
        }
        let n = Navigator {
            files,
            current: 0,
            visited,
            stats: InteractiveStats {
                matches_visited: 0,
                matches_skipped: 0,
                files_skipped: 0,
                total_matches: 1,
            },
        };
        assert(n.files() =~= seq![Seq::<char>::empty()]);
        assert(n.visited() =~= seq![false]);
        n
    }

    /// The index of the current match.
    pub fn current_index(&self) -> (i: usize)
        ensures
            i == self.current(),
            i < self.files().len(),
    {
        proof {
            use_type_invariant(self);
        }
        self.current
    }

    /// The session statistics.
    pub fn get_stats(&self) -> (s: InteractiveStats)
        ensures
            s == self.stats(),
            s.matches_visited + s.matches_skipped == count_true(self.visited()),
            s.total_matches == self.files().len(),
    {
        proof {
            use_type_invariant(self);
        }
        self.stats
    }

    /// Shows the current match: the first time it is shown it counts as
    /// visited.
    pub fn show_current(&mut self)
        ensures
            final(self).files() == old(self).files(),
            final(self).current() == old(self).current(),
            final(self).visited() == old(self).visited().update(old(self).current(), true),
            final(self).stats() == if old(self).visited()[old(self).current()] {
                old(self).stats()
            } else {
                InteractiveStats {
                    matches_visited: (old(self).stats().matches_visited + 1) as usize,
                    ..old(self).stats()
                }
            },
    {
        proof {
            use_type_invariant(&*self);
        }
        let c = self.current;
        if !self.visited[c] {
            proof {
                lemma_count_update(self.visited@, c as int);
                lemma_count_bound(self.visited@.update(c as int, true));
            }
            let mut tmp = Navigator::placeholder();
            std::mem::swap(&mut tmp, self);
            let Navigator { files, current, visited, stats } = tmp;
            let mut flags = visited;
            flags.set(c, true);
            let st = InteractiveStats { matches_visited: stats.matches_visited + 1, ..stats };
            *self = Navigator { files, current, visited: flags, stats: st };
        } else {
            assert(self.visited@.update(c as int, true) =~= self.visited@);
        }
    }
}

/// The matches marked by skipping everything: every flag set.
pub open spec fn all_marked(visited: Seq<bool>) -> Seq<bool> {
    Seq::new(visited.len(), |i: int| true)
}

impl Navigator {
    fn mark_matches(flags: &mut Vec<bool>, files: &Vec<String>, c: usize, whole: bool) -> (skipped: usize)
        requires
            old(flags)@.len() == files@.len(),
            c < files@.len(),
        ensures
            final(flags)@ == if whole {
                all_marked(old(flags)@)
            } else {
                mark_file(views(files@), old(flags)@, c as int)
            },
            count_true(final(flags)@) == count_true(old(flags)@) + skipped,
    {
        let ghost f0 = flags@;
        let ghost target = if whole {
            all_marked(f0)
        } else {
            mark_file(views(files@), f0, c as int)
        };
        let mut skipped: usize = 0;
        let mut i: usize = 0;
        proof {
            lemma_count_bound(f0);
        }
        while i < flags.len()
            invariant
                0 <= i <= flags@.len(),
                count_true(f0) >= 0,
                flags@.len() == f0.len(),
                f0.len() == files@.len(),
                c < files@.len(),
                target == if whole {
                    all_marked(f0)
                } else {
                    mark_file(views(files@), f0, c as int)
                },
                forall|k: int| 0 <= k < i ==> flags@[k] == target[k],
                forall|k: int| i <= k < flags@.len() ==> flags@[k] == f0[k],
                count_true(flags@) == count_true(f0) + skipped,
            decreases flags@.len() - i,
        {
            let in_file = whole || same_path(files[i].as_str(), files[c].as_str());
            assert(views(files@)[i as int] == files@[i as int]@);
            assert(views(files@)[c as int] == files@[c as int]@);
            if in_file && !flags[i] {
                proof {
                    lemma_count_update(flags@, i as int);
                    lemma_count_bound(flags@.update(i as int, true));
                }
                flags.set(i, true);
                skipped = skipped + 1;
            }
            i = i + 1;
        }
        assert(flags@ =~= target);
        skipped
    }

    /// Applies an action to the session: moving to the next or previous
    /// match wraps around; skipping a file marks its unvisited matches as
    /// skipped and moves to the next match in another file (stopping when
    /// there is none); skipping all marks every unvisited match and stops;
    /// quitting stops; the editor is opened on the current match.
    pub fn apply(&mut self, action: PromptAction) -> (step: LoopStep)
        requires
            action == PromptAction::SkipFile ==> old(self).stats().files_skipped < usize::MAX,
        ensures
            final(self).files() == old(self).files(),
            ({
                let n = old(self).files().len() as int;
                let c = old(self).current();
                let v = old(self).visited();
                let st = old(self).stats();
                match action {
                    PromptAction::Next => step == LoopStep::Continue && final(self).current() == (if c
                        == n - 1 {
                        0
                    } else {
                        c + 1
                    }) && final(self).visited() == v && final(self).stats() == st,
                    PromptAction::Previous => step == LoopStep::Continue && final(self).current()
                        == (if c == 0 {
                        n - 1
                    } else {
                        c - 1
                    }) && final(self).visited() == v && final(self).stats() == st,
                    PromptAction::SkipFile => {
                        let marked = mark_file(old(self).files(), v, c);
                        &&& final(self).visited() == marked
                        &&& final(self).stats() == (InteractiveStats {
                            matches_skipped: (st.matches_skipped + count_true(marked) - count_true(
                                v,
                            )) as usize,
                            files_skipped: (st.files_skipped + 1) as usize,
                            ..st
                        })
                        &&& match other_file_offset(old(self).files(), c, 1) {
                            Some(j) => step == LoopStep::Continue && final(self).current() == (c + j)
                                % n,
                            None => step == LoopStep::Stop && final(self).current() == c,
                        }
                    },
                    PromptAction::SkipAll => {
                        &&& step == LoopStep::Stop
                        &&& final(self).current() == c
                        &&& final(self).visited() == all_marked(v)
                        &&& final(self).stats() == (InteractiveStats {
                            matches_skipped: (st.matches_skipped + n - count_true(v)) as usize,
                            ..st
                        })
                    },
                    PromptAction::Quit => step == LoopStep::Stop && final(self).current() == c
                        && final(self).visited() == v && final(self).stats() == st,
                    PromptAction::Editor => step == LoopStep::Edit && final(self).current() == c
                        && final(self).visited() == v && final(self).stats() == st,
                    PromptAction::Unknown => step == LoopStep::Continue && final(self).current() == c
                        && final(self).visited() == v && final(self).stats() == st,
                }
            }),
    {
        proof {
            use_type_invariant(&*self);
        }
        let n = self.files.len();
        let c = self.current;
        match action {
            PromptAction::Next => {
                let mut tmp = Navigator::placeholder();
                std::mem::swap(&mut tmp, self);
                let Navigator { files, current, visited, stats } = tmp;
                let next = if current == n - 1 {
                    0
                } else {
                    current + 1
                };
                *self = Navigator { files, current: next, visited, stats };
                LoopStep::Continue
            },
            PromptAction::Previous => {
                let mut tmp = Navigator::placeholder();
                std::mem::swap(&mut tmp, self);
                let Navigator { files, current, visited, stats } = tmp;
                let prev = if current == 0 {
                    n - 1
                } else {
                    current - 1
                };
                *self = Navigator { files, current: prev, visited, stats };
                LoopStep::Continue
            },
            PromptAction::SkipFile => {
                let mut tmp = Navigator::placeholder();
                std::mem::swap(&mut tmp, self);
                let Navigator { files, current, visited, stats } = tmp;
                let mut flags = visited;
                let skipped = Navigator::mark_matches(&mut flags, &files, current, false);
                proof {
                    lemma_count_bound(flags@);
                }
                let st = InteractiveStats {
                    matches_skipped: stats.matches_skipped + skipped,
                    files_skipped: stats.files_skipped + 1,
                    ..stats
                };
                let ghost fv = views(files@);
                let mut idx = current;
                let mut result = current;
                let mut j: usize = 1;
                let mut found = false;
                proof {
                    vstd::arithmetic::div_mod::lemma_small_mod(current as nat, n as nat);
                }
                while j < n && !found
                    invariant
                        1 <= j <= n,
                        n == files@.len(),
                        current < n,
                        fv == views(files@),
                        idx < n,
                        !found ==> idx as int == (current + j - 1) % (n as int) && other_file_offset(
                            fv,
                            current as int,
                            1,
                        ) == other_file_offset(fv, current as int, j as int),
                        found ==> j < n && result as int == (current + j) % (n as int)
                            && other_file_offset(fv, current as int, 1) == Some(j as int),
                    decreases n - j + if found {
                        0int
                    } else {
                        1int
                    },
                {
                    let cand = if idx == n - 1 {
                        0
                    } else {
                        idx + 1
                    };
                    proof {
                        lemma_wrap_step(current as int, j as int, n as int);
                    }
                    assert(fv[cand as int] == files@[cand as int]@);
                    assert(fv[current as int] == files@[current as int]@);
                    if !same_path(files[cand].as_str(), files[current].as_str()) {
                        found = true;
                        result = cand;
                    } else {
                        idx = cand;
                        j = j + 1;
                    }
                }
                if found {
                    *self = Navigator { files, current: result, visited: flags, stats: st };
                    LoopStep::Continue
                } else {
                    *self = Navigator { files, current, visited: flags, stats: st };
                    LoopStep::Stop
                }
            },
            PromptAction::SkipAll => {
                let mut tmp = Navigator::placeholder();
                std::mem::swap(&mut tmp, self);
                let Navigator { files, current, visited, stats } = tmp;
                let mut flags = visited;
                let skipped = Navigator::mark_matches(&mut flags, &files, current, true);
                proof {
                    lemma_count_all(flags@);
                }
                let st = InteractiveStats { matches_skipped: stats.matches_skipped + skipped, ..stats };
                *self = Navigator { files, current, visited: flags, stats: st };
                LoopStep::Stop
            },
            PromptAction::Quit => LoopStep::Stop,
            PromptAction::Editor => LoopStep::Edit,
            PromptAction::Unknown => LoopStep::Continue,
        }
    }
}

proof fn lemma_wrap_step(c: int, j: int, n: int)
    requires
        0 <= c < n,
        1 <= j < n,
    ensures
        (if (c + j - 1) % n == n - 1 {
            0
        } else {
            (c + j - 1) % n + 1
        }) == (c + j) % n,
{
    if c + j - 1 < n {
        vstd::arithmetic::div_mod::lemma_small_mod((c + j - 1) as nat, n as nat);
        if c + j - 1 == n - 1 {
            vstd::arithmetic::div_mod::lemma_mod_self_0(n);
        } else {
            vstd::arithmetic::div_mod::lemma_small_mod((c + j) as nat, n as nat);
        }
    } else {
        vstd::arithmetic::div_mod::lemma_mod_add_multiples_vanish(c + j - 1 - n, n);
        vstd::arithmetic::div_mod::lemma_small_mod((c + j - 1 - n) as nat, n as nat);
        vstd::arithmetic::div_mod::lemma_mod_add_multiples_vanish(c + j - n, n);
        vstd::arithmetic::div_mod::lemma_small_mod((c + j - n) as nat, n as nat);
    }
}

proof fn lemma_count_all(s: Seq<bool>)
    requires
        forall|i: int| 0 <= i < s.len() ==> s[i],
    ensures
        count_true(s) == s.len(),
    decreases s.len(),
{
    if s.len() > 0 {
        lemma_count_all(s.drop_last());
    }
}

proof fn lemma_count_false(s: Seq<bool>)
    requires
        forall|i: int| 0 <= i < s.len() ==> !s[i],
    ensures
        count_true(s) == 0,
    decreases s.len(),
{
    if s.len() > 0 {
        lemma_count_false(s.drop_last());
    }
}

proof fn lemma_count_bound(s: Seq<bool>)
    ensures
        0 <= count_true(s) <= s.len(),
    decreases s.len(),
{
    if s.len() > 0 {
        lemma_count_bound(s.drop_last());
    }
}

proof fn lemma_count_update(s: Seq<bool>, i: int)
    requires
        0 <= i < s.len(),
        !s[i],
    ensures
        count_true(s.update(i, true)) == count_true(s) + 1,
    decreases s.len(),
{
    let u = s.update(i, true);
    if i == s.len() - 1 {
        assert(u.drop_last() =~= s.drop_last());
    } else {
        lemma_count_update(s.drop_last(), i);
        assert(u.drop_last() =~= s.drop_last().update(i, true));
    }
}

// ---------------------------------------------------------------------------
// Arguments
// ---------------------------------------------------------------------------
/// Arguments for interactive search.
#[derive(Debug)]
pub struct InteractiveSearchArgs {
    pub patterns: Vec<String>,
    pub legacy_patterns: Vec<String>,
    pub is_regex: Vec<bool>,
    pub boundary_mode: String,
    pub word_boundary: bool,
    pub hyphen_mode: String,
    pub root: String,
    pub extensions: Option<String>,
    pub ignore: Vec<String>,
    pub context_before: usize,
    pub context_after: usize,
    /// Number of threads; never zero when given.
    pub threads: Option<usize>,
    pub incremental: bool,
    pub cache_path: Option<String>,
    pub cache_strategy: String,
    pub encoding: String,
    pub no_color: bool,
}

/// The boundary mode the arguments ask for: whole words when the word
/// boundary flag is set, otherwise by name (`strict`, `partial`, anything
/// else meaning none).
pub open spec fn args_boundary(word_boundary: bool, name: Seq<char>) -> WordBoundaryMode {
    if word_boundary {
        WordBoundaryMode::WholeWords
    } else if name == "strict"@ {
        WordBoundaryMode::WholeWords
    } else if name == "partial"@ {
        WordBoundaryMode::Partial
    } else {
        WordBoundaryMode::NoBoundary
    }
}

/// The hyphen mode by name: `boundary`, anything else meaning joining.
pub open spec fn args_hyphen(name: Seq<char>) -> HyphenMode {
    if name == "boundary"@ {
        HyphenMode::Boundary
    } else {
        HyphenMode::Joining
    }
}

/// The change detection strategy by name: `git`, `signature`, anything
/// else meaning automatic.
pub open spec fn args_strategy(name: Seq<char>) -> ChangeDetectionStrategy {
    if name == "git"@ {
        ChangeDetectionStrategy::GitStatus
    } else if name == "signature"@ {
        ChangeDetectionStrategy::FileSignature
    } else {
        ChangeDetectionStrategy::Auto
    }
}

/// The encoding mode by name: `lossy`, anything else meaning fail-fast.
pub open spec fn args_encoding(name: Seq<char>) -> EncodingMode {
    if name == "lossy"@ {
        EncodingMode::Lossy
    } else {
        EncodingMode::FailFast
    }
}

fn boundary_from(word_boundary: bool, name: &str) -> (m: WordBoundaryMode)
    ensures
        m == args_boundary(word_boundary, name@),
{
    if word_boundary {
        WordBoundaryMode::WholeWords
    } else if text_eq(name, "strict") {
        WordBoundaryMode::WholeWords
    } else if text_eq(name, "partial") {
        WordBoundaryMode::Partial
    } else {
        WordBoundaryMode::NoBoundary
    }
}

fn hyphen_from(name: &str) -> (m: HyphenMode)
    ensures
        m == args_hyphen(name@),
{
    if text_eq(name, "boundary") {
        HyphenMode::Boundary
    } else {
        HyphenMode::Joining
    }
}

fn strategy_from(name: &str) -> (s: ChangeDetectionStrategy)
    ensures
        s == args_strategy(name@),
{
    if text_eq(name, "git") {
        ChangeDetectionStrategy::GitStatus
    } else if text_eq(name, "signature") {
        ChangeDetectionStrategy::FileSignature
    } else {
        ChangeDetectionStrategy::Auto
    }
}

fn encoding_from(name: &str) -> (e: EncodingMode)
    ensures
        e == args_encoding(name@),
{
    if text_eq(name, "lossy") {
        EncodingMode::Lossy
    } else {
        EncodingMode::FailFast
    }
}

/// Converts interactive arguments into a search configuration: one
/// definition per pattern (regex when the first regex flag is set), the
/// extensions split at commas, four threads unless given, and the named
/// modes and strategies.
pub fn convert_args_to_config(args: &InteractiveSearchArgs, verbosity: &str) -> (r: Result<
    SearchConfig,
    crate::errors::SearchError,
>)
    ensures
        r matches Ok(c) && {
            &&& c.pattern_definitions@.len() == args.patterns@.len()
            &&& forall|i: int|
                0 <= i < c.pattern_definitions@.len() ==> {
                    let d = #[trigger] c.pattern_definitions@[i];
                    &&& d.text@ == args.patterns@[i]@
                    &&& d.is_regex == (args.is_regex@.len() > 0 && args.is_regex@[0])
                    &&& d.boundary_mode == args_boundary(args.word_boundary, args.boundary_mode@)
                    &&& d.hyphen_mode == args_hyphen(args.hyphen_mode@)
                }
            &&& c.patterns@.len() == 0
            &&& c.pattern@.len() == 0
            &&& c.root_path@ == args.root@
            &&& match args.extensions {
                Some(e) => c.file_extensions matches Some(v) && views(v@) == split_on(e@, ','),
                None => c.file_extensions is None,
            }
            &&& c.ignore_patterns@ == args.ignore@
            &&& !c.stats_only
            &&& c.thread_count == match args.threads {
                Some(t) => t,
                None => 4,
            }
            &&& c.log_level@ == verbosity@
            &&& c.context_before == args.context_before
            &&& c.context_after == args.context_after
            &&& c.incremental == args.incremental
            &&& c.cache_path == args.cache_path
            &&& c.cache_strategy == args_strategy(args.cache_strategy@)
            &&& c.max_cache_size is None
            &&& !c.use_compression
            &&& c.encoding_mode == args_encoding(args.encoding@)
        },
{
    let is_regex = args.is_regex.len() > 0 && args.is_regex[0];
    let boundary = boundary_from(args.word_boundary, args.boundary_mode.as_str());
    let hyphen = hyphen_from(args.hyphen_mode.as_str());
    let mut defs: Vec<PatternDefinition> = Vec::new();
    let mut i: usize = 0;
    while i < args.patterns.len()
        invariant
            0 <= i <= args.patterns@.len(),
            defs@.len() == i,
            is_regex == (args.is_regex@.len() > 0 && args.is_regex@[0]),
            boundary == args_boundary(args.word_boundary, args.boundary_mode@),
            hyphen == args_hyphen(args.hyphen_mode@),
            forall|k: int|
                0 <= k < i ==> {
                    let d = #[trigger] defs@[k];
                    &&& d.text@ == args.patterns@[k]@
                    &&& d.is_regex == is_regex
                    &&& d.boundary_mode == boundary
                    &&& d.hyphen_mode == hyphen
                },
        decreases args.patterns@.len() - i,
    {
        defs.push(
            PatternDefinition {
                text: copy_string(&args.patterns[i]),
                is_regex,
                boundary_mode: boundary,
                hyphen_mode: hyphen,
            },
        );
        i = i + 1;
    }
    let file_extensions = match &args.extensions {
        Some(e) => {
            let cs = chars_of(e.as_str());
            Some(split_chars(&cs, ','))
        },
        None => None,
    };
    Ok(
        SearchConfig {
            pattern_definitions: defs,
            patterns: Vec::new(),
            pattern: String::new(),
            root_path: copy_string(&args.root),
            file_extensions,
            ignore_patterns: copy_strings(&args.ignore),
            stats_only: false,
            thread_count: match args.threads {
                Some(t) => t,
                None => 4,
            },
            log_level: verbosity.to_owned(),
            context_before: args.context_before,
            context_after: args.context_after,
            incremental: args.incremental,
            cache_path: match &args.cache_path {
                Some(p) => Some(copy_string(p)),
                None => None,
            },
            cache_strategy: strategy_from(args.cache_strategy.as_str()),
            max_cache_size: None,
            use_compression: false,
            encoding_mode: encoding_from(args.encoding.as_str()),
        },
    )
}

} // verus!
