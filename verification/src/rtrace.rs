//! The rtrace search front end: its configuration builder, its errors and
//! its file filters.
use vstd::prelude::*;

pub use crate::filters::{has_valid_extension, is_likely_binary};

use crate::filters::{glob_matches, glob_valid, likely_binary, valid_extension, GlobPattern};
use crate::text::{chars_of, concat_text, contains_chars, contains_seq};

verus! {

/// The number of CPUs available to this process.
///
/// Trusted: calls `num_cpus::get`, which is documented to always return at
/// least 1; the value depends on the machine and is not named.
#[verifier::external_body]
pub(crate) fn cpu_count() -> (n: usize)
    ensures
        n >= 1,
{
    num_cpus::get()
}

/// Configuration for the search operation.
#[derive(Debug)]
pub struct Config {
    /// The pattern to search for (regex).
    pub pattern: String,
    /// The root directory to start searching from.
    pub root_path: String,
    /// Number of threads to use for parallel search (never zero).
    pub thread_count: usize,
    /// File patterns to ignore.
    pub ignore_patterns: Vec<String>,
    /// Whether to only show statistics instead of matches.
    pub stats_only: bool,
    /// File extensions to include in the search.
    pub file_extensions: Option<Vec<String>>,
}

impl Default for Config {
    /// An empty pattern under `.`, one thread per CPU, no ignore patterns,
    /// matches shown, every extension.
    fn default() -> (c: Self)
        ensures
            c.pattern@.len() == 0,
            c.root_path@ == "."@,
            c.thread_count >= 1,
            c.ignore_patterns@.len() == 0,
            !c.stats_only,
            c.file_extensions is None,
    {
        Config {
            pattern: String::new(),
            root_path: ".".to_owned(),
            thread_count: cpu_count(),
            ignore_patterns: Vec::new(),
            stats_only: false,
            file_extensions: None,
        }
    }
}

impl Config {
    /// Creates a configuration with the given pattern and root path and
    /// the defaults otherwise.
    pub fn new(pattern: String, root_path: String) -> (c: Self)
        ensures
            c.pattern == pattern,
            c.root_path == root_path,
            c.thread_count >= 1,
            c.ignore_patterns@.len() == 0,
            !c.stats_only,
            c.file_extensions is None,
    {
        let d = Config::default();
        Config { pattern, root_path, ..d }
    }

    /// Sets the number of threads.
    pub fn with_thread_count(self, count: usize) -> (c: Self)
        requires
            count >= 1,
        ensures
            c == (Config { thread_count: count, ..self }),
    {
        Config { thread_count: count, ..self }
    }

    /// Sets the ignore patterns.
    pub fn with_ignore_patterns(self, patterns: Vec<String>) -> (c: Self)
        ensures
            c == (Config { ignore_patterns: patterns, ..self }),
    {
        Config { ignore_patterns: patterns, ..self }
    }

    /// Sets stats-only mode.
    pub fn with_stats_only(self, stats_only: bool) -> (c: Self)
        ensures
            c == (Config { stats_only, ..self }),
    {
        Config { stats_only, ..self }
    }

    /// Sets the file extensions to include.
    pub fn with_file_extensions(self, extensions: Vec<String>) -> (c: Self)
        ensures
            c == (Config { file_extensions: Some(extensions), ..self }),
    {
        Config { file_extensions: Some(extensions), ..self }
    }
}

/// Errors of the rtrace front end.
#[derive(Debug)]
pub enum RTraceError {
    Io(String),
    Pattern(String),
    Config(String),
    Search(String),
}

/// The message of an error, as it is displayed.
pub open spec fn rtrace_message(e: RTraceError) -> Seq<char> {
    match e {
        RTraceError::Io(m) => "IO error: "@ + m@,
        RTraceError::Pattern(m) => "Pattern error: "@ + m@,
        RTraceError::Config(m) => "Configuration error: "@ + m@,
        RTraceError::Search(m) => "Search error: "@ + m@,
    }
}

impl RTraceError {
    /// The message of this error, as it is displayed.
    pub fn message(&self) -> (r: String)
        ensures
            r@ == rtrace_message(*self),
    {
        match self {
            RTraceError::Io(m) => concat_text("IO error: ", m.as_str()),
            RTraceError::Pattern(m) => concat_text("Pattern error: ", m.as_str()),
            RTraceError::Config(m) => concat_text("Configuration error: ", m.as_str()),
            RTraceError::Search(m) => concat_text("Search error: ", m.as_str()),
        }
    }
}

/// A path is ignored: it lies under a `target` or `.git` directory, or a
/// valid glob among the patterns matches the whole path.
pub open spec fn ignored(path: Seq<char>, patterns: Seq<String>) -> bool {
    contains_seq(path, "/target/"@) || contains_seq(path, "/.git/"@) || exists|i: int|
        0 <= i < patterns.len() && glob_valid(#[trigger] patterns[i]@) && glob_matches(
            patterns[i]@,
            path,
        )
}

/// Checks if a file should be ignored based on ignore patterns (see
/// [`ignored`]).
pub fn should_ignore(path: &str, ignore_patterns: &Vec<String>) -> (b: bool)
    ensures
        b == ignored(path@, ignore_patterns@),
{
    let pc = chars_of(path);
    let target = chars_of("/target/");
    let git = chars_of("/.git/");
    if contains_chars(&pc, &target) || contains_chars(&pc, &git) {
        return true;
    }
    let mut i: usize = 0;
    while i < ignore_patterns.len()
        invariant
            0 <= i <= ignore_patterns@.len(),
            forall|j: int|
                0 <= j < i ==> !(glob_valid(#[trigger] ignore_patterns@[j]@) && glob_matches(
                    ignore_patterns@[j]@,
                    path@,
                )),
        decreases ignore_patterns@.len() - i,
    {
        match GlobPattern::compile(ignore_patterns[i].as_str()) {
            Some(g) => {
                if g.matches(path) {
                    assert(glob_valid(ignore_patterns@[i as int]@));
                    return true;
                }
            },
            None => {},
        }
        i = i + 1;
    }
    false
}

/// Determines if a file should be included in the search: not likely
/// binary, with a wanted extension, and not ignored.
pub fn should_include_file(
    path: &str,
    extensions: &Option<Vec<String>>,
    ignore_patterns: &Vec<String>,
) -> (b: bool)
    ensures
        b == (!likely_binary(path@) && valid_extension(path@, *extensions) && !ignored(
            path@,
            ignore_patterns@,
        )),
{
    !is_likely_binary(path) && has_valid_extension(path, extensions) && !should_ignore(
        path,
        ignore_patterns,
    )
}

} // verus!
