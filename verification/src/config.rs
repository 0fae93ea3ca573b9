//! Search configuration.
use vstd::prelude::*;

use crate::boundary::{HyphenMode, WordBoundaryMode};
use crate::cache::ChangeDetectionStrategy;
use crate::matcher::PatternDefinition;
use crate::paths::{join_path, joined, same_path, same_path_spec};
use crate::text::{copy_string, copy_strings};

verus! {

/// How invalid UTF-8 in a file is handled.
#[derive(Debug, Clone, Copy, PartialEq, Eq, Structural)]
pub enum EncodingMode {
    /// Fail on the first invalid sequence.
    FailFast,
    /// Replace invalid sequences and go on.
    Lossy,
}

/// Configuration for search operations.
#[derive(Debug)]
pub struct SearchConfig {
    /// Pattern definitions with boundary settings.
    pub pattern_definitions: Vec<PatternDefinition>,
    /// Legacy search patterns.
    pub patterns: Vec<String>,
    /// Legacy single pattern field.
    pub pattern: String,
    /// Root directory to search in.
    pub root_path: String,
    /// File extensions to include (None means all).
    pub file_extensions: Option<Vec<String>>,
    /// Patterns to ignore.
    pub ignore_patterns: Vec<String>,
    /// Only show statistics, not matches.
    pub stats_only: bool,
    /// Number of threads to use (never zero).
    pub thread_count: usize,
    /// Log level.
    pub log_level: String,
    /// Number of context lines before matches.
    pub context_before: usize,
    /// Number of context lines after matches.
    pub context_after: usize,
    /// Whether to use incremental search.
    pub incremental: bool,
    /// Path to the cache file.
    pub cache_path: Option<String>,
    /// Strategy for detecting changes.
    pub cache_strategy: ChangeDetectionStrategy,
    /// Maximum cache size in bytes.
    pub max_cache_size: Option<u64>,
    /// Whether to use compression for cache.
    pub use_compression: bool,
    /// How invalid UTF-8 is handled.
    pub encoding_mode: EncodingMode,
}

/// The configuration fields of a default configuration.
pub open spec fn is_default(c: SearchConfig) -> bool {
    c.pattern_definitions@.len() == 0 && defaults_besides_definitions(c)
}

/// Every field but the pattern definitions has its default value.
pub open spec fn defaults_besides_definitions(c: SearchConfig) -> bool {
    &&& c.patterns@.len() == 0
    &&& c.pattern@.len() == 0
    &&& c.root_path@ == "."@
    &&& c.file_extensions is None
    &&& c.ignore_patterns@.len() == 0
    &&& !c.stats_only
    &&& c.thread_count == 4
    &&& c.log_level@ == "info"@
    &&& c.context_before == 0
    &&& c.context_after == 0
    &&& !c.incremental
    &&& c.cache_path is None
    &&& c.cache_strategy == ChangeDetectionStrategy::Auto
    &&& c.max_cache_size is None
    &&& !c.use_compression
    &&& c.encoding_mode == EncodingMode::FailFast
}

impl Default for SearchConfig {
    fn default() -> (c: Self)
        ensures
            is_default(c),
    {
        SearchConfig {
            pattern_definitions: Vec::new(),
            patterns: Vec::new(),
            pattern: String::new(),
            root_path: ".".to_owned(),
            file_extensions: None,
            ignore_patterns: Vec::new(),
            stats_only: false,
            thread_count: 4,
            log_level: "info".to_owned(),
            context_before: 0,
            context_after: 0,
            incremental: false,
            cache_path: None,
            cache_strategy: ChangeDetectionStrategy::Auto,
            max_cache_size: None,
            use_compression: false,
            encoding_mode: EncodingMode::FailFast,
        }
    }
}

/// Copies pattern definitions.
pub fn copy_definitions(v: &Vec<PatternDefinition>) -> (r: Vec<PatternDefinition>)
    ensures
        r@ == v@,
{
    let mut r: Vec<PatternDefinition> = Vec::new();
    let mut i: usize = 0;
    while i < v.len()
        invariant
            0 <= i <= v@.len(),
            r@ == v@.take(i as int),
        decreases v@.len() - i,
    {
        r.push(v[i].clone());
        assert(v@.take(i as int).push(v@[i as int]) =~= v@.take(i + 1));
        i = i + 1;
    }
    assert(v@.take(v@.len() as int) =~= v@);
    r
}

/// The contents of an optional list of strings.
pub open spec fn opt_view(o: Option<Vec<String>>) -> Option<Seq<String>> {
    match o {
        Some(v) => Some(v@),
        None => None,
    }
}

fn copy_opt_strings(o: &Option<Vec<String>>) -> (r: Option<Vec<String>>)
    ensures
        opt_view(r) == opt_view(*o),
{
    match o {
        Some(v) => Some(copy_strings(v)),
        None => None,
    }
}

/// The definition a legacy pattern stands for: literal, without boundary
/// checks, with joining hyphens.
pub open spec fn legacy_definition(p: String) -> PatternDefinition {
    PatternDefinition {
        text: p,
        is_regex: false,
        boundary_mode: WordBoundaryMode::NoBoundary,
        hyphen_mode: HyphenMode::Joining,
    }
}

/// All pattern definitions of a configuration: its definitions, then its
/// legacy patterns, then its legacy single pattern when not empty.
pub open spec fn all_definitions(c: SearchConfig) -> Seq<PatternDefinition> {
    c.pattern_definitions@ + c.patterns@.map_values(|p: String| legacy_definition(p)) + if c.pattern@.len()
        > 0 {
        seq![legacy_definition(c.pattern)]
    } else {
        seq![]
    }
}

impl SearchConfig {
    /// Creates a default configuration with a single pattern (joining
    /// hyphens).
    pub fn new_with_pattern(text: String, is_regex: bool, boundary_mode: WordBoundaryMode) -> (c:
        Self)
        ensures
            c.pattern_definitions@.len() == 1,
            c.pattern_definitions@[0] == (PatternDefinition {
                text,
                is_regex,
                boundary_mode,
                hyphen_mode: HyphenMode::Joining,
            }),
            defaults_besides_definitions(c),
    {
        let mut config = Self::default();
        config.pattern_definitions.push(
            PatternDefinition { text, is_regex, boundary_mode, hyphen_mode: HyphenMode::Joining },
        );
        config
    }

    /// Gets all pattern definitions, including those from legacy fields (see
    /// [`all_definitions`]).
    pub fn get_pattern_definitions(&self) -> (r: Vec<PatternDefinition>)
        ensures
            r@ == all_definitions(*self),
    {
        let mut defs = copy_definitions(&self.pattern_definitions);
        let mut i: usize = 0;
        while i < self.patterns.len()
            invariant
                0 <= i <= self.patterns@.len(),
                defs@ == self.pattern_definitions@ + self.patterns@.take(i as int).map_values(
                    |p: String| legacy_definition(p),
                ),
            decreases self.patterns@.len() - i,
        {
            let ghost d0 = defs@;
            defs.push(
                PatternDefinition {
                    text: copy_string(&self.patterns[i]),
                    is_regex: false,
                    boundary_mode: WordBoundaryMode::NoBoundary,
                    hyphen_mode: HyphenMode::Joining,
                },
            );
            assert(self.patterns@.take(i + 1).map_values(|p: String| legacy_definition(p))
                =~= self.patterns@.take(i as int).map_values(|p: String| legacy_definition(p)).push(
                legacy_definition(self.patterns@[i as int]),
            ));
            i = i + 1;
        }
        assert(self.patterns@.take(self.patterns@.len() as int) =~= self.patterns@);
        if self.pattern.as_str().as_bytes().len() > 0 {
            defs.push(
                PatternDefinition {
                    text: copy_string(&self.pattern),
                    is_regex: false,
                    boundary_mode: WordBoundaryMode::NoBoundary,
                    hyphen_mode: HyphenMode::Joining,
                },
            );
        }
        proof {
            crate::text::lemma_byte_len_zero(self.pattern@);
        }
        assert(defs@ =~= all_definitions(*self));
        defs
    }

    /// Gets the default cache path: `.rustscout/cache.json` under the root.
    pub fn default_cache_path(&self) -> (r: String)
        ensures
            r@ == joined(joined(self.root_path@, ".rustscout"@), "cache.json"@),
    {
        let dir = join_path(self.root_path.as_str(), ".rustscout");
        join_path(dir.as_str(), "cache.json")
    }

    /// Gets the effective cache path: the configured one, or the default.
    pub fn get_cache_path(&self) -> (r: String)
        ensures
            r@ == match self.cache_path {
                Some(p) => p@,
                None => joined(joined(self.root_path@, ".rustscout"@), "cache.json"@),
            },
    {
        match &self.cache_path {
            Some(p) => copy_string(p),
            None => self.default_cache_path(),
        }
    }

    /// Merges command-line settings into this configuration: each CLI
    /// setting that differs from its default replaces the setting here;
    /// flags that are set are set here too.
    pub fn merge_with_cli(&mut self, cli: &SearchConfig)
        ensures
            final(self).pattern_definitions@ == if cli.pattern_definitions@.len() > 0 {
                cli.pattern_definitions@
            } else {
                old(self).pattern_definitions@
            },
            final(self).patterns@ == if cli.patterns@.len() > 0 {
                cli.patterns@
            } else {
                old(self).patterns@
            },
            final(self).pattern@ == if cli.pattern@.len() > 0 {
                cli.pattern@
            } else {
                old(self).pattern@
            },
            final(self).root_path@ == if !same_path_spec(cli.root_path@, "."@) {
                cli.root_path@
            } else {
                old(self).root_path@
            },
            opt_view(final(self).file_extensions) == if cli.file_extensions is Some {
                opt_view(cli.file_extensions)
            } else {
                opt_view(old(self).file_extensions)
            },
            final(self).ignore_patterns@ == if cli.ignore_patterns@.len() > 0 {
                cli.ignore_patterns@
            } else {
                old(self).ignore_patterns@
            },
            final(self).stats_only == (old(self).stats_only || cli.stats_only),
            final(self).thread_count == if cli.thread_count != 4 {
                cli.thread_count
            } else {
                old(self).thread_count
            },
            final(self).log_level@ == if cli.log_level@ != "info"@ {
                cli.log_level@
            } else {
                old(self).log_level@
            },
            final(self).context_before == if cli.context_before != 0 {
                cli.context_before
            } else {
                old(self).context_before
            },
            final(self).context_after == if cli.context_after != 0 {
                cli.context_after
            } else {
                old(self).context_after
            },
            final(self).incremental == (old(self).incremental || cli.incremental),
            cli.cache_path is Some ==> final(self).cache_path == cli.cache_path,
            cli.cache_path is None ==> final(self).cache_path == old(self).cache_path,
            final(self).cache_strategy == if cli.cache_strategy != ChangeDetectionStrategy::Auto {
                cli.cache_strategy
            } else {
                old(self).cache_strategy
            },
            final(self).max_cache_size == if cli.max_cache_size is Some {
                cli.max_cache_size
            } else {
                old(self).max_cache_size
            },
            final(self).use_compression == (old(self).use_compression || cli.use_compression),
            final(self).encoding_mode == old(self).encoding_mode,
    {
        let root_default = same_path(cli.root_path.as_str(), ".");
        let info = "info".to_owned();
        let log_default = cli.log_level.eq(&info);
        proof {
            crate::text::lemma_byte_len_zero(cli.pattern@);
        }
        let merged = SearchConfig {
            pattern_definitions: if cli.pattern_definitions.len() > 0 {
                copy_definitions(&cli.pattern_definitions)
            } else {
                copy_definitions(&self.pattern_definitions)
            },
            patterns: pick_strings(&self.patterns, &cli.patterns),
            pattern: if cli.pattern.as_str().as_bytes().len() > 0 {
                copy_string(&cli.pattern)
            } else {
                copy_string(&self.pattern)
            },
            root_path: if !root_default {
                copy_string(&cli.root_path)
            } else {
                copy_string(&self.root_path)
            },
            file_extensions: if cli.file_extensions.is_some() {
                copy_opt_strings(&cli.file_extensions)
            } else {
                copy_opt_strings(&self.file_extensions)
            },
            ignore_patterns: pick_strings(&self.ignore_patterns, &cli.ignore_patterns),
            stats_only: self.stats_only || cli.stats_only,
            thread_count: if cli.thread_count != 4 {
                cli.thread_count
            } else {
                self.thread_count
            },
            log_level: if !log_default {
                copy_string(&cli.log_level)
            } else {
                copy_string(&self.log_level)
            },
            context_before: if cli.context_before != 0 {
                cli.context_before
            } else {
                self.context_before
            },
            context_after: if cli.context_after != 0 {
                cli.context_after
            } else {
                self.context_after
            },
            incremental: self.incremental || cli.incremental,
            cache_path: if cli.cache_path.is_some() {
                copy_opt_string(&cli.cache_path)
            } else {
                copy_opt_string(&self.cache_path)
            },
            cache_strategy: if cli.cache_strategy != ChangeDetectionStrategy::Auto {
                cli.cache_strategy
            } else {
                self.cache_strategy
            },
            max_cache_size: if cli.max_cache_size.is_some() {
                cli.max_cache_size
            } else {
                self.max_cache_size
            },
            use_compression: self.use_compression || cli.use_compression,
            encoding_mode: self.encoding_mode,
        };
        *self = merged;
    }
}

fn pick_strings(cur: &Vec<String>, cli: &Vec<String>) -> (r: Vec<String>)
    ensures
        r@ == if cli@.len() > 0 {
            cli@
        } else {
            cur@
        },
{
    if cli.len() > 0 {
        copy_strings(cli)
    } else {
        copy_strings(cur)
    }
}

fn copy_opt_string(o: &Option<String>) -> (r: Option<String>)
    ensures
        r == *o,
{
    match o {
        Some(s) => Some(copy_string(s)),
        None => None,
    }
}

} // verus!
