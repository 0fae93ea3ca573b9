//! Replacement planning: patterns and their replacements, validation of a
//! replacement task, and plans of non-overlapping replacements per file.
use vstd::prelude::*;

use crate::boundary::WordBoundaryMode;
use crate::errors::SearchError;
use crate::matcher::{
    opt_text, regex_captures_len, regex_compiles, regex_error_message, regex_group_texts, regex_replace_all,
    CompiledRegex, PatternDefinition,
};
use crate::text::{
    chars_of, concat_text, copy_string, decimal, ends_with_chars, ends_with_seq, parse_unsigned,
    parse_usize, replace_all_literal, replace_text, starts_with_chars, starts_with_seq,
    usize_to_decimal, views, string_from_chars,
};

verus! {

/// A pattern and its replacement text.
#[derive(Debug)]
pub struct ReplacementPattern {
    /// The pattern definition.
    pub definition: PatternDefinition,
    /// The text to replace matches with.
    pub replacement_text: String,
}

impl Clone for ReplacementPattern {
    fn clone(&self) -> (r: Self)
        ensures
            r == *self,
    {
        ReplacementPattern {
            definition: self.definition.clone(),
            replacement_text: copy_string(&self.replacement_text),
        }
    }
}

/// Copies a list of replacement patterns.
pub fn copy_patterns(v: &Vec<ReplacementPattern>) -> (r: Vec<ReplacementPattern>)
    ensures
        r@ == v@,
{
    let mut r: Vec<ReplacementPattern> = Vec::new();
    let mut i: usize = 0;
    while i < v.len()
        invariant
            0 <= i <= v@.len(),
            r@ == v@.take(i as int),
        decreases v@.len() - i,
    {
        r.push(v[i].clone());
        assert(v@.take(i as int).push(v@[i as int]) =~= v@.take(i + 1));
        i = i + 1;
    }
    assert(v@.take(v@.len() as int) =~= v@);
    r
}

fn copy_opt_string(o: &Option<String>) -> (r: Option<String>)
    ensures
        r == *o,
{
    match o {
        Some(s) => Some(copy_string(s)),
        None => None,
    }
}

/// Configuration for replacement operations.
#[derive(Debug)]
pub struct ReplacementConfig {
    /// The patterns and their replacements.
    pub patterns: Vec<ReplacementPattern>,
    /// Whether to create backups of modified files.
    pub backup_enabled: bool,
    /// Whether to only show what would be changed without modifying files.
    pub dry_run: bool,
    /// Directory for storing backups (if enabled).
    pub backup_dir: Option<String>,
    /// Whether to preserve file permissions and timestamps.
    pub preserve_metadata: bool,
    /// Directory for storing undo information.
    pub undo_dir: String,
}

impl Clone for ReplacementConfig {
    fn clone(&self) -> (r: Self)
        ensures
            r.patterns@ == self.patterns@,
            r.backup_enabled == self.backup_enabled,
            r.dry_run == self.dry_run,
            r.backup_dir == self.backup_dir,
            r.preserve_metadata == self.preserve_metadata,
            r.undo_dir == self.undo_dir,
    {
        ReplacementConfig {
            patterns: copy_patterns(&self.patterns),
            backup_enabled: self.backup_enabled,
            dry_run: self.dry_run,
            backup_dir: copy_opt_string(&self.backup_dir),
            preserve_metadata: self.preserve_metadata,
            undo_dir: copy_string(&self.undo_dir),
        }
    }
}

impl Default for ReplacementConfig {
    /// No patterns, backups on, no dry run, no backup directory, metadata
    /// preserved, undo data under `.rustscout/undo`.
    fn default() -> (c: Self)
        ensures
            c.patterns@.len() == 0,
            c.backup_enabled,
            !c.dry_run,
            c.backup_dir is None,
            c.preserve_metadata,
            c.undo_dir@ == ".rustscout/undo"@,
    {
        ReplacementConfig {
            patterns: Vec::new(),
            backup_enabled: true,
            dry_run: false,
            backup_dir: None,
            preserve_metadata: true,
            undo_dir: ".rustscout/undo".to_owned(),
        }
    }
}

impl ReplacementConfig {
    /// Merges options given on the command line into this configuration:
    /// non-empty CLI patterns replace the patterns, the flags are or-ed, a CLI
    /// backup directory replaces the backup directory, and the undo directory
    /// is kept.
    pub fn merge_with_cli(&mut self, cli_config: ReplacementConfig)
        ensures
            final(self).patterns@ == if cli_config.patterns@.len() > 0 {
                cli_config.patterns@
            } else {
                old(self).patterns@
            },
            final(self).backup_enabled == (old(self).backup_enabled || cli_config.backup_enabled),
            final(self).dry_run == (old(self).dry_run || cli_config.dry_run),
            final(self).backup_dir == if cli_config.backup_dir is Some {
                cli_config.backup_dir
            } else {
                old(self).backup_dir
            },
            final(self).preserve_metadata == (old(self).preserve_metadata
                || cli_config.preserve_metadata),
            final(self).undo_dir == old(self).undo_dir,
    {
        let ReplacementConfig {
            patterns,
            backup_enabled,
            dry_run,
            backup_dir,
            preserve_metadata,
            undo_dir: _,
        } = cli_config;
        if patterns.len() > 0 {
            self.patterns = patterns;
        }
        self.backup_enabled = self.backup_enabled || backup_enabled;
        self.dry_run = self.dry_run || dry_run;
        if backup_dir.is_some() {
            self.backup_dir = backup_dir;
        }
        self.preserve_metadata = self.preserve_metadata || preserve_metadata;
    }
}

/// Represents a single replacement operation within a file.
#[derive(Debug)]
pub struct ReplacementTask {
    /// The file this replacement applies to.
    pub file_path: String,
    /// The byte range in the file to replace.
    pub original_range: (usize, usize),
    /// The text to insert in place of the matched range.
    pub replacement_text: String,
    /// The index of the pattern that matched.
    pub pattern_index: usize,
    /// The configuration for this replacement operation.
    pub config: ReplacementConfig,
}

// ---------------------------------------------------------------------------
// Validation
// ---------------------------------------------------------------------------
/// The regex that finds the group references of a replacement text: a
/// `$` followed by digits, the digits captured as group 1.
pub open spec fn group_ref_source() -> Seq<char> {
    seq!['\\', '$', '(', '\\', 'd', '+', ')']
}

/// The texts that are present, in order.
pub open spec fn present_texts(s: Seq<Option<Seq<char>>>) -> Seq<Seq<char>>
    decreases s.len(),
{
    if s.len() == 0 {
        seq![]
    } else {
        match s.last() {
            Some(x) => present_texts(s.drop_last()).push(x),
            None => present_texts(s.drop_last()),
        }
    }
}

/// The digit runs of the group references `$N` in `fmt`, in order; `None`
/// when the reference regex does not compile.
pub open spec fn group_ref_runs(fmt: Seq<char>) -> Option<Seq<Seq<char>>> {
    if regex_compiles(group_ref_source()) {
        Some(present_texts(regex_group_texts(group_ref_source(), fmt, 1)))
    } else {
        None
    }
}

fn present_strings(v: Vec<Option<String>>) -> (r: Vec<String>)
    ensures
        views(r@) == present_texts(v@.map_values(|o: Option<String>| opt_text(o))),
{
    let ghost vs = v@.map_values(|o: Option<String>| opt_text(o));
    let mut r: Vec<String> = Vec::new();
    let mut i: usize = 0;
    assert(vs.take(0) =~= Seq::<Option<Seq<char>>>::empty());
    while i < v.len()
        invariant
            0 <= i <= v@.len(),
            vs == v@.map_values(|o: Option<String>| opt_text(o)),
            views(r@) == present_texts(vs.take(i as int)),
        decreases v@.len() - i,
    {
        assert(vs.take(i + 1).drop_last() =~= vs.take(i as int));
        assert(vs.take(i + 1).last() == opt_text(v@[i as int]));
        match &v[i] {
            Some(x) => {
                let ghost r0 = r@;
                r.push(copy_string(x));
                assert(views(r@) =~= views(r0).push(x@));
            },
            None => {},
        }
        i = i + 1;
    }
    assert(vs.take(v@.len() as int) =~= vs);
    r
}

/// `\b`, the boundary marker a whole-word regex must start and end with.
pub open spec fn boundary_marker() -> Seq<char> {
    seq!['\\', 'b']
}

/// The message for an empty pattern.
pub open spec fn empty_pattern_message() -> Seq<char> {
    "Pattern cannot be empty"@
}

/// The message for a whole-word regex without boundary markers.
pub open spec fn missing_markers_message() -> Seq<char> {
    "Pattern must have word boundary markers (\\b) when word boundary mode is enabled"@
}

/// The message for a reference to capture group `n` that does not exist.
pub open spec fn missing_group_message(n: nat) -> Seq<char> {
    "Capture group $"@ + decimal(n) + " does not exist"@
}

/// The first group reference among `runs[from..]` that names a group the
/// regex does not have (group numbers `>= group_count`), as a number.
pub open spec fn first_missing_group(runs: Seq<Seq<char>>, group_count: nat, from: int) -> Option<nat>
    decreases runs.len() - from,
{
    if from < 0 || from >= runs.len() {
        None
    } else {
        match parse_unsigned(runs[from], usize::MAX as nat) {
            Some(n) => if n >= group_count {
                Some(n)
            } else {
                first_missing_group(runs, group_count, from + 1)
            },
            None => first_missing_group(runs, group_count, from + 1),
        }
    }
}

/// What validating the pattern `p` of a task finds wrong, as the message
/// of the invalid-pattern error (`None` when it is valid): an empty pattern
/// text is refused; other literal patterns are valid; a regex must compile, must carry `\b` at both ends in
/// whole-word mode, and its replacement may only refer to existing capture
/// groups.
pub open spec fn pattern_problem(p: ReplacementPattern) -> Option<Seq<char>> {
    let text = p.definition.text@;
    if text.len() == 0 {
        Some(empty_pattern_message())
    } else if !p.definition.is_regex {
        None
    } else if !regex_compiles(text) {
        Some(regex_error_message(text))
    } else if p.definition.boundary_mode == WordBoundaryMode::WholeWords && !(starts_with_seq(
        text,
        boundary_marker(),
    ) && ends_with_seq(text, boundary_marker())) {
        Some(missing_markers_message())
    } else {
        match group_ref_runs(p.replacement_text@) {
            None => Some(regex_error_message(group_ref_source())),
            Some(runs) => match first_missing_group(runs, regex_captures_len(text), 0) {
                Some(n) => Some(missing_group_message(n)),
                None => None,
            },
        }
    }
}

/// A validation result reports `problem`: `Ok` when there is none, an
/// invalid-pattern error with its message otherwise.
pub open spec fn reports(r: Result<(), SearchError>, problem: Option<Seq<char>>) -> bool {
    match problem {
        None => r is Ok,
        Some(m) => r matches Err(SearchError::InvalidPattern(x)) && x@ == m,
    }
}

/// What validating a task finds wrong (see [`pattern_problem`]); a task
/// without patterns is invalid.
pub open spec fn task_problem(t: ReplacementTask) -> Option<Seq<char>> {
    if t.config.patterns@.len() == 0 {
        Some(empty_pattern_message())
    } else {
        pattern_problem(t.config.patterns@[t.pattern_index as int])
    }
}

/// The task names an existing pattern whenever there are patterns.
pub open spec fn task_indexable(t: ReplacementTask) -> bool {
    t.config.patterns@.len() > 0 ==> t.pattern_index < t.config.patterns@.len()
}

/// Checks group references against the number of capture groups of a
/// regex (group 0, the whole match, included): `runs` are the digit runs
/// of the `$N` references in order; the first reference to a group that
/// does not exist is reported.
pub fn check_group_refs(runs: &Vec<String>, group_count: usize) -> (r: Result<(), SearchError>)
    ensures
        match first_missing_group(views(runs@), group_count as nat, 0) {
            Some(n) => r matches Err(SearchError::InvalidPattern(m)) && m@ == missing_group_message(n),
            None => r is Ok,
        },
{
    let ghost rs = views(runs@);
    let mut i: usize = 0;
    while i < runs.len()
        invariant
            0 <= i <= runs@.len(),
            rs == views(runs@),
            first_missing_group(rs, group_count as nat, 0) == first_missing_group(
                rs,
                group_count as nat,
                i as int,
            ),
        decreases runs@.len() - i,
    {
        let parsed = parse_usize(runs[i].as_str());
        assert(rs[i as int] == runs@[i as int]@);
        match parsed {
            Some(num) => {
                if num >= group_count {
                    let digits = usize_to_decimal(num);
                    let a = concat_text("Capture group $", digits.as_str());
                    let msg = concat_text(a.as_str(), " does not exist");
                    return Err(SearchError::InvalidPattern(msg));
                }
            },
            None => {},
        }
        i = i + 1;
    }
    Ok(())
}

fn check_capture_groups(regex: &CompiledRegex, capture_fmt: &str) -> (r: Result<(), SearchError>)
    ensures
        match group_ref_runs(capture_fmt@) {
            None => r matches Err(SearchError::InvalidPattern(m)) && m@ == regex_error_message(
                group_ref_source(),
            ),
            Some(runs) => match first_missing_group(runs, regex_captures_len(regex.source()), 0) {
                Some(n) => r matches Err(SearchError::InvalidPattern(m)) && m@ == missing_group_message(n),
                None => r is Ok,
            },
        },
{
    let group_count = regex.captures_len();
    let src_chars = vec!['\\', '$', '(', '\\', 'd', '+', ')'];
    assert(src_chars@ =~= group_ref_source());
    let src = string_from_chars(&src_chars);
    match CompiledRegex::compile(src.as_str()) {
        Err(m) => Err(SearchError::InvalidPattern(m)),
        Ok(refs) => {
            let texts = refs.group_texts(capture_fmt, 1);
            let runs = present_strings(texts);
            check_group_refs(&runs, group_count)
        },
    }
}

/// Validates one replacement pattern (see [`pattern_problem`]).
pub fn validate_pattern(p: &ReplacementPattern) -> (r: Result<(), SearchError>)
    ensures
        reports(r, pattern_problem(*p)),
{
    let text = p.definition.text.as_str();
    if chars_of(text).len() == 0 {
        return Err(SearchError::InvalidPattern("Pattern cannot be empty".to_owned()));
    }
    if !p.definition.is_regex {
        return Ok(());
    }
    match CompiledRegex::compile(text) {
        Err(m) => Err(SearchError::InvalidPattern(m)),
        Ok(regex) => {
            if p.definition.boundary_mode == WordBoundaryMode::WholeWords {
                let cs = chars_of(text);
                let marker = vec!['\\', 'b'];
                assert(marker@ =~= boundary_marker());
                if !(starts_with_chars(&cs, &marker) && ends_with_chars(&cs, &marker)) {
                    return Err(
                        SearchError::InvalidPattern(
                            "Pattern must have word boundary markers (\\b) when word boundary mode is enabled".to_owned(),
                        ),
                    );
                }
            }
            check_capture_groups(&regex, p.replacement_text.as_str())
        },
    }
}

impl ReplacementTask {
    pub fn new(
        file_path: String,
        original_range: (usize, usize),
        replacement_text: String,
        pattern_index: usize,
        config: ReplacementConfig,
    ) -> (t: Self)
        ensures
            t == (ReplacementTask {
                file_path,
                original_range,
                replacement_text,
                pattern_index,
                config,
            }),
    {
        ReplacementTask { file_path, original_range, replacement_text, pattern_index, config }
    }

    /// Validates the task: there must be a pattern, and the task's pattern
    /// must be valid (see [`task_problem`]).
    pub fn validate(&self) -> (r: Result<(), SearchError>)
        requires
            task_indexable(*self),
        ensures
            reports(r, task_problem(*self)),
    {
        if self.config.patterns.len() == 0 {
            return Err(SearchError::InvalidPattern("Pattern cannot be empty".to_owned()));
        }
        validate_pattern(&self.config.patterns[self.pattern_index])
    }

    /// Applies the task's pattern to the whole of `content`, after
    /// validating the task: a regex pattern replaces every regex match
    /// (expanding group references), a literal pattern every occurrence.
    pub fn apply(&self, content: &str) -> (r: Result<String, SearchError>)
        requires
            task_indexable(*self),
        ensures
            r is Ok <==> task_problem(*self) is None,
            r matches Ok(s) ==> {
                let p = self.config.patterns@[self.pattern_index as int];
                s@ == if p.definition.is_regex {
                    regex_replace_all(p.definition.text@, content@, p.replacement_text@)
                } else {
                    replace_all_literal(content@, p.definition.text@, p.replacement_text@)
                }
            },
            r matches Err(e) ==> reports(Err(e), task_problem(*self)),
    {
        match self.validate() {
            Err(e) => Err(e),
            Ok(()) => {
                let p = &self.config.patterns[self.pattern_index];
                if p.definition.is_regex {
                    match CompiledRegex::compile(p.definition.text.as_str()) {
                        Ok(regex) => Ok(regex.replace_all(content, p.replacement_text.as_str())),
                        Err(m) => Err(SearchError::InvalidPattern(m)),
                    }
                } else {
                    Ok(
                        replace_text(
                            content,
                            p.definition.text.as_str(),
                            p.replacement_text.as_str(),
                        ),
                    )
                }
            },
        }
    }
}

} // verus!
