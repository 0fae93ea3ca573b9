//! Workspace metadata and the search for a workspace root.
use vstd::prelude::*;

use crate::paths::{components, path_components, render, render_components};
use crate::text::{chars_of, copy_string, eq_ignore_ascii_case, eq_ignore_ascii_case_seq, views};

verus! {

/// The version recorded in new workspace metadata.
pub open spec fn format_version() -> Seq<char> {
    "0.1.0"@
}

/// At most this many directories are examined when looking for a
/// workspace root.
pub const MAX_UPWARD_STEPS: usize = 20;

/// Global configuration that can be stored at the workspace level.
#[derive(Debug)]
pub struct GlobalConfig {
    /// Patterns to ignore across the entire workspace.
    pub ignore_patterns: Vec<String>,
    /// Default file extensions to search.
    pub default_extensions: Option<Vec<String>>,
}

impl Default for GlobalConfig {
    fn default() -> (c: Self)
        ensures
            c.ignore_patterns@.len() == 0,
            c.default_extensions is None,
    {
        GlobalConfig { ignore_patterns: Vec::new(), default_extensions: None }
    }
}

/// Metadata about a workspace.
#[derive(Debug)]
pub struct WorkspaceMetadata {
    /// The root path where relative references are anchored.
    pub root_path: String,
    /// Version of the workspace format.
    pub version: String,
    /// Format used for workspace configuration (json or yaml).
    pub format: String,
    /// Optional global configuration overrides.
    pub global_config: Option<GlobalConfig>,
}

impl WorkspaceMetadata {
    /// Creates metadata for a workspace at `root_path`, with the current
    /// format version and no global configuration.
    pub fn new(root_path: String, format: String) -> (m: Self)
        ensures
            m.root_path == root_path,
            m.version@ == format_version(),
            m.format == format,
            m.global_config is None,
    {
        WorkspaceMetadata { root_path, version: "0.1.0".to_owned(), format, global_config: None }
    }
}

/// The name of the workspace configuration file for a format: YAML when
/// the format is `yaml` in any ASCII case, JSON otherwise.
pub open spec fn config_file_name(format: Seq<char>) -> Seq<char> {
    if eq_ignore_ascii_case_seq(format, "yaml"@) {
        "workspace.yaml"@
    } else {
        "workspace.json"@
    }
}

/// The configuration file name for a format (see [`config_file_name`]).
pub fn workspace_config_name(format: &str) -> (r: String)
    ensures
        r@ == config_file_name(format@),
{
    let f = chars_of(format);
    let y = chars_of("yaml");
    if eq_ignore_ascii_case(&f, &y) {
        "workspace.yaml".to_owned()
    } else {
        "workspace.json".to_owned()
    }
}

/// A workspace format is accepted: `json` or `yaml` in any ASCII case.
pub open spec fn format_accepted(format: Seq<char>) -> bool {
    eq_ignore_ascii_case_seq(format, "json"@) || eq_ignore_ascii_case_seq(format, "yaml"@)
}

/// Checks a workspace format (see [`format_accepted`]).
pub fn is_accepted_format(format: &str) -> (b: bool)
    ensures
        b == format_accepted(format@),
{
    let f = chars_of(format);
    let j = chars_of("json");
    let y = chars_of("yaml");
    eq_ignore_ascii_case(&f, &j) || eq_ignore_ascii_case(&f, &y)
}

/// How many directories are looked at from `start` upward: every ancestor
/// down to the root (for an absolute path) or down to the empty path (for
/// a relative one), but no more than the step limit.
pub open spec fn candidate_count(start: Seq<char>) -> int {
    let c = components(start);
    let m = if c.len() > 0 && c[0] == seq!['/'] {
        c.len() as int
    } else {
        c.len() + 1int
    };
    if m < MAX_UPWARD_STEPS {
        m
    } else {
        MAX_UPWARD_STEPS as int
    }
}

/// The directories looked at for a workspace marker, from `start` upward:
/// entry `k` is `start` with its last `k` components removed.
pub open spec fn workspace_candidates_spec(start: Seq<char>) -> Seq<Seq<char>> {
    let c = components(start);
    Seq::new(candidate_count(start) as nat, |k: int| render(c.take(c.len() - k)))
}

fn render_prefix(comps: &Vec<String>, len: usize) -> (r: String)
    requires
        len <= comps@.len(),
    ensures
        r@ == render(views(comps@).take(len as int)),
{
    let mut prefix: Vec<String> = Vec::new();
    let mut i: usize = 0;
    while i < len
        invariant
            0 <= i <= len <= comps@.len(),
            views(prefix@) == views(comps@).take(i as int),
        decreases len - i,
    {
        let ghost p0 = prefix@;
        prefix.push(copy_string(&comps[i]));
        assert(views(prefix@) =~= views(p0).push(comps@[i as int]@));
        assert(views(comps@).take(i + 1) =~= views(comps@).take(i as int).push(views(comps@)[i as int]));
        i = i + 1;
    }
    assert(views(prefix@).skip(0) =~= views(prefix@));
    render_components(&prefix, 0)
}

/// Lists the directories looked at for a workspace marker (see
/// [`workspace_candidates_spec`]).
pub fn workspace_candidates(start: &str) -> (r: Vec<String>)
    ensures
        views(r@) == workspace_candidates_spec(start@),
{
    let comps = path_components(start);
    let ghost c = views(comps@);
    let n = comps.len();
    let rooted = if n > 0 {
        let f = chars_of(comps[0].as_str());
        assert(c[0] == f@);
        let b = f.len() == 1 && f[0] == '/';
        assert(b <==> f@ == seq!['/']) by {
            if f@.len() == 1 && f@[0] == '/' {
                assert(f@ =~= seq!['/']);
            }
        }
        b
    } else {
        false
    };
    let count: usize = if rooted {
        if n < MAX_UPWARD_STEPS {
            n
        } else {
            MAX_UPWARD_STEPS
        }
    } else if n >= MAX_UPWARD_STEPS {
        MAX_UPWARD_STEPS
    } else {
        n + 1
    };
    assert(count == candidate_count(start@));
    let mut r: Vec<String> = Vec::new();
    let mut k: usize = 0;
    while k < count
        invariant
            0 <= k <= count,
            count == candidate_count(start@),
            count <= n + 1,
            n == comps@.len(),
            c == views(comps@),
            c == components(start@),
            views(r@) == workspace_candidates_spec(start@).take(k as int),
        decreases count - k,
    {
        let dir = render_prefix(&comps, n - k);
        let ghost r0 = r@;
        r.push(dir);
        assert(views(r@) =~= views(r0).push(dir@));
        assert(workspace_candidates_spec(start@).take(k + 1) =~= workspace_candidates_spec(start@).take(
            k as int,
        ).push(render(c.take(c.len() - k))));
        k = k + 1;
    }
    assert(workspace_candidates_spec(start@).take(count as int) =~= workspace_candidates_spec(start@));
    r
}

/// The workspace root found from `start`: the first candidate directory
/// holding a workspace marker, or `start` itself.
pub open spec fn chosen_root(start: Seq<char>, candidates: Seq<Seq<char>>, has_marker: Seq<bool>) -> Seq<char>
    decreases candidates.len(),
{
    if candidates.len() == 0 || has_marker.len() == 0 {
        start
    } else if has_marker[0] {
        candidates[0]
    } else {
        chosen_root(start, candidates.drop_first(), has_marker.drop_first())
    }
}

/// Picks the workspace root (see [`chosen_root`]); `has_marker[k]` tells
/// whether candidate `k` holds the workspace directory.
pub fn choose_workspace_root(start: &str, candidates: &Vec<String>, has_marker: &Vec<bool>) -> (r: String)
    ensures
        r@ == chosen_root(start@, views(candidates@), has_marker@),
{
    let mut i: usize = 0;
    assert(views(candidates@).skip(0) =~= views(candidates@));
    assert(has_marker@.skip(0) =~= has_marker@);
    while i < candidates.len() && i < has_marker.len() && !has_marker[i]
        invariant
            0 <= i <= candidates@.len(),
            i <= has_marker@.len(),
            chosen_root(start@, views(candidates@), has_marker@) == chosen_root(
                start@,
                views(candidates@).skip(i as int),
                has_marker@.skip(i as int),
            ),
        decreases candidates@.len() - i,
    {
        assert(views(candidates@).skip(i as int).drop_first() =~= views(candidates@).skip(i + 1));
        assert(has_marker@.skip(i as int).drop_first() =~= has_marker@.skip(i + 1));
        i = i + 1;
    }
    if i < candidates.len() && i < has_marker.len() {
        assert(views(candidates@).skip(i as int)[0] == candidates@[i as int]@);
        copy_string(&candidates[i])
    } else {
        start.to_owned()
    }
}

/// What initializing a workspace in a directory does.
#[derive(Debug, Clone, Copy, PartialEq, Eq, Structural)]
pub enum InitDecision {
    /// The directory is no workspace yet: create one.
    Create,
    /// The directory is a workspace and `--force` was given: write it anew.
    Reinitialize,
    /// The directory is a workspace and `--force` was not given: refuse.
    Refuse,
}

/// Decides whether a workspace is initialized in a directory, given
/// whether the directory already holds one and whether `--force` was given.
pub fn init_decision(already_workspace: bool, force: bool) -> (d: InitDecision)
    ensures
        d == if !already_workspace {
            InitDecision::Create
        } else if force {
            InitDecision::Reinitialize
        } else {
            InitDecision::Refuse
        },
{
    if !already_workspace {
        InitDecision::Create
    } else if force {
        InitDecision::Reinitialize
    } else {
        InitDecision::Refuse
    }
}

} // verus!
