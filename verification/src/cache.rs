//! Change detection and cache entries for incremental search.
use vstd::prelude::*;

use crate::paths::{join_path, joined, path_starts_with, relative_to, strip_prefix};
use crate::results::Match;
use crate::text::{
    byte_len, chars_of, copy_string, lines_of, split_chars, split_lines, split_on,
    string_from_range, trim_chars, trim_seq, views,
};

verus! {

/// How changed files are detected.
#[derive(Debug, Clone, Copy, PartialEq, Eq, Structural)]
pub enum ChangeDetectionStrategy {
    FileSignature,
    GitStatus,
    Auto,
}

/// The change detected for a file.
#[derive(Debug, PartialEq, Eq)]
pub enum ChangeStatus {
    Added,
    Modified,
    /// Renamed from the given path.
    Renamed(String),
    Deleted,
    Unchanged,
}

impl Clone for ChangeStatus {
    fn clone(&self) -> (r: Self)
        ensures
            r == *self,
    {
        match self {
            ChangeStatus::Added => ChangeStatus::Added,
            ChangeStatus::Modified => ChangeStatus::Modified,
            ChangeStatus::Renamed(p) => ChangeStatus::Renamed(copy_string(p)),
            ChangeStatus::Deleted => ChangeStatus::Deleted,
            ChangeStatus::Unchanged => ChangeStatus::Unchanged,
        }
    }
}

/// A file and its detected change.
#[derive(Debug)]
pub struct FileChangeInfo {
    pub path: String,
    pub status: ChangeStatus,
}

/// A file's signature: modification time and size, and optionally a hash.
#[derive(Debug, PartialEq, Eq)]
pub struct FileSignature {
    /// Seconds of the modification time since the Unix epoch.
    pub mtime_secs: u64,
    /// Nanoseconds of the modification time within its second.
    pub mtime_nanos: u32,
    /// File size in bytes.
    pub size: u64,
    /// Optional content hash.
    pub hash: Option<String>,
}

/// A cache entry for one file.
#[derive(Debug)]
pub struct FileCacheEntry {
    /// File signature used to detect changes.
    pub signature: FileSignature,
    /// Cached search results, if any.
    pub search_results: Option<Vec<Match>>,
    /// When this entry was last accessed, in seconds since the Unix epoch.
    pub last_accessed: u64,
    /// Number of times this entry has been accessed.
    pub access_count: u64,
}

impl FileCacheEntry {
    /// Creates a new entry without results, accessed at `now`, never used.
    pub fn new(signature: FileSignature, now: u64) -> (e: Self)
        ensures
            e.signature == signature,
            e.search_results is None,
            e.last_accessed == now,
            e.access_count == 0,
    {
        FileCacheEntry { signature, search_results: None, last_accessed: now, access_count: 0 }
    }

    /// Updates access statistics when this entry is used at `now`.
    pub fn mark_accessed(&mut self, now: u64)
        requires
            old(self).access_count < u64::MAX,
        ensures
            final(self).last_accessed == now,
            final(self).access_count == old(self).access_count + 1,
            final(self).signature == old(self).signature,
            final(self).search_results == old(self).search_results,
    {
        self.last_accessed = now;
        self.access_count = self.access_count + 1;
    }
}

/// Detects changes using file signatures.
#[derive(Debug)]
pub struct FileSignatureDetector;

impl FileSignatureDetector {
    pub fn new() -> (d: Self) {
        FileSignatureDetector
    }

    /// The changes of `paths`, given which of them exist: missing files
    /// are deleted and every existing file is treated as modified.
    pub fn detect_changes(&self, paths: &Vec<String>, exists: &Vec<bool>) -> (r: Vec<FileChangeInfo>)
        requires
            exists@.len() == paths@.len(),
        ensures
            r@.len() == paths@.len(),
            forall|i: int|
                0 <= i < r@.len() ==> (#[trigger] r@[i]).path == paths@[i] && r@[i].status == if exists@[i] {
                    ChangeStatus::Modified
                } else {
                    ChangeStatus::Deleted
                },
    {
        let mut r: Vec<FileChangeInfo> = Vec::new();
        let mut i: usize = 0;
        while i < paths.len()
            invariant
                0 <= i <= paths@.len(),
                exists@.len() == paths@.len(),
                r@.len() == i,
                forall|k: int|
                    0 <= k < i ==> (#[trigger] r@[k]).path == paths@[k] && r@[k].status == if exists@[k] {
                        ChangeStatus::Modified
                    } else {
                        ChangeStatus::Deleted
                    },
            decreases paths@.len() - i,
        {
            let status = if exists[i] {
                ChangeStatus::Modified
            } else {
                ChangeStatus::Deleted
            };
            r.push(FileChangeInfo { path: copy_string(&paths[i]), status });
            i = i + 1;
        }
        r
    }
}

/// Detects changes using `git status`.
#[derive(Debug)]
pub struct GitStatusDetector {
    root_path: String,
}

/// A change status as a kind number (added 0, modified 1, renamed 2,
/// deleted 3, unchanged 4) and the path renamed from.
pub open spec fn status_view(s: ChangeStatus) -> (int, Seq<char>) {
    match s {
        ChangeStatus::Added => (0, seq![]),
        ChangeStatus::Modified => (1, seq![]),
        ChangeStatus::Renamed(p) => (2, p@),
        ChangeStatus::Deleted => (3, seq![]),
        ChangeStatus::Unchanged => (4, seq![]),
    }
}

/// The status a two-character porcelain code stands for; `path` is the
/// rest of the line: a rename records the text before `->`.
pub open spec fn porcelain_status(code: Seq<char>, path: Seq<char>) -> (int, Seq<char>) {
    if code == "??"@ {
        (0, seq![])
    } else if code == " M"@ || code == "M "@ || code == "MM"@ {
        (1, seq![])
    } else if code == "R "@ {
        (2, trim_seq(before_arrow(path)))
    } else if code == "D "@ {
        (3, seq![])
    } else {
        (1, seq![])
    }
}

/// No porcelain line reports a file unchanged: a status code is an addition for `??`, a rename for `R `, a deletion for `D `,
/// and a modification for every other code (` M`, `M `, `MM` among them).
pub proof fn lemma_porcelain_status_kinds(code: Seq<char>, path: Seq<char>)
    ensures
        porcelain_status(code, path).0 != 4,
        code == seq![' ', 'M'] ==> porcelain_status(code, path).0 == 1,
        code == seq!['M', ' '] ==> porcelain_status(code, path).0 == 1,
        code == seq!['M', 'M'] ==> porcelain_status(code, path).0 == 1,
        code == seq!['?', '?'] ==> porcelain_status(code, path).0 == 0,
        code == seq!['R', ' '] ==> porcelain_status(code, path).0 == 2,
        code == seq!['D', ' '] ==> porcelain_status(code, path).0 == 3,
        code != seq!['?', '?'] && code != seq!['R', ' '] && code != seq!['D', ' '] ==> porcelain_status(
            code,
            path,
        ).0 == 1,
{
    reveal_strlit("??");
    reveal_strlit(" M");
    reveal_strlit("M ");
    reveal_strlit("MM");
    reveal_strlit("R ");
    reveal_strlit("D ");
    assert("??"@ =~= seq!['?', '?']);
    assert("R "@ =~= seq!['R', ' ']);
    assert("D "@ =~= seq!['D', ' ']);
}

/// Every change that `git status --porcelain` output yields is an
/// addition, modification, rename or deletion, never "unchanged".
pub proof fn lemma_porcelain_changes_never_unchanged(root: Seq<char>, lines: Seq<Seq<char>>, paths: Seq<String>)
    ensures
        forall|k: int|
            0 <= k < porcelain_changes(root, lines, paths).len() ==> (#[trigger] porcelain_changes(
                root,
                lines,
                paths,
            )[k]).1.0 != 4,
    decreases lines.len(),
{
    if lines.len() > 0 {
        lemma_porcelain_changes_never_unchanged(root, lines.drop_last(), paths);
        let line = lines.last();
        if porcelain_line_long(line) {
            lemma_porcelain_status_kinds(line.take(2), trim_seq(line.skip(3)));
        }
        let prev = porcelain_changes(root, lines.drop_last(), paths);
        let cur = porcelain_changes(root, lines, paths);
        assert forall|k: int| 0 <= k < cur.len() implies (#[trigger] cur[k]).1.0 != 4 by {
            if k < prev.len() {
                assert(cur[k] == prev[k]);
            }
        }
    }
}

/// The text before the first `->`, or the whole text.
pub open spec fn before_arrow(s: Seq<char>) -> Seq<char>
    decreases s.len(),
{
    if s.len() < 2 {
        s
    } else if s[0] == '-' && s[1] == '>' {
        seq![]
    } else {
        seq![s[0]] + before_arrow(s.drop_first())
    }
}

/// A porcelain line is long enough to hold a status code and a path (at
/// least four bytes).
pub open spec fn porcelain_line_long(line: Seq<char>) -> bool {
    byte_len(line) >= 4
}

/// A long line starts with three ASCII characters, so that the code and
/// the path can be cut at byte offsets 2 and 3.
pub open spec fn porcelain_line_ok(line: Seq<char>) -> bool {
    porcelain_line_long(line) ==> line.len() >= 3 && (line[0] as u32) < 128 && (line[1] as u32)
        < 128 && (line[2] as u32) < 128
}

/// Every long line of the output can be cut (see [`porcelain_line_ok`]).
pub open spec fn porcelain_well_formed(output: Seq<char>) -> bool {
    forall|i: int| 0 <= i < lines_of(output).len() ==> porcelain_line_ok(#[trigger] lines_of(output)[i])
}

/// The file a porcelain line names under `root` and its status; `None`
/// for lines too short to hold both.
pub open spec fn porcelain_entry(root: Seq<char>, line: Seq<char>) -> Option<(Seq<char>, (int, Seq<char>))> {
    if !porcelain_line_long(line) {
        None
    } else {
        let path = trim_seq(line.skip(3));
        Some((joined(root, path), porcelain_status(line.take(2), path)))
    }
}

/// The path lies under one of `paths`.
pub open spec fn under_any(p: Seq<char>, paths: Seq<String>) -> bool {
    exists|i: int| 0 <= i < paths.len() && path_starts_with(p, #[trigger] paths[i]@)
}

/// The changes `git status --porcelain` output reports for files under
/// `paths`, in output order.
pub open spec fn porcelain_changes(root: Seq<char>, lines: Seq<Seq<char>>, paths: Seq<String>) -> Seq<
    (Seq<char>, (int, Seq<char>)),
>
    decreases lines.len(),
{
    if lines.len() == 0 {
        seq![]
    } else {
        let prev = porcelain_changes(root, lines.drop_last(), paths);
        match porcelain_entry(root, lines.last()) {
            Some(e) => if under_any(e.0, paths) {
                prev.push(e)
            } else {
                prev
            },
            None => prev,
        }
    }
}

/// The view of a change: path and status.
pub open spec fn change_view(c: FileChangeInfo) -> (Seq<char>, (int, Seq<char>)) {
    (c.path@, status_view(c.status))
}

impl GitStatusDetector {
    pub fn new(root_path: String) -> (d: Self)
        ensures
            d.root() == root_path@,
    {
        GitStatusDetector { root_path }
    }

    /// The repository root.
    pub closed spec fn root(&self) -> Seq<char> {
        self.root_path@
    }

    /// The path whose existence tells that the root is a git repository.
    pub fn git_dir(&self) -> (r: String)
        ensures
            r@ == joined(self.root(), ".git"@),
    {
        join_path(self.root_path.as_str(), ".git")
    }
}

fn before_arrow_chars(s: &[char]) -> (r: Vec<char>)
    ensures
        r@ == before_arrow(s@),
{
    let mut i: usize = 0;
    assert(s@.skip(0) =~= s@);
    assert(s@.take(0) + before_arrow(s@.skip(0)) =~= before_arrow(s@));
    while s.len() > 0 && i < s.len() - 1 && !(s[i] == '-' && s[i + 1] == '>')
        invariant
            0 <= i <= s@.len(),
            before_arrow(s@) == s@.take(i as int) + before_arrow(s@.skip(i as int)),
        decreases s@.len() - i,
    {
        let ghost rest = s@.skip(i as int);
        assert(rest.drop_first() =~= s@.skip(i + 1));
        assert(rest[0] == s@[i as int]);
        assert(s@.take(i as int) + seq![s@[i as int]] =~= s@.take(i + 1));
        assert(s@.take(i as int) + (seq![rest[0]] + before_arrow(rest.drop_first())) =~= s@.take(
            i + 1,
        ) + before_arrow(s@.skip(i + 1)));
        i = i + 1;
    }
    let ghost rest = s@.skip(i as int);
    let n = if s.len() > 0 && i < s.len() - 1 {
        assert(rest[0] == '-' && rest[1] == '>');
        assert(before_arrow(rest) =~= Seq::<char>::empty());
        i
    } else {
        assert(rest.len() < 2);
        assert(s@.take(i as int) + rest =~= s@);
        s.len()
    };
    let mut r: Vec<char> = Vec::new();
    let mut k: usize = 0;
    while k < n
        invariant
            0 <= k <= n <= s@.len(),
            r@ == s@.take(k as int),
        decreases n - k,
    {
        r.push(s[k]);
        assert(s@.take(k as int).push(s@[k as int]) =~= s@.take(k + 1));
        k = k + 1;
    }
    assert(n == s@.len() ==> s@.take(n as int) =~= s@);
    r
}

fn under_any_path(p: &str, paths: &Vec<String>) -> (b: bool)
    ensures
        b == under_any(p@, paths@),
{
    let mut i: usize = 0;
    while i < paths.len()
        invariant
            0 <= i <= paths@.len(),
            forall|k: int| 0 <= k < i ==> !path_starts_with(p@, #[trigger] paths@[k]@),
        decreases paths@.len() - i,
    {
        if strip_prefix(p, paths[i].as_str()).is_some() {
            assert(path_starts_with(p@, paths@[i as int]@));
            return true;
        }
        i = i + 1;
    }
    false
}

proof fn lemma_pair_eq(a: char, b: char, c: char, d: char)
    ensures
        (seq![a, b] == seq![c, d]) <==> (a == c && b == d),
{
    if a == c && b == d {
        assert(seq![a, b] =~= seq![c, d]);
    }
    if seq![a, b] == seq![c, d] {
        assert(seq![a, b][0] == seq![c, d][0]);
        assert(seq![a, b][1] == seq![c, d][1]);
    }
}

fn status_for(code: &[char], path: &[char]) -> (r: ChangeStatus)
    requires
        code@.len() == 2,
    ensures
        status_view(r) == porcelain_status(code@, path@),
{
    let c0 = code[0];
    let c1 = code[1];
    proof {
        assert(code@ =~= seq![c0, c1]);
        reveal_strlit("??");
        reveal_strlit(" M");
        reveal_strlit("M ");
        reveal_strlit("MM");
        reveal_strlit("R ");
        reveal_strlit("D ");
        lemma_pair_eq(c0, c1, '?', '?');
        lemma_pair_eq(c0, c1, ' ', 'M');
        lemma_pair_eq(c0, c1, 'M', ' ');
        lemma_pair_eq(c0, c1, 'M', 'M');
        lemma_pair_eq(c0, c1, 'R', ' ');
        lemma_pair_eq(c0, c1, 'D', ' ');
        assert("??"@ =~= seq!['?', '?']);
        assert(" M"@ =~= seq![' ', 'M']);
        assert("M "@ =~= seq!['M', ' ']);
        assert("MM"@ =~= seq!['M', 'M']);
        assert("R "@ =~= seq!['R', ' ']);
        assert("D "@ =~= seq!['D', ' ']);
    }
    if c0 == '?' && c1 == '?' {
        ChangeStatus::Added
    } else if (c0 == ' ' && c1 == 'M') || (c0 == 'M' && c1 == ' ') || (c0 == 'M' && c1 == 'M') {
        ChangeStatus::Modified
    } else if c0 == 'R' && c1 == ' ' {
        let before = before_arrow_chars(path);
        let t = trim_chars(&before);
        ChangeStatus::Renamed(crate::text::string_from_chars(&t))
    } else if c0 == 'D' && c1 == ' ' {
        ChangeStatus::Deleted
    } else {
        ChangeStatus::Modified
    }
}

fn line_ok(line: &String) -> (b: bool)
    ensures
        b == porcelain_line_ok(line@),
{
    let n = line.as_str().as_bytes().len();
    if n < 4 {
        return true;
    }
    let cs = chars_of(line.as_str());
    cs.len() >= 3 && (cs[0] as u32) < 128 && (cs[1] as u32) < 128 && (cs[2] as u32) < 128
}

/// Checks that every long line of the output can be cut (see
/// [`porcelain_well_formed`]).
pub fn porcelain_is_well_formed(output: &str) -> (b: bool)
    ensures
        b == porcelain_well_formed(output@),
{
    let cs = chars_of(output);
    let lines = split_lines(&cs);
    let mut i: usize = 0;
    while i < lines.len()
        invariant
            0 <= i <= lines@.len(),
            views(lines@) == lines_of(output@),
            forall|k: int| 0 <= k < i ==> porcelain_line_ok(#[trigger] lines_of(output@)[k]),
        decreases lines@.len() - i,
    {
        assert(lines_of(output@)[i as int] == lines@[i as int]@);
        if !line_ok(&lines[i]) {
            return false;
        }
        i = i + 1;
    }
    true
}

impl GitStatusDetector {
    /// The changes reported by the output of `git status --porcelain`,
    /// run at the root, for files under `paths` (see
    /// [`porcelain_changes`]).
    pub fn detect_changes(&self, output: &str, paths: &Vec<String>) -> (r: Vec<FileChangeInfo>)
        requires
            porcelain_well_formed(output@),
        ensures
            r@.map_values(|c: FileChangeInfo| change_view(c)) == porcelain_changes(
                self.root(),
                lines_of(output@),
                paths@,
            ),
    {
        let cs = chars_of(output);
        let lines = split_lines(&cs);
        let ghost lv = lines_of(output@);
        let mut r: Vec<FileChangeInfo> = Vec::new();
        let mut i: usize = 0;
        assert(lv.take(0) =~= Seq::<Seq<char>>::empty());
        assert(r@.map_values(|c: FileChangeInfo| change_view(c)) =~= Seq::<
            (Seq<char>, (int, Seq<char>)),
        >::empty());
        while i < lines.len()
            invariant
                0 <= i <= lines@.len(),
                views(lines@) == lv,
                lv == lines_of(output@),
                porcelain_well_formed(output@),
                r@.map_values(|c: FileChangeInfo| change_view(c)) == porcelain_changes(
                    self.root(),
                    lv.take(i as int),
                    paths@,
                ),
            decreases lines@.len() - i,
        {
            let line = lines[i].as_str();
            let ghost lw = lines@[i as int]@;
            assert(lv[i as int] == lw);
            assert(lv.take(i + 1).drop_last() =~= lv.take(i as int));
            assert(lv.take(i + 1).last() == lw);
            assert(porcelain_line_ok(lw));
            let nbytes = line.as_bytes().len();
            if nbytes >= 4 {
                let lc = chars_of(line);
                let code = crate::text::string_from_range(&lc, 0, 2);
                let rest = crate::text::string_from_range(&lc, 3, lc.len());
                let restc = chars_of(rest.as_str());
                let path_chars = trim_chars(&restc);
                let path_text = crate::text::string_from_chars(&path_chars);
                let full = join_path(self.root_path.as_str(), path_text.as_str());
                assert(lc@.subrange(0, 2) =~= lw.take(2));
                assert(lc@.subrange(3, lc@.len() as int) =~= lw.skip(3));
                if under_any_path(full.as_str(), paths) {
                    let codec = chars_of(code.as_str());
                    let status = status_for(&codec, &path_chars);
                    let ghost r0 = r@;
                    r.push(FileChangeInfo { path: full, status });
                    assert(r@.map_values(|c: FileChangeInfo| change_view(c)) =~= r0.map_values(
                        |c: FileChangeInfo| change_view(c),
                    ).push(change_view(r@.last())));
                }
            }
            i = i + 1;
        }
        assert(lv.take(lines@.len() as int) =~= lv);
        r
    }
}

/// A change detector.
#[derive(Debug)]
pub enum Detector {
    Signature(FileSignatureDetector),
    Git(GitStatusDetector),
}

/// Creates the detector for a strategy: the chosen one, or for `Auto` the
/// git detector when a `.git` directory exists in the current directory.
pub fn create_detector(strategy: ChangeDetectionStrategy, root_path: String, dot_git_exists: bool) -> (d: Detector)
    ensures
        match strategy {
            ChangeDetectionStrategy::FileSignature => d is Signature,
            ChangeDetectionStrategy::GitStatus => d matches Detector::Git(g) && g.root() == root_path@,
            ChangeDetectionStrategy::Auto => if dot_git_exists {
                d matches Detector::Git(g) && g.root() == root_path@
            } else {
                d is Signature
            },
        },
{
    match strategy {
        ChangeDetectionStrategy::FileSignature => Detector::Signature(FileSignatureDetector::new()),
        ChangeDetectionStrategy::GitStatus => Detector::Git(GitStatusDetector::new(root_path)),
        ChangeDetectionStrategy::Auto => {
            if dot_git_exists {
                Detector::Git(GitStatusDetector::new(root_path))
            } else {
                Detector::Signature(FileSignatureDetector::new())
            }
        },
    }
}

} // verus!
