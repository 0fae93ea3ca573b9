//! Undo records and reverting diff hunks on the lines of a file.
use vstd::prelude::*;

use crate::errors::SearchError;
use crate::paths::{file_name, file_name_of, relative_to, strip_prefix};
use crate::matcher::{lemma_sort_by_start, sort_by_start, sort_spans, sorted_by_start};
use crate::text::{
    chars_of, copy_string, ends_with_chars, line_scan, lines_of, split_lines, string_push, strip_cr, push_text,
    views,
};

verus! {

/// A reference to a file stored with a path relative to the workspace root
/// and, optionally, an absolute path.
#[derive(Debug)]
pub struct UndoFileReference {
    /// Path relative to the workspace root.
    pub rel_path: String,
    /// Optional absolute path as a fallback.
    pub abs_path: Option<String>,
}

impl Clone for UndoFileReference {
    fn clone(&self) -> (r: Self)
        ensures
            r == *self,
    {
        UndoFileReference {
            rel_path: copy_string(&self.rel_path),
            abs_path: match &self.abs_path {
                Some(a) => Some(copy_string(a)),
                None => None,
            },
        }
    }
}

impl UndoFileReference {
    /// The file to restore or read for this reference: the absolute path
    /// when there is one and it exists, the relative path under
    /// `workspace_root` otherwise.
    pub fn restore_target(&self, abs_exists: bool, workspace_root: &str) -> (r: String)
        ensures
            r@ == match self.abs_path {
                Some(a) => if abs_exists {
                    a@
                } else {
                    crate::paths::joined(workspace_root@, self.rel_path@)
                },
                None => crate::paths::joined(workspace_root@, self.rel_path@),
            },
    {
        match &self.abs_path {
            Some(a) => {
                if abs_exists {
                    copy_string(a)
                } else {
                    crate::paths::join_path(workspace_root, self.rel_path.as_str())
                }
            },
            None => crate::paths::join_path(workspace_root, self.rel_path.as_str()),
        }
    }

    /// The path shown for this reference: the absolute path when known, the
    /// relative path otherwise.
    pub fn display(&self) -> (r: String)
        ensures
            r@ == match self.abs_path {
                Some(a) => a@,
                None => self.rel_path@,
            },
    {
        match &self.abs_path {
            Some(a) => copy_string(a),
            None => copy_string(&self.rel_path),
        }
    }
}

/// A hunk of changes in a file diff.
#[derive(Debug)]
pub struct DiffHunk {
    /// The 1-based starting line in the original file.
    pub original_start_line: usize,
    /// The 1-based starting line in the new file.
    pub new_start_line: usize,
    /// Number of lines in the original hunk.
    pub original_line_count: usize,
    /// Number of lines in the new hunk.
    pub new_line_count: usize,
    /// The actual lines removed from the original.
    pub original_lines: Vec<String>,
    /// The actual lines that replaced them.
    pub new_lines: Vec<String>,
}

/// Copies a list of strings element by element.
pub fn copy_lines(v: &Vec<String>) -> (r: Vec<String>)
    ensures
        r@ == v@,
{
    let mut r: Vec<String> = Vec::new();
    let mut i: usize = 0;
    while i < v.len()
        invariant
            0 <= i <= v@.len(),
            r@ == v@.take(i as int),
        decreases v@.len() - i,
    {
        r.push(copy_string(&v[i]));
        assert(v@.take(i as int).push(v@[i as int]) =~= v@.take(i + 1));
        i = i + 1;
    }
    assert(v@.take(v@.len() as int) =~= v@);
    r
}

impl Clone for DiffHunk {
    fn clone(&self) -> (r: Self)
        ensures
            r.original_start_line == self.original_start_line,
            r.new_start_line == self.new_start_line,
            r.original_line_count == self.original_line_count,
            r.new_line_count == self.new_line_count,
            r.original_lines@ == self.original_lines@,
            r.new_lines@ == self.new_lines@,
    {
        DiffHunk {
            original_start_line: self.original_start_line,
            new_start_line: self.new_start_line,
            original_line_count: self.original_line_count,
            new_line_count: self.new_line_count,
            original_lines: copy_lines(&self.original_lines),
            new_lines: copy_lines(&self.new_lines),
        }
    }
}

/// A diff for a single file.
#[derive(Debug)]
pub struct FileDiff {
    /// The path to the modified file.
    pub file_path: UndoFileReference,
    /// The hunks of changes made to this file.
    pub hunks: Vec<DiffHunk>,
}

/// Information about a replacement operation for undo purposes.
#[derive(Debug)]
pub struct UndoInfo {
    /// Timestamp when the operation was performed.
    pub timestamp: u64,
    /// Description of the operation.
    pub description: String,
    /// Original files and their backups.
    pub backups: Vec<(UndoFileReference, UndoFileReference)>,
    /// Size of the operation in bytes.
    pub total_size: u64,
    /// Number of files modified.
    pub file_count: usize,
    /// Whether the operation was a dry run.
    pub dry_run: bool,
    /// Detailed patch-based diffs for each modified file.
    pub file_diffs: Vec<FileDiff>,
}

// ---------------------------------------------------------------------------
// Reverting hunks
// ---------------------------------------------------------------------------
/// The 0-based line where a hunk starts in the new file.
pub open spec fn hunk_start(h: DiffHunk) -> int {
    if h.new_start_line == 0 {
        0
    } else {
        h.new_start_line - 1
    }
}

/// A hunk that neither removes nor restores lines leaves the text as is.
pub open spec fn hunk_is_noop(h: DiffHunk) -> bool {
    h.new_line_count == 0 && h.original_lines@.len() == 0
}

/// Reverting `h` on `lines` is possible: it starts within the lines, or it
/// does nothing.
pub open spec fn hunk_revertible(lines: Seq<Seq<char>>, h: DiffHunk) -> bool {
    hunk_is_noop(h) || hunk_start(h) <= lines.len()
}

/// Reverting one hunk: the lines the hunk added (as many as remain) are
/// removed at its start, and the lines it replaced are put back there.
pub open spec fn revert_hunk(lines: Seq<Seq<char>>, h: DiffHunk) -> Seq<Seq<char>> {
    if hunk_is_noop(h) {
        lines
    } else {
        let s = hunk_start(h);
        let n = lines.len() - s;
        let end = s + if (h.new_line_count as int) < n {
            h.new_line_count as int
        } else {
            n
        };
        lines.take(s) + views(h.original_lines@) + lines.skip(end)
    }
}

/// Reverting the hunks in order, the first first.
pub open spec fn revert_all(lines: Seq<Seq<char>>, hunks: Seq<DiffHunk>) -> Seq<Seq<char>>
    decreases hunks.len(),
{
    if hunks.len() == 0 {
        lines
    } else {
        revert_hunk(revert_all(lines, hunks.drop_last()), hunks.last())
    }
}

/// Every hunk, in order, can be reverted on the lines the earlier ones left.
pub open spec fn all_revertible(lines: Seq<Seq<char>>, hunks: Seq<DiffHunk>) -> bool
    decreases hunks.len(),
{
    hunks.len() == 0 || (all_revertible(lines, hunks.drop_last()) && hunk_revertible(
        revert_all(lines, hunks.drop_last()),
        hunks.last(),
    ))
}

/// The sort keys that order hunks by descending new start line, hunks on
/// the same line the last first: `(usize::MAX - new_start_line, index)`,
/// listed from the last hunk to the first.
pub open spec fn hunk_keys(hunks: Seq<DiffHunk>) -> Seq<(usize, usize)> {
    Seq::new(
        hunks.len(),
        |m: int|
            (
                (usize::MAX - hunks[hunks.len() - 1 - m].new_start_line) as usize,
                (hunks.len() - 1 - m) as usize,
            ),
    )
}

/// The hunks from the bottom of the file to the top: by descending new
/// start line, hunks on the same line the last first.
pub open spec fn bottom_up(hunks: Seq<DiffHunk>) -> Seq<DiffHunk> {
    sort_by_start(hunk_keys(hunks)).map_values(|k: (usize, usize)| hunks[k.1 as int])
}

/// Joining lines with `\n` between them.
pub open spec fn join_lines(lines: Seq<Seq<char>>) -> Seq<char>
    decreases lines.len(),
{
    if lines.len() == 0 {
        seq![]
    } else if lines.len() == 1 {
        lines[0]
    } else {
        join_lines(lines.drop_last()) + seq!['\n'] + lines.last()
    }
}

/// Joins lines with `\n` between them.
pub fn join_with_newlines(lines: &Vec<String>) -> (r: String)
    ensures
        r@ == join_lines(views(lines@)),
{
    let mut r = String::new();
    let mut i: usize = 0;
    while i < lines.len()
        invariant
            0 <= i <= lines@.len(),
            r@ == join_lines(views(lines@.take(i as int))),
        decreases lines@.len() - i,
    {
        let ghost before = r@;
        if i > 0 {
            string_push(&mut r, '\n');
        }
        push_text(&mut r, lines[i].as_str());
        proof {
            let vs = views(lines@.take(i + 1));
            assert(vs.drop_last() =~= views(lines@.take(i as int)));
            assert(vs.last() == lines@[i as int]@);
            if i == 0 {
                assert(before =~= Seq::<char>::empty());
                assert(r@ =~= vs[0]);
            }
        }
        i = i + 1;
    }
    assert(lines@.take(lines@.len() as int) =~= lines@);
    r
}

fn revert_one(lines: Vec<String>, h: &DiffHunk) -> (r: Vec<String>)
    requires
        hunk_revertible(views(lines@), *h),
    ensures
        views(r@) == revert_hunk(views(lines@), *h),
{
    if h.new_line_count == 0 && h.original_lines.len() == 0 {
        return lines;
    }
    let s: usize = if h.new_start_line == 0 {
        0
    } else {
        h.new_start_line - 1
    };
    let n = lines.len() - s;
    let end = s + if h.new_line_count < n {
        h.new_line_count
    } else {
        n
    };
    let mut out: Vec<String> = Vec::new();
    let mut i: usize = 0;
    while i < s
        invariant
            0 <= i <= s <= lines@.len(),
            views(out@) == views(lines@).take(i as int),
        decreases s - i,
    {
        let ghost o = out@;
        out.push(copy_string(&lines[i]));
        assert(views(out@) =~= views(o).push(lines@[i as int]@));
        assert(views(lines@).take(i as int).push(views(lines@)[i as int]) =~= views(lines@).take(
            i + 1,
        ));
        i = i + 1;
    }
    let mut k: usize = 0;
    while k < h.original_lines.len()
        invariant
            0 <= k <= h.original_lines@.len(),
            s <= lines@.len(),
            views(out@) == views(lines@).take(s as int) + views(h.original_lines@).take(k as int),
        decreases h.original_lines@.len() - k,
    {
        let ghost o = out@;
        out.push(copy_string(&h.original_lines[k]));
        assert(views(out@) =~= views(o).push(h.original_lines@[k as int]@));
        assert(views(h.original_lines@).take(k as int).push(views(h.original_lines@)[k as int])
            =~= views(h.original_lines@).take(k + 1));
        k = k + 1;
    }
    assert(views(h.original_lines@).take(k as int) =~= views(h.original_lines@));
    let mut j: usize = end;
    while j < lines.len()
        invariant
            end <= j <= lines@.len(),
            views(out@) == views(lines@).take(s as int) + views(h.original_lines@) + views(
                lines@,
            ).subrange(end as int, j as int),
        decreases lines@.len() - j,
    {
        let ghost o = out@;
        out.push(copy_string(&lines[j]));
        assert(views(out@) =~= views(o).push(lines@[j as int]@));
        assert(views(lines@).subrange(end as int, j as int).push(views(lines@)[j as int])
            =~= views(lines@).subrange(end as int, j + 1));
        j = j + 1;
    }
    assert(views(lines@).subrange(end as int, lines@.len() as int) =~= views(lines@).skip(
        end as int,
    ));
    out
}

/// Orders hunks from the bottom of the file to the top (see [`bottom_up`]).
pub fn order_bottom_up(hunks: &Vec<DiffHunk>) -> (r: Vec<DiffHunk>)
    ensures
        r@.len() == hunks@.len(),
        forall|i: int|
            0 <= i < r@.len() ==> {
                let h = #[trigger] r@[i];
                let g = bottom_up(hunks@)[i];
                &&& h.original_start_line == g.original_start_line
                &&& h.new_start_line == g.new_start_line
                &&& h.original_line_count == g.original_line_count
                &&& h.new_line_count == g.new_line_count
                &&& h.original_lines@ == g.original_lines@
                &&& h.new_lines@ == g.new_lines@
            },
{
    let mut keys: Vec<(usize, usize)> = Vec::new();
    let n = hunks.len();
    let mut i: usize = 0;
    while i < n
        invariant
            n == hunks@.len(),
            0 <= i <= hunks@.len(),
            keys@ == hunk_keys(hunks@).take(i as int),
        decreases hunks@.len() - i,
    {
        let j = n - 1 - i;
        keys.push((usize::MAX - hunks[j].new_start_line, j));
        assert(hunk_keys(hunks@).take(i as int).push(hunk_keys(hunks@)[i as int]) =~= hunk_keys(
            hunks@,
        ).take(i + 1));
        i = i + 1;
    }
    assert(hunk_keys(hunks@).take(hunks@.len() as int) =~= hunk_keys(hunks@));
    let sorted = sort_spans(&keys);
    proof {
        broadcast use vstd::seq_lib::group_to_multiset_ensures;

        lemma_sort_by_start(keys@);
    }
    let mut r: Vec<DiffHunk> = Vec::new();
    let mut k: usize = 0;
    while k < sorted.len()
        invariant
            0 <= k <= sorted@.len(),
            sorted@ == sort_by_start(hunk_keys(hunks@)),
            sorted@.len() == hunks@.len(),
            sorted@.to_multiset() =~= hunk_keys(hunks@).to_multiset(),
            r@.len() == k,
            forall|m: int|
                0 <= m < k ==> {
                    let h = #[trigger] r@[m];
                    let g = bottom_up(hunks@)[m];
                    &&& h.original_start_line == g.original_start_line
                    &&& h.new_start_line == g.new_start_line
                    &&& h.original_line_count == g.original_line_count
                    &&& h.new_line_count == g.new_line_count
                    &&& h.original_lines@ == g.original_lines@
                    &&& h.new_lines@ == g.new_lines@
                },
        decreases sorted@.len() - k,
    {
        let idx = sorted[k].1;
        proof {
            broadcast use vstd::seq_lib::group_to_multiset_ensures;

            let key = sorted@[k as int];
            assert(sorted@.contains(key));
            assert(sorted@.to_multiset().count(key) > 0);
            assert(hunk_keys(hunks@).to_multiset().count(key) > 0);
            assert(hunk_keys(hunks@).contains(key));
            let j = choose|j: int| 0 <= j < hunk_keys(hunks@).len() && hunk_keys(hunks@)[j] == key;
            assert(key.1 == (hunks@.len() - 1 - j) as usize);
        }
        r.push(hunks[idx].clone());
        k = k + 1;
    }
    r
}

/// The lines of the file after reverting `hunks` bottom-up: the hunks are
/// ordered by descending new start line and reverted in that order.
pub open spec fn reverted_lines(lines: Seq<Seq<char>>, hunks: Seq<DiffHunk>) -> Seq<Seq<char>> {
    revert_all(lines, bottom_up(hunks))
}

/// Reverts hunks on the lines of a file (bottom-up, see
/// [`reverted_lines`]); `None` when a hunk starts past the end of the lines
/// it is reverted on.
pub fn revert_hunks(lines: Vec<String>, hunks: &Vec<DiffHunk>) -> (r: Option<Vec<String>>)
    ensures
        r is Some <==> all_revertible(views(lines@), bottom_up(hunks@)),
        r matches Some(v) ==> views(v@) == reverted_lines(views(lines@), hunks@),
{
    let ordered = order_bottom_up(hunks);
    let ghost hs = bottom_up(hunks@);
    let ghost l0 = views(lines@);
    proof {
        lemma_sort_by_start(hunk_keys(hunks@));
    }
    let mut cur = lines;
    let mut i: usize = 0;
    assert(hs.take(0) =~= Seq::<DiffHunk>::empty());
    while i < ordered.len()
        invariant
            0 <= i <= ordered@.len(),
            ordered@.len() == hs.len(),
            hs == bottom_up(hunks@),
            l0 == views(lines@),
            forall|m: int|
                0 <= m < ordered@.len() ==> {
                    let h = #[trigger] ordered@[m];
                    let g = hs[m];
                    &&& h.original_start_line == g.original_start_line
                    &&& h.new_start_line == g.new_start_line
                    &&& h.original_line_count == g.original_line_count
                    &&& h.new_line_count == g.new_line_count
                    &&& h.original_lines@ == g.original_lines@
                    &&& h.new_lines@ == g.new_lines@
                },
            all_revertible(l0, hs.take(i as int)),
            views(cur@) == revert_all(l0, hs.take(i as int)),
        decreases ordered@.len() - i,
    {
        let h = &ordered[i];
        let ghost g = hs[i as int];
        assert(hs.take(i + 1).drop_last() =~= hs.take(i as int));
        assert(hs.take(i + 1).last() == g);
        assert(hunk_revertible(views(cur@), *h) == hunk_revertible(views(cur@), g));
        assert(revert_hunk(views(cur@), *h) == revert_hunk(views(cur@), g));
        let s: usize = if h.new_start_line == 0 {
            0
        } else {
            h.new_start_line - 1
        };
        if !(h.new_line_count == 0 && h.original_lines.len() == 0) && s > cur.len() {
            proof {
                assert(!all_revertible(l0, hs.take(i + 1)));
                lemma_revertible_prefix(l0, hs, i + 1);
            }
            return None;
        }
        cur = revert_one(cur, h);
        i = i + 1;
    }
    assert(hs.take(hs.len() as int) =~= hs);
    Some(cur)
}

/// Revertibility of all hunks implies that of every prefix.
proof fn lemma_revertible_prefix(lines: Seq<Seq<char>>, hs: Seq<DiffHunk>, k: int)
    requires
        0 <= k <= hs.len(),
        !all_revertible(lines, hs.take(k)),
    ensures
        !all_revertible(lines, hs),
    decreases hs.len() - k,
{
    if k < hs.len() {
        assert(hs.take(k + 1).drop_last() =~= hs.take(k));
        lemma_revertible_prefix(lines, hs, k + 1);
    } else {
        assert(hs.take(k) =~= hs);
    }
}

/// The text ends with a newline.
pub open spec fn ends_with_newline(t: Seq<char>) -> bool {
    t.len() > 0 && t.last() == '\n'
}

/// The content after reverting `hunks` on `current`: its lines (as
/// `str::lines` splits them) reverted bottom-up and joined with `\n`, with
/// a final newline when `current` has one and some line remains.
pub open spec fn reverted_content(current: Seq<char>, hunks: Seq<DiffHunk>) -> Seq<char> {
    let lines = reverted_lines(lines_of(current), hunks);
    join_lines(lines) + if ends_with_newline(current) && lines.len() > 0 {
        seq!['\n']
    } else {
        seq![]
    }
}

/// The content of a file after reverting `hunks` on it (see
/// [`reverted_content`]).
pub fn revert_content(current: &str, hunks: &Vec<DiffHunk>) -> (r: Option<String>)
    ensures
        r is Some <==> all_revertible(lines_of(current@), bottom_up(hunks@)),
        r matches Some(s) ==> s@ == reverted_content(current@, hunks@),
{
    let cs = chars_of(current);
    let lines = split_lines(&cs);
    match revert_hunks(lines, hunks) {
        Some(v) => {
            let mut out = join_with_newlines(&v);
            if cs.len() > 0 && cs[cs.len() - 1] == '\n' && v.len() > 0 {
                string_push(&mut out, '\n');
            }
            proof {
                assert(views(v@).len() == v@.len());
            }
            Some(out)
        },
        None => None,
    }
}

/// The text has no carriage return.
pub open spec fn no_cr(t: Seq<char>) -> bool {
    forall|i: int| 0 <= i < t.len() ==> t[i] != '\r'
}

/// Scanning text without carriage returns for lines loses nothing: the
/// finished lines joined by newlines, a newline after them when there are
/// some, and the line in progress give the text back.
proof fn lemma_line_scan_joins(s: Seq<char>)
    requires
        no_cr(s),
    ensures
        ({
            let sc = line_scan(s);
            &&& s == join_lines(sc.0) + (if sc.0.len() > 0 {
                seq!['\n']
            } else {
                seq![]
            }) + sc.1
            &&& (sc.1.len() > 0 ==> sc.1.last() == s.last())
            &&& (ends_with_newline(s) ==> sc.1.len() == 0 && sc.0.len() > 0)
            &&& (s.len() > 0 && !ends_with_newline(s) ==> sc.1.len() > 0)
        }),
    decreases s.len(),
{
    if s.len() > 0 {
        let d = s.drop_last();
        assert(no_cr(d));
        lemma_line_scan_joins(d);
        let p = line_scan(d);
        let c = s.last();
        let nl = if p.0.len() > 0 {
            seq!['\n']
        } else {
            seq![]
        };
        assert(s =~= d.push(c));
        if c == '\n' {
            if p.1.len() > 0 {
                assert(p.1.last() != '\r');
            }
            assert(strip_cr(p.1) == p.1);
            let q = p.0.push(p.1);
            assert(q.drop_last() =~= p.0);
            if p.0.len() == 0 {
                assert(join_lines(q) == p.1);
            } else {
                assert(join_lines(q) == join_lines(p.0) + seq!['\n'] + p.1);
            }
            assert(s =~= join_lines(q) + seq!['\n'] + Seq::<char>::empty());
        } else {
            assert(s =~= join_lines(p.0) + nl + p.1.push(c));
        }
    }
}

/// Joining the lines of text without carriage returns with newlines, and
/// adding a newline when the text ends with one, gives the text back.
proof fn lemma_join_lines_of(s: Seq<char>)
    requires
        no_cr(s),
    ensures
        s == join_lines(lines_of(s)) + if ends_with_newline(s) && lines_of(s).len() > 0 {
            seq!['\n']
        } else {
            seq![]
        },
        ends_with_newline(s) ==> lines_of(s).len() > 0,
{
    lemma_line_scan_joins(s);
    let sc = line_scan(s);
    if ends_with_newline(s) {
        assert(s =~= join_lines(sc.0) + seq!['\n'] + Seq::<char>::empty());
        assert(s =~= join_lines(lines_of(s)) + seq!['\n']);
    } else if s.len() == 0 {
        assert(lines_of(s) =~= Seq::<Seq<char>>::empty());
        assert(s =~= join_lines(lines_of(s)) + Seq::<char>::empty());
    } else {
        let q = sc.0.push(sc.1);
        assert(q.drop_last() =~= sc.0);
        if sc.0.len() == 0 {
            assert(join_lines(q) == sc.1);
            assert(s =~= sc.1);
        } else {
            assert(join_lines(q) == join_lines(sc.0) + seq!['\n'] + sc.1);
        }
        assert(s =~= join_lines(lines_of(s)) + Seq::<char>::empty());
    }
}

// ---------------------------------------------------------------------------
// Reverting an edit
// ---------------------------------------------------------------------------
/// `hunks`, ordered from the top of the file down, record how the lines
/// `new` were made from the lines `old`: the last hunk replaced, at its new
/// start line, its original lines by `new_line_count` new lines, the lines
/// after it are the same in both, and the hunks before it record the edit
/// of the lines above it.
pub open spec fn records_edit(old: Seq<Seq<char>>, new: Seq<Seq<char>>, hunks: Seq<DiffHunk>) -> bool
    decreases hunks.len(),
{
    if hunks.len() == 0 {
        old == new
    } else {
        let h = hunks.last();
        let s = h.new_start_line - 1;
        let e = s + h.new_line_count;
        let o = views(h.original_lines@);
        let t = new.len() - e;
        let cut = old.len() - t - o.len();
        &&& 1 <= h.new_start_line
        &&& e <= new.len()
        &&& 0 <= cut
        &&& old.subrange(cut, old.len() - t) == o
        &&& old.skip(old.len() - t) == new.skip(e)
        &&& records_edit(old.take(cut), new.take(s), hunks.drop_last())
    }
}

/// Reverting a hunk that lies within `p` leaves what follows `p` alone.
proof fn lemma_revert_hunk_frame(p: Seq<Seq<char>>, x: Seq<Seq<char>>, h: DiffHunk)
    requires
        1 <= h.new_start_line,
        h.new_start_line - 1 + h.new_line_count <= p.len(),
    ensures
        hunk_revertible(p + x, h),
        revert_hunk(p + x, h) == p.take(h.new_start_line - 1) + views(h.original_lines@) + p.skip(
            h.new_start_line - 1 + h.new_line_count,
        ) + x,
{
    let s = h.new_start_line - 1;
    let e = s + h.new_line_count;
    let l = p + x;
    assert(l.take(s) =~= p.take(s));
    assert(l.skip(e) =~= p.skip(e) + x);
    if hunk_is_noop(h) {
        assert(views(h.original_lines@) =~= Seq::<Seq<char>>::empty());
        assert(p.take(s) + views(h.original_lines@) + p.skip(e) + x =~= l);
    }
}

/// Reverting a first hunk, then the rest.
proof fn lemma_revert_all_front(lines: Seq<Seq<char>>, a: DiffHunk, rest: Seq<DiffHunk>)
    ensures
        revert_all(lines, seq![a] + rest) == revert_all(revert_hunk(lines, a), rest),
        all_revertible(lines, seq![a] + rest) == (hunk_revertible(lines, a) && all_revertible(
            revert_hunk(lines, a),
            rest,
        )),
    decreases rest.len(),
{
    let hs = seq![a] + rest;
    let l1 = revert_hunk(lines, a);
    if rest.len() == 0 {
        assert(hs.drop_last() =~= Seq::<DiffHunk>::empty());
        assert(hs.last() == a);
        assert(revert_all(lines, hs.drop_last()) == lines);
        assert(all_revertible(lines, hs.drop_last()));
        assert(revert_all(lines, hs) == l1);
        assert(revert_all(l1, rest) == l1);
        assert(all_revertible(l1, rest));
    } else {
        let d = rest.drop_last();
        lemma_revert_all_front(lines, a, d);
        assert(hs.drop_last() =~= seq![a] + d);
        assert(hs.last() == rest.last());
        assert(revert_all(lines, hs) == revert_hunk(revert_all(lines, seq![a] + d), rest.last()));
        assert(revert_all(l1, rest) == revert_hunk(revert_all(l1, d), rest.last()));
        assert(all_revertible(lines, hs) == (all_revertible(lines, seq![a] + d) && hunk_revertible(
            revert_all(lines, seq![a] + d),
            rest.last(),
        )));
        assert(all_revertible(l1, rest) == (all_revertible(l1, d) && hunk_revertible(
            revert_all(l1, d),
            rest.last(),
        )));
    }
}

/// Reverting, bottom-up, hunks that record an edit gives back the lines
/// before the edit, whatever follows them.
#[verifier::spinoff_prover]
#[verifier::rlimit(40)]
proof fn lemma_records_restore(old: Seq<Seq<char>>, new: Seq<Seq<char>>, hunks: Seq<DiffHunk>, x: Seq<Seq<char>>)
    requires
        records_edit(old, new, hunks),
    ensures
        all_revertible(new + x, hunks.reverse()),
        revert_all(new + x, hunks.reverse()) == old + x,
    decreases hunks.len(),
{
    if hunks.len() == 0 {
        assert(hunks.reverse() =~= Seq::<DiffHunk>::empty());
    } else {
        let h = hunks.last();
        let rest = hunks.drop_last();
        let s = h.new_start_line - 1;
        let e = s + h.new_line_count;
        let o = views(h.original_lines@);
        let t = new.len() - e;
        let cut = old.len() - t - o.len();
        assert(hunks.reverse() =~= seq![h] + rest.reverse());
        lemma_revert_all_front(new + x, h, rest.reverse());
        lemma_revert_hunk_frame(new, x, h);
        let x2 = o + new.skip(e) + x;
        let l1 = revert_hunk(new + x, h);
        assert(l1 == new.take(s) + o + new.skip(e) + x);
        assert(l1 =~= new.take(s) + x2);
        assert(records_edit(old.take(cut), new.take(s), rest));
        lemma_records_restore(old.take(cut), new.take(s), rest, x2);
        assert(old.take(cut) + x2 =~= old + x) by {
            assert(old =~= old.take(cut) + old.subrange(cut, old.len() - t) + old.skip(old.len() - t));
        }
        assert(revert_all(new + x, hunks.reverse()) == revert_all(l1, rest.reverse()));
    }
}

/// The last hunk that records an edit of `new` ends within it.
proof fn lemma_records_last_within(old: Seq<Seq<char>>, new: Seq<Seq<char>>, hunks: Seq<DiffHunk>)
    requires
        records_edit(old, new, hunks),
        hunks.len() > 0,
    ensures
        hunks.last().new_start_line + hunks.last().new_line_count <= new.len() + 1,
{
}

/// Hunks that record an edit start on non-decreasing lines.
proof fn lemma_records_starts_increase(old: Seq<Seq<char>>, new: Seq<Seq<char>>, hunks: Seq<DiffHunk>)
    requires
        records_edit(old, new, hunks),
    ensures
        forall|i: int, j: int|
            0 <= i < j < hunks.len() ==> #[trigger] hunks[i].new_start_line <= #[trigger] hunks[j].new_start_line,
    decreases hunks.len(),
{
    if hunks.len() > 0 {
        let h = hunks.last();
        let s = h.new_start_line - 1;
        let e = s + h.new_line_count;
        let t = new.len() - e;
        let cut = old.len() - t - views(h.original_lines@).len();
        let rest = hunks.drop_last();
        lemma_records_starts_increase(old.take(cut), new.take(s), rest);
        if rest.len() > 0 {
            lemma_records_last_within(old.take(cut), new.take(s), rest);
        }
        assert forall|i: int, j: int| 0 <= i < j < hunks.len() implies #[trigger] hunks[i].new_start_line
            <= #[trigger] hunks[j].new_start_line by {
            assert(hunks[i] == rest[i]);
            if j < hunks.len() - 1 {
                assert(hunks[j] == rest[j]);
            } else if i < hunks.len() - 2 {
                assert(rest[i].new_start_line <= rest[hunks.len() - 2].new_start_line);
            }
        }
    }
}

/// Sorting keys that are already in order changes nothing.
proof fn lemma_sort_sorted(k: Seq<(usize, usize)>)
    requires
        forall|i: int, j: int| 0 <= i < j < k.len() ==> #[trigger] k[i].0 <= #[trigger] k[j].0,
    ensures
        sort_by_start(k) == k,
    decreases k.len(),
{
    if k.len() > 0 {
        let d = k.drop_last();
        lemma_sort_sorted(d);
        if d.len() == 0 {
            assert(seq![k.last()] =~= k);
        } else {
            assert(d.last().0 <= k.last().0);
            assert(d.push(k.last()) =~= k);
        }
    }
}

/// Hunks on non-decreasing start lines are reverted last first.
proof fn lemma_bottom_up_reverses(hunks: Seq<DiffHunk>)
    requires
        hunks.len() <= usize::MAX,
        forall|i: int, j: int|
            0 <= i < j < hunks.len() ==> #[trigger] hunks[i].new_start_line <= #[trigger] hunks[j].new_start_line,
    ensures
        bottom_up(hunks) == hunks.reverse(),
{
    let k = hunk_keys(hunks);
    let n = hunks.len();
    assert forall|i: int, j: int| 0 <= i < j < k.len() implies #[trigger] k[i].0 <= #[trigger] k[j].0 by {
        assert(hunks[n - 1 - j].new_start_line <= hunks[n - 1 - i].new_start_line);
    }
    lemma_sort_sorted(k);
    assert forall|i: int| 0 <= i < n implies #[trigger] bottom_up(hunks)[i] == hunks.reverse()[i] by {
        assert(k[i].1 == (n - 1 - i) as usize);
    }
    assert(bottom_up(hunks) =~= hunks.reverse());
}

/// Reverting hunks that record how the current lines were made from
/// earlier lines gives back the earlier lines: every hunk can be reverted,
/// and the lines after reverting them bottom-up are the earlier lines.
pub proof fn lemma_revert_restores(old: Seq<Seq<char>>, new: Seq<Seq<char>>, hunks: Seq<DiffHunk>)
    requires
        records_edit(old, new, hunks),
        hunks.len() <= usize::MAX,
    ensures
        all_revertible(new, bottom_up(hunks)),
        reverted_lines(new, hunks) == old,
{
    lemma_records_starts_increase(old, new, hunks);
    lemma_bottom_up_reverses(hunks);
    lemma_records_restore(old, new, hunks, seq![]);
    assert(new + seq![] =~= new);
    assert(old + seq![] =~= old);
}

/// Reverting hunks that record how the current text was made from an
/// earlier text gives back the earlier text, final newline included, when
/// neither text has carriage returns and both end with a newline or
/// neither does.
pub proof fn lemma_revert_content_restores(old: Seq<char>, new: Seq<char>, hunks: Seq<DiffHunk>)
    requires
        no_cr(old),
        no_cr(new),
        ends_with_newline(old) == ends_with_newline(new),
        records_edit(lines_of(old), lines_of(new), hunks),
        hunks.len() <= usize::MAX,
    ensures
        all_revertible(lines_of(new), bottom_up(hunks)),
        reverted_content(new, hunks) == old,
{
    lemma_revert_restores(lines_of(old), lines_of(new), hunks);
    lemma_join_lines_of(old);
}

// ---------------------------------------------------------------------------
// Selecting hunks
// ---------------------------------------------------------------------------
/// The hunks whose index is in `indices`, in their original order.
pub open spec fn selected_hunks(hunks: Seq<DiffHunk>, indices: Seq<usize>) -> Seq<DiffHunk>
    decreases hunks.len(),
{
    if hunks.len() == 0 {
        seq![]
    } else if indices.contains((hunks.len() - 1) as usize) {
        selected_hunks(hunks.drop_last(), indices).push(hunks.last())
    } else {
        selected_hunks(hunks.drop_last(), indices)
    }
}

fn contains_index(indices: &[usize], i: usize) -> (b: bool)
    ensures
        b == indices@.contains(i),
{
    let mut k: usize = 0;
    while k < indices.len()
        invariant
            0 <= k <= indices@.len(),
            forall|j: int| 0 <= j < k ==> indices@[j] != i,
        decreases indices@.len() - k,
    {
        if indices[k] == i {
            assert(indices@[k as int] == i);
            return true;
        }
        k = k + 1;
    }
    false
}

/// The hunks whose index is listed in `indices`, in their original order
/// (see [`selected_hunks`]).
pub fn select_hunks(hunks: &Vec<DiffHunk>, indices: &[usize]) -> (r: Vec<DiffHunk>)
    ensures
        r@.len() == selected_hunks(hunks@, indices@).len(),
        forall|m: int|
            0 <= m < r@.len() ==> {
                let h = #[trigger] r@[m];
                let g = selected_hunks(hunks@, indices@)[m];
                &&& h.original_start_line == g.original_start_line
                &&& h.new_start_line == g.new_start_line
                &&& h.original_line_count == g.original_line_count
                &&& h.new_line_count == g.new_line_count
                &&& h.original_lines@ == g.original_lines@
                &&& h.new_lines@ == g.new_lines@
            },
{
    let mut r: Vec<DiffHunk> = Vec::new();
    let mut i: usize = 0;
    assert(hunks@.take(0) =~= Seq::<DiffHunk>::empty());
    while i < hunks.len()
        invariant
            0 <= i <= hunks@.len(),
            r@.len() == selected_hunks(hunks@.take(i as int), indices@).len(),
            forall|m: int|
                0 <= m < r@.len() ==> {
                    let h = #[trigger] r@[m];
                    let g = selected_hunks(hunks@.take(i as int), indices@)[m];
                    &&& h.original_start_line == g.original_start_line
                    &&& h.new_start_line == g.new_start_line
                    &&& h.original_line_count == g.original_line_count
                    &&& h.new_line_count == g.new_line_count
                    &&& h.original_lines@ == g.original_lines@
                    &&& h.new_lines@ == g.new_lines@
                },
        decreases hunks@.len() - i,
    {
        let ghost pre = hunks@.take(i as int);
        let ghost nxt = hunks@.take(i + 1);
        assert(nxt.drop_last() =~= pre);
        assert(nxt.last() == hunks@[i as int]);
        assert(nxt.len() - 1 == i);
        if contains_index(indices, i) {
            r.push(hunks[i].clone());
        }
        i = i + 1;
    }
    assert(hunks@.take(hunks@.len() as int) =~= hunks@);
    r
}

// ---------------------------------------------------------------------------
// Listing undo records
// ---------------------------------------------------------------------------
/// A file name with the extension `json`: at least one character before a
/// final `.json`.
pub open spec fn has_json_extension(name: Seq<char>) -> bool {
    name.len() > 5 && name.skip(name.len() - 5) == ".json"@
}

/// Checks whether a file in the undo directory holds an undo record:
/// its name has the extension `json`.
pub fn is_undo_record_name(name: &str) -> (b: bool)
    ensures
        b == has_json_extension(name@),
{
    let cs = chars_of(name);
    let suffix = chars_of(".json");
    proof {
        reveal_strlit(".json");
    }
    cs.len() > 5 && ends_with_chars(&cs, &suffix)
}

/// `order` lists the positions of records with the given timestamps,
/// oldest first: every position exactly once, timestamps non-decreasing,
/// records with equal timestamps in the order in which they were found.
pub open spec fn listing_order(stamps: Seq<u64>, order: Seq<usize>) -> bool {
    &&& order.len() == stamps.len()
    &&& forall|p: int| 0 <= p < order.len() ==> #[trigger] order[p] < stamps.len()
    &&& forall|j: usize| j < stamps.len() ==> #[trigger] order.contains(j)
    &&& forall|p: int, q: int|
        0 <= p < q < order.len() ==> stamps[#[trigger] order[p] as int] <= stamps[#[trigger] order[q] as int]
    &&& forall|p: int, q: int|
        0 <= p < q < order.len() && stamps[#[trigger] order[p] as int] == stamps[#[trigger] order[q] as int]
            ==> order[p] < order[q]
}

/// The order in which undo records are listed: by timestamp, oldest first,
/// records with equal timestamps in the order in which they were found.
pub fn order_by_timestamp(stamps: &Vec<u64>) -> (r: Vec<usize>)
    ensures
        listing_order(stamps@, r@),
{
    let ghost st = stamps@;
    let mut r: Vec<usize> = Vec::new();
    let mut i: usize = 0;
    while i < stamps.len()
        invariant
            st == stamps@,
            i <= st.len(),
            r@.len() == i,
            forall|p: int| 0 <= p < r@.len() ==> #[trigger] r@[p] < i,
            forall|j: usize| j < i ==> #[trigger] r@.contains(j),
            forall|p: int, q: int|
                0 <= p < q < r@.len() ==> st[#[trigger] r@[p] as int] <= st[#[trigger] r@[q] as int],
            forall|p: int, q: int|
                0 <= p < q < r@.len() && st[#[trigger] r@[p] as int] == st[#[trigger] r@[q] as int]
                    ==> r@[p] < r@[q],
        decreases st.len() - i,
    {
        let key = stamps[i];
        let mut k = r.len();
        while k > 0 && stamps[r[k - 1]] > key
            invariant
                st == stamps@,
                i < st.len(),
                key == st[i as int],
                k <= r@.len(),
                forall|p: int| 0 <= p < r@.len() ==> #[trigger] r@[p] < i,
                forall|p: int| k <= p < r@.len() ==> st[#[trigger] r@[p] as int] > key,
            decreases k,
        {
            k = k - 1;
        }
        let ghost old_r = r@;
        r.insert(k, i);
        proof {
            let n = r@;
            assert(n =~= old_r.insert(k as int, i));
            assert forall|p: int| 0 <= p < n.len() implies #[trigger] n[p] < i + 1 by {
                if p > k {
                    assert(n[p] == old_r[p - 1]);
                }
            }
            assert forall|j: usize| j < i + 1 implies #[trigger] n.contains(j) by {
                if j == i {
                    assert(n[k as int] == j);
                } else {
                    assert(old_r.contains(j));
                    let p0 = choose|p: int| 0 <= p < old_r.len() && old_r[p] == j;
                    if p0 < k {
                        assert(n[p0] == j);
                    } else {
                        assert(n[p0 + 1] == j);
                    }
                }
            }
            assert forall|p: int, q: int| 0 <= p < q < n.len() implies st[#[trigger] n[p] as int]
                <= st[#[trigger] n[q] as int] && (st[n[p] as int] == st[n[q] as int] ==> n[p] < n[q]) by {
                if q < k {
                    assert(n[p] == old_r[p] && n[q] == old_r[q]);
                } else if q == k {
                    assert(n[p] == old_r[p]);
                    if p < k - 1 {
                        assert(st[old_r[p] as int] <= st[old_r[k - 1] as int]);
                    }
                } else if p < k {
                    assert(n[p] == old_r[p] && n[q] == old_r[q - 1]);
                } else if p == k {
                    assert(n[q] == old_r[q - 1]);
                    assert(st[old_r[q - 1] as int] > key);
                } else {
                    assert(n[p] == old_r[p - 1] && n[q] == old_r[q - 1]);
                }
            }
        }
        i = i + 1;
    }
    r
}

/// The path an undo record keeps for a file: its canonical path relative
/// to the workspace root; failing that, the path as given relative to the
/// root; failing that, its file name (or nothing).
pub open spec fn reference_rel_spec(abs_path: Seq<char>, path: Seq<char>, workspace_root: Seq<char>) -> Seq<char> {
    match relative_to(abs_path, workspace_root) {
        Some(r) => r,
        None => match relative_to(path, workspace_root) {
            Some(r) => r,
            None => match file_name_of(path) {
                Some(n) => n,
                None => seq![],
            },
        },
    }
}

/// Chooses the path an undo record keeps for a file (see
/// [`reference_rel_spec`]).
pub fn reference_rel_path(abs_path: &str, path: &str, workspace_root: &str) -> (r: String)
    ensures
        r@ == reference_rel_spec(abs_path@, path@, workspace_root@),
{
    match strip_prefix(abs_path, workspace_root) {
        Some(r) => r,
        None => match strip_prefix(path, workspace_root) {
            Some(r) => r,
            None => match file_name(path) {
                Some(n) => n,
                None => String::new(),
            },
        },
    }
}

/// The message for a partial revert of an operation that recorded no
/// diffs.
pub open spec fn full_backup_only_revert_message() -> Seq<char> {
    "This undo operation only supports full-file backups; partial revert is not possible."@
}

/// Checks that an operation can be reverted hunk by hunk: it must have
/// recorded file diffs.
pub fn check_partial_revert(info: &UndoInfo) -> (r: Result<(), SearchError>)
    ensures
        r is Ok <==> info.file_diffs@.len() > 0,
        r matches Err(e) ==> e matches SearchError::ConfigError(m) && m@ == full_backup_only_revert_message(),
{
    if info.file_diffs.len() == 0 {
        Err(
            SearchError::ConfigError(
                "This undo operation only supports full-file backups; partial revert is not possible.".to_owned(),
            ),
        )
    } else {
        Ok(())
    }
}

} // verus!
