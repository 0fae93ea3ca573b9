//! Plans of replacements for one file: keeping replacements sorted and
//! non-overlapping, producing the new content, and previewing changed lines.
use vstd::prelude::*;

use crate::errors::SearchError;
use crate::paths::{join_path, joined, relative_to, strip_prefix};
use crate::metrics::{MemoryMetrics, LARGE_FILE_THRESHOLD, SMALL_FILE_THRESHOLD};
use crate::replace::{task_indexable, task_problem, ReplacementConfig, ReplacementTask, reports};
use crate::text::{
    byte_len, byte_offset, byte_offsets, chars_of, copy_string, lemma_byte_len_prefix,
    lemma_byte_len_zero, lemma_byte_offset_strict, lemma_encode_utf8_add, lines_of, split_lines, string_from_chars,
    views,
};

verus! {

// ---------------------------------------------------------------------------
// Byte ranges over character sequences
// ---------------------------------------------------------------------------
/// Byte offset `b` is a character boundary of `t`.
pub open spec fn at_boundary(t: Seq<char>, b: int) -> bool {
    exists|k: int| 0 <= k <= t.len() && byte_offset(t, k) == b
}

/// The character index whose byte offset is `b`.
pub open spec fn char_index_at(t: Seq<char>, b: int) -> int {
    choose|k: int| 0 <= k <= t.len() && byte_offset(t, k) == b
}

/// The bytes `[s, e)` of `t` can be replaced: the range is ordered and both
/// ends are character boundaries.
pub open spec fn range_replaceable(t: Seq<char>, s: int, e: int) -> bool {
    s <= e && at_boundary(t, s) && at_boundary(t, e)
}

/// `t` with its bytes `[s, e)` replaced by `r`.
pub open spec fn replace_range(t: Seq<char>, s: int, e: int, r: Seq<char>) -> Seq<char> {
    t.take(char_index_at(t, s)) + r + t.skip(char_index_at(t, e))
}

/// The edits of a list of tasks, in order.
pub open spec fn task_edits(tasks: Seq<ReplacementTask>) -> Seq<(usize, usize, Seq<char>)> {
    tasks.map_values(
        |t: ReplacementTask| (t.original_range.0, t.original_range.1, t.replacement_text@),
    )
}

/// Applying the edits one by one, the last first, each to the result of the
/// ones after it.
pub open spec fn apply_in_reverse(t: Seq<char>, edits: Seq<(usize, usize, Seq<char>)>) -> Seq<char>
    decreases edits.len(),
{
    if edits.len() == 0 {
        t
    } else {
        let x = edits.last();
        apply_in_reverse(replace_range(t, x.0 as int, x.1 as int, x.2), edits.drop_last())
    }
}

/// Every edit, applied the last first, finds its range replaceable in the
/// text the later edits produced, and no text grows past `usize::MAX` bytes.
pub open spec fn reverse_applicable(t: Seq<char>, edits: Seq<(usize, usize, Seq<char>)>) -> bool
    decreases edits.len(),
{
    edits.len() == 0 || {
        let x = edits.last();
        &&& range_replaceable(t, x.0 as int, x.1 as int)
        &&& byte_len(replace_range(t, x.0 as int, x.1 as int, x.2)) <= usize::MAX
        &&& reverse_applicable(replace_range(t, x.0 as int, x.1 as int, x.2), edits.drop_last())
    }
}

/// The edits' ranges lie on character boundaries of `t`, each ends no
/// later than the next begins.
pub open spec fn edits_in_order(t: Seq<char>, edits: Seq<(usize, usize, Seq<char>)>) -> bool {
    &&& forall|i: int|
        0 <= i < edits.len() ==> range_replaceable(t, (#[trigger] edits[i]).0 as int, edits[i].1 as int)
    &&& forall|i: int, j: int| 0 <= i < j < edits.len() ==> #[trigger] edits[i].1 <= #[trigger] edits[j].0
}

/// The bytes of all replacement texts.
pub open spec fn replacement_bytes(edits: Seq<(usize, usize, Seq<char>)>) -> int
    decreases edits.len(),
{
    if edits.len() == 0 {
        0
    } else {
        replacement_bytes(edits.drop_last()) + byte_len(edits.last().2)
    }
}

/// `t` with the range of every edit replaced by its text at once.
pub open spec fn spliced(t: Seq<char>, edits: Seq<(usize, usize, Seq<char>)>) -> Seq<char>
    decreases edits.len(),
{
    if edits.len() == 0 {
        t
    } else {
        let x = edits.last();
        spliced(t.take(char_index_at(t, x.0 as int)), edits.drop_last()) + x.2 + t.skip(
            char_index_at(t, x.1 as int),
        )
    }
}

/// A character boundary of `p` is one of `p + q`, at the same character.
proof fn lemma_boundary_prefix(p: Seq<char>, q: Seq<char>, b: int)
    requires
        at_boundary(p, b),
    ensures
        at_boundary(p + q, b),
        char_index_at(p + q, b) == char_index_at(p, b),
        0 <= char_index_at(p, b) <= p.len(),
        byte_offset(p, char_index_at(p, b)) == b,
{
    let k = char_index_at(p, b);
    assert((p + q).take(k) =~= p.take(k));
    assert(byte_offset(p + q, k) == b);
    let k2 = char_index_at(p + q, b);
    if k2 < k {
        lemma_byte_offset_strict(p + q, k2, k);
    } else if k < k2 {
        lemma_byte_offset_strict(p + q, k, k2);
    }
}

/// A boundary at or before the boundary of character `k0` is a boundary
/// of the first `k0` characters.
proof fn lemma_boundary_take(p: Seq<char>, k0: int, b: int)
    requires
        0 <= k0 <= p.len(),
        at_boundary(p, b),
        b <= byte_offset(p, k0),
    ensures
        at_boundary(p.take(k0), b),
        char_index_at(p, b) <= k0,
{
    let kb = char_index_at(p, b);
    if kb > k0 {
        lemma_byte_offset_strict(p, k0, kb);
    }
    assert(p.take(k0).take(kb) =~= p.take(kb));
    assert(byte_offset(p.take(k0), kb) == b);
}

/// The replacement texts have no negative size.
proof fn lemma_replacement_bytes_nonneg(edits: Seq<(usize, usize, Seq<char>)>)
    ensures
        replacement_bytes(edits) >= 0,
    decreases edits.len(),
{
    if edits.len() > 0 {
        lemma_replacement_bytes_nonneg(edits.drop_last());
    }
}

/// The sizes of the pieces of a splice.
proof fn lemma_splice_size(p: Seq<char>, q: Seq<char>, r: Seq<char>, k0: int, k1: int)
    requires
        0 <= k0 <= k1 <= p.len(),
    ensures
        byte_offset(p, k0) <= byte_offset(p, k1) <= byte_len(p),
        byte_len(p.take(k0) + (r + p.skip(k1) + q)) == byte_offset(p, k0) + byte_len(r) + (byte_len(p)
            - byte_offset(p, k1)) + byte_len(q),
        byte_len(p.take(k0)) == byte_offset(p, k0),
        byte_len(r + p.skip(k1) + q) == byte_len(r) + (byte_len(p) - byte_offset(p, k1)) + byte_len(q),
{
    lemma_byte_len_prefix(p, k0, k1);
    lemma_byte_len_prefix(p, k1, p.len() as int);
    lemma_encode_utf8_add(p.take(k1), p.skip(k1));
    assert(p.take(k1) + p.skip(k1) =~= p);
    lemma_encode_utf8_add(r, p.skip(k1));
    lemma_encode_utf8_add(r + p.skip(k1), q);
    lemma_encode_utf8_add(p.take(k0), r + p.skip(k1) + q);
}

/// Applying ordered edits the last first to `p` followed by `q` replaces
/// their ranges in `p` at once and leaves `q` alone.
#[verifier::spinoff_prover]
#[verifier::rlimit(40)]
proof fn lemma_edits_frame(p: Seq<char>, q: Seq<char>, edits: Seq<(usize, usize, Seq<char>)>)
    requires
        edits_in_order(p, edits),
        byte_len(p) + byte_len(q) + replacement_bytes(edits) <= usize::MAX,
    ensures
        reverse_applicable(p + q, edits),
        apply_in_reverse(p + q, edits) == spliced(p, edits) + q,
    decreases edits.len(),
{
    if edits.len() == 0 {
    } else {
        let x = edits.last();
        let n = edits.len();
        assert(range_replaceable(p, edits[n - 1].0 as int, edits[n - 1].1 as int));
        lemma_boundary_prefix(p, q, x.0 as int);
        lemma_boundary_prefix(p, q, x.1 as int);
        let k0 = char_index_at(p, x.0 as int);
        let k1 = char_index_at(p, x.1 as int);
        if k1 < k0 {
            lemma_byte_offset_strict(p, k1, k0);
        }
        assert(range_replaceable(p + q, x.0 as int, x.1 as int));
        let pq = p + q;
        assert(pq.take(k0) =~= p.take(k0));
        assert(pq.skip(k1) =~= p.skip(k1) + q);
        let p2 = p.take(k0);
        let q2 = x.2 + p.skip(k1) + q;
        assert(replace_range(pq, x.0 as int, x.1 as int, x.2) =~= p2 + q2);
        lemma_splice_size(p, q, x.2, k0, k1);
        lemma_replacement_bytes_nonneg(edits.drop_last());
        // the earlier edits lie within p2
        let d = edits.drop_last();
        assert forall|i: int| 0 <= i < d.len() implies range_replaceable(
            p2,
            (#[trigger] d[i]).0 as int,
            d[i].1 as int,
        ) by {
            assert(d[i] == edits[i]);
            assert(range_replaceable(p, edits[i].0 as int, edits[i].1 as int));
            assert(edits[i].1 <= edits[n - 1].0);
            lemma_boundary_take(p, k0, d[i].0 as int);
            lemma_boundary_take(p, k0, d[i].1 as int);
        }
        assert forall|i: int, j: int| 0 <= i < j < d.len() implies #[trigger] d[i].1 <= #[trigger] d[j].0 by {
            assert(d[i] == edits[i] && d[j] == edits[j]);
        }
        lemma_edits_frame(p2, q2, d);
        assert(spliced(p2, d) + q2 =~= spliced(p, edits) + q);
    }
}

/// Replacing ordered ranges on character boundaries one by one, the last
/// first, is possible and replaces them all at once, provided the result
/// fits in `usize::MAX` bytes.
pub proof fn lemma_ordered_edits_apply(t: Seq<char>, edits: Seq<(usize, usize, Seq<char>)>)
    requires
        edits_in_order(t, edits),
        byte_len(t) + replacement_bytes(edits) <= usize::MAX,
    ensures
        reverse_applicable(t, edits),
        apply_in_reverse(t, edits) == spliced(t, edits),
{
    lemma_byte_len_zero(Seq::<char>::empty());
    assert(t + Seq::<char>::empty() =~= t);
    lemma_edits_frame(t, Seq::<char>::empty(), edits);
    assert(spliced(t, edits) + Seq::<char>::empty() =~= spliced(t, edits));
}

fn push_range(out: &mut Vec<char>, t: &[char], from: usize, to: usize)
    requires
        from <= to <= t@.len(),
    ensures
        final(out)@ == old(out)@ + t@.subrange(from as int, to as int),
{
    let mut i: usize = from;
    while i < to
        invariant
            from <= i <= to <= t@.len(),
            out@ == old(out)@ + t@.subrange(from as int, i as int),
        decreases to - i,
    {
        out.push(t[i]);
        assert(t@.subrange(from as int, i as int).push(t@[i as int]) =~= t@.subrange(
            from as int,
            i + 1,
        ));
        i = i + 1;
    }
}

/// Finds the character index whose byte offset is `b`, if any.
pub fn find_char_index(t: &[char], offs: &[usize], b: usize) -> (r: Option<usize>)
    requires
        offs@.len() == t@.len() + 1,
        forall|i: int| 0 <= i <= t@.len() ==> #[trigger] offs@[i] == byte_offset(t@, i),
    ensures
        r is Some <==> at_boundary(t@, b as int),
        r matches Some(k) ==> k <= t@.len() && k == char_index_at(t@, b as int),
{
    let mut k: usize = 0;
    while k < offs.len()
        invariant
            0 <= k <= offs@.len(),
            offs@.len() == t@.len() + 1,
            forall|i: int| 0 <= i <= t@.len() ==> #[trigger] offs@[i] == byte_offset(t@, i),
            forall|i: int| 0 <= i < k ==> byte_offset(t@, i) != b,
        decreases offs@.len() - k,
    {
        if offs[k] == b {
            proof {
                assert(byte_offset(t@, k as int) == b);
                let c = char_index_at(t@, b as int);
                assert(0 <= c <= t@.len() && byte_offset(t@, c) == b);
                if c < k {
                    lemma_byte_offset_strict(t@, c, k as int);
                } else if c > k {
                    lemma_byte_offset_strict(t@, k as int, c);
                }
            }
            return Some(k);
        }
        k = k + 1;
    }
    proof {
        if at_boundary(t@, b as int) {
            let c = choose|c: int| 0 <= c <= t@.len() && byte_offset(t@, c) == b;
            assert(offs@[c] == byte_offset(t@, c));
        }
    }
    None
}

proof fn lemma_replace_len(t: Seq<char>, ks: int, ke: int, r: Seq<char>)
    requires
        0 <= ks <= t.len(),
        0 <= ke <= t.len(),
    ensures
        byte_len(t.take(ks) + r + t.skip(ke)) == byte_offset(t, ks) + byte_len(r) + (byte_len(t)
            - byte_offset(t, ke)),
{
    lemma_encode_utf8_add(t.take(ks), r);
    lemma_encode_utf8_add(t.take(ks) + r, t.skip(ke));
    lemma_encode_utf8_add(t.take(ke), t.skip(ke));
    assert(t.take(ke) + t.skip(ke) =~= t);
}

/// Replaces the bytes `[s, e)` of `t` by `r`, or gives `None` when the
/// range is not replaceable or the result would exceed `usize::MAX` bytes.
fn try_replace_range(t: &[char], s: usize, e: usize, r: &[char]) -> (out: Option<Vec<char>>)
    requires
        byte_len(t@) <= usize::MAX,
        byte_len(r@) <= usize::MAX,
    ensures
        out is Some <==> (range_replaceable(t@, s as int, e as int) && byte_len(
            replace_range(t@, s as int, e as int, r@),
        ) <= usize::MAX),
        out matches Some(v) ==> v@ == replace_range(t@, s as int, e as int, r@),
{
    let offs = byte_offsets(t);
    if s > e {
        return None;
    }
    let ks = match find_char_index(t, &offs, s) {
        Some(k) => k,
        None => {
            return None;
        },
    };
    let ke = match find_char_index(t, &offs, e) {
        Some(k) => k,
        None => {
            return None;
        },
    };
    let rb = string_from_chars(r);
    let rlen = rb.as_str().as_bytes().len();
    let total = offs[t.len()];
    proof {
        lemma_replace_len(t@, ks as int, ke as int, r@);
        lemma_byte_len_prefix(t@, ke as int, t@.len() as int);
        assert(t@.take(t@.len() as int) =~= t@);
        assert(rb@ == r@);
    }
    let head = offs[ks];
    let tail = total - offs[ke];
    if head > usize::MAX - rlen || head + rlen > usize::MAX - tail {
        return None;
    }
    let mut out: Vec<char> = Vec::new();
    push_range(&mut out, t, 0, ks);
    push_range(&mut out, r, 0, r.len());
    push_range(&mut out, t, ke, t.len());
    assert(t@.subrange(0, ks as int) =~= t@.take(ks as int));
    assert(r@.subrange(0, r@.len() as int) =~= r@);
    assert(t@.subrange(ke as int, t@.len() as int) =~= t@.skip(ke as int));
    assert(out@ =~= t@.take(ks as int) + r@ + t@.skip(ke as int));
    Some(out)
}

/// Applies the replacements of `tasks` to `content` the last first, as
/// each byte range refers to the text before any replacement when the tasks
/// are sorted and disjoint. Gives `None` on the inputs where a range is not
/// replaceable (see [`reverse_applicable`]).
pub fn apply_replacements(content: &str, tasks: &Vec<ReplacementTask>) -> (r: Option<String>)
    ensures
        r is Some <==> reverse_applicable(content@, task_edits(tasks@)),
        r matches Some(s) ==> s@ == apply_in_reverse(content@, task_edits(tasks@)),
{
    let ghost edits = task_edits(tasks@);
    let mut cur = chars_of(content);
    // The UTF-8 length of the text fits in a usize.
    let _byte_len = content.as_bytes().len();
    let mut i: usize = tasks.len();
    assert(edits.take(i as int) =~= edits);
    while i > 0
        invariant
            0 <= i <= tasks@.len(),
            edits == task_edits(tasks@),
            byte_len(cur@) <= usize::MAX,
            reverse_applicable(content@, edits) == reverse_applicable(cur@, edits.take(i as int)),
            apply_in_reverse(content@, edits) == apply_in_reverse(cur@, edits.take(i as int)),
        decreases i,
    {
        let task = &tasks[i - 1];
        let rep = chars_of(task.replacement_text.as_str());
        // So does that of the replacement text.
        let _rep_len = task.replacement_text.as_str().as_bytes().len();
        let ghost x = edits[i - 1];
        assert(edits.take(i as int).last() == x);
        assert(edits.take(i as int).drop_last() =~= edits.take(i - 1));
        assert(x == (task.original_range.0, task.original_range.1, task.replacement_text@));
        match try_replace_range(&cur, task.original_range.0, task.original_range.1, &rep) {
            Some(next) => {
                cur = next;
            },
            None => {
                return None;
            },
        }
        i = i - 1;
    }
    assert(edits.take(0) =~= Seq::<(usize, usize, Seq<char>)>::empty());
    Some(string_from_chars(&cur))
}

// ---------------------------------------------------------------------------
// Plans
// ---------------------------------------------------------------------------
/// Two byte ranges share at least one byte.
pub open spec fn ranges_overlap(a: (usize, usize), b: (usize, usize)) -> bool {
    a.0 < b.1 && b.0 < a.1
}

/// The range overlaps the range of some task.
pub open spec fn overlaps_any(tasks: Seq<ReplacementTask>, range: (usize, usize)) -> bool {
    exists|i: int| 0 <= i < tasks.len() && ranges_overlap(range, #[trigger] tasks[i].original_range)
}

/// The tasks are sorted by the start of their range and no two ranges
/// overlap.
pub open spec fn plan_ordered(tasks: Seq<ReplacementTask>) -> bool {
    &&& forall|i: int, j: int|
        0 <= i < j < tasks.len() ==> #[trigger] tasks[i].original_range.0
            <= #[trigger] tasks[j].original_range.0
    &&& forall|i: int, j: int|
        0 <= i < tasks.len() && 0 <= j < tasks.len() && i != j ==> !ranges_overlap(
            #[trigger] tasks[i].original_range,
            #[trigger] tasks[j].original_range,
        )
}

/// `pos` is the first index whose task starts at or after `start`.
pub open spec fn first_at_or_after(tasks: Seq<ReplacementTask>, start: usize, pos: int) -> bool {
    &&& 0 <= pos <= tasks.len()
    &&& forall|i: int| 0 <= i < pos ==> #[trigger] tasks[i].original_range.0 < start
    &&& pos < tasks.len() ==> tasks[pos].original_range.0 >= start
}

/// Strategy for processing files based on their size.
#[derive(Debug, Clone, Copy, PartialEq, Eq, Structural)]
pub enum ProcessingStrategy {
    /// Small files, processed in memory.
    InMemory,
    /// Medium files, processed with buffered streaming.
    Streaming,
    /// Large files, memory mapped.
    MemoryMapped,
}

impl ProcessingStrategy {
    /// The strategy for a file of `size` bytes: in memory below the small
    /// threshold, memory mapped from the large threshold on, streaming in
    /// between.
    pub fn for_file_size(size: u64) -> (s: Self)
        ensures
            s == if size < SMALL_FILE_THRESHOLD {
                ProcessingStrategy::InMemory
            } else if size < LARGE_FILE_THRESHOLD {
                ProcessingStrategy::Streaming
            } else {
                ProcessingStrategy::MemoryMapped
            },
    {
        if size < SMALL_FILE_THRESHOLD {
            ProcessingStrategy::InMemory
        } else if size < LARGE_FILE_THRESHOLD {
            ProcessingStrategy::Streaming
        } else {
            ProcessingStrategy::MemoryMapped
        }
    }
}

/// Collects all replacements for a single file.
#[derive(Debug)]
pub struct FileReplacementPlan {
    /// The file to modify.
    pub file_path: String,
    /// All replacements for this file, sorted by range start.
    pub replacements: Vec<ReplacementTask>,
    /// The size of the file when the plan was made, when it could be read.
    pub original_len: Option<u64>,
}

impl FileReplacementPlan {
    /// Creates a new, empty plan for the given file.
    pub fn new(file_path: String, original_len: Option<u64>) -> (r: Result<Self, SearchError>)
        ensures
            r matches Ok(p) && p.file_path == file_path && p.replacements@.len() == 0
                && p.original_len == original_len,
    {
        Ok(FileReplacementPlan { file_path, replacements: Vec::new(), original_len })
    }

    /// Adds a replacement task: the task must be valid and must not overlap
    /// a task already in the plan; it is inserted before the first task that
    /// starts at or after it.
    pub fn add_replacement(&mut self, task: ReplacementTask) -> (r: Result<(), SearchError>)
        requires
            task_indexable(task),
        ensures
            task_problem(task) is Some ==> reports(r, task_problem(task)) && *final(self)
                == *old(self),
            task_problem(task) is None && overlaps_any(old(self).replacements@, task.original_range)
                ==> (r matches Err(SearchError::ConfigError(m)) && m@
                == "Overlapping replacements are not allowed"@) && *final(self) == *old(self),
            task_problem(task) is None && !overlaps_any(
                old(self).replacements@,
                task.original_range,
            ) ==> r is Ok && exists|pos: int|
                first_at_or_after(old(self).replacements@, task.original_range.0, pos)
                    && final(self).replacements@ == old(self).replacements@.insert(pos, task),
            final(self).file_path == old(self).file_path,
            final(self).original_len == old(self).original_len,
            plan_ordered(old(self).replacements@) ==> plan_ordered(final(self).replacements@),
    {
        match task.validate() {
            Err(e) => {
                return Err(e);
            },
            Ok(()) => {},
        }
        let mut i: usize = 0;
        while i < self.replacements.len()
            invariant
                0 <= i <= self.replacements@.len(),
                task_problem(task) is None,
                forall|j: int|
                    0 <= j < i ==> !ranges_overlap(
                        task.original_range,
                        #[trigger] self.replacements@[j].original_range,
                    ),
            decreases self.replacements@.len() - i,
        {
            let ex = self.replacements[i].original_range;
            if task.original_range.0 < ex.1 && ex.0 < task.original_range.1 {
                assert(ranges_overlap(task.original_range, self.replacements@[i as int].original_range));
                return Err(SearchError::ConfigError("Overlapping replacements are not allowed".to_owned()));
            }
            i = i + 1;
        }
        let mut pos: usize = 0;
        while pos < self.replacements.len() && self.replacements[pos].original_range.0
            < task.original_range.0
            invariant
                0 <= pos <= self.replacements@.len(),
                forall|j: int|
                    0 <= j < pos ==> #[trigger] self.replacements@[j].original_range.0
                        < task.original_range.0,
            decreases self.replacements@.len() - pos,
        {
            pos = pos + 1;
        }
        let ghost before = self.replacements@;
        let ghost t = task;
        self.replacements.insert(pos, task);
        proof {
            assert(first_at_or_after(before, t.original_range.0, pos as int));
            let after = self.replacements@;
            assert(after == before.insert(pos as int, t));
            if plan_ordered(before) {
                assert forall|i: int, j: int| 0 <= i < j < after.len() implies #[trigger] after[i].original_range.0
                    <= #[trigger] after[j].original_range.0 by {
                    if i < pos && j < pos {
                        assert(after[i] == before[i] && after[j] == before[j]);
                    } else if i < pos && j == pos {
                        assert(after[i] == before[i]);
                    } else if i < pos {
                        assert(after[i] == before[i] && after[j] == before[j - 1]);
                    } else if i == pos {
                        assert(after[j] == before[j - 1]);
                        assert(before[pos as int].original_range.0 >= t.original_range.0);
                        assert(before[pos as int].original_range.0 <= before[j - 1].original_range.0 || j - 1 == pos);
                    } else {
                        assert(after[i] == before[i - 1] && after[j] == before[j - 1]);
                    }
                }
                assert forall|i: int, j: int|
                    0 <= i < after.len() && 0 <= j < after.len() && i != j implies !ranges_overlap(
                    #[trigger] after[i].original_range,
                    #[trigger] after[j].original_range,
                ) by {
                    let bi = if i < pos { i } else if i == pos { -1 } else { i - 1 };
                    let bj = if j < pos { j } else if j == pos { -1 } else { j - 1 };
                    if i == pos {
                        assert(after[j] == before[bj]);
                        assert(!ranges_overlap(t.original_range, before[bj].original_range));
                    } else if j == pos {
                        assert(after[i] == before[bi]);
                        assert(!ranges_overlap(t.original_range, before[bi].original_range));
                    } else {
                        assert(after[i] == before[bi] && after[j] == before[bj]);
                    }
                }
            }
        }
        Ok(())
    }

    /// The processing strategy for this plan's file: by its size when known,
    /// in memory otherwise.
    pub fn strategy(&self) -> (s: ProcessingStrategy)
        ensures
            s == match self.original_len {
                Some(n) => if n < SMALL_FILE_THRESHOLD {
                    ProcessingStrategy::InMemory
                } else if n < LARGE_FILE_THRESHOLD {
                    ProcessingStrategy::Streaming
                } else {
                    ProcessingStrategy::MemoryMapped
                },
                None => ProcessingStrategy::InMemory,
            },
    {
        match self.original_len {
            Some(n) => ProcessingStrategy::for_file_size(n),
            None => ProcessingStrategy::InMemory,
        }
    }

    /// The new content of the file: the replacements applied to `content`
    /// the last first (see [`apply_replacements`]).
    pub fn apply_in_memory(&self, content: &str) -> (r: Option<String>)
        ensures
            r is Some <==> reverse_applicable(content@, task_edits(self.replacements@)),
            r matches Some(s) ==> s@ == apply_in_reverse(content@, task_edits(self.replacements@)),
    {
        apply_replacements(content, &self.replacements)
    }
}

// ---------------------------------------------------------------------------
// Previews
// ---------------------------------------------------------------------------
/// Result of generating a preview for a file.
#[derive(Debug)]
pub struct PreviewResult {
    /// The file being modified.
    pub file_path: String,
    /// Original lines that will be modified.
    pub original_lines: Vec<String>,
    /// New lines after modification.
    pub new_lines: Vec<String>,
    /// 1-based line numbers for each change.
    pub line_numbers: Vec<usize>,
}

/// The lines that differ among the first `n` lines of `a` and `b`: the old
/// line, the new line and the 1-based line number, in order.
pub open spec fn changed_lines(a: Seq<Seq<char>>, b: Seq<Seq<char>>, n: int) -> Seq<
    (Seq<char>, Seq<char>, int),
>
    decreases n,
{
    if n <= 0 {
        seq![]
    } else {
        let prev = changed_lines(a, b, n - 1);
        if a[n - 1] != b[n - 1] {
            prev.push((a[n - 1], b[n - 1], n))
        } else {
            prev
        }
    }
}

/// The number of line pairs compared: the shorter of the two line lists.
pub open spec fn pair_count(a: Seq<Seq<char>>, b: Seq<Seq<char>>) -> int {
    if a.len() < b.len() {
        a.len() as int
    } else {
        b.len() as int
    }
}

/// The preview compares every pair of lines that both texts have: each
/// line number `i + 1` with `i` below the shorter line count whose old and
/// new lines differ is listed with both lines, and every listed change is
/// such a line, in increasing order of line number.
pub proof fn lemma_preview_covers_pairs(a: Seq<Seq<char>>, b: Seq<Seq<char>>)
    ensures
        ({
            let ch = changed_lines(a, b, pair_count(a, b));
            let m = if a.len() < b.len() {
                a.len() as int
            } else {
                b.len() as int
            };
            &&& forall|i: int|
                0 <= i < m && a[i] != b[i] ==> exists|k: int| 0 <= k < ch.len() && #[trigger] ch[k] == (a[i], b[i], i + 1)
            &&& forall|k: int|
                0 <= k < ch.len() ==> 1 <= (#[trigger] ch[k]).2 <= m && ch[k].0 == a[ch[k].2 - 1]
                    && ch[k].1 == b[ch[k].2 - 1] && ch[k].0 != ch[k].1
            &&& forall|k1: int, k2: int| 0 <= k1 < k2 < ch.len() ==> #[trigger] ch[k1].2 < #[trigger] ch[k2].2
        }),
{
    let m = if a.len() < b.len() {
        a.len() as int
    } else {
        b.len() as int
    };
    assert(pair_count(a, b) == m);
    lemma_changed_lines_prefix(a, b, m);
}

proof fn lemma_changed_lines_prefix(a: Seq<Seq<char>>, b: Seq<Seq<char>>, n: int)
    requires
        0 <= n <= a.len(),
        n <= b.len(),
    ensures
        ({
            let ch = changed_lines(a, b, n);
            &&& forall|i: int|
                0 <= i < n && a[i] != b[i] ==> exists|k: int| 0 <= k < ch.len() && #[trigger] ch[k] == (a[i], b[i], i + 1)
            &&& forall|k: int|
                0 <= k < ch.len() ==> 1 <= (#[trigger] ch[k]).2 <= n && ch[k].0 == a[ch[k].2 - 1]
                    && ch[k].1 == b[ch[k].2 - 1] && ch[k].0 != ch[k].1
            &&& forall|k1: int, k2: int| 0 <= k1 < k2 < ch.len() ==> #[trigger] ch[k1].2 < #[trigger] ch[k2].2
        }),
    decreases n,
{
    if n > 0 {
        lemma_changed_lines_prefix(a, b, n - 1);
        let prev = changed_lines(a, b, n - 1);
        let ch = changed_lines(a, b, n);
        if a[n - 1] != b[n - 1] {
            assert(ch == prev.push((a[n - 1], b[n - 1], n)));
            assert(ch[prev.len() as int] == (a[n - 1], b[n - 1], n));
            assert forall|i: int| 0 <= i < n && a[i] != b[i] implies exists|k: int|
                0 <= k < ch.len() && #[trigger] ch[k] == (a[i], b[i], i + 1) by {
                if i < n - 1 {
                    let k = choose|k: int| 0 <= k < prev.len() && #[trigger] prev[k] == (a[i], b[i], i + 1);
                    assert(ch[k] == prev[k]);
                } else {
                    assert(ch[prev.len() as int] == (a[i], b[i], i + 1));
                }
            }
            assert forall|k1: int, k2: int| 0 <= k1 < k2 < ch.len() implies #[trigger] ch[k1].2 < #[trigger] ch[k2].2 by {
                if k2 < prev.len() {
                    assert(ch[k1] == prev[k1] && ch[k2] == prev[k2]);
                } else {
                    assert(ch[k1] == prev[k1]);
                }
            }
        } else {
            assert(ch == prev);
        }
    }
}

/// The changes as three parallel lists agree with `changes`.
pub open spec fn lists_match(
    olds: Seq<String>,
    news: Seq<String>,
    nums: Seq<usize>,
    changes: Seq<(Seq<char>, Seq<char>, int)>,
) -> bool {
    &&& olds.len() == changes.len()
    &&& news.len() == changes.len()
    &&& nums.len() == changes.len()
    &&& forall|i: int|
        0 <= i < changes.len() ==> (#[trigger] olds[i])@ == changes[i].0 && news[i]@
            == changes[i].1 && nums[i] == changes[i].2
}

/// Compares two texts line by line (pairing lines by position, as far as
/// the shorter goes) and lists the lines that differ.
pub fn compare_lines(old: &str, new: &str) -> (r: (Vec<String>, Vec<String>, Vec<usize>))
    ensures
        lists_match(
            r.0@,
            r.1@,
            r.2@,
            changed_lines(lines_of(old@), lines_of(new@), pair_count(lines_of(old@), lines_of(new@))),
        ),
{
    let oc = chars_of(old);
    let nc = chars_of(new);
    let ol = split_lines(&oc);
    let nl = split_lines(&nc);
    let ghost a = lines_of(old@);
    let ghost b = lines_of(new@);
    let n = if ol.len() < nl.len() {
        ol.len()
    } else {
        nl.len()
    };
    let mut olds: Vec<String> = Vec::new();
    let mut news: Vec<String> = Vec::new();
    let mut nums: Vec<usize> = Vec::new();
    let mut i: usize = 0;
    while i < n
        invariant
            0 <= i <= n,
            n <= ol@.len(),
            n <= nl@.len(),
            n == pair_count(a, b),
            views(ol@) == a,
            views(nl@) == b,
            lists_match(olds@, news@, nums@, changed_lines(a, b, i as int)),
        decreases n - i,
    {
        assert(a[i as int] == ol@[i as int]@);
        assert(b[i as int] == nl@[i as int]@);
        if ol[i] != nl[i] {
            olds.push(copy_string(&ol[i]));
            news.push(copy_string(&nl[i]));
            nums.push(i + 1);
        }
        i = i + 1;
    }
    (olds, news, nums)
}

impl FileReplacementPlan {
    /// Previews the changes on the file's current `content`: the changed
    /// lines after applying the replacements, or nothing when no line
    /// changes. `None` when the replacements cannot be applied.
    pub fn preview(&self, content: &str) -> (r: Option<Vec<PreviewResult>>)
        ensures
            r is Some <==> reverse_applicable(content@, task_edits(self.replacements@)),
            r matches Some(v) ==> {
                let a = lines_of(content@);
                let b = lines_of(apply_in_reverse(content@, task_edits(self.replacements@)));
                let ch = changed_lines(a, b, pair_count(a, b));
                &&& (ch.len() == 0 ==> v@.len() == 0)
                &&& (ch.len() > 0 ==> v@.len() == 1 && v@[0].file_path == self.file_path
                    && lists_match(
                    v@[0].original_lines@,
                    v@[0].new_lines@,
                    v@[0].line_numbers@,
                    ch,
                ))
            },
    {
        let new_content = match self.apply_in_memory(content) {
            Some(c) => c,
            None => {
                return None;
            },
        };
        let (olds, news, nums) = compare_lines(content, new_content.as_str());
        let mut results: Vec<PreviewResult> = Vec::new();
        if olds.len() > 0 {
            results.push(
                PreviewResult {
                    file_path: copy_string(&self.file_path),
                    original_lines: olds,
                    new_lines: news,
                    line_numbers: nums,
                },
            );
        }
        Some(results)
    }

    /// The old content and the new content of the file: the replacements
    /// applied to `content` range by range, as [`Self::apply_in_memory`]
    /// writes it. Every task is validated first, and the first invalid
    /// task's error is returned; a replacement range that does not lie on
    /// character boundaries of `content` is a configuration error.
    pub fn preview_old_new(&self, content: &str) -> (r: Result<(String, String), SearchError>)
        requires
            forall|i: int|
                0 <= i < self.replacements@.len() ==> task_indexable(
                    #[trigger] self.replacements@[i],
                ),
        ensures
            r is Ok <==> (forall|i: int|
                0 <= i < self.replacements@.len() ==> task_problem(
                    #[trigger] self.replacements@[i],
                ) is None) && reverse_applicable(content@, task_edits(self.replacements@)),
            r matches Ok(p) ==> p.0@ == content@ && p.1@ == apply_in_reverse(
                content@,
                task_edits(self.replacements@),
            ),
            r matches Err(e) ==> match first_task_problem(self.replacements@, 0) {
                Some(k) => reports(Err(e), task_problem(self.replacements@[k])),
                None => e matches SearchError::ConfigError(m) && m@ == unreplaceable_range_message(),
            },
    {
        let mut i: usize = 0;
        while i < self.replacements.len()
            invariant
                0 <= i <= self.replacements@.len(),
                forall|k: int|
                    0 <= k < self.replacements@.len() ==> task_indexable(
                        #[trigger] self.replacements@[k],
                    ),
                forall|k: int| 0 <= k < i ==> task_problem(#[trigger] self.replacements@[k]) is None,
                first_task_problem(self.replacements@, 0) == first_task_problem(
                    self.replacements@,
                    i as int,
                ),
            decreases self.replacements@.len() - i,
        {
            match self.replacements[i].validate() {
                Ok(()) => {},
                Err(e) => {
                    return Err(e);
                },
            }
            i = i + 1;
        }
        match self.apply_in_memory(content) {
            Some(new_content) => Ok((content.to_owned(), new_content)),
            None => Err(
                SearchError::ConfigError(
                    "Replacement range does not lie on character boundaries".to_owned(),
                ),
            ),
        }
    }
}

/// The index of the first task from `from` on that does not validate.
pub open spec fn first_task_problem(tasks: Seq<ReplacementTask>, from: int) -> Option<int>
    decreases tasks.len() - from,
{
    if from < 0 || from >= tasks.len() {
        None
    } else if task_problem(tasks[from]) is Some {
        Some(from)
    } else {
        first_task_problem(tasks, from + 1)
    }
}

/// The message for a replacement range that cannot be replaced.
pub open spec fn unreplaceable_range_message() -> Seq<char> {
    "Replacement range does not lie on character boundaries"@
}

// ---------------------------------------------------------------------------
// Planning a file from its matches, and sets of plans
// ---------------------------------------------------------------------------
/// `t` replaces `range` of `path` by `rep` with the first pattern of a
/// copy of `config`.
pub open spec fn is_task_for(t: ReplacementTask, path: Seq<char>, range: (usize, usize), rep: Seq<char>, config: ReplacementConfig) -> bool {
    &&& t.file_path@ == path
    &&& t.original_range == range
    &&& t.replacement_text@ == rep
    &&& t.pattern_index == 0
    &&& t.config.patterns@ == config.patterns@
    &&& t.config.backup_enabled == config.backup_enabled
    &&& t.config.dry_run == config.dry_run
    &&& t.config.backup_dir == config.backup_dir
    &&& t.config.preserve_metadata == config.preserve_metadata
    &&& t.config.undo_dir == config.undo_dir
}

/// What is wrong with the first pattern of `config`, as a task reports it.
pub open spec fn config_problem(config: ReplacementConfig) -> Option<Seq<char>> {
    if config.patterns@.len() == 0 {
        Some("Pattern cannot be empty"@)
    } else {
        crate::replace::pattern_problem(config.patterns@[0])
    }
}

/// Two of the ranges overlap.
pub open spec fn some_overlap(ranges: Seq<(usize, usize)>) -> bool {
    exists|i: int, j: int| 0 <= i < j < ranges.len() && ranges_overlap(#[trigger] ranges[i], #[trigger] ranges[j])
}

/// The ranges of the tasks, in order.
pub open spec fn task_ranges(tasks: Seq<ReplacementTask>) -> Seq<(usize, usize)> {
    tasks.map_values(|t: ReplacementTask| t.original_range)
}

/// The tasks' ranges are exactly the given ranges: each task is on one of
/// them and each of them has a task.
pub open spec fn covers_ranges(tasks: Seq<ReplacementTask>, ranges: Seq<(usize, usize)>) -> bool {
    &&& forall|k: int| 0 <= k < tasks.len() ==> ranges.contains(#[trigger] tasks[k].original_range)
    &&& forall|j: int| 0 <= j < ranges.len() ==> task_ranges(tasks).contains(#[trigger] ranges[j])
}

/// A task range overlapping the next range means two of the ranges
/// overlap.
proof fn lemma_overlap_found(before: Seq<ReplacementTask>, ranges: Seq<(usize, usize)>, i: int)
    requires
        0 <= i < ranges.len(),
        covers_ranges(before, ranges.take(i)),
        overlaps_any(before, ranges[i]),
    ensures
        some_overlap(ranges),
{
    let pre = ranges.take(i);
    let k = choose|k: int| 0 <= k < before.len() && ranges_overlap(ranges[i], #[trigger] before[k].original_range);
    assert(pre.contains(before[k].original_range));
    let j = choose|j: int| 0 <= j < pre.len() && pre[j] == before[k].original_range;
    assert(ranges[j] == pre[j]);
    assert(ranges_overlap(ranges[j], ranges[i]));
}

/// With no task range overlapping the next range, the ranges so far stay
/// free of overlaps.
proof fn lemma_no_overlap_extends(before: Seq<ReplacementTask>, ranges: Seq<(usize, usize)>, i: int)
    requires
        0 <= i < ranges.len(),
        covers_ranges(before, ranges.take(i)),
        !some_overlap(ranges.take(i)),
        !overlaps_any(before, ranges[i]),
    ensures
        !some_overlap(ranges.take(i + 1)),
{
    let pre = ranges.take(i);
    let pre1 = ranges.take(i + 1);
    assert forall|a: int, b: int| 0 <= a < b < pre1.len() implies !ranges_overlap(#[trigger] pre1[a], #[trigger] pre1[b]) by {
        if b == i {
            assert(pre1[a] == pre[a]);
            assert(task_ranges(before).contains(pre[a]));
            let k = choose|k: int| 0 <= k < task_ranges(before).len() && task_ranges(before)[k] == pre[a];
            assert(before[k].original_range == pre[a]);
            assert(!ranges_overlap(ranges[i], before[k].original_range));
        } else {
            assert(pre1[a] == pre[a] && pre1[b] == pre[b]);
        }
    }
}

/// Inserting the task for the next range anywhere keeps the tasks
/// covering the ranges so far.
proof fn lemma_insert_covers(before: Seq<ReplacementTask>, t: ReplacementTask, pos: int, ranges: Seq<(usize, usize)>, i: int)
    requires
        0 <= i < ranges.len(),
        0 <= pos <= before.len(),
        t.original_range == ranges[i],
        covers_ranges(before, ranges.take(i)),
    ensures
        covers_ranges(before.insert(pos, t), ranges.take(i + 1)),
{
    let after = before.insert(pos, t);
    let pre = ranges.take(i);
    let pre1 = ranges.take(i + 1);
    assert forall|k: int| 0 <= k < after.len() implies pre1.contains(#[trigger] after[k].original_range) by {
        if k < pos {
            assert(after[k] == before[k]);
            assert(pre.contains(before[k].original_range));
            let j = choose|j: int| 0 <= j < pre.len() && pre[j] == before[k].original_range;
            assert(pre1[j] == pre[j]);
        } else if k == pos {
            assert(after[k] == t);
            assert(pre1[i] == t.original_range);
        } else {
            assert(after[k] == before[k - 1]);
            assert(pre.contains(before[k - 1].original_range));
            let j = choose|j: int| 0 <= j < pre.len() && pre[j] == before[k - 1].original_range;
            assert(pre1[j] == pre[j]);
        }
    }
    assert forall|j: int| 0 <= j < pre1.len() implies task_ranges(after).contains(#[trigger] pre1[j]) by {
        if j == i {
            assert(after[pos] == t);
            assert(task_ranges(after)[pos] == pre1[j]);
        } else {
            assert(pre1[j] == pre[j]);
            assert(task_ranges(before).contains(pre[j]));
            let k = choose|k: int| 0 <= k < task_ranges(before).len() && task_ranges(before)[k] == pre[j];
            if k < pos {
                assert(after[k] == before[k]);
                assert(task_ranges(after)[k] == pre1[j]);
            } else {
                assert(after[k + 1] == before[k]);
                assert(task_ranges(after)[k + 1] == pre1[j]);
            }
        }
    }
}

/// Inserting a task for the file keeps all tasks tasks for the file.
proof fn lemma_insert_tasks_for(
    before: Seq<ReplacementTask>,
    t: ReplacementTask,
    pos: int,
    path: Seq<char>,
    rep: Seq<char>,
    config: ReplacementConfig,
)
    requires
        0 <= pos <= before.len(),
        is_task_for(t, path, t.original_range, rep, config),
        forall|k: int| 0 <= k < before.len() ==> is_task_for(#[trigger] before[k], path, before[k].original_range, rep, config),
    ensures
        forall|k: int|
            0 <= k < before.insert(pos, t).len() ==> is_task_for(
                #[trigger] before.insert(pos, t)[k],
                path,
                before.insert(pos, t)[k].original_range,
                rep,
                config,
            ),
{
    let after = before.insert(pos, t);
    assert forall|k: int| 0 <= k < after.len() implies is_task_for(#[trigger] after[k], path, after[k].original_range, rep, config) by {
        if k < pos {
            assert(after[k] == before[k]);
        } else if k > pos {
            assert(after[k] == before[k - 1]);
        }
    }
}

/// Builds the plan of `path` that replaces each of `ranges` by `rep` with
/// the first pattern of `config`, adding the tasks in order: fails as the
/// first task fails validation, or when two ranges overlap.
#[verifier::rlimit(40)]
pub fn plan_for_ranges(
    path: &String,
    ranges: &Vec<(usize, usize)>,
    rep: &String,
    config: &ReplacementConfig,
    original_len: Option<u64>,
) -> (r: Result<FileReplacementPlan, SearchError>)
    ensures
        ranges@.len() > 0 && config_problem(*config) is Some ==> (r matches Err(SearchError::InvalidPattern(m))
            && m@ == config_problem(*config)->Some_0),
        !(ranges@.len() > 0 && config_problem(*config) is Some) && some_overlap(ranges@) ==> (r matches Err(
            SearchError::ConfigError(m),
        ) && m@ == "Overlapping replacements are not allowed"@),
        !(ranges@.len() > 0 && config_problem(*config) is Some) && !some_overlap(ranges@) ==> r is Ok,
        r matches Ok(p) ==> {
            &&& p.file_path == *path
            &&& p.original_len == original_len
            &&& p.replacements@.len() == ranges@.len()
            &&& plan_ordered(p.replacements@)
            &&& covers_ranges(p.replacements@, ranges@)
            &&& forall|k: int|
                0 <= k < p.replacements@.len() ==> is_task_for(
                    #[trigger] p.replacements@[k],
                    path@,
                    p.replacements@[k].original_range,
                    rep@,
                    *config,
                )
        },
{
    let mut plan = FileReplacementPlan { file_path: copy_string(path), replacements: Vec::new(), original_len };
    let mut i: usize = 0;
    while i < ranges.len()
        invariant
            0 <= i <= ranges@.len(),
            plan.file_path == *path,
            plan.original_len == original_len,
            plan.replacements@.len() == i,
            plan_ordered(plan.replacements@),
            covers_ranges(plan.replacements@, ranges@.take(i as int)),
            !some_overlap(ranges@.take(i as int)),
            i > 0 ==> config_problem(*config) is None,
            forall|k: int|
                0 <= k < plan.replacements@.len() ==> is_task_for(
                    #[trigger] plan.replacements@[k],
                    path@,
                    plan.replacements@[k].original_range,
                    rep@,
                    *config,
                ),
        decreases ranges@.len() - i,
    {
        let range = ranges[i];
        let task = ReplacementTask::new(copy_string(path), range, copy_string(rep), 0, config.clone());
        assert(task_problem(task) == config_problem(*config));
        let ghost before = plan.replacements@;
        let ghost t = task;
        proof {
            if overlaps_any(before, range) {
                lemma_overlap_found(before, ranges@, i as int);
            } else {
                lemma_no_overlap_extends(before, ranges@, i as int);
            }
        }
        match plan.add_replacement(task) {
            Err(e) => {
                proof {
                    if i > 0 || config_problem(*config) is None {
                        assert(overlaps_any(before, range));
                    }
                }
                return Err(e);
            },
            Ok(()) => {},
        }
        proof {
            let after = plan.replacements@;
            let pos = choose|pos: int| first_at_or_after(before, t.original_range.0, pos) && after == before.insert(pos, t);
            lemma_insert_covers(before, t, pos, ranges@, i as int);
            lemma_insert_tasks_for(before, t, pos, path@, rep@, *config);
        }
        i = i + 1;
    }
    assert(ranges@.take(ranges@.len() as int) =~= ranges@);
    Ok(plan)
}

/// The plans of a replacement operation across files.
#[derive(Debug)]
pub struct ReplacementSet {
    /// The configuration for this replacement operation.
    pub config: ReplacementConfig,
    /// Plans for each file that needs modification.
    pub plans: Vec<FileReplacementPlan>,
    /// Memory usage recorded while applying the plans.
    metrics: MemoryMetrics,
}

impl ReplacementSet {
    /// The configuration of the set.
    pub closed spec fn config_spec(&self) -> ReplacementConfig {
        self.config
    }

    /// The plans of the set.
    pub closed spec fn plans_spec(&self) -> Seq<FileReplacementPlan> {
        self.plans@
    }

    /// The metrics of the set.
    pub closed spec fn metrics(&self) -> MemoryMetrics {
        self.metrics
    }

    /// Creates an empty set with the given configuration and fresh
    /// metrics.
    pub fn new(config: ReplacementConfig) -> (s: Self)
        ensures
            s.config_spec() == config,
            s.plans_spec().len() == 0,
            s.metrics()@ == MemoryMetrics::zero_stats(),
    {
        ReplacementSet { config, plans: Vec::new(), metrics: MemoryMetrics::new() }
    }

    /// Adds a file replacement plan.
    pub fn add_plan(&mut self, plan: FileReplacementPlan)
        ensures
            final(self).plans_spec() == old(self).plans_spec().push(plan),
            final(self).config_spec() == old(self).config_spec(),
            final(self).metrics() == old(self).metrics(),
    {
        self.plans.push(plan);
    }

    /// The metrics of the set.
    pub fn get_metrics(&self) -> (m: &MemoryMetrics)
        ensures
            *m == self.metrics(),
    {
        &self.metrics
    }
}

/// The name of a backup: the file's path relative to the workspace with
/// every `\\` and `/` turned into `_`, a dot, and the time.
pub open spec fn backup_name_spec(relative: Seq<char>, timestamp: u64) -> Seq<char> {
    relative.map_values(|c: char| if c == '\\' || c == '/' {
        '_'
    } else {
        c
    }) + seq!['.'] + crate::text::decimal(timestamp as nat)
}

/// Names the backup of a file (see [`backup_name_spec`]).
pub fn backup_file_name(relative: &str, timestamp: u64) -> (r: String)
    ensures
        r@ == backup_name_spec(relative@, timestamp),
{
    let cs = chars_of(relative);
    let mut out = String::new();
    let mut i: usize = 0;
    while i < cs.len()
        invariant
            0 <= i <= cs@.len(),
            cs@ == relative@,
            out@ == cs@.take(i as int).map_values(|c: char| if c == '\\' || c == '/' {
                '_'
            } else {
                c
            }),
        decreases cs@.len() - i,
    {
        let c = cs[i];
        let d = if c == '\\' || c == '/' {
            '_'
        } else {
            c
        };
        crate::text::string_push(&mut out, d);
        assert(cs@.take(i + 1) =~= cs@.take(i as int).push(c));
        assert(out@ =~= cs@.take(i + 1).map_values(|c: char| if c == '\\' || c == '/' {
            '_'
        } else {
            c
        }));
        i = i + 1;
    }
    assert(cs@.take(cs@.len() as int) =~= cs@);
    crate::text::string_push(&mut out, '.');
    let digits = crate::text::u64_to_decimal(timestamp);
    crate::text::push_text(&mut out, digits.as_str());
    out
}

/// Where a file's backup goes: the configured backup directory, or
/// `.rustscout/backups` under the workspace root; the backup is named after
/// the file's path relative to the workspace root (its whole path when it
/// lies outside) and the time (see [`backup_name_spec`]). The directory,
/// then the backup's path.
pub open spec fn backup_location_spec(
    file_path: Seq<char>,
    workspace_root: Seq<char>,
    backup_dir: Option<Seq<char>>,
    timestamp: u64,
) -> (Seq<char>, Seq<char>) {
    let dir = match backup_dir {
        Some(d) => d,
        None => joined(joined(workspace_root, ".rustscout"@), "backups"@),
    };
    let relative = match relative_to(file_path, workspace_root) {
        Some(r) => r,
        None => file_path,
    };
    (dir, joined(dir, backup_name_spec(relative, timestamp)))
}

/// Decides where a file's backup goes (see [`backup_location_spec`]).
pub fn backup_location(file_path: &str, workspace_root: &str, backup_dir: &Option<String>, timestamp: u64) -> (r: (
    String,
    String,
))
    ensures
        (r.0@, r.1@) == backup_location_spec(
            file_path@,
            workspace_root@,
            match backup_dir {
                Some(d) => Some(d@),
                None => None,
            },
            timestamp,
        ),
{
    let dir = match backup_dir {
        Some(d) => copy_string(d),
        None => {
            let hidden = join_path(workspace_root, ".rustscout");
            join_path(hidden.as_str(), "backups")
        },
    };
    let relative = match strip_prefix(file_path, workspace_root) {
        Some(r) => r,
        None => file_path.to_owned(),
    };
    let name = backup_file_name(relative.as_str(), timestamp);
    let path = join_path(dir.as_str(), name.as_str());
    (dir, path)
}

} // verus!
