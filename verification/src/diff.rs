//! Line diffs between an old and a new content, as undo hunks.
use vstd::prelude::*;

use crate::text::{
    chars_of, concat_text, decimal, line_scan, lines_of, occurs_at, push_chars, push_text,
    replace_all_literal, replace_text, replaced_from, string_from_chars, string_from_range,
    split_lines, string_push, strip_cr, successor_decimal, text_eq, usize_to_decimal, views,
    copy_string,
};
use crate::undo::{
    all_revertible, bottom_up, ends_with_newline, lemma_revert_content_restores, no_cr, records_edit,
    reverted_content, DiffHunk, FileDiff, UndoFileReference,
};

verus! {

/// The kind of a diff operation.
#[derive(Debug, Clone, Copy, PartialEq, Eq, Structural)]
pub enum DiffKind {
    Equal,
    Delete,
    Insert,
    Replace,
}

/// One diff operation over line tokens: the old range `[old_start,
/// old_end)` corresponds to the new range `[new_start, new_end)`.
#[derive(Debug, Clone, Copy, PartialEq, Eq, Structural)]
pub struct LineDiffOp {
    pub kind: DiffKind,
    pub old_start: usize,
    pub old_end: usize,
    pub new_start: usize,
    pub new_end: usize,
}

/// The groups of operations (with three lines of context) that
/// `similar::TextDiff::from_lines(old, new).grouped_ops(3)` produces.
pub uninterp spec fn line_diff_groups(old: Seq<char>, new: Seq<char>) -> Seq<Seq<LineDiffOp>>;

/// The grouped line diff operations between `old` and `new`.
///
/// Trusted: calls `similar::TextDiff::from_lines` and `grouped_ops(3)`,
/// and converts each `similar::DiffOp` through `as_tag_tuple` into its tag
/// and its old and new ranges; the result is named by `line_diff_groups`.
/// The operations that `similar` captures for the line tokens of the two
/// texts (split after each `\n`, `\r\n` or lone `\r`) cover both token
/// lists in order, and `Equal` ranges hold equal tokens; a deletion has an
/// empty new range and an insertion an empty old range. Grouping only cuts
/// away parts of `Equal` runs and never leaves a group empty. So the
/// operations that change something, taken in order, form an edit script
/// of the old tokens into the new ones (see [`edit_script`]), every range
/// lies within the token lists, and within a group each operation starts
/// where the one before it ends (see [`groups_well_formed`]).
#[verifier::external_body]
fn diff_line_groups(old: &str, new: &str) -> (r: Vec<Vec<LineDiffOp>>)
    ensures
        r@.map_values(|g: Vec<LineDiffOp>| g@) == line_diff_groups(old@, new@),
        groups_well_formed(
            r@.map_values(|g: Vec<LineDiffOp>| g@),
            line_tokens(old@).len() as int,
            line_tokens(new@).len() as int,
        ),
        edit_script(
            line_tokens(old@),
            line_tokens(new@),
            change_ops(flatten_groups(r@.map_values(|g: Vec<LineDiffOp>| g@))),
        ),
{
    let mut groups = Vec::new();
    for group in similar::TextDiff::from_lines(old, new).grouped_ops(3) {
        let mut ops = Vec::new();
        for op in group {
            let (tag, o, n) = op.as_tag_tuple();
            let kind = match tag { similar::DiffTag::Equal => DiffKind::Equal, similar::DiffTag::Delete => DiffKind::Delete,
                similar::DiffTag::Insert => DiffKind::Insert, similar::DiffTag::Replace => DiffKind::Replace };
            ops.push(LineDiffOp { kind, old_start: o.start, old_end: o.end, new_start: n.start, new_end: n.end });
        }
        groups.push(ops);
    }
    groups
}

// ---------------------------------------------------------------------------
// Line tokens
// ---------------------------------------------------------------------------
/// Scanning for line tokens: each token ends with its terminator (`\n`,
/// `\r\n`, or a `\r` not followed by `\n`).
pub open spec fn token_scan(s: Seq<char>) -> (Seq<Seq<char>>, Seq<char>)
    decreases s.len(),
{
    if s.len() == 0 {
        (seq![], seq![])
    } else {
        let prev = token_scan(s.drop_last());
        let c = s.last();
        if c == '\n' {
            (prev.0.push(prev.1.push(c)), seq![])
        } else if prev.1.len() > 0 && prev.1.last() == '\r' {
            (prev.0.push(prev.1), seq![c])
        } else {
            (prev.0, prev.1.push(c))
        }
    }
}

/// The line tokens of `s` as the line differ sees them: lines with their
/// terminators, the last one possibly without.
pub open spec fn line_tokens(s: Seq<char>) -> Seq<Seq<char>> {
    let sc = token_scan(s);
    if sc.1.len() > 0 {
        sc.0.push(sc.1)
    } else {
        sc.0
    }
}

/// Splits text into line tokens (see [`line_tokens`]).
pub fn tokenize_lines(t: &[char]) -> (r: Vec<Vec<char>>)
    ensures
        r@.map_values(|v: Vec<char>| v@) == line_tokens(t@),
{
    let mut done: Vec<Vec<char>> = Vec::new();
    let mut cur: Vec<char> = Vec::new();
    let mut i: usize = 0;
    assert(t@.take(0) =~= Seq::<char>::empty());
    assert(done@.map_values(|v: Vec<char>| v@) =~= Seq::<Seq<char>>::empty());
    while i < t.len()
        invariant
            0 <= i <= t@.len(),
            (done@.map_values(|v: Vec<char>| v@), cur@) == token_scan(t@.take(i as int)),
        decreases t@.len() - i,
    {
        let c = t[i];
        assert(t@.take(i + 1).drop_last() =~= t@.take(i as int));
        assert(t@.take(i + 1).last() == c);
        let ghost d0 = done@;
        let ghost c0 = cur@;
        if c == '\n' {
            cur.push(c);
            done.push(cur);
            cur = Vec::new();
            assert(done@.map_values(|v: Vec<char>| v@) =~= d0.map_values(|v: Vec<char>| v@).push(
                c0.push(c),
            ));
        } else if cur.len() > 0 && cur[cur.len() - 1] == '\r' {
            done.push(cur);
            cur = Vec::new();
            cur.push(c);
            assert(done@.map_values(|v: Vec<char>| v@) =~= d0.map_values(|v: Vec<char>| v@).push(
                c0,
            ));
            assert(cur@ =~= seq![c]);
        } else {
            cur.push(c);
        }
        i = i + 1;
    }
    assert(t@.take(t@.len() as int) =~= t@);
    if cur.len() > 0 {
        let ghost d0 = done@;
        let ghost c0 = cur@;
        done.push(cur);
        assert(done@.map_values(|v: Vec<char>| v@) =~= d0.map_values(|v: Vec<char>| v@).push(c0));
    }
    done
}

// ---------------------------------------------------------------------------
// Hunks
// ---------------------------------------------------------------------------
/// The operations of all groups, in order.
pub open spec fn flatten_groups(groups: Seq<Seq<LineDiffOp>>) -> Seq<LineDiffOp>
    decreases groups.len(),
{
    if groups.len() == 0 {
        seq![]
    } else {
        flatten_groups(groups.drop_last()) + groups.last()
    }
}

/// The operations that change something, in order.
pub open spec fn change_ops(ops: Seq<LineDiffOp>) -> Seq<LineDiffOp>
    decreases ops.len(),
{
    if ops.len() == 0 {
        seq![]
    } else if ops.last().kind == DiffKind::Equal {
        change_ops(ops.drop_last())
    } else {
        change_ops(ops.drop_last()).push(ops.last())
    }
}

/// `ch`, the operations of a diff that change something, in order, turn
/// the tokens `ot` into the tokens `nt`: after the last one the tokens of
/// both are the same, it replaces its old range by its new range (an
/// empty new range for a deletion, an empty old range for an insertion),
/// and the ones before it turn the tokens before its old range into the
/// tokens before its new range.
pub open spec fn edit_script(ot: Seq<Seq<char>>, nt: Seq<Seq<char>>, ch: Seq<LineDiffOp>) -> bool
    decreases ch.len(),
{
    if ch.len() == 0 {
        ot == nt
    } else {
        let c = ch.last();
        &&& c.kind != DiffKind::Equal
        &&& c.old_start <= c.old_end <= ot.len()
        &&& c.new_start <= c.new_end <= nt.len()
        &&& (c.kind == DiffKind::Delete ==> c.new_start == c.new_end)
        &&& (c.kind == DiffKind::Insert ==> c.old_start == c.old_end)
        &&& ot.skip(c.old_end as int) == nt.skip(c.new_end as int)
        &&& edit_script(ot.take(c.old_start as int), nt.take(c.new_start as int), ch.drop_last())
    }
}

/// Groups of diff operations as `similar` groups them: no group is empty,
/// every range is ordered and lies within `old_count` old and `new_count`
/// new tokens, and within a group each operation starts, in both texts,
/// where the one before it ends.
pub open spec fn groups_well_formed(groups: Seq<Seq<LineDiffOp>>, old_count: int, new_count: int) -> bool {
    forall|i: int| 0 <= i < groups.len() ==> group_well_formed(#[trigger] groups[i], old_count, new_count)
}

/// Every operation starts below `usize::MAX` in both texts, so that its
/// 1-based start lines can be formed.
pub open spec fn starts_below_max(groups: Seq<Seq<LineDiffOp>>) -> bool {
    forall|i: int, j: int|
        0 <= i < groups.len() && 0 <= j < groups[i].len() ==> (#[trigger] groups[i][j]).old_start
            < usize::MAX && groups[i][j].new_start < usize::MAX
}

/// One group of diff operations as `similar` groups them (see
/// [`groups_well_formed`]).
pub open spec fn group_well_formed(g: Seq<LineDiffOp>, old_count: int, new_count: int) -> bool {
    &&& g.len() > 0
    &&& forall|j: int| 0 <= j < g.len() ==> op_within(#[trigger] g[j], old_count, new_count)
    &&& forall|j: int| 0 <= j < g.len() - 1 ==> #[trigger] chained_at(g, j)
}

/// The operation's ranges are ordered and lie within the token counts.
pub open spec fn op_within(op: LineDiffOp, old_count: int, new_count: int) -> bool {
    &&& op.old_start <= op.old_end <= old_count
    &&& op.new_start <= op.new_end <= new_count
}

/// Operation `j + 1` of the group starts where operation `j` ends.
pub open spec fn chained_at(g: Seq<LineDiffOp>, j: int) -> bool {
    g[j].old_end == g[j + 1].old_start && g[j].new_end == g[j + 1].new_start
}

/// The text of a line token: the token without its final `\n`.
pub open spec fn line_text(t: Seq<char>) -> Seq<char> {
    if t.len() > 0 && t.last() == '\n' {
        t.drop_last()
    } else {
        t
    }
}

/// The texts of the tokens `[from, to)` (see [`line_text`]).
pub open spec fn trimmed(tokens: Seq<Seq<char>>, from: int, to: int) -> Seq<Seq<char>> {
    tokens.subrange(from, to).map_values(|t: Seq<char>| line_text(t))
}

/// The view of a hunk: original start, new start, original count, new
/// count, original lines, new lines.
pub open spec fn hunk_view(h: DiffHunk) -> (usize, usize, usize, usize, Seq<Seq<char>>, Seq<Seq<char>>) {
    (
        h.original_start_line,
        h.new_start_line,
        h.original_line_count,
        h.new_line_count,
        views(h.original_lines@),
        views(h.new_lines@),
    )
}

/// The hunk an operation that is not `Equal` records: an insertion is
/// anchored at its new position in both texts, a deletion at its old
/// position in the old text and at its new position in the new one;
/// starts are 1-based, lines are recorded without their newline.
pub open spec fn op_hunk(op: LineDiffOp, ot: Seq<Seq<char>>, nt: Seq<Seq<char>>) -> (
    usize,
    usize,
    usize,
    usize,
    Seq<Seq<char>>,
    Seq<Seq<char>>,
) {
    let old_len = (op.old_end - op.old_start) as usize;
    let new_len = (op.new_end - op.new_start) as usize;
    match op.kind {
        DiffKind::Insert => (
            (op.new_start + 1) as usize,
            (op.new_start + 1) as usize,
            0,
            new_len,
            seq![],
            trimmed(nt, op.new_start as int, op.new_end as int),
        ),
        DiffKind::Delete => (
            (op.old_start + 1) as usize,
            (op.new_start + 1) as usize,
            old_len,
            0,
            trimmed(ot, op.old_start as int, op.old_end as int),
            seq![],
        ),
        _ => (
            (op.old_start + 1) as usize,
            (op.new_start + 1) as usize,
            old_len,
            new_len,
            trimmed(ot, op.old_start as int, op.old_end as int),
            trimmed(nt, op.new_start as int, op.new_end as int),
        ),
    }
}

/// The hunks recorded for a list of operations: one per operation that is
/// not `Equal`, in order.
pub open spec fn ops_hunks(ops: Seq<LineDiffOp>, ot: Seq<Seq<char>>, nt: Seq<Seq<char>>) -> Seq<
    (usize, usize, usize, usize, Seq<Seq<char>>, Seq<Seq<char>>),
>
    decreases ops.len(),
{
    if ops.len() == 0 {
        seq![]
    } else if ops.last().kind == DiffKind::Equal {
        ops_hunks(ops.drop_last(), ot, nt)
    } else {
        ops_hunks(ops.drop_last(), ot, nt).push(op_hunk(ops.last(), ot, nt))
    }
}

/// The operation's ranges lie within the token lists, and its starts can
/// be made 1-based.
pub open spec fn op_in_bounds(op: LineDiffOp, old_count: int, new_count: int) -> bool {
    &&& op.old_start <= op.old_end <= old_count
    &&& op.new_start <= op.new_end <= new_count
    &&& op.old_start < usize::MAX
    &&& op.new_start < usize::MAX
}

/// Every operation of every group is in bounds.
pub open spec fn groups_in_bounds(groups: Seq<Seq<LineDiffOp>>, old_count: int, new_count: int) -> bool {
    forall|i: int, j: int|
        0 <= i < groups.len() && 0 <= j < groups[i].len() ==> op_in_bounds(
            #[trigger] groups[i][j],
            old_count,
            new_count,
        )
}

fn trimmed_lines(tokens: &Vec<Vec<char>>, from: usize, to: usize) -> (r: Vec<String>)
    requires
        from <= to <= tokens@.len(),
    ensures
        views(r@) == trimmed(tokens@.map_values(|v: Vec<char>| v@), from as int, to as int),
{
    let ghost tv = tokens@.map_values(|v: Vec<char>| v@);
    let mut r: Vec<String> = Vec::new();
    let mut i: usize = from;
    while i < to
        invariant
            from <= i <= to <= tokens@.len(),
            tv == tokens@.map_values(|v: Vec<char>| v@),
            views(r@) == trimmed(tv, from as int, i as int),
        decreases to - i,
    {
        let tok = tokens[i].as_slice();
        let n = tok.len();
        let line = if n > 0 && tok[n - 1] == '\n' {
            string_from_range(tok, 0, n - 1)
        } else {
            string_from_range(tok, 0, n)
        };
        proof {
            assert(tok@.subrange(0, n as int) =~= tok@);
            if n > 0 {
                assert(tok@.subrange(0, n - 1) =~= tok@.drop_last());
            }
        }
        let ghost r0 = r@;
        r.push(line);
        assert(views(r@) =~= views(r0).push(line_text(tv[i as int])));
        assert(trimmed(tv, from as int, i + 1) =~= trimmed(tv, from as int, i as int).push(
            line_text(tv[i as int]),
        ));
        i = i + 1;
    }
    r
}

fn hunk_for(op: LineDiffOp, ot: &Vec<Vec<char>>, nt: &Vec<Vec<char>>) -> (h: DiffHunk)
    requires
        op.kind != DiffKind::Equal,
        op_in_bounds(op, ot@.len() as int, nt@.len() as int),
    ensures
        hunk_view(h) == op_hunk(
            op,
            ot@.map_values(|v: Vec<char>| v@),
            nt@.map_values(|v: Vec<char>| v@),
        ),
{
    let old_len = op.old_end - op.old_start;
    let new_len = op.new_end - op.new_start;
    match op.kind {
        DiffKind::Insert => {
            let nl = trimmed_lines(nt, op.new_start, op.new_end);
            let h = DiffHunk {
                original_start_line: op.new_start + 1,
                new_start_line: op.new_start + 1,
                original_line_count: 0,
                new_line_count: new_len,
                original_lines: Vec::new(),
                new_lines: nl,
            };
            assert(views(h.original_lines@) =~= Seq::<Seq<char>>::empty());
            h
        },
        DiffKind::Delete => {
            let ol = trimmed_lines(ot, op.old_start, op.old_end);
            let h = DiffHunk {
                original_start_line: op.old_start + 1,
                new_start_line: op.new_start + 1,
                original_line_count: old_len,
                new_line_count: 0,
                original_lines: ol,
                new_lines: Vec::new(),
            };
            assert(views(h.new_lines@) =~= Seq::<Seq<char>>::empty());
            h
        },
        _ => {
            let ol = trimmed_lines(ot, op.old_start, op.old_end);
            let nl = trimmed_lines(nt, op.new_start, op.new_end);
            DiffHunk {
                original_start_line: op.old_start + 1,
                new_start_line: op.new_start + 1,
                original_line_count: old_len,
                new_line_count: new_len,
                original_lines: ol,
                new_lines: nl,
            }
        },
    }
}

/// Builds the hunks of the operations of `groups` over the given line
/// tokens (see [`ops_hunks`]).
pub fn hunks_from_groups(
    groups: &Vec<Vec<LineDiffOp>>,
    ot: &Vec<Vec<char>>,
    nt: &Vec<Vec<char>>,
) -> (r: Vec<DiffHunk>)
    requires
        groups_in_bounds(
            groups@.map_values(|g: Vec<LineDiffOp>| g@),
            ot@.len() as int,
            nt@.len() as int,
        ),
    ensures
        r@.map_values(|h: DiffHunk| hunk_view(h)) == ops_hunks(
            flatten_groups(groups@.map_values(|g: Vec<LineDiffOp>| g@)),
            ot@.map_values(|v: Vec<char>| v@),
            nt@.map_values(|v: Vec<char>| v@),
        ),
{
    let ghost gs = groups@.map_values(|g: Vec<LineDiffOp>| g@);
    let ghost otv = ot@.map_values(|v: Vec<char>| v@);
    let ghost ntv = nt@.map_values(|v: Vec<char>| v@);
    let mut r: Vec<DiffHunk> = Vec::new();
    let mut gi: usize = 0;
    assert(gs.take(0) =~= Seq::<Seq<LineDiffOp>>::empty());
    assert(r@.map_values(|h: DiffHunk| hunk_view(h)) =~= Seq::<
        (usize, usize, usize, usize, Seq<Seq<char>>, Seq<Seq<char>>),
    >::empty());
    while gi < groups.len()
        invariant
            0 <= gi <= groups@.len(),
            gs == groups@.map_values(|g: Vec<LineDiffOp>| g@),
            otv == ot@.map_values(|v: Vec<char>| v@),
            ntv == nt@.map_values(|v: Vec<char>| v@),
            groups_in_bounds(gs, ot@.len() as int, nt@.len() as int),
            r@.map_values(|h: DiffHunk| hunk_view(h)) == ops_hunks(
                flatten_groups(gs.take(gi as int)),
                otv,
                ntv,
            ),
        decreases groups@.len() - gi,
    {
        let group = &groups[gi];
        let ghost base = flatten_groups(gs.take(gi as int));
        assert(gs.take(gi + 1).drop_last() =~= gs.take(gi as int));
        assert(gs.take(gi + 1).last() == group@);
        let mut oi: usize = 0;
        assert(base + group@.take(0) =~= base);
        while oi < group.len()
            invariant
                0 <= oi <= group@.len(),
                gi < groups@.len(),
                group@ == gs[gi as int],
                gs == groups@.map_values(|g: Vec<LineDiffOp>| g@),
                otv == ot@.map_values(|v: Vec<char>| v@),
                ntv == nt@.map_values(|v: Vec<char>| v@),
                groups_in_bounds(gs, ot@.len() as int, nt@.len() as int),
                r@.map_values(|h: DiffHunk| hunk_view(h)) == ops_hunks(
                    base + group@.take(oi as int),
                    otv,
                    ntv,
                ),
            decreases group@.len() - oi,
        {
            let op = group[oi];
            let ghost ops = base + group@.take(oi + 1);
            assert(ops.drop_last() =~= base + group@.take(oi as int));
            assert(ops.last() == op);
            if op.kind != DiffKind::Equal {
                assert(op_in_bounds(gs[gi as int][oi as int], ot@.len() as int, nt@.len() as int));
                let h = hunk_for(op, ot, nt);
                let ghost r0 = r@;
                r.push(h);
                assert(r@.map_values(|h: DiffHunk| hunk_view(h)) =~= r0.map_values(
                    |h: DiffHunk| hunk_view(h),
                ).push(hunk_view(h)));
            }
            oi = oi + 1;
        }
        assert(group@.take(group@.len() as int) =~= group@);
        proof {
            lemma_flatten_step(gs, gi as int);
        }
        gi = gi + 1;
    }
    assert(gs.take(groups@.len() as int) =~= gs);
    r
}

proof fn lemma_flatten_step(gs: Seq<Seq<LineDiffOp>>, gi: int)
    requires
        0 <= gi < gs.len(),
    ensures
        flatten_groups(gs.take(gi + 1)) == flatten_groups(gs.take(gi)) + gs[gi],
{
    assert(gs.take(gi + 1).drop_last() =~= gs.take(gi));
}

/// Line endings normalized: every `\r\n` replaced by `\n`.
pub open spec fn normalized(s: Seq<char>) -> Seq<char> {
    replace_all_literal(s, "\r\n"@, "\n"@)
}

/// The hunks of the line diff between `old` and `new` (line endings
/// normalized), as undo records them.
pub open spec fn diff_hunks(old: Seq<char>, new: Seq<char>) -> Seq<
    (usize, usize, usize, usize, Seq<Seq<char>>, Seq<Seq<char>>),
> {
    let o = normalized(old);
    let n = normalized(new);
    ops_hunks(flatten_groups(line_diff_groups(o, n)), line_tokens(o), line_tokens(n))
}

// ---------------------------------------------------------------------------
// Unified diffs
// ---------------------------------------------------------------------------
/// The old line a group's header starts at (0-based): that of its first
/// operation, or 0 when the group begins with an insertion.
pub open spec fn group_old_start(g: Seq<LineDiffOp>) -> int {
    if g[0].kind == DiffKind::Insert {
        0
    } else {
        g[0].old_start as int
    }
}

/// The new line a group's header starts at (0-based): that of its first
/// operation, or 0 when the group begins with a deletion.
pub open spec fn group_new_start(g: Seq<LineDiffOp>) -> int {
    if g[0].kind == DiffKind::Delete {
        0
    } else {
        g[0].new_start as int
    }
}

/// The number of old lines a group covers: the old lengths of its
/// operations added up.
pub open spec fn group_old_count(g: Seq<LineDiffOp>) -> int
    decreases g.len(),
{
    if g.len() == 0 {
        0
    } else {
        group_old_count(g.drop_last()) + g.last().old_end - g.last().old_start
    }
}

/// The number of new lines a group covers: the new lengths of its
/// operations added up.
pub open spec fn group_new_count(g: Seq<LineDiffOp>) -> int
    decreases g.len(),
{
    if g.len() == 0 {
        0
    } else {
        group_new_count(g.drop_last()) + g.last().new_end - g.last().new_start
    }
}

/// The header line of a group: `@@ -{old start + 1},{old count}
/// +{new start + 1},{new count} @@`.
pub open spec fn hunk_header(g: Seq<LineDiffOp>) -> Seq<char> {
    "@@ -"@ + decimal((group_old_start(g) + 1) as nat) + ","@ + decimal(group_old_count(g) as nat)
        + " +"@ + decimal((group_new_start(g) + 1) as nat) + ","@ + decimal(
        group_new_count(g) as nat,
    ) + " @@\n"@
}

/// Each token of `tokens[from..to]` after `prefix`.
pub open spec fn prefixed(tokens: Seq<Seq<char>>, from: int, to: int, prefix: char) -> Seq<Seq<char>> {
    tokens.subrange(from, to).map_values(|t: Seq<char>| seq![prefix] + t)
}

/// The printed changes of one operation: its old tokens after a space when
/// it keeps them, after `-` when it removes them, and its new tokens after
/// `+` when it adds them (a replacement removes, then adds).
pub open spec fn op_lines(op: LineDiffOp, ot: Seq<Seq<char>>, nt: Seq<Seq<char>>) -> Seq<Seq<char>> {
    let olds = |p: char| prefixed(ot, op.old_start as int, op.old_end as int, p);
    let news = prefixed(nt, op.new_start as int, op.new_end as int, '+');
    match op.kind {
        DiffKind::Equal => olds(' '),
        DiffKind::Delete => olds('-'),
        DiffKind::Insert => news,
        DiffKind::Replace => olds('-') + news,
    }
}

/// The printed changes of a group's operations, in order.
pub open spec fn group_lines(g: Seq<LineDiffOp>, ot: Seq<Seq<char>>, nt: Seq<Seq<char>>) -> Seq<Seq<char>>
    decreases g.len(),
{
    if g.len() == 0 {
        seq![]
    } else {
        group_lines(g.drop_last(), ot, nt) + op_lines(g.last(), ot, nt)
    }
}

/// The unified diff of the line tokens `ot` and `nt` for the file `path`,
/// as the pieces printed one after the other: the `---` and `+++` lines,
/// then for each group its header and its changes.
pub open spec fn unified_diff_spec(
    path: Seq<char>,
    ot: Seq<Seq<char>>,
    nt: Seq<Seq<char>>,
    groups: Seq<Seq<LineDiffOp>>,
) -> Seq<Seq<char>>
    decreases groups.len(),
{
    if groups.len() == 0 {
        seq!["--- "@ + path + "\n"@, "+++ "@ + path + "\n"@]
    } else {
        unified_diff_spec(path, ot, nt, groups.drop_last()) + seq![hunk_header(groups.last())]
            + group_lines(groups.last(), ot, nt)
    }
}

fn push_prefixed(out: &mut Vec<String>, tokens: &Vec<Vec<char>>, from: usize, to: usize, prefix: char)
    requires
        from <= to <= tokens@.len(),
    ensures
        views(final(out)@) == views(old(out)@) + prefixed(
            tokens@.map_values(|v: Vec<char>| v@),
            from as int,
            to as int,
            prefix,
        ),
{
    let ghost tv = tokens@.map_values(|v: Vec<char>| v@);
    let mut i: usize = from;
    assert(prefixed(tv, from as int, from as int, prefix) =~= Seq::<Seq<char>>::empty());
    assert(views(out@) =~= views(old(out)@) + Seq::<Seq<char>>::empty());
    while i < to
        invariant
            from <= i <= to <= tokens@.len(),
            tv == tokens@.map_values(|v: Vec<char>| v@),
            views(out@) == views(old(out)@) + prefixed(tv, from as int, i as int, prefix),
        decreases to - i,
    {
        let mut line = String::new();
        string_push(&mut line, prefix);
        push_chars(&mut line, tokens[i].as_slice());
        let ghost o0 = out@;
        out.push(line);
        assert(views(out@) =~= views(o0).push(seq![prefix] + tv[i as int]));
        assert(prefixed(tv, from as int, i + 1, prefix) =~= prefixed(tv, from as int, i as int, prefix).push(
            seq![prefix] + tv[i as int],
        ));
        i = i + 1;
    }
}

fn group_header(g: &Vec<LineDiffOp>, old_count: usize, new_count: usize) -> (r: String)
    requires
        group_well_formed(g@, old_count as int, new_count as int),
    ensures
        r@ == hunk_header(g@),
{
    let mut olds: usize = 0;
    let mut news: usize = 0;
    let mut i: usize = 0;
    assert(g@.take(0) =~= Seq::<LineDiffOp>::empty());
    while i < g.len()
        invariant
            0 <= i <= g@.len(),
            group_well_formed(g@, old_count as int, new_count as int),
            olds == group_old_count(g@.take(i as int)),
            news == group_new_count(g@.take(i as int)),
            i > 0 ==> olds == g@[i - 1].old_end - g@[0].old_start,
            i > 0 ==> news == g@[i - 1].new_end - g@[0].new_start,
        decreases g@.len() - i,
    {
        let op = g[i];
        proof {
            assert(g@.take(i + 1).drop_last() =~= g@.take(i as int));
            assert(g@.take(i + 1).last() == op);
            assert(op_within(g@[i as int], old_count as int, new_count as int));
            if i > 0 {
                assert(chained_at(g@, i - 1));
            }
        }
        olds = olds + (op.old_end - op.old_start);
        news = news + (op.new_end - op.new_start);
        i = i + 1;
    }
    assert(g@.take(g@.len() as int) =~= g@);
    let first = g[0];
    let os: usize = if first.kind == DiffKind::Insert {
        0
    } else {
        first.old_start
    };
    let ns: usize = if first.kind == DiffKind::Delete {
        0
    } else {
        first.new_start
    };
    let mut r = String::new();
    push_text(&mut r, "@@ -");
    push_text(&mut r, successor_decimal(os).as_str());
    push_text(&mut r, ",");
    push_text(&mut r, usize_to_decimal(olds).as_str());
    push_text(&mut r, " +");
    push_text(&mut r, successor_decimal(ns).as_str());
    push_text(&mut r, ",");
    push_text(&mut r, usize_to_decimal(news).as_str());
    push_text(&mut r, " @@\n");
    r
}

/// The unified diff of `old` and `new` for the file `path`, with three
/// lines of context (see [`unified_diff_spec`]): the pieces to print, one
/// after the other.
#[verifier::rlimit(40)]
pub fn unified_diff_lines(path: &str, old: &str, new: &str) -> (r: Vec<String>)
    ensures
        views(r@) == unified_diff_spec(path@, line_tokens(old@), line_tokens(new@), line_diff_groups(old@, new@)),
{
    let groups = diff_line_groups(old, new);
    let oc = chars_of(old);
    let nc = chars_of(new);
    let ot = tokenize_lines(&oc);
    let nt = tokenize_lines(&nc);
    let ghost gs = groups@.map_values(|g: Vec<LineDiffOp>| g@);
    let ghost otv = ot@.map_values(|v: Vec<char>| v@);
    let ghost ntv = nt@.map_values(|v: Vec<char>| v@);
    assert(otv.len() == ot@.len() && ntv.len() == nt@.len());
    assert(otv == line_tokens(old@) && ntv == line_tokens(new@));
    assert(groups_well_formed(gs, ot@.len() as int, nt@.len() as int));
    let mut out: Vec<String> = Vec::new();
    let h1 = concat_text("--- ", path);
    let h1 = concat_text(h1.as_str(), "\n");
    let h2 = concat_text("+++ ", path);
    let h2 = concat_text(h2.as_str(), "\n");
    out.push(h1);
    out.push(h2);
    let mut gi: usize = 0;
    assert(gs.take(0) =~= Seq::<Seq<LineDiffOp>>::empty());
    assert(views(out@) =~= unified_diff_spec(path@, otv, ntv, gs.take(0)));
    while gi < groups.len()
        invariant
            0 <= gi <= groups@.len(),
            gs == groups@.map_values(|g: Vec<LineDiffOp>| g@),
            otv == ot@.map_values(|v: Vec<char>| v@),
            ntv == nt@.map_values(|v: Vec<char>| v@),
            otv.len() == ot@.len(),
            ntv.len() == nt@.len(),
            groups_well_formed(gs, ot@.len() as int, nt@.len() as int),
            views(out@) == unified_diff_spec(path@, otv, ntv, gs.take(gi as int)),
        decreases groups@.len() - gi,
    {
        let group = &groups[gi];
        proof {
            assert(gs[gi as int] == group@);
            assert(group_well_formed(gs[gi as int], ot@.len() as int, nt@.len() as int));
        }
        let header = group_header(group, ot.len(), nt.len());
        let ghost base = views(out@);
        out.push(header);
        assert(views(out@) =~= base + seq![hunk_header(group@)]);
        let ghost with_header = views(out@);
        let mut oi: usize = 0;
        assert(group@.take(0) =~= Seq::<LineDiffOp>::empty());
        assert(views(out@) =~= with_header + group_lines(group@.take(0), otv, ntv));
        while oi < group.len()
            invariant
                0 <= oi <= group@.len(),
                group_well_formed(group@, ot@.len() as int, nt@.len() as int),
                otv == ot@.map_values(|v: Vec<char>| v@),
                ntv == nt@.map_values(|v: Vec<char>| v@),
                views(out@) == with_header + group_lines(group@.take(oi as int), otv, ntv),
            decreases group@.len() - oi,
        {
            let op = group[oi];
            assert(op_within(group@[oi as int], ot@.len() as int, nt@.len() as int));
            assert(group@.take(oi + 1).drop_last() =~= group@.take(oi as int));
            assert(group@.take(oi + 1).last() == op);
            let ghost before = views(out@);
            match op.kind {
                DiffKind::Equal => push_prefixed(&mut out, &ot, op.old_start, op.old_end, ' '),
                DiffKind::Delete => push_prefixed(&mut out, &ot, op.old_start, op.old_end, '-'),
                DiffKind::Insert => push_prefixed(&mut out, &nt, op.new_start, op.new_end, '+'),
                DiffKind::Replace => {
                    push_prefixed(&mut out, &ot, op.old_start, op.old_end, '-');
                    push_prefixed(&mut out, &nt, op.new_start, op.new_end, '+');
                },
            }
            assert(views(out@) =~= before + op_lines(op, otv, ntv));
            oi = oi + 1;
        }
        assert(group@.take(group@.len() as int) =~= group@);
        assert(gs.take(gi + 1).drop_last() =~= gs.take(gi as int));
        assert(gs.take(gi + 1).last() == group@);
        gi = gi + 1;
    }
    assert(gs.take(groups@.len() as int) =~= gs);
    out
}

// ---------------------------------------------------------------------------
// Side-by-side diffs
// ---------------------------------------------------------------------------
/// Line `i` of `lines`, or the empty line past the end.
pub open spec fn line_or_empty(lines: Seq<Seq<char>>, i: int) -> Seq<char> {
    if 0 <= i < lines.len() {
        lines[i]
    } else {
        seq![]
    }
}

/// The lines that differ among the first `n` line numbers of `a` and `b`,
/// a missing line counting as empty: the 1-based line number, the old line
/// and the new line, in order.
pub open spec fn side_by_side_spec(a: Seq<Seq<char>>, b: Seq<Seq<char>>, n: int) -> Seq<
    (int, Seq<char>, Seq<char>),
>
    decreases n,
{
    if n <= 0 {
        seq![]
    } else {
        let prev = side_by_side_spec(a, b, n - 1);
        if line_or_empty(a, n - 1) != line_or_empty(b, n - 1) {
            prev.push((n, line_or_empty(a, n - 1), line_or_empty(b, n - 1)))
        } else {
            prev
        }
    }
}

/// The view of a side-by-side entry.
pub open spec fn side_entry_view(e: (usize, String, String)) -> (int, Seq<char>, Seq<char>) {
    (e.0 as int, e.1@, e.2@)
}

/// The lines of `old` and `new` (as `str::lines` splits them) that differ,
/// line by line up to the longer of the two, a missing line counting as
/// empty: each with its 1-based line number.
pub fn side_by_side_lines(old: &str, new: &str) -> (r: Vec<(usize, String, String)>)
    ensures
        r@.map_values(|e: (usize, String, String)| side_entry_view(e)) == side_by_side_spec(
            lines_of(old@),
            lines_of(new@),
            if lines_of(old@).len() < lines_of(new@).len() {
                lines_of(new@).len() as int
            } else {
                lines_of(old@).len() as int
            },
        ),
{
    let oc = chars_of(old);
    let nc = chars_of(new);
    let a = split_lines(&oc);
    let b = split_lines(&nc);
    let ghost av = views(a@);
    let ghost bv = views(b@);
    let n = if a.len() < b.len() {
        b.len()
    } else {
        a.len()
    };
    let mut r: Vec<(usize, String, String)> = Vec::new();
    let mut i: usize = 0;
    while i < n
        invariant
            0 <= i <= n,
            n == if a@.len() < b@.len() {
                b@.len()
            } else {
                a@.len()
            },
            av == views(a@),
            bv == views(b@),
            r@.map_values(|e: (usize, String, String)| side_entry_view(e)) == side_by_side_spec(
                av,
                bv,
                i as int,
            ),
        decreases n - i,
    {
        let x = if i < a.len() {
            copy_string(&a[i])
        } else {
            String::new()
        };
        let y = if i < b.len() {
            copy_string(&b[i])
        } else {
            String::new()
        };
        assert(x@ == line_or_empty(av, i as int));
        assert(y@ == line_or_empty(bv, i as int));
        if !text_eq(x.as_str(), y.as_str()) {
            let ghost r0 = r@;
            r.push((i + 1, x, y));
            assert(r@.map_values(|e: (usize, String, String)| side_entry_view(e)) =~= r0.map_values(
                |e: (usize, String, String)| side_entry_view(e),
            ).push((i + 1, line_or_empty(av, i as int), line_or_empty(bv, i as int))));
        }
        i = i + 1;
    }
    r
}

// ---------------------------------------------------------------------------
// Reverting a diff
// ---------------------------------------------------------------------------
/// The texts of the line tokens of `s`.
pub open spec fn token_texts(s: Seq<char>) -> Seq<Seq<char>> {
    line_tokens(s).map_values(|t: Seq<char>| line_text(t))
}

/// Without carriage returns, tokens and lines are scanned alike: the same
/// line in progress, and each finished token is its line and a newline.
proof fn lemma_token_scan_lines(s: Seq<char>)
    requires
        no_cr(s),
    ensures
        token_scan(s).1 == line_scan(s).1,
        token_scan(s).0.map_values(|t: Seq<char>| line_text(t)) == line_scan(s).0,
        token_scan(s).1.len() > 0 ==> token_scan(s).1.last() == s.last(),
    decreases s.len(),
{
    if s.len() > 0 {
        let d = s.drop_last();
        assert(no_cr(d));
        lemma_token_scan_lines(d);
        let p = token_scan(d);
        let l = line_scan(d);
        let c = s.last();
        assert(c != '\r');
        if p.1.len() > 0 {
            assert(p.1.last() == d.last());
            assert(d.last() == s[s.len() - 2]);
        }
        if c == '\n' {
            assert(strip_cr(l.1) == l.1);
            let tok = p.1.push(c);
            assert(line_text(tok) =~= p.1);
            assert(p.0.push(tok).map_values(|t: Seq<char>| line_text(t)) =~= p.0.map_values(
                |t: Seq<char>| line_text(t),
            ).push(line_text(tok)));
        }
    }
}

/// Without carriage returns, the lines of a text are the texts of its
/// line tokens.
proof fn lemma_lines_are_token_texts(s: Seq<char>)
    requires
        no_cr(s),
    ensures
        lines_of(s) == token_texts(s),
{
    lemma_token_scan_lines(s);
    let sc = token_scan(s);
    if sc.1.len() > 0 {
        assert(sc.1.last() != '\n') by {
            if sc.1.last() == '\n' {
                assert(s.last() == '\n');
                assert(token_scan(s).1.len() == 0);
            }
        }
        assert(line_text(sc.1) == sc.1);
        assert(sc.0.push(sc.1).map_values(|t: Seq<char>| line_text(t)) =~= sc.0.map_values(
            |t: Seq<char>| line_text(t),
        ).push(line_text(sc.1)));
    }
}

/// Text without carriage returns is its own normalization.
proof fn lemma_normalized_no_cr(t: Seq<char>, from: int)
    requires
        no_cr(t),
        0 <= from <= t.len(),
    ensures
        replaced_from(t, "\r\n"@, "\n"@, from) == t.skip(from),
    decreases t.len() - from,
{
    reveal_strlit("\r\n");
    reveal_strlit("\n");
    if from + 2 <= t.len() {
        assert(!occurs_at(t, "\r\n"@, from)) by {
            if occurs_at(t, "\r\n"@, from) {
                assert(t.subrange(from, from + 2)[0] == '\r');
                assert(t[from] == '\r');
            }
        }
        lemma_normalized_no_cr(t, from + 1);
        assert(seq![t[from]] + t.skip(from + 1) =~= t.skip(from));
    }
}

/// The hunks recorded for operations are those of the ones that change
/// something.
proof fn lemma_ops_hunks_changes(ops: Seq<LineDiffOp>, ot: Seq<Seq<char>>, nt: Seq<Seq<char>>)
    ensures
        ops_hunks(ops, ot, nt) == change_ops(ops).map_values(|c: LineDiffOp| op_hunk(c, ot, nt)),
    decreases ops.len(),
{
    if ops.len() > 0 {
        lemma_ops_hunks_changes(ops.drop_last(), ot, nt);
        if ops.last().kind != DiffKind::Equal {
            assert(change_ops(ops).map_values(|c: LineDiffOp| op_hunk(c, ot, nt)) =~= change_ops(
                ops.drop_last(),
            ).map_values(|c: LineDiffOp| op_hunk(c, ot, nt)).push(op_hunk(ops.last(), ot, nt)));
        }
    }
}

/// Every operation of every group lies in bounds.
proof fn lemma_flatten_in_bounds(groups: Seq<Seq<LineDiffOp>>, oc: int, nc: int)
    requires
        groups_in_bounds(groups, oc, nc),
    ensures
        forall|j: int| 0 <= j < flatten_groups(groups).len() ==> op_in_bounds(#[trigger] flatten_groups(groups)[j], oc, nc),
    decreases groups.len(),
{
    if groups.len() > 0 {
        let d = groups.drop_last();
        assert(groups_in_bounds(d, oc, nc)) by {
            assert forall|i: int, j: int| 0 <= i < d.len() && 0 <= j < d[i].len() implies op_in_bounds(
                #[trigger] d[i][j],
                oc,
                nc,
            ) by {
                assert(d[i] == groups[i]);
            }
        }
        lemma_flatten_in_bounds(d, oc, nc);
        let f = flatten_groups(groups);
        let fd = flatten_groups(d);
        assert forall|j: int| 0 <= j < f.len() implies op_in_bounds(#[trigger] f[j], oc, nc) by {
            if j < fd.len() {
                assert(f[j] == fd[j]);
            } else {
                assert(f[j] == groups[groups.len() - 1][j - fd.len()]);
            }
        }
    }
}

/// The operations that change something keep a property of all operations.
proof fn lemma_changes_in_bounds(ops: Seq<LineDiffOp>, oc: int, nc: int)
    requires
        forall|j: int| 0 <= j < ops.len() ==> op_in_bounds(#[trigger] ops[j], oc, nc),
    ensures
        forall|i: int| 0 <= i < change_ops(ops).len() ==> op_in_bounds(#[trigger] change_ops(ops)[i], oc, nc),
    decreases ops.len(),
{
    if ops.len() > 0 {
        let d = ops.drop_last();
        assert forall|j: int| 0 <= j < d.len() implies op_in_bounds(#[trigger] d[j], oc, nc) by {
            assert(d[j] == ops[j]);
        }
        lemma_changes_in_bounds(d, oc, nc);
        assert(op_in_bounds(ops[ops.len() - 1], oc, nc));
        let r = change_ops(ops);
        let rd = change_ops(d);
        assert forall|i: int| 0 <= i < r.len() implies op_in_bounds(#[trigger] r[i], oc, nc) by {
            if ops.last().kind == DiffKind::Equal {
                assert(r == rd);
            } else {
                assert(r == rd.push(ops.last()));
                if i < rd.len() {
                    assert(r[i] == rd[i]);
                }
            }
        }
    }
}

/// Hunks made from an edit script record the edit of the tokens' texts.
proof fn lemma_script_records(
    ot: Seq<Seq<char>>,
    nt: Seq<Seq<char>>,
    ch: Seq<LineDiffOp>,
    full_ot: Seq<Seq<char>>,
    full_nt: Seq<Seq<char>>,
    hunks: Seq<DiffHunk>,
)
    requires
        edit_script(ot, nt, ch),
        ot.len() <= full_ot.len(),
        ot == full_ot.take(ot.len() as int),
        nt.len() <= full_nt.len(),
        nt == full_nt.take(nt.len() as int),
        hunks.len() == ch.len(),
        forall|i: int| 0 <= i < ch.len() ==> (#[trigger] ch[i]).new_start < usize::MAX,
        forall|i: int| 0 <= i < ch.len() ==> hunk_view(#[trigger] hunks[i]) == op_hunk(ch[i], full_ot, full_nt),
    ensures
        records_edit(
            ot.map_values(|t: Seq<char>| line_text(t)),
            nt.map_values(|t: Seq<char>| line_text(t)),
            hunks,
        ),
    decreases ch.len(),
{
    let old = ot.map_values(|t: Seq<char>| line_text(t));
    let new = nt.map_values(|t: Seq<char>| line_text(t));
    if ch.len() == 0 {
        assert(old =~= new);
    } else {
        let c = ch.last();
        let h = hunks.last();
        let k = ch.len() - 1;
        assert(hunk_view(hunks[k]) == op_hunk(ch[k], full_ot, full_nt));
        let os = c.old_start as int;
        let oe = c.old_end as int;
        let ns = c.new_start as int;
        let ne = c.new_end as int;
        assert(ot.skip(oe).len() == nt.skip(ne).len());
        assert(h.new_start_line == ns + 1);
        assert(h.new_line_count == ne - ns);
        let o = views(h.original_lines@);
        assert(o == trimmed(full_ot, os, oe)) by {
            if c.kind == DiffKind::Insert {
                assert(trimmed(full_ot, os, oe) =~= Seq::<Seq<char>>::empty());
            }
        }
        assert(old.subrange(os, oe) =~= o);
        assert(ot.skip(oe) == nt.skip(ne));
        assert(old.skip(oe) =~= ot.skip(oe).map_values(|t: Seq<char>| line_text(t)));
        assert(new.skip(ne) =~= nt.skip(ne).map_values(|t: Seq<char>| line_text(t)));
        assert(old.skip(oe) == new.skip(ne));
        let t = new.len() - ne;
        assert(old.len() - t - o.len() == os);
        let rest = ch.drop_last();
        let hr = hunks.drop_last();
        assert forall|i: int| 0 <= i < rest.len() implies (#[trigger] rest[i]).new_start < usize::MAX by {
            assert(rest[i] == ch[i]);
        }
        assert forall|i: int| 0 <= i < rest.len() implies hunk_view(#[trigger] hr[i]) == op_hunk(
            rest[i],
            full_ot,
            full_nt,
        ) by {
            assert(hr[i] == hunks[i] && rest[i] == ch[i]);
        }
        assert(ot.take(os) =~= full_ot.take(os));
        assert(nt.take(ns) =~= full_nt.take(ns));
        lemma_script_records(ot.take(os), nt.take(ns), rest, full_ot, full_nt, hr);
        assert(old.take(os) =~= ot.take(os).map_values(|t: Seq<char>| line_text(t)));
        assert(new.take(ns) =~= nt.take(ns).map_values(|t: Seq<char>| line_text(t)));
    }
}

/// Generates the line-based diff between old and new content for the file
/// `file_path`. `None` when the differ reports an operation outside the
/// lines of the contents.
pub fn generate_file_diff(old_content: &str, new_content: &str, file_path: UndoFileReference) -> (r:
    Option<FileDiff>)
    ensures
        r is Some <==> groups_in_bounds(
            line_diff_groups(normalized(old_content@), normalized(new_content@)),
            line_tokens(normalized(old_content@)).len() as int,
            line_tokens(normalized(new_content@)).len() as int,
        ),
        starts_below_max(line_diff_groups(normalized(old_content@), normalized(new_content@)))
            ==> r is Some,
        r matches Some(d) ==> d.file_path == file_path && d.hunks@.map_values(
            |h: DiffHunk| hunk_view(h),
        ) == diff_hunks(old_content@, new_content@),
        r matches Some(d) ==> (no_cr(old_content@) && no_cr(new_content@) && ends_with_newline(
            old_content@,
        ) == ends_with_newline(new_content@) ==> all_revertible(
            lines_of(new_content@),
            bottom_up(d.hunks@),
        ) && reverted_content(new_content@, d.hunks@) == old_content@),
{
    let old_n = replace_text(old_content, "\r\n", "\n");
    let new_n = replace_text(new_content, "\r\n", "\n");
    let groups = diff_line_groups(old_n.as_str(), new_n.as_str());
    let oc = chars_of(old_n.as_str());
    let nc = chars_of(new_n.as_str());
    let ot = tokenize_lines(&oc);
    let nt = tokenize_lines(&nc);
    let ghost gs = groups@.map_values(|g: Vec<LineDiffOp>| g@);
    assert(ot@.map_values(|v: Vec<char>| v@).len() == ot@.len());
    assert(nt@.map_values(|v: Vec<char>| v@).len() == nt@.len());
    let ghost facts = gs == line_diff_groups(normalized(old_content@), normalized(new_content@))
        && ot@.len() == line_tokens(normalized(old_content@)).len() && nt@.len() == line_tokens(
        normalized(new_content@),
    ).len();
    assert(facts);
    assert(groups_well_formed(gs, ot@.len() as int, nt@.len() as int));
    let mut gi: usize = 0;
    while gi < groups.len()
        invariant
            0 <= gi <= groups@.len(),
            facts,
            facts == (gs == line_diff_groups(normalized(old_content@), normalized(new_content@))
                && ot@.len() == line_tokens(normalized(old_content@)).len() && nt@.len()
                == line_tokens(normalized(new_content@)).len()),
            gs == groups@.map_values(|g: Vec<LineDiffOp>| g@),
            groups_well_formed(gs, ot@.len() as int, nt@.len() as int),
            forall|i: int, j: int|
                0 <= i < gi && 0 <= j < gs[i].len() ==> op_in_bounds(
                    #[trigger] gs[i][j],
                    ot@.len() as int,
                    nt@.len() as int,
                ),
        decreases groups@.len() - gi,
    {
        let group = &groups[gi];
        let mut oi: usize = 0;
        while oi < group.len()
            invariant
                0 <= oi <= group@.len(),
                gi < groups@.len(),
                facts,
                facts == (gs == line_diff_groups(normalized(old_content@), normalized(new_content@))
                    && ot@.len() == line_tokens(normalized(old_content@)).len() && nt@.len()
                    == line_tokens(normalized(new_content@)).len()),
                group@ == gs[gi as int],
                groups_well_formed(gs, ot@.len() as int, nt@.len() as int),
                gs == groups@.map_values(|g: Vec<LineDiffOp>| g@),
                forall|i: int, j: int|
                    0 <= i < gi && 0 <= j < gs[i].len() ==> op_in_bounds(
                        #[trigger] gs[i][j],
                        ot@.len() as int,
                        nt@.len() as int,
                    ),
                forall|j: int|
                    0 <= j < oi ==> op_in_bounds(
                        #[trigger] gs[gi as int][j],
                        ot@.len() as int,
                        nt@.len() as int,
                    ),
            decreases group@.len() - oi,
        {
            let op = group[oi];
            if !(op.old_start <= op.old_end && op.old_end <= ot.len() && op.new_start <= op.new_end
                && op.new_end <= nt.len() && op.old_start < usize::MAX && op.new_start
                < usize::MAX) {
                assert(!op_in_bounds(gs[gi as int][oi as int], ot@.len() as int, nt@.len() as int));
                proof {
                    assert(group_well_formed(gs[gi as int], ot@.len() as int, nt@.len() as int));
                    assert(op_within(gs[gi as int][oi as int], ot@.len() as int, nt@.len() as int));
                }
                return None;
            }
            oi = oi + 1;
        }
        gi = gi + 1;
    }
    let hunks = hunks_from_groups(&groups, &ot, &nt);
    // The number of hunks fits in a usize.
    let _hunk_count = hunks.len();
    proof {
        let oc0 = old_content@;
        let nc0 = new_content@;
        if no_cr(oc0) && no_cr(nc0) && ends_with_newline(oc0) == ends_with_newline(nc0) {
            lemma_normalized_no_cr(oc0, 0);
            lemma_normalized_no_cr(nc0, 0);
            assert(oc0.skip(0) =~= oc0);
            assert(nc0.skip(0) =~= nc0);
            assert(old_n@ == oc0);
            assert(new_n@ == nc0);
            let otv = ot@.map_values(|v: Vec<char>| v@);
            let ntv = nt@.map_values(|v: Vec<char>| v@);
            assert(otv == line_tokens(oc0));
            assert(ntv == line_tokens(nc0));
            let flat = flatten_groups(gs);
            let ch = change_ops(flat);
            assert(edit_script(otv, ntv, ch));
            assert(groups_in_bounds(gs, ot@.len() as int, nt@.len() as int));
            lemma_flatten_in_bounds(gs, ot@.len() as int, nt@.len() as int);
            lemma_changes_in_bounds(flat, ot@.len() as int, nt@.len() as int);
            lemma_ops_hunks_changes(flat, otv, ntv);
            let hv = hunks@.map_values(|h: DiffHunk| hunk_view(h));
            assert(hv == ch.map_values(|c: LineDiffOp| op_hunk(c, otv, ntv)));
            assert(hunks@.len() == ch.len()) by {
                assert(hv.len() == hunks@.len());
            }
            assert forall|i: int| 0 <= i < ch.len() implies (#[trigger] ch[i]).new_start < usize::MAX by {
                assert(op_in_bounds(ch[i], ot@.len() as int, nt@.len() as int));
            }
            assert forall|i: int| 0 <= i < ch.len() implies hunk_view(#[trigger] hunks@[i]) == op_hunk(
                ch[i],
                otv,
                ntv,
            ) by {
                assert(hv[i] == hunk_view(hunks@[i]));
            }
            assert(otv.take(otv.len() as int) =~= otv);
            assert(ntv.take(ntv.len() as int) =~= ntv);
            lemma_script_records(otv, ntv, ch, otv, ntv, hunks@);
            lemma_lines_are_token_texts(oc0);
            lemma_lines_are_token_texts(nc0);
            lemma_revert_content_restores(oc0, nc0, hunks@);
        }
    }
    Some(FileDiff { file_path, hunks })
}

} // verus!
