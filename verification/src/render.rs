//! What the search command prints for one file: which lines are shown,
//! as matches or as context, and the matching lines with their matches
//! highlighted.
use vstd::prelude::*;

use crate::matcher::{sort_by_start, sort_spans};
use crate::plan::{at_boundary, char_index_at, find_char_index};
use crate::results::Match;
use crate::text::{byte_offset, byte_offsets, chars_of, lemma_byte_offset_strict, push_chars, push_text};

verus! {

/// Line `n` lies in the window of the match line `l`: `before` lines
/// above it to `after` lines below it, within the `len` lines of the file,
/// for a match line that is in the file.
pub open spec fn in_window(n: int, l: int, len: int, before: int, after: int) -> bool {
    1 <= l <= len && 1 <= n <= len && l - before <= n <= l + after
}

/// Line `n` is printed: it lies in the window of some match line.
pub open spec fn shown(ls: Seq<usize>, n: int, len: int, before: int, after: int) -> bool {
    exists|k: int| 0 <= k < ls.len() && in_window(n, #[trigger] ls[k] as int, len, before, after)
}

/// Line `n` is a match line of the file.
pub open spec fn is_match_line(ls: Seq<usize>, n: int, len: int) -> bool {
    1 <= n <= len && exists|k: int| 0 <= k < ls.len() && #[trigger] ls[k] as int == n
}

/// Line `n` falls in the lines printed after an earlier match line.
pub open spec fn after_earlier(ls: Seq<usize>, n: int, len: int, after: int) -> bool {
    exists|k: int|
        0 <= k < ls.len() && 1 <= #[trigger] ls[k] as int <= len && ls[k] < n <= ls[k] + after
}

/// The lines printed among the first `m`, in order, each with whether it
/// is printed as a match line (highlighted) rather than as context: a
/// match line already printed as the context after an earlier match line
/// is not printed again.
pub open spec fn plan_upto(ls: Seq<usize>, m: int, len: int, before: int, after: int) -> Seq<(usize, bool)>
    decreases m,
{
    if m <= 0 {
        seq![]
    } else {
        let prev = plan_upto(ls, m - 1, len, before, after);
        if shown(ls, m, len, before, after) {
            prev.push((m as usize, is_match_line(ls, m, len) && !after_earlier(ls, m, len, after)))
        } else {
            prev
        }
    }
}

/// No line is printed twice: the printed lines come in increasing order,
/// and each lies in the file.
pub proof fn lemma_plan_increasing(ls: Seq<usize>, m: int, len: int, before: int, after: int)
    requires
        0 <= m <= len <= usize::MAX,
    ensures
        forall|i: int, j: int|
            0 <= i < j < plan_upto(ls, m, len, before, after).len() ==> (#[trigger] plan_upto(ls, m, len, before, after)[i]).0
                < (#[trigger] plan_upto(ls, m, len, before, after)[j]).0,
        forall|i: int|
            0 <= i < plan_upto(ls, m, len, before, after).len() ==> 1 <= (#[trigger] plan_upto(
                ls,
                m,
                len,
                before,
                after,
            )[i]).0 <= m,
    decreases m,
{
    if m > 0 {
        lemma_plan_increasing(ls, m - 1, len, before, after);
        let q = plan_upto(ls, m - 1, len, before, after);
        let p = plan_upto(ls, m, len, before, after);
        if shown(ls, m, len, before, after) {
            assert(p == q.push((m as usize, is_match_line(ls, m, len) && !after_earlier(ls, m, len, after))));
            assert forall|i: int, j: int| 0 <= i < j < p.len() implies (#[trigger] p[i]).0 < (#[trigger] p[j]).0 by {
                assert(p[i] == q[i]);
                if j < q.len() {
                    assert(p[j] == q[j]);
                }
            }
            assert forall|i: int| 0 <= i < p.len() implies 1 <= (#[trigger] p[i]).0 <= m by {
                if i < q.len() {
                    assert(p[i] == q[i]);
                }
            }
        }
    }
}

/// Every match line of the file is printed, highlighted unless it was
/// already printed as context after an earlier match line.
pub proof fn lemma_match_lines_printed(ls: Seq<usize>, k: int, m: int, len: int, before: int, after: int)
    requires
        0 <= k < ls.len(),
        1 <= ls[k] <= m <= len <= usize::MAX,
        0 <= before,
        0 <= after,
    ensures
        exists|i: int|
            0 <= i < plan_upto(ls, m, len, before, after).len() && (#[trigger] plan_upto(ls, m, len, before, after)[i])
                == (ls[k], !after_earlier(ls, ls[k] as int, len, after)),
    decreases m,
{
    let p = plan_upto(ls, m, len, before, after);
    if m == ls[k] {
        assert(in_window(m, ls[k] as int, len, before, after));
        assert(shown(ls, m, len, before, after));
        assert(is_match_line(ls, m, len));
        assert(p[p.len() - 1] == (ls[k], !after_earlier(ls, ls[k] as int, len, after)));
    } else {
        lemma_match_lines_printed(ls, k, m - 1, len, before, after);
        let q = plan_upto(ls, m - 1, len, before, after);
        let i = choose|i: int| 0 <= i < q.len() && #[trigger] q[i] == (ls[k], !after_earlier(ls, ls[k] as int, len, after));
        assert(p[i] == q[i]);
    }
}

/// The lines printed for a file of `len` lines whose matches are on the
/// lines `line_numbers` (1-based), with `before` and `after` lines of
/// context (see [`plan_upto`]).
pub fn context_plan(line_numbers: &Vec<usize>, len: usize, before: usize, after: usize) -> (r: Vec<(usize, bool)>)
    ensures
        r@ == plan_upto(line_numbers@, len as int, len as int, before as int, after as int),
{
    let ghost ls = line_numbers@;
    let mut out: Vec<(usize, bool)> = Vec::new();
    let mut m: usize = 0;
    while m < len
        invariant
            m <= len,
            ls == line_numbers@,
            out@ == plan_upto(ls, m as int, len as int, before as int, after as int),
        decreases len - m,
    {
        let n = m + 1;
        let mut is_shown = false;
        let mut is_line = false;
        let mut covered = false;
        let mut k: usize = 0;
        while k < line_numbers.len()
            invariant
                ls == line_numbers@,
                n == m + 1,
                1 <= n <= len,
                0 <= k <= ls.len(),
                is_shown == exists|j: int|
                    0 <= j < k && in_window(n as int, #[trigger] ls[j] as int, len as int, before as int, after as int),
                is_line == exists|j: int| 0 <= j < k && #[trigger] ls[j] as int == n as int,
                covered == exists|j: int|
                    0 <= j < k && 1 <= #[trigger] ls[j] as int <= len && ls[j] < n <= ls[j] + after,
            decreases ls.len() - k,
        {
            let l = line_numbers[k];
            let inside = 1 <= l && l <= len && if n >= l {
                n - l <= after
            } else {
                l - n <= before
            };
            if inside {
                is_shown = true;
            }
            if l == n {
                is_line = true;
            }
            if 1 <= l && l <= len && l < n && n - l <= after {
                covered = true;
            }
            proof {
                if inside {
                    assert(in_window(n as int, ls[k as int] as int, len as int, before as int, after as int));
                }
                if l == n {
                    assert(ls[k as int] as int == n as int);
                }
            }
            k = k + 1;
        }
        if is_shown {
            out.push((n, is_line && !covered));
        }
        m = m + 1;
    }
    out
}

/// The escape sequence that starts a highlight (bold red).
pub open spec fn highlight_open() -> Seq<char> {
    seq!['\u{1b}', '[', '1', ';', '3', '1', 'm']
}

/// The escape sequence that ends a highlight.
pub open spec fn highlight_close() -> Seq<char> {
    seq!['\u{1b}', '[', '0', 'm']
}

/// A matched piece as printed: wrapped in the highlight when colors are
/// on.
pub open spec fn wrap(piece: Seq<char>, color: bool) -> Seq<char> {
    if color {
        highlight_open() + piece + highlight_close()
    } else {
        piece
    }
}

/// The byte ranges can be cut out of `t` one after the other: each starts
/// at or after the end of the one before it, ends at or after its start,
/// and both ends are character boundaries.
pub open spec fn spans_fit(t: Seq<char>, spans: Seq<(usize, usize)>) -> bool {
    forall|i: int|
        0 <= i < spans.len() ==> {
            &&& at_boundary(t, (#[trigger] spans[i]).0 as int)
            &&& at_boundary(t, spans[i].1 as int)
            &&& spans[i].0 <= spans[i].1
            &&& (i > 0 ==> spans[i - 1].1 <= spans[i].0)
        }
}

/// The line printed from the ranges from `i` on, the text before them
/// starting at byte `last`: each range's text wrapped, the text between
/// ranges as it is, then the rest of the line.
pub open spec fn highlight_from(t: Seq<char>, spans: Seq<(usize, usize)>, i: int, last: int, color: bool) -> Seq<char>
    decreases spans.len() - i,
{
    if i < 0 || i >= spans.len() {
        t.skip(char_index_at(t, last))
    } else {
        let s = char_index_at(t, spans[i].0 as int);
        let e = char_index_at(t, spans[i].1 as int);
        t.subrange(char_index_at(t, last), s) + wrap(t.subrange(s, e), color) + highlight_from(
            t,
            spans,
            i + 1,
            spans[i].1 as int,
            color,
        )
    }
}

/// The character index of a boundary lies in the text, and boundaries
/// keep their order as character indices.
proof fn lemma_boundary_order(t: Seq<char>, a: int, b: int)
    requires
        at_boundary(t, a),
        at_boundary(t, b),
        a <= b,
    ensures
        0 <= char_index_at(t, a) <= char_index_at(t, b) <= t.len(),
        byte_offset(t, char_index_at(t, a)) == a,
{
    let i = char_index_at(t, a);
    let j = char_index_at(t, b);
    if j < i {
        lemma_byte_offset_strict(t, j, i);
    }
}

/// Prints a matching line with its match ranges (byte offsets, in the
/// order to print them) highlighted when `color` (see [`highlight_from`]).
pub fn highlight_line(line: &str, spans: &Vec<(usize, usize)>, color: bool) -> (r: String)
    requires
        spans_fit(line@, spans@),
    ensures
        r@ == highlight_from(line@, spans@, 0, 0, color),
{
    // The UTF-8 length of the text fits in a usize.
    let _byte_len = line.as_bytes().len();
    let t = chars_of(line);
    let offs = byte_offsets(&t);
    let ghost tv = t@;
    assert(byte_offset(tv, 0) == 0) by {
        assert(tv.take(0) =~= Seq::<char>::empty());
    }
    assert(at_boundary(tv, 0));
    let mut out = String::new();
    let mut last: usize = 0;
    let mut last_ci: usize = 0;
    let mut i: usize = 0;
    proof {
        reveal_strlit("\x1b[1;31m");
        reveal_strlit("\x1b[0m");
    }
    assert(out@ + highlight_from(tv, spans@, 0, 0, color) == highlight_from(tv, spans@, 0, 0, color));
    while i < spans.len()
        invariant
            tv == line@,
            t@ == tv,
            offs@.len() == tv.len() + 1,
            forall|j: int| 0 <= j <= tv.len() ==> #[trigger] offs@[j] == byte_offset(tv, j),
            spans_fit(tv, spans@),
            0 <= i <= spans@.len(),
            at_boundary(tv, last as int),
            last_ci == char_index_at(tv, last as int),
            last_ci <= tv.len(),
            i > 0 ==> last == spans@[i - 1].1,
            i == 0 ==> last == 0,
            out@ + highlight_from(tv, spans@, i as int, last as int, color) == highlight_from(tv, spans@, 0, 0, color),
            "\x1b[1;31m"@ == highlight_open(),
            "\x1b[0m"@ == highlight_close(),
        decreases spans@.len() - i,
    {
        let (s, e) = spans[i];
        proof {
            lemma_boundary_order(tv, last as int, s as int);
            lemma_boundary_order(tv, s as int, e as int);
        }
        let sc = match find_char_index(&t, &offs, s) {
            Some(k) => k,
            None => 0,
        };
        let ec = match find_char_index(&t, &offs, e) {
            Some(k) => k,
            None => 0,
        };
        let ghost o = out@;
        push_range(&mut out, &t, last_ci, sc);
        if color {
            push_text(&mut out, "\x1b[1;31m");
        }
        push_range(&mut out, &t, sc, ec);
        if color {
            push_text(&mut out, "\x1b[0m");
        }
        assert(o + highlight_from(tv, spans@, i as int, last as int, color) =~= out@ + highlight_from(
            tv,
            spans@,
            i + 1,
            e as int,
            color,
        ));
        last = e;
        last_ci = ec;
        i = i + 1;
    }
    let n = t.len();
    let ghost o = out@;
    push_range(&mut out, &t, last_ci, n);
    assert(tv.subrange(last_ci as int, n as int) =~= tv.skip(last_ci as int));
    assert(o + highlight_from(tv, spans@, i as int, last as int, color) =~= out@);
    out
}

/// Appends the characters `t[from..to]`.
fn push_range(out: &mut String, t: &Vec<char>, from: usize, to: usize)
    requires
        from <= to <= t@.len(),
    ensures
        final(out)@ == old(out)@ + t@.subrange(from as int, to as int),
{
    let piece = crate::text::string_from_range(t.as_slice(), from, to);
    push_text(out, piece.as_str());
}

/// Whether the byte ranges fit the line (see [`spans_fit`]).
pub fn check_spans(line: &str, spans: &Vec<(usize, usize)>) -> (b: bool)
    ensures
        b == spans_fit(line@, spans@),
{
    // The UTF-8 length of the text fits in a usize.
    let _byte_len = line.as_bytes().len();
    let t = chars_of(line);
    let offs = byte_offsets(&t);
    let mut i: usize = 0;
    while i < spans.len()
        invariant
            t@ == line@,
            offs@.len() == t@.len() + 1,
            forall|j: int| 0 <= j <= t@.len() ==> #[trigger] offs@[j] == byte_offset(t@, j),
            0 <= i <= spans@.len(),
            forall|j: int|
                0 <= j < i ==> {
                    &&& at_boundary(line@, (#[trigger] spans@[j]).0 as int)
                    &&& at_boundary(line@, spans@[j].1 as int)
                    &&& spans@[j].0 <= spans@[j].1
                    &&& (j > 0 ==> spans@[j - 1].1 <= spans@[j].0)
                },
        decreases spans@.len() - i,
    {
        let (s, e) = spans[i];
        if find_char_index(&t, &offs, s).is_none() || find_char_index(&t, &offs, e).is_none() || s > e {
            return false;
        }
        if i > 0 && spans[i - 1].1 > s {
            return false;
        }
        i = i + 1;
    }
    true
}

/// The highlighted line, or `None` when the ranges do not fit the line.
pub fn try_highlight_line(line: &str, spans: &Vec<(usize, usize)>, color: bool) -> (r: Option<String>)
    ensures
        r is Some <==> spans_fit(line@, spans@),
        r matches Some(s) ==> s@ == highlight_from(line@, spans@, 0, 0, color),
{
    if check_spans(line, spans) {
        Some(highlight_line(line, spans, color))
    } else {
        None
    }
}

/// The byte ranges of the matches on line `line`, in the order of the
/// matches.
pub open spec fn spans_on(ms: Seq<Match>, line: usize) -> Seq<(usize, usize)>
    decreases ms.len(),
{
    if ms.len() == 0 {
        seq![]
    } else {
        let prev = spans_on(ms.drop_last(), line);
        if ms.last().line_number == line {
            prev.push((ms.last().start, ms.last().end))
        } else {
            prev
        }
    }
}

/// Collects the byte ranges of the matches on line `line` (see
/// [`spans_on`]).
pub fn match_spans_on(matches: &Vec<Match>, line: usize) -> (r: Vec<(usize, usize)>)
    ensures
        r@ == spans_on(matches@, line),
{
    let mut r: Vec<(usize, usize)> = Vec::new();
    let mut i: usize = 0;
    while i < matches.len()
        invariant
            0 <= i <= matches@.len(),
            r@ == spans_on(matches@.take(i as int), line),
        decreases matches@.len() - i,
    {
        assert(matches@.take(i + 1).drop_last() =~= matches@.take(i as int));
        if matches[i].line_number == line {
            r.push((matches[i].start, matches[i].end));
        }
        i = i + 1;
    }
    assert(matches@.take(matches@.len() as int) =~= matches@);
    r
}

/// The line numbers of the matches, in order.
pub fn match_line_numbers(matches: &Vec<Match>) -> (r: Vec<usize>)
    ensures
        r@.len() == matches@.len(),
        forall|i: int| 0 <= i < r@.len() ==> r@[i] == (#[trigger] matches@[i]).line_number,
{
    let mut r: Vec<usize> = Vec::new();
    let mut i: usize = 0;
    while i < matches.len()
        invariant
            0 <= i <= matches@.len(),
            r@.len() == i,
            forall|j: int| 0 <= j < i ==> r@[j] == (#[trigger] matches@[j]).line_number,
        decreases matches@.len() - i,
    {
        r.push(matches[i].line_number);
        i = i + 1;
    }
    r
}

/// Prints match line `line_no`: the ranges of its matches, ordered by
/// start (ties kept in match order), highlighted in `line`; `None` when
/// they cannot be cut out of the line one after the other.
pub fn render_match_line(line: &str, matches: &Vec<Match>, line_no: usize, color: bool) -> (r: Option<String>)
    ensures
        r is Some <==> spans_fit(line@, sort_by_start(spans_on(matches@, line_no))),
        r matches Some(s) ==> s@ == highlight_from(
            line@,
            sort_by_start(spans_on(matches@, line_no)),
            0,
            0,
            color,
        ),
{
    let spans = match_spans_on(matches, line_no);
    let sorted = sort_spans(&spans);
    try_highlight_line(line, &sorted, color)
}

} // verus!
