//! File processing: decoding file bytes and turning match spans into line
//! matches with context.
use vstd::prelude::*;

use crate::config::EncodingMode;
use crate::errors::{unified, SearchError};
use crate::matcher::{all_spans, sort_by_start, PatternMatcher};
use crate::metrics::{size_category, MemoryMetrics, MemoryStats};
use crate::plan::{at_boundary, char_index_at};
use crate::results::{FileResult, Match};
use crate::text::{
    byte_offset, byte_offsets, chars_of, copy_string, lemma_byte_offset_strict, lines_of,
    split_lines, views,
};
use vstd::utf8::{decode_utf8, valid_utf8};

verus! {

// ---------------------------------------------------------------------------
// Decoding
// ---------------------------------------------------------------------------
/// The display text of the error `String::from_utf8` reports for `bytes`.
pub uninterp spec fn utf8_error_message(bytes: Seq<u8>) -> Seq<char>;

/// The text `String::from_utf8_lossy` makes of `bytes`.
pub uninterp spec fn utf8_lossy(bytes: Seq<u8>) -> Seq<char>;

/// Decodes UTF-8, or gives the decoder's error message.
///
/// Trusted: calls `String::from_utf8`, which succeeds exactly on valid
/// UTF-8 and then holds the decoded characters; on failure the error's
/// display text is returned, named by `utf8_error_message`.
#[verifier::external_body]
fn utf8_decode(bytes: &[u8]) -> (r: Result<String, String>)
    ensures
        r is Ok <==> valid_utf8(bytes@),
        r matches Ok(s) ==> s@ == decode_utf8(bytes@),
        r matches Err(m) ==> m@ == utf8_error_message(bytes@),
{
    match String::from_utf8(bytes.to_vec()) {
        Ok(s) => Ok(s),
        Err(e) => Err(e.to_string()),
    }
}

/// Decodes UTF-8, replacing invalid sequences.
///
/// Trusted: calls `String::from_utf8_lossy`, named by `utf8_lossy`; its
/// documentation states that valid UTF-8 is returned unchanged.
#[verifier::external_body]
fn utf8_decode_lossy(bytes: &[u8]) -> (r: String)
    ensures
        r@ == utf8_lossy(bytes@),
        valid_utf8(bytes@) ==> r@ == decode_utf8(bytes@),
{
    String::from_utf8_lossy(bytes).into_owned()
}

/// What decoding gives under an encoding mode: fail-fast mode gives the
/// decoded text of valid UTF-8 and an encoding error for the file
/// otherwise; lossy mode always gives the lossy text.
pub open spec fn decoded(bytes: Seq<u8>, path: Seq<char>, mode: EncodingMode) -> Result<Seq<char>, (Seq<char>, Seq<char>)> {
    match mode {
        EncodingMode::FailFast => if valid_utf8(bytes) {
            Ok(decode_utf8(bytes))
        } else {
            Err((unified(path), utf8_error_message(bytes)))
        },
        EncodingMode::Lossy => Ok(utf8_lossy(bytes)),
    }
}

/// Decodes the bytes of the file at `path` (already canonicalized)
/// according to the encoding mode (see [`decoded`]).
pub fn decode_bytes(bytes: &[u8], path: &str, encoding_mode: EncodingMode) -> (r: Result<String, SearchError>)
    ensures
        match decoded(bytes@, path@, encoding_mode) {
            Ok(t) => r matches Ok(s) && s@ == t,
            Err((p, m)) => r matches Err(SearchError::EncodingError { path: x, message: y }) && x@
                == p && y@ == m,
        },
{
    match encoding_mode {
        EncodingMode::FailFast => match utf8_decode(bytes) {
            Ok(s) => Ok(s),
            Err(m) => Err(SearchError::encoding_error(path.to_owned(), m)),
        },
        EncodingMode::Lossy => Ok(utf8_decode_lossy(bytes)),
    }
}

// ---------------------------------------------------------------------------
// From spans to line matches
// ---------------------------------------------------------------------------
/// The number of newlines in `t`.
pub open spec fn newline_count(t: Seq<char>) -> nat
    decreases t.len(),
{
    if t.len() == 0 {
        0
    } else {
        newline_count(t.drop_last()) + if t.last() == '\n' {
            1nat
        } else {
            0
        }
    }
}

/// The character index where the line holding index `k` starts: just
/// after the last newline before `k`, or 0.
pub open spec fn line_start_index(t: Seq<char>, k: int) -> int
    decreases k,
{
    if k <= 0 {
        0
    } else if t[k - 1] == '\n' {
        k
    } else {
        line_start_index(t, k - 1)
    }
}

/// Numbered lines `[from, to)` of `lines`, numbered from 1.
pub open spec fn numbered(lines: Seq<Seq<char>>, from: int, to: int) -> Seq<(usize, Seq<char>)> {
    Seq::new((to - from) as nat, |i: int| ((from + i + 1) as usize, lines[from + i]))
}

/// The view of a numbered line.
pub open spec fn numbered_view(v: Seq<(usize, String)>) -> Seq<(usize, Seq<char>)> {
    v.map_values(|p: (usize, String)| (p.0, p.1@))
}

/// The match record of the span `(s, e)` of `t`: its 1-based line, its
/// offsets within the line, the line itself and up to `before` / `after`
/// lines of context.
pub open spec fn match_for_span(
    t: Seq<char>,
    sp: (usize, usize),
    before: usize,
    after: usize,
) -> (usize, usize, usize, Seq<char>, Seq<(usize, Seq<char>)>, Seq<(usize, Seq<char>)>) {
    let lines = lines_of(t);
    let ks = char_index_at(t, sp.0 as int);
    let li = newline_count(t.take(ks)) as int;
    let base = byte_offset(t, line_start_index(t, ks));
    let first = if li - before > 0 {
        li - before
    } else {
        0
    };
    let last = if li + after + 1 < lines.len() {
        li + after + 1
    } else {
        lines.len() as int
    };
    (
        (li + 1) as usize,
        (sp.0 - base) as usize,
        (sp.1 - base) as usize,
        lines[li],
        numbered(lines, first, li),
        numbered(lines, li + 1, last),
    )
}

/// The span can be turned into a match: it starts at a character boundary
/// on an existing line, ends at or after its start, and the context does
/// not run past `usize::MAX`.
pub open spec fn span_usable(t: Seq<char>, sp: (usize, usize), after: usize) -> bool {
    let ks = char_index_at(t, sp.0 as int);
    &&& at_boundary(t, sp.0 as int)
    &&& sp.0 <= sp.1
    &&& newline_count(t.take(ks)) < lines_of(t).len()
    &&& lines_of(t).len() + after < usize::MAX
}

/// The view of a match record.
pub open spec fn match_view(m: Match) -> (usize, usize, usize, Seq<char>, Seq<(usize, Seq<char>)>, Seq<(usize, Seq<char>)>) {
    (
        m.line_number,
        m.start,
        m.end,
        m.line_content@,
        numbered_view(m.context_before@),
        numbered_view(m.context_after@),
    )
}

/// A match reports its line and up to `before` lines above it and up to
/// `after` lines below it, clipped at the ends of the file: the line number
/// `L` is one more than the newlines before the match, the line is line `L`
/// of the text, the context before is the `min(before, L - 1)` lines right
/// above it, and the context after the `min(after, #lines - L)` lines right
/// below it, each with its 1-based number.
pub proof fn lemma_match_context(t: Seq<char>, sp: (usize, usize), before: usize, after: usize)
    requires
        span_usable(t, sp, after),
    ensures
        ({
            let m = match_for_span(t, sp, before, after);
            let lines = lines_of(t);
            let l = m.0 as int;
            let nb = m.4.len() as int;
            let na = m.5.len() as int;
            &&& l == newline_count(t.take(char_index_at(t, sp.0 as int))) + 1
            &&& 1 <= l <= lines.len()
            &&& m.3 == lines[l - 1]
            &&& nb == if (before as int) < l - 1 {
                before as int
            } else {
                l - 1
            }
            &&& forall|j: int| 0 <= j < nb ==> #[trigger] m.4[j] == ((l - nb + j) as usize, lines[l - nb + j - 1])
            &&& na == if (after as int) < lines.len() - l {
                after as int
            } else {
                lines.len() - l
            }
            &&& forall|j: int| 0 <= j < na ==> #[trigger] m.5[j] == ((l + 1 + j) as usize, lines[l + j])
        }),
{
}

proof fn lemma_newline_count_bound(t: Seq<char>)
    ensures
        newline_count(t) <= t.len(),
    decreases t.len(),
{
    if t.len() > 0 {
        lemma_newline_count_bound(t.drop_last());
    }
}

proof fn lemma_line_start_bound(t: Seq<char>, k: int)
    requires
        0 <= k <= t.len(),
    ensures
        0 <= line_start_index(t, k) <= k,
    decreases k,
{
    if k > 0 && t[k - 1] != '\n' {
        lemma_line_start_bound(t, k - 1);
    }
}

fn line_table(t: &[char]) -> (r: (Vec<usize>, Vec<usize>))
    ensures
        r.0@.len() == t@.len() + 1,
        r.1@.len() == t@.len() + 1,
        forall|k: int|
            0 <= k <= t@.len() ==> #[trigger] r.0@[k] == newline_count(t@.take(k)) && r.1@[k]
                == line_start_index(t@, k),
{
    let mut counts: Vec<usize> = Vec::new();
    let mut starts: Vec<usize> = Vec::new();
    counts.push(0);
    starts.push(0);
    assert(t@.take(0) =~= Seq::<char>::empty());
    let mut i: usize = 0;
    while i < t.len()
        invariant
            0 <= i <= t@.len(),
            counts@.len() == i + 1,
            starts@.len() == i + 1,
            forall|k: int|
                0 <= k <= i ==> #[trigger] counts@[k] == newline_count(t@.take(k)) && starts@[k]
                    == line_start_index(t@, k),
        decreases t@.len() - i,
    {
        let c = t[i];
        let prev = counts[i];
        proof {
            lemma_newline_count_bound(t@.take(i as int));
            assert(t@.take(i + 1).drop_last() =~= t@.take(i as int));
        }
        if c == '\n' {
            counts.push(prev + 1);
            starts.push(i + 1);
        } else {
            counts.push(prev);
            let s = starts[i];
            starts.push(s);
        }
        i = i + 1;
    }
    (counts, starts)
}

fn numbered_lines(lines: &Vec<String>, from: usize, to: usize) -> (r: Vec<(usize, String)>)
    requires
        from <= to <= lines@.len(),
        lines@.len() < usize::MAX,
    ensures
        numbered_view(r@) == numbered(views(lines@), from as int, to as int),
{
    let mut r: Vec<(usize, String)> = Vec::new();
    let mut k: usize = from;
    while k < to
        invariant
            from <= k <= to <= lines@.len(),
            lines@.len() < usize::MAX,
            numbered_view(r@) == numbered(views(lines@), from as int, k as int),
        decreases to - k,
    {
        let ghost r0 = r@;
        r.push((k + 1, copy_string(&lines[k])));
        assert(numbered_view(r@) =~= numbered_view(r0).push(((k + 1) as usize, lines@[k as int]@)));
        assert(numbered(views(lines@), from as int, k + 1) =~= numbered(
            views(lines@),
            from as int,
            k as int,
        ).push(((k + 1) as usize, views(lines@)[k as int])));
        k = k + 1;
    }
    r
}

/// Turns match spans (byte offsets into `contents`) into line matches
/// with up to `before` and `after` lines of context (see
/// [`match_for_span`]); `None` when a span is not usable (see
/// [`span_usable`]).
pub fn build_matches(contents: &str, spans: &Vec<(usize, usize)>, before: usize, after: usize) -> (r:
    Option<Vec<Match>>)
    ensures
        r is Some <==> forall|i: int|
            0 <= i < spans@.len() ==> span_usable(contents@, #[trigger] spans@[i], after),
        r matches Some(v) ==> v@.len() == spans@.len() && forall|i: int|
            0 <= i < v@.len() ==> match_view(#[trigger] v@[i]) == match_for_span(
                contents@,
                spans@[i],
                before,
                after,
            ),
{
    let t = chars_of(contents);
    // The UTF-8 length of the text fits in a usize.
    let _byte_len = contents.as_bytes().len();
    let offs = byte_offsets(&t);
    let (counts, starts) = line_table(&t);
    let lines = split_lines(&t);
    let ghost lv = lines_of(contents@);
    let mut out: Vec<Match> = Vec::new();
    let mut i: usize = 0;
    while i < spans.len()
        invariant
            0 <= i <= spans@.len(),
            t@ == contents@,
            views(lines@) == lv,
            lv == lines_of(contents@),
            offs@.len() == t@.len() + 1,
            forall|k: int| 0 <= k <= t@.len() ==> #[trigger] offs@[k] == byte_offset(t@, k),
            counts@.len() == t@.len() + 1,
            starts@.len() == t@.len() + 1,
            forall|k: int|
                0 <= k <= t@.len() ==> #[trigger] counts@[k] == newline_count(t@.take(k))
                    && starts@[k] == line_start_index(t@, k),
            out@.len() == i,
            forall|j: int| 0 <= j < i ==> span_usable(contents@, #[trigger] spans@[j], after),
            forall|j: int|
                0 <= j < i ==> match_view(#[trigger] out@[j]) == match_for_span(
                    contents@,
                    spans@[j],
                    before,
                    after,
                ),
        decreases spans@.len() - i,
    {
        let (s, e) = spans[i];
        let ks = match crate::plan::find_char_index(&t, &offs, s) {
            Some(k) => k,
            None => {
                return None;
            },
        };
        let li = counts[ks];
        if s > e || li >= lines.len() || lines.len() >= usize::MAX - after {
            return None;
        }
        let ls = starts[ks];
        proof {
            lemma_line_start_bound(t@, ks as int);
            if ls < ks {
                lemma_byte_offset_strict(t@, ls as int, ks as int);
            }
        }
        let base = offs[ls];
        let first = if li > before {
            li - before
        } else {
            0
        };
        let last = if li + after + 1 < lines.len() {
            li + after + 1
        } else {
            lines.len()
        };
        let m = Match {
            line_number: li + 1,
            line_content: copy_string(&lines[li]),
            start: s - base,
            end: e - base,
            context_before: numbered_lines(&lines, first, li),
            context_after: numbered_lines(&lines, li + 1, last),
        };
        out.push(m);
        i = i + 1;
    }
    Some(out)
}

// ---------------------------------------------------------------------------
// File processor
// ---------------------------------------------------------------------------
/// Handles file processing operations.
#[derive(Debug)]
pub struct FileProcessor {
    matcher: PatternMatcher,
    metrics: MemoryMetrics,
    context_before: usize,
    context_after: usize,
    encoding_mode: EncodingMode,
}

impl FileProcessor {
    /// The matcher used for every file.
    pub closed spec fn matcher_spec(&self) -> PatternMatcher {
        self.matcher
    }

    /// The counters of processed files.
    pub closed spec fn metrics_view(&self) -> MemoryStats {
        self.metrics@
    }

    /// Lines of context before and after each match.
    pub closed spec fn context(&self) -> (usize, usize) {
        (self.context_before, self.context_after)
    }

    /// How file bytes are decoded.
    pub closed spec fn encoding(&self) -> EncodingMode {
        self.encoding_mode
    }

    /// Creates a new FileProcessor with the given pattern matcher and fresh
    /// counters.
    pub fn new(
        matcher: PatternMatcher,
        context_before: usize,
        context_after: usize,
        encoding_mode: EncodingMode,
    ) -> (p: Self)
        ensures
            p.matcher_spec() == matcher,
            p.metrics_view() == MemoryMetrics::zero_stats(),
            p.context() == (context_before, context_after),
            p.encoding() == encoding_mode,
    {
        FileProcessor {
            matcher,
            metrics: MemoryMetrics::new(),
            context_before,
            context_after,
            encoding_mode,
        }
    }

    /// Gets the current memory metrics.
    pub fn metrics(&self) -> (m: &MemoryMetrics)
        ensures
            m@ == self.metrics_view(),
    {
        &self.metrics
    }

    /// Processes the bytes of the file at `path` (already canonicalized):
    /// counts the file under its size category when the size is known,
    /// decodes the bytes, finds the matches and turns them into line
    /// matches with context. `Ok(None)` when a match span cannot be turned
    /// into a line match.
    #[verifier::spinoff_prover]
    pub fn process_bytes(&mut self, path: &str, bytes: &[u8], size: Option<u64>) -> (r: Result<
        Option<FileResult>,
        SearchError,
    >)
        ensures
            final(self).matcher_spec() == old(self).matcher_spec(),
            final(self).context() == old(self).context(),
            final(self).encoding() == old(self).encoding(),
            final(self).metrics_view() == match size {
                Some(n) => MemoryStats {
                    small_files: if size_category(n) == 0 {
                        old(self).metrics_view().small_files.wrapping_add(1)
                    } else {
                        old(self).metrics_view().small_files
                    },
                    buffered_files: if size_category(n) == 1 {
                        old(self).metrics_view().buffered_files.wrapping_add(1)
                    } else {
                        old(self).metrics_view().buffered_files
                    },
                    mmap_files: if size_category(n) == 2 {
                        old(self).metrics_view().mmap_files.wrapping_add(1)
                    } else {
                        old(self).metrics_view().mmap_files
                    },
                    ..old(self).metrics_view()
                },
                None => old(self).metrics_view(),
            },
            match decoded(bytes@, path@, old(self).encoding()) {
                Err((p, m)) => r matches Err(SearchError::EncodingError { path: x, message: y })
                    && x@ == p && y@ == m,
                Ok(t) => {
                    let spans = sort_by_start(all_spans(old(self).matcher_spec().strategies(), t));
                    let (cb, ca) = old(self).context();
                    &&& r matches Ok(o)
                    &&& (o is Some <==> forall|i: int|
                        0 <= i < spans.len() ==> span_usable(t, #[trigger] spans[i], ca))
                    &&& (o matches Some(fr) ==> fr.path@ == path@ && fr.matches@.len()
                        == spans.len() && forall|i: int|
                        0 <= i < fr.matches@.len() ==> match_view(#[trigger] fr.matches@[i])
                            == match_for_span(t, spans[i], cb, ca))
                },
            },
    {
        match size {
            Some(n) => self.metrics.record_file_processing(n),
            None => {},
        }
        let contents = match decode_bytes(bytes, path, self.encoding_mode) {
            Ok(c) => c,
            Err(e) => {
                return Err(e);
            },
        };
        let ghost t = contents@;
        assert(decoded(bytes@, path@, old(self).encoding()) == Ok::<Seq<char>, (Seq<char>, Seq<char>)>(t));
        let spans = self.matcher.find_matches(contents.as_str());
        assert(spans@ == sort_by_start(all_spans(old(self).matcher_spec().strategies(), t)));
        match build_matches(contents.as_str(), &spans, self.context_before, self.context_after) {
            Some(matches) => Ok(Some(FileResult { path: path.to_owned(), matches })),
            None => Ok(None),
        }
    }
}

} // verus!
