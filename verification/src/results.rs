//! Search results: matches, per-file results and their totals.
use vstd::prelude::*;

use crate::text::copy_string;

verus! {

/// Represents a single match in a file.
#[derive(Debug)]
pub struct Match {
    /// The line number where the match was found.
    pub line_number: usize,
    /// The content of the line containing the match.
    pub line_content: String,
    /// The start position of the match within the line.
    pub start: usize,
    /// The end position of the match within the line.
    pub end: usize,
    /// Lines before the match for context.
    pub context_before: Vec<(usize, String)>,
    /// Lines after the match for context.
    pub context_after: Vec<(usize, String)>,
}

/// Copies numbered lines.
pub fn copy_numbered(v: &Vec<(usize, String)>) -> (r: Vec<(usize, String)>)
    ensures
        r@ == v@,
{
    let mut r: Vec<(usize, String)> = Vec::new();
    let mut i: usize = 0;
    while i < v.len()
        invariant
            0 <= i <= v@.len(),
            r@ == v@.take(i as int),
        decreases v@.len() - i,
    {
        let (n, s) = &v[i];
        r.push((*n, copy_string(s)));
        assert(v@.take(i as int).push(v@[i as int]) =~= v@.take(i + 1));
        i = i + 1;
    }
    assert(v@.take(v@.len() as int) =~= v@);
    r
}

impl Clone for Match {
    fn clone(&self) -> (r: Self)
        ensures
            r.line_number == self.line_number,
            r.line_content == self.line_content,
            r.start == self.start,
            r.end == self.end,
            r.context_before@ == self.context_before@,
            r.context_after@ == self.context_after@,
    {
        Match {
            line_number: self.line_number,
            line_content: copy_string(&self.line_content),
            start: self.start,
            end: self.end,
            context_before: copy_numbered(&self.context_before),
            context_after: copy_numbered(&self.context_after),
        }
    }
}

/// Represents all matches found in a single file.
#[derive(Debug)]
pub struct FileResult {
    /// The path to the file.
    pub path: String,
    /// All matches found in the file.
    pub matches: Vec<Match>,
}

/// Represents the complete search results.
#[derive(Debug)]
pub struct SearchResult {
    /// Results per file.
    pub file_results: Vec<FileResult>,
    /// Total number of matches found.
    pub total_matches: usize,
    /// Total number of files searched.
    pub files_searched: usize,
    /// Total number of files with matches.
    pub files_with_matches: usize,
}

/// The number of matches over the file results.
pub open spec fn total_of(frs: Seq<FileResult>) -> int
    decreases frs.len(),
{
    if frs.len() == 0 {
        0
    } else {
        total_of(frs.drop_last()) + frs.last().matches@.len()
    }
}

/// The number of file results with at least one match.
pub open spec fn with_matches(frs: Seq<FileResult>) -> int
    decreases frs.len(),
{
    if frs.len() == 0 {
        0
    } else {
        with_matches(frs.drop_last()) + if frs.last().matches@.len() > 0 {
            1int
        } else {
            0
        }
    }
}

/// The counters agree with the file results: the totals count the matches
/// and the files with matches, and every file searched has a result.
pub open spec fn consistent(r: SearchResult) -> bool {
    &&& r.total_matches == total_of(r.file_results@)
    &&& r.files_with_matches == with_matches(r.file_results@)
    &&& r.files_searched == r.file_results@.len()
}

/// Counting over a concatenation adds the counts.
pub proof fn lemma_counts_concat(a: Seq<FileResult>, b: Seq<FileResult>)
    ensures
        total_of(a + b) == total_of(a) + total_of(b),
        with_matches(a + b) == with_matches(a) + with_matches(b),
    decreases b.len(),
{
    if b.len() == 0 {
        assert(a + b =~= a);
    } else {
        lemma_counts_concat(a, b.drop_last());
        assert((a + b).drop_last() =~= a + b.drop_last());
        assert((a + b).last() == b.last());
    }
}

impl Default for SearchResult {
    fn default() -> (r: Self)
        ensures
            r.file_results@.len() == 0,
            r.total_matches == 0,
            r.files_searched == 0,
            r.files_with_matches == 0,
    {
        SearchResult { file_results: Vec::new(), total_matches: 0, files_searched: 0, files_with_matches: 0 }
    }
}

impl SearchResult {
    /// Creates a new empty search result.
    pub fn new() -> (r: Self)
        ensures
            r.file_results@.len() == 0,
            r.total_matches == 0,
            r.files_searched == 0,
            r.files_with_matches == 0,
            consistent(r),
    {
        SearchResult { file_results: Vec::new(), total_matches: 0, files_searched: 0, files_with_matches: 0 }
    }

    /// Adds a file result: one more file searched, its matches counted,
    /// and one more file with matches when it has any.
    pub fn add_file_result(&mut self, file_result: FileResult)
        requires
            old(self).files_searched < usize::MAX,
            old(self).total_matches + file_result.matches@.len() <= usize::MAX,
            old(self).files_with_matches < usize::MAX,
        ensures
            final(self).files_searched == old(self).files_searched + 1,
            final(self).total_matches == old(self).total_matches + file_result.matches@.len(),
            final(self).files_with_matches == old(self).files_with_matches + if file_result.matches@.len() > 0 {
                1int
            } else {
                0
            },
            final(self).file_results@ == old(self).file_results@.push(file_result),
            consistent(*old(self)) ==> consistent(*final(self)),
    {
        let ghost before = self.file_results@;
        self.files_searched = self.files_searched + 1;
        if file_result.matches.len() > 0 {
            self.total_matches = self.total_matches + file_result.matches.len();
            self.files_with_matches = self.files_with_matches + 1;
        }
        self.file_results.push(file_result);
        assert(self.file_results@.drop_last() =~= before);
    }

    /// Merges another search result into this one: the counters are added
    /// and its file results appended.
    pub fn merge(&mut self, other: SearchResult)
        requires
            old(self).total_matches + other.total_matches <= usize::MAX,
            old(self).files_searched + other.files_searched <= usize::MAX,
            old(self).files_with_matches + other.files_with_matches <= usize::MAX,
        ensures
            final(self).total_matches == old(self).total_matches + other.total_matches,
            final(self).files_searched == old(self).files_searched + other.files_searched,
            final(self).files_with_matches == old(self).files_with_matches + other.files_with_matches,
            final(self).file_results@ == old(self).file_results@ + other.file_results@,
            consistent(*old(self)) && consistent(other) ==> consistent(*final(self)),
    {
        let ghost a = self.file_results@;
        let SearchResult { file_results, total_matches, files_searched, files_with_matches } = other;
        let ghost b = file_results@;
        self.total_matches = self.total_matches + total_matches;
        self.files_searched = self.files_searched + files_searched;
        self.files_with_matches = self.files_with_matches + files_with_matches;
        let mut rest = file_results;
        let mut moved: Vec<FileResult> = Vec::new();
        std::mem::swap(&mut moved, &mut self.file_results);
        moved.append(&mut rest);
        self.file_results = moved;
        proof {
            lemma_counts_concat(a, b);
        }
    }
}

} // verus!
