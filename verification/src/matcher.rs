//! Pattern matching: literal patterns with word-boundary rules, and regular
//! expressions.
use vstd::prelude::*;

use crate::boundary::{boundary_ok, boundary_ok_exec, continues_word, HyphenMode, WordBoundaryMode};
use crate::unicode::is_hyphen_spec;
use crate::metrics::{cache_size_after, MemoryMetrics, MemoryStats};
use crate::text::{
    byte_len, byte_offset, byte_offsets, lemma_byte_len_prefix, lemma_byte_len_zero, chars_of, contains_chars, contains_seq, copy_string,
    matches_at, occurs_at, starts_with_chars, copy_strings, starts_with_seq, string_from_chars, concat_text,
};
use crate::errors::SearchError;
use crate::unicode::{is_ascii_punctuation, is_ascii_punctuation_spec};

verus! {

/// Patterns shorter than this many bytes may use literal matching.
pub const SIMPLE_PATTERN_THRESHOLD: usize = 32;

/// A single pattern definition with boundary rules.
#[derive(Debug)]
pub struct PatternDefinition {
    /// The pattern text (literal string or regex).
    pub text: String,
    /// Indicates if this pattern should be treated as a regex.
    pub is_regex: bool,
    /// The boundary mode for this pattern.
    pub boundary_mode: WordBoundaryMode,
    /// How to handle hyphens in word boundaries.
    pub hyphen_mode: HyphenMode,
}

impl Clone for PatternDefinition {
    fn clone(&self) -> (r: Self)
        ensures
            r == *self,
    {
        PatternDefinition {
            text: self.text.clone(),
            is_regex: self.is_regex,
            boundary_mode: self.boundary_mode,
            hyphen_mode: self.hyphen_mode,
        }
    }
}

impl PatternDefinition {
    /// Creates a new PatternDefinition with the default (joining) hyphen mode.
    pub fn new(text: String, is_regex: bool, boundary_mode: WordBoundaryMode) -> (d: Self)
        ensures
            d.text@ == text@,
            d.is_regex == is_regex,
            d.boundary_mode == boundary_mode,
            d.hyphen_mode == HyphenMode::Joining,
    {
        PatternDefinition { text, is_regex, boundary_mode, hyphen_mode: HyphenMode::Joining }
    }
}

/// The identity of a pattern definition in the pattern cache.
pub open spec fn def_key(d: PatternDefinition) -> (Seq<char>, bool, WordBoundaryMode, HyphenMode) {
    (d.text@, d.is_regex, d.boundary_mode, d.hyphen_mode)
}

/// A literal pattern is simple when it is shorter than the threshold (in
/// bytes) and holds no ASCII punctuation other than `_` and `-`.
pub open spec fn is_simple_pattern_spec(p: Seq<char>) -> bool {
    byte_len(p) < SIMPLE_PATTERN_THRESHOLD && forall|i: int|
        0 <= i < p.len() ==> !(is_ascii_punctuation_spec(#[trigger] p[i]) && p[i] != '_' && p[i]
            != '-')
}

/// Whether a definition is matched literally (otherwise through a regex).
pub open spec fn uses_literal(d: PatternDefinition) -> bool {
    !d.is_regex && is_simple_pattern_spec(d.text@)
}

/// `(?u)`: the Unicode flag that starts every generated regex.
pub open spec fn unicode_flag() -> Seq<char> {
    seq!['(', '?', 'u', ')']
}

/// `\b`: a word-boundary assertion.
pub open spec fn word_boundary_token() -> Seq<char> {
    seq!['\\', 'b']
}

/// `(?:`: the opening of a non-capturing group.
pub open spec fn group_open() -> Seq<char> {
    seq!['(', '?', ':']
}

/// The regex text that is given a dedicated rewrite.
pub open spec fn cafe_space_word() -> Seq<char> {
    seq!['c', 'a', 'f', 'é', '\\', 's', '+', '\\', 'w', '+']
}

/// The rewrite of [`cafe_space_word`]: `(?u)café(?:\s+|\d*)\w+`.
pub open spec fn cafe_space_word_rewrite() -> Seq<char> {
    seq![
        '(',
        '?',
        'u',
        ')',
        'c',
        'a',
        'f',
        'é',
        '(',
        '?',
        ':',
        '\\',
        's',
        '+',
        '|',
        '\\',
        'd',
        '*',
        ')',
        '\\',
        'w',
        '+',
    ]
}

/// A regex already holds a boundary or anchor token: `\b`, `^`, `$`, `\B`,
/// `\<` or `\>`.
pub open spec fn contains_boundary_tokens(p: Seq<char>) -> bool {
    contains_seq(p, word_boundary_token()) || contains_seq(p, seq!['^']) || contains_seq(
        p,
        seq!['$'],
    ) || contains_seq(p, seq!['\\', 'B']) || contains_seq(p, seq!['\\', '<']) || contains_seq(
        p,
        seq!['\\', '>'],
    )
}

/// A user regex in whole-word mode is wrapped in boundaries unless it
/// holds boundary tokens, alternation or groups.
pub open spec fn needs_boundaries(p: Seq<char>, bm: WordBoundaryMode) -> bool {
    bm == WordBoundaryMode::WholeWords && !contains_boundary_tokens(p) && !contains_seq(
        p,
        seq!['|'],
    ) && !contains_seq(p, group_open()) && !contains_seq(p, seq!['('])
}

/// A whole-word regex is anchored at word boundaries: when its text holds
/// none of `\\b`, `\\B`, `\\<`, `\\>`, `^`, `$`, `|` or `(` and is not the
/// specially rewritten `café\\s+\\w+`, it is compiled as `(?u)\\b(?:p)\\b`.
pub proof fn lemma_whole_word_regex_wrapped(d: PatternDefinition)
    requires
        d.is_regex,
        d.boundary_mode == WordBoundaryMode::WholeWords,
        !contains_seq(d.text@, seq!['\\', 'b']),
        !contains_seq(d.text@, seq!['\\', 'B']),
        !contains_seq(d.text@, seq!['\\', '<']),
        !contains_seq(d.text@, seq!['\\', '>']),
        !contains_seq(d.text@, seq!['^']),
        !contains_seq(d.text@, seq!['$']),
        !contains_seq(d.text@, seq!['|']),
        !contains_seq(d.text@, seq!['(']),
        !starts_with_seq(d.text@, seq!['c', 'a', 'f', 'é', '\\', 's', '+', '\\', 'w', '+']),
    ensures
        regex_source_for(d) == seq!['(', '?', 'u', ')', '\\', 'b', '(', '?', ':'] + d.text@ + seq![
            ')',
            '\\',
            'b',
        ],
{
    let p = d.text@;
    assert(!contains_seq(p, group_open())) by {
        if contains_seq(p, group_open()) {
            let i = choose|i: int| occurs_at(p, group_open(), i);
            assert(p.subrange(i, i + 3)[0] == '(');
            assert(occurs_at(p, seq!['('], i)) by {
                assert(p.subrange(i, i + 1) =~= seq!['(']);
            }
        }
    }
    assert(unicode_flag() + word_boundary_token() + group_open() + p + seq![')'] + word_boundary_token()
        =~= seq!['(', '?', 'u', ')', '\\', 'b', '(', '?', ':'] + p + seq![')', '\\', 'b']);
}

/// The regex that a definition that is not matched literally compiles to.
pub open spec fn regex_source_for(d: PatternDefinition) -> Seq<char> {
    let p = d.text@;
    if d.is_regex {
        if starts_with_seq(p, cafe_space_word()) {
            cafe_space_word_rewrite()
        } else if needs_boundaries(p, d.boundary_mode) {
            unicode_flag() + word_boundary_token() + group_open() + p + seq![')']
                + word_boundary_token()
        } else {
            unicode_flag() + p
        }
    } else if d.boundary_mode == WordBoundaryMode::WholeWords {
        unicode_flag() + word_boundary_token() + p + word_boundary_token()
    } else {
        unicode_flag() + p
    }
}

/// Decides [`is_simple_pattern_spec`].
pub fn is_simple_pattern(p: &String) -> (b: bool)
    ensures
        b == is_simple_pattern_spec(p@),
{
    let n = p.as_str().as_bytes().len();
    if n >= SIMPLE_PATTERN_THRESHOLD {
        return false;
    }
    let cs = chars_of(p.as_str());
    let mut i: usize = 0;
    while i < cs.len()
        invariant
            cs@ == p@,
            0 <= i <= cs@.len(),
            forall|j: int|
                0 <= j < i ==> !(is_ascii_punctuation_spec(#[trigger] cs@[j]) && cs@[j] != '_'
                    && cs@[j] != '-'),
        decreases cs@.len() - i,
    {
        let c = cs[i];
        if is_ascii_punctuation(c) && c != '_' && c != '-' {
            return false;
        }
        i = i + 1;
    }
    true
}

fn push_all(out: &mut Vec<char>, s: &[char])
    ensures
        final(out)@ == old(out)@ + s@,
{
    let mut i: usize = 0;
    while i < s.len()
        invariant
            0 <= i <= s@.len(),
            out@ == old(out)@ + s@.take(i as int),
        decreases s@.len() - i,
    {
        out.push(s[i]);
        assert(s@.take(i as int).push(s@[i as int]) =~= s@.take(i + 1));
        i = i + 1;
    }
    assert(s@.take(s@.len() as int) =~= s@);
}

fn contains_boundary_tokens_exec(p: &[char]) -> (b: bool)
    ensures
        b == contains_boundary_tokens(p@),
{
    let t1 = vec!['\\', 'b'];
    let t2 = vec!['^'];
    let t3 = vec!['$'];
    let t4 = vec!['\\', 'B'];
    let t5 = vec!['\\', '<'];
    let t6 = vec!['\\', '>'];
    assert(t1@ =~= word_boundary_token());
    assert(t2@ =~= seq!['^']);
    assert(t3@ =~= seq!['$']);
    assert(t4@ =~= seq!['\\', 'B']);
    assert(t5@ =~= seq!['\\', '<']);
    assert(t6@ =~= seq!['\\', '>']);
    contains_chars(p, &t1) || contains_chars(p, &t2) || contains_chars(p, &t3) || contains_chars(
        p,
        &t4,
    ) || contains_chars(p, &t5) || contains_chars(p, &t6)
}

/// Builds the regex text for a definition (see [`regex_source_for`]).
pub fn build_regex_source(d: &PatternDefinition) -> (r: String)
    ensures
        r@ == regex_source_for(*d),
{
    let p = chars_of(d.text.as_str());
    let mut out: Vec<char> = vec!['(', '?', 'u', ')'];
    assert(out@ =~= unicode_flag());
    if d.is_regex {
        let cafe = vec!['c', 'a', 'f', 'é', '\\', 's', '+', '\\', 'w', '+'];
        assert(cafe@ =~= cafe_space_word());
        if starts_with_chars(&p, &cafe) {
            let rw = vec![
                '(',
                '?',
                'u',
                ')',
                'c',
                'a',
                'f',
                'é',
                '(',
                '?',
                ':',
                '\\',
                's',
                '+',
                '|',
                '\\',
                'd',
                '*',
                ')',
                '\\',
                'w',
                '+',
            ];
            assert(rw@ =~= cafe_space_word_rewrite());
            return string_from_chars(&rw);
        }
        let bar = vec!['|'];
        let gopen = vec!['(', '?', ':'];
        let paren = vec!['('];
        assert(gopen@ =~= group_open());
        assert(bar@ =~= seq!['|']);
        assert(paren@ =~= seq!['(']);
        let needs = d.boundary_mode == WordBoundaryMode::WholeWords && !contains_boundary_tokens_exec(
            &p,
        ) && !contains_chars(&p, &bar) && !contains_chars(&p, &gopen) && !contains_chars(
            &p,
            &paren,
        );
        if needs {
            out.push('\\');
            out.push('b');
            out.push('(');
            out.push('?');
            out.push(':');
            push_all(&mut out, &p);
            out.push(')');
            out.push('\\');
            out.push('b');
            assert(out@ =~= unicode_flag() + word_boundary_token() + group_open() + p@ + seq![')']
                + word_boundary_token());
        } else {
            push_all(&mut out, &p);
        }
    } else if d.boundary_mode == WordBoundaryMode::WholeWords {
        out.push('\\');
        out.push('b');
        push_all(&mut out, &p);
        out.push('\\');
        out.push('b');
        assert(out@ =~= unicode_flag() + word_boundary_token() + p@ + word_boundary_token());
    } else {
        push_all(&mut out, &p);
    }
    string_from_chars(&out)
}

// ---------------------------------------------------------------------------
// Literal occurrences
// ---------------------------------------------------------------------------
/// Start indices of the non-overlapping occurrences of `p` in `t` found by
/// scanning from `from` to the right: each occurrence found resumes the scan
/// after its end.
pub open spec fn occurrences_from(t: Seq<char>, p: Seq<char>, from: int) -> Seq<int>
    decreases t.len() - from,
{
    if from < 0 || p.len() == 0 || from + p.len() > t.len() {
        seq![]
    } else if occurs_at(t, p, from) {
        seq![from] + occurrences_from(t, p, from + p.len())
    } else {
        occurrences_from(t, p, from + 1)
    }
}

/// The character spans of the occurrences in `starts` that respect the
/// boundary rules, in order.
pub open spec fn boundary_spans(
    t: Seq<char>,
    p: Seq<char>,
    hm: HyphenMode,
    bm: WordBoundaryMode,
    starts: Seq<int>,
) -> Seq<(int, int)>
    decreases starts.len(),
{
    if starts.len() == 0 {
        seq![]
    } else {
        let prev = boundary_spans(t, p, hm, bm, starts.drop_last());
        let s = starts.last();
        if boundary_ok(t, s, s + p.len(), p, hm, bm) {
            prev.push((s, s + p.len()))
        } else {
            prev
        }
    }
}

/// A character span as a byte span.
pub open spec fn byte_span(t: Seq<char>, sp: (int, int)) -> (usize, usize) {
    (byte_offset(t, sp.0) as usize, byte_offset(t, sp.1) as usize)
}

/// Byte spans of the matches of literal pattern `p` in `t`: the
/// occurrences found left to right, without overlap, that respect the
/// boundary rules.
pub open spec fn literal_spans(
    t: Seq<char>,
    p: Seq<char>,
    hm: HyphenMode,
    bm: WordBoundaryMode,
) -> Seq<(usize, usize)> {
    boundary_spans(t, p, hm, bm, occurrences_from(t, p, 0)).map_values(
        |sp: (int, int)| byte_span(t, sp),
    )
}

/// Without boundary checks every occurrence found is a match.
pub proof fn lemma_no_boundary_keeps_all(
    t: Seq<char>,
    p: Seq<char>,
    hm: HyphenMode,
    starts: Seq<int>,
)
    ensures
        boundary_spans(t, p, hm, WordBoundaryMode::NoBoundary, starts) == starts.map_values(
            |s: int| (s, s + p.len()),
        ),
    decreases starts.len(),
{
    if starts.len() > 0 {
        lemma_no_boundary_keeps_all(t, p, hm, starts.drop_last());
        assert(starts.map_values(|s: int| (s, s + p.len())) =~= starts.drop_last().map_values(
            |s: int| (s, s + p.len()),
        ).push((starts.last(), starts.last() + p.len())));
    }
}

/// A match that respects whole-word boundaries also respects partial
/// boundaries.
pub proof fn lemma_whole_word_is_partial(
    t: Seq<char>,
    s: int,
    e: int,
    p: Seq<char>,
    hm: HyphenMode,
)
    requires
        boundary_ok(t, s, e, p, hm, WordBoundaryMode::WholeWords),
    ensures
        boundary_ok(t, s, e, p, hm, WordBoundaryMode::Partial),
{
    if hm == HyphenMode::Joining {
        if s > 0 && is_hyphen_spec(t[s - 1]) {
            assert(continues_word(t, s - 1, hm, WordBoundaryMode::WholeWords));
        }
        if e < t.len() && is_hyphen_spec(t[e]) {
            assert(continues_word(t, e, hm, WordBoundaryMode::WholeWords));
        }
        if s > 0 && t[s - 1] == '_' {
            assert(continues_word(t, s - 1, hm, WordBoundaryMode::WholeWords));
        }
        if e < t.len() && t[e] == '_' {
            assert(continues_word(t, e, hm, WordBoundaryMode::WholeWords));
        }
    }
}

/// Every span kept under whole-word boundaries is kept under partial
/// boundaries, and every span kept under partial boundaries is an
/// occurrence found by the scan.
pub proof fn lemma_boundary_modes_nested(
    t: Seq<char>,
    p: Seq<char>,
    hm: HyphenMode,
    starts: Seq<int>,
)
    ensures
        forall|x: (int, int)|
            boundary_spans(t, p, hm, WordBoundaryMode::WholeWords, starts).contains(x)
                ==> boundary_spans(t, p, hm, WordBoundaryMode::Partial, starts).contains(x),
        forall|x: (int, int)|
            boundary_spans(t, p, hm, WordBoundaryMode::Partial, starts).contains(x)
                ==> boundary_spans(t, p, hm, WordBoundaryMode::NoBoundary, starts).contains(x),
    decreases starts.len(),
{
    if starts.len() > 0 {
        let d = starts.drop_last();
        lemma_boundary_modes_nested(t, p, hm, d);
        let st = starts.last();
        let w0 = boundary_spans(t, p, hm, WordBoundaryMode::WholeWords, d);
        let p0 = boundary_spans(t, p, hm, WordBoundaryMode::Partial, d);
        let n0 = boundary_spans(t, p, hm, WordBoundaryMode::NoBoundary, d);
        if boundary_ok(t, st, st + p.len(), p, hm, WordBoundaryMode::WholeWords) {
            lemma_whole_word_is_partial(t, st, st + p.len(), p, hm);
        }
        assert forall|x: (int, int)|
            boundary_spans(t, p, hm, WordBoundaryMode::WholeWords, starts).contains(
                x,
            ) implies boundary_spans(t, p, hm, WordBoundaryMode::Partial, starts).contains(x) by {
            let w = boundary_spans(t, p, hm, WordBoundaryMode::WholeWords, starts);
            let pp = boundary_spans(t, p, hm, WordBoundaryMode::Partial, starts);
            let k = choose|k: int| 0 <= k < w.len() && w[k] == x;
            if k < w0.len() && w0[k] == x {
                assert(w0.contains(x));
                assert(p0.contains(x));
                let j = choose|j: int| 0 <= j < p0.len() && p0[j] == x;
                assert(pp[j] == x);
            } else {
                assert(x == (st, st + p.len()));
                assert(pp.last() == x);
            }
        }
        assert forall|x: (int, int)|
            boundary_spans(t, p, hm, WordBoundaryMode::Partial, starts).contains(
                x,
            ) implies boundary_spans(t, p, hm, WordBoundaryMode::NoBoundary, starts).contains(x) by {
            let pp = boundary_spans(t, p, hm, WordBoundaryMode::Partial, starts);
            let nn = boundary_spans(t, p, hm, WordBoundaryMode::NoBoundary, starts);
            let k = choose|k: int| 0 <= k < pp.len() && pp[k] == x;
            if k < p0.len() && p0[k] == x {
                assert(p0.contains(x));
                assert(n0.contains(x));
                let j = choose|j: int| 0 <= j < n0.len() && n0[j] == x;
                assert(nn[j] == x);
            } else {
                assert(x == (st, st + p.len()));
                assert(nn.last() == x);
            }
        }
    }
}

/// Every start the scan reports is an occurrence of the pattern, later
/// starts lie after the end of earlier occurrences, and all lie at or
/// after `from`.
pub proof fn lemma_occurrences_sound(t: Seq<char>, p: Seq<char>, from: int)
    ensures
        forall|i: int|
            0 <= i < occurrences_from(t, p, from).len() ==> occurs_at(
                t,
                p,
                #[trigger] occurrences_from(t, p, from)[i],
            ) && occurrences_from(t, p, from)[i] >= from,
        forall|i: int, j: int|
            0 <= i < j < occurrences_from(t, p, from).len() ==> #[trigger] occurrences_from(
                t,
                p,
                from,
            )[i] + p.len() <= #[trigger] occurrences_from(t, p, from)[j],
    decreases t.len() - from,
{
    if from < 0 || p.len() == 0 || from + p.len() > t.len() {
    } else if occurs_at(t, p, from) {
        lemma_occurrences_sound(t, p, from + p.len());
        let rest = occurrences_from(t, p, from + p.len());
        let all = occurrences_from(t, p, from);
        assert(all == seq![from] + rest);
        assert forall|i: int, j: int| 0 <= i < j < all.len() implies #[trigger] all[i] + p.len()
            <= #[trigger] all[j] by {
            if i == 0 {
                assert(all[j] == rest[j - 1]);
            } else {
                assert(all[i] == rest[i - 1] && all[j] == rest[j - 1]);
            }
        }
        assert forall|i: int| 0 <= i < all.len() implies occurs_at(t, p, #[trigger] all[i])
            && all[i] >= from by {
            if i > 0 {
                assert(all[i] == rest[i - 1]);
            }
        }
    } else {
        lemma_occurrences_sound(t, p, from + 1);
        assert(occurrences_from(t, p, from) == occurrences_from(t, p, from + 1));
    }
}

proof fn lemma_occurrences_step_found(t: Seq<char>, p: Seq<char>, i: int)
    requires
        0 <= i,
        p.len() > 0,
        occurs_at(t, p, i),
    ensures
        occurrences_from(t, p, i) == seq![i] + occurrences_from(t, p, i + p.len()),
{
}

/// Finds the literal matches of `p` in `t` (see [`literal_spans`]); `offs`
/// holds the byte offsets of `t`.
pub fn find_literal_spans(
    t: &[char],
    offs: &[usize],
    p: &[char],
    hm: HyphenMode,
    bm: WordBoundaryMode,
) -> (r: Vec<(usize, usize)>)
    requires
        p@.len() > 0,
        offs@.len() == t@.len() + 1,
        forall|i: int| 0 <= i <= t@.len() ==> #[trigger] offs@[i] == byte_offset(t@, i),
    ensures
        r@ == literal_spans(t@, p@, hm, bm),
{
    let mut r: Vec<(usize, usize)> = Vec::new();
    let ghost mut found: Seq<int> = seq![];
    let m = p.len();
    if m > t.len() {
        assert(occurrences_from(t@, p@, 0) =~= Seq::<int>::empty());
        assert(boundary_spans(t@, p@, hm, bm, seq![]).map_values(
            |sp: (int, int)| byte_span(t@, sp),
        ) =~= Seq::<(usize, usize)>::empty());
        return r;
    }
    let last = t.len() - m;
    let mut i: usize = 0;
    assert(found + occurrences_from(t@, p@, 0) =~= occurrences_from(t@, p@, 0));
    while i <= last
        invariant
            m == p@.len(),
            m > 0,
            last + m == t@.len(),
            last + m == t.len(),
            0 <= i <= t@.len(),
            offs@.len() == t@.len() + 1,
            forall|k: int| 0 <= k <= t@.len() ==> #[trigger] offs@[k] == byte_offset(t@, k),
            occurrences_from(t@, p@, 0) == found + occurrences_from(t@, p@, i as int),
            r@ == boundary_spans(t@, p@, hm, bm, found).map_values(
                |sp: (int, int)| byte_span(t@, sp),
            ),
        decreases t@.len() - i,
    {
        if matches_at(t, p, i) {
            let e = i + m;
            let ok = boundary_ok_exec(t, i, e, p, hm, bm);
            proof {
                lemma_occurrences_step_found(t@, p@, i as int);
                assert(found.push(i as int) + occurrences_from(t@, p@, i + m) =~= found + (seq![
                    i as int,
                ] + occurrences_from(t@, p@, i + m)));
                assert(found.push(i as int).drop_last() =~= found);
            }
            if ok {
                r.push((offs[i], offs[e]));
                proof {
                    let prev = boundary_spans(t@, p@, hm, bm, found);
                    assert(prev.push((i as int, e as int)).map_values(
                        |sp: (int, int)| byte_span(t@, sp),
                    ) =~= prev.map_values(|sp: (int, int)| byte_span(t@, sp)).push(
                        byte_span(t@, (i as int, e as int)),
                    ));
                }
            }
            proof {
                found = found.push(i as int);
            }
            i = e;
        } else {
            i = i + 1;
        }
    }
    assert(occurrences_from(t@, p@, i as int) =~= Seq::<int>::empty());
    assert(found + Seq::<int>::empty() =~= found);
    r
}

/// A byte offset of `t` that falls between two characters or at an end.
pub open spec fn on_char_boundary(t: Seq<char>, b: int) -> bool {
    exists|k: int| 0 <= k <= t.len() && byte_offset(t, k) == b
}

/// A byte span of `t`: it starts no later than it ends, ends within the
/// text, and both ends fall on character boundaries.
pub open spec fn span_within(t: Seq<char>, sp: (usize, usize)) -> bool {
    &&& sp.0 <= sp.1 <= byte_len(t)
    &&& on_char_boundary(t, sp.0 as int)
    &&& on_char_boundary(t, sp.1 as int)
}

/// Byte spans of `t`, from left to right and without overlap.
pub open spec fn spans_in_order(t: Seq<char>, s: Seq<(usize, usize)>) -> bool {
    &&& forall|i: int| 0 <= i < s.len() ==> span_within(t, #[trigger] s[i])
    &&& forall|i: int, j: int| 0 <= i < j < s.len() ==> #[trigger] s[i].1 <= #[trigger] s[j].0
}

/// Character spans `(s, s + p.len())` of `t` for starts in `starts`, in
/// order and without overlap.
pub open spec fn char_spans_in_order(t: Seq<char>, p: Seq<char>, starts: Seq<int>, b: Seq<(int, int)>) -> bool {
    &&& forall|i: int|
        0 <= i < b.len() ==> (#[trigger] b[i]).1 == b[i].0 + p.len() && 0 <= b[i].0 && b[i].1 <= t.len()
            && starts.contains(b[i].0)
    &&& forall|i: int, j: int| 0 <= i < j < b.len() ==> #[trigger] b[i].1 <= #[trigger] b[j].0
}

/// The spans kept by the boundary rules follow the order of the starts.
proof fn lemma_boundary_spans_in_order(
    t: Seq<char>,
    p: Seq<char>,
    hm: HyphenMode,
    bm: WordBoundaryMode,
    starts: Seq<int>,
)
    requires
        forall|i: int| 0 <= i < starts.len() ==> 0 <= #[trigger] starts[i] && starts[i] + p.len() <= t.len(),
        forall|i: int, j: int| 0 <= i < j < starts.len() ==> #[trigger] starts[i] + p.len() <= #[trigger] starts[j],
    ensures
        char_spans_in_order(t, p, starts, boundary_spans(t, p, hm, bm, starts)),
    decreases starts.len(),
{
    if starts.len() > 0 {
        let d = starts.drop_last();
        lemma_boundary_spans_in_order(t, p, hm, bm, d);
        let prev = boundary_spans(t, p, hm, bm, d);
        let b = boundary_spans(t, p, hm, bm, starts);
        let s = starts.last();
        assert forall|i: int| 0 <= i < prev.len() implies starts.contains((#[trigger] prev[i]).0) && prev[i].1 <= s by {
            assert(d.contains(prev[i].0));
            let k = choose|k: int| 0 <= k < d.len() && d[k] == prev[i].0;
            assert(starts[k] == d[k]);
            assert(starts[k] + p.len() <= starts[starts.len() - 1]);
        }
        if boundary_ok(t, s, s + p.len(), p, hm, bm) {
            assert(b == prev.push((s, s + p.len())));
            assert(starts[starts.len() - 1] == s);
        } else {
            assert(b == prev);
        }
    }
}

/// Literal matches are byte spans of the text, in order and without
/// overlap.
proof fn lemma_literal_spans_in_order(t: Seq<char>, p: Seq<char>, hm: HyphenMode, bm: WordBoundaryMode)
    requires
        p.len() > 0,
        byte_len(t) <= usize::MAX,
    ensures
        spans_in_order(t, literal_spans(t, p, hm, bm)),
{
    let starts = occurrences_from(t, p, 0);
    lemma_occurrences_sound(t, p, 0);
    assert forall|i: int| 0 <= i < starts.len() implies 0 <= #[trigger] starts[i] && starts[i] + p.len()
        <= t.len() by {
        assert(occurs_at(t, p, starts[i]));
    }
    lemma_boundary_spans_in_order(t, p, hm, bm, starts);
    let b = boundary_spans(t, p, hm, bm, starts);
    let r = literal_spans(t, p, hm, bm);
    assert forall|i: int| 0 <= i < r.len() implies span_within(t, #[trigger] r[i]) by {
        let x = b[i];
        lemma_byte_len_prefix(t, x.0, x.1);
        lemma_byte_len_prefix(t, x.1, t.len() as int);
        assert(t.take(t.len() as int) =~= t);
        assert(r[i] == byte_span(t, x));
        assert(byte_offset(t, x.0) as usize as int == byte_offset(t, x.0));
    }
    assert forall|i: int, j: int| 0 <= i < j < r.len() implies #[trigger] r[i].1 <= #[trigger] r[j].0 by {
        let x = b[i];
        let y = b[j];
        lemma_byte_len_prefix(t, x.1, y.0);
        lemma_byte_len_prefix(t, y.0, t.len() as int);
        lemma_byte_len_prefix(t, x.1, t.len() as int);
        assert(t.take(t.len() as int) =~= t);
        assert(r[i] == byte_span(t, x) && r[j] == byte_span(t, y));
    }
}

// ---------------------------------------------------------------------------
// Regular expressions
// ---------------------------------------------------------------------------
#[verifier::external_type_specification]
#[verifier::external_body]
pub struct ExRegex(regex::Regex);

/// Whether `source` is a regex that `regex::Regex::new` accepts.
pub uninterp spec fn regex_compiles(source: Seq<char>) -> bool;

/// The display text of the error `regex::Regex::new` reports for `source`.
pub uninterp spec fn regex_error_message(source: Seq<char>) -> Seq<char>;

/// The number of capture groups (group 0 included) of the regex `source`.
pub uninterp spec fn regex_captures_len(source: Seq<char>) -> nat;

/// The text `regex::Regex::replace_all` produces for the regex `source` on
/// `text` with replacement `rep`.
pub uninterp spec fn regex_replace_all(source: Seq<char>, text: Seq<char>, rep: Seq<char>) -> Seq<char>;

/// The byte spans that `regex::Regex::find_iter` reports for the regex
/// `source` on `text`.
pub uninterp spec fn regex_find_spans(source: Seq<char>, text: Seq<char>) -> Seq<(usize, usize)>;

/// For each match of the regex `source` on `text`, in order, the text of
/// capture group `group`, or `None` where that group took no part in the
/// match.
pub uninterp spec fn regex_group_texts(source: Seq<char>, text: Seq<char>, group: usize) -> Seq<Option<Seq<char>>>;

/// The view of an optional text.
pub open spec fn opt_text(o: Option<String>) -> Option<Seq<char>> {
    match o {
        Some(s) => Some(s@),
        None => None,
    }
}

/// A compiled regular expression together with the text it was compiled from.
#[derive(Debug)]
pub struct CompiledRegex {
    source: String,
    regex: regex::Regex,
}

impl CompiledRegex {
    /// The regex text this value was compiled from.
    pub closed spec fn source(&self) -> Seq<char> {
        self.source@
    }

    /// Compiles `source`, or gives the compiler's error message.
    ///
    /// Trusted: calls `regex::Regex::new`, which succeeds exactly on the
    /// sources named by `regex_compiles`; on success the compiled regex is
    /// stored next to the text it came from, on failure the error's display
    /// text is returned, named by `regex_error_message`.
    #[verifier::external_body]
    pub(crate) fn compile(source: &str) -> (r: Result<Self, String>)
        ensures
            r is Ok <==> regex_compiles(source@),
            r matches Ok(c) ==> c.source() == source@,
            r matches Err(m) ==> m@ == regex_error_message(source@),
    {
        match regex::Regex::new(source) {
            Ok(regex) => Ok(CompiledRegex { source: source.to_string(), regex }),
            Err(e) => Err(e.to_string()),
        }
    }

    /// The number of capture groups, counting the whole match as group 0.
    ///
    /// Trusted: calls `regex::Regex::captures_len`, a function of the
    /// compiled source, named by `regex_captures_len`.
    #[verifier::external_body]
    pub(crate) fn captures_len(&self) -> (n: usize)
        ensures
            n == regex_captures_len(self.source()),
            n >= 1,
    {
        self.regex.captures_len()
    }

    /// Replaces every match in `text` by `rep`, expanding `$name` and
    /// `${name}` group references in `rep`.
    ///
    /// Trusted: calls `regex::Regex::replace_all` with `rep` as the
    /// replacement; the result is named by `regex_replace_all`.
    #[verifier::external_body]
    pub(crate) fn replace_all(&self, text: &str, rep: &str) -> (r: String)
        ensures
            r@ == regex_replace_all(self.source(), text@, rep@),
    {
        self.regex.replace_all(text, rep).into_owned()
    }

    /// All matches in `text`, as byte spans.
    ///
    /// Trusted: calls `regex::Regex::find_iter` on the regex compiled from
    /// `self.source()` and collects each match's start and end; the result
    /// is named by `regex_find_spans`. As the `regex` documentation states,
    /// the matches come from left to right without overlap, and each is a
    /// range of the text whose ends fall on character boundaries.
    #[verifier::external_body]
    pub(crate) fn find_spans(&self, text: &str) -> (r: Vec<(usize, usize)>)
        ensures
            r@ == regex_find_spans(self.source(), text@),
            spans_in_order(text@, r@),
    {
        self.regex.find_iter(text).map(|m| (m.start(), m.end())).collect()
    }

    /// The text of capture group `group` in each match in `text`.
    ///
    /// Trusted: calls `regex::Regex::captures_iter` and, for each match,
    /// `regex::Captures::get(group)`, keeping the matched text; the result
    /// is named by `regex_group_texts`.
    #[verifier::external_body]
    pub(crate) fn group_texts(&self, text: &str, group: usize) -> (r: Vec<Option<String>>)
        ensures
            r@.map_values(|o: Option<String>| opt_text(o)) == regex_group_texts(self.source(), text@, group),
    {
        self.regex.captures_iter(text).map(|c| c.get(group).map(|m| m.as_str().to_string())).collect()
    }

    /// Copies the compiled regex.
    ///
    /// Trusted: calls `regex::Regex::clone`, which shares the same compiled
    /// program; the copy keeps the source text.
    #[verifier::external_body]
    pub(crate) fn duplicate(&self) -> (r: Self)
        ensures
            r.source() == self.source(),
    {
        CompiledRegex { source: self.source.clone(), regex: self.regex.clone() }
    }
}

// ---------------------------------------------------------------------------
// Strategies
// ---------------------------------------------------------------------------
/// Strategy for pattern matching.
#[derive(Debug)]
pub enum MatchStrategy {
    /// Literal substring match with optional word boundary checks.
    Simple { pattern: String, boundary_mode: WordBoundaryMode, hyphen_mode: HyphenMode },
    /// Regex-based match; boundaries are part of the regex itself.
    Regex { regex: CompiledRegex, boundary_mode: WordBoundaryMode, hyphen_mode: HyphenMode },
}

/// The strategy was built for (a definition with the key of) `d`.
pub open spec fn strategy_fits(st: MatchStrategy, d: PatternDefinition) -> bool {
    if uses_literal(d) {
        st matches MatchStrategy::Simple { pattern, boundary_mode, hyphen_mode } && pattern@
            == d.text@ && boundary_mode == d.boundary_mode && hyphen_mode == d.hyphen_mode
    } else {
        st matches MatchStrategy::Regex { regex, boundary_mode, hyphen_mode } && regex.source()
            == regex_source_for(d) && regex_compiles(regex.source()) && boundary_mode
            == d.boundary_mode && hyphen_mode == d.hyphen_mode
    }
}

/// The byte spans one strategy reports on `t`.
pub open spec fn strategy_spans(st: MatchStrategy, t: Seq<char>) -> Seq<(usize, usize)> {
    match st {
        MatchStrategy::Simple { pattern, boundary_mode, hyphen_mode } => {
            if pattern@.len() == 0 {
                seq![]
            } else {
                literal_spans(t, pattern@, hyphen_mode, boundary_mode)
            }
        },
        MatchStrategy::Regex { regex, .. } => regex_find_spans(regex.source(), t),
    }
}

impl MatchStrategy {
    /// Copies a strategy.
    pub fn duplicate(&self) -> (r: Self)
        ensures
            forall|d: PatternDefinition| strategy_fits(*self, d) ==> strategy_fits(r, d),
            strategy_spans(r, seq![]) == strategy_spans(*self, seq![]),
            forall|t: Seq<char>| strategy_spans(r, t) == strategy_spans(*self, t),
    {
        match self {
            MatchStrategy::Simple { pattern, boundary_mode, hyphen_mode } => MatchStrategy::Simple {
                pattern: copy_string(pattern),
                boundary_mode: *boundary_mode,
                hyphen_mode: *hyphen_mode,
            },
            MatchStrategy::Regex { regex, boundary_mode, hyphen_mode } => MatchStrategy::Regex {
                regex: regex.duplicate(),
                boundary_mode: *boundary_mode,
                hyphen_mode: *hyphen_mode,
            },
        }
    }

    /// Builds the strategy for `d`, or `None` when `d` needs a regex that
    /// does not compile.
    pub fn for_definition(d: &PatternDefinition) -> (r: Option<Self>)
        ensures
            r is Some <==> (uses_literal(*d) || regex_compiles(regex_source_for(*d))),
            r matches Some(st) ==> strategy_fits(st, *d),
    {
        if !d.is_regex && is_simple_pattern(&d.text) {
            Some(
                MatchStrategy::Simple {
                    pattern: copy_string(&d.text),
                    boundary_mode: d.boundary_mode,
                    hyphen_mode: d.hyphen_mode,
                },
            )
        } else {
            let src = build_regex_source(d);
            match CompiledRegex::compile(src.as_str()) {
                Ok(regex) => Some(
                    MatchStrategy::Regex {
                        regex,
                        boundary_mode: d.boundary_mode,
                        hyphen_mode: d.hyphen_mode,
                    },
                ),
                Err(_) => None,
            }
        }
    }

    /// The byte spans this strategy reports on `text`.
    pub fn spans(&self, text: &str, t: &[char], offs: &[usize]) -> (r: Vec<(usize, usize)>)
        requires
            t@ == text@,
            offs@.len() == t@.len() + 1,
            forall|i: int| 0 <= i <= t@.len() ==> #[trigger] offs@[i] == byte_offset(t@, i),
        ensures
            r@ == strategy_spans(*self, text@),
            spans_in_order(text@, r@),
    {
        proof {
            assert(offs@[t@.len() as int] == byte_offset(t@, t@.len() as int));
            assert(t@.take(t@.len() as int) =~= t@);
        }
        match self {
            MatchStrategy::Simple { pattern, boundary_mode, hyphen_mode } => {
                let p = chars_of(pattern.as_str());
                if p.len() == 0 {
                    Vec::new()
                } else {
                    proof {
                        lemma_literal_spans_in_order(t@, p@, *hyphen_mode, *boundary_mode);
                    }
                    find_literal_spans(t, offs, &p, *hyphen_mode, *boundary_mode)
                }
            },
            MatchStrategy::Regex { regex, .. } => regex.find_spans(text),
        }
    }
}


// ---------------------------------------------------------------------------
// Pattern cache
// ---------------------------------------------------------------------------
/// Strategies built so far, keyed by pattern definition, so that repeated
/// definitions reuse their compiled form.
#[derive(Debug)]
pub struct PatternCache {
    entries: Vec<(PatternDefinition, MatchStrategy)>,
}

/// The keys held by a cache after `defs` are looked up in order, starting
/// from `keys`: each key not yet present is added at the end.
pub open spec fn keys_after(
    keys: Seq<(Seq<char>, bool, WordBoundaryMode, HyphenMode)>,
    defs: Seq<PatternDefinition>,
) -> Seq<(Seq<char>, bool, WordBoundaryMode, HyphenMode)>
    decreases defs.len(),
{
    if defs.len() == 0 {
        keys
    } else {
        let before = keys_after(keys, defs.drop_last());
        if before.contains(def_key(defs.last())) {
            before
        } else {
            before.push(def_key(defs.last()))
        }
    }
}

/// The counters after `defs` are looked up in order in a cache holding
/// `keys`: each lookup adds the pattern's byte length to the cache size and
/// counts a hit when its key was present, a miss otherwise.
pub open spec fn stats_after(
    m: MemoryStats,
    keys: Seq<(Seq<char>, bool, WordBoundaryMode, HyphenMode)>,
    defs: Seq<PatternDefinition>,
) -> MemoryStats
    decreases defs.len(),
{
    if defs.len() == 0 {
        m
    } else {
        let prev = stats_after(m, keys, defs.drop_last());
        let hit = keys_after(keys, defs.drop_last()).contains(def_key(defs.last()));
        MemoryStats {
            cache_size: cache_size_after(prev.cache_size, byte_len(defs.last().text@) as i64),
            cache_hits: if hit {
                prev.cache_hits.wrapping_add(1)
            } else {
                prev.cache_hits
            },
            cache_misses: if hit {
                prev.cache_misses
            } else {
                prev.cache_misses.wrapping_add(1)
            },
            ..prev
        }
    }
}

proof fn lemma_keys_after_push(
    keys: Seq<(Seq<char>, bool, WordBoundaryMode, HyphenMode)>,
    defs: Seq<PatternDefinition>,
    d: PatternDefinition,
)
    ensures
        keys_after(keys, defs.push(d)) == keys_after(keys_after(keys, defs), seq![d]),
{
    reveal_with_fuel(keys_after, 2);
    assert(defs.push(d).drop_last() =~= defs);
    assert(seq![d].drop_last() =~= Seq::<PatternDefinition>::empty());
}

proof fn lemma_stats_after_push(
    m: MemoryStats,
    keys: Seq<(Seq<char>, bool, WordBoundaryMode, HyphenMode)>,
    defs: Seq<PatternDefinition>,
    d: PatternDefinition,
)
    ensures
        stats_after(m, keys, defs.push(d)) == stats_after(
            stats_after(m, keys, defs),
            keys_after(keys, defs),
            seq![d],
        ),
{
    reveal_with_fuel(keys_after, 2);
    reveal_with_fuel(stats_after, 2);
    assert(defs.push(d).drop_last() =~= defs);
    assert(seq![d].drop_last() =~= Seq::<PatternDefinition>::empty());
}

impl PatternCache {
    /// Every cached strategy fits the definition it is stored under.
    #[verifier::type_invariant]
    closed spec fn entries_fit(self) -> bool {
        forall|i: int|
            0 <= i < self.entries@.len() ==> strategy_fits(
                #[trigger] self.entries@[i].1,
                self.entries@[i].0,
            )
    }

    /// The keys of the cached definitions, in insertion order.
    pub closed spec fn keys(&self) -> Seq<(Seq<char>, bool, WordBoundaryMode, HyphenMode)> {
        self.entries@.map_values(|e: (PatternDefinition, MatchStrategy)| def_key(e.0))
    }

    /// Creates an empty cache.
    pub fn new() -> (c: Self)
        ensures
            c.keys() == Seq::<(Seq<char>, bool, WordBoundaryMode, HyphenMode)>::empty(),
    {
        let c = PatternCache { entries: Vec::new() };
        assert(c.keys() =~= Seq::<(Seq<char>, bool, WordBoundaryMode, HyphenMode)>::empty());
        c
    }

    /// Number of cached definitions.
    pub fn len(&self) -> (n: usize)
        ensures
            n == self.keys().len(),
    {
        self.entries.len()
    }

    /// Removes every entry.
    pub fn clear(&mut self)
        ensures
            final(self).keys() == Seq::<(Seq<char>, bool, WordBoundaryMode, HyphenMode)>::empty(),
    {
        self.entries = Vec::new();
        assert(self.keys() =~= Seq::<(Seq<char>, bool, WordBoundaryMode, HyphenMode)>::empty());
    }

    fn find(&self, d: &PatternDefinition) -> (r: Option<usize>)
        ensures
            r matches Some(i) ==> i < self.keys().len() && self.keys()[i as int] == def_key(*d),
            r is None ==> !self.keys().contains(def_key(*d)),
    {
        let mut i: usize = 0;
        while i < self.entries.len()
            invariant
                0 <= i <= self.entries@.len(),
                forall|j: int| 0 <= j < i ==> self.keys()[j] != def_key(*d),
            decreases self.entries@.len() - i,
        {
            let e = &self.entries[i];
            if e.0.text == d.text && e.0.is_regex == d.is_regex && e.0.boundary_mode == d.boundary_mode
                && e.0.hyphen_mode == d.hyphen_mode {
                return Some(i);
            }
            i = i + 1;
        }
        proof {
            if self.keys().contains(def_key(*d)) {
                let j = choose|j: int| 0 <= j < self.keys().len() && self.keys()[j] == def_key(*d);
                assert(self.keys()[j] != def_key(*d));
            }
        }
        None
    }

    /// Looks `d` up, building and storing its strategy on a miss; records
    /// the lookup in `metrics`. Returns `None` when `d` needs a regex that
    /// does not compile (then neither the cache nor the counters change).
    pub fn lookup(&mut self, d: &PatternDefinition, metrics: &mut MemoryMetrics) -> (r: Option<
        MatchStrategy,
    >)
        requires
            byte_len(d.text@) <= i64::MAX,
        ensures
            old(self).keys().contains(def_key(*d)) ==> r is Some,
            !old(self).keys().contains(def_key(*d)) ==> (r is Some <==> (uses_literal(*d)
                || regex_compiles(regex_source_for(*d)))),
            r matches Some(st) ==> strategy_fits(st, *d),
            r is Some ==> final(self).keys() == keys_after(old(self).keys(), seq![*d]),
            r is Some ==> final(metrics)@ == stats_after(old(metrics)@, old(self).keys(), seq![*d]),
            r is None ==> final(self).keys() == old(self).keys() && final(metrics)@ == old(
                metrics,
            )@,
    {
        proof {
            use_type_invariant(&*self);
            reveal_with_fuel(keys_after, 2);
            reveal_with_fuel(stats_after, 2);
        }
        let n = d.text.as_str().as_bytes().len();
        let delta = n as i64;
        let ghost ds = seq![*d];
        assert(ds.drop_last() =~= Seq::<PatternDefinition>::empty());
        match self.find(d) {
            Some(i) => {
                let st = self.entries[i].1.duplicate();
                proof {
                    let e = self.entries@[i as int];
                    assert(self.keys()[i as int] == def_key(e.0));
                    assert(strategy_fits(e.1, e.0));
                    assert(strategy_fits(st, e.0));
                    assert(self.keys().contains(def_key(*d)));
                }
                metrics.record_cache_operation(delta, true);
                Some(st)
            },
            None => {
                match MatchStrategy::for_definition(d) {
                    Some(st) => {
                        let copy = st.duplicate();
                        let ghost old_keys = self.keys();
                        let mut entries: Vec<(PatternDefinition, MatchStrategy)> = Vec::new();
                        std::mem::swap(&mut entries, &mut self.entries);
                        entries.push((d.clone(), copy));
                        self.entries = entries;
                        proof {
                            assert(self.keys() =~= old_keys.push(def_key(*d)));
                        }
                        metrics.record_cache_operation(delta, false);
                        Some(st)
                    },
                    None => None,
                }
            },
        }
    }
}

// ---------------------------------------------------------------------------
// Matcher
// ---------------------------------------------------------------------------
/// The definitions with non-empty text, in order; the others are skipped.
pub open spec fn kept_definitions(defs: Seq<PatternDefinition>) -> Seq<PatternDefinition>
    decreases defs.len(),
{
    if defs.len() == 0 {
        seq![]
    } else if defs.last().text@.len() > 0 {
        kept_definitions(defs.drop_last()).push(defs.last())
    } else {
        kept_definitions(defs.drop_last())
    }
}

/// Every definition that needs a regex has one that compiles.
pub open spec fn all_regexes_compile(defs: Seq<PatternDefinition>) -> bool {
    forall|i: int|
        0 <= i < defs.len() ==> (#[trigger] defs[i]).text@.len() > 0 ==> (uses_literal(defs[i])
            || regex_compiles(regex_source_for(defs[i])))
}

/// Every definition's text is short enough for its length to be counted
/// as a signed 64-bit value.
pub open spec fn lengths_countable(defs: Seq<PatternDefinition>) -> bool {
    forall|i: int| 0 <= i < defs.len() ==> byte_len((#[trigger] defs[i]).text@) <= i64::MAX
}

/// Handles pattern matching operations.
#[derive(Debug)]
pub struct PatternMatcher {
    strategies: Vec<MatchStrategy>,
    metrics: MemoryMetrics,
}

/// Concatenation of the spans of each strategy, in strategy order.
pub open spec fn all_spans(sts: Seq<MatchStrategy>, t: Seq<char>) -> Seq<(usize, usize)>
    decreases sts.len(),
{
    if sts.len() == 0 {
        seq![]
    } else {
        all_spans(sts.drop_last(), t) + strategy_spans(sts.last(), t)
    }
}

/// Inserts `x` after every element whose start is not greater than its own.
pub open spec fn insert_by_start(s: Seq<(usize, usize)>, x: (usize, usize)) -> Seq<(usize, usize)>
    decreases s.len(),
{
    if s.len() == 0 {
        seq![x]
    } else if s.last().0 <= x.0 {
        s.push(x)
    } else {
        insert_by_start(s.drop_last(), x).push(s.last())
    }
}

/// Stable sort of spans by their start.
pub open spec fn sort_by_start(s: Seq<(usize, usize)>) -> Seq<(usize, usize)>
    decreases s.len(),
{
    if s.len() == 0 {
        s
    } else {
        insert_by_start(sort_by_start(s.drop_last()), s.last())
    }
}

proof fn lemma_insert_by_start_split(s: Seq<(usize, usize)>, x: (usize, usize), k: int)
    requires
        0 < k <= s.len(),
        s[k - 1].0 > x.0,
    ensures
        insert_by_start(s.take(k), x) == insert_by_start(s.take(k - 1), x).push(s[k - 1]),
{
    assert(s.take(k).drop_last() =~= s.take(k - 1));
}

/// Spans are in non-decreasing order of their start.
pub open spec fn sorted_by_start(s: Seq<(usize, usize)>) -> bool {
    forall|i: int, j: int| 0 <= i < j < s.len() ==> #[trigger] s[i].0 <= #[trigger] s[j].0
}

proof fn lemma_insert_by_start_facts(s: Seq<(usize, usize)>, x: (usize, usize))
    ensures
        insert_by_start(s, x).to_multiset() =~= s.to_multiset().insert(x),
        sorted_by_start(s) ==> sorted_by_start(insert_by_start(s, x)),
    decreases s.len(),
{
    broadcast use vstd::seq_lib::group_to_multiset_ensures;

    if s.len() == 0 {
        assert(seq![x] =~= Seq::<(usize, usize)>::empty().push(x));
    } else if s.last().0 <= x.0 {
    } else {
        let d = s.drop_last();
        lemma_insert_by_start_facts(d, x);
        assert(s =~= d.push(s.last()));
        let r = insert_by_start(d, x);
        if sorted_by_start(s) {
            assert(sorted_by_start(d));
            assert forall|k: int| 0 <= k < r.len() implies #[trigger] r[k].0 <= s.last().0 by {
                assert(r.to_multiset().count(r[k]) > 0);
                assert(d.to_multiset().insert(x).count(r[k]) > 0);
                if r[k] != x {
                    assert(d.to_multiset().count(r[k]) > 0);
                    assert(d.contains(r[k]));
                    let j = choose|j: int| 0 <= j < d.len() && d[j] == r[k];
                    assert(s[j] == d[j]);
                    assert(s[j].0 <= s[s.len() - 1].0);
                }
            }
            let t = r.push(s.last());
            assert forall|i: int, j: int| 0 <= i < j < t.len() implies #[trigger] t[i].0 <= #[trigger] t[j].0 by {
                if j == t.len() - 1 {
                    assert(t[i] == r[i]);
                } else {
                    assert(t[i] == r[i] && t[j] == r[j]);
                }
            }
        }
    }
}

/// Sorting by start keeps exactly the same spans and leaves them in
/// non-decreasing order of their start.
pub proof fn lemma_sort_by_start(s: Seq<(usize, usize)>)
    ensures
        sort_by_start(s).to_multiset() =~= s.to_multiset(),
        sorted_by_start(sort_by_start(s)),
        sort_by_start(s).len() == s.len(),
    decreases s.len(),
{
    broadcast use vstd::seq_lib::group_to_multiset_ensures;

    if s.len() > 0 {
        lemma_sort_by_start(s.drop_last());
        lemma_insert_by_start_facts(sort_by_start(s.drop_last()), s.last());
        assert(s =~= s.drop_last().push(s.last()));
    }
    assert(sort_by_start(s).to_multiset().len() == sort_by_start(s).len());
    assert(s.to_multiset().len() == s.len());
}

fn insert_sorted(v: &mut Vec<(usize, usize)>, x: (usize, usize))
    ensures
        final(v)@ == insert_by_start(old(v)@, x),
{
    let ghost s = v@;
    let mut k = v.len();
    assert(s.take(k as int) =~= s);
    assert(s.skip(k as int) =~= Seq::<(usize, usize)>::empty());
    while k > 0 && v[k - 1].0 > x.0
        invariant
            v@ == s,
            0 <= k <= s.len(),
            insert_by_start(s, x) == insert_by_start(s.take(k as int), x) + s.skip(k as int),
        decreases k,
    {
        proof {
            lemma_insert_by_start_split(s, x, k as int);
            assert(insert_by_start(s.take(k - 1), x).push(s[k - 1]) + s.skip(k as int)
                =~= insert_by_start(s.take(k - 1), x) + s.skip(k - 1));
        }
        k = k - 1;
    }
    proof {
        if k == 0 {
            assert(s.take(0) =~= Seq::<(usize, usize)>::empty());
        } else {
            assert(s.take(k as int).last() == s[k - 1]);
        }
    }
    v.insert(k, x);
    assert(v@ =~= insert_by_start(s.take(k as int), x) + s.skip(k as int));
}

pub fn sort_spans(v: &Vec<(usize, usize)>) -> (r: Vec<(usize, usize)>)
    ensures
        r@ == sort_by_start(v@),
{
    let mut r: Vec<(usize, usize)> = Vec::new();
    let mut i: usize = 0;
    assert(v@.take(0) =~= Seq::<(usize, usize)>::empty());
    while i < v.len()
        invariant
            0 <= i <= v@.len(),
            r@ == sort_by_start(v@.take(i as int)),
        decreases v@.len() - i,
    {
        insert_sorted(&mut r, v[i]);
        assert(v@.take(i + 1).drop_last() =~= v@.take(i as int));
        i = i + 1;
    }
    assert(v@.take(v@.len() as int) =~= v@);
    r
}

fn append_spans(out: &mut Vec<(usize, usize)>, s: Vec<(usize, usize)>)
    ensures
        final(out)@ == old(out)@ + s@,
{
    let mut i: usize = 0;
    while i < s.len()
        invariant
            0 <= i <= s@.len(),
            out@ == old(out)@ + s@.take(i as int),
        decreases s@.len() - i,
    {
        out.push(s[i]);
        assert(s@.take(i as int).push(s@[i as int]) =~= s@.take(i + 1));
        i = i + 1;
    }
    assert(s@.take(s@.len() as int) =~= s@);
}

/// The definitions that plain pattern strings stand for: literal, without
/// boundary checks, with joining hyphens.
pub open spec fn legacy_definitions(patterns: Seq<String>) -> Seq<PatternDefinition> {
    patterns.map_values(
        |p: String|
            PatternDefinition {
                text: p,
                is_regex: false,
                boundary_mode: WordBoundaryMode::NoBoundary,
                hyphen_mode: HyphenMode::Joining,
            },
    )
}

fn legacy_defs(patterns: Vec<String>) -> (r: Vec<PatternDefinition>)
    ensures
        r@ == legacy_definitions(patterns@),
{
    let mut r: Vec<PatternDefinition> = Vec::new();
    let mut i: usize = 0;
    while i < patterns.len()
        invariant
            0 <= i <= patterns@.len(),
            r@ == legacy_definitions(patterns@.take(i as int)),
        decreases patterns@.len() - i,
    {
        r.push(
            PatternDefinition {
                text: copy_string(&patterns[i]),
                is_regex: false,
                boundary_mode: WordBoundaryMode::NoBoundary,
                hyphen_mode: HyphenMode::Joining,
            },
        );
        assert(legacy_definitions(patterns@.take(i + 1)) =~= legacy_definitions(
            patterns@.take(i as int),
        ).push(r@.last()));
        i = i + 1;
    }
    assert(patterns@.take(patterns@.len() as int) =~= patterns@);
    r
}

/// Checks [`lengths_countable`].
pub fn definitions_countable(defs: &Vec<PatternDefinition>) -> (b: bool)
    ensures
        b == lengths_countable(defs@),
{
    let mut i: usize = 0;
    while i < defs.len()
        invariant
            0 <= i <= defs@.len(),
            forall|j: int| 0 <= j < i ==> byte_len((#[trigger] defs@[j]).text@) <= i64::MAX,
        decreases defs@.len() - i,
    {
        if (defs[i].text.as_str().as_bytes().len() as u64) > 0x7FFF_FFFF_FFFF_FFFFu64 {
            return false;
        }
        i = i + 1;
    }
    true
}

/// Checks [`all_regexes_compile`] by compiling each needed regex.
pub fn definitions_compile(defs: &Vec<PatternDefinition>) -> (b: bool)
    ensures
        b == all_regexes_compile(defs@),
{
    let mut i: usize = 0;
    while i < defs.len()
        invariant
            0 <= i <= defs@.len(),
            all_regexes_compile(defs@.take(i as int)),
        decreases defs@.len() - i,
    {
        let d = &defs[i];
        let ghost next = defs@.take(i + 1);
        let has_text = d.text.as_str().as_bytes().len() > 0;
        proof {
            lemma_byte_len_zero(d.text@);
        }
        if has_text && !(!d.is_regex && is_simple_pattern(&d.text)) {
            let src = build_regex_source(d);
            if CompiledRegex::compile(src.as_str()).is_err() {
                assert(defs@[i as int] == *d);
                return false;
            }
        }
        assert forall|j: int|
            0 <= j < next.len() && (#[trigger] next[j]).text@.len() > 0 implies (uses_literal(
            next[j],
        ) || regex_compiles(regex_source_for(next[j]))) by {
            if j < i {
                assert(next[j] == defs@.take(i as int)[j]);
            }
        }
        i = i + 1;
    }
    assert(defs@.take(defs@.len() as int) =~= defs@);
    true
}

/// A definition needs a regex that does not compile.
pub open spec fn definition_fails(d: PatternDefinition) -> bool {
    d.text@.len() > 0 && !uses_literal(d) && !regex_compiles(regex_source_for(d))
}

/// The index of the first definition from `from` on that needs a regex
/// that does not compile.
pub open spec fn first_failing_definition(defs: Seq<PatternDefinition>, from: int) -> Option<int>
    decreases defs.len() - from,
{
    if from < 0 || from >= defs.len() {
        None
    } else if definition_fails(defs[from]) {
        Some(from)
    } else {
        first_failing_definition(defs, from + 1)
    }
}

/// The message reporting a regex that does not compile.
pub open spec fn invalid_regex_message(source: Seq<char>) -> Seq<char> {
    "Invalid regex pattern: "@ + regex_error_message(source)
}

/// Checks that every regex the definitions need compiles: `Ok` when they
/// all do (see [`all_regexes_compile`]), otherwise an invalid-pattern
/// error with the regex error of the first definition whose regex does not
/// compile.
pub fn check_definitions(defs: &Vec<PatternDefinition>) -> (r: Result<(), SearchError>)
    ensures
        r is Ok <==> all_regexes_compile(defs@),
        match first_failing_definition(defs@, 0) {
            Some(k) => r matches Err(SearchError::InvalidPattern(m)) && m@ == invalid_regex_message(
                regex_source_for(defs@[k]),
            ),
            None => r is Ok,
        },
{
    let mut i: usize = 0;
    while i < defs.len()
        invariant
            0 <= i <= defs@.len(),
            forall|j: int| 0 <= j < i ==> !definition_fails(#[trigger] defs@[j]),
            first_failing_definition(defs@, 0) == first_failing_definition(defs@, i as int),
        decreases defs@.len() - i,
    {
        let d = &defs[i];
        let has_text = d.text.as_str().as_bytes().len() > 0;
        proof {
            lemma_byte_len_zero(d.text@);
        }
        if has_text && !(!d.is_regex && is_simple_pattern(&d.text)) {
            let src = build_regex_source(d);
            match CompiledRegex::compile(src.as_str()) {
                Ok(_) => {},
                Err(m) => {
                    assert(definition_fails(defs@[i as int]));
                    let msg = concat_text("Invalid regex pattern: ", m.as_str());
                    return Err(SearchError::InvalidPattern(msg));
                },
            }
        }
        i = i + 1;
    }
    proof {
        assert forall|j: int|
            0 <= j < defs@.len() && (#[trigger] defs@[j]).text@.len() > 0 implies (uses_literal(
            defs@[j],
        ) || regex_compiles(regex_source_for(defs@[j]))) by {
            assert(!definition_fails(defs@[j]));
        }
    }
    Ok(())
}

impl PatternMatcher {
    /// The strategies, one per definition with non-empty text.
    pub closed spec fn strategies(&self) -> Seq<MatchStrategy> {
        self.strategies@
    }

    /// The counters recorded while the matcher was built.
    pub closed spec fn metrics_view(&self) -> MemoryStats {
        self.metrics@
    }

    /// Gets the memory metrics recorded while the matcher was built.
    pub fn metrics(&self) -> (m: &MemoryMetrics)
        ensures
            m@ == self.metrics_view(),
    {
        &self.metrics
    }

    /// Builds a matcher from pattern definitions, looking each definition
    /// with non-empty text up in `cache` and recording the lookups in
    /// `metrics`. Returns `None` when a definition needs a regex that does
    /// not compile.
    pub fn try_with_metrics(
        patterns: Vec<PatternDefinition>,
        metrics: &mut MemoryMetrics,
        cache: &mut PatternCache,
    ) -> (r: Option<Self>)
        requires
            lengths_countable(patterns@),
        ensures
            r is Some <==> all_regexes_compile(patterns@),
            r matches Some(m) ==> {
                &&& m.strategies().len() == kept_definitions(patterns@).len()
                &&& forall|i: int|
                    0 <= i < m.strategies().len() ==> strategy_fits(
                        #[trigger] m.strategies()[i],
                        kept_definitions(patterns@)[i],
                    )
                &&& final(cache).keys() == keys_after(old(cache).keys(), kept_definitions(patterns@))
                &&& final(metrics)@ == stats_after(
                    old(metrics)@,
                    old(cache).keys(),
                    kept_definitions(patterns@),
                )
                &&& m.metrics_view() == final(metrics)@
            },
    {
        let mut strategies: Vec<MatchStrategy> = Vec::new();
        let ghost keys0 = cache.keys();
        let ghost stats0 = metrics@;
        let mut i: usize = 0;
        assert(patterns@.take(0) =~= Seq::<PatternDefinition>::empty());
        while i < patterns.len()
            invariant
                0 <= i <= patterns@.len(),
                lengths_countable(patterns@),
                all_regexes_compile(patterns@.take(i as int)),
                strategies@.len() == kept_definitions(patterns@.take(i as int)).len(),
                forall|j: int|
                    0 <= j < strategies@.len() ==> strategy_fits(
                        #[trigger] strategies@[j],
                        kept_definitions(patterns@.take(i as int))[j],
                    ),
                cache.keys() == keys_after(keys0, kept_definitions(patterns@.take(i as int))),
                metrics@ == stats_after(stats0, keys0, kept_definitions(patterns@.take(i as int))),
            decreases patterns@.len() - i,
        {
            let d = &patterns[i];
            let ghost prefix = patterns@.take(i as int);
            let ghost next = patterns@.take(i + 1);
            assert(next.drop_last() =~= prefix);
            assert(next.last() == *d);
            if d.text.as_str().as_bytes().len() == 0 {
                proof {
                    lemma_byte_len_zero(d.text@);
                    assert(all_regexes_compile(next)) by {
                        assert forall|j: int|
                            0 <= j < next.len() && (#[trigger] next[j]).text@.len()
                                > 0 implies (uses_literal(next[j]) || regex_compiles(
                            regex_source_for(next[j]),
                        )) by {
                            assert(j < i);
                            assert(next[j] == prefix[j]);
                        }
                    }
                }
            } else {
                proof {
                    lemma_byte_len_zero(d.text@);
                    assert(byte_len(patterns@[i as int].text@) <= i64::MAX);
                }
                let ghost kp = kept_definitions(prefix);
                assert(kp.push(*d).drop_last() =~= kp);
                match cache.lookup(d, metrics) {
                    Some(st) => {
                        strategies.push(st);
                        proof {
                            assert(all_regexes_compile(next)) by {
                                assert forall|j: int|
                                    0 <= j < next.len() && (#[trigger] next[j]).text@.len()
                                        > 0 implies (uses_literal(next[j]) || regex_compiles(
                                    regex_source_for(next[j]),
                                )) by {
                                    if j < i {
                                        assert(next[j] == prefix[j]);
                                    } else {
                                        assert(strategy_fits(st, *d));
                                    }
                                }
                            }
                            assert(kept_definitions(next) == kp.push(*d));
                            lemma_keys_after_push(keys0, kp, *d);
                            lemma_stats_after_push(stats0, keys0, kp, *d);
                        }
                    },
                    None => {
                        proof {
                            assert(!all_regexes_compile(patterns@)) by {
                                assert(patterns@[i as int] == *d);
                                assert(d.text@.len() > 0);
                            }
                        }
                        return None;
                    },
                }
            }
            i = i + 1;
        }
        assert(patterns@.take(patterns@.len() as int) =~= patterns@);
        Some(PatternMatcher { strategies, metrics: metrics.snapshot() })
    }

    /// Builds a matcher from pattern definitions (see [`Self::try_with_metrics`]);
    /// every definition that needs a regex must have one that compiles.
    pub fn with_metrics(
        patterns: Vec<PatternDefinition>,
        metrics: &mut MemoryMetrics,
        cache: &mut PatternCache,
    ) -> (m: Self)
        requires
            lengths_countable(patterns@),
            all_regexes_compile(patterns@),
        ensures
            m.strategies().len() == kept_definitions(patterns@).len(),
            forall|i: int|
                0 <= i < m.strategies().len() ==> strategy_fits(
                    #[trigger] m.strategies()[i],
                    kept_definitions(patterns@)[i],
                ),
            final(cache).keys() == keys_after(old(cache).keys(), kept_definitions(patterns@)),
            final(metrics)@ == stats_after(old(metrics)@, old(cache).keys(), kept_definitions(patterns@)),
            m.metrics_view() == final(metrics)@,
    {
        match Self::try_with_metrics(patterns, metrics, cache) {
            Some(m) => m,
            None => PatternMatcher { strategies: Vec::new(), metrics: MemoryMetrics::new() },
        }
    }

    /// Creates a new PatternMatcher from pattern definitions, with fresh
    /// counters and an empty cache.
    pub fn from_definitions(patterns: Vec<PatternDefinition>) -> (m: Self)
        requires
            lengths_countable(patterns@),
            all_regexes_compile(patterns@),
        ensures
            m.strategies().len() == kept_definitions(patterns@).len(),
            forall|i: int|
                0 <= i < m.strategies().len() ==> strategy_fits(
                    #[trigger] m.strategies()[i],
                    kept_definitions(patterns@)[i],
                ),
    {
        let mut metrics = MemoryMetrics::new();
        let mut cache = PatternCache::new();
        Self::with_metrics(patterns, &mut metrics, &mut cache)
    }

    /// Like [`Self::from_definitions`], but returns `None` instead of
    /// requiring that every needed regex compiles and that every pattern
    /// length is countable.
    pub fn try_from_definitions(patterns: Vec<PatternDefinition>) -> (r: Option<Self>)
        ensures
            r is Some <==> (lengths_countable(patterns@) && all_regexes_compile(patterns@)),
            r matches Some(m) ==> {
                &&& m.strategies().len() == kept_definitions(patterns@).len()
                &&& forall|i: int|
                    0 <= i < m.strategies().len() ==> strategy_fits(
                        #[trigger] m.strategies()[i],
                        kept_definitions(patterns@)[i],
                    )
            },
    {
        if definitions_countable(&patterns) && definitions_compile(&patterns) {
            Some(Self::from_definitions(patterns))
        } else {
            None
        }
    }

    /// Creates a matcher for literal patterns without boundary checks
    /// (joining hyphens).
    pub fn new(patterns: Vec<String>) -> (m: Self)
        requires
            lengths_countable(legacy_definitions(patterns@)),
            all_regexes_compile(legacy_definitions(patterns@)),
        ensures
            m.strategies().len() == kept_definitions(legacy_definitions(patterns@)).len(),
            forall|i: int|
                0 <= i < m.strategies().len() ==> strategy_fits(
                    #[trigger] m.strategies()[i],
                    kept_definitions(legacy_definitions(patterns@))[i],
                ),
    {
        let defs = legacy_defs(patterns);
        Self::from_definitions(defs)
    }

    /// Like [`Self::new`], but returns `None` instead of requiring that the
    /// patterns are usable.
    pub fn try_new(patterns: Vec<String>) -> (r: Option<Self>)
        ensures
            r is Some <==> (lengths_countable(legacy_definitions(patterns@)) && all_regexes_compile(
                legacy_definitions(patterns@),
            )),
    {
        let copy = copy_strings(&patterns);
        let defs = legacy_defs(copy);
        if definitions_countable(&defs) && definitions_compile(&defs) {
            Some(Self::new(patterns))
        } else {
            None
        }
    }

    /// Finds all matches in `text`: the byte spans of every strategy,
    /// concatenated in strategy order and sorted (stably) by start.
    pub fn find_matches(&self, text: &str) -> (r: Vec<(usize, usize)>)
        ensures
            r@ == sort_by_start(all_spans(self.strategies(), text@)),
            sorted_by_start(r@),
            forall|i: int| 0 <= i < r@.len() ==> span_within(text@, #[trigger] r@[i]),
    {
        let t = chars_of(text);
        // The UTF-8 length of the text fits in a usize.
        let _byte_len = text.as_bytes().len();
        let offs = byte_offsets(&t);
        let mut all: Vec<(usize, usize)> = Vec::new();
        let mut i: usize = 0;
        assert(self.strategies@.take(0) =~= Seq::<MatchStrategy>::empty());
        while i < self.strategies.len()
            invariant
                0 <= i <= self.strategies@.len(),
                t@ == text@,
                offs@.len() == t@.len() + 1,
                forall|k: int| 0 <= k <= t@.len() ==> #[trigger] offs@[k] == byte_offset(t@, k),
                all@ == all_spans(self.strategies@.take(i as int), text@),
                forall|k: int| 0 <= k < all@.len() ==> span_within(text@, #[trigger] all@[k]),
            decreases self.strategies@.len() - i,
        {
            let spans = self.strategies[i].spans(text, &t, &offs);
            let ghost before = all@;
            append_spans(&mut all, spans);
            assert forall|k: int| 0 <= k < all@.len() implies span_within(text@, #[trigger] all@[k]) by {
                if k < before.len() {
                    assert(all@[k] == before[k]);
                } else {
                    assert(all@[k] == spans@[k - before.len()]);
                }
            }
            assert(self.strategies@.take(i + 1).drop_last() =~= self.strategies@.take(i as int));
            i = i + 1;
        }
        assert(self.strategies@.take(self.strategies@.len() as int) =~= self.strategies@);
        let r = sort_spans(&all);
        proof {
            broadcast use vstd::seq_lib::group_to_multiset_ensures;

            lemma_sort_by_start(all@);
            assert forall|k: int| 0 <= k < r@.len() implies span_within(text@, #[trigger] r@[k]) by {
                assert(r@.to_multiset().count(r@[k]) > 0);
                assert(all@.to_multiset().count(r@[k]) > 0);
                assert(all@.contains(r@[k]));
                let j = choose|j: int| 0 <= j < all@.len() && all@[j] == r@[k];
                assert(span_within(text@, all@[j]));
            }
        }
        r
    }
}
} // verus!
