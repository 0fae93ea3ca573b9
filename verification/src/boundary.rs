//! Word-boundary rules for literal pattern matches.
//!
//! Positions are character indices into the text; a match occupies the
//! characters `[s, e)`.
use vstd::prelude::*;

use crate::text::matches_at;
use crate::unicode::{
    is_always_joiner, is_always_joiner_spec, is_hyphen, is_hyphen_spec, is_math_symbol,
    is_math_symbol_spec, is_white_space, is_white_space_spec, is_word_char, is_word_char_spec,
};

verus! {

/// Defines how word boundaries are interpreted for a pattern.
#[derive(Debug, Clone, Copy, PartialEq, Eq, Structural, Hash)]
pub enum WordBoundaryMode {
    /// No boundary checking.
    NoBoundary,
    /// Whole words only, with strict token separation.
    WholeWords,
    /// Partial matches inside repeated tokens are allowed; for example
    /// "YOLO" matches twice within "YOLOYOLO".
    Partial,
}

/// Defines how hyphens are handled in word boundaries.
#[derive(Debug, Clone, Copy, PartialEq, Eq, Structural, Hash)]
pub enum HyphenMode {
    /// Hyphens separate words (natural text).
    Boundary,
    /// Hyphens join words (code identifiers).
    Joining,
}

impl Default for HyphenMode {
    fn default() -> (m: Self)
        ensures
            m == HyphenMode::Joining,
    {
        HyphenMode::Joining
    }
}

/// An underscore at `u` sits between a mathematical symbol and a word
/// character (in either order).
pub open spec fn bridges_math(t: Seq<char>, u: int) -> bool {
    let before = t[u - 1];
    let after = t[u + 1];
    (is_math_symbol_spec(before) && is_word_char_spec(after)) || (is_math_symbol_spec(after)
        && is_word_char_spec(before))
}

/// In partial mode with joining hyphens, an underscore at `u` next to a
/// match lets the match stand unless it bridges a math symbol and a word.
pub open spec fn underscore_allows_partial(t: Seq<char>, u: int) -> bool {
    if u == 0 || u >= t.len() - 1 {
        true
    } else {
        !bridges_math(t, u)
    }
}

/// In whole-word mode, an underscore at `u` joins the words around it:
/// always with joining hyphens; with boundary hyphens unless it is at an
/// edge of the text or bridges a math symbol and a word.
pub open spec fn underscore_joins(t: Seq<char>, u: int, hm: HyphenMode) -> bool {
    if hm == HyphenMode::Joining {
        true
    } else if u == 0 || u >= t.len() - 1 {
        false
    } else {
        !bridges_math(t, u)
    }
}

/// The character at `pos` continues the word next to a match.
pub open spec fn continues_word(t: Seq<char>, pos: int, hm: HyphenMode, bm: WordBoundaryMode) -> bool {
    let c = t[pos];
    if is_white_space_spec(c) {
        false
    } else if is_word_char_spec(c) {
        true
    } else if is_hyphen_spec(c) {
        hm == HyphenMode::Joining
    } else if c == '_' {
        if bm == WordBoundaryMode::WholeWords {
            underscore_joins(t, pos, hm)
        } else {
            true
        }
    } else if is_always_joiner_spec(c) {
        true
    } else {
        hm == HyphenMode::Joining && is_math_symbol_spec(c)
    }
}

/// The pattern also occurs immediately before or immediately after the match.
pub open spec fn part_of_repeat(t: Seq<char>, s: int, e: int, p: Seq<char>) -> bool {
    (s >= p.len() && t.subrange(s - p.len(), s) == p) || (e + p.len() <= t.len() && t.subrange(
        e,
        e + p.len(),
    ) == p)
}

/// Whether a match of `p` at `[s, e)` respects the boundary rules.
pub open spec fn boundary_ok(
    t: Seq<char>,
    s: int,
    e: int,
    p: Seq<char>,
    hm: HyphenMode,
    bm: WordBoundaryMode,
) -> bool {
    match bm {
        WordBoundaryMode::NoBoundary => true,
        WordBoundaryMode::Partial => {
            hm != HyphenMode::Joining || {
                &&& !(s > 0 && is_hyphen_spec(t[s - 1]))
                &&& !(e < t.len() && is_hyphen_spec(t[e]))
                &&& !(s > 0 && t[s - 1] == '_' && !underscore_allows_partial(t, s - 1))
                &&& !(e < t.len() && t[e] == '_' && !underscore_allows_partial(t, e))
            }
        },
        WordBoundaryMode::WholeWords => {
            &&& !part_of_repeat(t, s, e, p)
            &&& !(s > 0 && continues_word(t, s - 1, hm, bm))
            &&& !(e < t.len() && continues_word(t, e, hm, bm))
        },
    }
}

/// Hyphens join words by default: in whole-word mode with joining hyphens,
/// a match with a hyphen right before or right after it is rejected.
pub proof fn lemma_hyphen_joins_whole_words(t: Seq<char>, s: int, e: int, p: Seq<char>)
    requires
        0 <= s <= e <= t.len(),
        (s > 0 && is_hyphen_spec(t[s - 1])) || (e < t.len() && is_hyphen_spec(t[e])),
    ensures
        !boundary_ok(t, s, e, p, HyphenMode::Joining, WordBoundaryMode::WholeWords),
{
    if s > 0 && is_hyphen_spec(t[s - 1]) {
        assert(!is_white_space_spec(t[s - 1]));
        assert(continues_word(t, s - 1, HyphenMode::Joining, WordBoundaryMode::WholeWords));
    } else {
        assert(!is_white_space_spec(t[e]));
        assert(continues_word(t, e, HyphenMode::Joining, WordBoundaryMode::WholeWords));
    }
}

/// An underscore at `u` with a character on each side that does not stand
/// between a mathematical symbol and a word character.
pub open spec fn joining_underscore(t: Seq<char>, u: int) -> bool {
    0 < u < t.len() - 1 && !bridges_math(t, u)
}

/// Underscores join words: in whole-word mode, a match with an underscore
/// right before or right after it is rejected. With joining hyphens this
/// holds of every underscore; with boundary hyphens of one that has a
/// character on each side and does not stand between a mathematical symbol
/// and a word character.
pub proof fn lemma_underscore_joins_whole_words(t: Seq<char>, s: int, e: int, p: Seq<char>, hm: HyphenMode)
    requires
        0 <= s <= e <= t.len(),
        (s > 0 && t[s - 1] == '_' && (hm == HyphenMode::Joining || joining_underscore(t, s - 1))) || (e
            < t.len() && t[e] == '_' && (hm == HyphenMode::Joining || joining_underscore(t, e))),
    ensures
        !boundary_ok(t, s, e, p, hm, WordBoundaryMode::WholeWords),
{
    let u = '_';
    assert(!is_white_space_spec(u));
    if s > 0 && t[s - 1] == '_' && (hm == HyphenMode::Joining || joining_underscore(t, s - 1)) {
        assert(continues_word(t, s - 1, hm, WordBoundaryMode::WholeWords));
    } else {
        assert(continues_word(t, e, hm, WordBoundaryMode::WholeWords));
    }
}

fn bridges_math_exec(t: &[char], u: usize) -> (b: bool)
    requires
        0 < u,
        u + 1 < t@.len(),
    ensures
        b == bridges_math(t@, u as int),
{
    let before = t[u - 1];
    let after = t[u + 1];
    (is_math_symbol(before) && is_word_char(after)) || (is_math_symbol(after) && is_word_char(
        before,
    ))
}

fn underscore_allows_partial_exec(t: &[char], u: usize) -> (b: bool)
    requires
        u < t@.len(),
    ensures
        b == underscore_allows_partial(t@, u as int),
{
    if u == 0 || u >= t.len() - 1 {
        true
    } else {
        !bridges_math_exec(t, u)
    }
}

fn underscore_joins_exec(t: &[char], u: usize, hm: HyphenMode) -> (b: bool)
    requires
        u < t@.len(),
    ensures
        b == underscore_joins(t@, u as int, hm),
{
    if hm == HyphenMode::Joining {
        true
    } else if u == 0 || u >= t.len() - 1 {
        false
    } else {
        !bridges_math_exec(t, u)
    }
}

fn continues_word_exec(t: &[char], pos: usize, hm: HyphenMode, bm: WordBoundaryMode) -> (b: bool)
    requires
        pos < t@.len(),
    ensures
        b == continues_word(t@, pos as int, hm, bm),
{
    let c = t[pos];
    if is_white_space(c) {
        false
    } else if is_word_char(c) {
        true
    } else if is_hyphen(c) {
        hm == HyphenMode::Joining
    } else if c == '_' {
        if bm == WordBoundaryMode::WholeWords {
            underscore_joins_exec(t, pos, hm)
        } else {
            true
        }
    } else if is_always_joiner(c) {
        true
    } else {
        hm == HyphenMode::Joining && is_math_symbol(c)
    }
}

fn part_of_repeat_exec(t: &[char], s: usize, e: usize, p: &[char]) -> (b: bool)
    requires
        s <= e <= t@.len(),
    ensures
        b == part_of_repeat(t@, s as int, e as int, p@),
{
    let before = if s >= p.len() {
        let r = matches_at(t, p, s - p.len());
        proof {
            if r {
                assert(t@.subrange(s - p@.len(), s as int) == p@);
            } else {
                assert((s - p@.len()) + p@.len() == s);
            }
        }
        r
    } else {
        false
    };
    let after = if p.len() <= t.len() - e {
        matches_at(t, p, e)
    } else {
        false
    };
    before || after
}

/// Decides [`boundary_ok`] for a match of `p` at `[s, e)`.
pub fn boundary_ok_exec(
    t: &[char],
    s: usize,
    e: usize,
    p: &[char],
    hm: HyphenMode,
    bm: WordBoundaryMode,
) -> (b: bool)
    requires
        s <= e <= t@.len(),
    ensures
        b == boundary_ok(t@, s as int, e as int, p@, hm, bm),
{
    match bm {
        WordBoundaryMode::NoBoundary => true,
        WordBoundaryMode::Partial => {
            if hm != HyphenMode::Joining {
                return true;
            }
            if s > 0 && is_hyphen(t[s - 1]) {
                return false;
            }
            if e < t.len() && is_hyphen(t[e]) {
                return false;
            }
            if s > 0 && t[s - 1] == '_' && !underscore_allows_partial_exec(t, s - 1) {
                return false;
            }
            if e < t.len() && t[e] == '_' && !underscore_allows_partial_exec(t, e) {
                return false;
            }
            true
        },
        WordBoundaryMode::WholeWords => {
            if part_of_repeat_exec(t, s, e, p) {
                return false;
            }
            if s > 0 && continues_word_exec(t, s - 1, hm, bm) {
                return false;
            }
            if e < t.len() && continues_word_exec(t, e, hm, bm) {
                return false;
            }
            true
        },
    }
}

} // verus!
