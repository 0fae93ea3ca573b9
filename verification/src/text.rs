//! Character-level text utilities shared by the matcher, the processor and
//! the replacement planner.
//!
//! Text is examined as a sequence of `char`s; byte offsets (as used by the
//! public match spans) are derived from the UTF-8 encoding of a prefix.
use vstd::prelude::*;
use vstd::utf8::*;

use crate::unicode::{is_white_space, is_white_space_spec};

verus! {

/// Number of UTF-8 bytes that encode the first `i` characters of `s`.
pub open spec fn byte_len(s: Seq<char>) -> nat {
    encode_utf8(s).len()
}

/// Byte offset of character index `i` within `s`.
pub open spec fn byte_offset(s: Seq<char>, i: int) -> nat {
    byte_len(s.take(i))
}

/// Encoding a concatenation is concatenating the encodings.
pub proof fn lemma_encode_utf8_add(a: Seq<char>, b: Seq<char>)
    ensures
        encode_utf8(a + b) == encode_utf8(a) + encode_utf8(b),
    decreases a.len(),
{
    if a.len() == 0 {
        assert(a + b =~= b);
        assert(encode_utf8(a) =~= Seq::<u8>::empty());
        assert(encode_utf8(a) + encode_utf8(b) =~= encode_utf8(b));
    } else {
        lemma_encode_utf8_add(a.drop_first(), b);
        assert((a + b).drop_first() =~= a.drop_first() + b);
        assert((a + b)[0] == a[0]);
        assert(encode_utf8(a + b) =~= encode_scalar(a[0] as u32) + encode_utf8(a.drop_first() + b));
        assert(encode_utf8(a) =~= encode_scalar(a[0] as u32) + encode_utf8(a.drop_first()));
    }
}

/// The encoding of one more character adds that character's width.
pub proof fn lemma_byte_len_push(s: Seq<char>, c: char)
    ensures
        byte_len(s.push(c)) == byte_len(s) + encode_scalar(c as u32).len(),
{
    lemma_encode_utf8_add(s, seq![c]);
    assert(s.push(c) =~= s + seq![c]);
    assert(seq![c].drop_first() =~= Seq::<char>::empty());
    assert(encode_utf8(seq![c]) =~= encode_scalar(c as u32) + encode_utf8(Seq::<char>::empty()));
}

/// Byte length of a prefix never exceeds that of the whole.
pub proof fn lemma_byte_len_prefix(s: Seq<char>, i: int, j: int)
    requires
        0 <= i <= j <= s.len(),
    ensures
        byte_offset(s, i) <= byte_offset(s, j),
        byte_offset(s, j) <= byte_len(s),
{
    lemma_encode_utf8_add(s.take(i), s.subrange(i, j));
    assert(s.take(i) + s.subrange(i, j) =~= s.take(j));
    lemma_encode_utf8_add(s.take(j), s.skip(j));
    assert(s.take(j) + s.skip(j) =~= s);
}

/// Only the empty text has no bytes.
pub proof fn lemma_byte_len_zero(s: Seq<char>)
    ensures
        byte_len(s) == 0 <==> s.len() == 0,
{
    if s.len() > 0 {
        assert(encode_utf8(s) == encode_scalar(s[0] as u32) + encode_utf8(s.drop_first()));
        assert(encode_scalar(s[0] as u32).len() >= 1);
    } else {
        assert(encode_utf8(s) =~= Seq::<u8>::empty());
    }
}

/// The number of bytes in the UTF-8 encoding of `c`.
pub fn char_width(c: char) -> (w: usize)
    ensures
        w == encode_scalar(c as u32).len(),
        1 <= w <= 4,
{
    let v = c as u32;
    proof {
        char_is_scalar(c);
    }
    if v <= 0x7F {
        1
    } else if v <= 0x7FF {
        2
    } else if v <= 0xFFFF {
        3
    } else {
        4
    }
}

/// Collects the characters of a string slice.
pub fn chars_of(s: &str) -> (r: Vec<char>)
    ensures
        r@ == s@,
{
    let mut r: Vec<char> = Vec::new();
    for c in it: s.chars()
        invariant
            r@ == it.seq().take(it.index() as int),
    {
        r.push(c);
    }
    r
}

/// The byte offsets of every character boundary of `t`: entry `i` is the
/// UTF-8 length of the first `i` characters, and the last entry is the
/// length of the whole text.
pub fn byte_offsets(t: &[char]) -> (r: Vec<usize>)
    requires
        byte_len(t@) <= usize::MAX,
    ensures
        r@.len() == t@.len() + 1,
        forall|i: int| 0 <= i <= t@.len() ==> #[trigger] r@[i] == byte_offset(t@, i),
{
    let mut r: Vec<usize> = Vec::new();
    r.push(0);
    let mut acc: usize = 0;
    let mut i: usize = 0;
    assert(t@.take(0) =~= Seq::<char>::empty());
    while i < t.len()
        invariant
            0 <= i <= t@.len(),
            r@.len() == i + 1,
            byte_len(t@) <= usize::MAX,
            acc == byte_offset(t@, i as int),
            forall|k: int| 0 <= k <= i ==> #[trigger] r@[k] == byte_offset(t@, k),
        decreases t@.len() - i,
    {
        let w = char_width(t[i]);
        proof {
            lemma_byte_len_push(t@.take(i as int), t@[i as int]);
            assert(t@.take(i as int).push(t@[i as int]) =~= t@.take(i + 1));
            lemma_byte_len_prefix(t@, i + 1, t@.len() as int);
            assert(t@.take(t@.len() as int) =~= t@);
        }
        acc = acc + w;
        r.push(acc);
        i = i + 1;
    }
    r
}

/// Appends one character to a string.
///
/// Trusted: calls `String::push`, which appends the character to the end of
/// the string.
#[verifier::external_body]
pub(crate) fn string_push(s: &mut String, c: char)
    ensures
        final(s)@ == old(s)@.push(c),
{
    s.push(c);
}

/// Builds a string holding exactly the given characters.
pub fn string_from_chars(cs: &[char]) -> (r: String)
    ensures
        r@ == cs@,
{
    let mut r = String::new();
    let mut i: usize = 0;
    while i < cs.len()
        invariant
            0 <= i <= cs@.len(),
            r@ == cs@.take(i as int),
        decreases cs@.len() - i,
    {
        string_push(&mut r, cs[i]);
        assert(cs@.take(i as int).push(cs@[i as int]) =~= cs@.take(i + 1));
        i = i + 1;
    }
    assert(cs@.take(cs@.len() as int) =~= cs@);
    r
}

/// Builds a string from a character range of `cs`.
pub fn string_from_range(cs: &[char], from: usize, to: usize) -> (r: String)
    requires
        from <= to <= cs@.len(),
    ensures
        r@ == cs@.subrange(from as int, to as int),
{
    let mut r = String::new();
    let mut i: usize = from;
    while i < to
        invariant
            from <= i <= to <= cs@.len(),
            r@ == cs@.subrange(from as int, i as int),
        decreases to - i,
    {
        string_push(&mut r, cs[i]);
        assert(cs@.subrange(from as int, i as int).push(cs@[i as int]) =~= cs@.subrange(
            from as int,
            i + 1,
        ));
        i = i + 1;
    }
    r
}

/// Copies a string.
pub fn copy_string(s: &String) -> (r: String)
    ensures
        r == *s,
        r@ == s@,
{
    s.clone()
}

/// Copies a vector of strings.
pub fn copy_strings(v: &Vec<String>) -> (r: Vec<String>)
    ensures
        r@ == v@,
{
    let mut r: Vec<String> = Vec::new();
    let mut i: usize = 0;
    while i < v.len()
        invariant
            0 <= i <= v@.len(),
            r@ == v@.take(i as int),
        decreases v@.len() - i,
    {
        r.push(v[i].clone());
        assert(v@.take(i as int).push(v@[i as int]) =~= v@.take(i + 1));
        i = i + 1;
    }
    assert(v@.take(v@.len() as int) =~= v@);
    r
}

/// `p` occurs in `t` starting at character index `i`.
pub open spec fn occurs_at(t: Seq<char>, p: Seq<char>, i: int) -> bool {
    0 <= i && i + p.len() <= t.len() && t.subrange(i, i + p.len()) == p
}

/// Whether `sub` occurs anywhere in `s`.
pub open spec fn contains_seq(s: Seq<char>, sub: Seq<char>) -> bool {
    exists|i: int| occurs_at(s, sub, i)
}

/// Checks whether `p` occurs in `t` at character index `i`.
pub fn matches_at(t: &[char], p: &[char], i: usize) -> (b: bool)
    ensures
        b == occurs_at(t@, p@, i as int),
{
    if i > t.len() || p.len() > t.len() - i {
        return false;
    }
    let mut k: usize = 0;
    while k < p.len()
        invariant
            i + p@.len() <= t.len(),
            0 <= k <= p@.len(),
            forall|j: int| 0 <= j < k ==> t@[i + j] == p@[j],
        decreases p@.len() - k,
    {
        if t[i + k] != p[k] {
            assert(t@.subrange(i as int, i + p@.len())[k as int] != p@[k as int]);
            return false;
        }
        k = k + 1;
    }
    assert(t@.subrange(i as int, i + p@.len()) =~= p@);
    true
}

/// Checks whether `sub` occurs anywhere in `s`.
pub fn contains_chars(s: &[char], sub: &[char]) -> (b: bool)
    ensures
        b == contains_seq(s@, sub@),
{
    if sub.len() > s.len() {
        assert forall|i: int| !occurs_at(s@, sub@, i) by {}
        return false;
    }
    if sub.len() == 0 {
        assert(s@.subrange(0, 0) =~= sub@);
        assert(occurs_at(s@, sub@, 0));
        return true;
    }
    let last = s.len() - sub.len();
    let mut i: usize = 0;
    while i <= last
        invariant
            sub@.len() <= s@.len(),
            last == s@.len() - sub@.len(),
            last < s.len(),
            0 <= i <= last + 1,
            forall|j: int| 0 <= j < i ==> !occurs_at(s@, sub@, j),
        decreases last + 1 - i,
    {
        if matches_at(s, sub, i) {
            return true;
        }
        i = i + 1;
    }
    false
}

/// Whether `s` begins with `prefix`.
pub open spec fn starts_with_seq(s: Seq<char>, prefix: Seq<char>) -> bool {
    prefix.len() <= s.len() && s.take(prefix.len() as int) == prefix
}

/// Whether `s` ends with `suffix`.
pub open spec fn ends_with_seq(s: Seq<char>, suffix: Seq<char>) -> bool {
    suffix.len() <= s.len() && s.skip(s.len() - suffix.len()) == suffix
}

/// Checks whether `s` begins with `prefix`.
pub fn starts_with_chars(s: &[char], prefix: &[char]) -> (b: bool)
    ensures
        b == starts_with_seq(s@, prefix@),
{
    let r = matches_at(s, prefix, 0);
    proof {
        if prefix@.len() <= s@.len() {
            assert(s@.subrange(0, prefix@.len() as int) =~= s@.take(prefix@.len() as int));
        }
    }
    r
}

/// Checks whether `s` ends with `suffix`.
pub fn ends_with_chars(s: &[char], suffix: &[char]) -> (b: bool)
    ensures
        b == ends_with_seq(s@, suffix@),
{
    if suffix.len() > s.len() {
        return false;
    }
    let r = matches_at(s, suffix, s.len() - suffix.len());
    assert(s@.subrange(s@.len() - suffix@.len(), s@.len() as int) =~= s@.skip(
        s@.len() - suffix@.len(),
    ));
    r
}

/// ASCII lower-casing of a single character; other characters are kept.
pub open spec fn ascii_lower(c: char) -> char {
    if 'A' <= c && c <= 'Z' {
        ((c as u32) + 32) as char
    } else {
        c
    }
}

/// Two strings are equal when ASCII letters are compared without case.
pub open spec fn eq_ignore_ascii_case_seq(a: Seq<char>, b: Seq<char>) -> bool {
    a.len() == b.len() && forall|i: int| 0 <= i < a.len() ==> ascii_lower(#[trigger] a[i]) == ascii_lower(b[i])
}

/// Lower-cases one ASCII letter.
pub fn to_ascii_lower(c: char) -> (r: char)
    ensures
        r == ascii_lower(c),
{
    if 'A' <= c && c <= 'Z' {
        let b = (c as u8) + 32;
        b as char
    } else {
        c
    }
}

/// Compares two character sequences, ignoring ASCII case.
pub fn eq_ignore_ascii_case(a: &[char], b: &[char]) -> (r: bool)
    ensures
        r == eq_ignore_ascii_case_seq(a@, b@),
{
    if a.len() != b.len() {
        return false;
    }
    let mut i: usize = 0;
    while i < a.len()
        invariant
            a@.len() == b@.len(),
            0 <= i <= a@.len(),
            forall|j: int| 0 <= j < i ==> ascii_lower(#[trigger] a@[j]) == ascii_lower(b@[j]),
        decreases a@.len() - i,
    {
        if to_ascii_lower(a[i]) != to_ascii_lower(b[i]) {
            return false;
        }
        i = i + 1;
    }
    true
}

// ---------------------------------------------------------------------------
// Concatenation and conversion
// ---------------------------------------------------------------------------
/// Appends every character of `t` to `s`.
pub fn push_chars(s: &mut String, t: &[char])
    ensures
        final(s)@ == old(s)@ + t@,
{
    let mut i: usize = 0;
    while i < t.len()
        invariant
            0 <= i <= t@.len(),
            s@ == old(s)@ + t@.take(i as int),
        decreases t@.len() - i,
    {
        string_push(s, t[i]);
        assert(t@.take(i as int).push(t@[i as int]) =~= t@.take(i + 1));
        i = i + 1;
    }
    assert(t@.take(t@.len() as int) =~= t@);
}

/// Appends the text of `t` to `s`.
pub fn push_text(s: &mut String, t: &str)
    ensures
        final(s)@ == old(s)@ + t@,
{
    let cs = chars_of(t);
    push_chars(s, &cs);
}

/// The concatenation of two strings.
pub fn concat_text(a: &str, b: &str) -> (r: String)
    ensures
        r@ == a@ + b@,
{
    let mut r = String::new();
    push_text(&mut r, a);
    push_text(&mut r, b);
    assert(Seq::<char>::empty() + a@ + b@ =~= a@ + b@);
    r
}

/// The views of a sequence of strings.
pub open spec fn views(v: Seq<String>) -> Seq<Seq<char>> {
    v.map_values(|s: String| s@)
}

/// The decimal digit character for `d` (`0 <= d < 10`).
pub open spec fn digit_char(d: int) -> char {
    ((48 + d) as u8) as char
}

/// Decimal representation of a natural number, without leading zeros.
pub open spec fn decimal(n: nat) -> Seq<char>
    decreases n,
{
    if n < 10 {
        seq![digit_char(n as int)]
    } else {
        decimal(n / 10).push(digit_char((n % 10) as int))
    }
}

fn digit(d: u64) -> (c: char)
    requires
        d < 10,
    ensures
        c == digit_char(d as int),
{
    let b: u8 = 48 + (d as u8);
    b as char
}

/// Formats `n` in decimal.
pub fn u64_to_decimal(n: u64) -> (r: String)
    ensures
        r@ == decimal(n as nat),
{
    let mut acc: Vec<char> = Vec::new();
    let mut m: u64 = n;
    assert(decimal(n as nat) == decimal(m as nat) + acc@);
    while m >= 10
        invariant
            decimal(n as nat) == decimal(m as nat) + acc@,
        decreases m,
    {
        let d = digit(m % 10);
        proof {
            assert(decimal(m as nat) == decimal((m / 10) as nat).push(digit_char((m % 10) as int)));
            assert(decimal((m / 10) as nat).push(d) + acc@ =~= decimal((m / 10) as nat) + (seq![d]
                + acc@));
        }
        let ghost a0 = acc@;
        acc.insert(0, d);
        assert(acc@ =~= seq![d] + a0);
        m = m / 10;
    }
    let d = digit(m);
    let ghost a0 = acc@;
    acc.insert(0, d);
    assert(acc@ =~= seq![d] + a0);
    assert(decimal(m as nat) == seq![d]);
    assert(seq![d] + a0 =~= decimal(m as nat) + a0);
    string_from_chars(&acc)
}

/// Formats `n` in decimal.
pub fn u128_to_decimal(n: u128) -> (r: String)
    ensures
        r@ == decimal(n as nat),
{
    let mut acc: Vec<char> = Vec::new();
    let mut m: u128 = n;
    assert(decimal(n as nat) == decimal(m as nat) + acc@);
    while m >= 10
        invariant
            decimal(n as nat) == decimal(m as nat) + acc@,
        decreases m,
    {
        let d = digit((m % 10) as u64);
        proof {
            assert(decimal(m as nat) == decimal((m / 10) as nat).push(digit_char((m % 10) as int)));
            assert(decimal((m / 10) as nat).push(d) + acc@ =~= decimal((m / 10) as nat) + (seq![d]
                + acc@));
        }
        let ghost a0 = acc@;
        acc.insert(0, d);
        assert(acc@ =~= seq![d] + a0);
        m = m / 10;
    }
    let d = digit(m as u64);
    let ghost a0 = acc@;
    acc.insert(0, d);
    assert(acc@ =~= seq![d] + a0);
    assert(decimal(m as nat) == seq![d]);
    assert(seq![d] + a0 =~= decimal(m as nat) + a0);
    string_from_chars(&acc)
}

/// Formats `n + 1` in decimal.
pub fn successor_decimal(n: usize) -> (r: String)
    ensures
        r@ == decimal((n + 1) as nat),
{
    u128_to_decimal(n as u128 + 1)
}

/// Formats `n` in decimal.
pub fn usize_to_decimal(n: usize) -> (r: String)
    ensures
        r@ == decimal(n as nat),
{
    u64_to_decimal(n as u64)
}

// ---------------------------------------------------------------------------
// Lines
// ---------------------------------------------------------------------------
/// Removes one trailing carriage return.
pub open spec fn strip_cr(l: Seq<char>) -> Seq<char> {
    if l.len() > 0 && l.last() == '\r' {
        l.drop_last()
    } else {
        l
    }
}

/// Scanning `s` for newlines: the lines finished so far (each without its
/// `\n` or `\r\n` terminator) and the characters of the line in progress.
pub open spec fn line_scan(s: Seq<char>) -> (Seq<Seq<char>>, Seq<char>)
    decreases s.len(),
{
    if s.len() == 0 {
        (seq![], seq![])
    } else {
        let prev = line_scan(s.drop_last());
        if s.last() == '\n' {
            (prev.0.push(strip_cr(prev.1)), seq![])
        } else {
            (prev.0, prev.1.push(s.last()))
        }
    }
}

/// The lines of `s` as `str::lines` yields them: split at `\n`, with a
/// `\r` before the `\n` removed, and no empty line after a final newline.
pub open spec fn lines_of(s: Seq<char>) -> Seq<Seq<char>> {
    let sc = line_scan(s);
    if sc.1.len() == 0 {
        sc.0
    } else {
        sc.0.push(sc.1)
    }
}

/// Splits text into lines (see [`lines_of`]).
pub fn split_lines(t: &[char]) -> (r: Vec<String>)
    ensures
        views(r@) == lines_of(t@),
{
    let mut done: Vec<String> = Vec::new();
    let mut cur: Vec<char> = Vec::new();
    let mut i: usize = 0;
    assert(t@.take(0) =~= Seq::<char>::empty());
    assert(views(done@) =~= Seq::<Seq<char>>::empty());
    while i < t.len()
        invariant
            0 <= i <= t@.len(),
            (views(done@), cur@) == line_scan(t@.take(i as int)),
        decreases t@.len() - i,
    {
        let c = t[i];
        assert(t@.take(i + 1).drop_last() =~= t@.take(i as int));
        assert(t@.take(i + 1).last() == c);
        if c == '\n' {
            let ghost before = cur@;
            let n = cur.len();
            let line = if n > 0 && cur[n - 1] == '\r' {
                string_from_range(&cur, 0, n - 1)
            } else {
                string_from_range(&cur, 0, n)
            };
            proof {
                if n > 0 && before.last() == '\r' {
                    assert(before.subrange(0, n - 1) =~= before.drop_last());
                } else {
                    assert(before.subrange(0, n as int) =~= before);
                }
            }
            let ghost d0 = done@;
            done.push(line);
            assert(views(done@) =~= views(d0).push(strip_cr(before)));
            cur = Vec::new();
        } else {
            cur.push(c);
        }
        i = i + 1;
    }
    assert(t@.take(t@.len() as int) =~= t@);
    if cur.len() > 0 {
        let last = string_from_chars(&cur);
        let ghost d = done@;
        done.push(last);
        assert(views(done@) =~= views(d).push(cur@));
    }
    done
}

// ---------------------------------------------------------------------------
// Literal replacement, splitting and trimming
// ---------------------------------------------------------------------------
/// Replacing every non-overlapping occurrence of `p` in `t`, scanning from
/// `from` to the right, by `r`. An empty `p` occurs before every character
/// and at the end, as with `str::replace`.
pub open spec fn replaced_from(t: Seq<char>, p: Seq<char>, r: Seq<char>, from: int) -> Seq<char>
    decreases t.len() - from,
{
    if from < 0 || from > t.len() {
        seq![]
    } else if p.len() == 0 {
        if from == t.len() {
            r
        } else {
            r + seq![t[from]] + replaced_from(t, p, r, from + 1)
        }
    } else if from + p.len() > t.len() {
        t.skip(from)
    } else if occurs_at(t, p, from) {
        r + replaced_from(t, p, r, from + p.len())
    } else {
        seq![t[from]] + replaced_from(t, p, r, from + 1)
    }
}

/// `t` with every non-overlapping occurrence of `p` (left to right)
/// replaced by `r`.
pub open spec fn replace_all_literal(t: Seq<char>, p: Seq<char>, r: Seq<char>) -> Seq<char> {
    replaced_from(t, p, r, 0)
}

/// Replaces every occurrence of `from` in `content` by `to` (see
/// [`replace_all_literal`]).
pub fn replace_text(content: &str, from: &str, to: &str) -> (r: String)
    ensures
        r@ == replace_all_literal(content@, from@, to@),
{
    let t = chars_of(content);
    let p = chars_of(from);
    let rep = chars_of(to);
    let mut out = String::new();
    let mut i: usize = 0;
    assert(Seq::<char>::empty() + replaced_from(t@, p@, rep@, 0) =~= replaced_from(
        t@,
        p@,
        rep@,
        0,
    ));
    if p.len() == 0 {
        while i < t.len()
            invariant
                p@.len() == 0,
                0 <= i <= t@.len(),
                replaced_from(t@, p@, rep@, 0) == out@ + replaced_from(t@, p@, rep@, i as int),
            decreases t@.len() - i,
        {
            let ghost o = out@;
            push_chars(&mut out, &rep);
            string_push(&mut out, t[i]);
            assert(o + (rep@ + seq![t@[i as int]] + replaced_from(t@, p@, rep@, i + 1)) =~= out@
                + replaced_from(t@, p@, rep@, i + 1));
            i = i + 1;
        }
        let ghost o = out@;
        push_chars(&mut out, &rep);
        assert(o + rep@ =~= out@);
    } else {
        while i < t.len() && p.len() <= t.len() - i
            invariant
                p@.len() > 0,
                0 <= i <= t@.len(),
                replaced_from(t@, p@, rep@, 0) == out@ + replaced_from(t@, p@, rep@, i as int),
            decreases t@.len() - i,
        {
            let ghost o = out@;
            if matches_at(&t, &p, i) {
                push_chars(&mut out, &rep);
                assert(o + (rep@ + replaced_from(t@, p@, rep@, i + p@.len())) =~= out@
                    + replaced_from(t@, p@, rep@, i + p@.len()));
                i = i + p.len();
            } else {
                string_push(&mut out, t[i]);
                assert(o + (seq![t@[i as int]] + replaced_from(t@, p@, rep@, i + 1)) =~= out@
                    + replaced_from(t@, p@, rep@, i + 1));
                i = i + 1;
            }
        }
        let ghost o = out@;
        let n = t.len();
        let tail = string_from_range(&t, i, n);
        push_text(&mut out, tail.as_str());
        assert(t@.subrange(i as int, n as int) =~= t@.skip(i as int));
        assert(replaced_from(t@, p@, rep@, i as int) == t@.skip(i as int));
    }
    out
}

/// Scanning `s` for `sep`: the pieces finished so far and the piece in
/// progress.
pub open spec fn split_scan(s: Seq<char>, sep: char) -> (Seq<Seq<char>>, Seq<char>)
    decreases s.len(),
{
    if s.len() == 0 {
        (seq![], seq![])
    } else {
        let prev = split_scan(s.drop_last(), sep);
        if s.last() == sep {
            (prev.0.push(prev.1), seq![])
        } else {
            (prev.0, prev.1.push(s.last()))
        }
    }
}

/// The pieces of `s` between occurrences of `sep`, as `str::split` yields
/// them (empty pieces included; the empty text gives one empty piece).
pub open spec fn split_on(s: Seq<char>, sep: char) -> Seq<Seq<char>> {
    let sc = split_scan(s, sep);
    sc.0.push(sc.1)
}

/// Splits text at every `sep` (see [`split_on`]).
pub fn split_chars(t: &[char], sep: char) -> (r: Vec<String>)
    ensures
        views(r@) == split_on(t@, sep),
{
    let mut done: Vec<String> = Vec::new();
    let mut cur: Vec<char> = Vec::new();
    let mut i: usize = 0;
    assert(t@.take(0) =~= Seq::<char>::empty());
    assert(views(done@) =~= Seq::<Seq<char>>::empty());
    while i < t.len()
        invariant
            0 <= i <= t@.len(),
            (views(done@), cur@) == split_scan(t@.take(i as int), sep),
        decreases t@.len() - i,
    {
        let c = t[i];
        assert(t@.take(i + 1).drop_last() =~= t@.take(i as int));
        assert(t@.take(i + 1).last() == c);
        if c == sep {
            let piece = string_from_chars(&cur);
            let ghost d0 = done@;
            done.push(piece);
            assert(views(done@) =~= views(d0).push(cur@));
            cur = Vec::new();
        } else {
            cur.push(c);
        }
        i = i + 1;
    }
    assert(t@.take(t@.len() as int) =~= t@);
    let last = string_from_chars(&cur);
    let ghost d = done@;
    done.push(last);
    assert(views(done@) =~= views(d).push(cur@));
    done
}

/// `s` without leading `White_Space` characters.
pub open spec fn trim_start_seq(s: Seq<char>) -> Seq<char>
    decreases s.len(),
{
    if s.len() > 0 && is_white_space_spec(s[0]) {
        trim_start_seq(s.drop_first())
    } else {
        s
    }
}

/// `s` without trailing `White_Space` characters.
pub open spec fn trim_end_seq(s: Seq<char>) -> Seq<char>
    decreases s.len(),
{
    if s.len() > 0 && is_white_space_spec(s.last()) {
        trim_end_seq(s.drop_last())
    } else {
        s
    }
}

/// `s` without leading or trailing `White_Space` characters.
pub open spec fn trim_seq(s: Seq<char>) -> Seq<char> {
    trim_end_seq(trim_start_seq(s))
}

/// Removes trailing white space (see [`trim_end_seq`]).
pub fn trim_end_chars(s: &[char]) -> (r: Vec<char>)
    ensures
        r@ == trim_end_seq(s@),
{
    let mut j: usize = s.len();
    assert(s@.take(j as int) =~= s@);
    while j > 0 && is_white_space(s[j - 1])
        invariant
            0 <= j <= s@.len(),
            trim_end_seq(s@) == trim_end_seq(s@.take(j as int)),
        decreases j,
    {
        assert(s@.take(j as int).drop_last() =~= s@.take(j - 1));
        j = j - 1;
    }
    let mut r: Vec<char> = Vec::new();
    let mut k: usize = 0;
    while k < j
        invariant
            0 <= k <= j <= s@.len(),
            r@ == s@.take(k as int),
        decreases j - k,
    {
        r.push(s[k]);
        assert(s@.take(k as int).push(s@[k as int]) =~= s@.take(k + 1));
        k = k + 1;
    }
    r
}

/// Removes leading and trailing white space (see [`trim_seq`]).
pub fn trim_chars(s: &[char]) -> (r: Vec<char>)
    ensures
        r@ == trim_seq(s@),
{
    let mut i: usize = 0;
    assert(s@.skip(0) =~= s@);
    while i < s.len() && is_white_space(s[i])
        invariant
            0 <= i <= s@.len(),
            trim_start_seq(s@) == trim_start_seq(s@.skip(i as int)),
        decreases s@.len() - i,
    {
        assert(s@.skip(i as int).drop_first() =~= s@.skip(i + 1));
        i = i + 1;
    }
    let mut rest: Vec<char> = Vec::new();
    let mut k: usize = i;
    while k < s.len()
        invariant
            i <= k <= s@.len(),
            rest@ == s@.subrange(i as int, k as int),
        decreases s@.len() - k,
    {
        rest.push(s[k]);
        assert(s@.subrange(i as int, k as int).push(s@[k as int]) =~= s@.subrange(
            i as int,
            k + 1,
        ));
        k = k + 1;
    }
    assert(s@.subrange(i as int, s@.len() as int) =~= s@.skip(i as int));
    trim_end_chars(&rest)
}

/// Byte offsets grow strictly with the character index.
pub proof fn lemma_byte_offset_strict(s: Seq<char>, i: int, j: int)
    requires
        0 <= i < j <= s.len(),
    ensures
        byte_offset(s, i) < byte_offset(s, j),
{
    lemma_encode_utf8_add(s.take(i), s.subrange(i, j));
    assert(s.take(i) + s.subrange(i, j) =~= s.take(j));
    lemma_byte_len_zero(s.subrange(i, j));
}

// ---------------------------------------------------------------------------
// Decimal parsing
// ---------------------------------------------------------------------------
/// An ASCII decimal digit.
pub open spec fn is_ascii_digit_spec(c: char) -> bool {
    '0' <= c && c <= '9'
}

/// Every character of `s` is an ASCII digit.
pub open spec fn all_ascii_digits(s: Seq<char>) -> bool {
    forall|i: int| 0 <= i < s.len() ==> is_ascii_digit_spec(#[trigger] s[i])
}

/// The value of a sequence of ASCII digits.
pub open spec fn digits_value(s: Seq<char>) -> nat
    decreases s.len(),
{
    if s.len() == 0 {
        0
    } else {
        digits_value(s.drop_last()) * 10 + ((s.last() as u32) - 48) as nat
    }
}

/// The digits of an unsigned number: `s` without one leading `+`.
pub open spec fn unsigned_digits(s: Seq<char>) -> Seq<char> {
    if s.len() > 0 && s[0] == '+' {
        s.drop_first()
    } else {
        s
    }
}

/// What parsing `s` as an unsigned integer no greater than `limit` gives,
/// as `str::parse` does: an optional `+`, then at least one ASCII digit.
pub open spec fn parse_unsigned(s: Seq<char>, limit: nat) -> Option<nat> {
    let d = unsigned_digits(s);
    if d.len() > 0 && all_ascii_digits(d) && digits_value(d) <= limit {
        Some(digits_value(d))
    } else {
        None
    }
}

/// Parses an unsigned decimal number no greater than `limit`.
pub fn parse_decimal(s: &[char], limit: u64) -> (r: Option<u64>)
    ensures
        r matches Some(v) ==> parse_unsigned(s@, limit as nat) == Some(v as nat),
        r is None ==> parse_unsigned(s@, limit as nat) is None,
{
    let start: usize = if s.len() > 0 && s[0] == '+' {
        1
    } else {
        0
    };
    let ghost d = unsigned_digits(s@);
    assert(d =~= s@.skip(start as int));
    if start >= s.len() {
        return None;
    }
    let mut v: u64 = 0;
    let mut overflow = false;
    let mut i: usize = start;
    assert(d.take(0) =~= Seq::<char>::empty());
    while i < s.len()
        invariant
            start <= i <= s@.len(),
            d == s@.skip(start as int),
            d == unsigned_digits(s@),
            all_ascii_digits(d.take(i - start)),
            !overflow ==> v as nat == digits_value(d.take(i - start)) && v <= limit,
            overflow ==> digits_value(d.take(i - start)) > limit,
        decreases s@.len() - i,
    {
        let c = s[i];
        let ghost k: int = i - start;
        assert(d.take(k + 1).drop_last() =~= d.take(k));
        assert(d.take(k + 1).last() == c);
        if !('0' <= c && c <= '9') {
            assert(d[k] == s@[i as int]);
            assert(!is_ascii_digit_spec(d[k]));
            assert(!all_ascii_digits(d));
            return None;
        }
        let dig: u64 = (c as u32 - 48) as u64;
        let ghost prev = digits_value(d.take(k));
        if overflow {
            assert(prev * 10 + dig >= prev) by (nonlinear_arith);
        } else if dig > limit {
            assert(v * 10 + dig > limit) by (nonlinear_arith)
                requires
                    dig > limit,
            ;
            overflow = true;
        } else if v > (limit - dig) / 10 {
            assert(v * 10 + dig > limit) by (nonlinear_arith)
                requires
                    v > (limit - dig) / 10,
                    dig <= limit,
            ;
            overflow = true;
        } else {
            assert(v * 10 + dig <= limit) by (nonlinear_arith)
                requires
                    v <= (limit - dig) / 10,
                    dig <= 9,
            ;
            v = v * 10 + dig;
        }
        assert(all_ascii_digits(d.take(k + 1))) by {
            assert forall|j: int| 0 <= j < k + 1 implies is_ascii_digit_spec(#[trigger] d.take(k + 1)[j]) by {
                if j < k {
                    assert(d.take(k + 1)[j] == d.take(k)[j]);
                }
            }
        }
        i = i + 1;
    }
    assert(d.take(s@.len() - start) =~= d);
    if overflow {
        None
    } else {
        Some(v)
    }
}

/// Parses text as an unsigned `usize`, as `str::parse::<usize>` does.
pub fn parse_usize(s: &str) -> (r: Option<usize>)
    ensures
        r matches Some(v) ==> parse_unsigned(s@, usize::MAX as nat) == Some(v as nat),
        r is None ==> parse_unsigned(s@, usize::MAX as nat) is None,
{
    let cs = chars_of(s);
    match parse_decimal(&cs, usize::MAX as u64) {
        Some(v) => Some(v as usize),
        None => None,
    }
}

/// Compares two texts.
pub fn text_eq(a: &str, b: &str) -> (r: bool)
    ensures
        r == (a@ == b@),
{
    let x = chars_of(a);
    let y = chars_of(b);
    if x.len() != y.len() {
        return false;
    }
    let mut i: usize = 0;
    while i < x.len()
        invariant
            x@ == a@,
            y@ == b@,
            x@.len() == y@.len(),
            0 <= i <= x@.len(),
            forall|j: int| 0 <= j < i ==> x@[j] == y@[j],
        decreases x@.len() - i,
    {
        if x[i] != y[i] {
            return false;
        }
        i = i + 1;
    }
    assert(x@ =~= y@);
    true
}

} // verus!
