//! Character classes used by word-boundary detection.
use unicode_categories::UnicodeCategories;
use vstd::prelude::*;

verus! {

/// Unicode `Alphabetic` property, as decided by `char::is_alphabetic`.
pub uninterp spec fn char_is_alphabetic(c: char) -> bool;

/// Unicode alphanumeric (`Alphabetic` or `Numeric`), as decided by
/// `char::is_alphanumeric`.
pub uninterp spec fn char_is_alphanumeric(c: char) -> bool;

/// Membership of general category Mn, as decided by
/// `UnicodeCategories::is_mark_nonspacing`.
pub uninterp spec fn char_is_mark_nonspacing(c: char) -> bool;

/// Membership of general category Mc, as decided by
/// `UnicodeCategories::is_mark_spacing_combining`.
pub uninterp spec fn char_is_mark_spacing_combining(c: char) -> bool;

/// Membership of general category Me, as decided by
/// `UnicodeCategories::is_mark_enclosing`.
pub uninterp spec fn char_is_mark_enclosing(c: char) -> bool;

/// Trusted: calls `char::is_alphabetic`; the result is the table lookup
/// named by `char_is_alphabetic`, a function of the character alone.
#[verifier::external_body]
pub(crate) fn is_alphabetic(c: char) -> (b: bool)
    ensures
        b == char_is_alphabetic(c),
{
    c.is_alphabetic()
}

/// Trusted: calls `char::is_alphanumeric`; the result is the table lookup
/// named by `char_is_alphanumeric`, a function of the character alone.
#[verifier::external_body]
pub(crate) fn is_alphanumeric(c: char) -> (b: bool)
    ensures
        b == char_is_alphanumeric(c),
{
    c.is_alphanumeric()
}

/// Trusted: calls `unicode_categories::UnicodeCategories::is_mark_nonspacing`,
/// a binary search of a fixed table; named by `char_is_mark_nonspacing`.
#[verifier::external_body]
pub(crate) fn is_mark_nonspacing(c: char) -> (b: bool)
    ensures
        b == char_is_mark_nonspacing(c),
{
    c.is_mark_nonspacing()
}

/// Trusted: calls
/// `unicode_categories::UnicodeCategories::is_mark_spacing_combining`, a
/// binary search of a fixed table; named by `char_is_mark_spacing_combining`.
#[verifier::external_body]
pub(crate) fn is_mark_spacing_combining(c: char) -> (b: bool)
    ensures
        b == char_is_mark_spacing_combining(c),
{
    c.is_mark_spacing_combining()
}

/// Trusted: calls `unicode_categories::UnicodeCategories::is_mark_enclosing`,
/// a binary search of a fixed table; named by `char_is_mark_enclosing`.
#[verifier::external_body]
pub(crate) fn is_mark_enclosing(c: char) -> (b: bool)
    ensures
        b == char_is_mark_enclosing(c),
{
    c.is_mark_enclosing()
}

/// A word character: alphanumeric, alphabetic, or a combining mark.
pub open spec fn is_word_char_spec(c: char) -> bool {
    char_is_alphanumeric(c) || char_is_alphabetic(c) || char_is_mark_nonspacing(c)
        || char_is_mark_spacing_combining(c) || char_is_mark_enclosing(c)
}

/// Decides whether `c` is a word character.
pub fn is_word_char(c: char) -> (b: bool)
    ensures
        b == is_word_char_spec(c),
{
    is_alphanumeric(c) || is_alphabetic(c) || is_mark_nonspacing(c) || is_mark_spacing_combining(c)
        || is_mark_enclosing(c)
}

/// The Unicode `White_Space` property: the code points listed for it in
/// the Unicode character database.
pub open spec fn is_white_space_spec(c: char) -> bool {
    let v = c as u32;
    (0x09 <= v && v <= 0x0D) || v == 0x20 || v == 0x85 || v == 0xA0 || v == 0x1680 || (0x2000 <= v
        && v <= 0x200A) || v == 0x2028 || v == 0x2029 || v == 0x202F || v == 0x205F || v == 0x3000
}

/// Decides the Unicode `White_Space` property.
pub fn is_white_space(c: char) -> (b: bool)
    ensures
        b == is_white_space_spec(c),
{
    let v = c as u32;
    (0x09 <= v && v <= 0x0D) || v == 0x20 || v == 0x85 || v == 0xA0 || v == 0x1680 || (0x2000 <= v
        && v <= 0x200A) || v == 0x2028 || v == 0x2029 || v == 0x202F || v == 0x205F || v == 0x3000
}

/// ASCII punctuation: the printable ASCII characters that are neither
/// letters, digits nor space.
pub open spec fn is_ascii_punctuation_spec(c: char) -> bool {
    let v = c as u32;
    (0x21 <= v && v <= 0x2F) || (0x3A <= v && v <= 0x40) || (0x5B <= v && v <= 0x60) || (0x7B <= v
        && v <= 0x7E)
}

/// Decides ASCII punctuation.
pub fn is_ascii_punctuation(c: char) -> (b: bool)
    ensures
        b == is_ascii_punctuation_spec(c),
{
    let v = c as u32;
    (0x21 <= v && v <= 0x2F) || (0x3A <= v && v <= 0x40) || (0x5B <= v && v <= 0x60) || (0x7B <= v
        && v <= 0x7E)
}

/// Hyphens: ASCII hyphen-minus and the non-breaking hyphen U+2011.
pub open spec fn is_hyphen_spec(c: char) -> bool {
    c == '-' || c == '\u{2011}'
}

/// Decides whether `c` is a hyphen.
pub fn is_hyphen(c: char) -> (b: bool)
    ensures
        b == is_hyphen_spec(c),
{
    c == '-' || c == '\u{2011}'
}

/// Mathematical symbols that can appear inside identifiers.
pub open spec fn is_math_symbol_spec(c: char) -> bool {
    c == '∑' || c == '∏' || c == '±' || c == '∞' || c == '∫' || c == '∂' || c == '∇' || c == '∈'
        || c == '∉' || c == '∋' || c == '∌' || c == '∩' || c == '∪' || c == '⊂' || c == '⊃' || c
        == '⊆' || c == '⊇' || c == '≈' || c == '≠' || c == '≡' || c == '≤' || c == '≥' || c == '⟨'
        || c == '⟩' || c == '→' || c == '←' || c == '↔' || c == '⇒' || c == '⇐' || c == '⇔'
}

/// Decides whether `c` is one of the mathematical symbols.
pub fn is_math_symbol(c: char) -> (b: bool)
    ensures
        b == is_math_symbol_spec(c),
{
    c == '∑' || c == '∏' || c == '±' || c == '∞' || c == '∫' || c == '∂' || c == '∇' || c == '∈'
        || c == '∉' || c == '∋' || c == '∌' || c == '∩' || c == '∪' || c == '⊂' || c == '⊃' || c
        == '⊆' || c == '⊇' || c == '≈' || c == '≠' || c == '≡' || c == '≤' || c == '≥' || c == '⟨'
        || c == '⟩' || c == '→' || c == '←' || c == '↔' || c == '⇒' || c == '⇐' || c == '⇔'
}

/// Characters that always join the characters around them into one word.
pub open spec fn is_always_joiner_spec(c: char) -> bool {
    c == '@' || c == '\'' || c == '`' || c == '#' || c == '$' || c == '\\' || c == '→' || c == '←'
        || c == '↔' || c == '・' || c == '·' || c == '々' || c == 'ー'
}

/// Decides whether `c` always joins words.
pub fn is_always_joiner(c: char) -> (b: bool)
    ensures
        b == is_always_joiner_spec(c),
{
    c == '@' || c == '\'' || c == '`' || c == '#' || c == '$' || c == '\\' || c == '→' || c == '←'
        || c == '↔' || c == '・' || c == '·' || c == '々' || c == 'ー'
}

} // verus!
