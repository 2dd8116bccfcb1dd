//! Character classes used by the lexer.
use vstd::prelude::*;

verus! {

/// U+000A LINE FEED or U+000D CARRIAGE RETURN.
pub open spec fn spec_is_line_ending(c: char) -> bool {
    c == '\n' || c == '\r'
}

/// Tab, line feed, form feed, carriage return or space.
pub open spec fn spec_is_spacy(c: char) -> bool {
    c == '\t' || c == '\n' || c == '\x0c' || c == '\r' || c == ' '
}

/// C0 and C1 control code points, except the ones that count as whitespace.
pub open spec fn spec_is_control(c: u32) -> bool {
    ((c <= 0x1f) || (0x7f <= c && c <= 0x9f)) && !(c == 0x09 || c == 0x0a || c == 0x0c || c
        == 0x0d || c == 0x20)
}

pub open spec fn spec_is_surrogate(c: u32) -> bool {
    0xd800 <= c && c <= 0xdfff
}

/// The noncharacters: U+FDD0 to U+FDEF, and the last two code points of each
/// of the seventeen planes.
pub open spec fn spec_is_noncharacter(c: u32) -> bool {
    (0xfdd0 <= c && c <= 0xfdef) || (c <= 0x10ffff && c % 0x10000 >= 0xfffe)
}

pub open spec fn spec_is_ascii_upper_alpha(c: char) -> bool {
    'A' <= c && c <= 'Z'
}

pub open spec fn spec_is_ascii_lower_alpha(c: char) -> bool {
    'a' <= c && c <= 'z'
}

pub open spec fn spec_is_ascii_alpha(c: char) -> bool {
    spec_is_ascii_upper_alpha(c) || spec_is_ascii_lower_alpha(c)
}

pub open spec fn spec_is_ascii_digit(c: char) -> bool {
    '0' <= c && c <= '9'
}

pub open spec fn spec_is_upper_hex_digit(c: char) -> bool {
    spec_is_ascii_digit(c) || ('A' <= c && c <= 'F')
}

pub open spec fn spec_is_lower_hex_digit(c: char) -> bool {
    spec_is_ascii_digit(c) || ('a' <= c && c <= 'f')
}

/// A line that is empty or holds only spaces and tabs.
pub open spec fn spec_is_blank_line(l: Seq<char>) -> bool {
    forall|i: int| 0 <= i < l.len() ==> (l[i] == ' ' || l[i] == '\t')
}

pub open spec fn spec_is_allowed_character(c: char) -> bool {
    let v = c as u32;
    !(spec_is_surrogate(v) || (v != 0 && spec_is_control(v)) || spec_is_noncharacter(v))
}

/// Characters with the Unicode `White_Space` property.
pub open spec fn spec_is_unicode_whitespace(c: char) -> bool {
    ('\t' <= c && c <= '\r') || c == ' ' || c == '\u{85}' || c == '\u{a0}' || c == '\u{1680}' || (
    '\u{2000}' <= c && c <= '\u{200a}') || c == '\u{2028}' || c == '\u{2029}' || c == '\u{202f}'
        || c == '\u{205f}' || c == '\u{3000}'
}

/// The number of bytes that the UTF-8 encoding of `c` takes.
pub open spec fn char_utf8_len(c: char) -> nat {
    if (c as u32) < 0x80 {
        1
    } else if (c as u32) < 0x800 {
        2
    } else if (c as u32) < 0x10000 {
        3
    } else {
        4
    }
}

/// The number of bytes that the UTF-8 encoding of `s` takes.
pub open spec fn utf8_size(s: Seq<char>) -> nat
    decreases s.len(),
{
    if s.len() == 0 {
        0
    } else {
        utf8_size(s.drop_last()) + char_utf8_len(s.last())
    }
}

pub fn is_line_ending(c: char) -> (r: bool)
    ensures
        r == spec_is_line_ending(c),
{
    c == '\n' || c == '\r'
}

pub fn is_spacy(c: char) -> (r: bool)
    ensures
        r == spec_is_spacy(c),
{
    c == '\t' || c == '\n' || c == '\x0c' || c == '\r' || c == ' '
}

pub fn is_control(c: u32) -> (r: bool)
    ensures
        r == spec_is_control(c),
{
    ((c <= 0x1f) || (0x7f <= c && c <= 0x9f)) && !(c == 0x09 || c == 0x0a || c == 0x0c || c
        == 0x0d || c == 0x20)
}

pub fn is_surrogate(c: u32) -> (r: bool)
    ensures
        r == spec_is_surrogate(c),
{
    0xd800 <= c && c <= 0xdfff
}

pub fn is_noncharacter(c: u32) -> (r: bool)
    ensures
        r == spec_is_noncharacter(c),
{
    (0xfdd0 <= c && c <= 0xfdef) || (c <= 0x10ffff && c % 0x10000 >= 0xfffe)
}

pub fn is_upper_hex_digit(c: char) -> (r: bool)
    ensures
        r == spec_is_upper_hex_digit(c),
{
    ('0' <= c && c <= '9') || ('A' <= c && c <= 'F')
}

pub fn is_lower_hex_digit(c: char) -> (r: bool)
    ensures
        r == spec_is_lower_hex_digit(c),
{
    ('0' <= c && c <= '9') || ('a' <= c && c <= 'f')
}

pub fn is_ascii_hex_digit(c: char) -> (r: bool)
    ensures
        r == (spec_is_upper_hex_digit(c) || spec_is_lower_hex_digit(c)),
{
    is_upper_hex_digit(c) || is_lower_hex_digit(c)
}

pub fn is_ascii_upper_alpha(c: char) -> (r: bool)
    ensures
        r == spec_is_ascii_upper_alpha(c),
{
    'A' <= c && c <= 'Z'
}

pub fn is_ascii_lower_alpha(c: char) -> (r: bool)
    ensures
        r == spec_is_ascii_lower_alpha(c),
{
    'a' <= c && c <= 'z'
}

pub fn is_ascii_alpha(c: char) -> (r: bool)
    ensures
        r == spec_is_ascii_alpha(c),
{
    is_ascii_upper_alpha(c) || is_ascii_lower_alpha(c)
}

pub fn is_ascii_digit(c: char) -> (r: bool)
    ensures
        r == spec_is_ascii_digit(c),
{
    '0' <= c && c <= '9'
}

pub fn is_allowed_control_character(c: u32) -> (r: bool)
    ensures
        r == (c != 0 && spec_is_control(c)),
{
    c != 0x00 && is_control(c)
}

pub fn is_allowed_character(c: char) -> (r: bool)
    ensures
        r == spec_is_allowed_character(c),
{
    let c = c as u32;
    if is_surrogate(c) || is_allowed_control_character(c) || is_noncharacter(c) {
        return false;
    }
    true
}

pub fn is_blank_line(l: &[char]) -> (r: bool)
    ensures
        r == spec_is_blank_line(l@),
{
    let mut i: usize = 0;
    while i < l.len()
        invariant
            i <= l@.len(),
            forall|j: int| 0 <= j < i ==> (l@[j] == ' ' || l@[j] == '\t'),
        decreases l@.len() - i,
    {
        if !(l[i] == ' ' || l[i] == '\t') {
            return false;
        }
        i += 1;
    }
    true
}

pub fn is_unicode_whitespace(c: char) -> (r: bool)
    ensures
        r == spec_is_unicode_whitespace(c),
{
    ('\t' <= c && c <= '\r') || c == ' ' || c == '\u{85}' || c == '\u{a0}' || c == '\u{1680}' || (
    '\u{2000}' <= c && c <= '\u{200a}') || c == '\u{2028}' || c == '\u{2029}' || c == '\u{202f}'
        || c == '\u{205f}' || c == '\u{3000}'
}

pub fn char_len_utf8(c: char) -> (r: u32)
    ensures
        r == char_utf8_len(c),
{
    let v = c as u32;
    if v < 0x80 {
        1
    } else if v < 0x800 {
        2
    } else if v < 0x10000 {
        3
    } else {
        4
    }
}

/// Every line ending counts as spacy, and spacy characters are never
/// control characters.
pub proof fn lemma_line_ending_is_spacy(c: char)
    ensures
        spec_is_line_ending(c) ==> spec_is_spacy(c),
        spec_is_spacy(c) ==> !spec_is_control(c as u32),
{
}

/// Surrogates and noncharacters are never allowed characters, and a control
/// character is allowed only when it is NUL.
pub proof fn lemma_disallowed_characters(c: char)
    ensures
        spec_is_noncharacter(c as u32) ==> !spec_is_allowed_character(c),
        spec_is_control(c as u32) && c as u32 != 0 ==> !spec_is_allowed_character(c),
        spec_is_ascii_alpha(c) || spec_is_ascii_digit(c) ==> spec_is_allowed_character(c),
{
}

/// An ASCII hexadecimal digit is an upper or lower hexadecimal digit, and
/// every ASCII digit is both.
pub proof fn lemma_hex_digits(c: char)
    ensures
        spec_is_ascii_digit(c) ==> spec_is_upper_hex_digit(c) && spec_is_lower_hex_digit(c),
        spec_is_upper_hex_digit(c) && spec_is_lower_hex_digit(c) ==> spec_is_ascii_digit(c),
{
}

} // verus!
