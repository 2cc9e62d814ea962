//! Character classes out of which the MiniYaml lexical rules are built.

use vstd::prelude::*;

verus! {

/// Unicode's `White_Space` property (PropList.txt): U+0009..U+000D, U+0020,
/// U+0085, U+00A0, U+1680, U+2000..U+200A, U+2028, U+2029, U+202F, U+205F
/// and U+3000.
pub open spec fn spec_is_white_space(c: char) -> bool {
    let u = c as u32;
    ||| 0x09 <= u <= 0x0D
    ||| u == 0x20
    ||| u == 0x85
    ||| u == 0xA0
    ||| u == 0x1680
    ||| 0x2000 <= u <= 0x200A
    ||| u == 0x2028
    ||| u == 0x2029
    ||| u == 0x202F
    ||| u == 0x205F
    ||| u == 0x3000
}

/// An ASCII decimal digit, `0` to `9`.
pub open spec fn spec_is_ascii_digit(c: char) -> bool {
    '0' <= c <= '9'
}

/// An ASCII letter.
pub open spec fn spec_is_ascii_letter(c: char) -> bool {
    ('a' <= c <= 'z') || ('A' <= c <= 'Z')
}

pub open spec fn spec_is_symbol(c: char) -> bool {
    c == '~' || c == '!' || c == '@' || c == ':' || c == '|' || c == '&' || c == '#' || c == '^'
}

pub open spec fn spec_is_digit_or_numeric_symbol(c: char) -> bool {
    c == '-' || c == '.' || spec_is_ascii_digit(c)
}

pub open spec fn spec_is_dec_digit_start(c: char) -> bool {
    c == '-' || spec_is_ascii_digit(c)
}

pub open spec fn spec_is_dec_digit_continue(c: char) -> bool {
    spec_is_digit_or_numeric_symbol(c)
}

pub open spec fn spec_is_identifier_start(c: char) -> bool {
    spec_is_ascii_letter(c) || c == '_'
}

pub open spec fn spec_is_identifier_continue(c: char) -> bool {
    spec_is_dec_digit_continue(c) || spec_is_ascii_letter(c) || c == '_' || c == '-' || c == '.'
}

/// Whether `c` has Unicode's `White_Space` property (what
/// `char::is_whitespace` tells).
pub(crate) fn char_is_whitespace(c: char) -> (r: bool)
    ensures
        r == spec_is_white_space(c),
{
    let u = c as u32;
    (0x09 <= u && u <= 0x0D) || u == 0x20 || u == 0x85 || u == 0xA0 || u == 0x1680 || (0x2000 <= u
        && u <= 0x200A) || u == 0x2028 || u == 0x2029 || u == 0x202F || u == 0x205F || u == 0x3000
}

/// Whether `c` is an ASCII decimal digit (what `char::is_digit(10)` tells).
pub(crate) fn char_is_decimal_digit(c: char) -> (r: bool)
    ensures
        r == spec_is_ascii_digit(c),
{
    '0' <= c && c <= '9'
}

/// Symbols that may be combined into one multi-character token.
pub fn is_symbol(ch: char) -> (r: bool)
    ensures
        r == spec_is_symbol(ch),
{
    match ch {
        '~' | '!' | '@' | ':' | '|' | '&' | '#' | '^' => true,
        _ => false,
    }
}

/// Characters that may appear in a numeric literal.
pub fn is_digit_or_numeric_symbol(ch: char) -> (r: bool)
    ensures
        r == spec_is_digit_or_numeric_symbol(ch),
{
    match ch {
        '-' | '.' => true,
        _ if char_is_decimal_digit(ch) => true,
        _ => false,
    }
}

/// Characters that may begin a decimal literal (`-` allows negative literals).
pub fn is_dec_digit_start(ch: char) -> (r: bool)
    ensures
        r == spec_is_dec_digit_start(ch),
{
    match ch {
        '-' => true,
        _ if char_is_decimal_digit(ch) => true,
        _ => false,
    }
}

/// Characters that may continue a decimal literal.
pub fn is_dec_digit_continue(ch: char) -> (r: bool)
    ensures
        r == spec_is_dec_digit_continue(ch),
{
    is_digit_or_numeric_symbol(ch)
}

/// Characters that may begin an identifier.
pub fn is_identifier_start(ch: char) -> (r: bool)
    ensures
        r == spec_is_identifier_start(ch),
{
    match ch {
        'a'..='z' | 'A'..='Z' | '_' => true,
        _ => false,
    }
}

/// Characters that may continue an identifier (`T01`, for example, is a
/// valid identifier).
pub fn is_identifier_continue(ch: char) -> (r: bool)
    ensures
        r == spec_is_identifier_continue(ch),
{
    match ch {
        _ if is_dec_digit_continue(ch) => true,
        'a'..='z' | 'A'..='Z' | '_' | '-' | '.' => true,
        _ => false,
    }
}

/// The character classes, spelled out: the eight symbol characters; the
/// ASCII digits; `-` and `.` beside the digits for numbers; ASCII letters
/// and `_` to start an identifier, and those, the digits, `-` and `.` to
/// continue one. No symbol character is whitespace or may appear in a word,
/// and no whitespace may appear in a word.
pub proof fn lemma_char_classes(c: char)
    ensures
        spec_is_symbol(c) == (c == '~' || c == '!' || c == '@' || c == ':' || c == '|' || c == '&'
            || c == '#' || c == '^'),
        spec_is_ascii_digit(c) == (c == '0' || c == '1' || c == '2' || c == '3' || c == '4' || c == '5'
            || c == '6' || c == '7' || c == '8' || c == '9'),
        spec_is_digit_or_numeric_symbol(c) == (c == '-' || c == '.' || ('0' <= c && c <= '9')),
        spec_is_dec_digit_start(c) == (c == '-' || ('0' <= c && c <= '9')),
        spec_is_dec_digit_continue(c) == spec_is_digit_or_numeric_symbol(c),
        spec_is_identifier_start(c) == (('a' <= c && c <= 'z') || ('A' <= c && c <= 'Z') || c == '_'),
        spec_is_identifier_continue(c) == (('a' <= c && c <= 'z') || ('A' <= c && c <= 'Z') || ('0' <= c
            && c <= '9') || c == '_' || c == '-' || c == '.'),
        spec_is_identifier_start(c) ==> spec_is_identifier_continue(c),
        spec_is_dec_digit_start(c) ==> spec_is_identifier_continue(c),
        spec_is_symbol(c) ==> !spec_is_white_space(c) && !spec_is_identifier_continue(c),
        spec_is_white_space(c) ==> !spec_is_identifier_continue(c),
        spec_is_white_space(c) == (c == '\t' || c == '\n' || c == '\u{0B}' || c == '\u{0C}' || c
            == '\r' || c == ' ' || c == '\u{85}' || c == '\u{A0}' || c == '\u{1680}' || ('\u{2000}'
            <= c && c <= '\u{200A}') || c == '\u{2028}' || c == '\u{2029}' || c == '\u{202F}' || c
            == '\u{205F}' || c == '\u{3000}'),
{
}

} // verus!
