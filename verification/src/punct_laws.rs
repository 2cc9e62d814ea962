//! What the tokenizer makes of line breaks, whitespace, symbols and the
//! characters that belong to no class.
//!
//! These laws describe the tokens directly in terms of the characters of
//! the text, independently of how the lexical rules are phrased.

use vstd::prelude::*;
use crate::chars::spec_is_white_space;
use crate::lexer::{
    comment_class, inline_space_class, lemma_scan_bounds, lemma_scan_stops_at, lex_token,
    scan, symbol_class, word_class,
};
use crate::token::TokenKind;
use crate::word_laws::is_word_kind;

verus! {

/// The eight characters that form symbol tokens.
pub open spec fn is_symbol_char(c: char) -> bool {
    c == '~' || c == '!' || c == '@' || c == ':' || c == '|' || c == '&' || c == '#' || c == '^'
}

/// Whitespace that does not break a line.
pub open spec fn is_line_space(c: char) -> bool {
    spec_is_white_space(c) && c != '\r' && c != '\n'
}

pub open spec fn is_letter_or_underscore(c: char) -> bool {
    ('a' <= c <= 'z') || ('A' <= c <= 'Z') || c == '_'
}

/// The single-character tokens: `~ ! @ ^ :` each stand alone; `\n` and
/// `\r\n` end a line; a `\r` not followed by `\n` is an error; a `-` before
/// whitespace, a letter or `_` is a symbol of its own; and any character
/// that is no symbol, no whitespace, no letter, digit, `_` or `-` (such as
/// `.` or a non-ASCII letter) is a symbol of its own.
pub proof fn lemma_single_character_tokens(s: Seq<char>, a: int)
    requires
        0 <= a < s.len(),
    ensures
        ({
            let (k, b) = lex_token(s, a);
            let c = s[a];
            let next_is_newline = a + 1 < s.len() && s[a + 1] == '\n';
            &&& c == '~' ==> k == TokenKind::Tilde && b == a + 1
            &&& c == '!' ==> k == TokenKind::Bang && b == a + 1
            &&& c == '@' ==> k == TokenKind::At && b == a + 1
            &&& c == '^' ==> k == TokenKind::Caret && b == a + 1
            &&& c == ':' ==> k == TokenKind::Colon && b == a + 1
            &&& c == '\n' ==> k == TokenKind::EndOfLine && b == a + 1
            &&& c == '\r' && next_is_newline ==> k == TokenKind::EndOfLine && b == a + 2
            &&& c == '\r' && !next_is_newline ==> k == TokenKind::Error && b == a + 1
            &&& c == '-' && a + 1 < s.len() && (spec_is_white_space(s[a + 1]) || is_letter_or_underscore(
                s[a + 1],
            )) ==> k == TokenKind::Symbol && b == a + 1
            &&& !is_symbol_char(c) && !spec_is_white_space(c) && !is_letter_or_underscore(c) && !('0' <= c
                <= '9') && c != '-' ==> k == TokenKind::Symbol && b == a + 1
        }),
{
}

/// A `-` that is not before whitespace, a letter or `_`, and a letter,
/// digit or `_`, start a word (an identifier, keyword or number).
pub proof fn lemma_word_starts(s: Seq<char>, a: int)
    requires
        0 <= a < s.len(),
        is_letter_or_underscore(s[a]) || ('0' <= s[a] <= '9') || (s[a] == '-' && !(a + 1 < s.len() && (
        spec_is_white_space(s[a + 1]) || is_letter_or_underscore(s[a + 1])))),
    ensures
        is_word_kind(lex_token(s, a).0),
{
    lemma_scan_bounds(s, a + 1, word_class());
    assert(s.subrange(a, scan(s, a + 1, word_class())).len() > 0);
}

/// A run of symbol characters that starts with `|`, `&` or `#` and ends at
/// `e` (the run taken as far as it goes) is `&&` or `||` when it is exactly
/// that, a comment when it starts with `#` (the comment then runs up to the
/// next line break or the end of the text), and otherwise one symbol token.
pub proof fn lemma_symbol_run_tokens(s: Seq<char>, a: int, e: int)
    requires
        0 <= a < e <= s.len(),
        s[a] == '|' || s[a] == '&' || s[a] == '#',
        forall|i: int| a <= i < e ==> #[trigger] is_symbol_char(s[i]),
        e == s.len() || !is_symbol_char(s[e]),
    ensures
        ({
            let (k, b) = lex_token(s, a);
            let w = s.subrange(a, e);
            &&& w == seq!['&', '&'] ==> k == TokenKind::LogicalAnd && b == e
            &&& w == seq!['|', '|'] ==> k == TokenKind::LogicalOr && b == e
            &&& s[a] == '#' ==> {
                &&& k == TokenKind::Comment
                &&& e <= b <= s.len()
                &&& forall|i: int| e <= i < b ==> #[trigger] s[i] != '\n' && s[i] != '\r'
                &&& b == s.len() || s[b] == '\n' || s[b] == '\r'
            }
            &&& w != seq!['&', '&'] && w != seq!['|', '|'] && s[a] != '#' ==> k == TokenKind::Symbol && b
                == e
        }),
{
    assert forall|i: int| a + 1 <= i < e implies #[trigger] symbol_class()(s[i]) by {
        assert(is_symbol_char(s[i]));
    }
    lemma_scan_stops_at(s, a + 1, e, symbol_class());
    lemma_scan_bounds(s, e, comment_class());
    assert(s.subrange(a, e)[0] == s[a]);
}

/// Whitespace that does not break a line forms one token that runs as far
/// as such whitespace goes.
pub proof fn lemma_whitespace_tokens(s: Seq<char>, a: int)
    requires
        0 <= a < s.len(),
        is_line_space(s[a]),
    ensures
        ({
            let (k, b) = lex_token(s, a);
            &&& k == TokenKind::Whitespace
            &&& a < b <= s.len()
            &&& forall|i: int| a <= i < b ==> #[trigger] is_line_space(s[i])
            &&& b == s.len() || !is_line_space(s[b])
        }),
{
    lemma_scan_bounds(s, a + 1, inline_space_class());
    let b = lex_token(s, a).1;
    assert forall|i: int| a <= i < b implies #[trigger] is_line_space(s[i]) by {
        if i > a {
            assert(inline_space_class()(s[i]));
        }
    }
}

} // verus!
