//! The lexical rules of MiniYaml, stated over the characters of a text.
//!
//! `lex_token(s, p)` says which token starts at character `p` of `s` and
//! where it ends; `lex_from(s, p)` is the whole sequence of tokens from `p`.

use vstd::prelude::*;
use crate::chars::{
    spec_is_ascii_digit, spec_is_dec_digit_continue, spec_is_dec_digit_start,
    spec_is_digit_or_numeric_symbol, spec_is_identifier_continue, spec_is_identifier_start,
    spec_is_symbol, spec_is_white_space,
};
use crate::numbers::{spec_is_plain_decimal_float, spec_parse_decimal_i64};
use crate::span::{ByteIndex, FileId, FileSpan};
use crate::token::{Token, TokenKind};
use crate::utf8::utf8_offset;

verus! {

/// The first index at or after `q` whose character does not satisfy `pred`
/// (or the end of `s`).
pub open spec fn scan(s: Seq<char>, q: int, pred: spec_fn(char) -> bool) -> int
    decreases s.len() - q,
{
    if q < 0 || q >= s.len() || !pred(s[q]) {
        q
    } else {
        scan(s, q + 1, pred)
    }
}

/// Characters that are glued together into one symbol token.
pub open spec fn symbol_class() -> spec_fn(char) -> bool {
    |c: char| spec_is_symbol(c)
}

/// Whitespace that does not end a line.
pub open spec fn inline_space_class() -> spec_fn(char) -> bool {
    |c: char| c != '\r' && c != '\n' && spec_is_white_space(c)
}

/// Anything up to a line break.
pub open spec fn comment_class() -> spec_fn(char) -> bool {
    |c: char| c != '\n' && c != '\r'
}

/// Characters that continue an identifier or a decimal literal.
pub open spec fn word_class() -> spec_fn(char) -> bool {
    |c: char| spec_is_identifier_continue(c) || spec_is_dec_digit_continue(c)
}

/// The lower-case code of an ASCII letter, and the code of any other character.
pub open spec fn ascii_lower_code(c: char) -> u32 {
    if 'A' <= c <= 'Z' {
        (c as u32 + 32) as u32
    } else {
        c as u32
    }
}

/// Equality of two texts up to the case of ASCII letters.
pub open spec fn eq_ignore_ascii_case(a: Seq<char>, b: Seq<char>) -> bool {
    &&& a.len() == b.len()
    &&& forall|i: int| 0 <= i < a.len() ==> #[trigger] ascii_lower_code(a[i]) == ascii_lower_code(b[i])
}

pub open spec fn keyword_true() -> Seq<char> {
    seq!['t', 'r', 'u', 'e']
}

pub open spec fn keyword_false() -> Seq<char> {
    seq!['f', 'a', 'l', 's', 'e']
}

pub open spec fn keyword_yes() -> Seq<char> {
    seq!['y', 'e', 's']
}

pub open spec fn keyword_no() -> Seq<char> {
    seq!['n', 'o']
}

pub open spec fn all_chars(w: Seq<char>, pred: spec_fn(char) -> bool) -> bool {
    forall|i: int| 0 <= i < w.len() ==> #[trigger] pred(w[i])
}

pub open spec fn has_char(w: Seq<char>, c: char) -> bool {
    exists|i: int| 0 <= i < w.len() && w[i] == c
}

pub open spec fn dash_class() -> spec_fn(char) -> bool {
    |c: char| c == '-'
}

pub open spec fn numeric_class() -> spec_fn(char) -> bool {
    |c: char| spec_is_digit_or_numeric_symbol(c)
}

/// The kind of a word: a keyword (in any ASCII case), a number that parses
/// as one, or else an identifier.
pub open spec fn word_kind(w: Seq<char>) -> TokenKind {
    if w.len() == 0 {
        TokenKind::Error
    } else if eq_ignore_ascii_case(w, keyword_true()) {
        TokenKind::True
    } else if eq_ignore_ascii_case(w, keyword_false()) {
        TokenKind::False
    } else if eq_ignore_ascii_case(w, keyword_yes()) {
        TokenKind::Yes
    } else if eq_ignore_ascii_case(w, keyword_no()) {
        TokenKind::No
    } else if all_chars(w, dash_class()) {
        TokenKind::Identifier
    } else if all_chars(w, numeric_class()) && spec_is_ascii_digit(w.last()) {
        if has_char(w, '.') {
            if spec_is_plain_decimal_float(w) {
                TokenKind::FloatLiteral
            } else {
                TokenKind::Identifier
            }
        } else if spec_parse_decimal_i64(w) is Some {
            TokenKind::IntLiteral
        } else {
            TokenKind::Identifier
        }
    } else {
        TokenKind::Identifier
    }
}

/// A symbol token that starts at `a`, with the characters before `p`
/// already taken: the run of symbol characters from `p` on is taken too, and
/// the characters from `a` are read as `&&`, `||`, a comment (which then runs
/// to the end of the line), nothing at all (an error) or a symbol.
pub open spec fn lex_symbol_from(s: Seq<char>, a: int, p: int) -> (TokenKind, int) {
    let e = scan(s, p, symbol_class());
    let w = s.subrange(a, e);
    if w == seq!['&', '&'] {
        (TokenKind::LogicalAnd, e)
    } else if w == seq!['|', '|'] {
        (TokenKind::LogicalOr, e)
    } else if w.len() > 0 && w[0] == '#' {
        (TokenKind::Comment, scan(s, e, comment_class()))
    } else if w.len() == 0 {
        (TokenKind::Error, e)
    } else {
        (TokenKind::Symbol, e)
    }
}

/// A symbol token whose first character, at `p`, is a symbol.
pub open spec fn lex_symbol(s: Seq<char>, p: int) -> (TokenKind, int) {
    lex_symbol_from(s, p, p + 1)
}

/// An identifier or decimal literal that starts at `a`, with the characters
/// before `p` already taken: the word characters from `p` on are taken too.
pub open spec fn lex_word_from(s: Seq<char>, a: int, p: int) -> (TokenKind, int) {
    let e = scan(s, p, word_class());
    (word_kind(s.subrange(a, e)), e)
}

/// An identifier or decimal literal whose first character is at `p`.
pub open spec fn lex_word(s: Seq<char>, p: int) -> (TokenKind, int) {
    lex_word_from(s, p, p + 1)
}

/// Whether the character after `p` exists and satisfies `pred`.
pub open spec fn next_satisfies(s: Seq<char>, p: int, pred: spec_fn(char) -> bool) -> bool {
    p + 1 < s.len() && pred(s[p + 1])
}

/// The token that starts at character `p` of `s`: its kind and the index
/// just past its last character.
pub open spec fn lex_token(s: Seq<char>, p: int) -> (TokenKind, int) {
    let c = s[p];
    let q = p + 1;
    if c == '~' {
        (TokenKind::Tilde, q)
    } else if c == '!' {
        (TokenKind::Bang, q)
    } else if c == '@' {
        (TokenKind::At, q)
    } else if c == '^' {
        (TokenKind::Caret, q)
    } else if c == ':' {
        (TokenKind::Colon, q)
    } else if c == '-' && next_satisfies(s, p, |n: char| spec_is_white_space(n)) {
        // a pseudo bullet point
        (TokenKind::Symbol, q)
    } else if c == '-' && next_satisfies(s, p, |n: char| spec_is_identifier_start(n)) {
        // removal of an inherited property: the `-` alone
        (TokenKind::Symbol, q)
    } else if c == '\n' {
        (TokenKind::EndOfLine, q)
    } else if c == '\r' && next_satisfies(s, p, |n: char| n == '\n') {
        (TokenKind::EndOfLine, q + 1)
    } else if c == '\r' {
        (TokenKind::Error, q)
    } else if spec_is_symbol(c) {
        lex_symbol(s, p)
    } else if spec_is_white_space(c) {
        (TokenKind::Whitespace, scan(s, q, inline_space_class()))
    } else if spec_is_dec_digit_start(c) || spec_is_identifier_start(c) {
        lex_word(s, p)
    } else {
        (TokenKind::Symbol, q)
    }
}

/// The tokens of `s` from character `p` on, each as its kind and its range
/// of characters.
pub open spec fn lex_from(s: Seq<char>, p: int) -> Seq<(TokenKind, int, int)>
    decreases s.len() - p,
{
    if p < 0 || p >= s.len() {
        seq![]
    } else {
        let (k, q) = lex_token(s, p);
        if q <= p || q > s.len() {
            seq![]
        } else {
            seq![(k, p, q)] + lex_from(s, q)
        }
    }
}

/// The token of kind `k` over characters `[a, b)` of `s` in file `file`,
/// with its span in bytes.
pub open spec fn spanned_token(file: FileId, s: Seq<char>, k: TokenKind, a: int, b: int) -> Token {
    Token {
        kind: k,
        span: FileSpan {
            source: file,
            start: ByteIndex(utf8_offset(s, a) as usize),
            end_exclusive: ByteIndex(utf8_offset(s, b) as usize),
        },
    }
}

/// The tokens of `s` from character `p` on, with their spans in bytes.
pub open spec fn tokens_from(file: FileId, s: Seq<char>, p: int) -> Seq<Token> {
    lex_from(s, p).map_values(|t: (TokenKind, int, int)| spanned_token(file, s, t.0, t.1, t.2))
}

/// `scan` never moves backwards, nor past the end.
pub proof fn lemma_scan_bounds(s: Seq<char>, q: int, pred: spec_fn(char) -> bool)
    requires
        0 <= q <= s.len(),
    ensures
        q <= scan(s, q, pred) <= s.len(),
        forall|i: int| q <= i < scan(s, q, pred) ==> #[trigger] pred(s[i]),
        scan(s, q, pred) < s.len() ==> !pred(s[scan(s, q, pred)]),
    decreases s.len() - q,
{
    if q < s.len() && pred(s[q]) {
        lemma_scan_bounds(s, q + 1, pred);
    }
}

/// `scan` stops exactly at the first character that fails `pred`.
pub proof fn lemma_scan_stops_at(s: Seq<char>, q: int, b: int, pred: spec_fn(char) -> bool)
    requires
        0 <= q <= b <= s.len(),
        forall|i: int| q <= i < b ==> #[trigger] pred(s[i]),
        b == s.len() || !pred(s[b]),
    ensures
        scan(s, q, pred) == b,
    decreases b - q,
{
    if q < b {
        lemma_scan_stops_at(s, q + 1, b, pred);
    }
}

/// Every token is non-empty and lies within the text.
pub proof fn lemma_lex_token_advances(s: Seq<char>, p: int)
    requires
        0 <= p < s.len(),
    ensures
        p < lex_token(s, p).1 <= s.len(),
{
    lemma_scan_bounds(s, p + 1, symbol_class());
    let e = scan(s, p + 1, symbol_class());
    if 0 <= e <= s.len() {
        lemma_scan_bounds(s, e, comment_class());
    }
    lemma_scan_bounds(s, p + 1, inline_space_class());
    lemma_scan_bounds(s, p + 1, word_class());
}

/// Unfolding `lex_from` at a position inside the text.
pub proof fn lemma_lex_from_unfold(s: Seq<char>, p: int)
    requires
        0 <= p < s.len(),
    ensures
        lex_from(s, p) == seq![(lex_token(s, p).0, p, lex_token(s, p).1)] + lex_from(
            s,
            lex_token(s, p).1,
        ),
{
    lemma_lex_token_advances(s, p);
}

/// Unfolding `tokens_from` at a position inside the text.
pub proof fn lemma_tokens_from_unfold(file: FileId, s: Seq<char>, p: int)
    requires
        0 <= p < s.len(),
    ensures
        tokens_from(file, s, p) == seq![
            spanned_token(file, s, lex_token(s, p).0, p, lex_token(s, p).1),
        ] + tokens_from(file, s, lex_token(s, p).1),
{
    lemma_lex_from_unfold(s, p);
    let f = |t: (TokenKind, int, int)| spanned_token(file, s, t.0, t.1, t.2);
    let head = seq![(lex_token(s, p).0, p, lex_token(s, p).1)];
    let tail = lex_from(s, lex_token(s, p).1);
    assert((head + tail).map_values(f) =~= head.map_values(f) + tail.map_values(f));
    assert(head.map_values(f) =~= seq![spanned_token(file, s, lex_token(s, p).0, p, lex_token(s, p).1)]);
}

} // verus!
