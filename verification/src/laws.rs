//! What holds of every tokenization.

use vstd::prelude::*;
use vstd::utf8::{encode_utf8, is_char_boundary};
use crate::chars::{spec_is_symbol, spec_is_white_space};
use crate::lexer::{
    comment_class, inline_space_class, lemma_lex_from_unfold, lemma_lex_token_advances,
    lemma_scan_bounds, lex_from, lex_token, scan, symbol_class, tokens_from, word_class,
    spanned_token,
};
use crate::numbers::{spec_is_plain_decimal_float, spec_parse_decimal_i64};
use crate::span::FileId;
use crate::token::{Token, TokenKind};
use crate::utf8::{
    lemma_utf8_offset_ends, lemma_utf8_offset_is_char_boundary, lemma_utf8_offset_monotone,
    utf8_offset,
};

verus! {

/// Token `k` ends where token `k + 1` starts.
pub open spec fn lex_adjacent(ts: Seq<(TokenKind, int, int)>, k: int) -> bool {
    ts[k].2 == ts[k + 1].1
}

/// The tokens from character `p` on cover the rest of the text exactly:
/// each is non-empty, each starts where the one before it ends, the first
/// starts at `p` and the last ends at the end of the text, and each is the
/// token that the lexical rules give at its start.
pub proof fn lemma_lex_from_tiles(s: Seq<char>, p: int)
    requires
        0 <= p <= s.len(),
    ensures
        ({
            let ts = lex_from(s, p);
            &&& (ts.len() == 0 <==> p == s.len())
            &&& ts.len() > 0 ==> ts[0].1 == p && ts.last().2 == s.len()
            &&& forall|k: int| 0 <= k < ts.len() ==> p <= #[trigger] ts[k].1 < ts[k].2 <= s.len()
            &&& forall|k: int| 0 <= k < ts.len() ==> (#[trigger] ts[k]).0 == lex_token(s, ts[k].1).0
                && ts[k].2 == lex_token(s, ts[k].1).1
            &&& forall|k: int| 0 <= k < ts.len() - 1 ==> #[trigger] lex_adjacent(ts, k)
        }),
    decreases s.len() - p,
{
    if p < s.len() {
        lemma_lex_from_unfold(s, p);
        lemma_lex_token_advances(s, p);
        let q = lex_token(s, p).1;
        lemma_lex_from_tiles(s, q);
        let ts = lex_from(s, p);
        let rest = lex_from(s, q);
        assert forall|k: int| 0 < k < ts.len() implies ts[k] == rest[k - 1] by {}
        assert forall|k: int| 0 <= k < ts.len() - 1 implies #[trigger] lex_adjacent(ts, k) by {
            if k > 0 {
                assert(lex_adjacent(rest, k - 1));
            }
        }
        if rest.len() > 0 {
            assert(ts.last() == rest.last());
        }
    }
}

/// Every character from `p` on lies in one of the tokens from `p`.
pub proof fn lemma_lex_from_covers(s: Seq<char>, p: int, i: int)
    requires
        0 <= p <= i < s.len(),
    ensures
        exists|k: int|
            0 <= k < lex_from(s, p).len() && (#[trigger] lex_from(s, p)[k]).1 <= i < lex_from(s, p)[k].2,
    decreases s.len() - p,
{
    lemma_lex_from_unfold(s, p);
    lemma_lex_token_advances(s, p);
    let q = lex_token(s, p).1;
    let ts = lex_from(s, p);
    if i < q {
        assert(ts[0].1 <= i < ts[0].2);
    } else {
        lemma_lex_from_covers(s, q, i);
        let k = choose|k: int|
            0 <= k < lex_from(s, q).len() && (#[trigger] lex_from(s, q)[k]).1 <= i < lex_from(s, q)[k].2;
        assert(ts[k + 1] == lex_from(s, q)[k]);
    }
}

/// The characters of the tokens `ts`, one token after another.
pub open spec fn token_texts(s: Seq<char>, ts: Seq<(TokenKind, int, int)>) -> Seq<char>
    decreases ts.len(),
{
    if ts.len() == 0 {
        seq![]
    } else {
        s.subrange(ts[0].1, ts[0].2) + token_texts(s, ts.drop_first())
    }
}

/// Tokenizing loses and adds nothing: the texts of the tokens from `p` on,
/// put together, are the rest of the text.
pub proof fn lemma_token_texts_rebuild_text(s: Seq<char>, p: int)
    requires
        0 <= p <= s.len(),
    ensures
        token_texts(s, lex_from(s, p)) == s.subrange(p, s.len() as int),
    decreases s.len() - p,
{
    if p == s.len() {
        assert(s.subrange(p, p) =~= Seq::<char>::empty());
    } else {
        lemma_lex_from_unfold(s, p);
        lemma_lex_token_advances(s, p);
        let q = lex_token(s, p).1;
        lemma_token_texts_rebuild_text(s, q);
        assert(lex_from(s, p).drop_first() =~= lex_from(s, q));
        assert(s.subrange(p, q) + s.subrange(q, s.len() as int) =~= s.subrange(p, s.len() as int));
    }
}

/// Which characters a token of a given kind may hold. A line break stands
/// only in an end-of-line token (or, as a lone `\r`, in an error token);
/// an end-of-line token is `\n` or `\r\n`; a whitespace token holds
/// whitespace of one line; a comment starts with `#`; a literal's text is a
/// number of its kind; an error token is a `\r` not followed by `\n`.
pub open spec fn token_content_fits(s: Seq<char>, k: TokenKind, a: int, b: int) -> bool {
    let w = s.subrange(a, b);
    &&& forall|i: int| a <= i < b && #[trigger] s[i] == '\n' ==> k is EndOfLine
    &&& forall|i: int| a <= i < b && #[trigger] s[i] == '\r' ==> k is EndOfLine || k is Error
    &&& k is EndOfLine ==> w == seq!['\n'] || w == seq!['\r', '\n']
    &&& k is Whitespace ==> forall|i: int|
        a <= i < b ==> #[trigger] spec_is_white_space(s[i]) && s[i] != '\n' && s[i] != '\r'
    &&& k is Comment ==> s[a] == '#'
    &&& k is IntLiteral ==> spec_parse_decimal_i64(w) is Some
    &&& k is FloatLiteral ==> spec_is_plain_decimal_float(w)
    &&& k is Error ==> w == seq!['\r'] && !(b < s.len() && s[b] == '\n')
}

/// The token at `a` holds what its kind allows.
pub proof fn lemma_lex_token_content(s: Seq<char>, a: int)
    requires
        0 <= a < s.len(),
    ensures
        token_content_fits(s, lex_token(s, a).0, a, lex_token(s, a).1),
{
    let (k, b) = lex_token(s, a);
    lemma_lex_token_advances(s, a);
    lemma_scan_bounds(s, a + 1, symbol_class());
    let e = scan(s, a + 1, symbol_class());
    lemma_scan_bounds(s, e, comment_class());
    lemma_scan_bounds(s, a + 1, inline_space_class());
    lemma_scan_bounds(s, a + 1, word_class());
    let w = s.subrange(a, b);
    if k is Error {
        if spec_is_symbol(s[a]) && s[a] != '~' && s[a] != '!' && s[a] != '@' && s[a] != '^' && s[a] != ':' {
            assert(s.subrange(a, e).len() > 0);
        }
        assert(w =~= seq!['\r']);
    }
    if k is EndOfLine {
        if s[a] == '\n' {
            assert(w =~= seq!['\n']);
        } else {
            assert(w =~= seq!['\r', '\n']);
        }
    }
    assert forall|i: int| a <= i < b && (#[trigger] s[i] == '\n' || s[i] == '\r') implies k is EndOfLine
        || k is Error by {
        if !(k is EndOfLine) && !(k is Error) && i > a {
            if spec_is_symbol(s[a]) {
                if i < e {
                    assert(symbol_class()(s[i]));
                } else {
                    assert(comment_class()(s[i]));
                }
            } else if spec_is_white_space(s[a]) {
                assert(inline_space_class()(s[i]));
            } else {
                assert(word_class()(s[i]));
            }
        }
    }
    assert forall|i: int| a <= i < b && #[trigger] s[i] == '\n' implies k is EndOfLine by {
        if k is Error {
            assert(s[a] == '\r' || w.len() == 0);
        }
    }
    if k is Whitespace {
        assert forall|i: int| a <= i < b implies #[trigger] spec_is_white_space(s[i]) && s[i] != '\n'
            && s[i] != '\r' by {
            if i > a {
                assert(inline_space_class()(s[i]));
            }
        }
    }
}

/// Every token of a text holds what its kind allows.
pub proof fn lemma_tokens_content(s: Seq<char>)
    ensures
        forall|k: int|
            0 <= k < lex_from(s, 0).len() ==> token_content_fits(
                s,
                (#[trigger] lex_from(s, 0)[k]).0,
                lex_from(s, 0)[k].1,
                lex_from(s, 0)[k].2,
            ),
{
    lemma_lex_from_tiles(s, 0);
    let ts = lex_from(s, 0);
    assert forall|k: int| 0 <= k < ts.len() implies token_content_fits(
        s,
        (#[trigger] ts[k]).0,
        ts[k].1,
        ts[k].2,
    ) by {
        lemma_lex_token_content(s, ts[k].1);
    }
}

/// Token `k`'s span ends where token `k + 1`'s starts.
pub open spec fn tokens_adjacent(ts: Seq<Token>, k: int) -> bool {
    ts[k].span.end_exclusive == ts[k + 1].span.start
}

/// The span facts of one token of a text.
proof fn lemma_token_span(file: FileId, s: Seq<char>, k: int)
    requires
        encode_utf8(s).len() <= usize::MAX,
        0 <= k < lex_from(s, 0).len(),
    ensures
        ({
            let t = tokens_from(file, s, 0)[k];
            let (kind, a, b) = lex_from(s, 0)[k];
            let bytes = encode_utf8(s);
            &&& t == spanned_token(file, s, kind, a, b)
            &&& t.span.start.0 == utf8_offset(s, a)
            &&& t.span.end_exclusive.0 == utf8_offset(s, b)
            &&& t.span.source == file
            &&& t.span.start.0 < t.span.end_exclusive.0 <= bytes.len()
            &&& is_char_boundary(bytes, t.span.start.0 as int)
            &&& is_char_boundary(bytes, t.span.end_exclusive.0 as int)
            &&& bytes.subrange(t.span.start.0 as int, t.span.end_exclusive.0 as int)
                == encode_utf8(s.subrange(a, b))
        }),
{
    lemma_lex_from_tiles(s, 0);
    lemma_utf8_offset_ends(s);
    let (kind, a, b) = lex_from(s, 0)[k];
    assert(0 <= a < b <= s.len());
    lemma_utf8_offset_monotone(s, a, b);
    lemma_utf8_offset_monotone(s, b, s.len() as int);
    lemma_utf8_offset_is_char_boundary(s, a);
    lemma_utf8_offset_is_char_boundary(s, b);
    crate::utf8::lemma_utf8_offset_subrange(s, a, b);
}

/// Tokenizing a text gives spans that tile its UTF-8 bytes: no tokens for
/// the empty text; otherwise the first span starts at byte 0, the last ends
/// at the text's length in bytes, each span is non-empty, starts where the
/// one before it ends, and has both ends on character boundaries (so that
/// [`crate::token::Token::text`] gives the token's text, the encoding of the
/// characters that the token covers), and every span refers to `file`.
pub proof fn lemma_tokens_tile_text(file: FileId, s: Seq<char>)
    requires
        encode_utf8(s).len() <= usize::MAX,
    ensures
        ({
            let ts = tokens_from(file, s, 0);
            let bytes = encode_utf8(s);
            &&& (ts.len() == 0 <==> s.len() == 0)
            &&& ts.len() > 0 ==> ts[0].span.start.0 == 0 && ts.last().span.end_exclusive.0 == bytes.len()
            &&& forall|k: int| 0 <= k < ts.len() - 1 ==> #[trigger] tokens_adjacent(ts, k)
            &&& forall|k: int| 0 <= k < ts.len() ==> {
                &&& (#[trigger] ts[k]).span.source == file
                &&& ts[k].span.start.0 < ts[k].span.end_exclusive.0 <= bytes.len()
                &&& is_char_boundary(bytes, ts[k].span.start.0 as int)
                &&& is_char_boundary(bytes, ts[k].span.end_exclusive.0 as int)
                &&& bytes.subrange(ts[k].span.start.0 as int, ts[k].span.end_exclusive.0 as int)
                    == encode_utf8(s.subrange(lex_from(s, 0)[k].1, lex_from(s, 0)[k].2))
            }
        }),
{
    lemma_lex_from_tiles(s, 0);
    lemma_utf8_offset_ends(s);
    let ls = lex_from(s, 0);
    let ts = tokens_from(file, s, 0);
    let bytes = encode_utf8(s);
    assert forall|k: int| 0 <= k < ts.len() implies {
        &&& (#[trigger] ts[k]).span.source == file
        &&& ts[k].span.start.0 < ts[k].span.end_exclusive.0 <= bytes.len()
        &&& is_char_boundary(bytes, ts[k].span.start.0 as int)
        &&& is_char_boundary(bytes, ts[k].span.end_exclusive.0 as int)
        &&& bytes.subrange(ts[k].span.start.0 as int, ts[k].span.end_exclusive.0 as int)
            == encode_utf8(s.subrange(ls[k].1, ls[k].2))
    } by {
        lemma_token_span(file, s, k);
    }
    assert forall|k: int| 0 <= k < ts.len() - 1 implies #[trigger] tokens_adjacent(ts, k) by {
        lemma_token_span(file, s, k);
        lemma_token_span(file, s, k + 1);
        assert(lex_adjacent(ls, k));
    }
    if ts.len() > 0 {
        lemma_token_span(file, s, 0);
        lemma_token_span(file, s, ts.len() - 1);
    }
}

/// A `\r` at `i` that is not followed by `\n`.
pub open spec fn is_lone_carriage_return(s: Seq<char>, i: int) -> bool {
    0 <= i < s.len() && s[i] == '\r' && !(i + 1 < s.len() && s[i + 1] == '\n')
}

/// Error tokens are exactly the lone carriage returns: each error token is
/// one `\r` that is not followed by `\n`, and each such `\r` is an error
/// token of its own.
pub proof fn lemma_error_tokens_are_lone_carriage_returns(s: Seq<char>)
    ensures
        forall|k: int|
            0 <= k < lex_from(s, 0).len() && (#[trigger] lex_from(s, 0)[k]).0 is Error ==> lex_from(s, 0)[k].2
                == lex_from(s, 0)[k].1 + 1 && is_lone_carriage_return(s, lex_from(s, 0)[k].1),
        forall|i: int|
            #[trigger] is_lone_carriage_return(s, i) ==> exists|k: int|
                0 <= k < lex_from(s, 0).len() && #[trigger] lex_from(s, 0)[k] == (TokenKind::Error, i, i + 1),
{
    let ts = lex_from(s, 0);
    lemma_lex_from_tiles(s, 0);
    lemma_tokens_content(s);
    assert forall|k: int| 0 <= k < ts.len() && (#[trigger] ts[k]).0 is Error implies ts[k].2 == ts[k].1 + 1
        && is_lone_carriage_return(s, ts[k].1) by {
        let (kind, a, b) = ts[k];
        assert(token_content_fits(s, kind, a, b));
        assert(s.subrange(a, b).len() == 1);
        assert(s[a] == s.subrange(a, b)[0]);
    }
    assert forall|i: int| #[trigger] is_lone_carriage_return(s, i) implies exists|k: int|
        0 <= k < ts.len() && #[trigger] ts[k] == (TokenKind::Error, i, i + 1) by {
        lemma_lex_from_covers(s, 0, i);
        let k = choose|k: int| 0 <= k < ts.len() && (#[trigger] ts[k]).1 <= i < ts[k].2;
        let (kind, a, b) = ts[k];
        assert(token_content_fits(s, kind, a, b));
        let w = s.subrange(a, b);
        assert(w[i - a] == s[i]);
        if kind is EndOfLine {
            if w == seq!['\r', '\n'] {
                assert(i == a);
                assert(w[1] == s[a + 1]);
            }
        }
        assert(kind is Error);
        assert(w.len() == 1);
        assert(ts[k] == (TokenKind::Error, i, i + 1));
    }
}

/// The bytes of the spans of `ts`, one token after another.
pub open spec fn span_texts(bytes: Seq<u8>, ts: Seq<Token>) -> Seq<u8>
    decreases ts.len(),
{
    if ts.len() == 0 {
        seq![]
    } else {
        bytes.subrange(ts[0].span.start.0 as int, ts[0].span.end_exclusive.0 as int) + span_texts(
            bytes,
            ts.drop_first(),
        )
    }
}

proof fn lemma_span_texts_from(file: FileId, s: Seq<char>, p: int)
    requires
        encode_utf8(s).len() <= usize::MAX,
        0 <= p <= s.len(),
    ensures
        span_texts(encode_utf8(s), tokens_from(file, s, p)) == encode_utf8(s).subrange(
            utf8_offset(s, p),
            encode_utf8(s).len() as int,
        ),
    decreases s.len() - p,
{
    let bytes = encode_utf8(s);
    lemma_utf8_offset_ends(s);
    if p == s.len() {
        lemma_lex_from_tiles(s, p);
        assert(tokens_from(file, s, p).len() == 0);
        assert(bytes.subrange(bytes.len() as int, bytes.len() as int) =~= Seq::<u8>::empty());
    } else {
        crate::lexer::lemma_tokens_from_unfold(file, s, p);
        lemma_lex_token_advances(s, p);
        let q = lex_token(s, p).1;
        lemma_span_texts_from(file, s, q);
        lemma_utf8_offset_monotone(s, p, q);
        lemma_utf8_offset_monotone(s, q, s.len() as int);
        assert(tokens_from(file, s, p).drop_first() =~= tokens_from(file, s, q));
        assert(bytes.subrange(utf8_offset(s, p), utf8_offset(s, q)) + bytes.subrange(
            utf8_offset(s, q),
            bytes.len() as int,
        ) =~= bytes.subrange(utf8_offset(s, p), bytes.len() as int));
    }
}

/// Tokenizing loses and adds nothing, in bytes: the texts of a text's
/// tokens (what [`crate::token::Token::text`] gives for each), put together,
/// are the whole text.
pub proof fn lemma_token_bytes_rebuild_text(file: FileId, s: Seq<char>)
    requires
        encode_utf8(s).len() <= usize::MAX,
    ensures
        span_texts(encode_utf8(s), tokens_from(file, s, 0)) == encode_utf8(s),
{
    lemma_span_texts_from(file, s, 0);
    lemma_utf8_offset_ends(s);
    assert(encode_utf8(s).subrange(0, encode_utf8(s).len() as int) =~= encode_utf8(s));
}

} // verus!
