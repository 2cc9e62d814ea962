//! Demarcating text into a sequence of [`Token`]s.

use vstd::prelude::*;
use vstd::utf8::{encode_utf8, is_char_boundary};
use crate::chars::{
    char_is_decimal_digit, char_is_whitespace, is_dec_digit_continue, is_dec_digit_start,
    is_digit_or_numeric_symbol, is_identifier_continue, is_identifier_start, is_symbol,
    spec_is_identifier_start, spec_is_white_space,
};
use crate::lexer::{
    all_chars, ascii_lower_code, comment_class, dash_class, eq_ignore_ascii_case, has_char,
    inline_space_class, keyword_false, keyword_no, keyword_true, keyword_yes,
    lemma_tokens_from_unfold, lex_symbol_from, lex_token, lex_word_from, numeric_class, scan,
    spanned_token, symbol_class, tokens_from, word_class,
};
use crate::numbers::{is_plain_decimal_float, parse_decimal_i64};
use crate::span::{ByteCount, ByteIndex, FileId, FileSpan};
use crate::token::{Token, TokenKind};
use crate::utf8::{
    lemma_utf8_offset_ends, lemma_utf8_offset_is_char_boundary, lemma_utf8_offset_monotone,
    lemma_utf8_offset_step, utf8_offset,
};

verus! {

/// Whitespace that does not end a line.
fn is_inline_space(c: char) -> (r: bool)
    ensures
        r == inline_space_class()(c),
{
    c != '\r' && c != '\n' && char_is_whitespace(c)
}

/// Anything but a line-break character.
fn is_not_line_break(c: char) -> (r: bool)
    ensures
        r == comment_class()(c),
{
    c != '\n' && c != '\r'
}

/// A character that continues an identifier or a decimal literal.
fn is_word_char(c: char) -> (r: bool)
    ensures
        r == word_class()(c),
{
    is_identifier_continue(c) || is_dec_digit_continue(c)
}

fn is_dash(c: char) -> (r: bool)
    ensures
        r == dash_class()(c),
{
    c == '-'
}

/// Whether every character of `w` satisfies `f`.
fn all_satisfy<F: Fn(char) -> bool>(w: &[char], f: F, Ghost(pred): Ghost<spec_fn(char) -> bool>) -> (r: bool)
    requires
        forall|c: char| #[trigger] f.requires((c,)),
        forall|c: char, b: bool| f.ensures((c,), b) ==> b == pred(c),
    ensures
        r == all_chars(w@, pred),
{
    let n = w.len();
    let mut i: usize = 0;
    while i < n
        invariant
            n == w@.len(),
            i <= n,
            forall|k: int| 0 <= k < i ==> #[trigger] pred(w@[k]),
            forall|c: char| #[trigger] f.requires((c,)),
            forall|c: char, b: bool| f.ensures((c,), b) ==> b == pred(c),
        decreases n - i,
    {
        if !f(w[i]) {
            return false;
        }
        i = i + 1;
    }
    true
}

/// Whether `w` contains `c`.
fn contains_char(w: &[char], c: char) -> (r: bool)
    ensures
        r == has_char(w@, c),
{
    let n = w.len();
    let mut i: usize = 0;
    while i < n
        invariant
            n == w@.len(),
            i <= n,
            forall|k: int| 0 <= k < i ==> w@[k] != c,
        decreases n - i,
    {
        if w[i] == c {
            return true;
        }
        i = i + 1;
    }
    false
}

/// The code of `c` with an ASCII capital letter mapped to lower case.
fn to_ascii_lower_code(c: char) -> (r: u32)
    ensures
        r == ascii_lower_code(c),
{
    if 'A' <= c && c <= 'Z' {
        c as u32 + 32
    } else {
        c as u32
    }
}

/// Equality of two texts up to the case of ASCII letters.
fn chars_eq_ignore_ascii_case(a: &[char], b: &[char]) -> (r: bool)
    ensures
        r == eq_ignore_ascii_case(a@, b@),
{
    let n = a.len();
    if n != b.len() {
        return false;
    }
    let mut i: usize = 0;
    while i < n
        invariant
            n == a@.len(),
            n == b@.len(),
            i <= n,
            forall|k: int| 0 <= k < i ==> #[trigger] ascii_lower_code(a@[k]) == ascii_lower_code(b@[k]),
        decreases n - i,
    {
        if to_ascii_lower_code(a[i]) != to_ascii_lower_code(b[i]) {
            return false;
        }
        i = i + 1;
    }
    true
}

/// Transforms text into a sequence of [`Token`]s.
///
/// The tokenizer reads the characters of `text` from left to right; each
/// call of [`Tokenizer::next`] consumes one token.
pub struct Tokenizer<'text> {
    /// The underlying text that is being tokenized.
    text: &'text str,
    /// The file that spans refer to.
    file_id: FileId,
    /// The characters of `text`.
    chars: Vec<char>,
    /// The index in `chars` of the next character to consume.
    pos: usize,
    /// The index in `chars` at which the current token starts.
    token_start_pos: usize,
    /// The byte offset at which the current token starts.
    token_start: ByteIndex,
    /// The byte offset just past the characters consumed so far.
    token_end_exclusive: ByteIndex,
}

impl<'text> Tokenizer<'text> {
    /// The internal invariant, which holds in the middle of a token too.
    pub closed spec fn inv(&self) -> bool {
        &&& self.chars@ == self.text@
        &&& encode_utf8(self.chars@).len() <= usize::MAX
        &&& self.token_start_pos <= self.pos <= self.chars@.len()
        &&& self.token_start.0 == utf8_offset(self.chars@, self.token_start_pos as int)
        &&& self.token_end_exclusive.0 == utf8_offset(self.chars@, self.pos as int)
    }

    /// The span from the start of the current token up to the characters
    /// consumed so far.
    pub closed spec fn pending_span(&self) -> FileSpan {
        FileSpan { source: self.file_id, start: self.token_start, end_exclusive: self.token_end_exclusive }
    }

    /// In every state that the tokenizer's steps reach, the pending span
    /// (what `token_span` gives) is ordered, lies within the text, and has
    /// both ends on character boundaries of the text's UTF-8 encoding.
    pub proof fn lemma_pending_span_on_char_boundaries(&self)
        requires
            self.inv(),
        ensures
            self.pending_span().source == self.file(),
            self.pending_span().start.0 <= self.pending_span().end_exclusive.0 <= encode_utf8(
                self.source_chars(),
            ).len(),
            is_char_boundary(encode_utf8(self.source_chars()), self.pending_span().start.0 as int),
            is_char_boundary(encode_utf8(self.source_chars()), self.pending_span().end_exclusive.0 as int),
    {
        lemma_utf8_offset_monotone(self.chars@, self.token_start_pos as int, self.pos as int);
        lemma_utf8_offset_monotone(self.chars@, self.pos as int, self.chars@.len() as int);
        lemma_utf8_offset_ends(self.chars@);
        lemma_utf8_offset_is_char_boundary(self.chars@, self.token_start_pos as int);
        lemma_utf8_offset_is_char_boundary(self.chars@, self.pos as int);
    }

    /// Well-formed, and between two tokens.
    pub closed spec fn wf(&self) -> bool {
        self.inv() && self.token_start_pos == self.pos
    }

    /// The characters of the text being tokenized.
    pub closed spec fn source_chars(&self) -> Seq<char> {
        self.text@
    }

    /// The index of the next character to consume.
    pub closed spec fn position(&self) -> int {
        self.pos as int
    }

    /// The file that spans refer to.
    pub closed spec fn file(&self) -> FileId {
        self.file_id
    }

    /// What stays fixed while characters are consumed within one token.
    closed spec fn same_token_start(&self, other: &Self) -> bool {
        &&& self.text == other.text
        &&& self.file_id == other.file_id
        &&& self.chars == other.chars
        &&& self.token_start_pos == other.token_start_pos
        &&& self.token_start == other.token_start
    }

    /// Create a new [`Tokenizer`] over `text`, whose spans refer to `file_id`.
    pub fn new(file_id: FileId, text: &'text str) -> (r: Tokenizer<'text>)
        ensures
            r.wf(),
            r.source_chars() == text@,
            r.position() == 0,
            r.position() <= r.source_chars().len(),
            r.file() == file_id,
    {
        broadcast use vstd::string::group_string_axioms;

        let mut chars: Vec<char> = Vec::new();
        for c in it: text.chars()
            invariant
                chars@ == it.seq().take(it.index() as int),
        {
            chars.push(c);
        }
        assert(chars@ == text@);
        let bytes = text.as_bytes();
        let byte_len = bytes.len();
        proof {
            broadcast use vstd::slice::axiom_spec_len;
            assert(byte_len == encode_utf8(text@).len());
            lemma_utf8_offset_ends(chars@);
        }
        Tokenizer {
            text,
            file_id,
            chars,
            pos: 0,
            token_start_pos: 0,
            token_start: ByteIndex(0),
            token_end_exclusive: ByteIndex(0),
        }
    }

    /// All the tokens that remain, in order.
    pub fn run(&mut self) -> (r: Vec<Token>)
        requires
            old(self).wf(),
        ensures
            final(self).wf(),
            final(self).source_chars() == old(self).source_chars(),
            final(self).file() == old(self).file(),
            final(self).position() == old(self).source_chars().len(),
            old(self).position() <= old(self).source_chars().len(),
            r@ == tokens_from(old(self).file(), old(self).source_chars(), old(self).position()),
    {
        let mut tokens: Vec<Token> = Vec::new();
        loop
            invariant
                self.wf(),
                self.source_chars() == old(self).source_chars(),
                self.file() == old(self).file(),
                old(self).position() <= self.position(),
                tokens@ + tokens_from(self.file(), self.source_chars(), self.position())
                    == tokens_from(old(self).file(), old(self).source_chars(), old(self).position()),
            ensures
                self.wf(),
                self.source_chars() == old(self).source_chars(),
                self.file() == old(self).file(),
                self.position() == old(self).source_chars().len(),
                tokens@ == tokens_from(old(self).file(), old(self).source_chars(), old(self).position()),
            decreases self.source_chars().len() - self.position(),
        {
            let ghost before = self.position();
            match self.next() {
                Some(token) => {
                    let ghost rest = tokens_from(self.file(), self.source_chars(), self.position());
                    tokens.push(token);
                    assert(tokens@ + rest =~= tokens@.drop_last() + (seq![token] + rest));
                },
                None => {
                    assert(tokens_from(self.file(), self.source_chars(), self.position()) =~= Seq::<Token>::empty());
                    assert(tokens@ + Seq::<Token>::empty() =~= tokens@);
                    break;
                },
            }
        }
        tokens
    }

    /// Consume one token and return it, or `None` at the end of the text.
    pub fn next(&mut self) -> (r: Option<Token>)
        requires
            old(self).wf(),
        ensures
            final(self).wf(),
            final(self).source_chars() == old(self).source_chars(),
            final(self).file() == old(self).file(),
            old(self).position() <= old(self).source_chars().len(),
            final(self).position() <= final(self).source_chars().len(),
            old(self).position() == old(self).source_chars().len() ==> r is None && *final(self)
                == *old(self),
            r is None ==> old(self).position() == old(self).source_chars().len(),
            old(self).position() < old(self).source_chars().len() ==> {
                let (k, e) = lex_token(old(self).source_chars(), old(self).position());
                &&& r == Some(spanned_token(old(self).file(), old(self).source_chars(), k, old(self).position(), e))
                &&& final(self).position() == e
            },
            r matches Some(t) ==> tokens_from(old(self).file(), old(self).source_chars(), old(self).position())
                == seq![t] + tokens_from(final(self).file(), final(self).source_chars(), final(self).position()),
            // In bytes: the token starts at the byte offset of the old
            // position and ends, past it, at that of the new one, within the
            // text; there is no token exactly when that offset is the end.
            r matches Some(t) ==> {
                &&& t.span.source == old(self).file()
                &&& t.span.start.0 == utf8_offset(old(self).source_chars(), old(self).position())
                &&& t.span.end_exclusive.0 == utf8_offset(final(self).source_chars(), final(self).position())
                &&& t.span.start.0 < t.span.end_exclusive.0 <= encode_utf8(old(self).source_chars()).len()
            },
            r is None <==> utf8_offset(old(self).source_chars(), old(self).position()) == encode_utf8(
                old(self).source_chars(),
            ).len(),
    {
        match self.consume_token() {
            Some(kind) => {
                let token = self.emit(kind);
                proof {
                    lemma_tokens_from_unfold(self.file_id, self.chars@, old(self).pos as int);
                    lemma_utf8_offset_monotone(self.chars@, old(self).pos as int, self.pos as int);
                    lemma_utf8_offset_monotone(self.chars@, self.pos as int, self.chars@.len() as int);
                    lemma_utf8_offset_ends(self.chars@);
                }
                Some(token)
            },
            None => {
                proof {
                    lemma_utf8_offset_ends(self.chars@);
                }
                None
            },
        }
    }

    fn consume_token(&mut self) -> (r: Option<TokenKind>)
        requires
            old(self).wf(),
        ensures
            final(self).inv(),
            final(self).same_token_start(old(self)),
            old(self).pos == old(self).chars@.len() ==> r is None && final(self).pos == old(self).pos,
            old(self).pos < old(self).chars@.len() ==> {
                let (k, e) = lex_token(old(self).chars@, old(self).pos as int);
                r == Some(k) && final(self).pos == e
            },
    {
        let ghost s = self.chars@;
        let ghost p = self.pos as int;
        let ch = match self.advance() {
            Some(ch) => ch,
            None => {
                return None;
            },
        };
        let kind = match ch {
            // Non-composite symbols stand here, not in `consume_symbol`, so
            // that they do not get combined.
            '~' => TokenKind::Tilde,
            '!' => TokenKind::Bang,
            '@' => TokenKind::At,
            '^' => TokenKind::Caret,
            ':' => TokenKind::Colon,
            '-' if self.peek_satisfies(char_is_whitespace, Ghost(|n: char| spec_is_white_space(n))) => {
                // A `-` followed by whitespace is a pseudo bullet point.
                TokenKind::Symbol
            },
            '-' if self.peek_satisfies(is_identifier_start, Ghost(|n: char| spec_is_identifier_start(n))) => {
                // An identifier prefixed with `-` removes an inherited
                // property: emit the `-` alone and let the next token be the
                // identifier.
                TokenKind::Symbol
            },
            '\n' => TokenKind::EndOfLine,
            '\r' if self.peek_eq('\n') => {
                self.advance();
                TokenKind::EndOfLine
            },
            // A `\r` that is not followed by `\n` is an invalid newline sequence.
            '\r' => TokenKind::Error,
            _ if is_symbol(ch) => self.consume_symbol(),
            _ if char_is_whitespace(ch) => {
                // Consume whitespace until the end of the line.
                self.skip_while(is_inline_space, Ghost(inline_space_class()));
                TokenKind::Whitespace
            },
            // Identifiers are anything that fails to parse as a number.
            _ if is_dec_digit_start(ch) || is_identifier_start(ch) => self.consume_identifier_or_decimal_literal(),
            // Anything else (the letters of most human languages among them)
            // is lumped into a symbol.
            _ => TokenKind::Symbol,
        };
        assert(lex_token(s, p) == (kind, self.pos as int));
        Some(kind)
    }

    /// Consume the next character, returning it.
    fn advance(&mut self) -> (r: Option<char>)
        requires
            old(self).inv(),
        ensures
            final(self).inv(),
            final(self).same_token_start(old(self)),
            old(self).pos < old(self).chars@.len() ==> r == Some(old(self).chars@[old(self).pos as int])
                && final(self).pos == old(self).pos + 1,
            old(self).pos >= old(self).chars@.len() ==> r is None && final(self).pos == old(self).pos,
    {
        if self.pos < self.chars.len() {
            let cur = self.chars[self.pos];
            proof {
                lemma_utf8_offset_step(self.chars@, self.pos as int);
                lemma_utf8_offset_monotone(self.chars@, self.pos + 1, self.chars@.len() as int);
                lemma_utf8_offset_ends(self.chars@);
            }
            self.pos = self.pos + 1;
            self.token_end_exclusive = self.token_end_exclusive.advanced_by(ByteCount::from_char_len_utf8(cur));
            Some(cur)
        } else {
            None
        }
    }

    /// The next character, if any.
    fn peek(&self) -> (r: Option<char>)
        requires
            self.inv(),
        ensures
            self.pos < self.chars@.len() ==> r == Some(self.chars@[self.pos as int]),
            self.pos >= self.chars@.len() ==> r is None,
    {
        if self.pos < self.chars.len() {
            Some(self.chars[self.pos])
        } else {
            None
        }
    }

    /// Whether the next character exists and equals `ch`.
    fn peek_eq(&self, ch: char) -> (r: bool)
        requires
            self.inv(),
        ensures
            r == (self.pos < self.chars@.len() && self.chars@[self.pos as int] == ch),
    {
        match self.peek() {
            Some(c) => c == ch,
            None => false,
        }
    }

    /// Whether the next character exists and satisfies `predicate`.
    fn peek_satisfies<F: Fn(char) -> bool>(&self, predicate: F, Ghost(pred): Ghost<spec_fn(char) -> bool>) -> (r: bool)
        requires
            self.inv(),
            forall|c: char| #[trigger] predicate.requires((c,)),
            forall|c: char, b: bool| predicate.ensures((c,), b) ==> b == pred(c),
        ensures
            r == (self.pos < self.chars@.len() && pred(self.chars@[self.pos as int])),
    {
        match self.peek() {
            Some(c) => predicate(c),
            None => false,
        }
    }

    /// Consume a run of symbol characters and classify the current token.
    fn consume_symbol(&mut self) -> (r: TokenKind)
        requires
            old(self).inv(),
        ensures
            final(self).inv(),
            final(self).same_token_start(old(self)),
            (r, final(self).pos as int) == lex_symbol_from(
                old(self).chars@,
                old(self).token_start_pos as int,
                old(self).pos as int,
            ),
    {
        self.skip_while(is_symbol, Ghost(symbol_class()));
        let ghost e = self.pos as int;
        let slice = self.token_slice();
        let n = slice.len();
        if n == 2 && slice[0] == '&' && slice[1] == '&' {
            assert(slice@ =~= seq!['&', '&']);
            TokenKind::LogicalAnd
        } else if n == 2 && slice[0] == '|' && slice[1] == '|' {
            assert(slice@ =~= seq!['|', '|']);
            TokenKind::LogicalOr
        } else if n > 0 && slice[0] == '#' {
            // Consume everything up to a line break.
            self.skip_while(is_not_line_break, Ghost(comment_class()));
            TokenKind::Comment
        } else if n == 0 {
            // Only when this was called although the first character was
            // not a symbol.
            TokenKind::Error
        } else {
            TokenKind::Symbol
        }
    }

    /// Consume characters while the lookahead character satisfies `keep_going`.
    fn skip_while<F: Fn(char) -> bool>(&mut self, keep_going: F, Ghost(pred): Ghost<spec_fn(char) -> bool>)
        requires
            old(self).inv(),
            forall|c: char| #[trigger] keep_going.requires((c,)),
            forall|c: char, b: bool| keep_going.ensures((c,), b) ==> b == pred(c),
        ensures
            final(self).inv(),
            final(self).same_token_start(old(self)),
            final(self).pos == scan(old(self).chars@, old(self).pos as int, pred),
    {
        loop
            invariant
                self.inv(),
                self.same_token_start(old(self)),
                old(self).pos <= self.pos,
                scan(self.chars@, self.pos as int, pred) == scan(old(self).chars@, old(self).pos as int, pred),
                forall|c: char| #[trigger] keep_going.requires((c,)),
                forall|c: char, b: bool| keep_going.ensures((c,), b) ==> b == pred(c),
            ensures
                self.inv(),
                self.same_token_start(old(self)),
                self.pos == scan(old(self).chars@, old(self).pos as int, pred),
            decreases self.chars@.len() - self.pos,
        {
            let go = match self.peek() {
                Some(ch) => keep_going(ch),
                None => false,
            };
            if !go {
                break;
            }
            self.advance();
        }
    }

    /// The characters of the current token.
    fn token_slice(&self) -> (r: &[char])
        requires
            self.inv(),
        ensures
            r@ == self.chars@.subrange(self.token_start_pos as int, self.pos as int),
    {
        vstd::slice::slice_subrange(self.chars.as_slice(), self.token_start_pos, self.pos)
    }

    /// Consume the rest of either an identifier or a decimal literal and
    /// classify the current token.
    fn consume_identifier_or_decimal_literal(&mut self) -> (r: TokenKind)
        requires
            old(self).inv(),
        ensures
            final(self).inv(),
            final(self).same_token_start(old(self)),
            (r, final(self).pos as int) == lex_word_from(
                old(self).chars@,
                old(self).token_start_pos as int,
                old(self).pos as int,
            ),
    {
        self.skip_while(is_word_char, Ghost(word_class()));
        let slice = self.token_slice();
        if slice.len() == 0 {
            // Only when this was called although the first character could
            // not start a word.
            return TokenKind::Error;
        }
        let kw_true = ['t', 'r', 'u', 'e'];
        let kw_false = ['f', 'a', 'l', 's', 'e'];
        let kw_yes = ['y', 'e', 's'];
        let kw_no = ['n', 'o'];
        assert(kw_true@ =~= keyword_true());
        assert(kw_false@ =~= keyword_false());
        assert(kw_yes@ =~= keyword_yes());
        assert(kw_no@ =~= keyword_no());
        if chars_eq_ignore_ascii_case(slice, kw_true.as_slice()) {
            return TokenKind::True;
        }
        if chars_eq_ignore_ascii_case(slice, kw_false.as_slice()) {
            return TokenKind::False;
        }
        if chars_eq_ignore_ascii_case(slice, kw_yes.as_slice()) {
            return TokenKind::Yes;
        }
        if chars_eq_ignore_ascii_case(slice, kw_no.as_slice()) {
            return TokenKind::No;
        }
        // A run of `-`s is an identifier (really just text, such as the
        // value part of a node).
        if all_satisfy(slice, is_dash, Ghost(dash_class())) {
            return TokenKind::Identifier;
        }
        // When all the characters can be part of a number, this may be an
        // integer or a float.
        if all_satisfy(slice, is_digit_or_numeric_symbol, Ghost(numeric_class())) {
            if char_is_decimal_digit(slice[slice.len() - 1]) {
                if contains_char(slice, '.') {
                    return if is_plain_decimal_float(slice) {
                        TokenKind::FloatLiteral
                    } else {
                        TokenKind::Identifier
                    };
                } else {
                    return match parse_decimal_i64(slice) {
                        Some(_) => TokenKind::IntLiteral,
                        None => TokenKind::Identifier,
                    };
                }
            }
        }
        TokenKind::Identifier
    }

    /// Emit the current token with kind `kind` and start the next one.
    fn emit(&mut self, kind: TokenKind) -> (r: Token)
        requires
            old(self).inv(),
        ensures
            final(self).wf(),
            final(self).text == old(self).text,
            final(self).chars == old(self).chars,
            final(self).file_id == old(self).file_id,
            final(self).pos == old(self).pos,
            r == spanned_token(old(self).file_id, old(self).chars@, kind, old(self).token_start_pos as int, old(self).pos as int),
    {
        let span = self.token_span();
        self.token_start = self.token_end_exclusive;
        self.token_start_pos = self.pos;
        Token { kind, span }
    }

    /// A span of this tokenizer's file.
    fn span(&self, start: ByteIndex, end: ByteIndex) -> (r: FileSpan)
        ensures
            r == (FileSpan { source: self.file_id, start, end_exclusive: end }),
    {
        FileSpan::new(self.file_id, start, end)
    }

    /// The span of the current token. Both of its ends lie on character
    /// boundaries of the text, by the invariant.
    fn token_span(&self) -> (r: FileSpan)
        requires
            self.inv(),
        ensures
            r == self.pending_span(),
            r.start.0 <= r.end_exclusive.0 <= self.text.len(),
            self.text.is_char_boundary(r.start.0),
            self.text.is_char_boundary(r.end_exclusive.0),
    {
        proof {
            self.lemma_pending_span_on_char_boundaries();
        }
        self.span(self.token_start, self.token_end_exclusive)
    }
}

} // verus!
