//! Tokens: the smallest units of meaning in MiniYaml text.

use vstd::prelude::*;
use vstd::string::StringSliceAdditionalSpecFns;
use vstd::utf8::is_char_boundary;
use crate::span::FileSpan;

verus! {

/// Which kind of token a [`Token`] is.
#[derive(Debug, Copy, Clone, PartialEq, Eq, Structural, PartialOrd, Ord, Hash)]
pub enum TokenKind {
    /// Something went wrong and it is not certain which kind this should be.
    Error,
    Whitespace,
    Comment,
    True,
    Yes,
    False,
    No,
    Identifier,
    IntLiteral,
    FloatLiteral,
    Symbol,
    Tilde,
    Bang,
    At,
    Caret,
    Colon,
    LogicalOr,
    LogicalAnd,
    EndOfLine,
}

impl TokenKind {
    /// Whitespace, end-of-line and comments: text without meaning for the tree.
    pub open spec fn spec_is_whitespace(self) -> bool {
        self is Whitespace || self is EndOfLine || self is Comment
    }

    pub open spec fn spec_is_symbol(self) -> bool {
        ||| self is Symbol
        ||| self is Tilde
        ||| self is Bang
        ||| self is At
        ||| self is Caret
        ||| self is Colon
        ||| self is LogicalOr
        ||| self is LogicalAnd
    }

    pub open spec fn spec_is_numeric(self) -> bool {
        self is IntLiteral || self is FloatLiteral
    }

    pub open spec fn spec_is_keyword(self) -> bool {
        self is True || self is Yes || self is False || self is No
    }
}

/// The classes of kinds partition them by what they are for: numbers are
/// exactly the integer and float literals, keywords exactly `True`, `Yes`,
/// `False` and `No`, trivia exactly whitespace, end-of-line and comments,
/// and symbols exactly the eight symbol kinds; no kind is in two classes.
pub proof fn lemma_kind_classes(k: TokenKind)
    ensures
        k.spec_is_numeric() == (k == TokenKind::IntLiteral || k == TokenKind::FloatLiteral),
        k.spec_is_keyword() == (k == TokenKind::True || k == TokenKind::Yes || k == TokenKind::False
            || k == TokenKind::No),
        k.spec_is_whitespace() == (k == TokenKind::Whitespace || k == TokenKind::EndOfLine || k
            == TokenKind::Comment),
        k.spec_is_symbol() == (k == TokenKind::Symbol || k == TokenKind::Tilde || k == TokenKind::Bang
            || k == TokenKind::At || k == TokenKind::Caret || k == TokenKind::Colon || k
            == TokenKind::LogicalOr || k == TokenKind::LogicalAnd),
        !(k.spec_is_numeric() && k.spec_is_keyword()),
        !(k.spec_is_numeric() && k.spec_is_whitespace()),
        !(k.spec_is_numeric() && k.spec_is_symbol()),
        !(k.spec_is_keyword() && k.spec_is_whitespace()),
        !(k.spec_is_keyword() && k.spec_is_symbol()),
        !(k.spec_is_whitespace() && k.spec_is_symbol()),
{
}

/// A kind of token together with where, in a file, it is located.
#[derive(Debug, Clone, PartialEq, Eq, Structural, PartialOrd, Ord, Hash)]
pub struct Token {
    /// The kind of token located at `span`.
    pub kind: TokenKind,
    /// Where, in a file, this token is located.
    pub span: FileSpan,
}

impl Token {
    /// The text of this token in `source_text`, by way of [`FileSpan::text`].
    pub fn text<'text>(&self, source_text: &'text str) -> (r: Option<&'text str>)
        ensures
            r is Some <==> (self.span.start.0 <= self.span.end_exclusive.0
                && self.span.end_exclusive.0 <= source_text.spec_bytes().len() && is_char_boundary(
                source_text.spec_bytes(),
                self.span.start.0 as int,
            ) && is_char_boundary(source_text.spec_bytes(), self.span.end_exclusive.0 as int)),
            r matches Some(t) ==> t.spec_bytes() == source_text.spec_bytes().subrange(
                self.span.start.0 as int,
                self.span.end_exclusive.0 as int,
            ),
    {
        self.span.text(source_text)
    }

    #[allow(dead_code)]
    pub(crate) fn is_whitespace(&self) -> (r: bool)
        ensures
            r == self.kind.spec_is_whitespace(),
            r == (self.kind == TokenKind::Whitespace || self.kind == TokenKind::EndOfLine || self.kind
                == TokenKind::Comment),
    {
        match self.kind {
            TokenKind::Whitespace | TokenKind::EndOfLine | TokenKind::Comment => true,
            _ => false,
        }
    }

    #[allow(dead_code)]
    pub(crate) fn is_symbol(&self) -> (r: bool)
        ensures
            r == self.kind.spec_is_symbol(),
            r == (self.kind == TokenKind::Symbol || self.kind == TokenKind::Tilde || self.kind
                == TokenKind::Bang || self.kind == TokenKind::At || self.kind == TokenKind::Caret
                || self.kind == TokenKind::Colon || self.kind == TokenKind::LogicalOr || self.kind
                == TokenKind::LogicalAnd),
    {
        match self.kind {
            TokenKind::Symbol
            | TokenKind::Tilde
            | TokenKind::Bang
            | TokenKind::At
            | TokenKind::Caret
            | TokenKind::Colon
            | TokenKind::LogicalOr
            | TokenKind::LogicalAnd => true,
            _ => false,
        }
    }

    /// Whether this token is an integer or a float literal.
    pub fn is_numeric(&self) -> (r: bool)
        ensures
            r == self.kind.spec_is_numeric(),
            r == (self.kind == TokenKind::IntLiteral || self.kind == TokenKind::FloatLiteral),
    {
        match self.kind {
            TokenKind::IntLiteral | TokenKind::FloatLiteral => true,
            _ => false,
        }
    }

    #[allow(dead_code)]
    pub(crate) fn is_keyword(&self) -> (r: bool)
        ensures
            r == self.kind.spec_is_keyword(),
            r == (self.kind == TokenKind::True || self.kind == TokenKind::Yes || self.kind
                == TokenKind::False || self.kind == TokenKind::No),
    {
        match self.kind {
            TokenKind::True | TokenKind::Yes | TokenKind::False | TokenKind::No => true,
            _ => false,
        }
    }
}

/// Operations on a run of tokens (in practice, one line of MiniYaml).
pub trait TokenCollectionExts {
    /// The tokens that follow the leading `Whitespace` tokens.
    fn skip_leading_whitespace(&self) -> &[Token];

    /// A span covering the whole collection, from the start of the first
    /// token to the end of the last; `None` when there are no tokens.
    fn span(&self) -> Option<FileSpan>;
}

impl TokenCollectionExts for [Token] {
    fn skip_leading_whitespace(&self) -> (r: &[Token])
        ensures
            r@.len() <= self@.len(),
            r@ == self@.skip(self@.len() - r@.len()),
            forall|j: int|
                0 <= j < self@.len() - r@.len() ==> #[trigger] self@[j].kind is Whitespace,
            r@.len() > 0 ==> !(r@[0].kind is Whitespace),
    {
        let n = self.len();
        let mut idx: usize = 0;
        while idx < n
            invariant
                n == self@.len(),
                idx <= n,
                forall|j: int| 0 <= j < idx ==> #[trigger] self@[j].kind is Whitespace,
            ensures
                idx <= n,
                forall|j: int| 0 <= j < idx ==> #[trigger] self@[j].kind is Whitespace,
                idx < n ==> !(self@[idx as int].kind is Whitespace),
            decreases n - idx,
        {
            match self[idx].kind {
                TokenKind::Whitespace => {},
                _ => {
                    break;
                },
            }
            idx = idx + 1;
        }
        let r = vstd::slice::slice_subrange(self, idx, n);
        assert(r@ =~= self@.skip(self@.len() - r@.len()));
        r
    }

    fn span(&self) -> (r: Option<FileSpan>)
        ensures
            self@.len() == 0 ==> r is None,
            self@.len() > 0 ==> r == Some(
                FileSpan {
                    source: self@[0].span.source,
                    start: self@[0].span.start,
                    end_exclusive: self@.last().span.end_exclusive,
                },
            ),
    {
        if self.len() == 0 {
            return None;
        }
        let first = &self[0];
        let start = first.span.start();
        let end = self[self.len() - 1].span.end_exclusive();
        Some(FileSpan::new(first.span.source(), start, end))
    }
}

} // verus!
