//! Byte-based source locations: which file, and which byte range of it.

use vstd::prelude::*;
use vstd::string::StringSliceAdditionalSpecFns;
use vstd::utf8::is_char_boundary;
use crate::utf8::utf8_width;

verus! {

/// Identifies one source file.
#[derive(Debug, Copy, Clone, PartialEq, Eq, Structural, PartialOrd, Ord, Hash)]
pub struct FileId(pub usize);

/// A byte offset into a source text.
#[derive(Debug, Copy, Clone, PartialEq, Eq, Structural, PartialOrd, Ord, Hash)]
pub struct ByteIndex(pub usize);

/// A number of bytes.
#[derive(Debug, Copy, Clone, PartialEq, Eq, Structural, PartialOrd, Ord, Hash)]
pub struct ByteCount(pub usize);

impl ByteIndex {
    /// The offset as a plain `usize`.
    pub fn to_usize(self) -> (r: usize)
        ensures
            r == self.0,
    {
        self.0
    }

    /// The offset `count` bytes further on.
    pub fn advanced_by(self, count: ByteCount) -> (r: ByteIndex)
        requires
            self.0 + count.0 <= usize::MAX,
        ensures
            r.0 == self.0 + count.0,
    {
        ByteIndex(self.0 + count.0)
    }
}

impl ByteCount {
    /// The number of bytes that `ch` occupies in UTF-8.
    pub fn from_char_len_utf8(ch: char) -> (r: ByteCount)
        ensures
            r.0 == utf8_width(ch),
    {
        ByteCount(char_len_utf8(ch))
    }
}

/// The number of bytes of the UTF-8 encoding of `c` (what `char::len_utf8`
/// gives): one below U+0080, two below U+0800, three below U+10000, else four.
fn char_len_utf8(c: char) -> (r: usize)
    ensures
        r == utf8_width(c),
{
    proof {
        vstd::utf8::char_is_scalar(c);
    }
    let u = c as u32;
    if u < 0x80 {
        1
    } else if u < 0x800 {
        2
    } else if u < 0x10000 {
        3
    } else {
        4
    }
}

/// Calls `str::get` with the byte range `start..end`: the sub-slice when both
/// ends lie on character boundaries and `start <= end <= s.len()`, else `None`.
#[verifier::external_body]
fn str_get_range<'a>(s: &'a str, start: usize, end: usize) -> (r: Option<&'a str>)
    ensures
        r is Some <==> (start <= end && end <= s.spec_bytes().len() && is_char_boundary(
            s.spec_bytes(),
            start as int,
        ) && is_char_boundary(s.spec_bytes(), end as int)),
        r matches Some(t) ==> t.spec_bytes() == s.spec_bytes().subrange(start as int, end as int),
{
    s.get(start..end)
}

/// A byte range `[start, end_exclusive)` of one source file.
#[derive(Debug, Copy, Clone, PartialEq, Eq, Structural, PartialOrd, Ord, Hash)]
pub struct FileSpan {
    pub source: FileId,
    pub start: ByteIndex,
    pub end_exclusive: ByteIndex,
}

impl FileSpan {
    pub fn new(source: FileId, start: ByteIndex, end_exclusive: ByteIndex) -> (r: FileSpan)
        ensures
            r == (FileSpan { source, start, end_exclusive }),
    {
        FileSpan { source, start, end_exclusive }
    }

    pub fn source(&self) -> (r: FileId)
        ensures
            r == self.source,
    {
        self.source
    }

    pub fn start(&self) -> (r: ByteIndex)
        ensures
            r == self.start,
    {
        self.start
    }

    pub fn end_exclusive(&self) -> (r: ByteIndex)
        ensures
            r == self.end_exclusive,
    {
        self.end_exclusive
    }

    /// The text that this span covers in `source_text`, or `None` when the
    /// span does not lie within it on character boundaries.
    pub fn text<'a>(&self, source_text: &'a str) -> (r: Option<&'a str>)
        ensures
            r is Some <==> (self.start.0 <= self.end_exclusive.0 && self.end_exclusive.0
                <= source_text.spec_bytes().len() && is_char_boundary(
                source_text.spec_bytes(),
                self.start.0 as int,
            ) && is_char_boundary(source_text.spec_bytes(), self.end_exclusive.0 as int)),
            r matches Some(t) ==> t.spec_bytes() == source_text.spec_bytes().subrange(
                self.start.0 as int,
                self.end_exclusive.0 as int,
            ),
    {
        str_get_range(source_text, self.start.to_usize(), self.end_exclusive.to_usize())
    }
}

} // verus!
