//! Byte offsets of characters in the UTF-8 encoding of a text.

use vstd::prelude::*;
use vstd::utf8::*;

verus! {

/// The number of bytes that the first `i` characters of `s` occupy in UTF-8,
/// i.e. the byte offset at which character `i` starts.
pub open spec fn utf8_offset(s: Seq<char>, i: int) -> int {
    encode_utf8(s.take(i)).len() as int
}

/// The number of bytes of the UTF-8 encoding of `c`.
pub open spec fn utf8_width(c: char) -> int {
    encode_scalar(c as u32).len() as int
}

/// Encoding distributes over concatenation.
pub proof fn lemma_encode_utf8_concat(a: Seq<char>, b: Seq<char>)
    ensures
        encode_utf8(a + b) == encode_utf8(a) + encode_utf8(b),
    decreases a.len(),
{
    if a.len() == 0 {
        assert(a + b =~= b);
        assert(encode_utf8(a) =~= Seq::<u8>::empty());
        assert(encode_utf8(a) + encode_utf8(b) =~= encode_utf8(b));
    } else {
        lemma_encode_utf8_concat(a.drop_first(), b);
        assert((a + b).drop_first() =~= a.drop_first() + b);
        assert((a + b)[0] == a[0]);
        assert(encode_utf8(a + b) =~= encode_scalar(a[0] as u32) + encode_utf8(a.drop_first() + b));
        assert(encode_utf8(a) =~= encode_scalar(a[0] as u32) + encode_utf8(a.drop_first()));
    }
}

/// Every character takes between one and four bytes.
pub proof fn lemma_utf8_width_bounds(c: char)
    ensures
        1 <= utf8_width(c) <= 4,
{
}

/// The encoding of a single character is its scalar encoding.
pub proof fn lemma_encode_utf8_single(c: char)
    ensures
        encode_utf8(seq![c]) == encode_scalar(c as u32),
{
    let s = seq![c];
    assert(s.drop_first() =~= Seq::<char>::empty());
    assert(encode_utf8(s.drop_first()) =~= Seq::<u8>::empty());
    assert(encode_utf8(s) =~= encode_scalar(c as u32) + Seq::<u8>::empty());
}

/// Going from character `i` to character `i + 1` adds the width of character `i`.
pub proof fn lemma_utf8_offset_step(s: Seq<char>, i: int)
    requires
        0 <= i < s.len(),
    ensures
        utf8_offset(s, i + 1) == utf8_offset(s, i) + utf8_width(s[i]),
{
    assert(s.take(i + 1) =~= s.take(i) + seq![s[i]]);
    lemma_encode_utf8_concat(s.take(i), seq![s[i]]);
    lemma_encode_utf8_single(s[i]);
}

/// Offsets are increasing: later characters start at later bytes.
pub proof fn lemma_utf8_offset_monotone(s: Seq<char>, i: int, j: int)
    requires
        0 <= i <= j <= s.len(),
    ensures
        utf8_offset(s, i) <= utf8_offset(s, j),
        i < j ==> utf8_offset(s, i) < utf8_offset(s, j),
        utf8_offset(s, j) - utf8_offset(s, i) <= 4 * (j - i),
    decreases j - i,
{
    if i < j {
        lemma_utf8_offset_monotone(s, i, j - 1);
        lemma_utf8_offset_step(s, j - 1);
        lemma_utf8_width_bounds(s[j - 1]);
    }
}

/// The offset of the first character is zero and that past the last is the
/// length of the whole encoding.
pub proof fn lemma_utf8_offset_ends(s: Seq<char>)
    ensures
        utf8_offset(s, 0) == 0,
        utf8_offset(s, s.len() as int) == encode_utf8(s).len(),
{
    assert(s.take(0) =~= Seq::<char>::empty());
    assert(s.take(s.len() as int) =~= s);
}

/// The bytes between two character offsets encode the characters between them.
pub proof fn lemma_utf8_offset_subrange(s: Seq<char>, i: int, j: int)
    requires
        0 <= i <= j <= s.len(),
    ensures
        encode_utf8(s).subrange(utf8_offset(s, i), utf8_offset(s, j)) == encode_utf8(s.subrange(i, j)),
{
    assert(s =~= s.take(i) + s.subrange(i, j) + s.skip(j));
    lemma_encode_utf8_concat(s.take(i) + s.subrange(i, j), s.skip(j));
    lemma_encode_utf8_concat(s.take(i), s.subrange(i, j));
    assert(s.take(j) =~= s.take(i) + s.subrange(i, j));
    let e = encode_utf8(s);
    assert(e.subrange(utf8_offset(s, i), utf8_offset(s, j)) =~= encode_utf8(s.subrange(i, j)));
}

/// Every character offset is a character boundary of the encoding.
pub proof fn lemma_utf8_offset_is_char_boundary(s: Seq<char>, i: int)
    requires
        0 <= i <= s.len(),
    ensures
        is_char_boundary(encode_utf8(s), utf8_offset(s, i)),
    decreases s.len(),
{
    broadcast use encode_utf8_valid_utf8;

    let e = encode_utf8(s);
    if i == 0 {
        lemma_utf8_offset_ends(s);
    } else {
        let t = s.drop_first();
        encode_utf8_first_scalar(s);
        assert(pop_first_scalar(e) =~= encode_utf8(t));
        lemma_utf8_offset_is_char_boundary(t, i - 1);
        assert(s.take(i) =~= seq![s[0]] + t.take(i - 1));
        lemma_encode_utf8_concat(seq![s[0]], t.take(i - 1));
        lemma_encode_utf8_single(s[0]);
        lemma_utf8_offset_monotone(s, i, s.len() as int);
        lemma_utf8_offset_ends(s);
        assert(is_char_boundary(e, utf8_offset(s, i)));
    }
}

} // verus!
