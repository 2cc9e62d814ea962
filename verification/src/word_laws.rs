//! What the tokenizer makes of words: identifiers, keywords and numbers.
//!
//! These laws describe the tokens directly in terms of the characters of
//! the text, independently of how the lexical rules are phrased.

use vstd::prelude::*;
use crate::lexer::{
    ascii_lower_code, eq_ignore_ascii_case, keyword_false, keyword_no, keyword_true, keyword_yes,
    lemma_lex_token_advances, lemma_scan_bounds, lemma_scan_stops_at, lex_token, lex_word, scan,
    word_class, word_kind, all_chars, dash_class, has_char, numeric_class,
};
use crate::chars::spec_is_ascii_digit;
use crate::numbers::{spec_is_plain_decimal_float, spec_parse_decimal_i64, unsigned_part, digits_value};
use crate::token::TokenKind;
use crate::punct_laws::is_letter_or_underscore;

verus! {

/// The characters that may continue an identifier or a number: ASCII
/// letters and digits, `_`, `-` and `.`.
pub open spec fn is_word_char(c: char) -> bool {
    ||| 'a' <= c <= 'z'
    ||| 'A' <= c <= 'Z'
    ||| '0' <= c <= '9'
    ||| c == '_'
    ||| c == '-'
    ||| c == '.'
}

pub open spec fn is_digit_char(c: char) -> bool {
    '0' <= c <= '9'
}

/// The kinds of tokens that words become.
pub open spec fn is_word_kind(k: TokenKind) -> bool {
    ||| k is Identifier
    ||| k is True
    ||| k is False
    ||| k is Yes
    ||| k is No
    ||| k is IntLiteral
    ||| k is FloatLiteral
}

/// `w` spells the word whose lower-case letters are `lower` and upper-case
/// letters are `upper`, each letter in either case.
pub open spec fn spells_ignoring_case(w: Seq<char>, lower: Seq<char>, upper: Seq<char>) -> bool {
    &&& w.len() == lower.len()
    &&& forall|i: int| 0 <= i < w.len() ==> #[trigger] w[i] == lower[i] || w[i] == upper[i]
}

/// `w` without a leading `-`, if it has one.
pub open spec fn after_minus(w: Seq<char>) -> Seq<char> {
    if w.len() > 0 && w[0] == '-' {
        w.drop_first()
    } else {
        w
    }
}

/// An optional `-`, one or more digits, a `.`, and one or more digits.
pub open spec fn is_decimal_float_text(w: Seq<char>) -> bool {
    let body = after_minus(w);
    exists|d: int|
        0 < d < body.len() - 1 && body[d] == '.' && forall|i: int|
            0 <= i < body.len() && i != d ==> #[trigger] is_digit_char(body[i])
}

/// An optional `-` followed by one to eighteen digits (a value that always
/// fits in an `i64`).
pub open spec fn is_short_decimal_int_text(w: Seq<char>) -> bool {
    let body = after_minus(w);
    &&& 0 < body.len() <= 18
    &&& forall|i: int| 0 <= i < body.len() ==> #[trigger] is_digit_char(body[i])
}

proof fn lemma_word_class_is_word_char(c: char)
    ensures
        word_class()(c) == is_word_char(c),
{
}

/// A word token (an identifier, keyword or number) starts with a letter, a
/// digit, `_` or `-`, holds only word characters, and extends as far as
/// they go: the character after it, if any, is not a word character.
pub proof fn lemma_word_tokens_are_maximal(s: Seq<char>, a: int)
    requires
        0 <= a < s.len(),
        is_word_kind(lex_token(s, a).0),
    ensures
        ({
            let b = lex_token(s, a).1;
            &&& is_word_char(s[a]) && s[a] != '.'
            &&& a < b <= s.len()
            &&& forall|i: int| a < i < b ==> #[trigger] is_word_char(s[i])
            &&& b < s.len() ==> !is_word_char(s[b])
        }),
{
    lemma_scan_bounds(s, a + 1, word_class());
    let b = lex_token(s, a).1;
    assert forall|i: int| a < i < b implies #[trigger] is_word_char(s[i]) by {
        assert(word_class()(s[i]));
    }
    if b < s.len() {
        lemma_word_class_is_word_char(s[b]);
    }
}

/// The lower-case code of `c` is that of the lower-case letter `l` exactly
/// when `c` is `l` or its capital `u`.
proof fn lemma_lower_code_of_letter(c: char, l: char, u: char)
    requires
        'a' <= l <= 'z',
        u as u32 + 32 == l as u32,
    ensures
        (ascii_lower_code(c) == ascii_lower_code(l)) == (c == l || c == u),
{
    vstd::utf8::char_u32_cast(c, c as u32);
    vstd::utf8::char_u32_cast(l, l as u32);
    vstd::utf8::char_u32_cast(u, u as u32);
}

/// Case-insensitive equality with a lower-case word is spelling it in
/// either case, letter by letter.
proof fn lemma_eq_ignore_case_spells(w: Seq<char>, lower: Seq<char>, upper: Seq<char>)
    requires
        lower.len() == upper.len(),
        forall|i: int| 0 <= i < lower.len() ==> 'a' <= #[trigger] lower[i] <= 'z' && upper[i] as u32 + 32
            == lower[i] as u32,
    ensures
        eq_ignore_ascii_case(w, lower) == spells_ignoring_case(w, lower, upper),
{
    if w.len() == lower.len() {
        assert forall|i: int| 0 <= i < w.len() implies (ascii_lower_code(w[i]) == ascii_lower_code(lower[i]))
            == (w[i] == lower[i] || w[i] == upper[i]) by {
            lemma_lower_code_of_letter(w[i], lower[i], upper[i]);
        }
    }
}

/// A word of exactly the letters of `true`, `false`, `yes` or `no`, each in
/// either case, is that keyword; nothing else is.
pub proof fn lemma_keyword_tokens(s: Seq<char>, a: int)
    requires
        0 <= a < s.len(),
    ensures
        ({
            let (k, b) = lex_token(s, a);
            let w = s.subrange(a, b);
            &&& k is True <==> spells_ignoring_case(w, seq!['t', 'r', 'u', 'e'], seq!['T', 'R', 'U', 'E'])
            &&& k is False <==> spells_ignoring_case(w, seq!['f', 'a', 'l', 's', 'e'], seq!['F', 'A', 'L', 'S', 'E'])
            &&& k is Yes <==> spells_ignoring_case(w, seq!['y', 'e', 's'], seq!['Y', 'E', 'S'])
            &&& k is No <==> spells_ignoring_case(w, seq!['n', 'o'], seq!['N', 'O'])
        }),
{
    let (k, b) = lex_token(s, a);
    let w = s.subrange(a, b);
    lemma_lex_token_advances(s, a);
    let t = seq!['t', 'r', 'u', 'e'];
    let f = seq!['f', 'a', 'l', 's', 'e'];
    let y = seq!['y', 'e', 's'];
    let n = seq!['n', 'o'];
    let tu = seq!['T', 'R', 'U', 'E'];
    let fu = seq!['F', 'A', 'L', 'S', 'E'];
    let yu = seq!['Y', 'E', 'S'];
    let nu = seq!['N', 'O'];
    assert(t =~= keyword_true());
    assert(f =~= keyword_false());
    assert(y =~= keyword_yes());
    assert(n =~= keyword_no());
    lemma_eq_ignore_case_spells(w, t, tu);
    lemma_eq_ignore_case_spells(w, f, fu);
    lemma_eq_ignore_case_spells(w, y, yu);
    lemma_eq_ignore_case_spells(w, n, nu);
    let first_is_keyword_letter = w.len() > 0 && (w[0] == 't' || w[0] == 'T' || w[0] == 'f' || w[0] == 'F'
        || w[0] == 'y' || w[0] == 'Y' || w[0] == 'n' || w[0] == 'N');
    if first_is_keyword_letter {
        assert(w[0] == s[a]);
        assert(lex_token(s, a) == lex_word(s, a));
    }
    if is_word_kind(k) && !(k is Identifier) && !(k is IntLiteral) && !(k is FloatLiteral) {
        assert(lex_token(s, a) == lex_word(s, a));
        assert(k == word_kind(w));
    }
}

/// The word at `a` extends exactly to `b` when every character after the
/// first up to `b` is a word character and the one at `b` is not.
proof fn lemma_word_extent(s: Seq<char>, a: int, b: int)
    requires
        0 <= a < b <= s.len(),
        forall|i: int| a < i < b ==> #[trigger] is_word_char(s[i]),
        b == s.len() || !is_word_char(s[b]),
    ensures
        scan(s, a + 1, word_class()) == b,
{
    assert forall|i: int| a + 1 <= i < b implies #[trigger] word_class()(s[i]) by {
        lemma_word_class_is_word_char(s[i]);
    }
    if b < s.len() {
        lemma_word_class_is_word_char(s[b]);
    }
    lemma_scan_stops_at(s, a + 1, b, word_class());
}

/// A word that holds a digit among its first two characters is none of the
/// keywords and not a run of dashes.
proof fn lemma_digit_word_is_no_keyword(w: Seq<char>, j: int)
    requires
        0 <= j <= 1,
        j < w.len(),
        is_digit_char(w[j]),
    ensures
        !eq_ignore_ascii_case(w, keyword_true()),
        !eq_ignore_ascii_case(w, keyword_false()),
        !eq_ignore_ascii_case(w, keyword_yes()),
        !eq_ignore_ascii_case(w, keyword_no()),
        !all_chars(w, dash_class()),
{
    assert(ascii_lower_code(w[j]) != ascii_lower_code(keyword_true()[j]));
    assert(ascii_lower_code(w[j]) != ascii_lower_code(keyword_false()[j]));
    assert(ascii_lower_code(w[j]) != ascii_lower_code(keyword_yes()[j]));
    assert(ascii_lower_code(w[j]) != ascii_lower_code(keyword_no()[j]));
    assert(!dash_class()(w[j]));
}

/// A maximal word made of an optional `-`, digits, a `.` and digits is a
/// float literal, however many digits stand on either side of the point.
pub proof fn lemma_decimal_floats_are_float_literals(s: Seq<char>, a: int, b: int)
    requires
        0 <= a < b <= s.len(),
        is_decimal_float_text(s.subrange(a, b)),
        b == s.len() || !is_word_char(s[b]),
    ensures
        lex_token(s, a) == (TokenKind::FloatLiteral, b),
{
    let w = s.subrange(a, b);
    let body = after_minus(w);
    let d = choose|d: int|
        0 < d < body.len() - 1 && body[d] == '.' && forall|i: int|
            0 <= i < body.len() && i != d ==> #[trigger] is_digit_char(body[i]);
    let off: int = if w[0] == '-' { 1 } else { 0 };
    assert forall|i: int| 0 <= i < body.len() implies body[i] == w[i + off] by {}
    assert(is_digit_char(body[0]));
    assert forall|i: int| a < i < b implies #[trigger] is_word_char(s[i]) by {
        assert(s[i] == w[i - a]);
        if i - a - off != d {
            assert(is_digit_char(body[i - a - off]));
        }
    }
    lemma_word_extent(s, a, b);
    assert(w[0] == s[a]);
    if off == 1 {
        assert(s[a + 1] == w[1]);
        assert(lex_token(s, a) == lex_word(s, a));
    } else {
        assert(lex_token(s, a) == lex_word(s, a));
    }
    lemma_digit_word_is_no_keyword(w, off);
    assert forall|i: int| 0 <= i < w.len() implies #[trigger] numeric_class()(w[i]) by {
        if i >= off && i - off != d {
            assert(is_digit_char(body[i - off]));
        }
    }
    assert(is_digit_char(body[body.len() - 1]));
    assert(w.last() == body[body.len() - 1]);
    assert(w[d + off] == '.');
    assert(unsigned_part(w) == body);
    assert(spec_is_ascii_digit(body[0]));
    assert forall|i: int| 0 <= i < body.len() implies #[trigger] spec_is_ascii_digit(body[i]) || body[i] == '.' by {
        if i != d {
            assert(is_digit_char(body[i]));
        }
    }
    assert forall|i: int, j: int| 0 <= i < j < body.len() && body[i] == '.' implies body[j] != '.' by {
        if i != d {
            assert(is_digit_char(body[i]));
        } else {
            assert(is_digit_char(body[j]));
        }
    }
    assert(spec_is_plain_decimal_float(w));
    assert(word_kind(w) == TokenKind::FloatLiteral);
}

/// Ten to the power `n`.
pub open spec fn pow10(n: nat) -> int
    decreases n,
{
    if n == 0 {
        1
    } else {
        10 * pow10((n - 1) as nat)
    }
}

proof fn lemma_digits_value_below(d: Seq<char>)
    requires
        forall|i: int| 0 <= i < d.len() ==> #[trigger] is_digit_char(d[i]),
    ensures
        0 <= digits_value(d) < pow10(d.len()),
    decreases d.len(),
{
    if d.len() > 0 {
        let init = d.drop_last();
        assert forall|i: int| 0 <= i < init.len() implies #[trigger] is_digit_char(init[i]) by {
            assert(init[i] == d[i]);
        }
        lemma_digits_value_below(init);
        assert(is_digit_char(d[d.len() - 1]));
    }
}

/// A maximal word made of an optional `-` and one to eighteen digits is an
/// integer literal.
pub proof fn lemma_short_decimal_ints_are_int_literals(s: Seq<char>, a: int, b: int)
    requires
        0 <= a < b <= s.len(),
        is_short_decimal_int_text(s.subrange(a, b)),
        b == s.len() || !is_word_char(s[b]),
    ensures
        lex_token(s, a) == (TokenKind::IntLiteral, b),
{
    let w = s.subrange(a, b);
    let body = after_minus(w);
    let off: int = if w[0] == '-' { 1 } else { 0 };
    assert forall|i: int| 0 <= i < body.len() implies body[i] == w[i + off] by {}
    assert(is_digit_char(body[0]));
    assert forall|i: int| a < i < b implies #[trigger] is_word_char(s[i]) by {
        assert(s[i] == w[i - a]);
        assert(is_digit_char(body[i - a - off]));
    }
    lemma_word_extent(s, a, b);
    assert(w[0] == s[a]);
    if off == 1 {
        assert(s[a + 1] == w[1]);
    }
    assert(lex_token(s, a) == lex_word(s, a));
    lemma_digit_word_is_no_keyword(w, off);
    assert forall|i: int| 0 <= i < w.len() implies #[trigger] numeric_class()(w[i]) by {
        if i >= off {
            assert(is_digit_char(body[i - off]));
        }
    }
    assert(is_digit_char(body[body.len() - 1]));
    assert(w.last() == body[body.len() - 1]);
    assert(!has_char(w, '.')) by {
        assert forall|i: int| 0 <= i < w.len() implies w[i] != '.' by {
            if i >= off {
                assert(is_digit_char(body[i - off]));
            }
        }
    }
    assert(unsigned_part(w) == body);
    assert forall|i: int| 0 <= i < body.len() implies #[trigger] spec_is_ascii_digit(body[i]) by {
        assert(is_digit_char(body[i]));
    }
    lemma_digits_value_below(body);
    reveal_with_fuel(pow10, 19);
    assert(pow10(body.len()) <= pow10(18)) by {
        lemma_pow10_monotone(body.len(), 18);
    }
    assert(spec_parse_decimal_i64(w) is Some);
    assert(word_kind(w) == TokenKind::IntLiteral);
}

proof fn lemma_pow10_monotone(m: nat, n: nat)
    requires
        m <= n,
    ensures
        1 <= pow10(m) <= pow10(n),
    decreases n,
{
    if m < n {
        lemma_pow10_monotone(m, (n - 1) as nat);
    } else if n > 0 {
        lemma_pow10_monotone(0, (n - 1) as nat);
    }
}

/// What each kind of word looks like: an integer literal is an optional
/// `-` and digits; a float literal is an optional `-`, digits and exactly
/// one `.`, ending in a digit; a word with a letter or `_` that spells no
/// keyword, and a run of dashes, are identifiers; a word that does not end
/// in a digit is no number.
pub proof fn lemma_word_kinds(s: Seq<char>, a: int)
    requires
        0 <= a < s.len(),
        is_word_kind(lex_token(s, a).0),
    ensures
        ({
            let (k, b) = lex_token(s, a);
            let w = s.subrange(a, b);
            let body = after_minus(w);
            &&& k is IntLiteral ==> body.len() > 0 && forall|i: int|
                0 <= i < body.len() ==> #[trigger] is_digit_char(body[i])
            &&& k is FloatLiteral ==> body.len() > 0 && is_digit_char(body.last()) && exists|d: int|
                0 <= d < body.len() && body[d] == '.' && forall|i: int|
                    0 <= i < body.len() && i != d ==> #[trigger] is_digit_char(body[i])
            &&& (exists|i: int| 0 <= i < w.len() && is_letter_or_underscore(#[trigger] w[i])) && !(k is True)
                && !(k is False) && !(k is Yes) && !(k is No) ==> k is Identifier
            &&& (forall|i: int| 0 <= i < w.len() ==> #[trigger] w[i] == '-') ==> k is Identifier
            &&& !is_digit_char(w.last()) ==> !(k is IntLiteral) && !(k is FloatLiteral)
        }),
{
    let (k, b) = lex_token(s, a);
    let w = s.subrange(a, b);
    let body = after_minus(w);
    lemma_lex_token_advances(s, a);
    lemma_scan_bounds(s, a + 1, word_class());
    assert(lex_token(s, a) == lex_word(s, a));
    assert(k == word_kind(w));
    if k is IntLiteral || k is FloatLiteral {
        assert(all_chars(w, numeric_class()));
        assert(body =~= unsigned_part(w) || w[0] == '+');
    }
    if k is IntLiteral {
        assert(!has_char(w, '.'));
        assert(spec_parse_decimal_i64(w) is Some);
        assert(body == unsigned_part(w));
        assert forall|i: int| 0 <= i < body.len() implies #[trigger] is_digit_char(body[i]) by {
            assert(spec_is_ascii_digit(body[i]));
        }
    }
    if k is FloatLiteral {
        assert(body == unsigned_part(w));
        assert(spec_is_plain_decimal_float(w));
        let dw = choose|dw: int| 0 <= dw < w.len() && w[dw] == '.';
        let off: int = if w[0] == '-' { 1 } else { 0 };
        assert(dw >= off);
        let d = dw - off;
        assert(body[d] == '.');
        assert forall|i: int| 0 <= i < body.len() && i != d implies #[trigger] is_digit_char(body[i]) by {
            assert(spec_is_ascii_digit(body[i]) || body[i] == '.');
            if body[i] == '.' {
                if i < d {
                    assert(body[d] != '.');
                } else {
                    assert(body[i] != '.');
                }
            }
        }
        assert(body.last() == w.last());
    }
    if exists|i: int| 0 <= i < w.len() && is_letter_or_underscore(#[trigger] w[i]) {
        let i = choose|i: int| 0 <= i < w.len() && is_letter_or_underscore(#[trigger] w[i]);
        assert(!numeric_class()(w[i]));
        assert(!dash_class()(w[i]));
    }
    if forall|i: int| 0 <= i < w.len() ==> #[trigger] w[i] == '-' {
        assert forall|i: int| 0 <= i < w.len() implies #[trigger] dash_class()(w[i]) by {
            assert(w[i] == '-');
        }
        assert(w[0] == '-');
        assert(ascii_lower_code(w[0]) != ascii_lower_code(keyword_true()[0]));
        assert(ascii_lower_code(w[0]) != ascii_lower_code(keyword_false()[0]));
        assert(ascii_lower_code(w[0]) != ascii_lower_code(keyword_yes()[0]));
        assert(ascii_lower_code(w[0]) != ascii_lower_code(keyword_no()[0]));
    }
}

} // verus!
