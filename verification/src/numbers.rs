//! Recognising the numeric literals of MiniYaml.

use vstd::prelude::*;
use crate::chars::{char_is_decimal_digit, spec_is_ascii_digit};

verus! {

/// The value of a run of ASCII decimal digits.
pub open spec fn digits_value(d: Seq<char>) -> int
    decreases d.len(),
{
    if d.len() == 0 {
        0
    } else {
        10 * digits_value(d.drop_last()) + (d.last() as int - '0' as int)
    }
}

pub open spec fn all_ascii_digits(d: Seq<char>) -> bool {
    forall|i: int| 0 <= i < d.len() ==> #[trigger] spec_is_ascii_digit(d[i])
}

/// `s` without one leading `+` or `-`, if it has one.
pub open spec fn unsigned_part(s: Seq<char>) -> Seq<char> {
    if s.len() > 0 && (s[0] == '-' || s[0] == '+') {
        s.drop_first()
    } else {
        s
    }
}

/// What `i64::from_str_radix(s, 10)` gives for the text `s`: an optional
/// `+` or `-` followed by one or more ASCII digits, whose value fits in an
/// `i64`; `None` for anything else.
pub open spec fn spec_parse_decimal_i64(s: Seq<char>) -> Option<i64> {
    let digits = unsigned_part(s);
    if digits.len() == 0 || !all_ascii_digits(digits) {
        None
    } else {
        let v = if s[0] == '-' {
            -digits_value(digits)
        } else {
            digits_value(digits)
        };
        if i64::MIN <= v <= i64::MAX {
            Some(v as i64)
        } else {
            None
        }
    }
}

/// Calls `i64::from_str_radix` with radix 10 on the text made of `w`'s
/// characters; its documentation accepts exactly an optional sign followed
/// by digits whose value is in range.
#[verifier::external_body]
pub(crate) fn parse_decimal_i64(w: &[char]) -> (r: Option<i64>)
    ensures
        r == spec_parse_decimal_i64(w@),
{
    let s: String = w.iter().collect();
    i64::from_str_radix(&s, 10).ok()
}

/// A decimal number with a fractional point, as the float grammar of the
/// standard library reads it when no exponent is present: an optional sign,
/// then digits with at most one `.`, and at least one digit.
pub open spec fn spec_is_plain_decimal_float(s: Seq<char>) -> bool {
    let body = unsigned_part(s);
    &&& exists|i: int| 0 <= i < body.len() && #[trigger] spec_is_ascii_digit(body[i])
    &&& forall|i: int| 0 <= i < body.len() ==> #[trigger] spec_is_ascii_digit(body[i]) || body[i] == '.'
    &&& forall|i: int, j: int| 0 <= i < j < body.len() && body[i] == '.' ==> body[j] != '.'
}

/// Whether `w` is a plain decimal float (see [`spec_is_plain_decimal_float`]).
pub fn is_plain_decimal_float(w: &[char]) -> (r: bool)
    ensures
        r == spec_is_plain_decimal_float(w@),
{
    let n = w.len();
    let start: usize = if n > 0 && (w[0] == '-' || w[0] == '+') {
        1
    } else {
        0
    };
    let ghost body = unsigned_part(w@);
    assert(body =~= w@.subrange(start as int, n as int));
    let mut i = start;
    let mut seen_digit = false;
    let mut seen_dot = false;
    while i < n
        invariant
            n == w@.len(),
            start <= i <= n,
            body == w@.subrange(start as int, n as int),
            body == unsigned_part(w@),
            seen_digit <==> exists|k: int|
                start <= k < i && #[trigger] spec_is_ascii_digit(w@[k]),
            seen_dot <==> exists|k: int| start <= k < i && #[trigger] w@[k] == '.',
            forall|k: int| start <= k < i ==> #[trigger] spec_is_ascii_digit(w@[k]) || w@[k] == '.',
            forall|k: int, l: int| start <= k < l < i && w@[k] == '.' ==> w@[l] != '.',
        decreases n - i,
    {
        let c = w[i];
        if char_is_decimal_digit(c) {
            seen_digit = true;
        } else if c == '.' {
            if seen_dot {
                let ghost k = choose|k: int| start <= k < i && #[trigger] w@[k] == '.';
                assert(body[k - start] == '.' && body[i - start] == '.');
                return false;
            }
            seen_dot = true;
        } else {
            assert(!(spec_is_ascii_digit(body[i - start]) || body[i - start] == '.'));
            return false;
        }
        i = i + 1;
    }
    if !seen_digit {
        assert forall|k: int| 0 <= k < body.len() implies !spec_is_ascii_digit(body[k]) by {
            assert(body[k] == w@[k + start]);
        }
        return false;
    }
    proof {
        let k = choose|k: int| start <= k < i && #[trigger] spec_is_ascii_digit(w@[k]);
        assert(spec_is_ascii_digit(body[k - start]));
        assert forall|a: int| 0 <= a < body.len() implies #[trigger] spec_is_ascii_digit(body[a])
            || body[a] == '.' by {
            assert(body[a] == w@[a + start]);
        }
        assert forall|a: int, b: int| 0 <= a < b < body.len() && body[a] == '.' implies body[b]
            != '.' by {
            assert(body[a] == w@[a + start]);
            assert(body[b] == w@[b + start]);
        }
    }
    true
}

} // verus!
