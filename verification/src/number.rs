//! The value interpreter: normalization and validation of one numeric field.
//!
//! A raw field is normalized by stripping one optional layer of quoting,
//! truncating at a locale-style decimal comma (everything from the first
//! comma on is dropped, provided the comma is not the first character), and
//! trimming surrounding whitespace.  The remaining text must be a standard
//! floating-point literal: an optional sign followed by `inf`, `infinity`
//! or `nan` (case-insensitive) or by a number of the shape
//! `digits [. digits] [e|E [sign] digits]` with at least one digit in the
//! integer or fractional part.  The normalized text is the entry's value;
//! no numeric rounding happens here, so the result can be read downstream
//! as a floating-point value without any possibility of failure.

use vstd::prelude::*;

use crate::errors::ParseError;
use crate::text::{is_digit, lemma_scan_for_bounds, scan_for, scan_pos, trim, trimmed};
use crate::tokenizer::{field_end, unquote};

verus! {

/// Every position in `[from, to)` holds an ASCII digit.
pub open spec fn digits_in(s: Seq<char>, from: int, to: int) -> bool {
    forall|i: int| from <= i < to ==> is_digit(s[i])
}

/// `c` is the letter `l` (a lowercase letter) in either case.
pub open spec fn ci_is(c: char, l: char) -> bool {
    c == l || c as int + 32 == l as int
}

/// The range `[b, n)` of `s` spells `inf`, case-insensitively.
pub open spec fn inf_in(s: Seq<char>, b: int, n: int) -> bool {
    n - b == 3 && 0 <= b && n <= s.len() && ci_is(s[b], 'i') && ci_is(s[b + 1], 'n') && ci_is(
        s[b + 2],
        'f',
    )
}

/// The range `[b, n)` of `s` spells `infinity`, case-insensitively.
pub open spec fn infinity_in(s: Seq<char>, b: int, n: int) -> bool {
    n - b == 8 && 0 <= b && n <= s.len() && ci_is(s[b], 'i') && ci_is(s[b + 1], 'n') && ci_is(
        s[b + 2],
        'f',
    ) && ci_is(s[b + 3], 'i') && ci_is(s[b + 4], 'n') && ci_is(s[b + 5], 'i') && ci_is(
        s[b + 6],
        't',
    ) && ci_is(s[b + 7], 'y')
}

/// The range `[b, n)` of `s` spells `nan`, case-insensitively.
pub open spec fn nan_in(s: Seq<char>, b: int, n: int) -> bool {
    n - b == 3 && 0 <= b && n <= s.len() && ci_is(s[b], 'n') && ci_is(s[b + 1], 'a') && ci_is(
        s[b + 2],
        'n',
    )
}

/// The range `[from, to)` of `s` is a mantissa: a digit run, optionally
/// split in two by a single decimal point, with at least one digit.
pub open spec fn mantissa_in(s: Seq<char>, from: int, to: int) -> bool {
    let d = scan_for(s, from, to, '.', '.');
    if d == to {
        from < to && digits_in(s, from, to)
    } else {
        digits_in(s, from, d) && digits_in(s, d + 1, to) && to - from > 1
    }
}

/// The range `[from, to)` of `s` is an exponent body: an optional sign and
/// a non-empty digit run.
pub open spec fn exponent_in(s: Seq<char>, from: int, to: int) -> bool {
    let b = if from < to && (s[from] == '+' || s[from] == '-') {
        from + 1
    } else {
        from
    };
    b < to && digits_in(s, b, to)
}

/// The range `[from, to)` of `s` is a number: a mantissa, optionally
/// followed by `e` or `E` and an exponent body.
pub open spec fn number_in(s: Seq<char>, from: int, to: int) -> bool {
    let e = scan_for(s, from, to, 'e', 'E');
    if e == to {
        mantissa_in(s, from, to)
    } else {
        mantissa_in(s, from, e) && exponent_in(s, e + 1, to)
    }
}

/// `s` is a standard floating-point literal.
pub open spec fn is_float_literal(s: Seq<char>) -> bool {
    let b: int = if s.len() > 0 && (s[0] == '+' || s[0] == '-') {
        1
    } else {
        0
    };
    let n = s.len() as int;
    inf_in(s, b, n) || infinity_in(s, b, n) || nan_in(s, b, n) || number_in(s, b, n)
}

/// The normalized value text of a raw field, or nothing when the field does
/// not carry a readable number.
pub open spec fn spec_value_of(field: Seq<char>) -> Option<Seq<char>> {
    if field.len() == 0 {
        None
    } else {
        let q = unquote(field);
        let k = field_end(q, 0);
        let c = if 0 < k < q.len() {
            q.take(k)
        } else {
            q
        };
        let t = trim(c);
        if is_float_literal(t) {
            Some(t)
        } else {
            None
        }
    }
}

fn digits_range(s: &str, from: usize, to: usize) -> (r: bool)
    requires
        from <= to <= s@.len(),
    ensures
        r == digits_in(s@, from as int, to as int),
{
    let mut i = from;
    while i < to
        invariant
            from <= i <= to,
            to <= s@.len(),
            forall|j: int| from <= j < i ==> is_digit(s@[j]),
        decreases to - i,
    {
        let c = s.get_char(i);
        if !('0' <= c && c <= '9') {
            return false;
        }
        i = i + 1;
    }
    true
}

fn ci_char(c: char, l: char) -> (r: bool)
    ensures
        r == ci_is(c, l),
{
    c == l || (c as u32) + 32 == (l as u32)
}

/// Whether `s` is a standard floating-point literal.
pub fn check_float_literal(s: &str) -> (r: bool)
    ensures
        r == is_float_literal(s@),
{
    let n = s.unicode_len();
    let b: usize = if n > 0 && (s.get_char(0) == '+' || s.get_char(0) == '-') {
        1
    } else {
        0
    };
    if n - b == 3 {
        if ci_char(s.get_char(b), 'i') && ci_char(s.get_char(b + 1), 'n') && ci_char(
            s.get_char(b + 2),
            'f',
        ) {
            return true;
        }
        if ci_char(s.get_char(b), 'n') && ci_char(s.get_char(b + 1), 'a') && ci_char(
            s.get_char(b + 2),
            'n',
        ) {
            return true;
        }
    }
    if n - b == 8 {
        if ci_char(s.get_char(b), 'i') && ci_char(s.get_char(b + 1), 'n') && ci_char(
            s.get_char(b + 2),
            'f',
        ) && ci_char(s.get_char(b + 3), 'i') && ci_char(s.get_char(b + 4), 'n') && ci_char(
            s.get_char(b + 5),
            'i',
        ) && ci_char(s.get_char(b + 6), 't') && ci_char(s.get_char(b + 7), 'y') {
            return true;
        }
    }
    let e = scan_pos(s, b, n, 'e', 'E');
    let m_to = e;
    let mantissa_ok = {
        let d = scan_pos(s, b, m_to, '.', '.');
        if d == m_to {
            b < m_to && digits_range(s, b, m_to)
        } else {
            digits_range(s, b, d) && digits_range(s, d + 1, m_to) && m_to - b > 1
        }
    };
    if !mantissa_ok {
        return false;
    }
    if e == n {
        return true;
    }
    let eb: usize = if e + 1 < n && (s.get_char(e + 1) == '+' || s.get_char(e + 1) == '-') {
        e + 2
    } else {
        e + 1
    };
    eb < n && digits_range(s, eb, n)
}

/// The value interpreter: normalizes one raw field and returns the
/// normalized floating-point literal text, or the failure that rules the
/// field out.  An empty field fails as an empty value; any other failure is
/// an unparseable value.
pub fn parse_value(field: &str) -> (r: Result<String, ParseError>)
    requires
        field@.len() < usize::MAX,
    ensures
        r is Ok <==> spec_value_of(field@) is Some,
        r matches Ok(v) ==> Some(v@) == spec_value_of(field@),
        r is Err ==> (r->Err_0 is EmptyField <==> field@.len() == 0),
        r is Err && field@.len() > 0 ==> r->Err_0 is ValueUnparseable,
{
    let n = field.unicode_len();
    if n == 0 {
        return Err(ParseError::EmptyField);
    }
    let q: &str = if n >= 2 && field.get_char(0) == '"' && field.get_char(n - 1) == '"' {
        field.substring_char(1, n - 1)
    } else {
        field
    };
    proof {
        if n >= 2 && field@[0] == '"' && field@[n - 1] == '"' {
            assert(field@.subrange(1, n - 1) =~= unquote(field@));
        }
    }
    let qn = q.unicode_len();
    let k = scan_pos(q, 0, qn, ',', ',');
    proof {
        lemma_scan_for_bounds(q@, 0, qn as int, ',', ',');
        assert(field_end(q@, 0) == scan_for(q@, 0, qn as int, ',', ',')) by {
            crate::tokenizer::lemma_field_end_bounds(q@, 0);
            let fe = field_end(q@, 0);
            let sc = scan_for(q@, 0, qn as int, ',', ',');
            if fe < sc {
                assert(q@[fe] == ',');
            }
            if sc < fe {
                assert(q@[sc] == ',');
            }
        }
    }
    let c: &str = if 0 < k && k < qn {
        q.substring_char(0, k)
    } else {
        q
    };
    proof {
        if 0 < k && k < qn {
            assert(q@.subrange(0, k as int) =~= q@.take(k as int));
        }
    }
    let t = trimmed(c);
    if check_float_literal(t.as_str()) {
        Ok(t)
    } else {
        Err(ParseError::ValueUnparseable)
    }
}

} // verus!
