//! Recognition of numeric word lexemes. A bare word is classified as a
//! number exactly when it is a double-precision numeric literal: an optional
//! sign followed by `inf`, `infinity` or `nan` (letter case ignored), or a
//! decimal significand (`123`, `123.`, `12.5`, `.5`) with an optional
//! exponent part (`e7`, `E-3`).

use vstd::prelude::*;
use vstd::string::StrSliceExecFns;

use crate::text::SeekKind;
use crate::text::is_ascii_digit;
use crate::text::lemma_seek;
use crate::text::lemma_seek_step;
use crate::text::seek;
use crate::text::seek_stop;

verus! {

/// The index just past the run of ASCII digits starting at `i`.
pub open spec fn digit_run_end(s: Seq<char>, i: int) -> int {
    seek(s, i, SeekKind::NonDigit)
}

/// `c` equals the lower-case ASCII letter `l`, ignoring letter case.
pub open spec fn eq_ignore_case(c: char, l: char) -> bool {
    c == l || (c as u32) == (l as u32) - 32
}

/// An exponent part fills the rest of `s` from position `i` on: `e` or `E`,
/// an optional sign, and at least one digit.
pub open spec fn spec_exponent_from(s: Seq<char>, i: int) -> bool {
    &&& 0 <= i < s.len()
    &&& (s[i] == 'e' || s[i] == 'E')
    &&& ({
        let j = if i + 1 < s.len() && (s[i + 1] == '+' || s[i + 1] == '-') {
            i + 2
        } else {
            i + 1
        };
        j < s.len() && digit_run_end(s, j) == s.len()
    })
}

/// An unsigned decimal literal: `digits`, `digits.`, `digits.digits` or
/// `.digits`, with an optional exponent part after the significand.
pub open spec fn spec_decimal_literal(t: Seq<char>) -> bool {
    let de = digit_run_end(t, 0);
    if de == t.len() {
        de > 0
    } else if t[de] == '.' {
        let de2 = digit_run_end(t, de + 1);
        (de > 0 || de2 > de + 1) && (de2 == t.len() || spec_exponent_from(t, de2))
    } else {
        de > 0 && spec_exponent_from(t, de)
    }
}

/// The special words `inf`, `infinity` and `nan`, letter case ignored.
pub open spec fn spec_inf_or_nan(t: Seq<char>) -> bool {
    ||| (t.len() == 3 && eq_ignore_case(t[0], 'i') && eq_ignore_case(t[1], 'n')
        && eq_ignore_case(t[2], 'f'))
    ||| (t.len() == 8 && eq_ignore_case(t[0], 'i') && eq_ignore_case(t[1], 'n')
        && eq_ignore_case(t[2], 'f') && eq_ignore_case(t[3], 'i') && eq_ignore_case(t[4], 'n')
        && eq_ignore_case(t[5], 'i') && eq_ignore_case(t[6], 't') && eq_ignore_case(t[7], 'y'))
    ||| (t.len() == 3 && eq_ignore_case(t[0], 'n') && eq_ignore_case(t[1], 'a')
        && eq_ignore_case(t[2], 'n'))
}

/// A full numeric literal: an optional leading sign, then a special word or
/// a decimal literal.
pub open spec fn spec_is_numeric_literal(s: Seq<char>) -> bool {
    let t = if s.len() >= 1 && (s[0] == '+' || s[0] == '-') {
        s.skip(1)
    } else {
        s
    };
    spec_inf_or_nan(t) || spec_decimal_literal(t)
}

fn is_digit_char(c: char) -> (b: bool)
    ensures
        b == is_ascii_digit(c),
{
    let u = c as u32;
    48 <= u && u <= 57
}

fn eq_ignore_case_char(c: char, l: char) -> (b: bool)
    requires
        (l as u32) >= 32,
    ensures
        b == eq_ignore_case(c, l),
{
    c == l || (c as u32) == (l as u32) - 32
}

/// The first index at or after `i` holding a non-digit character.
fn digits_end(s: &str, i: usize) -> (j: usize)
    requires
        i <= s@.len(),
    ensures
        j == digit_run_end(s@, i as int),
        i <= j <= s@.len(),
{
    proof {
        lemma_seek(s@, i as int, SeekKind::NonDigit);
    }
    let n = s.unicode_len();
    let mut j = i;
    while j < n
        invariant
            i <= j <= n,
            n as nat == s@.len(),
            seek(s@, i as int, SeekKind::NonDigit) == seek(s@, j as int, SeekKind::NonDigit),
        decreases n - j,
    {
        let c = s.get_char(j);
        if !is_digit_char(c) {
            return j;
        }
        proof {
            lemma_seek_step(s@, j as int, SeekKind::NonDigit);
        }
        j += 1;
    }
    j
}

fn exponent_from(s: &str, i: usize) -> (b: bool)
    requires
        i <= s@.len(),
    ensures
        b == spec_exponent_from(s@, i as int),
{
    let n = s.unicode_len();
    if i >= n {
        return false;
    }
    let c = s.get_char(i);
    if c != 'e' && c != 'E' {
        return false;
    }
    let j = if i + 1 < n {
        let c1 = s.get_char(i + 1);
        if c1 == '+' || c1 == '-' {
            i + 2
        } else {
            i + 1
        }
    } else {
        i + 1
    };
    j < n && digits_end(s, j) == n
}

fn decimal_literal(t: &str) -> (b: bool)
    ensures
        b == spec_decimal_literal(t@),
{
    let n = t.unicode_len();
    let de = digits_end(t, 0);
    if de == n {
        return de > 0;
    }
    let c = t.get_char(de);
    if c == '.' {
        let de2 = digits_end(t, de + 1);
        (de > 0 || de2 > de + 1) && (de2 == n || exponent_from(t, de2))
    } else {
        de > 0 && exponent_from(t, de)
    }
}

fn inf_or_nan(t: &str) -> (b: bool)
    ensures
        b == spec_inf_or_nan(t@),
{
    let n = t.unicode_len();
    if n == 3 {
        let c0 = t.get_char(0);
        let c1 = t.get_char(1);
        let c2 = t.get_char(2);
        (eq_ignore_case_char(c0, 'i') && eq_ignore_case_char(c1, 'n')
            && eq_ignore_case_char(c2, 'f')) || (eq_ignore_case_char(c0, 'n')
            && eq_ignore_case_char(c1, 'a') && eq_ignore_case_char(c2, 'n'))
    } else if n == 8 {
        eq_ignore_case_char(t.get_char(0), 'i') && eq_ignore_case_char(t.get_char(1), 'n')
            && eq_ignore_case_char(t.get_char(2), 'f') && eq_ignore_case_char(t.get_char(3), 'i')
            && eq_ignore_case_char(t.get_char(4), 'n') && eq_ignore_case_char(t.get_char(5), 'i')
            && eq_ignore_case_char(t.get_char(6), 't') && eq_ignore_case_char(t.get_char(7), 'y')
    } else {
        false
    }
}

/// Decides whether a word is a double-precision numeric literal.
pub fn is_numeric_literal(s: &str) -> (b: bool)
    ensures
        b == spec_is_numeric_literal(s@),
{
    let n = s.unicode_len();
    if n >= 1 {
        let c0 = s.get_char(0);
        if c0 == '+' || c0 == '-' {
            let t = s.substring_char(1, n);
            proof {
                assert(t@ =~= s@.skip(1));
            }
            return inf_or_nan(t) || decimal_literal(t);
        }
    }
    inf_or_nan(s) || decimal_literal(s)
}

} // verus!
