//! The syntax of decimal floating-point numbers as std's `f64::from_str`
//! reads them: an optional sign, then `inf`, `infinity` or `nan` in any
//! ASCII case, or digits with an optional `.` and fraction (at least one
//! digit in all) and an optional exponent (`e` or `E`, an optional sign and
//! at least one digit). Only the syntax is checked; the value is read by the
//! caller.
use vstd::prelude::*;

use crate::text::{chars_of, str_eq, string_from_chars};
use crate::vision::{ascii_lower, ascii_lowercase};

verus! {

pub open spec fn is_digit(c: char) -> bool {
    '0' <= c <= '9'
}

/// How many digits `s` begins with.
pub open spec fn leading_digits(s: Seq<char>) -> nat
    decreases s.len(),
{
    if s.len() == 0 || !is_digit(s[0]) {
        0
    } else {
        1 + leading_digits(s.skip(1))
    }
}

/// How many digits stand from position `i` on.
pub open spec fn digits_from(s: Seq<char>, i: int) -> nat {
    leading_digits(s.skip(i))
}

pub open spec fn is_sign(c: char) -> bool {
    c == '+' || c == '-'
}

/// Length of the leading sign: one when there is one.
pub open spec fn sign_len(s: Seq<char>, i: int) -> int {
    if 0 <= i < s.len() && is_sign(s[i]) {
        1
    } else {
        0
    }
}

/// The rest of `s` from position `k` is empty or an exponent.
pub open spec fn exponent_from(s: Seq<char>, k: int) -> bool {
    k == s.len() || (k < s.len() && (s[k] == 'e' || s[k] == 'E') && {
        let m = k + 1 + sign_len(s, k + 1);
        digits_from(s, m) > 0 && m + digits_from(s, m) == s.len()
    })
}

/// From position `i` on, `s` is digits, an optional `.` and fraction (at
/// least one digit in all), and an optional exponent.
pub open spec fn number_from(s: Seq<char>, i: int) -> bool {
    let a = digits_from(s, i);
    let j = i + a;
    let has_dot = j < s.len() && s[j] == '.';
    let b = if has_dot {
        digits_from(s, j + 1)
    } else {
        0
    };
    let k = if has_dot {
        j + 1 + b
    } else {
        j
    };
    a + b > 0 && exponent_from(s, k)
}

/// `s` is a floating-point number `f64::from_str` accepts.
pub open spec fn is_float_text(s: Seq<char>) -> bool {
    let i = sign_len(s, 0);
    let word = s.skip(i).map_values(|c: char| ascii_lower(c));
    word == "inf"@ || word == "infinity"@ || word == "nan"@ || number_from(s, i)
}

/// The end of the run of digits that starts at `from`.
fn digits_end(cs: &Vec<char>, from: usize) -> (r: usize)
    requires
        from <= cs@.len(),
    ensures
        from <= r <= cs@.len(),
        r - from == digits_from(cs@, from as int),
{
    let mut j = from;
    while j < cs.len() && '0' <= cs[j] && cs[j] <= '9'
        invariant
            from <= j <= cs@.len(),
            digits_from(cs@, from as int) == (j - from) + digits_from(cs@, j as int),
        decreases cs@.len() - j,
    {
        assert(cs@.skip(j as int).skip(1) =~= cs@.skip(j + 1));
        j = j + 1;
    }
    if j < cs.len() {
        assert(cs@.skip(j as int)[0] == cs@[j as int]);
    } else {
        assert(cs@.skip(j as int).len() == 0);
    }
    j
}

fn is_sign_char(c: char) -> (r: bool)
    ensures
        r == is_sign(c),
{
    c == '+' || c == '-'
}

/// Whether `text` has the syntax of a floating-point number, as
/// `is_float_text` states.
pub fn is_float_syntax(text: &str) -> (r: bool)
    ensures
        r == is_float_text(text@),
{
    let cs = chars_of(text);
    let n = cs.len();
    let i: usize = if n > 0 && is_sign_char(cs[0]) {
        1
    } else {
        0
    };
    assert(i == sign_len(cs@, 0));
    let mut rest: Vec<char> = Vec::new();
    let mut t = i;
    while t < n
        invariant
            i <= t <= n,
            n == cs@.len(),
            rest@ == cs@.subrange(i as int, t as int),
        decreases n - t,
    {
        rest.push(cs[t]);
        t = t + 1;
        assert(rest@ =~= cs@.subrange(i as int, t as int));
    }
    assert(rest@ =~= cs@.skip(i as int));
    let word = string_from_chars(ascii_lowercase(&rest).as_slice());
    let w = word.as_str();
    if str_eq(w, "inf") || str_eq(w, "infinity") || str_eq(w, "nan") {
        return true;
    }
    let a_end = digits_end(&cs, i);
    let mut k = a_end;
    let mut fraction: usize = 0;
    if a_end < n && cs[a_end] == '.' {
        let b_end = digits_end(&cs, a_end + 1);
        fraction = b_end - (a_end + 1);
        k = b_end;
    }
    if (a_end - i) + fraction == 0 {
        return false;
    }
    if k == n {
        return true;
    }
    if cs[k] != 'e' && cs[k] != 'E' {
        return false;
    }
    let m: usize = if k + 1 < n && is_sign_char(cs[k + 1]) {
        k + 2
    } else {
        k + 1
    };
    assert(m == k + 1 + sign_len(cs@, k + 1));
    let e_end = digits_end(&cs, m);
    e_end > m && e_end == n
}

} // verus!
