//! Unsigned integers read from text, the way std's `from_str` and
//! `from_str_radix` read them: an optional `+`, then digits of the radix.
use vstd::prelude::*;

use crate::text::chars_of;

verus! {

/// Why a text is not an unsigned integer of the wanted range; the three
/// kinds std's integer parsing reports for unsigned types.
#[derive(Debug, Clone, Copy, PartialEq, Eq, Structural)]
pub enum NumberFault {
    /// The text is empty.
    Empty,
    /// A character that is not a digit of the radix (a lone sign too).
    InvalidDigit,
    /// The value does not fit.
    TooLarge,
}

/// The value of `c` as a digit of `radix` (at most 36): `0`-`9`, then the
/// letters in either case.
pub open spec fn digit_value(c: char, radix: nat) -> Option<nat> {
    let v: int = if '0' <= c <= '9' {
        c as int - '0' as int
    } else if 'a' <= c <= 'z' {
        c as int - 'a' as int + 10
    } else if 'A' <= c <= 'Z' {
        c as int - 'A' as int + 10
    } else {
        36
    };
    if v < radix {
        Some(v as nat)
    } else {
        None
    }
}

/// Reads the digits `d` left to right onto `acc`: the first character that
/// is no digit, or the first digit after which the value passes `max`,
/// ends the reading with that fault.
pub open spec fn scan_digits(d: Seq<char>, radix: nat, max: nat, acc: nat) -> Result<
    nat,
    NumberFault,
>
    decreases d.len(),
{
    if d.len() == 0 {
        Ok(acc)
    } else {
        match digit_value(d[0], radix) {
            None => Err(NumberFault::InvalidDigit),
            Some(v) => if acc * radix + v > max {
                Err(NumberFault::TooLarge)
            } else {
                scan_digits(d.drop_first(), radix, max, acc * radix + v)
            },
        }
    }
}

/// The unsigned integer that `s` writes in `radix`, if it is at most `max`.
pub open spec fn parse_unsigned(s: Seq<char>, radix: nat, max: nat) -> Result<nat, NumberFault> {
    if s.len() == 0 {
        Err(NumberFault::Empty)
    } else if s.len() == 1 && (s[0] == '+' || s[0] == '-') {
        Err(NumberFault::InvalidDigit)
    } else if s[0] == '+' {
        scan_digits(s.drop_first(), radix, max, 0)
    } else {
        scan_digits(s, radix, max, 0)
    }
}

/// A value that is read is within the bound.
pub proof fn lemma_scan_within(d: Seq<char>, radix: nat, max: nat, acc: nat)
    requires
        acc <= max,
    ensures
        scan_digits(d, radix, max, acc) matches Ok(n) ==> n <= max,
    decreases d.len(),
{
    if d.len() > 0 {
        if let Some(v) = digit_value(d[0], radix) {
            if acc * radix + v <= max {
                lemma_scan_within(d.drop_first(), radix, max, acc * radix + v);
            }
        }
    }
}

fn digit_of(c: char, radix: u32) -> (r: Option<u32>)
    requires
        2 <= radix <= 36,
    ensures
        r is Some <==> digit_value(c, radix as nat) is Some,
        r is Some ==> r->0 as nat == digit_value(c, radix as nat)->0,
{
    let v: u32 = if '0' <= c && c <= '9' {
        (c as u32) - ('0' as u32)
    } else if 'a' <= c && c <= 'z' {
        (c as u32) - ('a' as u32) + 10
    } else if 'A' <= c && c <= 'Z' {
        (c as u32) - ('A' as u32) + 10
    } else {
        36
    };
    if v < radix {
        Some(v)
    } else {
        None
    }
}

/// Reads `s` as an unsigned integer in `radix`, refusing values above
/// `max`.
pub fn parse_unsigned_text(s: &str, radix: u32, max: u64) -> (r: Result<u64, NumberFault>)
    requires
        2 <= radix <= 36,
    ensures
        match parse_unsigned(s@, radix as nat, max as nat) {
            Ok(n) => r == Ok::<u64, NumberFault>(n as u64),
            Err(f) => r == Err::<u64, NumberFault>(f),
        },
        parse_unsigned(s@, radix as nat, max as nat) matches Ok(n) ==> n <= max,
{
    let cs = chars_of(s);
    proof {
        if s@.len() > 0 && s@[0] == '+' {
            lemma_scan_within(s@.drop_first(), radix as nat, max as nat, 0);
        }
        lemma_scan_within(s@, radix as nat, max as nat, 0);
    }
    if cs.len() == 0 {
        return Err(NumberFault::Empty);
    }
    if cs.len() == 1 && (cs[0] == '+' || cs[0] == '-') {
        return Err(NumberFault::InvalidDigit);
    }
    let start: usize = if cs[0] == '+' {
        1
    } else {
        0
    };
    let ghost digits = cs@.skip(start as int);
    proof {
        if start == 1 {
            assert(digits =~= cs@.drop_first());
        } else {
            assert(digits =~= cs@);
        }
    }
    let mut acc: u64 = 0;
    let mut i: usize = start;
    while i < cs.len()
        invariant
            cs@ == s@,
            start <= i <= cs@.len(),
            2 <= radix <= 36,
            acc <= max,
            digits == cs@.skip(start as int),
            parse_unsigned(s@, radix as nat, max as nat) == scan_digits(
                digits,
                radix as nat,
                max as nat,
                0,
            ),
            scan_digits(digits, radix as nat, max as nat, 0) == scan_digits(
                cs@.skip(i as int),
                radix as nat,
                max as nat,
                acc as nat,
            ),
        decreases cs@.len() - i,
    {
        let ghost rest = cs@.skip(i as int);
        assert(rest[0] == cs@[i as int]);
        assert(rest.drop_first() =~= cs@.skip(i + 1));
        assert(rest.len() > 0);
        match digit_of(cs[i], radix) {
            None => {
                return Err(NumberFault::InvalidDigit);
            },
            Some(v) => {
                assert((acc as u128) * (radix as u128) <= 0xffff_ffff_ffff_ffff * 36) by (
                nonlinear_arith)
                    requires
                        acc <= 0xffff_ffff_ffff_ffff,
                        radix <= 36,
                ;
                let wide: u128 = (acc as u128) * (radix as u128) + (v as u128);
                if wide > max as u128 {
                    return Err(NumberFault::TooLarge);
                }
                acc = wide as u64;
            },
        }
        i = i + 1;
    }
    assert(cs@.skip(i as int).len() == 0);
    Ok(acc)
}

} // verus!
