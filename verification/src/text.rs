//! Small text builders: hexadecimal and decimal digits, and character-level
//! comparisons of strings.
use vstd::prelude::*;
use vstd::string::StringExecFns;

verus! {

/// Lower-case hexadecimal digit for `d < 16`.
pub open spec fn hex_char(d: u32) -> char {
    if d < 10 {
        ((d + 48) as u8) as char
    } else {
        ((d + 87) as u8) as char
    }
}

/// Decimal digit for `d < 10`.
pub open spec fn decimal_char(d: nat) -> char {
    ((d + 48) as u8) as char
}

/// Decimal digits of `n`, most significant first, without leading zeros
/// ("0" for zero).
pub open spec fn decimal_text(n: nat) -> Seq<char>
    decreases n,
{
    if n < 10 {
        seq![decimal_char(n)]
    } else {
        decimal_text(n / 10).push(decimal_char(n % 10))
    }
}

/// The one-character string of a hexadecimal digit.
pub fn hex_digit_str(d: u32) -> (r: &'static str)
    requires
        d < 16,
    ensures
        r@ == seq![hex_char(d)],
{
    match d {
        0 => {
            proof {
                reveal_strlit("0");
            }
            "0"
        },
        1 => {
            proof {
                reveal_strlit("1");
            }
            "1"
        },
        2 => {
            proof {
                reveal_strlit("2");
            }
            "2"
        },
        3 => {
            proof {
                reveal_strlit("3");
            }
            "3"
        },
        4 => {
            proof {
                reveal_strlit("4");
            }
            "4"
        },
        5 => {
            proof {
                reveal_strlit("5");
            }
            "5"
        },
        6 => {
            proof {
                reveal_strlit("6");
            }
            "6"
        },
        7 => {
            proof {
                reveal_strlit("7");
            }
            "7"
        },
        8 => {
            proof {
                reveal_strlit("8");
            }
            "8"
        },
        9 => {
            proof {
                reveal_strlit("9");
            }
            "9"
        },
        10 => {
            proof {
                reveal_strlit("a");
            }
            "a"
        },
        11 => {
            proof {
                reveal_strlit("b");
            }
            "b"
        },
        12 => {
            proof {
                reveal_strlit("c");
            }
            "c"
        },
        13 => {
            proof {
                reveal_strlit("d");
            }
            "d"
        },
        14 => {
            proof {
                reveal_strlit("e");
            }
            "e"
        },
        _ => {
            proof {
                reveal_strlit("f");
            }
            "f"
        },
    }
}

/// Appends the decimal digits of `n`.
pub fn push_decimal(out: &mut String, n: u64)
    ensures
        final(out)@ == old(out)@ + decimal_text(n as nat),
    decreases n,
{
    if n >= 10 {
        push_decimal(out, n / 10);
    }
    let d = (n % 10) as u32;
    out.append(hex_digit_str(d));
    proof {
        assert(hex_char(d) == decimal_char((n % 10) as nat));
        if n >= 10 {
            assert(decimal_text(n as nat) == decimal_text((n / 10) as nat).push(
                decimal_char((n % 10) as nat),
            ));
        }
    }
}

/// A string holding `s`.
pub fn string_of(s: &str) -> (r: String)
    ensures
        r@ == s@,
{
    String::from_str(s)
}


/// `String::push` appends one character (std documentation).
#[verifier::external_body]
pub(crate) fn push_char(s: &mut String, c: char)
    ensures
        final(s)@ == old(s)@.push(c),
{
    s.push(c);
}

/// The characters of `s`, in order.
pub fn chars_of(s: &str) -> (r: Vec<char>)
    ensures
        r@ == s@,
{
    let mut out: Vec<char> = Vec::new();
    for c in it: s.chars()
        invariant
            out@ == it.seq().take(it.index() as int),
            it.seq() == s@,
    {
        out.push(c);
    }
    out
}

/// A string made of the given characters.
pub fn string_from_chars(cs: &[char]) -> (r: String)
    ensures
        r@ == cs@,
{
    let mut out = String::new();
    let mut i: usize = 0;
    while i < cs.len()
        invariant
            i <= cs@.len(),
            out@ == cs@.take(i as int),
        decreases cs@.len() - i,
    {
        push_char(&mut out, cs[i]);
        i = i + 1;
        assert(out@ =~= cs@.take(i as int));
    }
    assert(cs@.take(cs@.len() as int) =~= cs@);
    out
}

/// Whether two strings hold the same characters.
pub fn str_eq(a: &str, b: &str) -> (r: bool)
    ensures
        r == (a@ == b@),
{
    let left = String::from_str(a);
    let right = String::from_str(b);
    left == right
}

/// `s` begins with `prefix`.
pub open spec fn has_prefix(s: Seq<char>, prefix: Seq<char>) -> bool {
    prefix.len() <= s.len() && s.take(prefix.len() as int) == prefix
}

/// Whether `s` begins with `prefix`.
pub fn starts_with(s: &str, prefix: &str) -> (r: bool)
    ensures
        r == has_prefix(s@, prefix@),
{
    let cs = chars_of(s);
    let ps = chars_of(prefix);
    if ps.len() > cs.len() {
        return false;
    }
    let mut i: usize = 0;
    while i < ps.len()
        invariant
            ps@ == prefix@,
            cs@ == s@,
            ps@.len() <= cs@.len(),
            i <= ps@.len(),
            forall|j: int| 0 <= j < i ==> cs@[j] == ps@[j],
        decreases ps@.len() - i,
    {
        if cs[i] != ps[i] {
            assert(s@.take(prefix@.len() as int)[i as int] != prefix@[i as int]);
            return false;
        }
        i = i + 1;
    }
    assert(s@.take(prefix@.len() as int) =~= prefix@);
    true
}

/// The rest of `s` after `prefix`, when `s` begins with `prefix`.
pub fn strip_prefix(s: &str, prefix: &str) -> (r: Option<String>)
    ensures
        has_prefix(s@, prefix@) ==> r is Some && r->0@ == s@.skip(prefix@.len() as int),
        !has_prefix(s@, prefix@) ==> r is None,
{
    if !starts_with(s, prefix) {
        return None;
    }
    let cs = chars_of(s);
    let n = chars_of(prefix).len();
    let mut out = String::new();
    let mut i = n;
    while i < cs.len()
        invariant
            n == prefix@.len(),
            n <= i <= cs@.len(),
            cs@ == s@,
            out@ == s@.subrange(n as int, i as int),
        decreases cs@.len() - i,
    {
        push_char(&mut out, cs[i]);
        i = i + 1;
        assert(out@ =~= s@.subrange(n as int, i as int));
    }
    assert(out@ =~= s@.skip(n as int));
    Some(out)
}


/// The characters of `s` after the first `n`.
pub fn chars_after(s: &str, n: usize) -> (r: String)
    requires
        n <= s@.len(),
    ensures
        r@ == s@.skip(n as int),
{
    let cs = chars_of(s);
    let mut out = String::new();
    let mut i = n;
    while i < cs.len()
        invariant
            n <= i <= cs@.len(),
            cs@ == s@,
            out@ == s@.subrange(n as int, i as int),
        decreases cs@.len() - i,
    {
        push_char(&mut out, cs[i]);
        i = i + 1;
        assert(out@ =~= s@.subrange(n as int, i as int));
    }
    assert(out@ =~= s@.skip(n as int));
    out
}

/// Characters with the Unicode `White_Space` property, the set that
/// `char::is_whitespace` and `str::trim` use.
pub open spec fn is_white_space(c: char) -> bool {
    ('\u{9}' <= c <= '\u{d}') || c == ' ' || c == '\u{85}' || c == '\u{a0}' || c == '\u{1680}' || (
    '\u{2000}' <= c <= '\u{200a}') || c == '\u{2028}' || c == '\u{2029}' || c == '\u{202f}' || c
        == '\u{205f}' || c == '\u{3000}'
}

pub fn is_white_space_char(c: char) -> (r: bool)
    ensures
        r == is_white_space(c),
{
    ('\u{9}' <= c && c <= '\u{d}') || c == ' ' || c == '\u{85}' || c == '\u{a0}' || c == '\u{1680}'
        || ('\u{2000}' <= c && c <= '\u{200a}') || c == '\u{2028}' || c == '\u{2029}' || c
        == '\u{202f}' || c == '\u{205f}' || c == '\u{3000}'
}

/// `s` without leading white space.
pub open spec fn trim_start(s: Seq<char>) -> Seq<char>
    decreases s.len(),
{
    if s.len() > 0 && is_white_space(s[0]) {
        trim_start(s.drop_first())
    } else {
        s
    }
}

/// `s` without trailing white space.
pub open spec fn trim_end(s: Seq<char>) -> Seq<char>
    decreases s.len(),
{
    if s.len() > 0 && is_white_space(s.last()) {
        trim_end(s.drop_last())
    } else {
        s
    }
}

/// `s` without leading or trailing white space.
pub open spec fn trim(s: Seq<char>) -> Seq<char> {
    trim_end(trim_start(s))
}

/// The characters of `cs` without leading or trailing white space.
pub fn trim_chars(cs: &Vec<char>) -> (r: Vec<char>)
    ensures
        r@ == trim(cs@),
{
    let n = cs.len();
    let mut a: usize = 0;
    assert(cs@.skip(0) =~= cs@);
    while a < n && is_white_space_char(cs[a])
        invariant
            a <= n,
            n == cs@.len(),
            trim_start(cs@) == trim_start(cs@.skip(a as int)),
        decreases n - a,
    {
        assert(cs@.skip(a as int).drop_first() =~= cs@.skip(a + 1));
        a = a + 1;
    }
    let ghost started = cs@.skip(a as int);
    assert(trim_start(cs@) == started);
    let mut b: usize = n;
    while b > a && is_white_space_char(cs[b - 1])
        invariant
            a <= b <= n,
            n == cs@.len(),
            started == cs@.skip(a as int),
            trim_end(started) == trim_end(cs@.subrange(a as int, b as int)),
        decreases b,
    {
        assert(cs@.subrange(a as int, b as int).drop_last() =~= cs@.subrange(a as int, b - 1));
        b = b - 1;
    }
    let mut out: Vec<char> = Vec::new();
    let mut i = a;
    while i < b
        invariant
            a <= i <= b,
            b <= n,
            n == cs@.len(),
            out@ == cs@.subrange(a as int, i as int),
        decreases b - i,
    {
        out.push(cs[i]);
        i = i + 1;
        assert(out@ =~= cs@.subrange(a as int, i as int));
    }
    out
}

/// `s` cut at every `sep`; there is one more piece than separators.
pub open spec fn split_at_char(s: Seq<char>, sep: char) -> Seq<Seq<char>>
    decreases s.len(),
{
    if s.len() == 0 {
        seq![Seq::empty()]
    } else {
        let pieces = split_at_char(s.drop_last(), sep);
        if s.last() == sep {
            pieces.push(Seq::empty())
        } else {
            pieces.update(pieces.len() - 1, pieces.last().push(s.last()))
        }
    }
}

proof fn lemma_split_nonempty(s: Seq<char>, sep: char)
    ensures
        split_at_char(s, sep).len() >= 1,
    decreases s.len(),
{
    if s.len() > 0 {
        lemma_split_nonempty(s.drop_last(), sep);
    }
}

/// The pieces that are not empty, in order.
pub open spec fn keep_nonempty(pieces: Seq<Seq<char>>) -> Seq<Seq<char>>
    decreases pieces.len(),
{
    if pieces.len() == 0 {
        Seq::empty()
    } else if pieces.last().len() == 0 {
        keep_nonempty(pieces.drop_last())
    } else {
        keep_nonempty(pieces.drop_last()).push(pieces.last())
    }
}

/// The comma-separated values of `s`, trimmed, empty ones dropped.
pub open spec fn csv_values(s: Seq<char>) -> Seq<Seq<char>> {
    keep_nonempty(split_at_char(s, ',').map_values(|p: Seq<char>| trim(p)))
}

/// Splits at commas, trims each value and drops empty ones.
pub fn split_csv_values(value: &str) -> (r: Vec<String>)
    ensures
        r@.len() == csv_values(value@).len(),
        forall|i: int| 0 <= i < r@.len() ==> (#[trigger] r@[i])@ == csv_values(value@)[i],
{
    let cs = chars_of(value);
    let mut out: Vec<String> = Vec::new();
    let ghost mut done: Seq<Seq<char>> = Seq::empty();
    let mut current: Vec<char> = Vec::new();
    let mut i: usize = 0;
    while i < cs.len()
        invariant
            i <= cs@.len(),
            cs@ == value@,
            split_at_char(cs@.take(i as int), ',') == done.push(current@),
            out@.len() == keep_nonempty(done.map_values(|p: Seq<char>| trim(p))).len(),
            forall|j: int|
                0 <= j < out@.len() ==> (#[trigger] out@[j])@ == keep_nonempty(
                    done.map_values(|p: Seq<char>| trim(p)),
                )[j],
        decreases cs@.len() - i,
    {
        let c = cs[i];
        proof {
            assert(cs@.take(i + 1).drop_last() =~= cs@.take(i as int));
            assert(cs@.take(i + 1).last() == c);
        }
        if c == ',' {
            let trimmed = trim_chars(&current);
            proof {
                let old_done = done;
                done = done.push(current@);
                assert(done.map_values(|p: Seq<char>| trim(p)) =~= old_done.map_values(
                    |p: Seq<char>| trim(p),
                ).push(trim(current@)));
                assert(done.map_values(|p: Seq<char>| trim(p)).drop_last() =~= old_done.map_values(
                    |p: Seq<char>| trim(p),
                ));
            }
            if trimmed.len() > 0 {
                out.push(string_from_chars(trimmed.as_slice()));
            }
            current = Vec::new();
            assert(split_at_char(cs@.take(i + 1), ',') =~= done.push(current@));
        } else {
            let ghost old_current = current@;
            current.push(c);
            proof {
                lemma_split_nonempty(cs@.take(i as int), ',');
                assert(split_at_char(cs@.take(i + 1), ',') =~= done.push(current@));
            }
        }
        i = i + 1;
    }
    let trimmed = trim_chars(&current);
    proof {
        let old_done = done;
        done = done.push(current@);
        assert(done.map_values(|p: Seq<char>| trim(p)).drop_last() =~= old_done.map_values(
            |p: Seq<char>| trim(p),
        ));
        assert(cs@.take(cs@.len() as int) =~= cs@);
    }
    if trimmed.len() > 0 {
        out.push(string_from_chars(trimmed.as_slice()));
    }
    proof {
        assert(done == split_at_char(value@, ','));
    }
    out
}

} // verus!
