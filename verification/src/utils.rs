use vstd::prelude::*;
use vstd::string::StrSliceExecFns;
use crate::err::{ScrapeError, ScrapeResult};

verus! {

/// Relies on `String::push` from std: it appends exactly the given
/// character to the end of the string.
pub assume_specification[ String::push ](s: &mut String, c: char)
    ensures
        final(s)@ == old(s)@.push(c),
;

/// The decimal digit character for `d` (meaningful for `d < 10`).
pub open spec fn digit_char(d: nat) -> char {
    ((0x30 + d) as u8) as char
}

/// The decimal text of `n`, most significant digit first, with no sign,
/// no leading zeros, and at least one digit.
pub open spec fn decimal_chars(n: nat) -> Seq<char>
    decreases n,
{
    if n < 10 {
        seq![digit_char(n)]
    } else {
        decimal_chars(n / 10).push(digit_char(n % 10))
    }
}

/// Render `n` as decimal text.
pub fn u64_to_decimal(n: u64) -> (r: String)
    ensures
        r@ == decimal_chars(n as nat),
    decreases n,
{
    let d: u8 = (n % 10) as u8 + 0x30;
    let c: char = d as char;
    proof {
        assert(c == digit_char((n % 10) as nat));
    }
    if n < 10 {
        let mut r = String::new();
        r.push(c);
        proof {
            assert(r@ =~= decimal_chars(n as nat));
        }
        r
    } else {
        let mut r = u64_to_decimal(n / 10);
        r.push(c);
        proof {
            assert(r@ =~= decimal_chars(n as nat));
        }
        r
    }
}

/// Render a duration given in whole seconds as decimal text.
pub fn format_duration(duration_secs: u64) -> (r: String)
    ensures
        r@ == decimal_chars(duration_secs as nat),
{
    u64_to_decimal(duration_secs)
}

/// Split `content` at the first occurrence of `separator`; everything after
/// that first occurrence, further separators included, lands unchanged in
/// the second part.
pub fn split_once<'a>(content: &'a str, separator: char) -> (r: ScrapeResult<(&'a str, &'a str)>)
    ensures
        match r {
            Ok(parts) => {
                &&& content@ == parts.0@ + seq![separator] + parts.1@
                &&& !parts.0@.contains(separator)
            },
            Err(e) => {
                &&& !content@.contains(separator)
                &&& (e matches ScrapeError::SplitFailed { content: c, separator: s }
                    && c@ == content@ && s == separator)
            },
        },
{
    let n = content.unicode_len();
    let mut i: usize = 0;
    while i < n
        invariant
            n == content@.len(),
            0 <= i <= n,
            forall|j: int| 0 <= j < i ==> content@[j] != separator,
        decreases n - i,
    {
        if content.get_char(i) == separator {
            let a = content.substring_char(0, i);
            let b = content.substring_char(i + 1, n);
            proof {
                assert(content@ =~= a@ + seq![separator] + b@);
                assert(!a@.contains(separator)) by {
                    assert(forall|j: int| 0 <= j < a@.len() ==> a@[j] != separator);
                }
            }
            return Ok((a, b));
        }
        i += 1;
    }
    proof {
        assert(!content@.contains(separator)) by {
            assert(forall|j: int| 0 <= j < content@.len() ==> content@[j] != separator);
        }
    }
    Err(ScrapeError::SplitFailed { content: content.to_owned(), separator })
}

/// Whether `c` is a decimal digit.
pub open spec fn is_digit(c: char) -> bool {
    0x30 <= c as u32 <= 0x39
}

/// The value of the digit character `c`.
pub open spec fn digit_val(c: char) -> nat {
    (c as u32 - 0x30) as nat
}

/// The numeric value of a string of decimal digits (0 when empty).
pub open spec fn decimal_val(s: Seq<char>) -> nat
    decreases s.len(),
{
    if s.len() == 0 {
        0
    } else {
        decimal_val(s.drop_last()) * 10 + digit_val(s.last())
    }
}

/// Whether every character of `s` is a decimal digit.
pub open spec fn all_digits(s: Seq<char>) -> bool {
    forall|i: int| 0 <= i < s.len() ==> is_digit(s[i])
}

proof fn lemma_decimal_prefix_le(s: Seq<char>, i: int, j: int)
    requires
        0 <= i <= j <= s.len(),
    ensures
        decimal_val(s.take(i)) <= decimal_val(s.take(j)),
    decreases j - i,
{
    if i < j {
        lemma_decimal_prefix_le(s, i, j - 1);
        assert(s.take(j).drop_last() =~= s.take(j - 1));
        assert(decimal_val(s.take(j)) == decimal_val(s.take(j - 1)) * 10 + digit_val(s.take(j).last()));
    }
}

/// Parse a string of decimal digits as an unsigned 16-bit integer.
/// Leading zeros are accepted; anything else is not.
pub fn parse_u16(s: &str) -> (r: Option<u16>)
    ensures
        match r {
            Some(v) => {
                &&& s@.len() > 0
                &&& all_digits(s@)
                &&& decimal_val(s@) == v as nat
            },
            None => !(s@.len() > 0 && all_digits(s@) && decimal_val(s@) <= u16::MAX),
        },
{
    let n = s.unicode_len();
    if n == 0 {
        return None;
    }
    let mut acc: u32 = 0;
    let mut i: usize = 0;
    while i < n
        invariant
            n == s@.len(),
            0 <= i <= n,
            acc <= 0xffff,
            acc as nat == decimal_val(s@.take(i as int)),
            forall|j: int| 0 <= j < i ==> is_digit(s@[j]),
        decreases n - i,
    {
        let c = s.get_char(i);
        let u = c as u32;
        if u < 0x30 || u > 0x39 {
            return None;
        }
        let next: u32 = acc * 10 + (u - 0x30);
        proof {
            assert(s@.take(i + 1).drop_last() =~= s@.take(i as int));
            assert(s@.take(i + 1).last() == s@[i as int]);
            assert(next as nat == decimal_val(s@.take(i + 1)));
        }
        if next > 0xffff {
            proof {
                lemma_decimal_prefix_le(s@, i + 1, n as int);
                assert(s@.take(n as int) =~= s@);
            }
            return None;
        }
        acc = next;
        i += 1;
    }
    proof {
        assert(s@.take(n as int) =~= s@);
    }
    Some(acc as u16)
}

/// Whether the character sequences `a` and `b` are equal.
pub fn str_eq(a: &str, b: &str) -> (r: bool)
    ensures
        r == (a@ == b@),
{
    let na = a.unicode_len();
    let nb = b.unicode_len();
    if na != nb {
        return false;
    }
    let mut i: usize = 0;
    while i < na
        invariant
            na == a@.len(),
            na == b@.len(),
            0 <= i <= na,
            forall|j: int| 0 <= j < i ==> a@[j] == b@[j],
        decreases na - i,
    {
        if a.get_char(i) != b.get_char(i) {
            return false;
        }
        i += 1;
    }
    proof {
        assert(a@ =~= b@);
    }
    true
}

} // verus!
