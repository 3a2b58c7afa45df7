//! Small text helpers shared by the parsers: exact comparison, ASCII case
//! folding and decimal and hexadecimal digits.
use vstd::prelude::*;

verus! {

/// Whether `s` and `expected` hold the same characters.
pub fn text_is(s: &str, expected: &str) -> (same: bool)
    ensures
        same == (s@ == expected@),
{
    let n = s.unicode_len();
    let m = expected.unicode_len();
    if n != m {
        return false;
    }
    let mut i: usize = 0;
    while i < n
        invariant
            n == s@.len(),
            m == expected@.len(),
            n == m,
            i <= n,
            forall|j: int| 0 <= j < i ==> s@[j] == expected@[j],
        decreases n - i,
    {
        if s.get_char(i) != expected.get_char(i) {
            return false;
        }
        i = i + 1;
    }
    assert(s@ =~= expected@);
    true
}

/// The ASCII lower-case form of a character; other characters are unchanged.
pub open spec fn ascii_lower(c: char) -> char {
    if 'A' <= c && c <= 'Z' {
        ((c as int) + 32) as char
    } else {
        c
    }
}

/// Equality of two texts when ASCII letters are compared without case.
pub open spec fn eq_ignore_ascii_case(s: Seq<char>, t: Seq<char>) -> bool {
    s.len() == t.len() && forall|i: int| 0 <= i < s.len() ==> ascii_lower(s[i]) == ascii_lower(t[i])
}

/// The value of a hexadecimal digit, in either case.
pub open spec fn hex_digit_value(c: char) -> Option<u32> {
    if '0' <= c && c <= '9' {
        Some(((c as int) - ('0' as int)) as u32)
    } else if 'a' <= c && c <= 'f' {
        Some(((c as int) - ('a' as int) + 10) as u32)
    } else if 'A' <= c && c <= 'F' {
        Some(((c as int) - ('A' as int) + 10) as u32)
    } else {
        None
    }
}

/// The value of a decimal digit.
pub open spec fn dec_digit_value(c: char) -> Option<u32> {
    if '0' <= c && c <= '9' {
        Some(((c as int) - ('0' as int)) as u32)
    } else {
        None
    }
}

/// Whether every character is a hexadecimal digit.
pub open spec fn all_hex_digits(s: Seq<char>) -> bool {
    forall|i: int| 0 <= i < s.len() ==> (#[trigger] hex_digit_value(s[i])) is Some
}

/// Whether every character is a decimal digit.
pub open spec fn all_dec_digits(s: Seq<char>) -> bool {
    forall|i: int| 0 <= i < s.len() ==> (#[trigger] dec_digit_value(s[i])) is Some
}

/// The number that a string of hexadecimal digits denotes, most significant
/// digit first.
pub open spec fn hex_value(s: Seq<char>) -> int
    decreases s.len(),
{
    if s.len() == 0 {
        0
    } else {
        hex_value(s.drop_last()) * 16 + hex_digit_value(s.last())->0 as int
    }
}

/// The number that a string of decimal digits denotes, most significant digit
/// first.
pub open spec fn dec_value(s: Seq<char>) -> int
    decreases s.len(),
{
    if s.len() == 0 {
        0
    } else {
        dec_value(s.drop_last()) * 10 + dec_digit_value(s.last())->0 as int
    }
}

/// Sixteen to the power `n`.
pub open spec fn pow16(n: nat) -> int
    decreases n,
{
    if n == 0 {
        1
    } else {
        16 * pow16((n - 1) as nat)
    }
}

/// The value of one hexadecimal digit.
pub fn hex_digit(c: char) -> (d: Option<u32>)
    ensures
        d == hex_digit_value(c),
        d matches Some(v) ==> v < 16,
{
    if '0' <= c && c <= '9' {
        Some((c as u32) - ('0' as u32))
    } else if 'a' <= c && c <= 'f' {
        Some((c as u32) - ('a' as u32) + 10)
    } else if 'A' <= c && c <= 'F' {
        Some((c as u32) - ('A' as u32) + 10)
    } else {
        None
    }
}

/// The value of one decimal digit.
pub fn dec_digit(c: char) -> (d: Option<u32>)
    ensures
        d == dec_digit_value(c),
        d matches Some(v) ==> v < 10,
{
    if '0' <= c && c <= '9' {
        Some((c as u32) - ('0' as u32))
    } else {
        None
    }
}

/// A hexadecimal number of `n` digits is below sixteen to the `n`.
pub proof fn lemma_hex_value_bound(s: Seq<char>)
    requires
        all_hex_digits(s),
    ensures
        0 <= hex_value(s) < pow16(s.len()),
    decreases s.len(),
{
    if s.len() > 0 {
        let p = s.drop_last();
        assert(all_hex_digits(p)) by {
            assert forall|i: int| 0 <= i < p.len() implies (#[trigger] hex_digit_value(
                p[i],
            )) is Some by {
                assert(p[i] == s[i]);
                assert(hex_digit_value(s[i]) is Some);
            }
        }
        lemma_hex_value_bound(p);
        assert(hex_digit_value(s[s.len() - 1]) is Some);
        let d = hex_digit_value(s.last())->0 as int;
        let h = hex_value(p);
        let q = pow16(p.len());
        assert(0 <= d < 16);
        assert(h * 16 + d < q * 16) by (nonlinear_arith)
            requires
                0 <= h < q,
                0 <= d < 16,
        ;
        assert(0 <= h * 16 + d) by (nonlinear_arith)
            requires
                0 <= h,
                0 <= d,
        ;
    }
}

} // verus!
