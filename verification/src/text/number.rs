//! Decimal numbers in text.

use vstd::prelude::*;
use crate::text::chars;

verus! {

/// `c` is one of the digits 0 to 9.
pub open spec fn is_digit(c: char) -> bool {
    '0' <= c <= '9'
}

/// The number that the digit `c` stands for.
pub open spec fn digit_value(c: char) -> nat
    recommends
        is_digit(c),
{
    (c as u32 - '0' as u32) as nat
}

/// `s` is a non-empty run of digits.
pub open spec fn all_digits(s: Seq<char>) -> bool {
    s.len() > 0 && forall|i: int| 0 <= i < s.len() ==> is_digit(#[trigger] s[i])
}

/// The number that a run of digits stands for.
pub open spec fn digits_value(s: Seq<char>) -> nat
    decreases s.len(),
{
    if s.len() == 0 {
        0
    } else {
        digits_value(s.drop_last()) * 10 + digit_value(s.last())
    }
}

/// The digits that a number is written with in `s`: an optional plus sign is
/// left out.
pub open spec fn unsigned_digits(s: Seq<char>) -> Seq<char> {
    if s.len() > 0 && s[0] == '+' {
        s.drop_first()
    } else {
        s
    }
}

/// The number, no larger than `max`, that the whole of `s` is the decimal form
/// of: an optional plus sign and one or more digits.
pub open spec fn unsigned(s: Seq<char>, max: nat) -> Option<nat> {
    let d = unsigned_digits(s);
    if all_digits(d) && digits_value(d) <= max {
        Some(digits_value(d))
    } else {
        None
    }
}

/// The digit that stands for `n`.
pub open spec fn digit(n: nat) -> char
    recommends
        n < 10,
{
    (n + '0' as u32) as char
}

/// The decimal form of `n`, with no sign and no leading zero.
pub open spec fn decimal(n: nat) -> Seq<char>
    decreases n,
{
    if n < 10 {
        seq![digit(n)]
    } else {
        decimal(n / 10).push(digit(n % 10))
    }
}

/// A run of digits is worth at least as much as any front part of it.
proof fn lemma_digits_value_monotone(s: Seq<char>, k: int)
    requires
        0 <= k <= s.len(),
    ensures
        digits_value(s.take(k)) <= digits_value(s),
    decreases s.len() - k,
{
    if k < s.len() {
        lemma_digits_value_monotone(s, k + 1);
        assert(s.take(k + 1).drop_last() =~= s.take(k));
    } else {
        assert(s.take(k) =~= s);
    }
}

/// The decimal form of a number is a run of digits that stands for it.
pub proof fn lemma_decimal(n: nat)
    ensures
        all_digits(decimal(n)),
        digits_value(decimal(n)) == n,
    decreases n,
{
    if n < 10 {
        reveal_with_fuel(digits_value, 2);
        assert(decimal(n).drop_last() =~= seq![]);
    } else {
        lemma_decimal(n / 10);
        assert(decimal(n).drop_last() =~= decimal(n / 10));
    }
}

/// Reading the decimal form of a number gives the number back.
pub proof fn lemma_unsigned_decimal(n: nat, max: nat)
    requires
        n <= max,
    ensures
        unsigned(decimal(n), max) == Some(n),
{
    lemma_decimal(n);
    assert(is_digit(decimal(n)[0]));
    assert(unsigned_digits(decimal(n)) =~= decimal(n));
}

/// The number, no larger than `max`, that `s` is the decimal form of.
pub fn parse_unsigned(s: &str, max: u64) -> (r: Option<u64>)
    requires
        max <= 0xffff_ffff,
    ensures
        match r {
            Some(n) => unsigned(s@, max as nat) == Some(n as nat),
            None => unsigned(s@, max as nat) is None,
        },
{
    let v = chars::chars_of(s);
    let start: usize = if v.len() > 0 && v[0] == '+' {
        1
    } else {
        0
    };
    let ghost d = unsigned_digits(s@);
    assert(d =~= v@.skip(start as int));
    if start == v.len() {
        return None;
    }
    let mut n: u64 = 0;
    let mut i: usize = start;
    assert(d.take(0) =~= seq![]);
    while i < v.len()
        invariant
            v@ == s@,
            d == unsigned_digits(s@),
            d == v@.skip(start as int),
            start <= i <= v.len(),
            max <= 0xffff_ffff,
            n <= max,
            n == digits_value(d.take(i - start)),
            forall|j: int| 0 <= j < i - start ==> is_digit(#[trigger] d[j]),
        decreases v.len() - i,
    {
        let c = v[i];
        assert(d[i - start] == c);
        if !('0' <= c && c <= '9') {
            return None;
        }
        let digit: u64 = (c as u32 - '0' as u32) as u64;
        n = n * 10 + digit;
        proof {
            let k = i - start + 1;
            assert(d.take(k).drop_last() =~= d.take(i - start));
            assert(d.take(k).last() == c);
            lemma_digits_value_monotone(d, k);
        }
        if n > max {
            return None;
        }
        i += 1;
    }
    assert(d.take(d.len() as int) =~= d);
    Some(n)
}

/// The `u32` that the whole of `s` is the decimal form of.
pub fn parse_u32(s: &str) -> (r: Option<u32>)
    ensures
        match r {
            Some(n) => unsigned(s@, u32::MAX as nat) == Some(n as nat),
            None => unsigned(s@, u32::MAX as nat) is None,
        },
{
    match parse_unsigned(s, u32::MAX as u64) {
        Some(n) => Some(n as u32),
        None => None,
    }
}

/// The `u16` that the whole of `s` is the decimal form of.
pub fn parse_u16(s: &str) -> (r: Option<u16>)
    ensures
        match r {
            Some(n) => unsigned(s@, u16::MAX as nat) == Some(n as nat),
            None => unsigned(s@, u16::MAX as nat) is None,
        },
{
    match parse_unsigned(s, u16::MAX as u64) {
        Some(n) => Some(n as u16),
        None => None,
    }
}

/// The decimal form of `n`.
pub fn decimal_text(n: u64) -> (r: String)
    ensures
        r@ == decimal(n as nat),
    decreases n,
{
    let d: u8 = (n % 10) as u8;
    let c: char = (d + 48) as char;
    if n < 10 {
        let mut s = String::new();
        s.push(c);
        assert(s@ =~= decimal(n as nat));
        s
    } else {
        let mut s = decimal_text(n / 10);
        s.push(c);
        s
    }
}

} // verus!
